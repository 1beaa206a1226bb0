//! The tokenizer: turns a character stream into a tree of tokens, handling
//! macros, escaping, numeric multipliers and nested groups with error
//! recovery.
//!
//! Each pulled item of the input is either a character or an upstream read
//! failure. Line and column positions are tracked for diagnostics only; they
//! saturate at `usize::MAX` instead of wrapping.

use vstd::prelude::*;

use crate::config::{Config, ConfigField};

verus! {

/// A group of [`Token`]s.
pub type Group = Vec<Token>;

/// A token recognized by the [`Lexer`].
#[derive(Debug)]
pub enum Token {
    /// Decimal number preceded by the configured number prefix.
    /// A digit string whose value exceeds `usize::MAX` is rejected by the
    /// tokenizer as a missing number, never wrapped.
    Number(usize),
    /// Operator specified in the [`Config`].
    Operator(char),
    /// A group of tokens, enclosed in the configured group delimiters.
    Group(Group),
}

/// Mathematical model of a [`Token`]: groups carry sequences of models.
pub enum TokenModel {
    Number(nat),
    Operator(char),
    Group(Seq<TokenModel>),
}

impl Token {
    /// The model of this token.
    pub open spec fn model(self) -> TokenModel
        decreases self,
    {
        match self {
            Token::Number(n) => TokenModel::Number(n as nat),
            Token::Operator(c) => TokenModel::Operator(c),
            Token::Group(g) => TokenModel::Group(
                Seq::new(
                    g@.len(),
                    |i: int|
                        if 0 <= i < g@.len() {
                            g[i].model()
                        } else {
                            TokenModel::Number(0)
                        },
                ),
            ),
        }
    }
}

/// The models of a sequence of tokens.
pub open spec fn tokens_model(ts: Seq<Token>) -> Seq<TokenModel> {
    Seq::new(ts.len(), |i: int| ts[i].model())
}

impl Clone for Token {
    /// Deep copy; the copy has the same model as the original.
    #[verifier::loop_isolation(false)]
    fn clone(&self) -> (r: Self)
        ensures
            r.model() == self.model(),
        decreases *self,
    {
        match self {
            Token::Number(n) => Token::Number(*n),
            Token::Operator(c) => Token::Operator(*c),
            Token::Group(g) => {
                let mut copy: Vec<Token> = Vec::new();
                let mut k: usize = 0;
                while k < g.len()
                    invariant
                        k <= g@.len(),
                        copy@.len() == k as int,
                        forall|t: int| 0 <= t < k ==> copy@[t].model() == g@[t].model(),
                    decreases g@.len() - k,
                {
                    proof {
                        assert(*g == self->Group_0);
                        assert(decreases_to!(*self => self->Group_0));
                        assert(decreases_to!(*g => g@[k as int]));
                        assert(decreases_to!(*self => g@[k as int]));
                    }
                    copy.push(g[k].clone());
                    k += 1;
                }
                proof {
                    assert(Token::Group(copy).model() matches TokenModel::Group(s1)
                        && self.model() matches TokenModel::Group(s2) && s1 =~= s2);
                }
                Token::Group(copy)
            },
        }
    }
}

/// A group of [`Error`]s collected from one scope, reported together.
#[derive(Debug)]
pub struct ErrorGroup(pub Vec<Error>);

/// Error produced by the [`Lexer`].
///
/// Every variant except `Input` carries the line and column at which it
/// occurred (1-based line; the column counts pulled characters and is reset
/// to 0 by a newline) and the relevant configured characters. `Input` marks
/// an upstream read failure: it is fatal and never aggregated. `Group` is a
/// non-empty aggregate of recoverable errors from one scope; aggregates are
/// flattened when built and are never nested.
#[derive(Debug)]
pub enum Error {
    Input,
    DelimiterUnopened { lineno: usize, colno: usize, group_start_delimiter: char, group_end_delimiter: char },
    DelimiterUnclosed { lineno: usize, colno: usize, group_start_delimiter: char, group_end_delimiter: char },
    NumberMissing { lineno: usize, colno: usize, number_prefix: char },
    MacroMissing { lineno: usize, colno: usize, macro_prefix: char },
    GroupEmpty { lineno: usize, colno: usize, group_start_delimiter: char, group_end_delimiter: char },
    Group(ErrorGroup),
}

/// Mathematical model of an [`Error`]: aggregates carry sequences.
pub enum ErrorModel {
    Input,
    DelimiterUnopened { lineno: usize, colno: usize, group_start_delimiter: char, group_end_delimiter: char },
    DelimiterUnclosed { lineno: usize, colno: usize, group_start_delimiter: char, group_end_delimiter: char },
    NumberMissing { lineno: usize, colno: usize, number_prefix: char },
    MacroMissing { lineno: usize, colno: usize, macro_prefix: char },
    GroupEmpty { lineno: usize, colno: usize, group_start_delimiter: char, group_end_delimiter: char },
    Group(Seq<ErrorModel>),
}

impl Error {
    /// The model of this error.
    pub open spec fn model(self) -> ErrorModel
        decreases self,
    {
        match self {
            Error::Input => ErrorModel::Input,
            Error::DelimiterUnopened { lineno, colno, group_start_delimiter, group_end_delimiter } =>
                ErrorModel::DelimiterUnopened { lineno, colno, group_start_delimiter, group_end_delimiter },
            Error::DelimiterUnclosed { lineno, colno, group_start_delimiter, group_end_delimiter } =>
                ErrorModel::DelimiterUnclosed { lineno, colno, group_start_delimiter, group_end_delimiter },
            Error::NumberMissing { lineno, colno, number_prefix } =>
                ErrorModel::NumberMissing { lineno, colno, number_prefix },
            Error::MacroMissing { lineno, colno, macro_prefix } =>
                ErrorModel::MacroMissing { lineno, colno, macro_prefix },
            Error::GroupEmpty { lineno, colno, group_start_delimiter, group_end_delimiter } =>
                ErrorModel::GroupEmpty { lineno, colno, group_start_delimiter, group_end_delimiter },
            Error::Group(eg) => ErrorModel::Group(
                Seq::new(
                    eg.0@.len(),
                    |i: int|
                        if 0 <= i < eg.0@.len() {
                            eg.0[i].model()
                        } else {
                            ErrorModel::Input
                        },
                ),
            ),
        }
    }
}

/// The models of a sequence of errors.
pub open spec fn errors_model(es: Seq<Error>) -> Seq<ErrorModel> {
    Seq::new(es.len(), |i: int| es[i].model())
}

/// The tokenizer state apart from the input itself: the next input index,
/// the current line and column, and the macro table (later bindings win).
pub struct LexState {
    pub i: int,
    pub line: usize,
    pub col: usize,
    pub macros: Seq<(char, TokenModel)>,
}

/// The state a fresh lexer starts in.
pub open spec fn init_state() -> LexState {
    LexState { i: 0, line: 1, col: 0, macros: Seq::empty() }
}

/// The token bound to `c`, scanning bindings from the most recent one.
pub open spec fn lookup_macro(macros: Seq<(char, TokenModel)>, c: char) -> Option<TokenModel>
    decreases macros.len(),
{
    if macros.len() == 0 {
        None
    } else if macros.last().0 == c {
        Some(macros.last().1)
    } else {
        lookup_macro(macros.drop_last(), c)
    }
}

/// Increment saturating at `usize::MAX`: positions are diagnostics only and
/// never wrap.
pub open spec fn sat_inc(x: usize) -> usize {
    if x == usize::MAX {
        x
    } else {
        (x + 1) as usize
    }
}

/// One pull from the input: consumes the next item if there is one. The
/// column advances on every pull, even past the end of the input; a newline
/// resets the column to 0 and advances the line.
pub open spec fn next_char_s(inp: Seq<Result<char, ()>>, st: LexState) -> (Option<Result<char, ()>>, LexState) {
    if st.i < inp.len() {
        let item = inp[st.i];
        let st1 = match item {
            Ok(c) => if c == '\n' {
                LexState { i: st.i + 1, line: sat_inc(st.line), col: 0, macros: st.macros }
            } else {
                LexState { i: st.i + 1, line: st.line, col: sat_inc(st.col), macros: st.macros }
            },
            Err(_) => LexState { i: st.i + 1, line: st.line, col: sat_inc(st.col), macros: st.macros },
        };
        (Some(item), st1)
    } else {
        (None, LexState { i: st.i, line: st.line, col: sat_inc(st.col), macros: st.macros })
    }
}

/// The model of the exec macro table.
pub open spec fn macros_model(m: Seq<(char, Token)>) -> Seq<(char, TokenModel)> {
    Seq::new(m.len(), |i: int| (m[i].0, m[i].1.model()))
}

/// Outcome of one attempt to read a token: a token, a failure, or the end
/// of the input.
pub enum Scan {
    Tok(TokenModel),
    Fail(ErrorModel),
    End,
}

/// Outcome of reading the contents of one group: a fatal input failure, or
/// the children read, the recoverable errors collected (already flattened),
/// and whether the group's close delimiter was found before end of input.
pub enum GroupScan {
    Fatal,
    Done(Seq<TokenModel>, Seq<ErrorModel>, bool),
}

/// Outcome of reading the whole input: a fatal input failure, or all tokens
/// read and the recoverable errors collected (already flattened).
pub enum AllScan {
    Fatal,
    Done(Seq<TokenModel>, Seq<ErrorModel>),
}

/// Outcome of the greedy digit scan after a number prefix.
pub enum DigitsScan {
    Fatal,
    Digits(Seq<char>),
}

/// An ASCII decimal digit.
pub open spec fn is_digit_char(c: char) -> bool {
    48 <= c as u32 && c as u32 <= 57
}

/// The value of one ASCII decimal digit.
pub open spec fn digit_val(c: char) -> nat {
    (c as u32 - 48) as nat
}

/// The value of a digit string read in base 10.
pub open spec fn digits_val(ds: Seq<char>) -> nat
    decreases ds.len(),
{
    if ds.len() == 0 {
        0
    } else {
        digits_val(ds.drop_last()) * 10 + digit_val(ds.last())
    }
}

/// How an error enters an error list: an aggregate is spliced in (one level
/// of flattening), anything else is appended as itself.
pub open spec fn flat_entry(e: ErrorModel) -> Seq<ErrorModel> {
    match e {
        ErrorModel::Group(es) => es,
        _ => seq![e],
    }
}

/// One step of the tokenizer: pull characters until a token, an error or
/// the end of the input decides the result.
///
/// A character bound in the macro table resolves to its bound token before
/// any role classification. Otherwise the character's role decides: an
/// escape prefix discards the next pulled item unconditionally and scanning
/// continues; a number prefix reads a number; a macro prefix reads a macro
/// definition and scanning continues; a group start delimiter reads a
/// group; a group end delimiter is an unopened-delimiter error (the signal
/// by which an enclosing group recognizes its own close); an operator is a
/// token by itself; an unclassified character is skipped.
pub open spec fn read_token_s(inp: Seq<Result<char, ()>>, cfg: Config, st: LexState) -> (Scan, LexState)
    decreases inp.len() - st.i, 0int,
{
    let (c0, st1) = next_char_s(inp, st);
    match c0 {
        None => (Scan::End, st1),
        Some(Err(_)) => (Scan::Fail(ErrorModel::Input), st1),
        Some(Ok(ch)) => match lookup_macro(st.macros, ch) {
            Some(t) => (Scan::Tok(t), st1),
            None => match cfg.role_of(ch) {
                Some(ConfigField::EscapePrefix) => {
                    let (_, st2) = next_char_s(inp, st1);
                    read_token_s(inp, cfg, st2)
                },
                Some(ConfigField::NumberPrefix) => {
                    let (dr, st2) = read_digits_s(inp, st1);
                    match dr {
                        DigitsScan::Fatal => (Scan::Fail(ErrorModel::Input), st2),
                        DigitsScan::Digits(ds) => if ds.len() == 0 || digits_val(ds) > usize::MAX as nat {
                            (
                                Scan::Fail(ErrorModel::NumberMissing {
                                    lineno: st2.line,
                                    colno: st2.col,
                                    number_prefix: cfg.number_prefix,
                                }),
                                st2,
                            )
                        } else {
                            (Scan::Tok(TokenModel::Number(digits_val(ds))), st2)
                        },
                    }
                },
                Some(ConfigField::MacroPrefix) => {
                    let (md, st2) = read_macro_def_s(inp, cfg, st1);
                    match md {
                        // a successful definition consumed its symbol and
                        // body, so the bound below never fails; it carries
                        // the termination measure
                        None => if st.i < st2.i <= inp.len() {
                            read_token_s(inp, cfg, st2)
                        } else {
                            (Scan::End, st2)
                        },
                        Some(e) => (Scan::Fail(e), st2),
                    }
                },
                Some(ConfigField::GroupStartDelimiter) => {
                    let (g, st2) = read_group_items_s(inp, cfg, st1);
                    match g {
                        GroupScan::Fatal => (Scan::Fail(ErrorModel::Input), st2),
                        GroupScan::Done(children, errs, _closed) => if errs.len() > 0 {
                            (Scan::Fail(ErrorModel::Group(errs)), st2)
                        } else if children.len() == 0 {
                            (
                                Scan::Fail(ErrorModel::GroupEmpty {
                                    lineno: st2.line,
                                    colno: st2.col,
                                    group_start_delimiter: cfg.group_start_delimiter,
                                    group_end_delimiter: cfg.group_end_delimiter,
                                }),
                                st2,
                            )
                        } else {
                            (Scan::Tok(TokenModel::Group(children)), st2)
                        },
                    }
                },
                Some(ConfigField::GroupEndDelimiter) => (
                    Scan::Fail(ErrorModel::DelimiterUnopened {
                        lineno: st1.line,
                        colno: st1.col,
                        group_start_delimiter: cfg.group_start_delimiter,
                        group_end_delimiter: cfg.group_end_delimiter,
                    }),
                    st1,
                ),
                Some(ConfigField::Operator) => (Scan::Tok(TokenModel::Operator(ch)), st1),
                None => read_token_s(inp, cfg, st1),
            },
        },
    }
}

/// The greedy digit scan after a number prefix: consumes ASCII digits by
/// lookahead, stopping without consuming at the first non-digit character.
/// An input failure met during the scan is consumed and fatal; the end of
/// the input stops the scan (the position bookkeeping still advances once,
/// as for any pull past the end).
pub open spec fn read_digits_s(inp: Seq<Result<char, ()>>, st: LexState) -> (DigitsScan, LexState)
    decreases inp.len() - st.i, 0int,
{
    if st.i < inp.len() {
        match inp[st.i] {
            Ok(c) => if is_digit_char(c) {
                let (_, st1) = next_char_s(inp, st);
                let (dr, st2) = read_digits_s(inp, st1);
                match dr {
                    DigitsScan::Fatal => (DigitsScan::Fatal, st2),
                    DigitsScan::Digits(ds) => (DigitsScan::Digits(seq![c] + ds), st2),
                }
            } else {
                (DigitsScan::Digits(seq![]), st)
            },
            Err(_) => {
                let (_, st1) = next_char_s(inp, st);
                (DigitsScan::Fatal, st1)
            },
        }
    } else {
        let (_, st1) = next_char_s(inp, st);
        (DigitsScan::Digits(seq![]), st1)
    }
}

/// A macro definition after the macro prefix: one character as the macro's
/// symbol, then one token as its body. `None` means success: the binding
/// was added to the macro table and no token is produced. The end of the
/// input before symbol or body is a missing-macro-body error; any failure
/// while reading the body is handed through.
pub open spec fn read_macro_def_s(inp: Seq<Result<char, ()>>, cfg: Config, st: LexState) -> (Option<ErrorModel>, LexState)
    decreases inp.len() - st.i, 1int,
{
    let (c0, st1) = next_char_s(inp, st);
    match c0 {
        None => (
            Some(ErrorModel::MacroMissing {
                lineno: st1.line,
                colno: st1.col,
                macro_prefix: cfg.macro_prefix,
            }),
            st1,
        ),
        Some(Err(_)) => (Some(ErrorModel::Input), st1),
        Some(Ok(sym)) => {
            let (body, st2) = read_token_s(inp, cfg, st1);
            match body {
                Scan::End => (
                    Some(ErrorModel::MacroMissing {
                        lineno: st2.line,
                        colno: st2.col,
                        macro_prefix: cfg.macro_prefix,
                    }),
                    st2,
                ),
                Scan::Fail(e) => (Some(e), st2),
                Scan::Tok(t) => (None, LexState { macros: st2.macros.push((sym, t)), ..st2 }),
            }
        },
    }
}

/// The contents of one group, read token by token. A token is appended to
/// the children; an unopened-delimiter failure is this group's own close
/// delimiter and stops the scan successfully; an input failure is fatal;
/// any other failure is collected (aggregates spliced in) and the scan goes
/// on; the end of the input appends an unclosed-group error and stops.
pub open spec fn read_group_items_s(inp: Seq<Result<char, ()>>, cfg: Config, st: LexState) -> (GroupScan, LexState)
    decreases inp.len() - st.i, 1int,
{
    let (sc, st1) = read_token_s(inp, cfg, st);
    match sc {
        Scan::End => (
            GroupScan::Done(
                seq![],
                seq![
                    ErrorModel::DelimiterUnclosed {
                        lineno: st1.line,
                        colno: st1.col,
                        group_start_delimiter: cfg.group_start_delimiter,
                        group_end_delimiter: cfg.group_end_delimiter,
                    }
                ],
                false,
            ),
            st1,
        ),
        Scan::Fail(e) => match e {
            ErrorModel::Input => (GroupScan::Fatal, st1),
            ErrorModel::DelimiterUnopened { .. } => (GroupScan::Done(seq![], seq![], true), st1),
            // a failed read still consumed at least one item, so the
            // bound below never fails; it carries the termination measure
            _ => if st.i < st1.i <= inp.len() {
                let (g, st2) = read_group_items_s(inp, cfg, st1);
                match g {
                    GroupScan::Fatal => (GroupScan::Fatal, st2),
                    GroupScan::Done(cs, es, closed) => (GroupScan::Done(cs, flat_entry(e) + es, closed), st2),
                }
            } else {
                (GroupScan::Done(seq![], seq![], false), st1)
            },
        },
        // a token read consumed at least one item, so the bound below
        // never fails; it carries the termination measure
        Scan::Tok(t) => if st.i < st1.i <= inp.len() {
            let (g, st2) = read_group_items_s(inp, cfg, st1);
            match g {
                GroupScan::Fatal => (GroupScan::Fatal, st2),
                GroupScan::Done(cs, es, closed) => (GroupScan::Done(seq![t] + cs, es, closed), st2),
            }
        } else {
            (GroupScan::Done(seq![], seq![], false), st1)
        },
    }
}

/// The whole input, read token by token from the given state. A token is
/// appended to the result; an input failure is fatal and discards
/// everything; any other failure is collected (aggregates spliced in) and
/// the scan goes on; the end of the input stops the scan.
pub open spec fn read_all_s(inp: Seq<Result<char, ()>>, cfg: Config, st: LexState) -> (AllScan, LexState)
    decreases inp.len() - st.i, 1int,
{
    let (sc, st1) = read_token_s(inp, cfg, st);
    match sc {
        Scan::End => (AllScan::Done(seq![], seq![]), st1),
        Scan::Fail(e) => match e {
            ErrorModel::Input => (AllScan::Fatal, st1),
            // a failed read still consumed at least one item, so the
            // bound below never fails; it carries the termination measure
            _ => if st.i < st1.i <= inp.len() {
                let (a, st2) = read_all_s(inp, cfg, st1);
                match a {
                    AllScan::Fatal => (AllScan::Fatal, st2),
                    AllScan::Done(ts, es) => (AllScan::Done(ts, flat_entry(e) + es), st2),
                }
            } else {
                (AllScan::Done(seq![], seq![]), st1)
            },
        },
        // a token read consumed at least one item, so the bound below
        // never fails; it carries the termination measure
        Scan::Tok(t) => if st.i < st1.i <= inp.len() {
            let (a, st2) = read_all_s(inp, cfg, st1);
            match a {
                AllScan::Fatal => (AllScan::Fatal, st2),
                AllScan::Done(ts, es) => (AllScan::Done(seq![t] + ts, es), st2),
            }
        } else {
            (AllScan::Done(seq![], seq![]), st1)
        },
    }
}

/// The outcome of [`Lexer::read_token`], as a [`Scan`].
pub open spec fn scan_of(r: Option<Result<Token, Error>>) -> Scan {
    match r {
        None => Scan::End,
        Some(Ok(t)) => Scan::Tok(t.model()),
        Some(Err(e)) => Scan::Fail(e.model()),
    }
}

/// Digits already consumed, put in front of the rest of a digit scan.
pub open spec fn prepend_digits(acc: Seq<char>, dr: (DigitsScan, LexState)) -> (DigitsScan, LexState) {
    match dr.0 {
        DigitsScan::Fatal => (DigitsScan::Fatal, dr.1),
        DigitsScan::Digits(ds) => (DigitsScan::Digits(acc + ds), dr.1),
    }
}

/// Children and errors already collected, put in front of the rest of a
/// group-contents scan.
pub open spec fn combine_group(ts0: Seq<TokenModel>, es0: Seq<ErrorModel>, g: (GroupScan, LexState)) -> (GroupScan, LexState) {
    match g.0 {
        GroupScan::Fatal => (GroupScan::Fatal, g.1),
        GroupScan::Done(cs, es, closed) => (GroupScan::Done(ts0 + cs, es0 + es, closed), g.1),
    }
}

/// Tokens and errors already collected, put in front of the rest of a
/// whole-input scan.
pub open spec fn combine_all(ts0: Seq<TokenModel>, es0: Seq<ErrorModel>, a: (AllScan, LexState)) -> (AllScan, LexState) {
    match a.0 {
        AllScan::Fatal => (AllScan::Fatal, a.1),
        AllScan::Done(ts, es) => (AllScan::Done(ts0 + ts, es0 + es), a.1),
    }
}

/// Reader of [`Token`]s from an input of pulled characters, each of which
/// may instead be an upstream read failure.
///
/// The lexer recognizes operators, numbers (preceded by the number prefix),
/// groups (enclosed in the group delimiters), macro definitions (the macro
/// prefix, a character, then a token) and macro occurrences. Every other
/// character is skipped, and the escape prefix skips the character after it
/// unconditionally. A character bound as a macro resolves to its bound token
/// before any role classification, even if it is also an operator, prefix or
/// delimiter.
pub struct Lexer<'a> {
    config: &'a Config,
    input: Vec<Result<char, ()>>,
    pos: usize,
    macro_symbol_table: Vec<(char, Token)>,
    lineno: usize,
    colno: usize,
}

impl<'a> Lexer<'a> {
    /// The input this lexer was created with.
    pub closed spec fn inp(&self) -> Seq<Result<char, ()>> {
        self.input@
    }

    /// The configuration this lexer was created with.
    pub closed spec fn cfg(&self) -> Config {
        *self.config
    }

    /// The abstract tokenizer state.
    pub closed spec fn st(&self) -> LexState {
        LexState {
            i: self.pos as int,
            line: self.lineno,
            col: self.colno,
            macros: macros_model(self.macro_symbol_table@),
        }
    }

    /// The next input index never runs past the input.
    pub closed spec fn wf(&self) -> bool {
        self.pos <= self.input@.len()
    }

    /// Create a new `Lexer` with the given input and [`Config`].
    pub fn new(input: Vec<Result<char, ()>>, config: &'a Config) -> (r: Lexer<'a>)
        ensures
            r.wf(),
            r.inp() == input@,
            r.cfg() == *config,
            r.st() == init_state(),
    {
        let r = Lexer {
            config,
            input,
            pos: 0,
            macro_symbol_table: Vec::new(),
            lineno: 1,
            colno: 0,
        };
        proof {
            assert(macros_model(r.macro_symbol_table@) =~= Seq::<(char, TokenModel)>::empty());
            assert(r.st() == init_state());
        }
        r
    }

    /// Advance the input, updating the position bookkeeping.
    fn next_char(&mut self) -> (r: Option<Result<char, ()>>)
        requires
            old(self).wf(),
        ensures
            final(self).wf(),
            final(self).input@ == old(self).input@,
            final(self).config == old(self).config,
            final(self).macro_symbol_table == old(self).macro_symbol_table,
            ({
                let (c, st1) = next_char_s(old(self).inp(), old(self).st());
                r == c && final(self).st() == st1
            }),
            r is Some ==> final(self).pos == old(self).pos + 1,
            r is None ==> final(self).pos == old(self).pos,
    {
        let item = if self.pos < self.input.len() {
            let it = self.input[self.pos];
            self.pos = self.pos + 1;
            Some(it)
        } else {
            None
        };
        if self.colno < usize::MAX {
            self.colno = self.colno + 1;
        }
        if let Some(Ok(c)) = item {
            if c == '\n' {
                if self.lineno < usize::MAX {
                    self.lineno = self.lineno + 1;
                }
                self.colno = 0;
            }
        }
        item
    }

    /// Look the character up in the macro table, most recent binding first,
    /// returning a copy of the bound token.
    fn lookup_macro_table(&self, c: char) -> (r: Option<Token>)
        ensures
            match r {
                Some(t) => lookup_macro(self.st().macros, c) matches Some(m) && t.model() == m,
                None => lookup_macro(self.st().macros, c) is None,
            },
    {
        let ghost m = macros_model(self.macro_symbol_table@);
        proof {
            assert(m.take(m.len() as int) =~= m);
        }
        let mut j: usize = self.macro_symbol_table.len();
        while j > 0
            invariant
                j <= self.macro_symbol_table@.len(),
                m == macros_model(self.macro_symbol_table@),
                lookup_macro(m, c) == lookup_macro(m.take(j as int), c),
            decreases j,
        {
            j = j - 1;
            let entry_char = self.macro_symbol_table[j].0;
            proof {
                assert(m.take(j + 1).drop_last() =~= m.take(j as int));
                assert(m.take(j + 1).last() == m[j as int]);
            }
            if entry_char == c {
                let t = self.macro_symbol_table[j].1.clone();
                return Some(t);
            }
        }
        proof {
            assert(m.take(0) =~= Seq::<(char, TokenModel)>::empty());
        }
        None
    }

    /// Try to read a [`Token`]. `None` means the input is exhausted; an
    /// error is reported as described on [`Error`]. The result and the new
    /// state are exactly those of [`read_token_s`] on the old state.
    #[verifier::rlimit(50)]
    pub fn read_token(&mut self) -> (r: Option<Result<Token, Error>>)
        requires
            old(self).wf(),
        ensures
            final(self).wf(),
            final(self).inp() == old(self).inp(),
            final(self).cfg() == old(self).cfg(),
            ({
                let (sc, st1) = read_token_s(old(self).inp(), old(self).cfg(), old(self).st());
                scan_of(r) == sc && final(self).st() == st1
            }),
            final(self).st().i >= old(self).st().i,
            r is Some ==> final(self).st().i > old(self).st().i,
        decreases old(self).inp().len() - old(self).st().i, 0int,
    {
        let ghost inp0 = self.inp();
        let ghost cfg0 = self.cfg();
        let ghost st0 = self.st();
        let ghost expect = read_token_s(inp0, cfg0, st0);
        let ch = match self.next_char() {
            None => {
                return None;
            },
            Some(Err(_)) => {
                return Some(Err(Error::Input));
            },
            Some(Ok(c)) => c,
        };
        if let Some(token) = self.lookup_macro_table(ch) {
            proof {
                assert(expect.0 == Scan::Tok(token.model()));
                assert(self.st() == expect.1);
            }
            return Some(Ok(token));
        }
        let r = match self.config.get_field(ch) {
            Some(ConfigField::EscapePrefix) => {
                let _ = self.next_char();
                let r2 = self.read_token();
                proof {
                    assert(scan_of(r2) == expect.0);
                    assert(self.st() == expect.1);
                }
                r2
            },
            Some(ConfigField::NumberPrefix) => match self.read_number() {
                Ok(number) => {
                    let res = Some(Ok(Token::Number(number)));
                    proof {
                        lemma_number_model(number);
                        assert(expect.0 == Scan::Tok(TokenModel::Number(number as nat)));
                        assert(scan_of(res) == expect.0);
                        assert(self.st() == expect.1);
                    }
                    res
                },
                Err(error) => {
                    let res = Some(Err(error));
                    proof {
                        assert(res matches Some(rr) && rr matches Err(e2) && scan_of(res)
                            == Scan::Fail(e2.model()));
                        assert(scan_of(res) == expect.0);
                        assert(self.st() == expect.1);
                    }
                    res
                },
            },
            Some(ConfigField::MacroPrefix) => match self.read_macro_definition() {
                Ok(_) => {
                    let r2 = self.read_token();
                    proof {
                        assert(scan_of(r2) == expect.0);
                        assert(self.st() == expect.1);
                    }
                    r2
                },
                Err(error) => {
                    let res = Some(Err(error));
                    proof {
                        assert(res matches Some(rr) && rr matches Err(e2) && scan_of(res)
                            == Scan::Fail(e2.model()));
                        assert(scan_of(res) == expect.0);
                        assert(self.st() == expect.1);
                    }
                    res
                },
            },
            Some(ConfigField::GroupStartDelimiter) => match self.read_group() {
                Ok(group) => {
                    let token = Token::Group(group);
                    proof {
                        assert(token.model() matches TokenModel::Group(s) && s =~= tokens_model(
                            token->Group_0@,
                        ));
                        assert(expect.0 == Scan::Tok(token.model()));
                        assert(scan_of(Some(Ok(token))) == expect.0);
                        assert(self.st() == expect.1);
                    }
                    Some(Ok(token))
                },
                Err(error) => {
                    let res = Some(Err(error));
                    proof {
                        assert(res matches Some(rr) && rr matches Err(e2) && scan_of(res)
                            == Scan::Fail(e2.model()));
                        assert(scan_of(res) == expect.0);
                        assert(self.st() == expect.1);
                    }
                    res
                },
            },
            Some(ConfigField::GroupEndDelimiter) => {
                let error = Error::DelimiterUnopened {
                    lineno: self.lineno,
                    colno: self.colno,
                    group_start_delimiter: self.config.group_start_delimiter,
                    group_end_delimiter: self.config.group_end_delimiter,
                };
                let res = Some(Err(error));
                proof {
                    assert(expect.0 == Scan::Fail(error.model()));
                    assert(scan_of(res) == expect.0);
                    assert(self.st() == expect.1);
                }
                res
            },
            Some(ConfigField::Operator) => {
                let res = Some(Ok(Token::Operator(ch)));
                proof {
                    lemma_operator_model(ch);
                    assert(expect.0 == Scan::Tok(TokenModel::Operator(ch)));
                    assert(scan_of(res) == expect.0);
                    assert(self.st() == expect.1);
                }
                res
            },
            None => {
                let r2 = self.read_token();
                proof {
                    assert(scan_of(r2) == expect.0);
                    assert(self.st() == expect.1);
                }
                r2
            },
        };
        proof {
            assert(scan_of(r) == expect.0);
            assert(self.st() == expect.1);
        }
        r
    }

    /// Try to read a base 10 number from the input, after its prefix. No
    /// digit at all, and a digit string whose value does not fit in
    /// `usize`, are both reported as a missing number.
    fn read_number(&mut self) -> (r: Result<usize, Error>)
        requires
            old(self).wf(),
        ensures
            final(self).wf(),
            final(self).inp() == old(self).inp(),
            final(self).cfg() == old(self).cfg(),
            ({
                let (dr, st1) = read_digits_s(old(self).inp(), old(self).st());
                final(self).st() == st1 && match dr {
                    DigitsScan::Fatal => r == Err::<usize, Error>(Error::Input),
                    DigitsScan::Digits(ds) => if ds.len() == 0 || digits_val(ds) > usize::MAX as nat {
                        r matches Err(e) && e.model() == (ErrorModel::NumberMissing {
                            lineno: st1.line,
                            colno: st1.col,
                            number_prefix: old(self).cfg().number_prefix,
                        })
                    } else {
                        r matches Ok(n) && n as nat == digits_val(ds)
                    },
                }
            }),
            final(self).st().i >= old(self).st().i,
    {
        let ghost inp = self.inp();
        let ghost st0 = self.st();
        let mut value: usize = 0;
        let mut overflow: bool = false;
        let mut has_digits: bool = false;
        let ghost mut acc: Seq<char> = Seq::empty();
        loop
            invariant_except_break
                inp == old(self).inp(),
                st0 == old(self).st(),
                self.wf(),
                self.inp() == inp,
                self.config == old(self).config,
                self.macro_symbol_table == old(self).macro_symbol_table,
                st0.i <= self.st().i,
                read_digits_s(inp, st0) == prepend_digits(acc, read_digits_s(inp, self.st())),
                !overflow ==> value as nat == digits_val(acc),
                overflow ==> digits_val(acc) > usize::MAX as nat,
                has_digits <==> acc.len() > 0,
            ensures
                inp == old(self).inp(),
                st0 == old(self).st(),
                self.wf(),
                self.inp() == inp,
                self.config == old(self).config,
                self.macro_symbol_table == old(self).macro_symbol_table,
                st0.i <= self.st().i,
                read_digits_s(inp, st0) == (DigitsScan::Digits(acc), self.st()),
                !overflow ==> value as nat == digits_val(acc),
                overflow ==> digits_val(acc) > usize::MAX as nat,
                has_digits <==> acc.len() > 0,
            decreases inp.len() - self.st().i,
        {
            proof {
                assert(acc + Seq::<char>::empty() =~= acc);
            }
            if self.pos < self.input.len() {
                let item = self.input[self.pos];
                match item {
                    Ok(c) => {
                        let cu = c as u32;
                        if 48 <= cu && cu <= 57 {
                            let ghost st_before = self.st();
                            let _ = self.next_char();
                            let d = (cu - 48) as usize;
                            proof {
                                assert(acc.push(c).drop_last() =~= acc);
                                assert(acc.push(c).last() == c);
                                assert(digits_val(acc.push(c)) == digits_val(acc) * 10 + digit_val(c));
                            }
                            let ghost mv: nat = usize::MAX as nat;
                            let ghost va: nat = value as nat;
                            let ghost dv: nat = d as nat;
                            proof {
                                assert(mv == (mv / 10) * 10 + mv % 10) by (nonlinear_arith);
                                assert(digit_val(c) == dv);
                            }
                            if overflow {
                                proof {
                                    assert(digits_val(acc) * 10 >= digits_val(acc))
                                        by (nonlinear_arith);
                                    assert(digits_val(acc.push(c)) > mv);
                                }
                            } else if value > usize::MAX / 10 || (value == usize::MAX / 10
                                && d > usize::MAX % 10) {
                                proof {
                                    assert(va * 10 + dv > mv) by (nonlinear_arith)
                                        requires
                                            dv < 10,
                                            (va > mv / 10) || (va == mv / 10 && dv > mv % 10),
                                            mv == (mv / 10) * 10 + mv % 10,
                                            mv % 10 < 10,
                                    ;
                                }
                                overflow = true;
                            } else {
                                proof {
                                    assert(va * 10 + dv <= mv) by (nonlinear_arith)
                                        requires
                                            (va < mv / 10 && dv < 10) || (va == mv / 10 && dv
                                                <= mv % 10),
                                            mv == (mv / 10) * 10 + mv % 10,
                                    ;
                                }
                                value = value * 10 + d;
                            }
                            has_digits = true;
                            proof {
                                acc = acc.push(c);
                                let (dr_b, st_b) = read_digits_s(inp, st_before);
                                let (dr_c, st_c) = read_digits_s(inp, self.st());
                                assert(match dr_c {
                                    DigitsScan::Fatal => dr_b == DigitsScan::Fatal && st_b == st_c,
                                    DigitsScan::Digits(ds) => dr_b == DigitsScan::Digits(
                                        seq![c] + ds,
                                    ) && st_b == st_c,
                                });
                                assert(forall|ds: Seq<char>|
                                    acc.drop_last() + (seq![c] + ds) =~= acc + ds);
                            }
                        } else {
                            break;
                        }
                    },
                    Err(_) => {
                        let _ = self.next_char();
                        return Err(Error::Input);
                    },
                }
            } else {
                let _ = self.next_char();
                break;
            }
        }
        if !has_digits || overflow {
            Err(Error::NumberMissing {
                lineno: self.lineno,
                colno: self.colno,
                number_prefix: self.config.number_prefix,
            })
        } else {
            Ok(value)
        }
    }

    /// Try to read a macro definition (its symbol character, then its body
    /// token) and bind it in the macro table. A successful definition
    /// produces no token.
    fn read_macro_definition(&mut self) -> (r: Result<(), Error>)
        requires
            old(self).wf(),
        ensures
            final(self).wf(),
            final(self).inp() == old(self).inp(),
            final(self).cfg() == old(self).cfg(),
            ({
                let (md, st1) = read_macro_def_s(old(self).inp(), old(self).cfg(), old(self).st());
                final(self).st() == st1 && match md {
                    None => r is Ok,
                    Some(e) => r matches Err(er) && er.model() == e,
                }
            }),
            final(self).st().i >= old(self).st().i,
            r is Ok ==> final(self).st().i > old(self).st().i,
        decreases old(self).inp().len() - old(self).st().i, 1int,
    {
        let macro_symbol = match self.next_char() {
            None => {
                return Err(Error::MacroMissing {
                    lineno: self.lineno,
                    colno: self.colno,
                    macro_prefix: self.config.macro_prefix,
                });
            },
            Some(Err(_)) => {
                return Err(Error::Input);
            },
            Some(Ok(c)) => c,
        };
        let macro_token = match self.read_token() {
            None => {
                return Err(Error::MacroMissing {
                    lineno: self.lineno,
                    colno: self.colno,
                    macro_prefix: self.config.macro_prefix,
                });
            },
            Some(Err(error)) => {
                return Err(error);
            },
            Some(Ok(token)) => token,
        };
        let ghost m_before = self.macro_symbol_table@;
        let ghost t_model = macro_token.model();
        self.macro_symbol_table.push((macro_symbol, macro_token));
        proof {
            assert(macros_model(self.macro_symbol_table@) =~= macros_model(m_before).push(
                (macro_symbol, t_model),
            ));
        }
        Ok(())
    }

    /// Try to read the contents of a group, after its start delimiter. An
    /// aggregate of the errors found in the group is reported if there were
    /// any; a group without children is an empty-group error.
    fn read_group(&mut self) -> (r: Result<Group, Error>)
        requires
            old(self).wf(),
        ensures
            final(self).wf(),
            final(self).inp() == old(self).inp(),
            final(self).cfg() == old(self).cfg(),
            ({
                let (g, st1) = read_group_items_s(old(self).inp(), old(self).cfg(), old(self).st());
                final(self).st() == st1 && match g {
                    GroupScan::Fatal => r == Err::<Group, Error>(Error::Input),
                    GroupScan::Done(cs, es, _) => if es.len() > 0 {
                        r matches Err(e) && e.model() == ErrorModel::Group(es)
                    } else if cs.len() == 0 {
                        r matches Err(e) && e.model() == (ErrorModel::GroupEmpty {
                            lineno: st1.line,
                            colno: st1.col,
                            group_start_delimiter: old(self).cfg().group_start_delimiter,
                            group_end_delimiter: old(self).cfg().group_end_delimiter,
                        })
                    } else {
                        r matches Ok(g2) && tokens_model(g2@) == cs
                    },
                }
            }),
            final(self).st().i >= old(self).st().i,
        decreases old(self).inp().len() - old(self).st().i, 1int,
    {
        let ghost inp = self.inp();
        let ghost cfg0 = *self.config;
        let ghost st0 = self.st();
        let mut group_tokens: Vec<Token> = Vec::new();
        let mut errors: Vec<Error> = Vec::new();
        proof {
            assert(tokens_model(group_tokens@) =~= Seq::<TokenModel>::empty());
            assert(errors_model(errors@) =~= Seq::<ErrorModel>::empty());
        }
        loop
            invariant_except_break
                inp == old(self).inp(),
                st0 == old(self).st(),
                cfg0 == old(self).cfg(),
                self.wf(),
                self.inp() == inp,
                self.config == old(self).config,
                *self.config == cfg0,
                st0.i <= self.st().i,
                read_group_items_s(inp, cfg0, st0) == combine_group(
                    tokens_model(group_tokens@),
                    errors_model(errors@),
                    read_group_items_s(inp, cfg0, self.st()),
                ),
            ensures
                inp == old(self).inp(),
                st0 == old(self).st(),
                cfg0 == old(self).cfg(),
                self.wf(),
                self.inp() == inp,
                self.config == old(self).config,
                st0.i <= self.st().i,
                ({
                    let (g, st1) = read_group_items_s(inp, cfg0, st0);
                    st1 == self.st() && (g matches GroupScan::Done(cs, es, _) && cs
                        == tokens_model(group_tokens@) && es == errors_model(errors@))
                }),
            decreases inp.len() - self.st().i,
        {
            let ghost st_before = self.st();
            let ghost ts0 = tokens_model(group_tokens@);
            let ghost es0 = errors_model(errors@);
            match self.read_token() {
                Some(Ok(token)) => {
                    let ghost tm = token.model();
                    group_tokens.push(token);
                    proof {
                        assert(tokens_model(group_tokens@) =~= ts0.push(tm));
                        let (g, st2) = read_group_items_s(inp, cfg0, self.st());
                        if g is Done {
                            assert(ts0 + (seq![tm] + g->Done_0) =~= ts0.push(tm) + g->Done_0);
                        }
                    }
                },
                Some(Err(e)) => {
                    match e {
                        Error::Input => {
                            return Err(Error::Input);
                        },
                        Error::DelimiterUnopened { .. } => {
                            proof {
                                assert(ts0 + Seq::<TokenModel>::empty() =~= ts0);
                                assert(es0 + Seq::<ErrorModel>::empty() =~= es0);
                            }
                            break;
                        },
                        Error::Group(eg) => {
                            let ghost em = Error::Group(eg).model();
                            let ErrorGroup(mut sub) = eg;
                            proof {
                                assert(em->Group_0 =~= errors_model(sub@));
                            }
                            errors.append(&mut sub);
                            proof {
                                assert(errors_model(errors@) =~= es0 + flat_entry(em));
                                let (g, st2) = read_group_items_s(inp, cfg0, self.st());
                                if g is Done {
                                    assert(es0 + (flat_entry(em) + g->Done_1) =~= (es0 + flat_entry(
                                        em,
                                    )) + g->Done_1);
                                }
                            }
                        },
                        other => {
                            let ghost em = other.model();
                            errors.push(other);
                            proof {
                                assert(flat_entry(em) =~= seq![em]);
                                assert(errors_model(errors@) =~= es0 + flat_entry(em));
                                let (g, st2) = read_group_items_s(inp, cfg0, self.st());
                                if g is Done {
                                    assert(es0 + (flat_entry(em) + g->Done_1) =~= (es0 + flat_entry(
                                        em,
                                    )) + g->Done_1);
                                }
                            }
                        },
                    }
                },
                None => {
                    let unclosed = Error::DelimiterUnclosed {
                        lineno: self.lineno,
                        colno: self.colno,
                        group_start_delimiter: self.config.group_start_delimiter,
                        group_end_delimiter: self.config.group_end_delimiter,
                    };
                    let ghost em = unclosed.model();
                    errors.push(unclosed);
                    proof {
                        assert(errors_model(errors@) =~= es0.push(em));
                        assert(ts0 + Seq::<TokenModel>::empty() =~= ts0);
                        assert(es0 + seq![em] =~= es0.push(em));
                    }
                    break;
                },
            }
        }
        if errors.len() > 0 {
            let e = Error::Group(ErrorGroup(errors));
            proof {
                assert(e.model() matches ErrorModel::Group(es) && es =~= errors_model(
                    e->Group_0.0@,
                ));
            }
            Err(e)
        } else if group_tokens.len() == 0 {
            Err(Error::GroupEmpty {
                lineno: self.lineno,
                colno: self.colno,
                group_start_delimiter: self.config.group_start_delimiter,
                group_end_delimiter: self.config.group_end_delimiter,
            })
        } else {
            Ok(group_tokens)
        }
    }

    /// Try to read every token in the input into a `Vec<Token>`. An
    /// upstream read failure is fatal and discards everything collected;
    /// otherwise every recoverable error found anywhere in the input is
    /// collected and the whole collection reported as one aggregate.
    pub fn read_all_tokens(&mut self) -> (r: Result<Vec<Token>, Error>)
        requires
            old(self).wf(),
        ensures
            final(self).wf(),
            final(self).inp() == old(self).inp(),
            final(self).cfg() == old(self).cfg(),
            ({
                let (a, st1) = read_all_s(old(self).inp(), old(self).cfg(), old(self).st());
                final(self).st() == st1 && match a {
                    AllScan::Fatal => r == Err::<Vec<Token>, Error>(Error::Input),
                    AllScan::Done(ts, es) => if es.len() > 0 {
                        r matches Err(e) && e.model() == ErrorModel::Group(es)
                    } else {
                        r matches Ok(v) && tokens_model(v@) == ts
                    },
                }
            }),
    {
        let ghost inp = self.inp();
        let ghost cfg0 = *self.config;
        let ghost st0 = self.st();
        let mut tokens: Vec<Token> = Vec::new();
        let mut errors: Vec<Error> = Vec::new();
        proof {
            assert(tokens_model(tokens@) =~= Seq::<TokenModel>::empty());
            assert(errors_model(errors@) =~= Seq::<ErrorModel>::empty());
        }
        loop
            invariant_except_break
                inp == old(self).inp(),
                st0 == old(self).st(),
                cfg0 == old(self).cfg(),
                self.wf(),
                self.inp() == inp,
                self.config == old(self).config,
                *self.config == cfg0,
                st0.i <= self.st().i,
                read_all_s(inp, cfg0, st0) == combine_all(
                    tokens_model(tokens@),
                    errors_model(errors@),
                    read_all_s(inp, cfg0, self.st()),
                ),
            ensures
                inp == old(self).inp(),
                st0 == old(self).st(),
                cfg0 == old(self).cfg(),
                self.wf(),
                self.inp() == inp,
                self.config == old(self).config,
                ({
                    let (a, st1) = read_all_s(inp, cfg0, st0);
                    st1 == self.st() && (a matches AllScan::Done(ts, es) && ts == tokens_model(
                        tokens@,
                    ) && es == errors_model(errors@))
                }),
            decreases inp.len() - self.st().i,
        {
            let ghost ts0 = tokens_model(tokens@);
            let ghost es0 = errors_model(errors@);
            match self.read_token() {
                Some(Ok(token)) => {
                    let ghost tm = token.model();
                    tokens.push(token);
                    proof {
                        assert(tokens_model(tokens@) =~= ts0.push(tm));
                        let (a, st2) = read_all_s(inp, cfg0, self.st());
                        if a is Done {
                            assert(ts0 + (seq![tm] + a->Done_0) =~= ts0.push(tm) + a->Done_0);
                        }
                    }
                },
                Some(Err(e)) => {
                    match e {
                        Error::Input => {
                            return Err(Error::Input);
                        },
                        Error::Group(eg) => {
                            let ghost em = Error::Group(eg).model();
                            let ErrorGroup(mut sub) = eg;
                            proof {
                                assert(em->Group_0 =~= errors_model(sub@));
                            }
                            errors.append(&mut sub);
                            proof {
                                assert(errors_model(errors@) =~= es0 + flat_entry(em));
                                let (a, st2) = read_all_s(inp, cfg0, self.st());
                                if a is Done {
                                    assert(es0 + (flat_entry(em) + a->Done_1) =~= (es0 + flat_entry(
                                        em,
                                    )) + a->Done_1);
                                }
                            }
                        },
                        other => {
                            let ghost em = other.model();
                            errors.push(other);
                            proof {
                                assert(flat_entry(em) =~= seq![em]);
                                assert(errors_model(errors@) =~= es0 + flat_entry(em));
                                let (a, st2) = read_all_s(inp, cfg0, self.st());
                                if a is Done {
                                    assert(es0 + (flat_entry(em) + a->Done_1) =~= (es0 + flat_entry(
                                        em,
                                    )) + a->Done_1);
                                }
                            }
                        },
                    }
                },
                None => {
                    proof {
                        assert(ts0 + Seq::<TokenModel>::empty() =~= ts0);
                        assert(es0 + Seq::<ErrorModel>::empty() =~= es0);
                    }
                    break;
                },
            }
        }
        if errors.len() > 0 {
            let e = Error::Group(ErrorGroup(errors));
            proof {
                assert(e.model() matches ErrorModel::Group(es) && es =~= errors_model(
                    e->Group_0.0@,
                ));
            }
            Err(e)
        } else {
            Ok(tokens)
        }
    }
}

/// The model of an operator token is the operator itself.
proof fn lemma_operator_model(c: char)
    ensures
        Token::Operator(c).model() == TokenModel::Operator(c),
{
}

/// The model of a number token is its value.
proof fn lemma_number_model(n: usize)
    ensures
        Token::Number(n).model() == TokenModel::Number(n as nat),
{
}

} // verus!
