//! Laws of the tokenizer and the emitter, stated over the specification
//! functions that the executable functions' contracts use.

use vstd::prelude::*;

use crate::config::Config;
use crate::lex::{
    DigitsScan, ErrorModel, LexState, Scan, TokenModel, lookup_macro, next_char_s, read_all_s,
    read_digits_s, read_group_items_s, read_macro_def_s, read_token_s,
};
use crate::pre::{emit_from, emit_op, emit_rep};

verus! {

/// One step of the tokenizer consumes input and stays within it: the next
/// index never moves backwards nor past the end, and anything but the end
/// of the input consumes at least one item.
pub proof fn lemma_scan_consumes(inp: Seq<Result<char, ()>>, cfg: Config, st: LexState)
    requires
        0 <= st.i <= inp.len(),
    ensures
        ({
            let (sc, st1) = read_token_s(inp, cfg, st);
            st.i <= st1.i <= inp.len() && (!(sc is End) ==> st.i < st1.i)
        }),
    decreases inp.len() - st.i, 0int,
{
    let (c0, st1) = next_char_s(inp, st);
    match c0 {
        None => {},
        Some(Err(_)) => {},
        Some(Ok(ch)) => {
            if lookup_macro(st.macros, ch) is Some {
            } else {
                match cfg.role_of(ch) {
                    Some(crate::config::ConfigField::EscapePrefix) => {
                        let (_, st2) = next_char_s(inp, st1);
                        lemma_scan_consumes(inp, cfg, st2);
                    },
                    Some(crate::config::ConfigField::NumberPrefix) => {
                        lemma_digits_consume(inp, st1);
                    },
                    Some(crate::config::ConfigField::MacroPrefix) => {
                        lemma_macro_def_consumes(inp, cfg, st1);
                        let (md, st2) = read_macro_def_s(inp, cfg, st1);
                        if md is None {
                            lemma_scan_consumes(inp, cfg, st2);
                        }
                    },
                    Some(crate::config::ConfigField::GroupStartDelimiter) => {
                        lemma_group_items_consume(inp, cfg, st1);
                    },
                    Some(crate::config::ConfigField::GroupEndDelimiter) => {},
                    Some(crate::config::ConfigField::Operator) => {},
                    None => {
                        lemma_scan_consumes(inp, cfg, st1);
                    },
                }
            }
        },
    }
}

/// The digit scan consumes input and stays within it.
pub proof fn lemma_digits_consume(inp: Seq<Result<char, ()>>, st: LexState)
    requires
        0 <= st.i <= inp.len(),
    ensures
        ({
            let (dr, st1) = read_digits_s(inp, st);
            st.i <= st1.i <= inp.len()
        }),
    decreases inp.len() - st.i, 0int,
{
    if st.i < inp.len() {
        match inp[st.i] {
            Ok(c) => {
                if crate::lex::is_digit_char(c) {
                    let (_, st1) = next_char_s(inp, st);
                    lemma_digits_consume(inp, st1);
                }
            },
            Err(_) => {},
        }
    }
}

/// A macro definition consumes input and stays within it; a successful one
/// consumes at least its symbol and body.
pub proof fn lemma_macro_def_consumes(inp: Seq<Result<char, ()>>, cfg: Config, st: LexState)
    requires
        0 <= st.i <= inp.len(),
    ensures
        ({
            let (md, st1) = read_macro_def_s(inp, cfg, st);
            st.i <= st1.i <= inp.len() && (md is None ==> st.i < st1.i)
        }),
    decreases inp.len() - st.i, 1int,
{
    let (c0, st1) = next_char_s(inp, st);
    if c0 matches Some(r) && r is Ok {
        lemma_scan_consumes(inp, cfg, st1);
    }
}

/// A group-contents scan consumes input and stays within it.
pub proof fn lemma_group_items_consume(inp: Seq<Result<char, ()>>, cfg: Config, st: LexState)
    requires
        0 <= st.i <= inp.len(),
    ensures
        ({
            let (g, st1) = read_group_items_s(inp, cfg, st);
            st.i <= st1.i <= inp.len()
        }),
    decreases inp.len() - st.i, 1int,
{
    lemma_scan_consumes(inp, cfg, st);
    let (sc, st1) = read_token_s(inp, cfg, st);
    match sc {
        Scan::End => {},
        Scan::Fail(e) => {
            if !(e is Input) && !(e is DelimiterUnopened) {
                lemma_group_items_consume(inp, cfg, st1);
            }
        },
        Scan::Tok(_) => {
            lemma_group_items_consume(inp, cfg, st1);
        },
    }
}

/// A group missing its close delimiter before end of input always reports
/// an unclosed group as the last error of its scope, never an unopened
/// delimiter: the scan that did not find its close delimiter ends with
/// exactly one unclosed-group error appended.
pub proof fn lemma_unclosed_group(inp: Seq<Result<char, ()>>, cfg: Config, st: LexState)
    requires
        0 <= st.i <= inp.len(),
    ensures
        ({
            let (g, st1) = read_group_items_s(inp, cfg, st);
            g matches crate::lex::GroupScan::Done(cs, es, closed) ==> (!closed ==> (es.len() > 0
                && es.last() is DelimiterUnclosed))
        }),
    decreases inp.len() - st.i,
{
    lemma_scan_consumes(inp, cfg, st);
    let (sc, st1) = read_token_s(inp, cfg, st);
    match sc {
        Scan::End => {},
        Scan::Fail(e) => {
            if !(e is Input) && !(e is DelimiterUnopened) {
                lemma_unclosed_group(inp, cfg, st1);
                let (g2, st2) = read_group_items_s(inp, cfg, st1);
                match g2 {
                    crate::lex::GroupScan::Done(cs2, es2, closed2) => {
                        if !closed2 {
                            assert((crate::lex::flat_entry(e) + es2).last() == es2.last());
                        }
                    },
                    _ => {},
                }
            }
        },
        Scan::Tok(_) => {
            lemma_unclosed_group(inp, cfg, st1);
        },
    }
}

/// An empty group yields exactly an empty-group error, at the position
/// just past its close delimiter.
pub proof fn lemma_empty_group(inp: Seq<Result<char, ()>>, cfg: Config, st: LexState)
    requires
        cfg.wf(),
        0 <= st.i,
        st.i + 1 < inp.len(),
        inp[st.i] == Ok::<char, ()>(cfg.group_start_delimiter),
        inp[st.i + 1] == Ok::<char, ()>(cfg.group_end_delimiter),
        lookup_macro(st.macros, cfg.group_start_delimiter) is None,
        lookup_macro(st.macros, cfg.group_end_delimiter) is None,
    ensures
        ({
            let (sc, st1) = read_token_s(inp, cfg, st);
            let st2 = next_char_s(inp, next_char_s(inp, st).1).1;
            sc == Scan::Fail(ErrorModel::GroupEmpty {
                lineno: st2.line,
                colno: st2.col,
                group_start_delimiter: cfg.group_start_delimiter,
                group_end_delimiter: cfg.group_end_delimiter,
            }) && st1 == st2
        }),
{
    let (c0, st1) = next_char_s(inp, st);
    let (c1, st2) = next_char_s(inp, st1);
    assert(cfg.role_of(cfg.group_start_delimiter) == Some(
        crate::config::ConfigField::GroupStartDelimiter,
    ));
    assert(cfg.role_of(cfg.group_end_delimiter) == Some(
        crate::config::ConfigField::GroupEndDelimiter,
    ));
    assert(read_token_s(inp, cfg, st1) == (
        Scan::Fail(ErrorModel::DelimiterUnopened {
            lineno: st2.line,
            colno: st2.col,
            group_start_delimiter: cfg.group_start_delimiter,
            group_end_delimiter: cfg.group_end_delimiter,
        }),
        st2,
    ));
    assert(read_group_items_s(inp, cfg, st1) == (
        crate::lex::GroupScan::Done(Seq::<TokenModel>::empty(), Seq::<ErrorModel>::empty(), true),
        st2,
    ));
}

/// Escaping any character — operator, delimiter or prefix included —
/// causes it to be skipped, with no token produced and no error: scanning
/// continues exactly as from past the escape prefix and the escaped
/// character, with only the position bookkeeping advanced.
pub proof fn lemma_escape_skips(inp: Seq<Result<char, ()>>, cfg: Config, st: LexState)
    requires
        cfg.wf(),
        0 <= st.i < inp.len(),
        inp[st.i] == Ok::<char, ()>(cfg.escape_prefix),
        lookup_macro(st.macros, cfg.escape_prefix) is None,
    ensures
        read_token_s(inp, cfg, st) == read_token_s(
            inp,
            cfg,
            next_char_s(inp, next_char_s(inp, st).1).1,
        ),
{
    assert(cfg.role_of(cfg.escape_prefix) == Some(crate::config::ConfigField::EscapePrefix));
}

/// A character bound in the macro table resolves to the bound token, even
/// if it is also a configured operator, prefix or delimiter: the result
/// does not consult the character's role at all.
pub proof fn lemma_macro_resolves(
    inp: Seq<Result<char, ()>>,
    cfg: Config,
    st: LexState,
    c: char,
    t: TokenModel,
)
    requires
        0 <= st.i < inp.len(),
        inp[st.i] == Ok::<char, ()>(c),
        lookup_macro(st.macros, c) == Some(t),
    ensures
        ({
            let (sc, st1) = read_token_s(inp, cfg, st);
            sc == Scan::Tok(t) && st1.i == st.i + 1 && st1.macros == st.macros
        }),
{
}

/// The most recent binding of a character wins, and binding one character
/// leaves every other character's binding unchanged.
pub proof fn lemma_latest_binding_wins(
    macros: Seq<(char, TokenModel)>,
    c: char,
    t: TokenModel,
    d: char,
)
    ensures
        lookup_macro(macros.push((c, t)), c) == Some(t),
        d != c ==> lookup_macro(macros.push((c, t)), d) == lookup_macro(macros, d),
{
    assert(macros.push((c, t)).last() == (c, t));
    assert(macros.push((c, t)).drop_last() =~= macros);
}

/// What one step of the structural scan below ends with: a token, the end
/// of the input, or a close delimiter with no enclosing open.
pub enum CleanKind {
    Tok,
    End,
    Close,
}

/// Where the run of ASCII digits starting at `i` ends.
pub open spec fn digit_run_end(inp: Seq<Result<char, ()>>, i: int) -> int
    decreases inp.len() - i,
{
    if 0 <= i < inp.len() {
        match inp[i] {
            Ok(c) => if crate::lex::is_digit_char(c) {
                digit_run_end(inp, i + 1)
            } else {
                i
            },
            Err(_) => i,
        }
    } else {
        i
    }
}

/// The run of ASCII digits starting at `i`.
pub open spec fn run_digits(inp: Seq<Result<char, ()>>, i: int) -> Seq<char>
    decreases inp.len() - i,
{
    if 0 <= i < inp.len() {
        match inp[i] {
            Ok(c) => if crate::lex::is_digit_char(c) {
                seq![c] + run_digits(inp, i + 1)
            } else {
                seq![]
            },
            Err(_) => seq![],
        }
    } else {
        seq![]
    }
}

/// A structural scan of one token, without macro state or diagnostics:
/// `Some((j, kind))` says the scan from `i` is well formed, ends at `j` and
/// produced `kind`. `None` marks what the well-formedness below excludes: a
/// read failure, a number prefix without digits or whose value does not fit
/// in `usize`, a digit run cut short by a read failure, an empty group, a
/// group without its close delimiter, and any macro definition (a macro can
/// rebind a delimiter, so "balanced" has no structural meaning once macro
/// definitions are in play).
pub open spec fn clean_token(inp: Seq<Result<char, ()>>, cfg: Config, i: int) -> Option<(int, CleanKind)>
    decreases inp.len() - i, 0int,
{
    if i < 0 {
        None
    } else if i >= inp.len() {
        Some((i, CleanKind::End))
    } else {
        match inp[i] {
            Err(_) => None,
            Ok(ch) => match cfg.role_of(ch) {
                Some(crate::config::ConfigField::EscapePrefix) => {
                    let j = if i + 1 < inp.len() {
                        i + 2
                    } else {
                        i + 1
                    };
                    clean_token(inp, cfg, j)
                },
                Some(crate::config::ConfigField::NumberPrefix) => {
                    let d = digit_run_end(inp, i + 1);
                    let ds = run_digits(inp, i + 1);
                    if ds.len() > 0 && crate::lex::digits_val(ds) <= usize::MAX as nat && (d
                        == inp.len() || inp[d] is Ok) {
                        Some((d, CleanKind::Tok))
                    } else {
                        None
                    }
                },
                Some(crate::config::ConfigField::MacroPrefix) => None,
                Some(crate::config::ConfigField::GroupStartDelimiter) => match clean_group(
                    inp,
                    cfg,
                    i + 1,
                ) {
                    None => None,
                    Some((j, n)) => if n > 0 {
                        Some((j, CleanKind::Tok))
                    } else {
                        None
                    },
                },
                Some(crate::config::ConfigField::GroupEndDelimiter) => Some((
                    i + 1,
                    CleanKind::Close,
                )),
                Some(crate::config::ConfigField::Operator) => Some((i + 1, CleanKind::Tok)),
                None => clean_token(inp, cfg, i + 1),
            },
        }
    }
}

/// A structural scan of a group's contents up to and including its close
/// delimiter: the index past the close delimiter and the number of tokens.
pub open spec fn clean_group(inp: Seq<Result<char, ()>>, cfg: Config, i: int) -> Option<(int, nat)>
    decreases inp.len() - i, 1int,
{
    match clean_token(inp, cfg, i) {
        None => None,
        Some((j, kind)) => match kind {
            CleanKind::End => None,
            CleanKind::Close => Some((j, 0)),
            CleanKind::Tok => if i < j <= inp.len() {
                match clean_group(inp, cfg, j) {
                    None => None,
                    Some((k, n)) => Some((k, (n + 1) as nat)),
                }
            } else {
                None
            },
        },
    }
}

/// A structural scan of a whole input: well formed up to its end, with
/// every group matched and closed and no stray close delimiter.
pub open spec fn clean_all(inp: Seq<Result<char, ()>>, cfg: Config, i: int) -> bool
    decreases inp.len() - i, 1int,
{
    match clean_token(inp, cfg, i) {
        None => false,
        Some((j, kind)) => match kind {
            CleanKind::End => true,
            CleanKind::Close => false,
            CleanKind::Tok => i < j <= inp.len() && clean_all(inp, cfg, j),
        },
    }
}

/// Balanced, matched group delimiters and no undefined prefixes, as the
/// structural scan above defines them.
pub open spec fn wf_input(inp: Seq<Result<char, ()>>, cfg: Config) -> bool {
    clean_all(inp, cfg, 0)
}

/// The digit scan reads exactly the digit run, provided the run is not cut
/// short by a read failure.
proof fn lemma_digits_run(inp: Seq<Result<char, ()>>, st: LexState)
    requires
        0 <= st.i <= inp.len(),
        digit_run_end(inp, st.i) == inp.len() || inp[digit_run_end(inp, st.i)] is Ok,
    ensures
        ({
            let (dr, st1) = read_digits_s(inp, st);
            dr == DigitsScan::Digits(run_digits(inp, st.i)) && st1.i == digit_run_end(inp, st.i)
                && st1.macros == st.macros
        }),
    decreases inp.len() - st.i,
{
    if st.i < inp.len() {
        match inp[st.i] {
            Ok(c) => {
                if crate::lex::is_digit_char(c) {
                    let (_, st1) = next_char_s(inp, st);
                    lemma_digits_run(inp, st1);
                }
            },
            Err(_) => {},
        }
    }
}

/// On a clean scan step with an empty macro table, the tokenizer agrees
/// with the structural scan: it ends at the same index, leaves the table
/// empty, and produces a token, the end, or an unopened-delimiter failure
/// exactly as the step's kind says.
pub proof fn lemma_clean_token(inp: Seq<Result<char, ()>>, cfg: Config, st: LexState)
    requires
        0 <= st.i <= inp.len(),
        st.macros == Seq::<(char, TokenModel)>::empty(),
        clean_token(inp, cfg, st.i) is Some,
    ensures
        ({
            let (sc, st1) = read_token_s(inp, cfg, st);
            clean_token(inp, cfg, st.i) matches Some((j, kind)) && st1.i == j && st1.macros
                == st.macros && match kind {
                CleanKind::Tok => sc is Tok,
                CleanKind::End => sc is End,
                CleanKind::Close => sc matches Scan::Fail(e) && e is DelimiterUnopened,
            }
        }),
    decreases inp.len() - st.i, 0int,
{
    let (c0, st1) = next_char_s(inp, st);
    if st.i < inp.len() {
        match inp[st.i] {
            Err(_) => {},
            Ok(ch) => {
                assert(lookup_macro(st.macros, ch) is None);
                match cfg.role_of(ch) {
                    Some(crate::config::ConfigField::EscapePrefix) => {
                        let (_, st2) = next_char_s(inp, st1);
                        lemma_clean_token(inp, cfg, st2);
                    },
                    Some(crate::config::ConfigField::NumberPrefix) => {
                        lemma_digits_run(inp, st1);
                    },
                    Some(crate::config::ConfigField::MacroPrefix) => {},
                    Some(crate::config::ConfigField::GroupStartDelimiter) => {
                        lemma_clean_group(inp, cfg, st1);
                    },
                    Some(crate::config::ConfigField::GroupEndDelimiter) => {},
                    Some(crate::config::ConfigField::Operator) => {},
                    None => {
                        lemma_clean_token(inp, cfg, st1);
                    },
                }
            },
        }
    }
}

/// On a clean group scan with an empty macro table, the tokenizer reads the
/// same children, finds the close delimiter, and collects no error.
pub proof fn lemma_clean_group(inp: Seq<Result<char, ()>>, cfg: Config, st: LexState)
    requires
        0 <= st.i <= inp.len(),
        st.macros == Seq::<(char, TokenModel)>::empty(),
        clean_group(inp, cfg, st.i) is Some,
    ensures
        ({
            let (g, st1) = read_group_items_s(inp, cfg, st);
            clean_group(inp, cfg, st.i) matches Some((j, n)) && st1.i == j && st1.macros
                == st.macros && (g matches crate::lex::GroupScan::Done(cs, es, closed) && closed
                && es.len() == 0 && cs.len() == n)
        }),
    decreases inp.len() - st.i, 1int,
{
    lemma_clean_token(inp, cfg, st);
    lemma_scan_consumes(inp, cfg, st);
    let (sc, st1) = read_token_s(inp, cfg, st);
    match clean_token(inp, cfg, st.i) {
        Some((j, kind)) => match kind {
            CleanKind::End => {},
            CleanKind::Close => {},
            CleanKind::Tok => {
                lemma_clean_group(inp, cfg, st1);
            },
        },
        None => {},
    }
}

/// On a clean whole-input scan with an empty macro table, the tokenizer
/// collects no error at all.
pub proof fn lemma_clean_all(inp: Seq<Result<char, ()>>, cfg: Config, st: LexState)
    requires
        0 <= st.i <= inp.len(),
        st.macros == Seq::<(char, TokenModel)>::empty(),
        clean_all(inp, cfg, st.i),
    ensures
        ({
            let (a, st1) = read_all_s(inp, cfg, st);
            a matches crate::lex::AllScan::Done(ts, es) && es.len() == 0
        }),
    decreases inp.len() - st.i, 1int,
{
    lemma_clean_token(inp, cfg, st);
    lemma_scan_consumes(inp, cfg, st);
    let (sc, st1) = read_token_s(inp, cfg, st);
    match clean_token(inp, cfg, st.i) {
        Some((j, kind)) => match kind {
            CleanKind::End => {},
            CleanKind::Close => {},
            CleanKind::Tok => {
                lemma_clean_all(inp, cfg, st1);
            },
        },
        None => {},
    }
}

/// For all configurations, tokenizing an input with balanced, matched
/// group delimiters and no undefined prefixes yields no errors. The
/// well-formedness is [`wf_input`]; it admits no macro definitions, since a
/// macro can rebind a delimiter character and "balanced" then has no
/// structural meaning.
pub proof fn lemma_balanced_input_has_no_errors(inp: Seq<Result<char, ()>>, cfg: Config)
    requires
        wf_input(inp, cfg),
    ensures
        ({
            let (a, st1) = crate::lex::read_all_s(inp, cfg, crate::lex::init_state());
            a matches crate::lex::AllScan::Done(ts, es) && es.len() == 0
        }),
{
    lemma_clean_all(inp, cfg, crate::lex::init_state());
}

/// An unopened-delimiter failure arises exactly when the scan meets a
/// close delimiter with no corresponding open in scope: on any step the
/// structural scan accepts, with an empty macro table, the tokenizer
/// reports an unopened delimiter if and only if the step's kind is a stray
/// close.
pub proof fn lemma_unopened_end_iff_stray_close(inp: Seq<Result<char, ()>>, cfg: Config, st: LexState)
    requires
        0 <= st.i <= inp.len(),
        st.macros == Seq::<(char, TokenModel)>::empty(),
        clean_token(inp, cfg, st.i) is Some,
    ensures
        ({
            let (sc, st1) = read_token_s(inp, cfg, st);
            clean_token(inp, cfg, st.i) matches Some((j, kind)) && ((sc matches Scan::Fail(e)
                && e is DelimiterUnopened) <==> kind is Close)
        }),
{
    lemma_clean_token(inp, cfg, st);
}

/// A structural scan of a whole input that tolerates stray close
/// delimiters at top level and counts them: `Some(k)` says the input is
/// well formed but for exactly `k` close delimiters with no corresponding
/// open in scope.
pub open spec fn clean_all_loose(inp: Seq<Result<char, ()>>, cfg: Config, i: int) -> Option<nat>
    decreases inp.len() - i, 1int,
{
    match clean_token(inp, cfg, i) {
        None => None,
        Some((j, kind)) => match kind {
            CleanKind::End => Some(0),
            CleanKind::Close => if i < j <= inp.len() {
                match clean_all_loose(inp, cfg, j) {
                    None => None,
                    Some(k) => Some((k + 1) as nat),
                }
            } else {
                None
            },
            CleanKind::Tok => if i < j <= inp.len() {
                clean_all_loose(inp, cfg, j)
            } else {
                None
            },
        },
    }
}

/// An unopened-delimiter error at top level appears if and only if a close
/// delimiter appears with no corresponding open in scope: on an input that
/// the loose structural scan accepts with `k` stray close delimiters, the
/// run's collected errors are exactly `k` unopened-delimiter errors, one
/// per stray close — so some unopened-delimiter error is reported exactly
/// when some stray close delimiter exists.
pub proof fn lemma_unopened_iff_stray_close_at_top(inp: Seq<Result<char, ()>>, cfg: Config, st: LexState)
    requires
        0 <= st.i <= inp.len(),
        st.macros == Seq::<(char, TokenModel)>::empty(),
        clean_all_loose(inp, cfg, st.i) is Some,
    ensures
        ({
            let (a, st1) = read_all_s(inp, cfg, st);
            clean_all_loose(inp, cfg, st.i) matches Some(k) && (a matches crate::lex::AllScan::Done(
                ts,
                es,
            ) && es.len() == k && (forall|x: int|
                0 <= x < es.len() ==> es[x] is DelimiterUnopened))
        }),
    decreases inp.len() - st.i, 1int,
{
    lemma_clean_token(inp, cfg, st);
    lemma_scan_consumes(inp, cfg, st);
    let (sc, st1) = read_token_s(inp, cfg, st);
    match clean_token(inp, cfg, st.i) {
        Some((j, kind)) => match kind {
            CleanKind::End => {},
            CleanKind::Close => {
                lemma_unopened_iff_stray_close_at_top(inp, cfg, st1);
                match sc {
                    Scan::Fail(e) => {
                        let (a2, st2) = read_all_s(inp, cfg, st1);
                        match a2 {
                            crate::lex::AllScan::Done(ts2, es2) => {
                                assert(crate::lex::flat_entry(e) =~= seq![e]);
                                assert forall|x: int|
                                    0 <= x < (seq![e] + es2).len() implies (seq![e]
                                    + es2)[x] is DelimiterUnopened by {
                                    if x > 0 {
                                        assert((seq![e] + es2)[x] == es2[x - 1]);
                                    }
                                }
                            },
                            _ => {},
                        }
                    },
                    _ => {},
                }
            },
            CleanKind::Tok => {
                lemma_unopened_iff_stray_close_at_top(inp, cfg, st1);
            },
        },
        None => {},
    }
}

/// The emitter's result depends only on the tokens not yet walked: walking
/// equal suffixes from any two positions writes the same characters.
pub proof fn lemma_emit_suffix(
    ts1: Seq<TokenModel>,
    j1: int,
    ts2: Seq<TokenModel>,
    j2: int,
    mult: nat,
    cnt: nat,
    width: nat,
)
    requires
        0 <= j1 <= ts1.len(),
        0 <= j2 <= ts2.len(),
        ts1.skip(j1) == ts2.skip(j2),
    ensures
        emit_from(ts1, j1, mult, cnt, width) == emit_from(ts2, j2, mult, cnt, width),
    decreases ts1.len() - j1,
{
    assert(ts1.skip(j1).len() == ts1.len() - j1);
    assert(ts2.skip(j2).len() == ts2.len() - j2);
    assert(ts1.skip(j1).len() == ts2.skip(j2).len());
    if j1 < ts1.len() {
        assert(j2 < ts2.len());
        assert(ts1[j1] == ts1.skip(j1)[0]);
        assert(ts2[j2] == ts2.skip(j2)[0]);
        assert(ts1[j1] == ts2[j2]);
        assert(ts1.skip(j1 + 1) =~= ts2.skip(j2 + 1)) by {
            assert(forall|x: int|
                0 <= x < ts1.skip(j1 + 1).len() ==> #[trigger] ts1.skip(j1 + 1)[x] == ts1.skip(
                    j1,
                )[x + 1] && ts2.skip(j2 + 1)[x] == ts2.skip(j2)[x + 1]);
        }
        match ts1[j1] {
            TokenModel::Number(n) => {
                lemma_emit_suffix(ts1, j1 + 1, ts2, j2 + 1, n, cnt, width);
            },
            TokenModel::Operator(c) => {
                let (s1, c1) = emit_op(c, mult, cnt, width);
                lemma_emit_suffix(ts1, j1 + 1, ts2, j2 + 1, 1, c1, width);
            },
            TokenModel::Group(g) => {
                let (s1, c1) = emit_rep(g, mult, cnt, width);
                lemma_emit_suffix(ts1, j1 + 1, ts2, j2 + 1, 1, c1, width);
            },
        }
    }
}

/// Multiplier semantics: a number followed immediately by another number
/// behaves as if only the second number were present — the second
/// overwrites the first, with no accumulation.
pub proof fn lemma_number_overwrites(
    rest: Seq<TokenModel>,
    n: nat,
    k: nat,
    mult: nat,
    cnt: nat,
    width: nat,
)
    ensures
        emit_from(seq![TokenModel::Number(n), TokenModel::Number(k)] + rest, 0, mult, cnt, width)
            == emit_from(seq![TokenModel::Number(k)] + rest, 0, mult, cnt, width),
{
    let two = seq![TokenModel::Number(n), TokenModel::Number(k)] + rest;
    let one = seq![TokenModel::Number(k)] + rest;
    assert(two[0] == TokenModel::Number(n));
    assert(two[1] == TokenModel::Number(k));
    assert(one[0] == TokenModel::Number(k));
    assert(two.skip(2) =~= one.skip(1));
    assert(emit_from(two, 0, mult, cnt, width) == emit_from(two, 1, n, cnt, width));
    assert(emit_from(two, 1, n, cnt, width) == emit_from(two, 2, k, cnt, width));
    assert(emit_from(one, 0, mult, cnt, width) == emit_from(one, 1, k, cnt, width));
    lemma_emit_suffix(two, 2, one, 1, k, cnt, width);
}

/// Without wrapping the line counter stays 0 through any walk.
pub proof fn lemma_emit_counter_zero(ts: Seq<TokenModel>, j: int, mult: nat, cnt: nat)
    requires
        cnt == 0,
    ensures
        emit_from(ts, j, mult, cnt, 0).1 == 0,
    decreases ts, ts.len() - j, 0int,
{
    if 0 <= j < ts.len() {
        match ts[j] {
            TokenModel::Number(n) => {
                lemma_emit_counter_zero(ts, j + 1, n, cnt);
            },
            TokenModel::Operator(c) => {
                lemma_emit_op_counter_zero(c, mult, cnt);
                let (s1, c1) = emit_op(c, mult, cnt, 0);
                lemma_emit_counter_zero(ts, j + 1, 1, c1);
            },
            TokenModel::Group(g) => {
                lemma_emit_rep_counter_zero(g, mult, cnt);
                let (s1, c1) = emit_rep(g, mult, cnt, 0);
                lemma_emit_counter_zero(ts, j + 1, 1, c1);
            },
        }
    }
}

/// Without wrapping the line counter stays 0 through any operator run.
pub proof fn lemma_emit_op_counter_zero(c: char, mult: nat, cnt: nat)
    requires
        cnt == 0,
    ensures
        emit_op(c, mult, cnt, 0).1 == 0,
    decreases mult,
{
    if mult > 0 {
        lemma_emit_op_counter_zero(c, (mult - 1) as nat, 0);
    }
}

/// Without wrapping the line counter stays 0 through any repetition.
pub proof fn lemma_emit_rep_counter_zero(ts: Seq<TokenModel>, times: nat, cnt: nat)
    requires
        cnt == 0,
    ensures
        emit_rep(ts, times, cnt, 0).1 == 0,
    decreases ts, ts.len() + 1, times,
{
    if times > 0 {
        lemma_emit_counter_zero(ts, 0, 1, cnt);
        let (s1, c1) = emit_from(ts, 0, 1, cnt, 0);
        lemma_emit_rep_counter_zero(ts, (times - 1) as nat, c1);
    }
}

/// `n` concatenated copies of a character sequence.
pub open spec fn seq_rep(s: Seq<char>, n: nat) -> Seq<char>
    decreases n,
{
    if n == 0 {
        Seq::empty()
    } else {
        s + seq_rep(s, (n - 1) as nat)
    }
}

/// A group multiplier repeats the entire child sequence, not just the
/// final child: without wrapping, walking a group `times` times writes
/// `times` concatenated copies of the characters one walk of the whole
/// child sequence writes.
pub proof fn lemma_group_multiplier(cs: Seq<TokenModel>, times: nat)
    ensures
        emit_rep(cs, times, 0, 0).0 == seq_rep(emit_from(cs, 0, 1, 0, 0).0, times),
    decreases times,
{
    if times > 0 {
        lemma_emit_counter_zero(cs, 0, 1, 0);
        lemma_group_multiplier(cs, (times - 1) as nat);
    }
}

} // verus!
