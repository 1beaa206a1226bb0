//! The emitter: walks a token sequence and writes the expanded operator
//! stream, honoring multipliers and recursion, with optional width-bounded
//! line wrapping.
//!
//! A `Number(n)` token sets the multiplier for the next sibling token (a
//! second number overwrites the first); an operator is written `multiplier`
//! times; a group's whole child sequence is walked `multiplier` times. The
//! line-length counter is shared across the entire recursive walk: wrap
//! positions depend on everything written so far, not on the current group.

use vstd::prelude::*;

use crate::config::Config;
use crate::lex::{
    AllScan, Error, ErrorModel, Lexer, Token, TokenModel, init_state, read_all_s, tokens_model,
};

verus! {

/// One operator character written with the line counter at `cnt`: the
/// character itself, then a newline when the line reaches `width`. Width 0
/// disables wrapping and the counter stays 0.
pub open spec fn emit_char(c: char, cnt: nat, width: nat) -> (Seq<char>, nat) {
    if width > 0 {
        if cnt + 1 == width {
            (seq![c, '\n'], 0)
        } else {
            (seq![c], (cnt + 1) as nat)
        }
    } else {
        (seq![c], 0)
    }
}

/// `mult` copies of operator `c`, threading the line counter.
pub open spec fn emit_op(c: char, mult: nat, cnt: nat, width: nat) -> (Seq<char>, nat)
    decreases mult,
{
    if mult == 0 {
        (Seq::empty(), cnt)
    } else {
        let (s1, c1) = emit_char(c, cnt, width);
        let (s2, c2) = emit_op(c, (mult - 1) as nat, c1, width);
        (s1 + s2, c2)
    }
}

/// The characters written for the tokens of `ts` from index `j` on, with
/// the pending multiplier `mult` and the line counter at `cnt`; and the
/// counter afterwards. A number sets the multiplier for the next sibling
/// and writes nothing; an operator is written `mult` times; a group's whole
/// child sequence is walked `mult` times; after an operator or group the
/// multiplier is 1 again.
pub open spec fn emit_from(ts: Seq<TokenModel>, j: int, mult: nat, cnt: nat, width: nat) -> (Seq<char>, nat)
    decreases ts, ts.len() - j, 0int,
{
    if j < 0 || j >= ts.len() {
        (Seq::empty(), cnt)
    } else {
        match ts[j] {
            TokenModel::Number(n) => emit_from(ts, j + 1, n, cnt, width),
            TokenModel::Operator(c) => {
                let (s1, c1) = emit_op(c, mult, cnt, width);
                let (s2, c2) = emit_from(ts, j + 1, 1, c1, width);
                (s1 + s2, c2)
            },
            TokenModel::Group(g) => {
                let (s1, c1) = emit_rep(g, mult, cnt, width);
                let (s2, c2) = emit_from(ts, j + 1, 1, c1, width);
                (s1 + s2, c2)
            },
        }
    }
}

/// `times` walks of the whole sequence `ts`, threading the line counter
/// across the repetitions.
pub open spec fn emit_rep(ts: Seq<TokenModel>, times: nat, cnt: nat, width: nat) -> (Seq<char>, nat)
    decreases ts, ts.len() + 1, times,
{
    if times == 0 {
        (Seq::empty(), cnt)
    } else {
        let (s1, c1) = emit_from(ts, 0, 1, cnt, width);
        let (s2, c2) = emit_rep(ts, (times - 1) as nat, c1, width);
        (s1 + s2, c2)
    }
}

/// All characters written for a token sequence, walked from the start with
/// multiplier 1 and an empty line, wrapping at `width` (0: no wrapping).
pub open spec fn emitted(ts: Seq<TokenModel>, width: nat) -> Seq<char> {
    emit_from(ts, 0, 1, 0, width).0
}

/// Walk the tokens left to right and write the expanded operator stream to
/// `out`, threading the shared line counter.
#[verifier::loop_isolation(false)]
fn write_tokens(tokens: &Vec<Token>, out: &mut Vec<char>, line_len: &mut usize, width: usize)
    requires
        width > 0 ==> *old(line_len) < width,
        width == 0 ==> *old(line_len) == 0,
    ensures
        ({
            let (s, c) = emit_from(
                tokens_model(tokens@),
                0,
                1,
                *old(line_len) as nat,
                width as nat,
            );
            final(out)@ == old(out)@ + s && *final(line_len) as nat == c
        }),
        width > 0 ==> *final(line_len) < width,
        width == 0 ==> *final(line_len) == 0,
    decreases tokens@,
{
    let ghost m = tokens_model(tokens@);
    let ghost w = width as nat;
    let ghost out0 = out@;
    let ghost cnt0 = *line_len as nat;
    let mut multiplier: usize = 1;
    let mut i: usize = 0;
    while i < tokens.len()
        invariant
            i <= tokens@.len(),
            width > 0 ==> *line_len < width,
            width == 0 ==> *line_len == 0,
            ({
                let (s, c) = emit_from(m, 0, 1, cnt0, w);
                let (s2, c2) = emit_from(m, i as int, multiplier as nat, *line_len as nat, w);
                out0 + s == out@ + s2 && c == c2
            }),
        decreases tokens@.len() - i,
    {
        let ghost cnt_i = *line_len as nat;
        let ghost mult_i = multiplier as nat;
        match &tokens[i] {
            Token::Number(n) => {
                proof {
                    assert(m[i as int] == tokens@[i as int].model());
                    assert(m[i as int] == TokenModel::Number(*n as nat));
                }
                multiplier = *n;
            },
            Token::Operator(op) => {
                proof {
                    assert(m[i as int] == tokens@[i as int].model());
                    assert(m[i as int] == TokenModel::Operator(*op));
                }
                let c = *op;
                let ghost out_s = out@;
                let mut k: usize = 0;
                while k < multiplier
                    invariant
                        k <= multiplier,
                        width > 0 ==> *line_len < width,
                        width == 0 ==> *line_len == 0,
                        ({
                            let (s1, c1) = emit_op(c, mult_i, cnt_i, w);
                            let (s3, c3) = emit_op(
                                c,
                                (multiplier - k) as nat,
                                *line_len as nat,
                                w,
                            );
                            out_s + s1 == out@ + s3 && c1 == c3
                        }),
                    decreases multiplier - k,
                {
                    let ghost out_b = out@;
                    let ghost cnt_b = *line_len as nat;
                    out.push(c);
                    if width > 0 {
                        *line_len = *line_len + 1;
                        if *line_len == width {
                            out.push('\n');
                            *line_len = 0;
                            proof {
                                assert(emit_char(c, cnt_b, w) == (seq![c, '\n'], 0nat));
                                assert(out@ =~= out_b + seq![c, '\n']);
                            }
                        } else {
                            proof {
                                assert(emit_char(c, cnt_b, w) == (seq![c], (cnt_b + 1) as nat));
                                assert(out@ =~= out_b + seq![c]);
                            }
                        }
                    } else {
                        proof {
                            assert(emit_char(c, cnt_b, w) == (seq![c], 0nat));
                            assert(out@ =~= out_b + seq![c]);
                        }
                    }
                    k = k + 1;
                    proof {
                        let (sc, cc) = emit_char(c, cnt_b, w);
                        let (s3, c3) = emit_op(c, (multiplier - k) as nat, *line_len as nat, w);
                        assert(emit_op(c, (multiplier - (k - 1)) as nat, cnt_b, w) == (
                            sc + s3,
                            c3,
                        ));
                        assert((out_b + sc) + s3 =~= out_b + (sc + s3));
                    }
                }
                multiplier = 1;
                proof {
                    let (s1, c1) = emit_op(c, mult_i, cnt_i, w);
                    assert(emit_op(c, 0nat, *line_len as nat, w) == (
                        Seq::<char>::empty(),
                        *line_len as nat,
                    ));
                    assert(out@ + Seq::<char>::empty() =~= out@);
                    let (s2, c2) = emit_from(m, i as int + 1, 1, *line_len as nat, w);
                    assert(emit_from(m, i as int, mult_i, cnt_i, w) == (s1 + s2, c2));
                    assert((out_s + s1) + s2 =~= out_s + (s1 + s2));
                }
            },
            Token::Group(g) => {
                let ghost gm = tokens_model(g@);
                proof {
                    assert(m[i as int] == tokens@[i as int].model());
                    assert(tokens@[i as int].model() matches TokenModel::Group(x) && x =~= gm);
                    assert(m[i as int] == TokenModel::Group(gm));
                }
                let ghost out_s = out@;
                let mut k: usize = 0;
                while k < multiplier
                    invariant
                        k <= multiplier,
                        width > 0 ==> *line_len < width,
                        width == 0 ==> *line_len == 0,
                        ({
                            let (s1, c1) = emit_rep(gm, mult_i, cnt_i, w);
                            let (s3, c3) = emit_rep(
                                gm,
                                (multiplier - k) as nat,
                                *line_len as nat,
                                w,
                            );
                            out_s + s1 == out@ + s3 && c1 == c3
                        }),
                    decreases multiplier - k,
                {
                    let ghost out_b = out@;
                    let ghost cnt_b = *line_len as nat;
                    proof {
                        assert(decreases_to!(tokens@ => tokens@[i as int]));
                        assert(decreases_to!(tokens@[i as int] => *g));
                        assert(decreases_to!(*g => g@));
                        assert(decreases_to!(tokens@ => g@));
                    }
                    write_tokens(g, out, line_len, width);
                    k = k + 1;
                    proof {
                        let (sg, cg) = emit_from(gm, 0, 1, cnt_b, w);
                        let (s3, c3) = emit_rep(gm, (multiplier - k) as nat, *line_len as nat, w);
                        assert(emit_rep(gm, (multiplier - (k - 1)) as nat, cnt_b, w) == (
                            sg + s3,
                            c3,
                        ));
                        assert((out_b + sg) + s3 =~= out_b + (sg + s3));
                    }
                }
                multiplier = 1;
                proof {
                    let (s1, c1) = emit_rep(gm, mult_i, cnt_i, w);
                    assert(emit_rep(gm, 0nat, *line_len as nat, w) == (
                        Seq::<char>::empty(),
                        *line_len as nat,
                    ));
                    assert(out@ + Seq::<char>::empty() =~= out@);
                    let (s2, c2) = emit_from(m, i as int + 1, 1, *line_len as nat, w);
                    assert(emit_from(m, i as int, mult_i, cnt_i, w) == (s1 + s2, c2));
                    assert((out_s + s1) + s2 =~= out_s + (s1 + s2));
                }
            },
        }
        i = i + 1;
    }
    proof {
        let (s2, c2) = emit_from(m, i as int, multiplier as nat, *line_len as nat, w);
        assert(s2 =~= Seq::<char>::empty());
        assert(out@ + s2 =~= out@);
        let (s, c) = emit_from(m, 0, 1, cnt0, w);
        assert(out@ =~= out0 + s);
    }
}

/// Run the preprocessor with the passed configuration on `input`, returning
/// the expanded operator stream.
///
/// The following rules are applied when generating the output (in order,
/// from most important to least):
/// 1. Macros are expanded.
/// 2. The escape prefix skips the next character.
/// 3. A number prefix followed by a number n multiplies the next token n
///    times.
/// 4. A macro prefix followed by any character, followed by a token,
///    defines the character as a macro evaluating to said token.
/// 5. Groups enclosed in group delimiters are treated as a single token.
/// 6. Operators are copied to the output.
/// 7. Every other character is skipped.
///
/// On any tokenizing error nothing is emitted and the error is returned:
/// an upstream read failure as `Error::Input`, and otherwise the aggregate
/// of every syntax error found.
pub fn preprocess(input: Vec<Result<char, ()>>, config: &Config) -> (r: Result<Vec<char>, Error>)
    ensures
        ({
            let (a, st1) = read_all_s(input@, *config, init_state());
            match a {
                AllScan::Fatal => r == Err::<Vec<char>, Error>(Error::Input),
                AllScan::Done(ts, es) => if es.len() > 0 {
                    r matches Err(e) && e.model() == ErrorModel::Group(es)
                } else {
                    r matches Ok(v) && v@ == emitted(ts, 0)
                },
            }
        }),
{
    let mut lexer = Lexer::new(input, config);
    let tokens = match lexer.read_all_tokens() {
        Ok(tokens) => tokens,
        Err(error) => {
            return Err(error);
        },
    };
    let mut out: Vec<char> = Vec::new();
    let mut line_len: usize = 0;
    write_tokens(&tokens, &mut out, &mut line_len, 0);
    proof {
        assert(Seq::<char>::empty() + emitted(tokens_model(tokens@), 0) =~= emitted(
            tokens_model(tokens@),
            0,
        ));
    }
    Ok(out)
}

/// Same as [`preprocess`], but aligns the output in a rectangle of width
/// `line_width`: after every `line_width`-th written operator a newline is
/// written and the count starts over. Width 0 means no wrapping at all.
pub fn preprocess_and_align(
    input: Vec<Result<char, ()>>,
    config: &Config,
    line_width: usize,
) -> (r: Result<Vec<char>, Error>)
    ensures
        ({
            let (a, st1) = read_all_s(input@, *config, init_state());
            match a {
                AllScan::Fatal => r == Err::<Vec<char>, Error>(Error::Input),
                AllScan::Done(ts, es) => if es.len() > 0 {
                    r matches Err(e) && e.model() == ErrorModel::Group(es)
                } else {
                    r matches Ok(v) && v@ == emitted(ts, line_width as nat)
                },
            }
        }),
{
    let mut lexer = Lexer::new(input, config);
    let tokens = match lexer.read_all_tokens() {
        Ok(tokens) => tokens,
        Err(error) => {
            return Err(error);
        },
    };
    let mut out: Vec<char> = Vec::new();
    let mut line_len: usize = 0;
    write_tokens(&tokens, &mut out, &mut line_len, line_width);
    proof {
        assert(Seq::<char>::empty() + emitted(tokens_model(tokens@), line_width as nat) =~= emitted(
            tokens_model(tokens@),
            line_width as nat,
        ));
    }
    Ok(out)
}

} // verus!
