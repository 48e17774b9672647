//! The host-embedding façade: run source text form by form against one
//! engine, stopping at the first parse or evaluation error, and keep the
//! textual rendering of the parsed forms, the evaluated results, and the
//! error texts of the most recent call for the read-only accessors.

use vstd::prelude::*;
use crate::obj::{chars_of, Engine, Object, Op};
use crate::eval::{err_wf, Error as EvalError};
use crate::read::{read_item_core, Error as ParseError};
use crate::render::{push_chars, render_s, RENDER_DEPTH};

verus! {

/// One embedding session: an initialised engine and the four text
/// accumulators of the most recent `read_and_eval` call.
pub struct Session {
    engine: Engine,
    read_out: Vec<char>,
    eval_out: Vec<char>,
    parse_err: Vec<char>,
    eval_err: Vec<char>,
}

/// Relies on String::from_iter over characters: the returned string holds
/// exactly the given characters, in order.
#[verifier::external_body]
fn chars_to_string(v: &Vec<char>) -> (s: String)
    ensures
        s@ == v@,
{
    v.iter().collect()
}

/// The display text of a parse error: its kind's name, with the offending
/// character in parentheses where one is carried.
pub open spec fn parse_err_text_s(er: ParseError) -> Seq<char> {
    match er {
        ParseError::Continue => "Continue"@,
        ParseError::Eof => "Eof"@,
        ParseError::Unexpected(c) => "Unexpected('"@ + seq![c] + seq!['\'', ')'],
        ParseError::UnexpectedEof => "UnexpectedEof"@,
        ParseError::UnsupportedChar(c) => "UnsupportedChar('"@ + seq![c] + seq!['\'', ')'],
    }
}

/// The display text of an evaluation error: its kind's name, with the
/// carried value rendered under the display budget.
pub open spec fn eval_err_text_s(h: Seq<Object>, g: Op, er: EvalError) -> Seq<char> {
    match er {
        EvalError::Undefined(o) => "Undefined("@ + render_s(h, g, o, RENDER_DEPTH as nat)
            + seq![')'],
        EvalError::CanNotApply(o) => "CanNotApply("@ + render_s(h, g, o, RENDER_DEPTH as nat)
            + seq![')'],
        EvalError::RequireLong(o) => "RequireLong("@ + render_s(h, g, o, RENDER_DEPTH as nat)
            + seq![')'],
        EvalError::RequireSymbol(o) => "RequireSymbol("@ + render_s(h, g, o, RENDER_DEPTH as nat)
            + seq![')'],
        EvalError::RequirePair(o) => "RequirePair("@ + render_s(h, g, o, RENDER_DEPTH as nat)
            + seq![')'],
        EvalError::RequireExpr(o) => "RequireExpr("@ + render_s(h, g, o, RENDER_DEPTH as nat)
            + seq![')'],
        EvalError::TooFewArgs => "TooFewArgs"@,
        EvalError::DivideByZero => "DivideByZero"@,
        EvalError::TooDeep => "TooDeep"@,
    }
}

/// The display text of a parse error: `parse_err_text_s`, exactly.
fn parse_err_chars(er: ParseError) -> (r: Vec<char>)
    ensures
        r@ == parse_err_text_s(er),
{
    let mut out: Vec<char> = Vec::new();
    match er {
        ParseError::Continue => {
            push_chars(&mut out, &chars_of("Continue"));
            proof {
                assert(out@ =~= "Continue"@);
            }
        },
        ParseError::Eof => {
            push_chars(&mut out, &chars_of("Eof"));
            proof {
                assert(out@ =~= "Eof"@);
            }
        },
        ParseError::Unexpected(c) => {
            push_chars(&mut out, &chars_of("Unexpected('"));
            out.push(c);
            out.push('\'');
            out.push(')');
            proof {
                assert(out@ =~= "Unexpected('"@ + seq![c] + seq!['\'', ')']);
            }
        },
        ParseError::UnexpectedEof => {
            push_chars(&mut out, &chars_of("UnexpectedEof"));
            proof {
                assert(out@ =~= "UnexpectedEof"@);
            }
        },
        ParseError::UnsupportedChar(c) => {
            push_chars(&mut out, &chars_of("UnsupportedChar('"));
            out.push(c);
            out.push('\'');
            out.push(')');
            proof {
                assert(out@ =~= "UnsupportedChar('"@ + seq![c] + seq!['\'', ')']);
            }
        },
    }
    out
}

/// The display text of an evaluation error: `eval_err_text_s`, exactly.
fn eval_err_chars(e: &Engine, er: EvalError) -> (r: Vec<char>)
    requires
        e.wf(),
        err_wf(e.heap@, er),
    ensures
        r@ == eval_err_text_s(e.heap@, e.globals, er),
{
    let mut out: Vec<char> = Vec::new();
    match er {
        EvalError::Undefined(o) => {
            push_chars(&mut out, &chars_of("Undefined("));
            let t = e.render(o);
            push_chars(&mut out, &t);
            out.push(')');
            proof {
                assert(out@ =~= "Undefined("@ + t@ + seq![')']);
            }
        },
        EvalError::CanNotApply(o) => {
            push_chars(&mut out, &chars_of("CanNotApply("));
            let t = e.render(o);
            push_chars(&mut out, &t);
            out.push(')');
            proof {
                assert(out@ =~= "CanNotApply("@ + t@ + seq![')']);
            }
        },
        EvalError::RequireLong(o) => {
            push_chars(&mut out, &chars_of("RequireLong("));
            let t = e.render(o);
            push_chars(&mut out, &t);
            out.push(')');
            proof {
                assert(out@ =~= "RequireLong("@ + t@ + seq![')']);
            }
        },
        EvalError::RequireSymbol(o) => {
            push_chars(&mut out, &chars_of("RequireSymbol("));
            let t = e.render(o);
            push_chars(&mut out, &t);
            out.push(')');
            proof {
                assert(out@ =~= "RequireSymbol("@ + t@ + seq![')']);
            }
        },
        EvalError::RequirePair(o) => {
            push_chars(&mut out, &chars_of("RequirePair("));
            let t = e.render(o);
            push_chars(&mut out, &t);
            out.push(')');
            proof {
                assert(out@ =~= "RequirePair("@ + t@ + seq![')']);
            }
        },
        EvalError::RequireExpr(o) => {
            push_chars(&mut out, &chars_of("RequireExpr("));
            let t = e.render(o);
            push_chars(&mut out, &t);
            out.push(')');
            proof {
                assert(out@ =~= "RequireExpr("@ + t@ + seq![')']);
            }
        },
        EvalError::TooFewArgs => {
            push_chars(&mut out, &chars_of("TooFewArgs"));
            proof {
                assert(out@ =~= "TooFewArgs"@);
            }
        },
        EvalError::DivideByZero => {
            push_chars(&mut out, &chars_of("DivideByZero"));
            proof {
                assert(out@ =~= "DivideByZero"@);
            }
        },
        EvalError::TooDeep => {
            push_chars(&mut out, &chars_of("TooDeep"));
            proof {
                assert(out@ =~= "TooDeep"@);
            }
        },
    }
    out
}

impl Session {
    /// The session's engine is initialised and stays so.
    pub closed spec fn wf(self) -> bool {
        self.engine.ready()
    }

    pub closed spec fn parse_result_text(self) -> Seq<char> {
        self.read_out@
    }

    pub closed spec fn eval_result_text(self) -> Seq<char> {
        self.eval_out@
    }

    pub closed spec fn parse_error_text(self) -> Seq<char> {
        self.parse_err@
    }

    pub closed spec fn eval_error_text(self) -> Seq<char> {
        self.eval_err@
    }

    /// A fresh session over a fresh, initialised engine.
    pub fn new() -> (s: Session)
        ensures
            s.wf(),
    {
        let mut e = Engine::new();
        e.init();
        Session {
            engine: e,
            read_out: Vec::new(),
            eval_out: Vec::new(),
            parse_err: Vec::new(),
            eval_err: Vec::new(),
        }
    }

    /// Parse and evaluate every form of `src` in order, under the chosen
    /// front-end syntax, stopping at the first parse or evaluation error;
    /// the accumulators are cleared first and filled as the forms go by.
    #[verifier::loop_isolation(false)]
    pub fn read_and_eval(&mut self, src: &str, sugar_syntax: bool)
        requires
            old(self).wf(),
        ensures
            final(self).wf(),
            final(self).parse_error_text().len() == 0 || final(self).eval_error_text().len() == 0,
            final(self).eval_error_text().len() > 0 ==> final(self).parse_result_text().len() > 0,
            (forall|k: int| 0 <= k < src@.len() ==> crate::read::is_ws_c(#[trigger] src@[k])) ==> ({
                &&& final(self).parse_result_text().len() == 0
                &&& final(self).eval_result_text().len() == 0
                &&& final(self).parse_error_text().len() == 0
                &&& final(self).eval_error_text().len() == 0
            }),
            ({
                let s = src@;
                let p = crate::read::ws_end(s, 0);
                p < s.len() && crate::read::is_digit_c(s[p]) ==> ({
                    let dv = crate::read::digits_val(
                        s.subrange(p, crate::read::digit_end(s, p)),
                    );
                    let t = crate::render::long_rep(
                        if dv <= i64::MAX {
                            dv as int
                        } else {
                            i64::MAX as int
                        },
                    ).push('\n');
                    &&& final(self).parse_result_text().len() >= t.len()
                    &&& final(self).parse_result_text().subrange(0, t.len() as int) == t
                    &&& final(self).eval_result_text().len() >= t.len()
                    &&& final(self).eval_result_text().subrange(0, t.len() as int) == t
                })
            }),
    {
        self.read_out = Vec::new();
        self.eval_out = Vec::new();
        self.parse_err = Vec::new();
        self.eval_err = Vec::new();
        let chars = chars_of(src);
        let n = chars.len();
        let mut pos: usize = 0;
        loop
            invariant
                self.engine.ready(),
                pos <= n,
                n == chars@.len(),
                chars@ == src@,
                self.parse_err@.len() == 0,
                self.eval_err@.len() == 0,
                (forall|k: int| 0 <= k < src@.len() ==> crate::read::is_ws_c(#[trigger] src@[k]))
                    ==> self.read_out@.len() == 0 && self.eval_out@.len() == 0,
                ({
                    let s = src@;
                    let p = crate::read::ws_end(s, 0);
                    let dv = crate::read::digits_val(
                        s.subrange(p, crate::read::digit_end(s, p)),
                    );
                    let t = crate::render::long_rep(
                        if dv <= i64::MAX {
                            dv as int
                        } else {
                            i64::MAX as int
                        },
                    ).push('\n');
                    p < s.len() && crate::read::is_digit_c(s[p]) ==> ((pos == 0
                        && self.read_out@.len() == 0 && self.eval_out@.len() == 0) || (pos > 0 &&
                    self.read_out@.len() >= t.len() && self.read_out@.subrange(0, t.len() as int)
                        == t && self.eval_out@.len() >= t.len() && self.eval_out@.subrange(
                        0,
                        t.len() as int,
                    ) == t))
                }),
            decreases n - pos,
        {
            let ghost pos0 = pos;
            let ghost read_out0 = self.read_out@;
            let ghost eval_out0 = self.eval_out@;
            let (ri, p2) = read_item_core(&mut self.engine, &chars, pos, sugar_syntax);
            proof {
                assert((forall|k: int|
                    0 <= k < src@.len() ==> crate::read::is_ws_c(#[trigger] src@[k])) ==> ri
                    == Err::<Op, ParseError>(ParseError::Eof)) by {
                    if forall|k: int|
                        0 <= k < src@.len() ==> crate::read::is_ws_c(#[trigger] src@[k]) {
                        assert(forall|k: int|
                            pos <= k < chars@.len() ==> crate::read::is_ws_c(
                                #[trigger] chars@[k],
                            ));
                    }
                }
            }
            match ri {
                Ok(op) => {
                    pos = p2;
                    let txt = self.engine.render(op);
                    proof {
                        let s = src@;
                        let p = crate::read::ws_end(s, 0);
                        if pos0 == 0 && p < s.len() && crate::read::is_digit_c(s[p]) {
                            crate::read::lemma_digit_end(s, p, p2 as int);
                            crate::read::lemma_digits_val_nonneg(s.subrange(p, p2 as int));
                            assert(op.spec_idx() == self.engine.heap@.len() - 1);
                            assert(self.engine.heap@[op.spec_idx()] is Long);
                            assert(crate::obj::is_long_at(self.engine.heap@, op));
                            assert(crate::obj::is_pair_at(
                                self.engine.heap@,
                                self.engine.globals,
                            ));
                            assert(op != self.engine.globals);
                        }
                    }
                    push_chars(&mut self.read_out, &txt);
                    self.read_out.push('\n');
                    proof {
                        let s = src@;
                        let p = crate::read::ws_end(s, 0);
                        let dv = crate::read::digits_val(
                            s.subrange(p, crate::read::digit_end(s, p)),
                        );
                        let t = crate::render::long_rep(
                            if dv <= i64::MAX {
                                dv as int
                            } else {
                                i64::MAX as int
                            },
                        ).push('\n');
                        if p < s.len() && crate::read::is_digit_c(s[p]) {
                            if pos0 == 0 {
                                assert(self.read_out@ =~= t);
                            } else {
                                assert(self.read_out@.subrange(0, t.len() as int)
                                    =~= read_out0.subrange(0, t.len() as int));
                            }
                        }
                    }
                    match self.engine.eval(op) {
                        Ok(v) => {
                            let t2 = self.engine.render(v);
                            push_chars(&mut self.eval_out, &t2);
                            self.eval_out.push('\n');
                            proof {
                                let s = src@;
                                let p = crate::read::ws_end(s, 0);
                                let dv = crate::read::digits_val(
                                    s.subrange(p, crate::read::digit_end(s, p)),
                                );
                                let t = crate::render::long_rep(
                                    if dv <= i64::MAX {
                                        dv as int
                                    } else {
                                        i64::MAX as int
                                    },
                                ).push('\n');
                                if p < s.len() && crate::read::is_digit_c(s[p]) {
                                    if pos0 == 0 {
                                        assert(self.eval_out@ =~= t);
                                    } else {
                                        assert(self.eval_out@.subrange(0, t.len() as int)
                                            =~= eval_out0.subrange(0, t.len() as int));
                                    }
                                }
                            }
                        },
                        Err(er) => {
                            let t = eval_err_chars(&self.engine, er);
                            push_chars(&mut self.eval_err, &t);
                            return;
                        },
                    }
                },
                Err(ParseError::Eof) => {
                    return;
                },
                Err(er) => {
                    let t = parse_err_chars(er);
                    push_chars(&mut self.parse_err, &t);
                    return;
                },
            }
        }
    }

    /// The rendering of every form parsed by the most recent call.
    pub fn get_parse_result(&self) -> (r: String)
        ensures
            r@ == self.parse_result_text(),
    {
        chars_to_string(&self.read_out)
    }

    /// The rendering of every result of the most recent call.
    pub fn get_eval_result(&self) -> (r: String)
        ensures
            r@ == self.eval_result_text(),
    {
        chars_to_string(&self.eval_out)
    }

    /// The parse error of the most recent call, empty when none.
    pub fn get_parse_error(&self) -> (r: String)
        ensures
            r@ == self.parse_error_text(),
    {
        chars_to_string(&self.parse_err)
    }

    /// The evaluation error of the most recent call, empty when none.
    pub fn get_eval_error(&self) -> (r: String)
        ensures
            r@ == self.eval_error_text(),
    {
        chars_to_string(&self.eval_err)
    }
}

} // verus!
