//! The sugared reader: an alternative front-end that desugars call syntax,
//! `$`-scoped variable access and assignment, bracketed list literals and a
//! lambda shorthand into the same canonical tree form as the canonical
//! reader, so both front-ends feed one evaluator.

use vstd::prelude::*;
use crate::obj::{
    car_s, cdr_s, chars_of, heap_view, intern_v, is_long_at, is_pair_at, is_symbol_at, text_at,
    valid_op, vcar, vcdr, Engine, ObjView, Op,
};
use crate::eval::cons;
use crate::read::{
    item_v, list_v, number_v, read_item_core, read_list, read_number, read_symbol, skip_spaces,
    symbol_v, ws_end, Error, Reader,
};

verus! {

/// The step of the `$` form after the dollar sign: a name (identifier or
/// integer key), then either `=` and a form -- a `set_scope` call -- or a
/// bare `get_scope` call over the name.
pub open spec fn dollar_v(hv: Seq<ObjView>, syms: Seq<Op>, s: Seq<char>, pos: int, fuel: nat) -> (
    Seq<ObjView>,
    Seq<Op>,
    Result<Op, Error>,
    int,
)
    decreases fuel, 1int,
{
    if fuel == 0 {
        (hv, syms, Err(Error::UnexpectedEof), pos)
    } else {
        let nv = number_v(hv, s, pos, None);
        match nv.1 {
            Ok(v) => dollar_tail_v(nv.0, syms, s, v, nv.2, fuel),
            Err(Error::Continue) => {
                let sv = symbol_v(hv, syms, s, pos, false);
                match sv.2 {
                    Ok(v) => dollar_tail_v(sv.0, sv.1, s, v, sv.3, fuel),
                    Err(er) => (sv.0, sv.1, Err(er), sv.3),
                }
            },
            Err(er) => (nv.0, syms, Err(er), nv.2),
        }
    }
}

/// The rest of the `$` form once the name is read: assignment or access.
pub open spec fn dollar_tail_v(
    hv: Seq<ObjView>,
    syms: Seq<Op>,
    s: Seq<char>,
    name: Op,
    p2: int,
    fuel: nat,
) -> (Seq<ObjView>, Seq<Op>, Result<Op, Error>, int)
    decreases fuel, 0int,
{
    let p3 = ws_end(s, p2);
    if p3 < s.len() && s[p3] == '=' {
        if fuel == 0 {
            (hv, syms, Err(Error::UnexpectedEof), p3)
        } else {
            let iv = item_v(hv, syms, s, p3 + 1, true, (fuel - 1) as nat);
            match iv.2 {
                Ok(value) => {
                    let t = intern_v(iv.0, iv.1, "set_scope"@);
                    let l3 = Op::Ref(t.0.len() as usize);
                    let h1 = t.0.push(ObjView::Pair(value, Op::Null));
                    let l2 = Op::Ref(h1.len() as usize);
                    let h2 = h1.push(ObjView::Pair(name, l3));
                    let l1 = Op::Ref(h2.len() as usize);
                    let h3 = h2.push(ObjView::Pair(t.2, l2));
                    (h3, t.1, Ok(l1), iv.3)
                },
                Err(er) => (iv.0, iv.1, Err(er), iv.3),
            }
        }
    } else {
        let t = intern_v(hv, syms, "get_scope"@);
        let l2 = Op::Ref(t.0.len() as usize);
        let h1 = t.0.push(ObjView::Pair(name, Op::Null));
        let l1 = Op::Ref(h1.len() as usize);
        let h2 = h1.push(ObjView::Pair(t.2, l2));
        (h2, t.1, Ok(l1), p3)
    }
}

/// The step of the `@` form after the at sign: a bracketed list literal, or
/// the arrow-brace lambda shorthand over the braced body, a one-element
/// body unwrapped.
pub open spec fn at_v(hv: Seq<ObjView>, syms: Seq<Op>, s: Seq<char>, pos: int, fuel: nat) -> (
    Seq<ObjView>,
    Seq<Op>,
    Result<Op, Error>,
    int,
)
    decreases fuel, 0int,
{
    if fuel == 0 {
        (hv, syms, Err(Error::UnexpectedEof), pos)
    } else if pos >= s.len() {
        (hv, syms, Err(Error::UnexpectedEof), pos)
    } else {
        let c = s[pos];
        if c == '[' {
            list_v(hv, syms, s, pos + 1, ']', true, (fuel - 1) as nat)
        } else if c == '-' {
            let p1 = pos + 1;
            if p1 >= s.len() {
                (hv, syms, Err(Error::UnexpectedEof), p1)
            } else {
                let c2 = s[p1];
                if c2 == '>' {
                    let p2 = ws_end(s, p1 + 1);
                    if p2 >= s.len() {
                        (hv, syms, Err(Error::UnexpectedEof), p2)
                    } else {
                        let c3 = s[p2];
                        if c3 == '{' {
                            let lv = list_v(hv, syms, s, p2 + 1, '}', true, (fuel - 1) as nat);
                            match lv.2 {
                                Ok(body0) => {
                                    let body = if vcdr(lv.0, body0) is Null {
                                        vcar(lv.0, body0)
                                    } else {
                                        body0
                                    };
                                    let t = intern_v(lv.0, lv.1, "lambda_lambda"@);
                                    let l2 = Op::Ref(t.0.len() as usize);
                                    let h1 = t.0.push(ObjView::Pair(body, Op::Null));
                                    let l1 = Op::Ref(h1.len() as usize);
                                    let h2 = h1.push(ObjView::Pair(t.2, l2));
                                    (h2, t.1, Ok(l1), lv.3)
                                },
                                Err(er) => (lv.0, lv.1, Err(er), lv.3),
                            }
                        } else {
                            (hv, syms, Err(Error::Unexpected(c3)), p2 + 1)
                        }
                    }
                } else {
                    (hv, syms, Err(Error::Unexpected(c2)), p1 + 1)
                }
            }
        } else {
            (hv, syms, Err(Error::Unexpected(c)), pos + 1)
        }
    }
}

/// The step after a bare symbol: blanks skipped, a `(` opens the call
/// form's argument list, anything else is the try-another-production
/// signal.
pub open spec fn try_v(hv: Seq<ObjView>, syms: Seq<Op>, s: Seq<char>, pos: int, fuel: nat) -> (
    Seq<ObjView>,
    Seq<Op>,
    Result<Op, Error>,
    int,
)
    decreases fuel, 0int,
{
    if fuel == 0 {
        (hv, syms, Err(Error::UnexpectedEof), pos)
    } else {
        let p = ws_end(s, pos);
        if p < s.len() && s[p] == '(' {
            list_v(hv, syms, s, p + 1, ')', true, (fuel - 1) as nat)
        } else {
            (hv, syms, Err(Error::Continue), p)
        }
    }
}

/// After a bare symbol, an immediately following `(...)` is a call form's
/// argument list; `Continue` says there is none (blanks are still skipped).
pub fn try_read_arg_list(e: &mut Engine, chars: &Vec<char>, pos: usize) -> (r: (Result<Op, Error>,
    usize,
))
    requires
        old(e).wf(),
        pos <= chars@.len(),
    ensures
        final(e).wf(),
        final(e).globals == old(e).globals,
        old(e).heap@.len() <= final(e).heap@.len(),
        forall|i: int| 0 <= i < old(e).heap@.len() ==> final(e).heap@[i] == old(e).heap@[i],
        old(e).ready() ==> final(e).ready(),
        pos <= r.1 <= chars@.len(),
        (match r.0 {
            Ok(v) => valid_op(final(e).heap@, v) && is_pair_at(final(e).heap@, v) && r.1 > pos,
            Err(er) => er != Error::Eof && (er matches Error::Unexpected(_) ==> r.1 > pos || r.1
                < chars@.len()),
        }),
        r.0 == Err::<Op, Error>(Error::UnexpectedEof) ==> r.1 == chars@.len(),
        r.0 == Err::<Op, Error>(Error::Eof) ==> r.1 == chars@.len(),
        forall|f: nat|
            f >= chars@.len() + 1 - pos ==> #[trigger] try_v(
                heap_view(old(e).heap@),
                old(e).symbols@,
                chars@,
                pos as int,
                f,
            ) == (heap_view(final(e).heap@), final(e).symbols@, r.0, r.1 as int),
    decreases chars@.len() - pos, 0int,
{
    let p = skip_spaces(chars, pos);
    proof {
        crate::read::lemma_ws_end(chars@, pos as int, p as int);
    }
    if p < chars.len() && chars[p] == '(' {
        let (rl, p2) = read_list(e, chars, p + 1, ')', true);
        proof {
            assert forall|f: nat| f >= chars@.len() + 1 - pos implies #[trigger] try_v(
                heap_view(old(e).heap@),
                old(e).symbols@,
                chars@,
                pos as int,
                f,
            ) == (heap_view(e.heap@), e.symbols@, rl, p2 as int) by {
                assert(list_v(
                    heap_view(old(e).heap@),
                    old(e).symbols@,
                    chars@,
                    p + 1,
                    ')',
                    true,
                    (f - 1) as nat,
                ) == (heap_view(e.heap@), e.symbols@, rl, p2 as int));
            }
        }
        return (rl, p2);
    }
    (Err(Error::Continue), p)
}

/// `$name` desugars to `(get_scope name)`, `$name=expr` to
/// `(set_scope name expr)`; the name may also be an integer key.  A
/// successful parse is a call form headed by the interned `get_scope` or
/// `set_scope` symbol, with the name as its first operand.
pub fn dollar_stmt(e: &mut Engine, chars: &Vec<char>, pos: usize) -> (r: (Result<Op, Error>, usize))
    requires
        old(e).wf(),
        pos <= chars@.len(),
    ensures
        final(e).wf(),
        final(e).globals == old(e).globals,
        old(e).heap@.len() <= final(e).heap@.len(),
        forall|i: int| 0 <= i < old(e).heap@.len() ==> final(e).heap@[i] == old(e).heap@[i],
        old(e).ready() ==> final(e).ready(),
        pos <= r.1 <= chars@.len(),
        (match r.0 {
            Ok(v) => valid_op(final(e).heap@, v) && r.1 > pos,
            Err(er) => er != Error::Continue && (er matches Error::Unexpected(_) ==> r.1 > pos
                || r.1 < chars@.len()),
        }),
        (match r.0 {
            Ok(v) => ({
                let h = final(e).heap@;
                let hd = car_s(h, v);
                &&& is_pair_at(h, v)
                &&& is_symbol_at(h, hd)
                &&& (text_at(h, hd) == "set_scope"@ || text_at(h, hd) == "get_scope"@)
                &&& is_pair_at(h, cdr_s(h, v))
                &&& (is_symbol_at(h, car_s(h, cdr_s(h, v))) || is_long_at(
                    h,
                    car_s(h, cdr_s(h, v)),
                ))
            }),
            Err(_) => true,
        }),
        r.0 == Err::<Op, Error>(Error::UnexpectedEof) ==> r.1 == chars@.len(),
        r.0 == Err::<Op, Error>(Error::Eof) ==> r.1 == chars@.len(),
        forall|f: nat|
            f >= chars@.len() + 1 - pos ==> #[trigger] dollar_v(
                heap_view(old(e).heap@),
                old(e).symbols@,
                chars@,
                pos as int,
                f,
            ) == (heap_view(final(e).heap@), final(e).symbols@, r.0, r.1 as int),
    decreases chars@.len() - pos, 0int,
{
    let (rn, p1) = read_number(e, chars, pos, None);
    let name: Op;
    let p2: usize;
    match rn {
        Ok(v) => {
            name = v;
            p2 = p1;
        },
        Err(Error::Continue) => {
            let (rs, p1b) = read_symbol(e, chars, p1, false);
            match rs {
                Ok(v) => {
                    name = v;
                    p2 = p1b;
                },
                Err(er) => {
                    return (Err(er), p1b);
                },
            }
        },
        Err(er) => {
            return (Err(er), p1);
        },
    }
    let ghost hname = heap_view(e.heap@);
    let ghost sname = e.symbols@;
    let p3 = skip_spaces(chars, p2);
    proof {
        crate::read::lemma_ws_end(chars@, p2 as int, p3 as int);
    }
    if p3 < chars.len() && chars[p3] == '=' {
        let (rv, p4) = read_item_core(e, chars, p3 + 1, true);
        let ghost hval = heap_view(e.heap@);
        let ghost sval = e.symbols@;
        match rv {
            Ok(value) => {
                let ghost e0 = *e;
                let s = e.intern(chars_of("set_scope"));
                let ghost e1 = *e;
                let l3 = cons(e, value, Op::Null);
                let ghost e2 = *e;
                let l2 = cons(e, name, l3);
                let ghost e3 = *e;
                let l1 = cons(e, s, l2);
                proof {
                    crate::obj::lemma_heap_view_push(
                        e1.heap@,
                        crate::obj::Object::Pair { head: value, tail: Op::Null },
                    );
                    crate::obj::lemma_heap_view_push(
                        e2.heap@,
                        crate::obj::Object::Pair { head: name, tail: l3 },
                    );
                    crate::obj::lemma_heap_view_push(
                        e3.heap@,
                        crate::obj::Object::Pair { head: s, tail: l2 },
                    );
                    assert forall|f: nat| f >= chars@.len() + 1 - pos implies #[trigger] dollar_v(
                        heap_view(old(e).heap@),
                        old(e).symbols@,
                        chars@,
                        pos as int,
                        f,
                    ) == (heap_view(e.heap@), e.symbols@, Ok::<Op, Error>(l1), p4 as int) by {
                        assert(item_v(hname, sname, chars@, p3 + 1, true, (f - 1) as nat) == (
                        hval,
                        sval,
                        rv,
                        p4 as int,
                        ));
                        assert(dollar_tail_v(hname, sname, chars@, name, p2 as int, f) == (
                        heap_view(e.heap@),
                        e.symbols@,
                        Ok::<Op, Error>(l1),
                        p4 as int,
                        ));
                    }
                }
                (Ok(l1), p4)
            },
            Err(er) => {
                proof {
                    assert forall|f: nat| f >= chars@.len() + 1 - pos implies #[trigger] dollar_v(
                        heap_view(old(e).heap@),
                        old(e).symbols@,
                        chars@,
                        pos as int,
                        f,
                    ) == (heap_view(e.heap@), e.symbols@, Err::<Op, Error>(er), p4 as int) by {
                        assert(item_v(hname, sname, chars@, p3 + 1, true, (f - 1) as nat) == (
                        hval,
                        sval,
                        rv,
                        p4 as int,
                        ));
                        assert(dollar_tail_v(hname, sname, chars@, name, p2 as int, f) == (
                        heap_view(e.heap@),
                        e.symbols@,
                        Err::<Op, Error>(er),
                        p4 as int,
                        ));
                    }
                }
                (Err(er), p4)
            },
        }
    } else {
        let ghost e1 = *e;
        let s = e.intern(chars_of("get_scope"));
        let ghost e2 = *e;
        let l2 = cons(e, name, Op::Null);
        let ghost e3 = *e;
        let l1 = cons(e, s, l2);
        proof {
            crate::obj::lemma_heap_view_push(
                e2.heap@,
                crate::obj::Object::Pair { head: name, tail: Op::Null },
            );
            crate::obj::lemma_heap_view_push(
                e3.heap@,
                crate::obj::Object::Pair { head: s, tail: l2 },
            );
            assert forall|f: nat| f >= chars@.len() + 1 - pos implies #[trigger] dollar_v(
                heap_view(old(e).heap@),
                old(e).symbols@,
                chars@,
                pos as int,
                f,
            ) == (heap_view(e.heap@), e.symbols@, Ok::<Op, Error>(l1), p3 as int) by {
                assert(dollar_tail_v(hname, sname, chars@, name, p2 as int, f) == (
                heap_view(e.heap@),
                e.symbols@,
                Ok::<Op, Error>(l1),
                p3 as int,
                ));
            }
        }
        (Ok(l1), p3)
    }
}

/// `@[...]` is a bracketed list literal; `@->{ body }` desugars to a
/// `lambda_lambda` form over the braced body, unwrapping a one-element body
/// so that a single-expression closure is not mistaken for a list.  A
/// successful parse is a pair; for the arrow form, a call form headed by
/// the interned `lambda_lambda` symbol.
pub fn at_stmt(e: &mut Engine, chars: &Vec<char>, pos: usize) -> (r: (Result<Op, Error>, usize))
    requires
        old(e).wf(),
        pos <= chars@.len(),
    ensures
        final(e).wf(),
        final(e).globals == old(e).globals,
        old(e).heap@.len() <= final(e).heap@.len(),
        forall|i: int| 0 <= i < old(e).heap@.len() ==> final(e).heap@[i] == old(e).heap@[i],
        old(e).ready() ==> final(e).ready(),
        pos <= r.1 <= chars@.len(),
        (match r.0 {
            Ok(v) => valid_op(final(e).heap@, v) && r.1 > pos,
            Err(er) => er != Error::Continue && (er matches Error::Unexpected(_) ==> r.1 > pos
                || r.1 < chars@.len()),
        }),
        (match r.0 {
            Ok(v) => ({
                let h = final(e).heap@;
                &&& is_pair_at(h, v)
                &&& (pos < chars@.len() && chars@[pos as int] == '-' ==> is_symbol_at(
                    h,
                    car_s(h, v),
                ) && text_at(h, car_s(h, v)) == "lambda_lambda"@ && is_pair_at(h, cdr_s(h, v)))
            }),
            Err(_) => true,
        }),
        r.0 == Err::<Op, Error>(Error::UnexpectedEof) ==> r.1 == chars@.len(),
        r.0 == Err::<Op, Error>(Error::Eof) ==> r.1 == chars@.len(),
        forall|f: nat|
            f >= chars@.len() + 1 - pos ==> #[trigger] at_v(
                heap_view(old(e).heap@),
                old(e).symbols@,
                chars@,
                pos as int,
                f,
            ) == (heap_view(final(e).heap@), final(e).symbols@, r.0, r.1 as int),
    decreases chars@.len() - pos, 0int,
{
    let n = chars.len();
    if pos >= n {
        return (Err(Error::UnexpectedEof), pos);
    }
    let c = chars[pos];
    if c == '[' {
        let (rl, p2) = read_list(e, chars, pos + 1, ']', true);
        proof {
            assert forall|f: nat| f >= chars@.len() + 1 - pos implies #[trigger] at_v(
                heap_view(old(e).heap@),
                old(e).symbols@,
                chars@,
                pos as int,
                f,
            ) == (heap_view(e.heap@), e.symbols@, rl, p2 as int) by {
                assert(list_v(
                    heap_view(old(e).heap@),
                    old(e).symbols@,
                    chars@,
                    pos + 1,
                    ']',
                    true,
                    (f - 1) as nat,
                ) == (heap_view(e.heap@), e.symbols@, rl, p2 as int));
            }
        }
        return (rl, p2);
    }
    if c == '-' {
        let p1 = pos + 1;
        if p1 >= n {
            return (Err(Error::UnexpectedEof), p1);
        }
        let c2 = chars[p1];
        if c2 == '>' {
            let p2 = skip_spaces(chars, p1 + 1);
            proof {
                crate::read::lemma_ws_end(chars@, p1 + 1, p2 as int);
            }
            if p2 >= n {
                return (Err(Error::UnexpectedEof), p2);
            }
            let c3 = chars[p2];
            if c3 == '{' {
                let (rb, p3) = read_list(e, chars, p2 + 1, '}', true);
                let ghost hbody = heap_view(e.heap@);
                let ghost sbody = e.symbols@;
                match rb {
                    Ok(body0) => {
                        let mut body = body0;
                        if body.get_tail(e).is_null() {
                            body = body.get_head(e);
                        }
                        let s = e.intern(chars_of("lambda_lambda"));
                        let ghost e2 = *e;
                        let l2 = cons(e, body, Op::Null);
                        let ghost e3 = *e;
                        let l1 = cons(e, s, l2);
                        proof {
                            crate::obj::lemma_heap_view_push(
                                e2.heap@,
                                crate::obj::Object::Pair { head: body, tail: Op::Null },
                            );
                            crate::obj::lemma_heap_view_push(
                                e3.heap@,
                                crate::obj::Object::Pair { head: s, tail: l2 },
                            );
                            assert forall|f: nat| f >= chars@.len() + 1 - pos implies #[trigger] at_v(
                                heap_view(old(e).heap@),
                                old(e).symbols@,
                                chars@,
                                pos as int,
                                f,
                            ) == (heap_view(e.heap@), e.symbols@, Ok::<Op, Error>(l1), p3 as int) by {
                                assert(list_v(
                                    heap_view(old(e).heap@),
                                    old(e).symbols@,
                                    chars@,
                                    p2 + 1,
                                    '}',
                                    true,
                                    (f - 1) as nat,
                                ) == (hbody, sbody, rb, p3 as int));
                            }
                        }
                        return (Ok(l1), p3);
                    },
                    Err(er) => {
                        proof {
                            assert forall|f: nat| f >= chars@.len() + 1 - pos implies #[trigger] at_v(
                                heap_view(old(e).heap@),
                                old(e).symbols@,
                                chars@,
                                pos as int,
                                f,
                            ) == (heap_view(e.heap@), e.symbols@, Err::<Op, Error>(er), p3 as int)
                                by {
                                assert(list_v(
                                    heap_view(old(e).heap@),
                                    old(e).symbols@,
                                    chars@,
                                    p2 + 1,
                                    '}',
                                    true,
                                    (f - 1) as nat,
                                ) == (hbody, sbody, rb, p3 as int));
                            }
                        }
                        return (Err(er), p3);
                    },
                }
            }
            return (Err(Error::Unexpected(c3)), p2 + 1);
        }
        return (Err(Error::Unexpected(c2)), p1 + 1);
    }
    (Err(Error::Unexpected(c)), pos + 1)
}

/// The sugared-syntax reader.
pub struct SugarReader {
    pub chars: Vec<char>,
    pub pos: usize,
}

impl SugarReader {
    pub fn new(input: &str) -> (r: SugarReader)
        ensures
            r.input() == input@,
            r.at() == 0,
    {
        SugarReader { chars: chars_of(input), pos: 0 }
    }
}

impl Reader for SugarReader {
    open spec fn input(&self) -> Seq<char> {
        self.chars@
    }

    open spec fn at(&self) -> int {
        self.pos as int
    }

    open spec fn sugared(&self) -> bool {
        true
    }

    fn read_item(&mut self, e: &mut Engine) -> (r: Result<Op, Error>) {
        let (ri, p) = read_item_core(e, &self.chars, self.pos, true);
        self.pos = p;
        ri
    }

    fn read(&mut self, e: &mut Engine) -> (r: Result<Op, Error>) {
        let (ri, p) = read_item_core(e, &self.chars, self.pos, true);
        self.pos = p;
        ri
    }
}

} // verus!
