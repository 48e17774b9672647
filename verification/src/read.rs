//! The canonical reader: a recursive-descent parser from text to the
//! canonical tree form (integers, symbols, nested list structure).
//!
//! The shared parsing routines here carry an explicit scan position through
//! the character vector and also serve the sugared reader; the `sugar` flag
//! selects the sugared dispatch in `read_item_core`.  An empty pair of
//! delimiters yields the sentinel empty-list pair (nil head, nil tail),
//! never plain nil.

use vstd::prelude::*;
use crate::obj::{
    car_s, cdr_s, heap_view, intern_v, is_pair_at, is_symbol_at, text_at, valid_op, Engine,
    ObjView, Op,
};
use crate::eval::cons;
use crate::sugar::{at_stmt, at_v, dollar_stmt, dollar_v, try_read_arg_list, try_v};

verus! {

/// A parse error.  `Continue` is an internal dispatch signal ("this
/// production does not apply") and never leaks out of `read_item`; `Eof`
/// means the input ended before any form, `UnexpectedEof` that it ended
/// mid-form.
#[derive(Clone, Copy, PartialEq, Eq, Debug)]
pub enum Error {
    Continue,
    Eof,
    Unexpected(char),
    UnexpectedEof,
    UnsupportedChar(char),
}

/// ASCII whitespace, as the readers skip it.
pub open spec fn is_ws_c(c: char) -> bool {
    c == ' ' || c == '\t' || c == '\n' || c == '\r' || c == '\u{c}'
}

/// A decimal digit.
pub open spec fn is_digit_c(c: char) -> bool {
    48 <= c as u32 <= 57
}

/// An identifier character: letter, digit or underscore.
pub open spec fn is_ident_c(c: char) -> bool {
    (48 <= c as u32 <= 57) || (65 <= c as u32 <= 90) || (97 <= c as u32 <= 122) || c as u32 == 95
}

/// The numeric value of a digit character.
pub open spec fn digit_val(c: char) -> int {
    c as u32 - 48
}

/// The value of a digit run read in base ten.
pub open spec fn digits_val(s: Seq<char>) -> int
    decreases s.len(),
{
    if s.len() == 0 {
        0
    } else {
        digits_val(s.drop_last()) * 10 + digit_val(s.last())
    }
}

/// The first position at or after `i` holding a non-identifier character.
pub open spec fn ident_end(s: Seq<char>, i: int) -> int
    decreases s.len() - i,
{
    if i >= s.len() {
        i
    } else if is_ident_c(s[i]) {
        ident_end(s, i + 1)
    } else {
        i
    }
}

/// The first position at or after `i` holding a non-blank character.
pub open spec fn ws_end(s: Seq<char>, i: int) -> int
    decreases s.len() - i,
{
    if i >= s.len() {
        i
    } else if is_ws_c(s[i]) {
        ws_end(s, i + 1)
    } else {
        i
    }
}

/// The blank run before `ws_end` is all blanks, and the scan stops inside
/// the input at a non-blank.
proof fn lemma_ws_end_run(s: Seq<char>, i: int)
    requires
        0 <= i <= s.len(),
    ensures
        i <= ws_end(s, i) <= s.len(),
        forall|k: int| i <= k < ws_end(s, i) ==> is_ws_c(#[trigger] s[k]),
        ws_end(s, i) < s.len() ==> !is_ws_c(s[ws_end(s, i)]),
    decreases s.len() - i,
{
    if i < s.len() && is_ws_c(s[i]) {
        lemma_ws_end_run(s, i + 1);
    }
}

/// A scan that saw blanks up to `j` and a non-blank (or the end) at `j`
/// found the whole blank run.
pub proof fn lemma_ws_end(s: Seq<char>, i: int, j: int)
    requires
        0 <= i <= j <= s.len(),
        forall|k: int| i <= k < j ==> is_ws_c(#[trigger] s[k]),
        j == s.len() || !is_ws_c(s[j]),
    ensures
        ws_end(s, i) == j,
    decreases j - i,
{
    if i < j {
        lemma_ws_end(s, i + 1, j);
    }
}

/// A digit run's value is never negative.
pub proof fn lemma_digits_val_nonneg(s: Seq<char>)
    requires
        forall|k: int| 0 <= k < s.len() ==> is_digit_c(#[trigger] s[k]),
    ensures
        digits_val(s) >= 0,
    decreases s.len(),
{
    if s.len() > 0 {
        lemma_digits_val_nonneg(s.drop_last());
        assert(digits_val(s.drop_last()) * 10 >= 0) by (nonlinear_arith)
            requires
                digits_val(s.drop_last()) >= 0,
        ;
    }
}

/// The first position at or after `i` holding a non-digit character.
pub open spec fn digit_end(s: Seq<char>, i: int) -> int
    decreases s.len() - i,
{
    if i >= s.len() {
        i
    } else if is_digit_c(s[i]) {
        digit_end(s, i + 1)
    } else {
        i
    }
}

/// A scan that saw digits up to `j` and a non-digit (or the end) at `j`
/// found the whole digit run.
pub proof fn lemma_digit_end(s: Seq<char>, i: int, j: int)
    requires
        0 <= i <= j <= s.len(),
        forall|k: int| i <= k < j ==> is_digit_c(#[trigger] s[k]),
        j == s.len() || !is_digit_c(s[j]),
    ensures
        digit_end(s, i) == j,
    decreases j - i,
{
    if i < j {
        lemma_digit_end(s, i + 1, j);
    }
}

/// A scan that saw identifier characters up to `j` and a non-identifier (or
/// the end) at `j` found the whole identifier run.
proof fn lemma_ident_end(s: Seq<char>, i: int, j: int)
    requires
        0 <= i <= j <= s.len(),
        forall|k: int| i <= k < j ==> is_ident_c(#[trigger] s[k]),
        j == s.len() || !is_ident_c(s[j]),
    ensures
        ident_end(s, i) == j,
    decreases j - i,
{
    if i < j {
        lemma_ident_end(s, i + 1, j);
    }
}

/// The step of the integer reader: with no digit at hand, the end of
/// input is `UnexpectedEof` and a non-digit is the try-another-production
/// signal; otherwise the digit run is consumed and a fresh integer holding
/// its saturated value is appended.
pub open spec fn number_v(hv: Seq<ObjView>, s: Seq<char>, pos: int, lead: Option<char>) -> (
    Seq<ObjView>,
    Result<Op, Error>,
    int,
) {
    if lead is None && pos >= s.len() {
        (hv, Err(Error::UnexpectedEof), pos)
    } else if lead is None && !is_digit_c(s[pos]) {
        (hv, Err(Error::Continue), pos)
    } else {
        let q = digit_end(s, pos);
        let ds = (match lead {
            Some(c) => seq![c],
            None => Seq::<char>::empty(),
        }) + s.subrange(pos, q);
        (
            hv.push(
                ObjView::Long(
                    if digits_val(ds) <= i64::MAX {
                        digits_val(ds) as i64
                    } else {
                        i64::MAX
                    },
                ),
            ),
            Ok(Op::Ref(hv.len() as usize)),
            q,
        )
    }
}

/// The step of the symbol reader: the identifier run is interned; inside a
/// quote the closing quote is consumed and any other terminator is
/// `UnsupportedChar`.
pub open spec fn symbol_v(
    hv: Seq<ObjView>,
    syms: Seq<Op>,
    s: Seq<char>,
    pos: int,
    quoted: bool,
) -> (Seq<ObjView>, Seq<Op>, Result<Op, Error>, int) {
    if pos >= s.len() {
        (hv, syms, Err(Error::UnexpectedEof), pos)
    } else if !is_ident_c(s[pos]) {
        (
            hv,
            syms,
            Err(
                if quoted {
                    Error::UnsupportedChar(s[pos])
                } else {
                    Error::Unexpected(s[pos])
                },
            ),
            pos,
        )
    } else {
        let m = ident_end(s, pos);
        if quoted && m < s.len() && s[m] != '\'' {
            (hv, syms, Err(Error::UnsupportedChar(s[m])), m + 1)
        } else {
            let iv = intern_v(hv, syms, s.subrange(pos, m));
            (
                iv.0,
                iv.1,
                Ok(iv.2),
                if quoted && m < s.len() {
                    m + 1
                } else {
                    m
                },
            )
        }
    }
}

/// The dispatch step shared by both front-ends: blanks are skipped, then
/// the lookahead selects a list, an integer, a quoted or bare symbol and --
/// under the sugared syntax -- a scoped variable, an `@` form, or a call
/// written as `name(...)`.  The spec-level reader; `fuel` only bounds the
/// unfolding and is irrelevant from `s.len() + 1 - pos` up.
pub open spec fn item_v(
    hv: Seq<ObjView>,
    syms: Seq<Op>,
    s: Seq<char>,
    pos: int,
    sugar: bool,
    fuel: nat,
) -> (Seq<ObjView>, Seq<Op>, Result<Op, Error>, int)
    decreases fuel, 0int,
{
    if fuel == 0 {
        (hv, syms, Err(Error::UnexpectedEof), pos)
    } else {
        let p = ws_end(s, pos);
        if p >= s.len() {
            (hv, syms, Err(Error::Eof), p)
        } else {
            let c = s[p];
            if c == '(' {
                list_v(hv, syms, s, p + 1, ')', sugar, (fuel - 1) as nat)
            } else if c == '[' {
                list_v(hv, syms, s, p + 1, ']', sugar, (fuel - 1) as nat)
            } else if sugar && c == '$' {
                dollar_v(hv, syms, s, p + 1, (fuel - 1) as nat)
            } else if sugar && c == '@' {
                at_v(hv, syms, s, p + 1, (fuel - 1) as nat)
            } else if is_digit_c(c) {
                let nv = number_v(hv, s, p + 1, Some(c));
                (nv.0, syms, nv.1, nv.2)
            } else if c == '\'' {
                symbol_v(hv, syms, s, p + 1, true)
            } else {
                let sv = symbol_v(hv, syms, s, p, false);
                match sv.2 {
                    Ok(sym) => if sugar {
                        let tv = try_v(sv.0, sv.1, s, sv.3, (fuel - 1) as nat);
                        match tv.2 {
                            Ok(list) => (
                                tv.0.push(ObjView::Pair(sym, list)),
                                tv.1,
                                Ok(Op::Ref(tv.0.len() as usize)),
                                tv.3,
                            ),
                            Err(Error::Continue) => (tv.0, tv.1, Ok(sym), tv.3),
                            Err(er) => (tv.0, tv.1, Err(er), tv.3),
                        }
                    } else {
                        sv
                    },
                    Err(_) => sv,
                }
            }
        }
    }
}

/// The list step: the chain of the remaining elements, with the empty-list
/// sentinel appended when there are none.
pub open spec fn list_v(
    hv: Seq<ObjView>,
    syms: Seq<Op>,
    s: Seq<char>,
    pos: int,
    delim: char,
    sugar: bool,
    fuel: nat,
) -> (Seq<ObjView>, Seq<Op>, Result<Op, Error>, int)
    decreases fuel, 2int,
{
    let li = list_items_v(hv, syms, s, pos, delim, sugar, fuel);
    match li.2 {
        Ok(h) => if h is Null {
            (
                li.0.push(ObjView::Pair(Op::Null, Op::Null)),
                li.1,
                Ok(Op::Ref(li.0.len() as usize)),
                li.3,
            )
        } else {
            li
        },
        Err(_) => li,
    }
}

/// One element of the list walk: a parsed form is consed onto the rest of
/// the chain; commas are consumed as separators; the closing delimiter is
/// consumed and ends the chain; an input that ends first is
/// `UnexpectedEof`.
pub open spec fn list_items_v(
    hv: Seq<ObjView>,
    syms: Seq<Op>,
    s: Seq<char>,
    pos: int,
    delim: char,
    sugar: bool,
    fuel: nat,
) -> (Seq<ObjView>, Seq<Op>, Result<Op, Error>, int)
    decreases fuel, 1int,
{
    if fuel == 0 {
        (hv, syms, Err(Error::UnexpectedEof), pos)
    } else {
        let iv = item_v(hv, syms, s, pos, sugar, fuel);
        match iv.2 {
            Ok(op) => {
                let cell = Op::Ref(iv.0.len() as usize);
                let hv1 = iv.0.push(ObjView::Pair(op, Op::Null));
                let rv = list_items_v(hv1, iv.1, s, iv.3, delim, sugar, (fuel - 1) as nat);
                match rv.2 {
                    Ok(rest) => if rest is Null {
                        (rv.0, rv.1, Ok(cell), rv.3)
                    } else {
                        (
                            rv.0.update(cell.spec_idx(), ObjView::Pair(op, rest)),
                            rv.1,
                            Ok(cell),
                            rv.3,
                        )
                    },
                    Err(er) => (rv.0, rv.1, Err(er), rv.3),
                }
            },
            Err(Error::Unexpected(c2)) => {
                if c2 == ',' {
                    let p2 = if iv.3 < s.len() {
                        iv.3 + 1
                    } else {
                        iv.3
                    };
                    list_items_v(iv.0, iv.1, s, p2, delim, sugar, (fuel - 1) as nat)
                } else if c2 == delim {
                    (
                        iv.0,
                        iv.1,
                        Ok(Op::Null),
                        if iv.3 < s.len() {
                            iv.3 + 1
                        } else {
                            iv.3
                        },
                    )
                } else {
                    (iv.0, iv.1, Err(Error::Unexpected(c2)), iv.3)
                }
            },
            Err(Error::Eof) => (iv.0, iv.1, Err(Error::UnexpectedEof), iv.3),
            Err(er) => (iv.0, iv.1, Err(er), iv.3),
        }
    }
}

fn is_ws(c: char) -> (r: bool)
    ensures
        r == is_ws_c(c),
{
    c == ' ' || c == '\t' || c == '\n' || c == '\r' || c == '\u{c}'
}

fn is_digit(c: char) -> (r: bool)
    ensures
        r == is_digit_c(c),
{
    let u = c as u32;
    48 <= u && u <= 57
}

fn is_ident(c: char) -> (r: bool)
    ensures
        r == is_ident_c(c),
{
    let u = c as u32;
    (48 <= u && u <= 57) || (65 <= u && u <= 90) || (97 <= u && u <= 122) || u == 95
}

/// Advance past whitespace: the returned position is the first non-blank at
/// or after `pos`.
pub fn skip_spaces(chars: &Vec<char>, pos: usize) -> (r: usize)
    requires
        pos <= chars@.len(),
    ensures
        pos <= r <= chars@.len(),
        forall|k: int| pos <= k < r ==> is_ws_c(#[trigger] chars@[k]),
        r < chars@.len() ==> !is_ws_c(chars@[r as int]),
{
    let n = chars.len();
    let mut p = pos;
    while p < n
        invariant
            pos <= p <= n,
            n == chars@.len(),
            forall|k: int| pos <= k < p ==> is_ws_c(#[trigger] chars@[k]),
        decreases n - p,
    {
        if !is_ws(chars[p]) {
            return p;
        }
        p += 1;
    }
    p
}

/// Read a decimal integer literal, `lead` holding a digit the caller has
/// already consumed.  The scan stops at the first non-digit; the value of
/// the whole digit run is taken exactly when it fits in 64 bits and
/// saturates at the largest integer otherwise.
#[verifier::loop_isolation(false)]
pub fn read_number(e: &mut Engine, chars: &Vec<char>, pos: usize, lead: Option<char>) -> (r: (
    Result<Op, Error>,
    usize,
))
    requires
        old(e).wf(),
        pos <= chars@.len(),
        lead matches Some(c) ==> is_digit_c(c),
    ensures
        final(e).wf(),
        final(e).globals == old(e).globals,
        old(e).heap@.len() <= final(e).heap@.len(),
        forall|i: int| 0 <= i < old(e).heap@.len() ==> final(e).heap@[i] == old(e).heap@[i],
        old(e).ready() ==> final(e).ready(),
        final(e).symbols@ == old(e).symbols@,
        pos <= r.1 <= chars@.len(),
        (heap_view(final(e).heap@), r.0, r.1 as int) == number_v(
            heap_view(old(e).heap@),
            chars@,
            pos as int,
            lead,
        ),
        ({
            let s = chars@;
            if lead is None && pos == s.len() {
                r == (Err::<Op, Error>(Error::UnexpectedEof), pos) && *final(e) == *old(e)
            } else if lead is None && !is_digit_c(s[pos as int]) {
                r == (Err::<Op, Error>(Error::Continue), pos) && *final(e) == *old(e)
            } else {
                let ds = (match lead {
                    Some(c) => seq![c],
                    None => Seq::<char>::empty(),
                }) + s.subrange(pos as int, r.1 as int);
                &&& forall|k: int| pos <= k < r.1 ==> is_digit_c(#[trigger] s[k])
                &&& (r.1 < s.len() ==> !is_digit_c(s[r.1 as int]))
                &&& old(e).heap@.len() < usize::MAX
                &&& final(e).heap@ == old(e).heap@.push(
                    crate::obj::Object::Long(
                        if digits_val(ds) <= i64::MAX {
                            digits_val(ds) as i64
                        } else {
                            i64::MAX
                        },
                    ),
                )
                &&& r.0 == Ok::<Op, Error>(Op::Ref(old(e).heap@.len() as usize))
            }
        }),
{
    let n = chars.len();
    let mut p = pos;
    let ghost lead_seq: Seq<char> = match lead {
        Some(c) => seq![c],
        None => Seq::<char>::empty(),
    };
    let mut acc: i64 = match lead {
        Some(c) => {
            let u = c as u32;
            (u - 48) as i64
        },
        None => {
            if p >= n {
                return (Err(Error::UnexpectedEof), p);
            }
            if !is_digit(chars[p]) {
                return (Err(Error::Continue), p);
            }
            0
        },
    };
    proof {
        assert(lead_seq + chars@.subrange(pos as int, pos as int) =~= lead_seq);
        if lead is Some {
            assert(lead_seq.drop_last() =~= Seq::<char>::empty());
            assert(digits_val(Seq::<char>::empty()) == 0);
            assert(digits_val(lead_seq) == digit_val(lead_seq[0]));
        }
    }
    while p < n && is_digit(chars[p])
        invariant
            pos <= p <= n,
            forall|k: int| pos <= k < p ==> is_digit_c(#[trigger] chars@[k]),
            forall|k: int| 0 <= k < lead_seq.len() ==> is_digit_c(#[trigger] lead_seq[k]),
            ({
                let ds = lead_seq + chars@.subrange(pos as int, p as int);
                &&& acc == (if digits_val(ds) <= i64::MAX {
                    digits_val(ds) as i64
                } else {
                    i64::MAX
                })
                &&& digits_val(ds) >= 0
            }),
        decreases n - p,
    {
        let c = chars[p];
        let d: i64 = (c as u32 - 48) as i64;
        let ghost ds0 = lead_seq + chars@.subrange(pos as int, p as int);
        let ghost ds1 = lead_seq + chars@.subrange(pos as int, p + 1);
        proof {
            assert(ds1 =~= ds0.push(c));
            assert(ds1.drop_last() =~= ds0);
            assert(digits_val(ds1) == digits_val(ds0) * 10 + digit_val(c));
            if digits_val(ds0) > i64::MAX {
                assert(digits_val(ds0) * 10 + digit_val(c) > i64::MAX) by (nonlinear_arith)
                    requires
                        digits_val(ds0) > i64::MAX,
                        digit_val(c) >= 0,
                ;
            }
        }
        acc = match acc.checked_mul(10) {
            Some(m) => match m.checked_add(d) {
                Some(v) => v,
                None => i64::MAX,
            },
            None => i64::MAX,
        };
        proof {
            if digits_val(ds0) <= i64::MAX && digits_val(ds1) > i64::MAX {
                assert(acc == i64::MAX);
            }
        }
        p += 1;
    }
    proof {
        let ds = lead_seq + chars@.subrange(pos as int, p as int);
        if digits_val(ds) <= i64::MAX {
            assert(acc == digits_val(ds) as i64);
        }
        lemma_digit_end(chars@, pos as int, p as int);
    }
    let r0 = Op::long(e, acc);
    proof {
        crate::obj::lemma_heap_view_push(old(e).heap@, crate::obj::Object::Long(acc));
    }
    (Ok(r0), p)
}

/// Read an identifier and intern it.  Outside a quote, the scan stops at the
/// first non-identifier character; inside one, the closing quote is consumed
/// and any other non-identifier character is `UnsupportedChar`.
#[verifier::loop_isolation(false)]
pub fn read_symbol(e: &mut Engine, chars: &Vec<char>, pos: usize, quoted: bool) -> (r: (
    Result<Op, Error>,
    usize,
))
    requires
        old(e).wf(),
        pos <= chars@.len(),
    ensures
        final(e).wf(),
        final(e).globals == old(e).globals,
        old(e).heap@.len() <= final(e).heap@.len(),
        forall|i: int| 0 <= i < old(e).heap@.len() ==> final(e).heap@[i] == old(e).heap@[i],
        old(e).ready() ==> final(e).ready(),
        pos <= r.1 <= chars@.len(),
        r.0 is Ok ==> r.1 > pos,
        pos < chars@.len() && is_ident_c(chars@[pos as int]) ==> pos < ident_end(
            chars@,
            pos as int,
        ) <= chars@.len(),
        (heap_view(final(e).heap@), final(e).symbols@, r.0, r.1 as int) == symbol_v(
            heap_view(old(e).heap@),
            old(e).symbols@,
            chars@,
            pos as int,
            quoted,
        ),
        ({
            let s = chars@;
            if pos == s.len() {
                r == (Err::<Op, Error>(Error::UnexpectedEof), pos) && *final(e) == *old(e)
            } else if !is_ident_c(s[pos as int]) {
                (if quoted {
                    r.0 == Err::<Op, Error>(Error::UnsupportedChar(s[pos as int]))
                } else {
                    r.0 == Err::<Op, Error>(Error::Unexpected(s[pos as int]))
                }) && r.1 == pos && *final(e) == *old(e)
            } else {
                let m = ident_end(s, pos as int);
                if quoted && m < s.len() && s[m] != '\'' {
                    r == (Err::<Op, Error>(Error::UnsupportedChar(s[m])), (m + 1) as usize)
                        && *final(e) == *old(e)
                } else {
                    &&& (match r.0 {
                        Ok(sym) => is_symbol_at(final(e).heap@, sym) && text_at(final(e).heap@, sym)
                            == s.subrange(pos as int, m),
                        Err(_) => false,
                    })
                    &&& r.1 == (if quoted && m < s.len() {
                        (m + 1) as usize
                    } else {
                        m as usize
                    })
                }
            }
        }),
{
    let n = chars.len();
    if pos >= n {
        return (Err(Error::UnexpectedEof), pos);
    }
    let c0 = chars[pos];
    if !is_ident(c0) {
        if quoted {
            return (Err(Error::UnsupportedChar(c0)), pos);
        }
        return (Err(Error::Unexpected(c0)), pos);
    }
    let mut p = pos + 1;
    let mut text: Vec<char> = Vec::new();
    text.push(c0);
    while p < n && is_ident(chars[p])
        invariant
            pos < p <= n,
            forall|k: int| pos <= k < p ==> is_ident_c(#[trigger] chars@[k]),
            text@ == chars@.subrange(pos as int, p as int),
        decreases n - p,
    {
        let c = chars[p];
        text.push(c);
        proof {
            assert(text@ =~= chars@.subrange(pos as int, p + 1));
        }
        p += 1;
    }
    proof {
        lemma_ident_end(chars@, pos as int, p as int);
    }
    if quoted && p < n {
        let c = chars[p];
        if c == '\'' {
            let sym = e.intern(text);
            return (Ok(sym), p + 1);
        }
        return (Err(Error::UnsupportedChar(c)), p + 1);
    }
    let sym = e.intern(text);
    (Ok(sym), p)
}

/// Read forms until the closing delimiter, tolerating commas as separators,
/// and build the list; an empty list yields the non-nil sentinel pair.  An
/// input that ends first is `UnexpectedEof`.
/// Read forms until the closing delimiter, tolerating commas as separators,
/// and build the list; an empty list yields the non-nil sentinel pair.  An
/// input that ends first is `UnexpectedEof`.  The step `list_v`, exactly.
pub fn read_list(e: &mut Engine, chars: &Vec<char>, pos: usize, delim: char, sugar: bool) -> (r:
    (Result<Op, Error>, usize))
    requires
        old(e).wf(),
        pos <= chars@.len(),
    ensures
        final(e).wf(),
        final(e).globals == old(e).globals,
        old(e).heap@.len() <= final(e).heap@.len(),
        forall|i: int| 0 <= i < old(e).heap@.len() ==> final(e).heap@[i] == old(e).heap@[i],
        old(e).ready() ==> final(e).ready(),
        pos <= r.1 <= chars@.len(),
        (match r.0 {
            Ok(v) => is_pair_at(final(e).heap@, v) && r.1 > pos,
            Err(er) => er != Error::Continue && er != Error::Eof && (er matches Error::Unexpected(
                _,
            ) ==> r.1 > pos || r.1 < chars@.len()),
        }),
        r.0 == Err::<Op, Error>(Error::UnexpectedEof) ==> r.1 == chars@.len(),
        (forall|k: int|
            pos <= k < chars@.len() ==> is_digit_c(#[trigger] chars@[k]) || is_ws_c(chars@[k]))
            ==> r.0 == Err::<Op, Error>(Error::UnexpectedEof),
        forall|f: nat|
            f >= chars@.len() + 1 - pos ==> #[trigger] list_v(
                heap_view(old(e).heap@),
                old(e).symbols@,
                chars@,
                pos as int,
                delim,
                sugar,
                f,
            ) == (heap_view(final(e).heap@), final(e).symbols@, r.0, r.1 as int),
    decreases chars@.len() - pos, 3int,
{
    let (ri, p2) = read_list_items(e, chars, pos, delim, sugar);
    let ghost hitems = heap_view(e.heap@);
    let ghost sitems = e.symbols@;
    match ri {
        Ok(h) => {
            if h.is_null() {
                let ghost hmid = e.heap@;
                let sent = cons(e, Op::Null, Op::Null);
                proof {
                    crate::obj::lemma_heap_view_push(
                        hmid,
                        crate::obj::Object::Pair { head: Op::Null, tail: Op::Null },
                    );
                    assert forall|f: nat| f >= chars@.len() + 1 - pos implies #[trigger] list_v(
                        heap_view(old(e).heap@),
                        old(e).symbols@,
                        chars@,
                        pos as int,
                        delim,
                        sugar,
                        f,
                    ) == (heap_view(e.heap@), e.symbols@, Ok::<Op, Error>(sent), p2 as int) by {
                        assert(list_items_v(
                            heap_view(old(e).heap@),
                            old(e).symbols@,
                            chars@,
                            pos as int,
                            delim,
                            sugar,
                            f,
                        ) == (hitems, sitems, ri, p2 as int));
                    }
                }
                (Ok(sent), p2)
            } else {
                proof {
                    assert forall|f: nat| f >= chars@.len() + 1 - pos implies #[trigger] list_v(
                        heap_view(old(e).heap@),
                        old(e).symbols@,
                        chars@,
                        pos as int,
                        delim,
                        sugar,
                        f,
                    ) == (heap_view(e.heap@), e.symbols@, Ok::<Op, Error>(h), p2 as int) by {
                        assert(list_items_v(
                            heap_view(old(e).heap@),
                            old(e).symbols@,
                            chars@,
                            pos as int,
                            delim,
                            sugar,
                            f,
                        ) == (hitems, sitems, ri, p2 as int));
                    }
                }
                (Ok(h), p2)
            }
        },
        Err(er) => {
            proof {
                assert forall|f: nat| f >= chars@.len() + 1 - pos implies #[trigger] list_v(
                    heap_view(old(e).heap@),
                    old(e).symbols@,
                    chars@,
                    pos as int,
                    delim,
                    sugar,
                    f,
                ) == (heap_view(e.heap@), e.symbols@, Err::<Op, Error>(er), p2 as int) by {
                    assert(list_items_v(
                        heap_view(old(e).heap@),
                        old(e).symbols@,
                        chars@,
                        pos as int,
                        delim,
                        sugar,
                        f,
                    ) == (hitems, sitems, ri, p2 as int));
                }
            }
            (Err(er), p2)
        },
    }
}

/// The chain of the list's remaining elements: each parsed form is consed
/// onto the rest, commas are consumed as separators, the closing delimiter
/// ends the chain (nil when it comes first).  The step `list_items_v`,
/// exactly.
#[verifier::rlimit(100)]
fn read_list_items(e: &mut Engine, chars: &Vec<char>, pos: usize, delim: char, sugar: bool) -> (r:
    (Result<Op, Error>, usize))
    requires
        old(e).wf(),
        pos <= chars@.len(),
    ensures
        final(e).wf(),
        final(e).globals == old(e).globals,
        old(e).heap@.len() <= final(e).heap@.len(),
        forall|i: int| 0 <= i < old(e).heap@.len() ==> final(e).heap@[i] == old(e).heap@[i],
        old(e).ready() ==> final(e).ready(),
        pos <= r.1 <= chars@.len(),
        (match r.0 {
            Ok(h) => (h is Null || is_pair_at(final(e).heap@, h)) && valid_op(final(e).heap@, h)
                && r.1 > pos,
            Err(er) => er != Error::Continue && er != Error::Eof && (er matches Error::Unexpected(
                _,
            ) ==> r.1 > pos || r.1 < chars@.len()),
        }),
        r.0 == Err::<Op, Error>(Error::UnexpectedEof) ==> r.1 == chars@.len(),
        (forall|k: int|
            pos <= k < chars@.len() ==> is_digit_c(#[trigger] chars@[k]) || is_ws_c(chars@[k]))
            ==> r.0 == Err::<Op, Error>(Error::UnexpectedEof),
        forall|f: nat|
            f >= chars@.len() + 1 - pos ==> #[trigger] list_items_v(
                heap_view(old(e).heap@),
                old(e).symbols@,
                chars@,
                pos as int,
                delim,
                sugar,
                f,
            ) == (heap_view(final(e).heap@), final(e).symbols@, r.0, r.1 as int),
    decreases chars@.len() - pos, 2int,
{
    let n = chars.len();
    let (ri, p2) = read_item_core(e, chars, pos, sugar);
    let ghost hcore = heap_view(e.heap@);
    let ghost score = e.symbols@;
    proof {
        assert forall|f: nat| f >= chars@.len() + 1 - pos implies #[trigger] item_v(
            heap_view(old(e).heap@),
            old(e).symbols@,
            chars@,
            pos as int,
            sugar,
            f,
        ) == (hcore, score, ri, p2 as int) by {
        }
        if forall|k: int|
            pos <= k < chars@.len() ==> is_digit_c(#[trigger] chars@[k]) || is_ws_c(chars@[k]) {
            let s = chars@;
            let w = ws_end(s, pos as int);
            lemma_ws_end_run(s, pos as int);
            if w < s.len() {
                assert(is_digit_c(s[w]));
                assert(ri is Ok);
            } else {
                assert(forall|k: int| pos <= k < s.len() ==> is_ws_c(#[trigger] s[k]));
                assert(ri == Err::<Op, Error>(Error::Eof));
            }
        }
    }
    match ri {
        Ok(op) => {
            let ghost h1 = e.heap@;
            let cell = cons(e, op, Op::Null);
            proof {
                crate::obj::lemma_heap_view_push(
                    h1,
                    crate::obj::Object::Pair { head: op, tail: Op::Null },
                );
            }
            let ghost h2 = e.heap@;
            let ghost e2s = e.symbols@;
            let (rr, p3) = read_list_items(e, chars, p2, delim, sugar);
            let ghost h3f = e.heap@;
            let ghost e3s = e.symbols@;
            proof {
                assert forall|f: nat| f >= chars@.len() + 1 - pos implies #[trigger] list_items_v(
                    heap_view(h2),
                    e2s,
                    chars@,
                    p2 as int,
                    delim,
                    sugar,
                    (f - 1) as nat,
                ) == (heap_view(e.heap@), e.symbols@, rr, p3 as int) by {
                    assert(p2 > pos);
                    assert(f - 1 >= chars@.len() + 1 - p2);
                }
            }
            match rr {
                Ok(rest) => {
                    if !rest.is_null() {
                        let ghost h3 = e.heap@;
                        cell.set_tail(e, rest);
                        proof {
                            assert(car_s(h3, cell) == op) by {
                                assert(h3[cell.spec_idx()] == h2[cell.spec_idx()]);
                            }
                            crate::obj::lemma_heap_view_update(
                                h3,
                                cell.spec_idx(),
                                crate::obj::Object::Pair { head: op, tail: rest },
                            );
                        }
                    }
                    proof {
                        assert forall|f: nat| f >= chars@.len() + 1 - pos implies #[trigger] list_items_v(
                            heap_view(old(e).heap@),
                            old(e).symbols@,
                            chars@,
                            pos as int,
                            delim,
                            sugar,
                            f,
                        ) == (heap_view(e.heap@), e.symbols@, Ok::<Op, Error>(cell), p3 as int)
                            by {
                            assert(item_v(
                                heap_view(old(e).heap@),
                                old(e).symbols@,
                                chars@,
                                pos as int,
                                sugar,
                                f,
                            ) == (hcore, score, ri, p2 as int));
                            assert(list_items_v(
                                heap_view(h2),
                                e2s,
                                chars@,
                                p2 as int,
                                delim,
                                sugar,
                                (f - 1) as nat,
                            ) == (heap_view(h3f), e3s, rr, p3 as int));
                        }
                    }
                    (Ok(cell), p3)
                },
                Err(er) => {
                proof {
                    assert forall|f: nat| f >= chars@.len() + 1 - pos implies #[trigger] list_items_v(
                        heap_view(old(e).heap@),
                        old(e).symbols@,
                        chars@,
                        pos as int,
                        delim,
                        sugar,
                        f,
                    ) == (heap_view(e.heap@), e.symbols@, Err::<Op, Error>(er), p3 as int) by {
                        assert(item_v(
                            heap_view(old(e).heap@),
                            old(e).symbols@,
                            chars@,
                            pos as int,
                            sugar,
                            f,
                        ) == (hcore, score, ri, p2 as int));
                        assert(p2 > pos);
                        assert(list_items_v(
                            heap_view(h2),
                            e2s,
                            chars@,
                            p2 as int,
                            delim,
                            sugar,
                            (f - 1) as nat,
                        ) == (heap_view(h3f), e3s, rr, p3 as int));
                    }
                }
                    (Err(er), p3)
                },
            }
        },
        Err(Error::Unexpected(c2)) => {
            if c2 == ',' {
                let p2c = if p2 < n {
                    p2 + 1
                } else {
                    p2
                };
                let (rc, pc) = read_list_items(e, chars, p2c, delim, sugar);
                proof {
                    assert forall|f: nat| f >= chars@.len() + 1 - pos implies #[trigger] list_items_v(
                        heap_view(old(e).heap@),
                        old(e).symbols@,
                        chars@,
                        pos as int,
                        delim,
                        sugar,
                        f,
                    ) == (heap_view(e.heap@), e.symbols@, rc, pc as int) by {
                        assert(item_v(
                            heap_view(old(e).heap@),
                            old(e).symbols@,
                            chars@,
                            pos as int,
                            sugar,
                            f,
                        ) == (hcore, score, ri, p2 as int));
                        assert(p2c > pos);
                        assert(f - 1 >= chars@.len() + 1 - p2c);
                        assert(list_items_v(
                            hcore,
                            score,
                            chars@,
                            p2c as int,
                            delim,
                            sugar,
                            (f - 1) as nat,
                        ) == (heap_view(e.heap@), e.symbols@, rc, pc as int));
                    }
                }
                (rc, pc)
            } else if c2 == delim {
                let p3 = if p2 < n {
                    p2 + 1
                } else {
                    p2
                };
                proof {
                    assert forall|f: nat| f >= chars@.len() + 1 - pos implies #[trigger] list_items_v(
                        heap_view(old(e).heap@),
                        old(e).symbols@,
                        chars@,
                        pos as int,
                        delim,
                        sugar,
                        f,
                    ) == (heap_view(e.heap@), e.symbols@, Ok::<Op, Error>(Op::Null), p3 as int) by {
                        assert(item_v(
                            heap_view(old(e).heap@),
                            old(e).symbols@,
                            chars@,
                            pos as int,
                            sugar,
                            f,
                        ) == (hcore, score, ri, p2 as int));
                    }
                }
                (Ok(Op::Null), p3)
            } else {
                proof {
                    assert forall|f: nat| f >= chars@.len() + 1 - pos implies #[trigger] list_items_v(
                        heap_view(old(e).heap@),
                        old(e).symbols@,
                        chars@,
                        pos as int,
                        delim,
                        sugar,
                        f,
                    ) == (heap_view(e.heap@), e.symbols@, Err::<Op, Error>(Error::Unexpected(c2)), p2 as int) by {
                        assert(item_v(
                            heap_view(old(e).heap@),
                            old(e).symbols@,
                            chars@,
                            pos as int,
                            sugar,
                            f,
                        ) == (hcore, score, ri, p2 as int));
                    }
                }
                (Err(Error::Unexpected(c2)), p2)
            }
        },
        Err(Error::Eof) => {
                proof {
                    assert forall|f: nat| f >= chars@.len() + 1 - pos implies #[trigger] list_items_v(
                        heap_view(old(e).heap@),
                        old(e).symbols@,
                        chars@,
                        pos as int,
                        delim,
                        sugar,
                        f,
                    ) == (heap_view(e.heap@), e.symbols@, Err::<Op, Error>(Error::UnexpectedEof), p2 as int) by {
                        assert(item_v(
                            heap_view(old(e).heap@),
                            old(e).symbols@,
                            chars@,
                            pos as int,
                            sugar,
                            f,
                        ) == (hcore, score, ri, p2 as int));
                    }
                }
            (Err(Error::UnexpectedEof), p2)
        },
        Err(er) => {
                proof {
                    assert forall|f: nat| f >= chars@.len() + 1 - pos implies #[trigger] list_items_v(
                        heap_view(old(e).heap@),
                        old(e).symbols@,
                        chars@,
                        pos as int,
                        delim,
                        sugar,
                        f,
                    ) == (heap_view(e.heap@), e.symbols@, Err::<Op, Error>(er), p2 as int) by {
                        assert(item_v(
                            heap_view(old(e).heap@),
                            old(e).symbols@,
                            chars@,
                            pos as int,
                            sugar,
                            f,
                        ) == (hcore, score, ri, p2 as int));
                    }
                }
            (Err(er), p2)
        },
    }
}

/// One dispatch step shared by both readers: skip blanks, then read a list,
/// an integer, a quoted or bare symbol — and, under the sugared syntax, a
/// `$`-scoped variable, an `@` form, or a call written as `name(...)`.
#[verifier::rlimit(100)]
#[verifier::spinoff_prover]
pub fn read_item_core(e: &mut Engine, chars: &Vec<char>, pos: usize, sugar: bool) -> (r: (Result<
    Op,
    Error,
>, usize))
    requires
        old(e).wf(),
        pos <= chars@.len(),
    ensures
        final(e).wf(),
        final(e).globals == old(e).globals,
        old(e).heap@.len() <= final(e).heap@.len(),
        forall|i: int| 0 <= i < old(e).heap@.len() ==> final(e).heap@[i] == old(e).heap@[i],
        old(e).ready() ==> final(e).ready(),
        pos <= r.1 <= chars@.len(),
        (match r.0 {
            Ok(v) => valid_op(final(e).heap@, v) && r.1 > pos,
            Err(er) => er != Error::Continue && (er matches Error::Unexpected(_) ==> r.1 > pos
                || r.1 < chars@.len()),
        }),
        (forall|k: int| pos <= k < chars@.len() ==> is_ws_c(#[trigger] chars@[k])) ==> r.0 == Err::<
            Op,
            Error,
        >(Error::Eof),
        ({
            let s = chars@;
            let p = ws_end(s, pos as int);
            p < s.len() && is_digit_c(s[p]) ==> ({
                let ds = s.subrange(p, r.1 as int);
                &&& p < r.1 <= s.len()
                &&& (forall|k: int| p <= k < r.1 ==> is_digit_c(#[trigger] s[k]))
                &&& (r.1 < s.len() ==> !is_digit_c(s[r.1 as int]))
                &&& old(e).heap@.len() < usize::MAX
                &&& final(e).heap@ == old(e).heap@.push(
                    crate::obj::Object::Long(
                        if digits_val(ds) <= i64::MAX {
                            digits_val(ds) as i64
                        } else {
                            i64::MAX
                        },
                    ),
                )
                &&& r.0 == Ok::<Op, Error>(Op::Ref(old(e).heap@.len() as usize))
            })
        }),
        ({
            let s = chars@;
            let p = ws_end(s, pos as int);
            p < s.len() && (s[p] == '(' || s[p] == '[') ==> (match r.0 {
                Ok(v) => is_pair_at(final(e).heap@, v),
                Err(er) => er != Error::Eof,
            })
        }),
        r.0 == Err::<Op, Error>(Error::Eof) ==> r.1 == chars@.len(),
        r.0 == Err::<Op, Error>(Error::UnexpectedEof) ==> r.1 == chars@.len(),
        ({
            let s = chars@;
            let p = ws_end(s, pos as int);
            p < s.len() && (s[p] == '(' || s[p] == '[') && (forall|k: int|
                p < k < s.len() ==> is_digit_c(#[trigger] s[k]) || is_ws_c(s[k])) ==> r.0
                == Err::<Op, Error>(Error::UnexpectedEof)
        }),
        forall|f: nat|
            f >= chars@.len() + 1 - pos ==> #[trigger] item_v(
                heap_view(old(e).heap@),
                old(e).symbols@,
                chars@,
                pos as int,
                sugar,
                f,
            ) == (heap_view(final(e).heap@), final(e).symbols@, r.0, r.1 as int),
    decreases chars@.len() - pos, 1int,
{
    let n = chars.len();
    let p = skip_spaces(chars, pos);
    proof {
        lemma_ws_end(chars@, pos as int, p as int);
    }
    if p >= n {
        return (Err(Error::Eof), p);
    }
    let c = chars[p];
    if c == '(' {
        let (rl, pl) = read_list(e, chars, p + 1, ')', sugar);
        proof {
            assert forall|f: nat| f >= chars@.len() + 1 - pos implies #[trigger] item_v(
                heap_view(old(e).heap@),
                old(e).symbols@,
                chars@,
                pos as int,
                sugar,
                f,
            ) == (heap_view(e.heap@), e.symbols@, rl, pl as int) by {
                assert(list_v(
                    heap_view(old(e).heap@),
                    old(e).symbols@,
                    chars@,
                    p + 1,
                    ')',
                    sugar,
                    (f - 1) as nat,
                ) == (heap_view(e.heap@), e.symbols@, rl, pl as int));
            }
        }
        return (rl, pl);
    }
    if c == '[' {
        let (rl, pl) = read_list(e, chars, p + 1, ']', sugar);
        proof {
            assert forall|f: nat| f >= chars@.len() + 1 - pos implies #[trigger] item_v(
                heap_view(old(e).heap@),
                old(e).symbols@,
                chars@,
                pos as int,
                sugar,
                f,
            ) == (heap_view(e.heap@), e.symbols@, rl, pl as int) by {
                assert(list_v(
                    heap_view(old(e).heap@),
                    old(e).symbols@,
                    chars@,
                    p + 1,
                    ']',
                    sugar,
                    (f - 1) as nat,
                ) == (heap_view(e.heap@), e.symbols@, rl, pl as int));
            }
        }
        return (rl, pl);
    }
    if sugar && c == '$' {
        let (rd, pd) = dollar_stmt(e, chars, p + 1);
        proof {
            assert forall|f: nat| f >= chars@.len() + 1 - pos implies #[trigger] item_v(
                heap_view(old(e).heap@),
                old(e).symbols@,
                chars@,
                pos as int,
                sugar,
                f,
            ) == (heap_view(e.heap@), e.symbols@, rd, pd as int) by {
                assert(dollar_v(
                    heap_view(old(e).heap@),
                    old(e).symbols@,
                    chars@,
                    p + 1,
                    (f - 1) as nat,
                ) == (heap_view(e.heap@), e.symbols@, rd, pd as int));
            }
        }
        return (rd, pd);
    }
    if sugar && c == '@' {
        let (rd, pd) = at_stmt(e, chars, p + 1);
        proof {
            assert forall|f: nat| f >= chars@.len() + 1 - pos implies #[trigger] item_v(
                heap_view(old(e).heap@),
                old(e).symbols@,
                chars@,
                pos as int,
                sugar,
                f,
            ) == (heap_view(e.heap@), e.symbols@, rd, pd as int) by {
                assert(at_v(
                    heap_view(old(e).heap@),
                    old(e).symbols@,
                    chars@,
                    p + 1,
                    (f - 1) as nat,
                ) == (heap_view(e.heap@), e.symbols@, rd, pd as int));
            }
        }
        return (rd, pd);
    }
    if is_digit(c) {
        let (rn, p2) = read_number(e, chars, p + 1, Some(c));
        proof {
            if rn is Ok {
                assert(seq![chars@[p as int]] + chars@.subrange(p + 1, p2 as int)
                    =~= chars@.subrange(p as int, p2 as int));
            }
        }
        return (rn, p2);
    }
    if c == '\'' {
        let (rs, p2) = read_symbol(e, chars, p + 1, true);
        return (rs, p2);
    }
    read_symbol_or_call(e, chars, pos, p, sugar)
}

/// The bare-identifier tail of the dispatch: the interned symbol and, under
/// the sugared syntax, a following `(...)` turning it into a call form.
#[verifier::rlimit(100)]
#[verifier::spinoff_prover]
fn read_symbol_or_call(e: &mut Engine, chars: &Vec<char>, pos: usize, p: usize, sugar: bool) -> (r:
    (Result<Op, Error>, usize))
    requires
        old(e).wf(),
        pos <= p,
        p < chars@.len(),
        p as int == ws_end(chars@, pos as int),
        chars@[p as int] != '(' && chars@[p as int] != '[' && chars@[p as int] != '\'',
        !is_digit_c(chars@[p as int]),
        sugar ==> chars@[p as int] != '$' && chars@[p as int] != '@',
    ensures
        final(e).wf(),
        final(e).globals == old(e).globals,
        old(e).heap@.len() <= final(e).heap@.len(),
        forall|i: int| 0 <= i < old(e).heap@.len() ==> final(e).heap@[i] == old(e).heap@[i],
        old(e).ready() ==> final(e).ready(),
        pos <= r.1 <= chars@.len(),
        (match r.0 {
            Ok(v) => valid_op(final(e).heap@, v) && r.1 > pos,
            Err(er) => er != Error::Continue && er != Error::Eof && (er
                matches Error::Unexpected(_) ==> r.1 > pos || r.1 < chars@.len()),
        }),
        r.0 == Err::<Op, Error>(Error::UnexpectedEof) ==> r.1 == chars@.len(),
        forall|f: nat|
            f >= chars@.len() + 1 - pos ==> #[trigger] item_v(
                heap_view(old(e).heap@),
                old(e).symbols@,
                chars@,
                pos as int,
                sugar,
                f,
            ) == (heap_view(final(e).heap@), final(e).symbols@, r.0, r.1 as int),
    decreases chars@.len() - p, 0int,
{
    let (rs, p2) = read_symbol(e, chars, p, false);
    match rs {
        Ok(sym) => {
            if sugar {
                let ghost hsym = heap_view(e.heap@);
                let ghost ssym = e.symbols@;
                let (ra, p3) = try_read_arg_list(e, chars, p2);
                proof {
                    assert forall|f: nat| f >= chars@.len() + 1 - pos implies #[trigger] try_v(
                        hsym,
                        ssym,
                        chars@,
                        p2 as int,
                        (f - 1) as nat,
                    ) == (heap_view(e.heap@), e.symbols@, ra, p3 as int) by {
                    }
                }
                match ra {
                    Ok(list) => {
                        let ghost hmid = e.heap@;
                        let ghost smid = e.symbols@;
                        let form = cons(e, sym, list);
                        proof {
                            crate::obj::lemma_heap_view_push(
                                hmid,
                                crate::obj::Object::Pair { head: sym, tail: list },
                            );
                        }
                proof {
                    assert forall|f: nat| f >= chars@.len() + 1 - pos implies #[trigger] item_v(
                        heap_view(old(e).heap@),
                        old(e).symbols@,
                        chars@,
                        pos as int,
                        sugar,
                        f,
                    ) == (heap_view(e.heap@), e.symbols@, Ok::<Op, Error>(form), p3 as int) by {
                        assert(try_v(
                            hsym,
                            ssym,
                            chars@,
                            p2 as int,
                            (f - 1) as nat,
                        ) == (heap_view(hmid), smid, ra, p3 as int));
                    }
                }
                        (Ok(form), p3)
                    },
                    Err(Error::Continue) => {
                proof {
                    assert forall|f: nat| f >= chars@.len() + 1 - pos implies #[trigger] item_v(
                        heap_view(old(e).heap@),
                        old(e).symbols@,
                        chars@,
                        pos as int,
                        sugar,
                        f,
                    ) == (heap_view(e.heap@), e.symbols@, Ok::<Op, Error>(sym), p3 as int) by {
                        assert(try_v(
                            hsym,
                            ssym,
                            chars@,
                            p2 as int,
                            (f - 1) as nat,
                        ) == (heap_view(e.heap@), e.symbols@, ra, p3 as int));
                    }
                }
                        (Ok(sym), p3)
                    },
                    Err(er) => {
                proof {
                    assert forall|f: nat| f >= chars@.len() + 1 - pos implies #[trigger] item_v(
                        heap_view(old(e).heap@),
                        old(e).symbols@,
                        chars@,
                        pos as int,
                        sugar,
                        f,
                    ) == (heap_view(e.heap@), e.symbols@, Err::<Op, Error>(er), p3 as int) by {
                        assert(try_v(
                            hsym,
                            ssym,
                            chars@,
                            p2 as int,
                            (f - 1) as nat,
                        ) == (heap_view(e.heap@), e.symbols@, ra, p3 as int));
                    }
                }
                        (Err(er), p3)
                    },
                }
            } else {
                proof {
                    assert forall|f: nat| f >= chars@.len() + 1 - pos implies #[trigger] item_v(
                        heap_view(old(e).heap@),
                        old(e).symbols@,
                        chars@,
                        pos as int,
                        sugar,
                        f,
                    ) == (heap_view(e.heap@), e.symbols@, Ok::<Op, Error>(sym), p2 as int) by {
                    }
                }
                (Ok(sym), p2)
            }
        },
        Err(er) => {
                proof {
                    assert forall|f: nat| f >= chars@.len() + 1 - pos implies #[trigger] item_v(
                        heap_view(old(e).heap@),
                        old(e).symbols@,
                        chars@,
                        pos as int,
                        sugar,
                        f,
                    ) == (heap_view(e.heap@), e.symbols@, Err::<Op, Error>(er), p2 as int) by {
                    }
                }
            (Err(er), p2)
        },
    }
}

/// A reader front-end: one `read_item` per form, `read` as the top-level
/// entry.  `Continue` never leaks out of either.
pub trait Reader {
    /// The whole input text.
    spec fn input(&self) -> Seq<char>;

    /// The current scan position.
    spec fn at(&self) -> int;

    /// Whether this front-end applies the sugared dispatch.
    spec fn sugared(&self) -> bool;

    /// The position lies inside the input.
    open spec fn scan_ok(&self) -> bool {
        0 <= self.at() <= self.input().len()
    }

    fn read_item(&mut self, e: &mut Engine) -> (r: Result<Op, Error>)
        requires
            old(self).scan_ok(),
            old(e).wf(),
        ensures
            final(self).scan_ok(),
            final(self).input() == old(self).input(),
            old(self).at() <= final(self).at(),
            final(e).wf(),
            final(e).globals == old(e).globals,
            old(e).heap@.len() <= final(e).heap@.len(),
            forall|i: int| 0 <= i < old(e).heap@.len() ==> final(e).heap@[i] == old(e).heap@[i],
            old(e).ready() ==> final(e).ready(),
            (match r {
                Ok(v) => valid_op(final(e).heap@, v) && final(self).at() > old(self).at(),
                Err(er) => er != Error::Continue,
            }),
            (forall|k: int|
                old(self).at() <= k < old(self).input().len() ==> is_ws_c(
                    #[trigger] old(self).input()[k],
                )) ==> r == Err::<Op, Error>(Error::Eof),
            ({
                let s = old(self).input();
                let p = ws_end(s, old(self).at());
                p < s.len() && is_digit_c(s[p]) ==> ({
                    let ds = s.subrange(p, final(self).at());
                    &&& p < final(self).at() <= s.len()
                    &&& (forall|k: int| p <= k < final(self).at() ==> is_digit_c(#[trigger] s[k]))
                    &&& old(e).heap@.len() < usize::MAX
                    &&& final(e).heap@ == old(e).heap@.push(
                        crate::obj::Object::Long(
                            if digits_val(ds) <= i64::MAX {
                                digits_val(ds) as i64
                            } else {
                                i64::MAX
                            },
                        ),
                    )
                    &&& r == Ok::<Op, Error>(Op::Ref(old(e).heap@.len() as usize))
                })
            }),
            ({
                let s = old(self).input();
                let p = ws_end(s, old(self).at());
                p < s.len() && (s[p] == '(' || s[p] == '[') ==> (match r {
                    Ok(v) => is_pair_at(final(e).heap@, v),
                    Err(er) => er != Error::Eof,
                })
            }),
            r == Err::<Op, Error>(Error::Eof) ==> final(self).at() == old(self).input().len(),
            r == Err::<Op, Error>(Error::UnexpectedEof) ==> final(self).at() == old(
                self,
            ).input().len(),
            ({
                let s = old(self).input();
                let p = ws_end(s, old(self).at());
                p < s.len() && (s[p] == '(' || s[p] == '[') && (forall|k: int|
                    p < k < s.len() ==> is_digit_c(#[trigger] s[k]) || is_ws_c(s[k])) ==> r
                    == Err::<Op, Error>(Error::UnexpectedEof)
            }),
            forall|f: nat|
                f >= old(self).input().len() + 1 - old(self).at() ==> #[trigger] item_v(
                    heap_view(old(e).heap@),
                    old(e).symbols@,
                    old(self).input(),
                    old(self).at(),
                    old(self).sugared(),
                    f,
                ) == (heap_view(final(e).heap@), final(e).symbols@, r, final(self).at()),
    ;

    fn read(&mut self, e: &mut Engine) -> (r: Result<Op, Error>)
        requires
            old(self).scan_ok(),
            old(e).wf(),
        ensures
            final(self).scan_ok(),
            final(self).input() == old(self).input(),
            old(self).at() <= final(self).at(),
            final(e).wf(),
            final(e).globals == old(e).globals,
            old(e).heap@.len() <= final(e).heap@.len(),
            forall|i: int| 0 <= i < old(e).heap@.len() ==> final(e).heap@[i] == old(e).heap@[i],
            old(e).ready() ==> final(e).ready(),
            (match r {
                Ok(v) => valid_op(final(e).heap@, v) && final(self).at() > old(self).at(),
                Err(er) => er != Error::Continue,
            }),
            (forall|k: int|
                old(self).at() <= k < old(self).input().len() ==> is_ws_c(
                    #[trigger] old(self).input()[k],
                )) ==> r == Err::<Op, Error>(Error::Eof),
            ({
                let s = old(self).input();
                let p = ws_end(s, old(self).at());
                p < s.len() && is_digit_c(s[p]) ==> ({
                    let ds = s.subrange(p, final(self).at());
                    &&& p < final(self).at() <= s.len()
                    &&& (forall|k: int| p <= k < final(self).at() ==> is_digit_c(#[trigger] s[k]))
                    &&& old(e).heap@.len() < usize::MAX
                    &&& final(e).heap@ == old(e).heap@.push(
                        crate::obj::Object::Long(
                            if digits_val(ds) <= i64::MAX {
                                digits_val(ds) as i64
                            } else {
                                i64::MAX
                            },
                        ),
                    )
                    &&& r == Ok::<Op, Error>(Op::Ref(old(e).heap@.len() as usize))
                })
            }),
            ({
                let s = old(self).input();
                let p = ws_end(s, old(self).at());
                p < s.len() && (s[p] == '(' || s[p] == '[') ==> (match r {
                    Ok(v) => is_pair_at(final(e).heap@, v),
                    Err(er) => er != Error::Eof,
                })
            }),
            r == Err::<Op, Error>(Error::Eof) ==> final(self).at() == old(self).input().len(),
            r == Err::<Op, Error>(Error::UnexpectedEof) ==> final(self).at() == old(
                self,
            ).input().len(),
            ({
                let s = old(self).input();
                let p = ws_end(s, old(self).at());
                p < s.len() && (s[p] == '(' || s[p] == '[') && (forall|k: int|
                    p < k < s.len() ==> is_digit_c(#[trigger] s[k]) || is_ws_c(s[k])) ==> r
                    == Err::<Op, Error>(Error::UnexpectedEof)
            }),
            forall|f: nat|
                f >= old(self).input().len() + 1 - old(self).at() ==> #[trigger] item_v(
                    heap_view(old(e).heap@),
                    old(e).symbols@,
                    old(self).input(),
                    old(self).at(),
                    old(self).sugared(),
                    f,
                ) == (heap_view(final(e).heap@), final(e).symbols@, r, final(self).at()),
    ;
}

/// The canonical-syntax reader.
pub struct BaseReader {
    pub chars: Vec<char>,
    pub pos: usize,
}

impl BaseReader {
    pub fn new(input: &str) -> (r: BaseReader)
        ensures
            r.input() == input@,
            r.at() == 0,
    {
        BaseReader { chars: crate::obj::chars_of(input), pos: 0 }
    }
}

impl Reader for BaseReader {
    open spec fn input(&self) -> Seq<char> {
        self.chars@
    }

    open spec fn at(&self) -> int {
        self.pos as int
    }

    open spec fn sugared(&self) -> bool {
        false
    }

    fn read_item(&mut self, e: &mut Engine) -> (r: Result<Op, Error>) {
        let (ri, p) = read_item_core(e, &self.chars, self.pos, false);
        self.pos = p;
        ri
    }

    fn read(&mut self, e: &mut Engine) -> (r: Result<Op, Error>) {
        let (ri, p) = read_item_core(e, &self.chars, self.pos, false);
        self.pos = p;
        ri
    }
}

} // verus!
