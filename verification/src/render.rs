//! Rendering values back to text, in the bracketed display form: integers
//! in decimal, symbols quoted, lists as `[a, b]` with a dotted tail where
//! the chain ends in a non-pair, closures as their body, built-ins by name.
//! The global frame renders as `<globals>` wherever it appears, so the
//! self-loop in the global environment is cut rather than followed forever.

use vstd::prelude::*;
use vstd::seq_lib::*;
use crate::obj::{
    car_s, cdr_s, expr_def_s, is_expr_at, is_long_at, is_pair_at, is_subr_at, is_symbol_at,
    long_at, subr_name_s, text_at, valid_op, Engine, Object, Op,
};

verus! {

/// The character for one decimal digit.
pub open spec fn digit_char(d: int) -> char {
    if d == 0 {
        '0'
    } else if d == 1 {
        '1'
    } else if d == 2 {
        '2'
    } else if d == 3 {
        '3'
    } else if d == 4 {
        '4'
    } else if d == 5 {
        '5'
    } else if d == 6 {
        '6'
    } else if d == 7 {
        '7'
    } else if d == 8 {
        '8'
    } else {
        '9'
    }
}

/// The decimal representation of a natural number, most significant digit
/// first.
pub open spec fn dec_rep(n: nat) -> Seq<char>
    decreases n,
{
    if n < 10 {
        seq![digit_char(n as int)]
    } else {
        dec_rep(n / 10).push(digit_char((n % 10) as int))
    }
}

/// The rendering of an integer: its decimal digits, with a leading minus
/// sign when negative.
pub open spec fn long_rep(n: int) -> Seq<char> {
    if n < 0 {
        seq!['-'] + dec_rep((-n) as nat)
    } else {
        dec_rep(n as nat)
    }
}

/// Reversing after a push puts the pushed element in front.
proof fn lemma_push_reverse<A>(s: Seq<A>, x: A)
    ensures
        s.push(x).reverse() =~= seq![x] + s.reverse(),
{
}

fn digit_ch(d: u64) -> (r: char)
    requires
        d < 10,
    ensures
        r == digit_char(d as int),
{
    if d == 0 {
        '0'
    } else if d == 1 {
        '1'
    } else if d == 2 {
        '2'
    } else if d == 3 {
        '3'
    } else if d == 4 {
        '4'
    } else if d == 5 {
        '5'
    } else if d == 6 {
        '6'
    } else if d == 7 {
        '7'
    } else if d == 8 {
        '8'
    } else {
        '9'
    }
}

/// Append every character of `src` to `dst`.
pub fn push_chars(dst: &mut Vec<char>, src: &Vec<char>)
    ensures
        final(dst)@ == old(dst)@ + src@,
{
    let n = src.len();
    let mut i: usize = 0;
    while i < n
        invariant
            n == src@.len(),
            0 <= i <= n,
            dst@ == old(dst)@ + src@.take(i as int),
        decreases n - i,
    {
        dst.push(src[i]);
        proof {
            assert(old(dst)@ + src@.take(i + 1) =~= (old(dst)@ + src@.take(i as int)).push(
                src@[i as int],
            ));
        }
        i += 1;
    }
    proof {
        assert(old(dst)@ + src@.take(n as int) =~= old(dst)@ + src@);
    }
}

/// The decimal text of a 64-bit integer.
pub fn long_to_chars(n: i64) -> (r: Vec<char>)
    ensures
        r@ == long_rep(n as int),
{
    let neg = n < 0;
    let m: u64 = if n >= 0 {
        n as u64
    } else {
        ((-1 - n) as u64) + 1
    };
    proof {
        if n < 0 {
            assert(m as int == -(n as int));
        }
    }
    let mut rev: Vec<char> = Vec::new();
    let mut m2 = m;
    while m2 >= 10
        invariant
            dec_rep(m as nat) == dec_rep(m2 as nat) + rev@.reverse(),
        decreases m2,
    {
        let d = m2 % 10;
        let c = digit_ch(d);
        proof {
            assert(dec_rep(m2 as nat) == dec_rep((m2 as nat) / 10).push(
                digit_char((m2 % 10) as int),
            ));
            lemma_push_reverse(rev@, c);
            assert(dec_rep((m2 as nat) / 10) + rev@.push(c).reverse() =~= (dec_rep(
                (m2 as nat) / 10,
            ).push(c)) + rev@.reverse());
        }
        rev.push(c);
        m2 = m2 / 10;
    }
    let c = digit_ch(m2);
    proof {
        assert(dec_rep(m2 as nat) == seq![digit_char(m2 as int)]);
        lemma_push_reverse(rev@, c);
        assert(dec_rep(m2 as nat) + rev@.reverse() =~= rev@.push(c).reverse());
    }
    rev.push(c);
    let mut out: Vec<char> = Vec::new();
    if neg {
        out.push('-');
    }
    let ghost base: Seq<char> = if neg {
        seq!['-']
    } else {
        Seq::empty()
    };
    proof {
        assert(out@ =~= base);
        assert(out@ =~= base + rev@.reverse().take(0));
    }
    let k = rev.len();
    let mut i: usize = k;
    while i > 0
        invariant
            0 <= i <= k,
            k == rev@.len(),
            out@ == base + rev@.reverse().take((k - i) as int),
        decreases i,
    {
        let c2 = rev[i - 1];
        proof {
            assert(rev@.reverse()[(k - i) as int] == rev@[i - 1]);
            assert(base + rev@.reverse().take((k - i + 1) as int) =~= (base
                + rev@.reverse().take((k - i) as int)).push(rev@[i - 1]));
        }
        out.push(c2);
        i -= 1;
    }
    proof {
        assert(rev@.reverse().take(k as int) =~= rev@.reverse());
        assert(out@ =~= base + dec_rep(m as nat));
        if n < 0 {
            assert(out@ =~= long_rep(n as int));
        } else {
            assert(base + dec_rep(m as nat) =~= dec_rep(m as nat));
        }
    }
    out
}

/// The display text of one value under the budget `fuel`: the global frame
/// as `<globals>` wherever it stands, nil as `nil`, integers in decimal,
/// symbols quoted, built-ins as `<subr name>`, a closure as its body, and a
/// pair as its bracketed elements with a dotted non-nil terminator; an
/// ellipsis where the budget runs out.
pub open spec fn render_s(h: Seq<Object>, g: Op, op: Op, fuel: nat) -> Seq<char>
    decreases fuel, 1int,
{
    if op == g {
        seq!['<', 'g', 'l', 'o', 'b', 'a', 'l', 's', '>']
    } else if op is Null {
        seq!['n', 'i', 'l']
    } else if is_long_at(h, op) {
        long_rep(long_at(h, op) as int)
    } else if is_symbol_at(h, op) {
        seq!['\''] + text_at(h, op) + seq!['\'']
    } else if is_subr_at(h, op) {
        seq!['<', 's', 'u', 'b', 'r', ' '] + subr_name_s(h, op) + seq!['>']
    } else if is_expr_at(h, op) {
        if fuel == 0 {
            seq!['.', '.', '.']
        } else {
            render_s(h, g, cdr_s(h, expr_def_s(h, op)), (fuel - 1) as nat)
        }
    } else if is_pair_at(h, op) {
        if fuel == 0 {
            seq!['.', '.', '.']
        } else {
            let it = render_items_s(h, g, car_s(h, op), cdr_s(h, op), fuel);
            match it.1 {
                None => seq!['['] + it.0 + seq![']'],
                Some(t) => seq!['['] + it.0 + (if t is Null {
                    Seq::<char>::empty()
                } else {
                    seq![' ', '.', ' '] + render_s(h, g, t, (fuel - 1) as nat)
                }) + seq![']'],
            }
        }
    } else {
        Seq::empty()
    }
}

/// The text of a list's elements, separated by commas, walking the spine
/// from `head`/`tail` until a non-pair or the global frame; the terminator
/// is handed back, or nothing when the budget ran out mid-walk.
pub open spec fn render_items_s(h: Seq<Object>, g: Op, head: Op, tail: Op, fuel: nat) -> (
    Seq<char>,
    Option<Op>,
)
    decreases fuel, 0int,
{
    if fuel == 0 {
        (seq!['.', '.', '.'], None)
    } else {
        let part = render_s(h, g, head, (fuel - 1) as nat);
        if !is_pair_at(h, tail) || tail == g {
            (part, Some(tail))
        } else {
            let rest = render_items_s(h, g, car_s(h, tail), cdr_s(h, tail), (fuel - 1) as nat);
            (part + seq![',', ' '] + rest.0, rest.1)
        }
    }
}

/// Render one value, spending `fuel` on nesting and list length: the text
/// `render_s`, exactly.
pub fn render_fuel(e: &Engine, op: Op, fuel: u64) -> (r: Vec<char>)
    requires
        e.wf(),
        valid_op(e.heap@, op),
    ensures
        r@ == render_s(e.heap@, e.globals, op, fuel as nat),
        op == e.globals ==> r@ == seq!['<', 'g', 'l', 'o', 'b', 'a', 'l', 's', '>'],
        op != e.globals && op is Null ==> r@ == seq!['n', 'i', 'l'],
        op != e.globals && is_long_at(e.heap@, op) ==> r@ == long_rep(long_at(e.heap@, op) as int),
        op != e.globals && is_symbol_at(e.heap@, op) ==> r@ == seq!['\''] + text_at(e.heap@, op)
            + seq!['\''],
    decreases fuel, 1int,
{
    let mut out: Vec<char> = Vec::new();
    if op == e.globals {
        push_chars(&mut out, &vec!['<', 'g', 'l', 'o', 'b', 'a', 'l', 's', '>']);
        proof {
            assert(out@ =~= seq!['<', 'g', 'l', 'o', 'b', 'a', 'l', 's', '>']);
        }
        return out;
    }
    if op.is_null() {
        push_chars(&mut out, &vec!['n', 'i', 'l']);
        proof {
            assert(out@ =~= seq!['n', 'i', 'l']);
        }
        return out;
    }
    if op.is_long(e) {
        let digits = long_to_chars(op.get_long(e));
        push_chars(&mut out, &digits);
        proof {
            assert(out@ =~= digits@);
        }
        return out;
    }
    if op.is_symbol(e) {
        let text = sym_chars(e, op);
        out.push('\'');
        push_chars(&mut out, &text);
        out.push('\'');
        proof {
            assert(out@ =~= seq!['\''] + text_at(e.heap@, op) + seq!['\'']);
        }
        return out;
    }
    if op.is_subr(e) {
        let name = subr_chars(e, op);
        push_chars(&mut out, &vec!['<', 's', 'u', 'b', 'r', ' ']);
        push_chars(&mut out, &name);
        out.push('>');
        proof {
            assert(out@ =~= seq!['<', 's', 'u', 'b', 'r', ' '] + subr_name_s(e.heap@, op)
                + seq!['>']);
        }
        return out;
    }
    if op.is_expr(e) {
        if fuel == 0 {
            push_chars(&mut out, &vec!['.', '.', '.']);
            return out;
        }
        let def = op.get_def(e);
        let body = crate::eval::cdr(e, def);
        let inner = render_fuel(e, body, fuel - 1);
        push_chars(&mut out, &inner);
        proof {
            assert(out@ =~= inner@);
        }
        return out;
    }
    // a pair: walk the spine
    if fuel == 0 {
        push_chars(&mut out, &vec!['.', '.', '.']);
        return out;
    }
    let head = op.get_head(e);
    let tail = op.get_tail(e);
    let it = render_items(e, head, tail, fuel);
    out.push('[');
    push_chars(&mut out, &it.0);
    match it.1 {
        None => {},
        Some(t) => {
            if !t.is_null() {
                push_chars(&mut out, &vec![' ', '.', ' ']);
                let rest = render_fuel(e, t, fuel - 1);
                push_chars(&mut out, &rest);
            }
        },
    }
    out.push(']');
    proof {
        let s = render_s(e.heap@, e.globals, op, fuel as nat);
        assert(out@ =~= s);
    }
    out
}

/// The element walk of the bracketed form: the text `render_items_s`,
/// exactly.
fn render_items(e: &Engine, head: Op, tail: Op, fuel: u64) -> (r: (Vec<char>, Option<Op>))
    requires
        e.wf(),
        valid_op(e.heap@, head),
        valid_op(e.heap@, tail),
    ensures
        ({
            let s = render_items_s(e.heap@, e.globals, head, tail, fuel as nat);
            r.0@ == s.0 && r.1 == s.1
        }),
        (match r.1 {
            Some(t) => valid_op(e.heap@, t),
            None => true,
        }),
    decreases fuel, 0int,
{
    if fuel == 0 {
        return (vec!['.', '.', '.'], None);
    }
    let part = render_fuel(e, head, fuel - 1);
    if !tail.is_pair(e) || tail == e.globals {
        return (part, Some(tail));
    }
    let h2 = tail.get_head(e);
    let t2 = tail.get_tail(e);
    let rest = render_items(e, h2, t2, fuel - 1);
    let mut out = part;
    out.push(',');
    out.push(' ');
    push_chars(&mut out, &rest.0);
    proof {
        let s = render_items_s(e.heap@, e.globals, head, tail, fuel as nat);
        assert(out@ =~= s.0);
    }
    (out, rest.1)
}

/// The text of a symbol, copied out of the store.
fn sym_chars(e: &Engine, op: Op) -> (r: Vec<char>)
    requires
        is_symbol_at(e.heap@, op),
    ensures
        r@ == text_at(e.heap@, op),
{
    let mut out: Vec<char> = Vec::new();
    match op {
        Op::Null => {
        },
        Op::Ref(i) => {
            match &e.heap[i] {
                Object::Symbol { s } => {
                    let n = s.len();
                    let mut k: usize = 0;
                    while k < n
                        invariant
                            n == s@.len(),
                            0 <= k <= n,
                            out@ == s@.take(k as int),
                        decreases n - k,
                    {
                        out.push(s[k]);
                        proof {
                            assert(out@ =~= s@.take(k + 1));
                        }
                        k += 1;
                    }
                    proof {
                        assert(s@.take(n as int) =~= s@);
                    }
                },
                _ => {
                },
            }
        },
    }
    out
}

/// The registered name of a built-in, copied out of the store.
fn subr_chars(e: &Engine, op: Op) -> (r: Vec<char>)
    requires
        is_subr_at(e.heap@, op),
    ensures
        r@ == crate::obj::subr_name_s(e.heap@, op),
{
    let mut out: Vec<char> = Vec::new();
    match op {
        Op::Null => {
        },
        Op::Ref(i) => {
            match &e.heap[i] {
                Object::Subr { name, .. } => {
                    let n = name.len();
                    let mut k: usize = 0;
                    while k < n
                        invariant
                            n == name@.len(),
                            0 <= k <= n,
                            out@ == name@.take(k as int),
                        decreases n - k,
                    {
                        out.push(name[k]);
                        proof {
                            assert(out@ =~= name@.take(k + 1));
                        }
                        k += 1;
                    }
                    proof {
                        assert(name@.take(n as int) =~= name@);
                    }
                },
                _ => {
                },
            }
        },
    }
    out
}

/// The display budget: nesting or length beyond this renders as an
/// ellipsis.
pub const RENDER_DEPTH: u64 = 10000;

impl Engine {
    /// Render one value to text under the display budget.
    pub fn render(&self, op: Op) -> (r: Vec<char>)
        requires
            self.wf(),
            valid_op(self.heap@, op),
        ensures
            r@ == render_s(self.heap@, self.globals, op, RENDER_DEPTH as nat),
            op == self.globals ==> r@ == seq!['<', 'g', 'l', 'o', 'b', 'a', 'l', 's', '>'],
            op != self.globals && op is Null ==> r@ == seq!['n', 'i', 'l'],
            op != self.globals && is_long_at(self.heap@, op) ==> r@ == long_rep(
                long_at(self.heap@, op) as int,
            ),
            op != self.globals && is_symbol_at(self.heap@, op) ==> r@ == seq!['\''] + text_at(
                self.heap@,
                op,
            ) + seq!['\''],
    {
        render_fuel(self, op, RENDER_DEPTH)
    }
}

} // verus!
