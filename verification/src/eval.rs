//! The evaluator: environments, the eval/apply protocol, and the built-in
//! primitive routines.
//!
//! The environment is a chain of association pairs inside the object store;
//! frames are prepended and never removed, so a lookup always finds the most
//! recently defined binding for a name (shadowing by list order).  A closure
//! captures its environment by handle, so later global definitions stay
//! visible to it.
//!
//! Evaluation is recursive; the engine carries an explicit depth budget and
//! reports `Error::TooDeep` instead of recursing without bound.  This is the
//! engine's documented recursion-depth limit; it also bounds every walk over
//! a tail chain, so a cyclic structure is detected rather than looped over.
//!
//! The contracts pin every step to a spec-level interpreter: `eval_s`,
//! `apply_s`, `evlis_s`, `pairlis_s` and the per-primitive step functions
//! compute, over the heap, exactly what the executable evaluator returns.

use vstd::prelude::*;
use crate::obj::{
    car_s, cdr_s, chars_of, expr_def_s, expr_env_s, is_expr_at, is_long_at, is_pair_at,
    is_subr_at, is_symbol_at, long_at, subr_fixed_s, subr_imp_s, subr_name_s, text_at,
    valid_op, Engine,
    Object, Op, Prim,
};

verus! {

/// An evaluation error; the type-mismatch kinds carry the offending value.
#[derive(Clone, Copy, PartialEq, Eq, Structural, Debug)]
pub enum Error {
    Undefined(Op),
    CanNotApply(Op),
    RequireLong(Op),
    RequireSymbol(Op),
    RequirePair(Op),
    RequireExpr(Op),
    TooFewArgs,
    DivideByZero,
    TooDeep,
}

/// Any handle carried by the error points inside the arena.
pub open spec fn err_wf(h: Seq<Object>, err: Error) -> bool {
    match err {
        Error::Undefined(o) => valid_op(h, o),
        Error::CanNotApply(o) => valid_op(h, o),
        Error::RequireLong(o) => valid_op(h, o),
        Error::RequireSymbol(o) => valid_op(h, o),
        Error::RequirePair(o) => valid_op(h, o),
        Error::RequireExpr(o) => valid_op(h, o),
        _ => true,
    }
}

/// The association pair whose key is `key`, walking tail-wise from `env`:
/// the first pair whose head-of-head is `key`, nil when a nil tail ends the
/// walk first, `None` when `fuel` runs out (an unbounded chain).
pub open spec fn assoc_s(h: Seq<Object>, key: Op, env: Op, fuel: nat) -> Option<Op>
    decreases fuel,
{
    if fuel == 0 {
        None
    } else if car_s(h, car_s(h, env)) == key {
        Some(car_s(h, env))
    } else if cdr_s(h, env) is Null {
        Some(Op::Null)
    } else {
        assoc_s(h, key, cdr_s(h, env), (fuel - 1) as nat)
    }
}

/// The pair cells of the tail chain from `o` together with its terminator
/// (the first non-pair reached), or `None` when `fuel` runs out first.
pub open spec fn chain_s(h: Seq<Object>, o: Op, fuel: nat) -> Option<(Seq<Op>, Op)>
    decreases fuel,
{
    if !is_pair_at(h, o) {
        Some((Seq::empty(), o))
    } else if fuel == 0 {
        None
    } else {
        match chain_s(h, cdr_s(h, o), (fuel - 1) as nat) {
            None => None,
            Some(ct) => Some((seq![o] + ct.0, ct.1)),
        }
    }
}

/// The cell reached from `o` by following `k` tails.
pub open spec fn nth_s(h: Seq<Object>, o: Op, k: nat) -> Op
    decreases k,
{
    if k == 0 {
        o
    } else {
        nth_s(h, cdr_s(h, o), (k - 1) as nat)
    }
}

/// Following one more tail is taking the tail of the cell reached.
proof fn lemma_nth_snoc(h: Seq<Object>, o: Op, k: nat)
    ensures
        nth_s(h, o, k + 1) == cdr_s(h, nth_s(h, o, k)),
    decreases k,
{
    if k == 0 {
        assert(nth_s(h, o, 1) == nth_s(h, cdr_s(h, o), 0));
    } else {
        lemma_nth_snoc(h, cdr_s(h, o), (k - 1) as nat);
    }
}

/// Positional lookup of the integer key `n` in the frame chain from `env`:
/// `Some(Some(v))` when an association with key `n` is found, `Some(None)`
/// when a nil frame ends the walk, `None` when `fuel` runs out.
pub open spec fn scope_find_s(h: Seq<Object>, n: i64, env: Op, fuel: nat) -> Option<Option<Op>>
    decreases fuel,
{
    if env is Null {
        Some(None)
    } else if fuel == 0 {
        None
    } else {
        let pair = car_s(h, env);
        let k = car_s(h, pair);
        if is_long_at(h, k) && long_at(h, k) == n {
            Some(Some(cdr_s(h, pair)))
        } else {
            scope_find_s(h, n, cdr_s(h, env), (fuel - 1) as nat)
        }
    }
}

/// The heap after `define` prepends the association `(name . value)` to the
/// tail of the frame `env`: the association pair and the new chain cell are
/// appended, and the frame cell's tail is rewired to the new chain cell.
pub open spec fn define_s(h: Seq<Object>, name: Op, value: Op, env: Op) -> Seq<Object> {
    h.push(Object::Pair { head: name, tail: value }).push(
        Object::Pair { head: Op::Ref(h.len() as usize), tail: cdr_s(h, env) },
    ).update(
        env.spec_idx(),
        Object::Pair { head: car_s(h, env), tail: Op::Ref((h.len() + 1) as usize) },
    )
}

/// The global frame `g` binds an interned symbol with text `nm` to a
/// built-in routine with identity `imp` and evaluation flag `fixed`: the
/// lookup from `g` finds that association.
pub open spec fn global_binding_s(
    h: Seq<Object>,
    g: Op,
    nm: Seq<char>,
    imp: Prim,
    fixed: bool,
) -> bool {
    exists|s: Op|
        #![auto]
        is_symbol_at(h, s) && text_at(h, s) == nm && assoc_s(h, s, g, h.len() + 1) is Some
            && is_pair_at(h, assoc_s(h, s, g, h.len() + 1)->Some_0) && is_subr_at(
            h,
            cdr_s(h, assoc_s(h, s, g, h.len() + 1)->Some_0),
        ) && subr_imp_s(h, cdr_s(h, assoc_s(h, s, g, h.len() + 1)->Some_0)) == imp
            && subr_fixed_s(h, cdr_s(h, assoc_s(h, s, g, h.len() + 1)->Some_0)) == fixed
            && subr_name_s(h, cdr_s(h, assoc_s(h, s, g, h.len() + 1)->Some_0)) == nm
}

/// The step of one arithmetic primitive: both operands must be integers,
/// and the result is a fresh integer cell computed by `f` from their values.
pub open spec fn arith_s(h: Seq<Object>, args: Op, f: spec_fn(i64, i64) -> i64) -> (
    Seq<Object>,
    Result<Op, Error>,
) {
    let lhs = car_s(h, args);
    let rhs = car_s(h, cdr_s(h, args));
    if !is_pair_at(h, args) || !is_pair_at(h, cdr_s(h, args)) {
        (h, Err(Error::TooFewArgs))
    } else if !is_long_at(h, lhs) {
        (h, Err(Error::RequireLong(lhs)))
    } else if !is_long_at(h, rhs) {
        (h, Err(Error::RequireLong(rhs)))
    } else {
        (
            h.push(Object::Long(f(long_at(h, lhs), long_at(h, rhs)))),
            Ok(Op::Ref(h.len() as usize)),
        )
    }
}

pub open spec fn subr_add_s(h: Seq<Object>, args: Op) -> (Seq<Object>, Result<Op, Error>) {
    arith_s(h, args, |a: i64, b: i64| a.wrapping_add(b))
}

pub open spec fn subr_subtract_s(h: Seq<Object>, args: Op) -> (Seq<Object>, Result<Op, Error>) {
    arith_s(h, args, |a: i64, b: i64| a.wrapping_sub(b))
}

pub open spec fn subr_mul_s(h: Seq<Object>, args: Op) -> (Seq<Object>, Result<Op, Error>) {
    arith_s(h, args, |a: i64, b: i64| a.wrapping_mul(b))
}

pub open spec fn subr_div_s(h: Seq<Object>, args: Op) -> (Seq<Object>, Result<Op, Error>) {
    let lhs = car_s(h, args);
    let rhs = car_s(h, cdr_s(h, args));
    if !is_pair_at(h, args) || !is_pair_at(h, cdr_s(h, args)) {
        (h, Err(Error::TooFewArgs))
    } else if !is_long_at(h, lhs) {
        (h, Err(Error::RequireLong(lhs)))
    } else if !is_long_at(h, rhs) {
        (h, Err(Error::RequireLong(rhs)))
    } else if long_at(h, rhs) == 0 {
        (h, Err(Error::DivideByZero))
    } else {
        (
            h.push(Object::Long(div_val(long_at(h, lhs), long_at(h, rhs)))),
            Ok(Op::Ref(h.len() as usize)),
        )
    }
}

pub open spec fn subr_new_list_s(h: Seq<Object>) -> (Seq<Object>, Result<Op, Error>) {
    (
        h.push(Object::Pair { head: Op::Null, tail: Op::Null }),
        Ok(Op::Ref(h.len() as usize)),
    )
}

pub open spec fn subr_lambda_s(h: Seq<Object>, args: Op, env: Op) -> (
    Seq<Object>,
    Result<Op, Error>,
) {
    if !is_pair_at(h, args) || !is_pair_at(h, cdr_s(h, args)) {
        (h, Err(Error::TooFewArgs))
    } else {
        (
            h.push(
                Object::Pair { head: car_s(h, args), tail: car_s(h, cdr_s(h, args)) },
            ).push(Object::Expr { def: Op::Ref(h.len() as usize), env }),
            Ok(Op::Ref((h.len() + 1) as usize)),
        )
    }
}

pub open spec fn subr_lambda_lambda_s(h: Seq<Object>, args: Op, env: Op) -> (
    Seq<Object>,
    Result<Op, Error>,
) {
    if !is_pair_at(h, args) {
        (h, Err(Error::TooFewArgs))
    } else {
        (
            h.push(Object::Pair { head: Op::Null, tail: car_s(h, args) }).push(
                Object::Expr { def: Op::Ref(h.len() as usize), env },
            ),
            Ok(Op::Ref((h.len() + 1) as usize)),
        )
    }
}

/// The step of `get_scope`: a positional frame lookup for an integer key;
/// any other operand, or a miss, hands the operand back.  No allocation.
pub open spec fn subr_get_scope_s(h: Seq<Object>, args: Op, env: Op) -> Result<Op, Error> {
    if !is_pair_at(h, args) {
        Err(Error::TooFewArgs)
    } else {
        let name = car_s(h, args);
        if is_long_at(h, name) {
            match scope_find_s(h, long_at(h, name), env, h.len() + 1) {
                Some(Some(v)) => Ok(v),
                Some(None) => Ok(name),
                None => Ok(name),
            }
        } else {
            Ok(name)
        }
    }
}

pub open spec fn subr_list_append_s(h: Seq<Object>, args: Op) -> (Seq<Object>, Result<Op, Error>) {
    let list = car_s(h, args);
    let elem = car_s(h, cdr_s(h, args));
    if !is_pair_at(h, args) {
        (h, Err(Error::TooFewArgs))
    } else if !is_pair_at(h, list) {
        (h, Err(Error::RequirePair(list)))
    } else if !is_pair_at(h, cdr_s(h, args)) {
        (h, Err(Error::TooFewArgs))
    } else if car_s(h, list) is Null {
        (
            h.update(list.spec_idx(), Object::Pair { head: elem, tail: cdr_s(h, list) }),
            Ok(list),
        )
    } else {
        match chain_s(h, list, h.len() + 1) {
            None => (h, Err(Error::TooDeep)),
            Some(ct) => if ct.1 is Null {
                (
                    h.push(Object::Pair { head: elem, tail: Op::Null }).update(
                        ct.0.last().spec_idx(),
                        Object::Pair {
                            head: car_s(h, ct.0.last()),
                            tail: Op::Ref(h.len() as usize),
                        },
                    ),
                    Ok(list),
                )
            } else {
                (h, Err(Error::RequirePair(ct.0.last())))
            },
        }
    }
}

pub open spec fn subr_list_prepend_s(h: Seq<Object>, args: Op) -> (
    Seq<Object>,
    Result<Op, Error>,
) {
    let list = car_s(h, args);
    let elem = car_s(h, cdr_s(h, args));
    if !is_pair_at(h, args) {
        (h, Err(Error::TooFewArgs))
    } else if !is_pair_at(h, list) {
        (h, Err(Error::RequirePair(list)))
    } else if !is_pair_at(h, cdr_s(h, args)) {
        (h, Err(Error::TooFewArgs))
    } else if car_s(h, list) is Null {
        (
            h.update(list.spec_idx(), Object::Pair { head: elem, tail: cdr_s(h, list) }),
            Ok(list),
        )
    } else {
        (
            h.push(Object::Pair { head: car_s(h, list), tail: cdr_s(h, list) }).update(
                list.spec_idx(),
                Object::Pair { head: elem, tail: Op::Ref(h.len() as usize) },
            ),
            Ok(list),
        )
    }
}

pub open spec fn subr_list_count_s(h: Seq<Object>, args: Op) -> (Seq<Object>, Result<Op, Error>) {
    let list = car_s(h, args);
    if !is_pair_at(h, args) {
        (h, Err(Error::TooFewArgs))
    } else if !is_pair_at(h, list) {
        (h, Err(Error::RequirePair(list)))
    } else if car_s(h, list) is Null {
        (h.push(Object::Long(0)), Ok(Op::Ref(h.len() as usize)))
    } else {
        match chain_s(h, list, h.len() + 1) {
            None => (h, Err(Error::TooDeep)),
            Some(ct) => if ct.1 is Null {
                if ct.0.len() < 0x8000_0000_0000_0000 {
                    (
                        h.push(Object::Long(ct.0.len() as i64)),
                        Ok(Op::Ref(h.len() as usize)),
                    )
                } else {
                    (h, Err(Error::TooDeep))
                }
            } else {
                (h, Err(Error::RequirePair(ct.1)))
            },
        }
    }
}

/// The step of `list_index`: zero-based access, nil past the end.  No
/// allocation.
pub open spec fn subr_list_index_s(h: Seq<Object>, args: Op) -> Result<Op, Error> {
    let list = car_s(h, args);
    let index = car_s(h, cdr_s(h, args));
    if !is_pair_at(h, args) {
        Err(Error::TooFewArgs)
    } else if !is_pair_at(h, list) {
        Err(Error::RequirePair(list))
    } else if !is_pair_at(h, cdr_s(h, args)) {
        Err(Error::TooFewArgs)
    } else if !is_long_at(h, index) {
        Err(Error::RequireLong(index))
    } else {
        let i = long_at(h, index) as int;
        match chain_s(h, list, h.len() + 1) {
            None => if 0 <= i <= h.len() {
                Ok(car_s(h, nth_s(h, list, i as nat)))
            } else {
                Err(Error::TooDeep)
            },
            Some(ct) => if 0 <= i < ct.0.len() {
                Ok(car_s(h, ct.0[i]))
            } else if ct.1 is Null {
                Ok(Op::Null)
            } else {
                Err(Error::RequirePair(ct.1))
            },
        }
    }
}

/// The frame built by `pairlis`: each parameter symbol consed onto its
/// argument value in front of `env`; the empty-list sentinel ends the
/// parameters; a bare-symbol tail binds the remaining arguments.
pub open spec fn pairlis_s(h: Seq<Object>, names: Op, values: Op, env: Op, fuel: nat) -> (
    Seq<Object>,
    Result<Op, Error>,
)
    decreases fuel,
{
    if !is_pair_at(h, names) {
        if is_symbol_at(h, names) {
            (
                h.push(Object::Pair { head: names, tail: values }).push(
                    Object::Pair { head: Op::Ref(h.len() as usize), tail: env },
                ),
                Ok(Op::Ref((h.len() + 1) as usize)),
            )
        } else {
            (h, Ok(env))
        }
    } else {
        let name = car_s(h, names);
        if name is Null {
            (h, Ok(env))
        } else if !is_symbol_at(h, name) {
            (h, Err(Error::RequireSymbol(name)))
        } else if !is_pair_at(h, values) {
            (h, Err(Error::TooFewArgs))
        } else {
            let h1 = h.push(Object::Pair { head: name, tail: car_s(h, values) }).push(
                Object::Pair { head: Op::Ref(h.len() as usize), tail: env },
            );
            let env1 = Op::Ref((h.len() + 1) as usize);
            if fuel == 0 {
                (h1, Err(Error::TooDeep))
            } else {
                pairlis_s(h1, cdr_s(h1, names), cdr_s(h1, values), env1, (fuel - 1) as nat)
            }
        }
    }
}

/// The evaluation step of one form: the spec-level interpreter.  It mirrors
/// the eval/apply protocol exactly: nil and every non-pair, non-symbol
/// value are themselves; a symbol is looked up; the empty-list value gives
/// a fresh empty list; any other pair is a call form whose operator is
/// evaluated first, whose operands are passed unevaluated exactly to a
/// fixed built-in and evaluated left-to-right otherwise, and whose result
/// is the application's.
pub open spec fn eval_s(h: Seq<Object>, g: Op, op: Op, env: Op, fuel: nat) -> (
    Seq<Object>,
    Result<Op, Error>,
)
    decreases fuel, 0int,
{
    if op is Null {
        (h, Ok(Op::Null))
    } else if is_symbol_at(h, op) {
        (
            h,
            match assoc_s(h, op, env, h.len() + 1) {
                Some(p) => if p is Null {
                    Err(Error::Undefined(op))
                } else {
                    Ok(cdr_s(h, p))
                },
                None => Err(Error::Undefined(op)),
            },
        )
    } else if is_pair_at(h, op) {
        if fuel == 0 {
            (h, Err(Error::TooDeep))
        } else {
            let hd = car_s(h, op);
            let tl = cdr_s(h, op);
            if hd is Null && tl is Null {
                (
                    h.push(Object::Pair { head: Op::Null, tail: Op::Null }),
                    Ok(Op::Ref(h.len() as usize)),
                )
            } else {
                let fr = eval_s(h, g, hd, env, (fuel - 1) as nat);
                match fr.1 {
                    Err(er) => (fr.0, Err(er)),
                    Ok(f) => if is_subr_at(fr.0, f) && subr_fixed_s(fr.0, f) {
                        apply_s(fr.0, g, f, tl, env, (fuel - 1) as nat)
                    } else {
                        let ar = evlis_s(fr.0, g, tl, env, (fuel - 1) as nat);
                        match ar.1 {
                            Err(er) => (ar.0, Err(er)),
                            Ok(args) => apply_s(ar.0, g, f, args, env, (fuel - 1) as nat),
                        }
                    },
                }
            }
        }
    } else {
        (h, Ok(op))
    }
}

/// The evaluation of every element of a list form, left to right, into a
/// fresh list of the results; the first error propagates.
pub open spec fn evlis_s(h: Seq<Object>, g: Op, op: Op, env: Op, fuel: nat) -> (
    Seq<Object>,
    Result<Op, Error>,
)
    decreases fuel, 0int,
{
    if op is Null {
        (h, Ok(Op::Null))
    } else if fuel == 0 {
        (h, Err(Error::TooDeep))
    } else {
        let hd = car_s(h, op);
        let tl = cdr_s(h, op);
        let r1 = eval_s(h, g, hd, env, (fuel - 1) as nat);
        match r1.1 {
            Err(er) => (r1.0, Err(er)),
            Ok(v1) => {
                let r2 = evlis_s(r1.0, g, tl, env, (fuel - 1) as nat);
                match r2.1 {
                    Err(er) => (r2.0, Err(er)),
                    Ok(v2) => (
                        r2.0.push(Object::Pair { head: v1, tail: v2 }),
                        Ok(Op::Ref(r2.0.len() as usize)),
                    ),
                }
            },
        }
    }
}

/// The application step: a built-in dispatches to its routine's step; a
/// closure binds its parameters over its captured environment and
/// evaluates its body there; anything else is `CanNotApply`.
pub open spec fn apply_s(h: Seq<Object>, g: Op, fun: Op, args: Op, env: Op, fuel: nat) -> (
    Seq<Object>,
    Result<Op, Error>,
)
    decreases fuel, 0int,
{
    if is_subr_at(h, fun) {
        if fuel == 0 {
            (h, Err(Error::TooDeep))
        } else {
            match subr_imp_s(h, fun) {
                Prim::Define => subr_define_s(h, g, args, env, (fuel - 1) as nat),
                Prim::Lambda => subr_lambda_s(h, args, env),
                Prim::LambdaLambda => subr_lambda_lambda_s(h, args, env),
                Prim::SetScope => subr_set_scope_s(h, g, args, env, (fuel - 1) as nat),
                Prim::GetScope => (h, subr_get_scope_s(h, args, env)),
                Prim::Apply => subr_apply_s(h, g, args, env, (fuel - 1) as nat),
                Prim::Add => subr_add_s(h, args),
                Prim::Subtract => subr_subtract_s(h, args),
                Prim::Mul => subr_mul_s(h, args),
                Prim::Div => subr_div_s(h, args),
                Prim::NewList => subr_new_list_s(h),
                Prim::ListAppend => subr_list_append_s(h, args),
                Prim::ListPrepend => subr_list_prepend_s(h, args),
                Prim::ListCount => subr_list_count_s(h, args),
                Prim::ListIndex => (h, subr_list_index_s(h, args)),
                Prim::ListMap => subr_list_map_s(h, g, args, (fuel - 1) as nat),
            }
        }
    } else if is_expr_at(h, fun) {
        if fuel == 0 {
            (h, Err(Error::TooDeep))
        } else {
            let def = expr_def_s(h, fun);
            let pr = pairlis_s(h, car_s(h, def), args, expr_env_s(h, fun), h.len() as nat);
            match pr.1 {
                Err(er) => (pr.0, Err(er)),
                Ok(nenv) => eval_s(pr.0, g, cdr_s(h, def), nenv, (fuel - 1) as nat),
            }
        }
    } else {
        (h, Err(Error::CanNotApply(fun)))
    }
}

/// The step of `define`: the first operand must be a symbol, the second is
/// evaluated in the calling environment, and the binding is prepended to
/// the global frame `g` whatever that environment was.
pub open spec fn subr_define_s(h: Seq<Object>, g: Op, args: Op, env: Op, fuel: nat) -> (
    Seq<Object>,
    Result<Op, Error>,
)
    decreases fuel, 0int,
{
    let name = car_s(h, args);
    if !is_symbol_at(h, name) {
        (h, Err(Error::RequireSymbol(name)))
    } else if fuel == 0 {
        (h, Err(Error::TooDeep))
    } else {
        let vr = eval_s(h, g, car_s(h, cdr_s(h, args)), env, (fuel - 1) as nat);
        match vr.1 {
            Err(er) => (vr.0, Err(er)),
            Ok(v) => (define_s(vr.0, name, v, g), Ok(v)),
        }
    }
}

/// `set_scope` is the alias of `define`: the same step on every input.
pub open spec fn subr_set_scope_s(h: Seq<Object>, g: Op, args: Op, env: Op, fuel: nat) -> (
    Seq<Object>,
    Result<Op, Error>,
)
    decreases fuel, 1int,
{
    subr_define_s(h, g, args, env, fuel)
}

/// The step of the explicit `apply`: the evaluated operands name the
/// function, its argument list and an optional environment; the caller's
/// environment is used when none is given.
pub open spec fn subr_apply_s(h: Seq<Object>, g: Op, args: Op, env: Op, fuel: nat) -> (
    Seq<Object>,
    Result<Op, Error>,
)
    decreases fuel, 0int,
{
    if fuel == 0 {
        (h, Err(Error::TooDeep))
    } else {
        let fun = car_s(h, args);
        let fun_args = car_s(h, cdr_s(h, args));
        let ctx0 = car_s(h, cdr_s(h, cdr_s(h, args)));
        let ctx = if ctx0 is Null {
            env
        } else {
            ctx0
        };
        apply_s(h, g, fun, fun_args, ctx, (fuel - 1) as nat)
    }
}

/// The step of `list_map`: argument checks, a fresh result list, and the
/// per-element walk.
pub open spec fn subr_list_map_s(h: Seq<Object>, g: Op, args: Op, fuel: nat) -> (
    Seq<Object>,
    Result<Op, Error>,
)
    decreases fuel, 1int,
{
    let list = car_s(h, args);
    let fun = car_s(h, cdr_s(h, args));
    if !is_pair_at(h, args) {
        (h, Err(Error::TooFewArgs))
    } else if !is_pair_at(h, list) {
        (h, Err(Error::RequirePair(list)))
    } else if !is_pair_at(h, cdr_s(h, args)) {
        (h, Err(Error::TooFewArgs))
    } else if !is_expr_at(h, fun) {
        (h, Err(Error::RequireExpr(fun)))
    } else {
        let h1 = h.push(Object::Pair { head: Op::Null, tail: Op::Null });
        let nl = Op::Ref(h.len() as usize);
        if car_s(h, list) is Null {
            (h1, Ok(nl))
        } else {
            map_loop_s(h1, g, list, nl, fun, nl, fuel)
        }
    }
}

/// One element of the `list_map` walk: the closure's captured environment
/// is extended with the element under key 0 for one application and then
/// restored (not restored when the application fails); the result fills the
/// next cell of the fresh list.
pub open spec fn map_loop_s(
    h: Seq<Object>,
    g: Op,
    cur: Op,
    new_tail: Op,
    fun: Op,
    new_list: Op,
    fuel: nat,
) -> (Seq<Object>, Result<Op, Error>)
    decreases fuel, 0int,
{
    if fuel == 0 {
        (h, Err(Error::TooDeep))
    } else {
        let elem = car_s(h, cur);
        let oenv = expr_env_s(h, fun);
        let h1 = h.push(Object::Long(0));
        let key = Op::Ref(h.len() as usize);
        let h2 = h1.push(Object::Pair { head: key, tail: elem });
        let kv = Op::Ref(h1.len() as usize);
        let h3 = h2.push(Object::Pair { head: kv, tail: oenv });
        let wrapped = Op::Ref(h2.len() as usize);
        let h4 = h3.update(
            fun.spec_idx(),
            Object::Expr { def: expr_def_s(h3, fun), env: wrapped },
        );
        let h5 = h4.push(Object::Pair { head: elem, tail: Op::Null });
        let one = Op::Ref(h4.len() as usize);
        let ar = apply_s(h5, g, fun, one, Op::Null, (fuel - 1) as nat);
        match ar.1 {
            Err(er) => (ar.0, Err(er)),
            Ok(ne) => {
                let h6 = ar.0.update(
                    fun.spec_idx(),
                    Object::Expr { def: expr_def_s(ar.0, fun), env: oenv },
                );
                let h7 = h6.update(
                    new_tail.spec_idx(),
                    Object::Pair { head: ne, tail: cdr_s(h6, new_tail) },
                );
                let nxt = cdr_s(h7, cur);
                if nxt is Null {
                    (h7, Ok(new_list))
                } else if !is_pair_at(h7, nxt) {
                    (h7, Err(Error::RequirePair(nxt)))
                } else {
                    let h8 = h7.push(Object::Pair { head: Op::Null, tail: Op::Null });
                    let tmp = Op::Ref(h7.len() as usize);
                    let h9 = h8.update(
                        new_tail.spec_idx(),
                        Object::Pair { head: car_s(h8, new_tail), tail: tmp },
                    );
                    map_loop_s(h9, g, nxt, tmp, fun, new_list, (fuel - 1) as nat)
                }
            },
        }
    }
}

/// The head of `op` if it is a pair, else nil.
pub fn car(e: &Engine, op: Op) -> (r: Op)
    requires
        e.wf(),
        valid_op(e.heap@, op),
    ensures
        r == car_s(e.heap@, op),
        valid_op(e.heap@, r),
{
    if op.is_pair(e) {
        op.get_head(e)
    } else {
        Op::Null
    }
}

/// The tail of `op` if it is a pair, else nil.
pub fn cdr(e: &Engine, op: Op) -> (r: Op)
    requires
        e.wf(),
        valid_op(e.heap@, op),
    ensures
        r == cdr_s(e.heap@, op),
        valid_op(e.heap@, r),
{
    if op.is_pair(e) {
        op.get_tail(e)
    } else {
        Op::Null
    }
}

/// Allocate a fresh cons cell.
pub fn cons(e: &mut Engine, head: Op, tail: Op) -> (r: Op)
    requires
        old(e).wf(),
        valid_op(old(e).heap@, head),
        valid_op(old(e).heap@, tail),
    ensures
        final(e).wf(),
        final(e).heap@ == old(e).heap@.push(Object::Pair { head, tail }),
        final(e).symbols@ == old(e).symbols@,
        final(e).globals == old(e).globals,
        r == Op::Ref(old(e).heap@.len() as usize),
        old(e).heap@.len() < usize::MAX,
        forall|o: Op| is_pair_at(old(e).heap@, o) ==> #[trigger] is_pair_at(final(e).heap@, o),
        forall|o: Op| is_expr_at(old(e).heap@, o) ==> #[trigger] is_expr_at(final(e).heap@, o),
{
    Op::pair(e, head, tail)
}

pub fn caar(e: &Engine, op: Op) -> (r: Op)
    requires
        e.wf(),
        valid_op(e.heap@, op),
    ensures
        r == car_s(e.heap@, car_s(e.heap@, op)),
        valid_op(e.heap@, r),
{
    let a = car(e, op);
    car(e, a)
}

pub fn cadr(e: &Engine, op: Op) -> (r: Op)
    requires
        e.wf(),
        valid_op(e.heap@, op),
    ensures
        r == car_s(e.heap@, cdr_s(e.heap@, op)),
        valid_op(e.heap@, r),
{
    let d = cdr(e, op);
    car(e, d)
}

/// Prepend the association `(name . value)` to `env`'s tail and return the
/// new association pair.  Always succeeds; the binding shadows any older
/// binding of the same name for every frame that chains through `env`.
pub fn define(e: &mut Engine, name: Op, value: Op, env: Op) -> (r: Op)
    requires
        old(e).wf(),
        valid_op(old(e).heap@, name),
        valid_op(old(e).heap@, value),
        is_pair_at(old(e).heap@, env),
    ensures
        final(e).wf(),
        final(e).heap@ == old(e).heap@.push(Object::Pair { head: name, tail: value }).push(
            Object::Pair {
                head: Op::Ref(old(e).heap@.len() as usize),
                tail: cdr_s(old(e).heap@, env),
            },
        ).update(
            env.spec_idx(),
            Object::Pair {
                head: car_s(old(e).heap@, env),
                tail: Op::Ref((old(e).heap@.len() + 1) as usize),
            },
        ),
        final(e).symbols@ == old(e).symbols@,
        final(e).globals == old(e).globals,
        r == Op::Ref(old(e).heap@.len() as usize),
        old(e).heap@.len() + 2 <= usize::MAX,
        forall|o: Op| is_pair_at(old(e).heap@, o) ==> #[trigger] is_pair_at(final(e).heap@, o),
        forall|o: Op| is_expr_at(old(e).heap@, o) ==> #[trigger] is_expr_at(final(e).heap@, o),
        old(e).ready() ==> final(e).ready(),
{
    let p = Op::pair(e, name, value);
    let t = cdr(e, env);
    let et = Op::pair(e, p, t);
    env.set_tail(e, et);
    proof {
        assert forall|o: Op| is_pair_at(old(e).heap@, o) implies #[trigger] is_pair_at(
            final(e).heap@,
            o,
        ) by {
            if o.spec_idx() != env.spec_idx() {
                assert(final(e).heap@[o.spec_idx()] == old(e).heap@[o.spec_idx()]);
            }
        }
        assert forall|o: Op| is_expr_at(old(e).heap@, o) implies #[trigger] is_expr_at(
            final(e).heap@,
            o,
        ) by {
            assert(o.spec_idx() != env.spec_idx());
            assert(final(e).heap@[o.spec_idx()] == old(e).heap@[o.spec_idx()]);
        }
    }
    p
}

/// Find the association pair for `key` in the frame chain from `env`; nil
/// when the chain ends without a match.  The walk is bounded by the arena
/// size, so a revisit-cycle resolves to a miss instead of looping forever.
#[verifier::loop_isolation(false)]
pub fn assoc(e: &Engine, key: Op, env: Op) -> (r: Op)
    requires
        e.wf(),
        valid_op(e.heap@, key),
        valid_op(e.heap@, env),
    ensures
        valid_op(e.heap@, r),
        (match assoc_s(e.heap@, key, env, e.heap@.len() + 1) {
            Some(p) => r == p,
            None => r == Op::Null,
        }),
{
    let mut cur: Op = env;
    let mut f: usize = e.heap.len();
    loop
        invariant
            e.wf(),
            valid_op(e.heap@, key),
            valid_op(e.heap@, cur),
            f <= e.heap@.len(),
            assoc_s(e.heap@, key, env, e.heap@.len() + 1) == assoc_s(
                e.heap@,
                key,
                cur,
                (f + 1) as nat,
            ),
        decreases f,
    {
        let a = car(e, cur);
        let k = car(e, a);
        if k == key {
            proof {
                assert(assoc_s(e.heap@, key, cur, (f + 1) as nat) == Some(a));
            }
            return a;
        }
        let t = cdr(e, cur);
        if t.is_null() {
            proof {
                assert(assoc_s(e.heap@, key, cur, (f + 1) as nat) == Some(Op::Null));
            }
            return Op::Null;
        }
        if f == 0 {
            proof {
                assert(assoc_s(e.heap@, key, cur, 1nat) == assoc_s(e.heap@, key, t, 0nat));
            }
            return Op::Null;
        }
        proof {
            assert(assoc_s(e.heap@, key, cur, (f + 1) as nat) == assoc_s(
                e.heap@,
                key,
                t,
                f as nat,
            ));
        }
        f = f - 1;
        cur = t;
    }
}

/// Cons each parameter symbol onto its argument value on top of `base_env`.
/// The empty-list sentinel (a pair with nil head) ends the parameter list,
/// so a closure written with `()` binds nothing.  A parameter list ending in
/// a bare symbol binds that symbol to the rest of the arguments.  Fails with
/// `RequireSymbol` on a non-symbol parameter and with `TooFewArgs` when the
/// arguments run out first.  Allocation-only: no existing cell is touched.
pub fn pairlis(e: &mut Engine, names: Op, values: Op, env: Op) -> (r: Result<Op, Error>)
    requires
        old(e).wf(),
        valid_op(old(e).heap@, names),
        valid_op(old(e).heap@, values),
        valid_op(old(e).heap@, env),
    ensures
        final(e).wf(),
        final(e).symbols@ == old(e).symbols@,
        final(e).globals == old(e).globals,
        old(e).heap@.len() <= final(e).heap@.len(),
        forall|i: int| 0 <= i < old(e).heap@.len() ==> final(e).heap@[i] == old(e).heap@[i],
        (match r {
            Ok(v) => valid_op(final(e).heap@, v),
            Err(err) => err_wf(final(e).heap@, err),
        }),
        old(e).ready() ==> final(e).ready(),
        forall|o: Op| is_pair_at(old(e).heap@, o) ==> #[trigger] is_pair_at(final(e).heap@, o),
        forall|o: Op| is_expr_at(old(e).heap@, o) ==> #[trigger] is_expr_at(final(e).heap@, o),
        (final(e).heap@, r) == pairlis_s(
            old(e).heap@,
            names,
            values,
            env,
            old(e).heap@.len() as nat,
        ),
        ({
            let h = old(e).heap@;
            if !is_pair_at(h, names) && is_symbol_at(h, names) {
                final(e).heap@ == h.push(Object::Pair { head: names, tail: values }).push(
                    Object::Pair { head: Op::Ref(h.len() as usize), tail: env },
                ) && r == Ok::<Op, Error>(Op::Ref((h.len() + 1) as usize))
            } else if !is_pair_at(h, names) {
                r == Ok::<Op, Error>(env) && *final(e) == *old(e)
            } else {
                true
            }
        }),
{
    if !names.is_pair(e) {
        if names.is_symbol(e) {
            let p = Op::pair(e, names, values);
            let env2 = Op::pair(e, p, env);
            return Ok(env2);
        }
        return Ok(env);
    }
    let mut ns = names;
    let mut vs = values;
    let mut env2 = env;
    let mut f: usize = e.heap.len();
    loop
        invariant
            e.wf(),
            e.symbols@ == old(e).symbols@,
            e.globals == old(e).globals,
            old(e).heap@.len() <= e.heap@.len(),
            forall|i: int| 0 <= i < old(e).heap@.len() ==> e.heap@[i] == old(e).heap@[i],
            valid_op(e.heap@, ns),
            valid_op(e.heap@, vs),
            valid_op(e.heap@, env2),
            is_pair_at(old(e).heap@, names),
            pairlis_s(old(e).heap@, names, values, env, old(e).heap@.len() as nat) == pairlis_s(
                e.heap@,
                ns,
                vs,
                env2,
                f as nat,
            ),
        ensures
            e.wf(),
            e.symbols@ == old(e).symbols@,
            e.globals == old(e).globals,
            old(e).heap@.len() <= e.heap@.len(),
            forall|i: int| 0 <= i < old(e).heap@.len() ==> e.heap@[i] == old(e).heap@[i],
            valid_op(e.heap@, ns),
            valid_op(e.heap@, vs),
            valid_op(e.heap@, env2),
            pairlis_s(old(e).heap@, names, values, env, old(e).heap@.len() as nat) == pairlis_s(
                e.heap@,
                ns,
                vs,
                env2,
                f as nat,
            ),
            !is_pair_at(e.heap@, ns) || car_s(e.heap@, ns) is Null,
        decreases f,
    {
        if !ns.is_pair(e) {
            break;
        }
        let name = car(e, ns);
        if name.is_null() {
            break;
        }
        if !name.is_symbol(e) {
            return Err(Error::RequireSymbol(name));
        }
        if !vs.is_pair(e) {
            return Err(Error::TooFewArgs);
        }
        let value = car(e, vs);
        let p = Op::pair(e, name, value);
        env2 = Op::pair(e, p, env2);
        let ns2 = cdr(e, ns);
        let vs2 = cdr(e, vs);
        ns = ns2;
        vs = vs2;
        if f == 0 {
            return Err(Error::TooDeep);
        }
        f = f - 1;
    }
    if ns.is_symbol(e) {
        let p = Op::pair(e, ns, vs);
        env2 = Op::pair(e, p, env2);
    }
    Ok(env2)
}

/// Evaluate one expression graph against an environment, with an explicit
/// depth budget: the step `eval_s`, exactly.
///
/// nil evaluates to nil; a symbol to its most recent binding (`Undefined`
/// when no frame binds it); an integer, closure or built-in to itself; the
/// empty-list value to a fresh empty list.  Any other pair is a call form:
/// the operator is evaluated first; operands are passed unevaluated to a
/// fixed built-in and evaluated left-to-right otherwise; applying a
/// non-function is `CanNotApply`.
pub fn eval(e: &mut Engine, op: Op, env: Op, fuel: u64) -> (r: Result<Op, Error>)
    requires
        old(e).ready(),
        valid_op(old(e).heap@, op),
        valid_op(old(e).heap@, env),
    ensures
        final(e).ready(),
        final(e).globals == old(e).globals,
        old(e).heap@.len() <= final(e).heap@.len(),
        (match r {
            Ok(v) => valid_op(final(e).heap@, v),
            Err(err) => err_wf(final(e).heap@, err),
        }),
        forall|o: Op| is_pair_at(old(e).heap@, o) ==> #[trigger] is_pair_at(final(e).heap@, o),
        forall|o: Op| is_expr_at(old(e).heap@, o) ==> #[trigger] is_expr_at(final(e).heap@, o),
        final(e).symbols@ == old(e).symbols@,
        (final(e).heap@, r) == eval_s(old(e).heap@, old(e).globals, op, env, fuel as nat),
        op is Null ==> r == Ok::<Op, Error>(Op::Null) && *final(e) == *old(e),
        is_long_at(old(e).heap@, op) || is_expr_at(old(e).heap@, op) || is_subr_at(
            old(e).heap@,
            op,
        ) ==> r == Ok::<Op, Error>(op) && *final(e) == *old(e),
        is_symbol_at(old(e).heap@, op) ==> *final(e) == *old(e) && (match assoc_s(
            old(e).heap@,
            op,
            env,
            old(e).heap@.len() + 1,
        ) {
            Some(p) => if p is Null {
                r == Err::<Op, Error>(Error::Undefined(op))
            } else {
                r == Ok::<Op, Error>(cdr_s(old(e).heap@, p))
            },
            None => r == Err::<Op, Error>(Error::Undefined(op)),
        }),
    decreases fuel, 0int,
{
    if op.is_null() {
        return Ok(Op::Null);
    }
    if op.is_symbol(e) {
        let a = assoc(e, op, env);
        if a.is_null() {
            return Err(Error::Undefined(op));
        }
        return Ok(cdr(e, a));
    }
    if op.is_pair(e) {
        if fuel == 0 {
            return Err(Error::TooDeep);
        }
        let h0 = op.get_head(e);
        let t0 = op.get_tail(e);
        if h0.is_null() && t0.is_null() {
            return Ok(cons(e, Op::Null, Op::Null));
        }
        let f = match eval(e, h0, env, fuel - 1) {
            Ok(v) => v,
            Err(er) => {
                return Err(er);
            },
        };
        let fixed = f.is_subr(e) && f.get_is_fixed(e);
        let args = if fixed {
            t0
        } else {
            match evlis(e, t0, env, fuel - 1) {
                Ok(v) => v,
                Err(er) => {
                    return Err(er);
                },
            }
        };
        apply(e, f, args, env, fuel - 1)
    } else {
        Ok(op)
    }
}

/// Evaluate every element of a list form left to right, building the list
/// of results.
pub fn evlis(e: &mut Engine, op: Op, env: Op, fuel: u64) -> (r: Result<Op, Error>)
    requires
        old(e).ready(),
        valid_op(old(e).heap@, op),
        valid_op(old(e).heap@, env),
    ensures
        final(e).ready(),
        final(e).globals == old(e).globals,
        old(e).heap@.len() <= final(e).heap@.len(),
        (match r {
            Ok(v) => valid_op(final(e).heap@, v),
            Err(err) => err_wf(final(e).heap@, err),
        }),
        forall|o: Op| is_pair_at(old(e).heap@, o) ==> #[trigger] is_pair_at(final(e).heap@, o),
        forall|o: Op| is_expr_at(old(e).heap@, o) ==> #[trigger] is_expr_at(final(e).heap@, o),
        final(e).symbols@ == old(e).symbols@,
        (final(e).heap@, r) == evlis_s(old(e).heap@, old(e).globals, op, env, fuel as nat),
        op is Null ==> r == Ok::<Op, Error>(Op::Null) && *final(e) == *old(e),
    decreases fuel, 0int,
{
    if op.is_null() {
        return Ok(Op::Null);
    }
    if fuel == 0 {
        return Err(Error::TooDeep);
    }
    let h0 = car(e, op);
    let t0 = cdr(e, op);
    let hv = match eval(e, h0, env, fuel - 1) {
        Ok(v) => v,
        Err(er) => {
            return Err(er);
        },
    };
    let tv = match evlis(e, t0, env, fuel - 1) {
        Ok(v) => v,
        Err(er) => {
            return Err(er);
        },
    };
    Ok(cons(e, hv, tv))
}

/// Apply a function value: a built-in dispatches to its routine, a closure
/// binds its parameters over its captured environment and evaluates its
/// body.  Anything else cannot be applied.
pub fn apply(e: &mut Engine, fun: Op, args: Op, env: Op, fuel: u64) -> (r: Result<Op, Error>)
    requires
        old(e).ready(),
        valid_op(old(e).heap@, fun),
        valid_op(old(e).heap@, args),
        valid_op(old(e).heap@, env),
    ensures
        final(e).ready(),
        final(e).globals == old(e).globals,
        old(e).heap@.len() <= final(e).heap@.len(),
        (match r {
            Ok(v) => valid_op(final(e).heap@, v),
            Err(err) => err_wf(final(e).heap@, err),
        }),
        forall|o: Op| is_pair_at(old(e).heap@, o) ==> #[trigger] is_pair_at(final(e).heap@, o),
        forall|o: Op| is_expr_at(old(e).heap@, o) ==> #[trigger] is_expr_at(final(e).heap@, o),
        final(e).symbols@ == old(e).symbols@,
        (final(e).heap@, r) == apply_s(old(e).heap@, old(e).globals, fun, args, env, fuel as nat),
        !(is_subr_at(old(e).heap@, fun) || is_expr_at(old(e).heap@, fun)) ==> r == Err::<
            Op,
            Error,
        >(Error::CanNotApply(fun)) && *final(e) == *old(e),
    decreases fuel, 0int,
{
    if fun.is_subr(e) {
        if fuel == 0 {
            return Err(Error::TooDeep);
        }
        let imp = fun.get_imp(e);
        match imp {
            Prim::Define => subr_define(e, args, env, fuel - 1),
            Prim::Lambda => subr_lambda(e, args, env, fuel - 1),
            Prim::LambdaLambda => subr_lambda_lambda(e, args, env, fuel - 1),
            Prim::SetScope => subr_set_scope(e, args, env, fuel - 1),
            Prim::GetScope => subr_get_scope(e, args, env, fuel - 1),
            Prim::Apply => subr_apply(e, args, env, fuel - 1),
            Prim::Add => subr_add(e, args, env, fuel - 1),
            Prim::Subtract => subr_subtract(e, args, env, fuel - 1),
            Prim::Mul => subr_mul(e, args, env, fuel - 1),
            Prim::Div => subr_div(e, args, env, fuel - 1),
            Prim::NewList => subr_new_list(e, args, env, fuel - 1),
            Prim::ListAppend => subr_list_append(e, args, env, fuel - 1),
            Prim::ListPrepend => subr_list_prepend(e, args, env, fuel - 1),
            Prim::ListCount => subr_list_count(e, args, env, fuel - 1),
            Prim::ListIndex => subr_list_index(e, args, env, fuel - 1),
            Prim::ListMap => subr_list_map(e, args, env, fuel - 1),
        }
    } else if fun.is_expr(e) {
        if fuel == 0 {
            return Err(Error::TooDeep);
        }
        let def = fun.get_def(e);
        let cenv = fun.get_env(e);
        let params = car(e, def);
        let body = cdr(e, def);
        let nenv = match pairlis(e, params, args, cenv) {
            Ok(v) => v,
            Err(er) => {
                return Err(er);
            },
        };
        eval(e, body, nenv, fuel - 1)
    } else {
        Err(Error::CanNotApply(fun))
    }
}

/// Bind `eval(second operand)` to the first operand (a symbol) in the
/// global frame, whatever the calling environment; return the value.
pub fn subr_define(e: &mut Engine, args: Op, env: Op, fuel: u64) -> (r: Result<Op, Error>)
    requires
        old(e).ready(),
        valid_op(old(e).heap@, args),
        valid_op(old(e).heap@, env),
    ensures
        final(e).ready(),
        final(e).globals == old(e).globals,
        old(e).heap@.len() <= final(e).heap@.len(),
        (match r {
            Ok(v) => valid_op(final(e).heap@, v),
            Err(err) => err_wf(final(e).heap@, err),
        }),
        forall|o: Op| is_pair_at(old(e).heap@, o) ==> #[trigger] is_pair_at(final(e).heap@, o),
        forall|o: Op| is_expr_at(old(e).heap@, o) ==> #[trigger] is_expr_at(final(e).heap@, o),
        final(e).symbols@ == old(e).symbols@,
        (final(e).heap@, r) == subr_define_s(
            old(e).heap@,
            old(e).globals,
            args,
            env,
            fuel as nat,
        ),
        !is_symbol_at(old(e).heap@, car_s(old(e).heap@, args)) ==> r == Err::<Op, Error>(
            Error::RequireSymbol(car_s(old(e).heap@, args)),
        ) && *final(e) == *old(e),
        ({
            let h = old(e).heap@;
            let name = car_s(h, args);
            let x = car_s(h, cdr_s(h, args));
            let g = old(e).globals;
            if is_symbol_at(h, name) && fuel > 0 && (x is Null || is_long_at(h, x) || is_expr_at(
                h,
                x,
            ) || is_subr_at(h, x)) {
                final(e).heap@ == h.push(Object::Pair { head: name, tail: x }).push(
                    Object::Pair { head: Op::Ref(h.len() as usize), tail: cdr_s(h, g) },
                ).update(
                    g.spec_idx(),
                    Object::Pair {
                        head: car_s(h, g),
                        tail: Op::Ref((h.len() + 1) as usize),
                    },
                ) && r == Ok::<Op, Error>(x)
            } else {
                true
            }
        }),
    decreases fuel, 0int,
{
    let name = car(e, args);
    if !name.is_symbol(e) {
        return Err(Error::RequireSymbol(name));
    }
    if fuel == 0 {
        return Err(Error::TooDeep);
    }
    let x = cadr(e, args);
    let value = match eval(e, x, env, fuel - 1) {
        Ok(v) => v,
        Err(er) => {
            return Err(er);
        },
    };
    let g = e.globals;
    define(e, name, value, g);
    Ok(value)
}

/// Build a closure from `(params body)` captured against the calling
/// environment.
pub fn subr_lambda(e: &mut Engine, args: Op, env: Op, _fuel: u64) -> (r: Result<Op, Error>)
    requires
        old(e).ready(),
        valid_op(old(e).heap@, args),
        valid_op(old(e).heap@, env),
    ensures
        final(e).ready(),
        final(e).globals == old(e).globals,
        old(e).heap@.len() <= final(e).heap@.len(),
        (match r {
            Ok(v) => valid_op(final(e).heap@, v),
            Err(err) => err_wf(final(e).heap@, err),
        }),
        forall|o: Op| is_pair_at(old(e).heap@, o) ==> #[trigger] is_pair_at(final(e).heap@, o),
        forall|o: Op| is_expr_at(old(e).heap@, o) ==> #[trigger] is_expr_at(final(e).heap@, o),
        final(e).symbols@ == old(e).symbols@,
        (final(e).heap@, r) == subr_lambda_s(old(e).heap@, args, env),
        ({
            let h = old(e).heap@;
            if !is_pair_at(h, args) || !is_pair_at(h, cdr_s(h, args)) {
                r == Err::<Op, Error>(Error::TooFewArgs) && *final(e) == *old(e)
            } else {
                final(e).heap@ == h.push(
                    Object::Pair {
                        head: car_s(h, args),
                        tail: car_s(h, cdr_s(h, args)),
                    },
                ).push(Object::Expr { def: Op::Ref(h.len() as usize), env })
                    && r == Ok::<Op, Error>(Op::Ref((h.len() + 1) as usize))
            }
        }),
{
    if !args.is_pair(e) {
        return Err(Error::TooFewArgs);
    }
    let symbols = car(e, args);
    let rest = cdr(e, args);
    if !rest.is_pair(e) {
        return Err(Error::TooFewArgs);
    }
    let body = car(e, rest);
    let def = cons(e, symbols, body);
    Ok(Op::expr(e, def, env))
}

/// `lambda` with an implicit empty parameter list: a body-only closure.
pub fn subr_lambda_lambda(e: &mut Engine, args: Op, env: Op, _fuel: u64) -> (r: Result<
    Op,
    Error,
>)
    requires
        old(e).ready(),
        valid_op(old(e).heap@, args),
        valid_op(old(e).heap@, env),
    ensures
        final(e).ready(),
        final(e).globals == old(e).globals,
        old(e).heap@.len() <= final(e).heap@.len(),
        (match r {
            Ok(v) => valid_op(final(e).heap@, v),
            Err(err) => err_wf(final(e).heap@, err),
        }),
        forall|o: Op| is_pair_at(old(e).heap@, o) ==> #[trigger] is_pair_at(final(e).heap@, o),
        forall|o: Op| is_expr_at(old(e).heap@, o) ==> #[trigger] is_expr_at(final(e).heap@, o),
        final(e).symbols@ == old(e).symbols@,
        (final(e).heap@, r) == subr_lambda_lambda_s(old(e).heap@, args, env),
        ({
            let h = old(e).heap@;
            if !is_pair_at(h, args) {
                r == Err::<Op, Error>(Error::TooFewArgs) && *final(e) == *old(e)
            } else {
                final(e).heap@ == h.push(
                    Object::Pair { head: Op::Null, tail: car_s(h, args) },
                ).push(Object::Expr { def: Op::Ref(h.len() as usize), env })
                    && r == Ok::<Op, Error>(Op::Ref((h.len() + 1) as usize))
            }
        }),
{
    if !args.is_pair(e) {
        return Err(Error::TooFewArgs);
    }
    let body = car(e, args);
    let def = cons(e, Op::Null, body);
    Ok(Op::expr(e, def, env))
}

/// Explicit application: `(apply fn args [env])`; the calling environment is
/// used when no environment operand is given.
pub fn subr_apply(e: &mut Engine, args: Op, env: Op, fuel: u64) -> (r: Result<Op, Error>)
    requires
        old(e).ready(),
        valid_op(old(e).heap@, args),
        valid_op(old(e).heap@, env),
    ensures
        final(e).ready(),
        final(e).globals == old(e).globals,
        old(e).heap@.len() <= final(e).heap@.len(),
        (match r {
            Ok(v) => valid_op(final(e).heap@, v),
            Err(err) => err_wf(final(e).heap@, err),
        }),
        forall|o: Op| is_pair_at(old(e).heap@, o) ==> #[trigger] is_pair_at(final(e).heap@, o),
        forall|o: Op| is_expr_at(old(e).heap@, o) ==> #[trigger] is_expr_at(final(e).heap@, o),
        final(e).symbols@ == old(e).symbols@,
        (final(e).heap@, r) == subr_apply_s(
            old(e).heap@,
            old(e).globals,
            args,
            env,
            fuel as nat,
        ),
        fuel > 0 && !(is_subr_at(old(e).heap@, car_s(old(e).heap@, args)) || is_expr_at(
            old(e).heap@,
            car_s(old(e).heap@, args),
        )) ==> r == Err::<Op, Error>(Error::CanNotApply(car_s(old(e).heap@, args))) && *final(e)
            == *old(e),
    decreases fuel, 0int,
{
    if fuel == 0 {
        return Err(Error::TooDeep);
    }
    let fun = car(e, args);
    let rest = cdr(e, args);
    let fun_args = car(e, rest);
    let rest2 = cdr(e, rest);
    let mut ctx = car(e, rest2);
    if ctx.is_null() {
        ctx = env;
    }
    apply(e, fun, fun_args, ctx, fuel - 1)
}

/// Alias of `define`.
pub fn subr_set_scope(e: &mut Engine, args: Op, env: Op, fuel: u64) -> (r: Result<Op, Error>)
    requires
        old(e).ready(),
        valid_op(old(e).heap@, args),
        valid_op(old(e).heap@, env),
    ensures
        final(e).ready(),
        final(e).globals == old(e).globals,
        old(e).heap@.len() <= final(e).heap@.len(),
        (match r {
            Ok(v) => valid_op(final(e).heap@, v),
            Err(err) => err_wf(final(e).heap@, err),
        }),
        forall|o: Op| is_pair_at(old(e).heap@, o) ==> #[trigger] is_pair_at(final(e).heap@, o),
        forall|o: Op| is_expr_at(old(e).heap@, o) ==> #[trigger] is_expr_at(final(e).heap@, o),
        final(e).symbols@ == old(e).symbols@,
        (final(e).heap@, r) == subr_set_scope_s(
            old(e).heap@,
            old(e).globals,
            args,
            env,
            fuel as nat,
        ),
        !is_symbol_at(old(e).heap@, car_s(old(e).heap@, args)) ==> r == Err::<Op, Error>(
            Error::RequireSymbol(car_s(old(e).heap@, args)),
        ) && *final(e) == *old(e),
    decreases fuel, 1int,
{
    subr_define(e, args, env, fuel)
}

/// With an integer operand, a positional frame lookup by that key (used by
/// the sugared reader's loop-variable access); any other operand is handed
/// back unchanged.
#[verifier::loop_isolation(false)]
pub fn subr_get_scope(e: &mut Engine, args: Op, env: Op, _fuel: u64) -> (r: Result<Op, Error>)
    requires
        old(e).ready(),
        valid_op(old(e).heap@, args),
        valid_op(old(e).heap@, env),
    ensures
        *final(e) == *old(e),
        r == subr_get_scope_s(old(e).heap@, args, env),
        (match r {
            Ok(v) => valid_op(final(e).heap@, v),
            Err(err) => err_wf(final(e).heap@, err),
        }),
        ({
            let h = old(e).heap@;
            if !is_pair_at(h, args) {
                r == Err::<Op, Error>(Error::TooFewArgs)
            } else {
                let name = car_s(h, args);
                if is_long_at(h, name) {
                    match scope_find_s(h, long_at(h, name), env, h.len() + 1) {
                        Some(Some(v)) => r == Ok::<Op, Error>(v),
                        Some(None) => r == Ok::<Op, Error>(name),
                        None => r == Ok::<Op, Error>(name),
                    }
                } else {
                    r == Ok::<Op, Error>(name)
                }
            }
        }),
{
    if !args.is_pair(e) {
        return Err(Error::TooFewArgs);
    }
    let name = car(e, args);
    if name.is_long(e) {
        let n = name.get_long(e);
        let mut cur = env;
        let mut f: usize = e.heap.len();
        loop
            invariant
                *e == *old(e),
                valid_op(e.heap@, cur),
                f <= e.heap@.len(),
                scope_find_s(e.heap@, n, env, e.heap@.len() + 1) == scope_find_s(
                    e.heap@,
                    n,
                    cur,
                    (f + 1) as nat,
                ),
            decreases f,
        {
            if cur.is_null() {
                return Ok(name);
            }
            let pair = car(e, cur);
            let key = car(e, pair);
            if key.is_long(e) {
                if key.get_long(e) == n {
                    let v = cdr(e, pair);
                    proof {
                        assert(scope_find_s(e.heap@, n, cur, (f + 1) as nat) == Some(
                            Some(cdr_s(e.heap@, car_s(e.heap@, cur))),
                        ));
                    }
                    return Ok(v);
                }
            }
            let t = cdr(e, cur);
            if f == 0 {
                proof {
                    assert(scope_find_s(e.heap@, n, cur, 1nat) == scope_find_s(
                        e.heap@,
                        n,
                        t,
                        0nat,
                    ));
                }
                return Ok(name);
            }
            proof {
                assert(scope_find_s(e.heap@, n, cur, (f + 1) as nat) == scope_find_s(
                    e.heap@,
                    n,
                    t,
                    f as nat,
                ));
            }
            f = f - 1;
            cur = t;
        }
    } else {
        Ok(name)
    }
}

/// Truncated 64-bit division, with the one overflowing quotient wrapped.
pub open spec fn div_val(a: i64, b: i64) -> i64
    recommends
        b != 0,
{
    match a.checked_div(b) {
        Some(q) => q,
        None => i64::MIN,
    }
}

/// Both operands must be integers; the sum, with 64-bit wrap-around on
/// overflow.
pub fn subr_add(e: &mut Engine, args: Op, _env: Op, _fuel: u64) -> (r: Result<Op, Error>)
    requires
        old(e).wf(),
        valid_op(old(e).heap@, args),
    ensures
        final(e).wf(),
        final(e).globals == old(e).globals,
        old(e).heap@.len() <= final(e).heap@.len(),
        old(e).ready() ==> final(e).ready(),
        (match r {
            Ok(v) => valid_op(final(e).heap@, v),
            Err(err) => err_wf(final(e).heap@, err),
        }),
        forall|o: Op| is_pair_at(old(e).heap@, o) ==> #[trigger] is_pair_at(final(e).heap@, o),
        forall|o: Op| is_expr_at(old(e).heap@, o) ==> #[trigger] is_expr_at(final(e).heap@, o),
        final(e).symbols@ == old(e).symbols@,
        (final(e).heap@, r) == subr_add_s(old(e).heap@, args),
        ({
            let h = old(e).heap@;
            let lhs = car_s(h, args);
            let rhs = car_s(h, cdr_s(h, args));
            if !is_pair_at(h, args) || !is_pair_at(h, cdr_s(h, args)) {
                r == Err::<Op, Error>(Error::TooFewArgs) && *final(e) == *old(e)
            } else if !is_long_at(h, lhs) {
                r == Err::<Op, Error>(Error::RequireLong(lhs)) && *final(e) == *old(e)
            } else if !is_long_at(h, rhs) {
                r == Err::<Op, Error>(Error::RequireLong(rhs)) && *final(e) == *old(e)
            } else {
                final(e).heap@ == h.push(
                    Object::Long(long_at(h, lhs).wrapping_add(long_at(h, rhs))),
                ) && r == Ok::<Op, Error>(Op::Ref(h.len() as usize))
            }
        }),
{
    if !args.is_pair(e) {
        return Err(Error::TooFewArgs);
    }
    let lhs = args.get_head(e);
    let rest = args.get_tail(e);
    if !rest.is_pair(e) {
        return Err(Error::TooFewArgs);
    }
    let rhs = rest.get_head(e);
    if !lhs.is_long(e) {
        return Err(Error::RequireLong(lhs));
    }
    if !rhs.is_long(e) {
        return Err(Error::RequireLong(rhs));
    }
    let a = lhs.get_long(e);
    let b = rhs.get_long(e);
    Ok(Op::long(e, a.wrapping_add(b)))
}

/// Both operands must be integers; the difference, with 64-bit wrap-around
/// on overflow.
pub fn subr_subtract(e: &mut Engine, args: Op, _env: Op, _fuel: u64) -> (r: Result<Op, Error>)
    requires
        old(e).wf(),
        valid_op(old(e).heap@, args),
    ensures
        final(e).wf(),
        final(e).globals == old(e).globals,
        old(e).heap@.len() <= final(e).heap@.len(),
        old(e).ready() ==> final(e).ready(),
        (match r {
            Ok(v) => valid_op(final(e).heap@, v),
            Err(err) => err_wf(final(e).heap@, err),
        }),
        forall|o: Op| is_pair_at(old(e).heap@, o) ==> #[trigger] is_pair_at(final(e).heap@, o),
        forall|o: Op| is_expr_at(old(e).heap@, o) ==> #[trigger] is_expr_at(final(e).heap@, o),
        final(e).symbols@ == old(e).symbols@,
        (final(e).heap@, r) == subr_subtract_s(old(e).heap@, args),
        ({
            let h = old(e).heap@;
            let lhs = car_s(h, args);
            let rhs = car_s(h, cdr_s(h, args));
            if !is_pair_at(h, args) || !is_pair_at(h, cdr_s(h, args)) {
                r == Err::<Op, Error>(Error::TooFewArgs) && *final(e) == *old(e)
            } else if !is_long_at(h, lhs) {
                r == Err::<Op, Error>(Error::RequireLong(lhs)) && *final(e) == *old(e)
            } else if !is_long_at(h, rhs) {
                r == Err::<Op, Error>(Error::RequireLong(rhs)) && *final(e) == *old(e)
            } else {
                final(e).heap@ == h.push(
                    Object::Long(long_at(h, lhs).wrapping_sub(long_at(h, rhs))),
                ) && r == Ok::<Op, Error>(Op::Ref(h.len() as usize))
            }
        }),
{
    if !args.is_pair(e) {
        return Err(Error::TooFewArgs);
    }
    let lhs = args.get_head(e);
    let rest = args.get_tail(e);
    if !rest.is_pair(e) {
        return Err(Error::TooFewArgs);
    }
    let rhs = rest.get_head(e);
    if !lhs.is_long(e) {
        return Err(Error::RequireLong(lhs));
    }
    if !rhs.is_long(e) {
        return Err(Error::RequireLong(rhs));
    }
    let a = lhs.get_long(e);
    let b = rhs.get_long(e);
    Ok(Op::long(e, a.wrapping_sub(b)))
}

/// Both operands must be integers; the product, with 64-bit wrap-around on
/// overflow.
pub fn subr_mul(e: &mut Engine, args: Op, _env: Op, _fuel: u64) -> (r: Result<Op, Error>)
    requires
        old(e).wf(),
        valid_op(old(e).heap@, args),
    ensures
        final(e).wf(),
        final(e).globals == old(e).globals,
        old(e).heap@.len() <= final(e).heap@.len(),
        old(e).ready() ==> final(e).ready(),
        (match r {
            Ok(v) => valid_op(final(e).heap@, v),
            Err(err) => err_wf(final(e).heap@, err),
        }),
        forall|o: Op| is_pair_at(old(e).heap@, o) ==> #[trigger] is_pair_at(final(e).heap@, o),
        forall|o: Op| is_expr_at(old(e).heap@, o) ==> #[trigger] is_expr_at(final(e).heap@, o),
        final(e).symbols@ == old(e).symbols@,
        (final(e).heap@, r) == subr_mul_s(old(e).heap@, args),
        ({
            let h = old(e).heap@;
            let lhs = car_s(h, args);
            let rhs = car_s(h, cdr_s(h, args));
            if !is_pair_at(h, args) || !is_pair_at(h, cdr_s(h, args)) {
                r == Err::<Op, Error>(Error::TooFewArgs) && *final(e) == *old(e)
            } else if !is_long_at(h, lhs) {
                r == Err::<Op, Error>(Error::RequireLong(lhs)) && *final(e) == *old(e)
            } else if !is_long_at(h, rhs) {
                r == Err::<Op, Error>(Error::RequireLong(rhs)) && *final(e) == *old(e)
            } else {
                final(e).heap@ == h.push(
                    Object::Long(long_at(h, lhs).wrapping_mul(long_at(h, rhs))),
                ) && r == Ok::<Op, Error>(Op::Ref(h.len() as usize))
            }
        }),
{
    if !args.is_pair(e) {
        return Err(Error::TooFewArgs);
    }
    let lhs = args.get_head(e);
    let rest = args.get_tail(e);
    if !rest.is_pair(e) {
        return Err(Error::TooFewArgs);
    }
    let rhs = rest.get_head(e);
    if !lhs.is_long(e) {
        return Err(Error::RequireLong(lhs));
    }
    if !rhs.is_long(e) {
        return Err(Error::RequireLong(rhs));
    }
    let a = lhs.get_long(e);
    let b = rhs.get_long(e);
    Ok(Op::long(e, a.wrapping_mul(b)))
}

/// Both operands must be integers; truncated division.  Division by zero is
/// reported as its own error kind, never a crash; the one overflowing
/// quotient wraps.
pub fn subr_div(e: &mut Engine, args: Op, _env: Op, _fuel: u64) -> (r: Result<Op, Error>)
    requires
        old(e).wf(),
        valid_op(old(e).heap@, args),
    ensures
        final(e).wf(),
        final(e).globals == old(e).globals,
        old(e).heap@.len() <= final(e).heap@.len(),
        old(e).ready() ==> final(e).ready(),
        (match r {
            Ok(v) => valid_op(final(e).heap@, v),
            Err(err) => err_wf(final(e).heap@, err),
        }),
        forall|o: Op| is_pair_at(old(e).heap@, o) ==> #[trigger] is_pair_at(final(e).heap@, o),
        forall|o: Op| is_expr_at(old(e).heap@, o) ==> #[trigger] is_expr_at(final(e).heap@, o),
        final(e).symbols@ == old(e).symbols@,
        (final(e).heap@, r) == subr_div_s(old(e).heap@, args),
        ({
            let h = old(e).heap@;
            let lhs = car_s(h, args);
            let rhs = car_s(h, cdr_s(h, args));
            if !is_pair_at(h, args) || !is_pair_at(h, cdr_s(h, args)) {
                r == Err::<Op, Error>(Error::TooFewArgs) && *final(e) == *old(e)
            } else if !is_long_at(h, lhs) {
                r == Err::<Op, Error>(Error::RequireLong(lhs)) && *final(e) == *old(e)
            } else if !is_long_at(h, rhs) {
                r == Err::<Op, Error>(Error::RequireLong(rhs)) && *final(e) == *old(e)
            } else if long_at(h, rhs) == 0 {
                r == Err::<Op, Error>(Error::DivideByZero) && *final(e) == *old(e)
            } else {
                final(e).heap@ == h.push(
                    Object::Long(div_val(long_at(h, lhs), long_at(h, rhs))),
                ) && r == Ok::<Op, Error>(Op::Ref(h.len() as usize))
            }
        }),
{
    if !args.is_pair(e) {
        return Err(Error::TooFewArgs);
    }
    let lhs = args.get_head(e);
    let rest = args.get_tail(e);
    if !rest.is_pair(e) {
        return Err(Error::TooFewArgs);
    }
    let rhs = rest.get_head(e);
    if !lhs.is_long(e) {
        return Err(Error::RequireLong(lhs));
    }
    if !rhs.is_long(e) {
        return Err(Error::RequireLong(rhs));
    }
    let a = lhs.get_long(e);
    let b = rhs.get_long(e);
    if b == 0 {
        return Err(Error::DivideByZero);
    }
    let q = match a.checked_div(b) {
        Some(q) => q,
        None => i64::MIN,
    };
    Ok(Op::long(e, q))
}

/// A fresh empty-list value: the sentinel pair with nil head and nil tail,
/// distinguishable from plain nil.
pub fn subr_new_list(e: &mut Engine, _args: Op, _env: Op, _fuel: u64) -> (r: Result<Op, Error>)
    requires
        old(e).wf(),
    ensures
        final(e).wf(),
        final(e).globals == old(e).globals,
        old(e).ready() ==> final(e).ready(),
        final(e).heap@ == old(e).heap@.push(Object::Pair { head: Op::Null, tail: Op::Null }),
        r == Ok::<Op, Error>(Op::Ref(old(e).heap@.len() as usize)),
        forall|o: Op| is_pair_at(old(e).heap@, o) ==> #[trigger] is_pair_at(final(e).heap@, o),
        forall|o: Op| is_expr_at(old(e).heap@, o) ==> #[trigger] is_expr_at(final(e).heap@, o),
        final(e).symbols@ == old(e).symbols@,
        (final(e).heap@, r) == subr_new_list_s(old(e).heap@),
{
    Ok(cons(e, Op::Null, Op::Null))
}

/// Mutate the first operand (a pair) in place, adding the second operand at
/// the end of its tail chain; appending to the empty-list sentinel fills its
/// head instead.  Returns the same handle.
#[verifier::loop_isolation(false)]
pub fn subr_list_append(e: &mut Engine, args: Op, _env: Op, _fuel: u64) -> (r: Result<Op, Error>)
    requires
        old(e).wf(),
        valid_op(old(e).heap@, args),
    ensures
        final(e).wf(),
        final(e).globals == old(e).globals,
        old(e).heap@.len() <= final(e).heap@.len(),
        old(e).ready() ==> final(e).ready(),
        (match r {
            Ok(v) => valid_op(final(e).heap@, v),
            Err(err) => err_wf(final(e).heap@, err),
        }),
        forall|o: Op| is_pair_at(old(e).heap@, o) ==> #[trigger] is_pair_at(final(e).heap@, o),
        forall|o: Op| is_expr_at(old(e).heap@, o) ==> #[trigger] is_expr_at(final(e).heap@, o),
        final(e).symbols@ == old(e).symbols@,
        (final(e).heap@, r) == subr_list_append_s(old(e).heap@, args),
        ({
            let h = old(e).heap@;
            let list = car_s(h, args);
            let elem = car_s(h, cdr_s(h, args));
            if !is_pair_at(h, args) {
                r == Err::<Op, Error>(Error::TooFewArgs) && *final(e) == *old(e)
            } else if !is_pair_at(h, list) {
                r == Err::<Op, Error>(Error::RequirePair(list)) && *final(e) == *old(e)
            } else if !is_pair_at(h, cdr_s(h, args)) {
                r == Err::<Op, Error>(Error::TooFewArgs) && *final(e) == *old(e)
            } else if car_s(h, list) is Null {
                final(e).heap@ == h.update(
                    list.spec_idx(),
                    Object::Pair { head: elem, tail: cdr_s(h, list) },
                ) && r == Ok::<Op, Error>(list)
            } else {
                match chain_s(h, list, h.len() + 1) {
                    None => r == Err::<Op, Error>(Error::TooDeep) && *final(e) == *old(e),
                    Some(ct) => if ct.1 is Null {
                        final(e).heap@ == h.push(
                            Object::Pair { head: elem, tail: Op::Null },
                        ).update(
                            ct.0.last().spec_idx(),
                            Object::Pair {
                                head: car_s(h, ct.0.last()),
                                tail: Op::Ref(h.len() as usize),
                            },
                        ) && r == Ok::<Op, Error>(list)
                    } else {
                        r == Err::<Op, Error>(Error::RequirePair(ct.0.last())) && *final(e)
                            == *old(e)
                    },
                }
            }
        }),
{
    if !args.is_pair(e) {
        return Err(Error::TooFewArgs);
    }
    let list = args.get_head(e);
    if !list.is_pair(e) {
        return Err(Error::RequirePair(list));
    }
    let rest = args.get_tail(e);
    if !rest.is_pair(e) {
        return Err(Error::TooFewArgs);
    }
    let elem = rest.get_head(e);
    if list.get_head(e).is_null() {
        list.set_head(e, elem);
        return Ok(list);
    }
    let ghost h = e.heap@;
    let ghost n1: nat = (e.heap@.len() + 1) as nat;
    let mut cur = list;
    let mut f: usize = e.heap.len();
    let ghost mut pre: Seq<Op> = Seq::empty();
    proof {
        if chain_s(h, list, n1) is Some {
            let ct = chain_s(h, list, n1)->Some_0;
            assert(Seq::<Op>::empty() + ct.0 =~= ct.0);
        }
    }
    loop
        invariant
            *e == *old(e),
            e.wf(),
            h == e.heap@,
            is_pair_at(h, cur),
            valid_op(h, elem),
            f <= h.len(),
            pre.len() == h.len() - f,
            chain_s(h, list, n1) == (match chain_s(h, cur, (f + 1) as nat) {
                None => None::<(Seq<Op>, Op)>,
                Some(ct) => Some((pre + ct.0, ct.1)),
            }),
        decreases f,
    {
        let mt = cur.get_tail(e);
        if mt.is_null() {
            proof {
                assert(chain_s(h, cdr_s(h, cur), f as nat) == Some((Seq::<Op>::empty(), Op::Null)));
                assert(seq![cur] + Seq::<Op>::empty() =~= seq![cur]);
                assert(chain_s(h, cur, (f + 1) as nat) == Some((seq![cur], Op::Null)));
                let cells = pre + seq![cur];
                assert(chain_s(h, list, n1) == Some((cells, Op::Null)));
                assert(cells.last() == cur);
            }
            let c = cons(e, elem, Op::Null);
            cur.set_tail(e, c);
            return Ok(list);
        }
        if !mt.is_pair(e) {
            proof {
                assert(chain_s(h, cdr_s(h, cur), f as nat) == Some((Seq::<Op>::empty(), mt)));
                assert(seq![cur] + Seq::<Op>::empty() =~= seq![cur]);
                assert(chain_s(h, cur, (f + 1) as nat) == Some((seq![cur], mt)));
                let cells = pre + seq![cur];
                assert(chain_s(h, list, n1) == Some((cells, mt)));
                assert(cells.last() == cur);
            }
            return Err(Error::RequirePair(cur));
        }
        if f == 0 {
            proof {
                assert(chain_s(h, cur, 1nat) == (match chain_s(h, cdr_s(h, cur), 0nat) {
                    None => None::<(Seq<Op>, Op)>,
                    Some(ct) => Some((seq![cur] + ct.0, ct.1)),
                }));
                assert(chain_s(h, cdr_s(h, cur), 0nat) == None::<(Seq<Op>, Op)>);
                assert(chain_s(h, list, n1) is None);
            }
            return Err(Error::TooDeep);
        }
        proof {
            assert(chain_s(h, cur, (f + 1) as nat) == (match chain_s(h, mt, f as nat) {
                None => None::<(Seq<Op>, Op)>,
                Some(ct) => Some((seq![cur] + ct.0, ct.1)),
            }));
            if chain_s(h, mt, f as nat) is Some {
                let ct = chain_s(h, mt, f as nat)->Some_0;
                assert(pre + (seq![cur] + ct.0) =~= (pre + seq![cur]) + ct.0);
            }
            pre = pre + seq![cur];
        }
        f = f - 1;
        cur = mt;
    }
}

/// Mutate the first operand (a pair) in place, adding the second operand at
/// the front; prepending to the empty-list sentinel fills its head instead.
/// Returns the same handle.
pub fn subr_list_prepend(e: &mut Engine, args: Op, _env: Op, _fuel: u64) -> (r: Result<Op, Error>)
    requires
        old(e).wf(),
        valid_op(old(e).heap@, args),
    ensures
        final(e).wf(),
        final(e).globals == old(e).globals,
        old(e).heap@.len() <= final(e).heap@.len(),
        old(e).ready() ==> final(e).ready(),
        (match r {
            Ok(v) => valid_op(final(e).heap@, v),
            Err(err) => err_wf(final(e).heap@, err),
        }),
        forall|o: Op| is_pair_at(old(e).heap@, o) ==> #[trigger] is_pair_at(final(e).heap@, o),
        forall|o: Op| is_expr_at(old(e).heap@, o) ==> #[trigger] is_expr_at(final(e).heap@, o),
        final(e).symbols@ == old(e).symbols@,
        (final(e).heap@, r) == subr_list_prepend_s(old(e).heap@, args),
        ({
            let h = old(e).heap@;
            let list = car_s(h, args);
            let elem = car_s(h, cdr_s(h, args));
            if !is_pair_at(h, args) {
                r == Err::<Op, Error>(Error::TooFewArgs) && *final(e) == *old(e)
            } else if !is_pair_at(h, list) {
                r == Err::<Op, Error>(Error::RequirePair(list)) && *final(e) == *old(e)
            } else if !is_pair_at(h, cdr_s(h, args)) {
                r == Err::<Op, Error>(Error::TooFewArgs) && *final(e) == *old(e)
            } else if car_s(h, list) is Null {
                final(e).heap@ == h.update(
                    list.spec_idx(),
                    Object::Pair { head: elem, tail: cdr_s(h, list) },
                ) && r == Ok::<Op, Error>(list)
            } else {
                final(e).heap@ == h.push(
                    Object::Pair { head: car_s(h, list), tail: cdr_s(h, list) },
                ).update(
                    list.spec_idx(),
                    Object::Pair { head: elem, tail: Op::Ref(h.len() as usize) },
                ) && r == Ok::<Op, Error>(list)
            }
        }),
{
    if !args.is_pair(e) {
        return Err(Error::TooFewArgs);
    }
    let list = args.get_head(e);
    if !list.is_pair(e) {
        return Err(Error::RequirePair(list));
    }
    let rest = args.get_tail(e);
    if !rest.is_pair(e) {
        return Err(Error::TooFewArgs);
    }
    let elem = rest.get_head(e);
    if list.get_head(e).is_null() {
        list.set_head(e, elem);
        return Ok(list);
    }
    let head = list.get_head(e);
    let tail = list.get_tail(e);
    let c = cons(e, head, tail);
    list.set_head(e, elem);
    list.set_tail(e, c);
    Ok(list)
}

/// Count the cells of a list value; the empty-list sentinel counts as zero.
/// A tail chain ending in a non-pair, non-nil value is malformed.
#[verifier::loop_isolation(false)]
pub fn subr_list_count(e: &mut Engine, args: Op, _env: Op, _fuel: u64) -> (r: Result<Op, Error>)
    requires
        old(e).wf(),
        valid_op(old(e).heap@, args),
    ensures
        final(e).wf(),
        final(e).globals == old(e).globals,
        old(e).heap@.len() <= final(e).heap@.len(),
        old(e).ready() ==> final(e).ready(),
        (match r {
            Ok(v) => valid_op(final(e).heap@, v),
            Err(err) => err_wf(final(e).heap@, err),
        }),
        forall|o: Op| is_pair_at(old(e).heap@, o) ==> #[trigger] is_pair_at(final(e).heap@, o),
        forall|o: Op| is_expr_at(old(e).heap@, o) ==> #[trigger] is_expr_at(final(e).heap@, o),
        final(e).symbols@ == old(e).symbols@,
        (final(e).heap@, r) == subr_list_count_s(old(e).heap@, args),
        ({
            let h = old(e).heap@;
            let list = car_s(h, args);
            if !is_pair_at(h, args) {
                r == Err::<Op, Error>(Error::TooFewArgs) && *final(e) == *old(e)
            } else if !is_pair_at(h, list) {
                r == Err::<Op, Error>(Error::RequirePair(list)) && *final(e) == *old(e)
            } else if car_s(h, list) is Null {
                final(e).heap@ == h.push(Object::Long(0)) && r == Ok::<Op, Error>(
                    Op::Ref(h.len() as usize),
                )
            } else {
                match chain_s(h, list, h.len() + 1) {
                    None => r == Err::<Op, Error>(Error::TooDeep) && *final(e) == *old(e),
                    Some(ct) => if ct.1 is Null {
                        if ct.0.len() < 0x8000_0000_0000_0000 {
                            final(e).heap@ == h.push(Object::Long(ct.0.len() as i64)) && r
                                == Ok::<Op, Error>(Op::Ref(h.len() as usize))
                        } else {
                            r == Err::<Op, Error>(Error::TooDeep) && *final(e) == *old(e)
                        }
                    } else {
                        r == Err::<Op, Error>(Error::RequirePair(ct.1)) && *final(e) == *old(e)
                    },
                }
            }
        }),
{
    if !args.is_pair(e) {
        return Err(Error::TooFewArgs);
    }
    let list = args.get_head(e);
    if !list.is_pair(e) {
        return Err(Error::RequirePair(list));
    }
    if list.get_head(e).is_null() {
        return Ok(Op::long(e, 0));
    }
    let ghost h = e.heap@;
    let ghost n1: nat = (e.heap@.len() + 1) as nat;
    let mut cur = list;
    let mut f: usize = e.heap.len();
    let ghost mut pre: Seq<Op> = Seq::empty();
    proof {
        if chain_s(h, list, n1) is Some {
            let ct = chain_s(h, list, n1)->Some_0;
            assert(Seq::<Op>::empty() + ct.0 =~= ct.0);
        }
    }
    loop
        invariant
            *e == *old(e),
            e.wf(),
            h == e.heap@,
            is_pair_at(h, cur),
            f <= h.len(),
            pre.len() == h.len() - f,
            chain_s(h, list, n1) == (match chain_s(h, cur, (f + 1) as nat) {
                None => None::<(Seq<Op>, Op)>,
                Some(ct) => Some((pre + ct.0, ct.1)),
            }),
        decreases f,
    {
        let mt = cur.get_tail(e);
        if mt.is_null() {
            proof {
                assert(chain_s(h, cdr_s(h, cur), f as nat) == Some((Seq::<Op>::empty(), Op::Null)));
                assert(seq![cur] + Seq::<Op>::empty() =~= seq![cur]);
                assert(chain_s(h, cur, (f + 1) as nat) == Some((seq![cur], Op::Null)));
                assert(chain_s(h, list, n1) == Some((pre + seq![cur], Op::Null)));
                assert((pre + seq![cur]).len() == pre.len() + 1);
            }
            let walked: usize = e.heap.len() - f;
            let w64: u64 = walked as u64;
            if w64 >= 0x7fff_ffff_ffff_ffffu64 {
                return Err(Error::TooDeep);
            }
            let cnt: i64 = (w64 + 1) as i64;
            return Ok(Op::long(e, cnt));
        }
        if !mt.is_pair(e) {
            proof {
                assert(chain_s(h, cdr_s(h, cur), f as nat) == Some((Seq::<Op>::empty(), mt)));
                assert(seq![cur] + Seq::<Op>::empty() =~= seq![cur]);
                assert(chain_s(h, cur, (f + 1) as nat) == Some((seq![cur], mt)));
                assert(chain_s(h, list, n1) == Some((pre + seq![cur], mt)));
            }
            return Err(Error::RequirePair(mt));
        }
        if f == 0 {
            proof {
                assert(chain_s(h, cdr_s(h, cur), 0nat) == None::<(Seq<Op>, Op)>);
                assert(chain_s(h, list, n1) is None);
            }
            return Err(Error::TooDeep);
        }
        proof {
            assert(chain_s(h, cur, (f + 1) as nat) == (match chain_s(h, mt, f as nat) {
                None => None::<(Seq<Op>, Op)>,
                Some(ct) => Some((seq![cur] + ct.0, ct.1)),
            }));
            if chain_s(h, mt, f as nat) is Some {
                let ct = chain_s(h, mt, f as nat)->Some_0;
                assert(pre + (seq![cur] + ct.0) =~= (pre + seq![cur]) + ct.0);
            }
            pre = pre + seq![cur];
        }
        f = f - 1;
        cur = mt;
    }
}

/// Zero-based positional access into a list value: the element at the given
/// index, nil when the index runs past the end (not an error), `RequireLong`
/// for a non-integer index, `RequirePair` on a malformed tail chain.
#[verifier::loop_isolation(false)]
pub fn subr_list_index(e: &mut Engine, args: Op, _env: Op, _fuel: u64) -> (r: Result<Op, Error>)
    requires
        old(e).wf(),
        valid_op(old(e).heap@, args),
    ensures
        final(e).wf(),
        *final(e) == *old(e),
        r == subr_list_index_s(old(e).heap@, args),
        (match r {
            Ok(v) => valid_op(final(e).heap@, v),
            Err(err) => err_wf(final(e).heap@, err),
        }),
        ({
            let h = old(e).heap@;
            let list = car_s(h, args);
            let index = car_s(h, cdr_s(h, args));
            if !is_pair_at(h, args) {
                r == Err::<Op, Error>(Error::TooFewArgs)
            } else if !is_pair_at(h, list) {
                r == Err::<Op, Error>(Error::RequirePair(list))
            } else if !is_pair_at(h, cdr_s(h, args)) {
                r == Err::<Op, Error>(Error::TooFewArgs)
            } else if !is_long_at(h, index) {
                r == Err::<Op, Error>(Error::RequireLong(index))
            } else {
                let i = long_at(h, index) as int;
                match chain_s(h, list, h.len() + 1) {
                    None => r == Err::<Op, Error>(Error::TooDeep) || (0 <= i && r == Ok::<
                        Op,
                        Error,
                    >(car_s(h, nth_s(h, list, i as nat)))),
                    Some(ct) => if 0 <= i < ct.0.len() {
                        r == Ok::<Op, Error>(car_s(h, ct.0[i]))
                    } else if ct.1 is Null {
                        r == Ok::<Op, Error>(Op::Null)
                    } else {
                        r == Err::<Op, Error>(Error::RequirePair(ct.1))
                    },
                }
            }
        }),
{
    if !args.is_pair(e) {
        return Err(Error::TooFewArgs);
    }
    let list = args.get_head(e);
    if !list.is_pair(e) {
        return Err(Error::RequirePair(list));
    }
    let rest = args.get_tail(e);
    if !rest.is_pair(e) {
        return Err(Error::TooFewArgs);
    }
    let index = rest.get_head(e);
    if !index.is_long(e) {
        return Err(Error::RequireLong(index));
    }
    let ghost h = e.heap@;
    let ghost n1: nat = (e.heap@.len() + 1) as nat;
    let ghost i0: int = long_at(h, index) as int;
    let mut idx = index.get_long(e);
    let mut cur = list;
    let mut f: usize = e.heap.len();
    let ghost mut pre: Seq<Op> = Seq::empty();
    proof {
        if chain_s(h, list, n1) is Some {
            let ct = chain_s(h, list, n1)->Some_0;
            assert(Seq::<Op>::empty() + ct.0 =~= ct.0);
        }
    }
    loop
        invariant
            *e == *old(e),
            e.wf(),
            h == e.heap@,
            is_pair_at(h, cur),
            f <= h.len(),
            pre.len() == h.len() - f,
            i0 >= 0 ==> pre.len() <= i0 && idx == i0 - pre.len(),
            i0 < 0 ==> idx == i0,
            cur == nth_s(h, list, pre.len()),
            chain_s(h, list, n1) == (match chain_s(h, cur, (f + 1) as nat) {
                None => None::<(Seq<Op>, Op)>,
                Some(ct) => Some((pre + ct.0, ct.1)),
            }),
        decreases f,
    {
        if idx == 0 {
            let v = cur.get_head(e);
            proof {
                if chain_s(h, list, n1) is Some {
                    let ct = chain_s(h, cur, (f + 1) as nat);
                    assert(ct is Some);
                    let cells = pre + ct->Some_0.0;
                    assert(ct->Some_0.0[0] == cur);
                    assert(cells[i0] == cur);
                }
            }
            return Ok(v);
        }
        let mt = cur.get_tail(e);
        if mt.is_null() {
            proof {
                assert(chain_s(h, cdr_s(h, cur), f as nat) == Some((Seq::<Op>::empty(), Op::Null)));
                assert(seq![cur] + Seq::<Op>::empty() =~= seq![cur]);
                assert(chain_s(h, cur, (f + 1) as nat) == Some((seq![cur], Op::Null)));
                assert(chain_s(h, list, n1) == Some((pre + seq![cur], Op::Null)));
                assert((pre + seq![cur]).len() == pre.len() + 1);
            }
            return Ok(Op::Null);
        }
        if !mt.is_pair(e) {
            proof {
                assert(chain_s(h, cdr_s(h, cur), f as nat) == Some((Seq::<Op>::empty(), mt)));
                assert(seq![cur] + Seq::<Op>::empty() =~= seq![cur]);
                assert(chain_s(h, cur, (f + 1) as nat) == Some((seq![cur], mt)));
                assert(chain_s(h, list, n1) == Some((pre + seq![cur], mt)));
            }
            return Err(Error::RequirePair(mt));
        }
        if f == 0 {
            proof {
                assert(chain_s(h, cdr_s(h, cur), 0nat) == None::<(Seq<Op>, Op)>);
                assert(chain_s(h, list, n1) is None);
            }
            return Err(Error::TooDeep);
        }
        if idx > 0 {
            idx = idx - 1;
        }
        proof {
            lemma_nth_snoc(h, list, pre.len());
            assert(chain_s(h, cur, (f + 1) as nat) == (match chain_s(h, mt, f as nat) {
                None => None::<(Seq<Op>, Op)>,
                Some(ct) => Some((seq![cur] + ct.0, ct.1)),
            }));
            if chain_s(h, mt, f as nat) is Some {
                let ct = chain_s(h, mt, f as nat)->Some_0;
                assert(pre + (seq![cur] + ct.0) =~= (pre + seq![cur]) + ct.0);
            }
            pre = pre + seq![cur];
        }
        f = f - 1;
        cur = mt;
    }
}

/// Map a closure over a list value, building a fresh list of the results.
/// For each element, the closure's captured environment is extended for one
/// call with the element under the reserved positional key 0, and restored
/// afterwards.
#[verifier::loop_isolation(false)]
pub fn subr_list_map(e: &mut Engine, args: Op, _env: Op, fuel: u64) -> (r: Result<Op, Error>)
    requires
        old(e).ready(),
        valid_op(old(e).heap@, args),
    ensures
        final(e).ready(),
        final(e).globals == old(e).globals,
        old(e).heap@.len() <= final(e).heap@.len(),
        (match r {
            Ok(v) => valid_op(final(e).heap@, v),
            Err(err) => err_wf(final(e).heap@, err),
        }),
        forall|o: Op| is_pair_at(old(e).heap@, o) ==> #[trigger] is_pair_at(final(e).heap@, o),
        forall|o: Op| is_expr_at(old(e).heap@, o) ==> #[trigger] is_expr_at(final(e).heap@, o),
        final(e).symbols@ == old(e).symbols@,
        (final(e).heap@, r) == subr_list_map_s(old(e).heap@, old(e).globals, args, fuel as nat),
        ({
            let h = old(e).heap@;
            let list = car_s(h, args);
            let fun = car_s(h, cdr_s(h, args));
            if !is_pair_at(h, args) {
                r == Err::<Op, Error>(Error::TooFewArgs) && *final(e) == *old(e)
            } else if !is_pair_at(h, list) {
                r == Err::<Op, Error>(Error::RequirePair(list)) && *final(e) == *old(e)
            } else if !is_pair_at(h, cdr_s(h, args)) {
                r == Err::<Op, Error>(Error::TooFewArgs) && *final(e) == *old(e)
            } else if !is_expr_at(h, fun) {
                r == Err::<Op, Error>(Error::RequireExpr(fun)) && *final(e) == *old(e)
            } else if car_s(h, list) is Null {
                final(e).heap@ == h.push(Object::Pair { head: Op::Null, tail: Op::Null }) && r
                    == Ok::<Op, Error>(Op::Ref(h.len() as usize))
            } else {
                true
            }
        }),
    decreases fuel, 1int,
{
    if !args.is_pair(e) {
        return Err(Error::TooFewArgs);
    }
    let list = args.get_head(e);
    if !list.is_pair(e) {
        return Err(Error::RequirePair(list));
    }
    let rest = args.get_tail(e);
    if !rest.is_pair(e) {
        return Err(Error::TooFewArgs);
    }
    let fun = rest.get_head(e);
    if !fun.is_expr(e) {
        return Err(Error::RequireExpr(fun));
    }
    let new_list = cons(e, Op::Null, Op::Null);
    proof {
        assert(e.heap@[list.spec_idx()] == old(e).heap@[list.spec_idx()]);
        assert(e.heap@[fun.spec_idx()] == old(e).heap@[fun.spec_idx()]);
        assert(e.heap@[old(e).globals.spec_idx()] == old(e).heap@[old(e).globals.spec_idx()]);
        assert(e.heap@[new_list.spec_idx()] == Object::Pair { head: Op::Null, tail: Op::Null });
    }
    if list.get_head(e).is_null() {
        return Ok(new_list);
    }
    map_loop(e, list, new_list, fun, new_list, fuel)
}

/// One element of the `list_map` walk: the step `map_loop_s`, exactly.
fn map_loop(e: &mut Engine, cur: Op, new_tail: Op, fun: Op, new_list: Op, fuel: u64) -> (r:
    Result<Op, Error>)
    requires
        old(e).ready(),
        is_pair_at(old(e).heap@, cur),
        is_pair_at(old(e).heap@, new_tail),
        is_expr_at(old(e).heap@, fun),
        valid_op(old(e).heap@, new_list),
    ensures
        final(e).ready(),
        final(e).globals == old(e).globals,
        old(e).heap@.len() <= final(e).heap@.len(),
        (match r {
            Ok(v) => valid_op(final(e).heap@, v),
            Err(err) => err_wf(final(e).heap@, err),
        }),
        forall|o: Op| is_pair_at(old(e).heap@, o) ==> #[trigger] is_pair_at(final(e).heap@, o),
        forall|o: Op| is_expr_at(old(e).heap@, o) ==> #[trigger] is_expr_at(final(e).heap@, o),
        final(e).symbols@ == old(e).symbols@,
        (final(e).heap@, r) == map_loop_s(
            old(e).heap@,
            old(e).globals,
            cur,
            new_tail,
            fun,
            new_list,
            fuel as nat,
        ),
    decreases fuel, 0int,
{
    if fuel == 0 {
        return Err(Error::TooDeep);
    }
    let elem = cur.get_head(e);
    let original_env = fun.get_env(e);
    let key = Op::long(e, 0);
    let kv = cons(e, key, elem);
    let wrapped = cons(e, kv, original_env);
    fun.set_env(e, wrapped);
    let one = cons(e, elem, Op::Null);
    let new_elem = match apply(e, fun, one, Op::Null, fuel - 1) {
        Ok(v) => v,
        Err(er) => {
            return Err(er);
        },
    };
    fun.set_env(e, original_env);
    new_tail.set_head(e, new_elem);
    let nxt = cur.get_tail(e);
    if nxt.is_null() {
        return Ok(new_list);
    }
    if !nxt.is_pair(e) {
        return Err(Error::RequirePair(nxt));
    }
    let tmp = cons(e, Op::Null, Op::Null);
    new_tail.set_tail(e, tmp);
    map_loop(e, nxt, tmp, fun, new_list, fuel - 1)
}

/// Shadowing via list order: after `define` prepends the association
/// `(name . value)` to a frame's tail, a lookup for `name` from that frame
/// finds the new association and reads back `value` — any older binding of
/// the name sits further down the chain — provided the frame's own head
/// association is not itself keyed by `name`.
pub proof fn lemma_define_shadows(
    h0: Seq<Object>,
    h1: Seq<Object>,
    name: Op,
    value: Op,
    env: Op,
    fuel: nat,
)
    requires
        is_pair_at(h0, env),
        valid_op(h0, name),
        valid_op(h0, value),
        h0.len() + 1 <= usize::MAX,
        h1 == h0.push(Object::Pair { head: name, tail: value }).push(
            Object::Pair { head: Op::Ref(h0.len() as usize), tail: cdr_s(h0, env) },
        ).update(
            env.spec_idx(),
            Object::Pair { head: car_s(h0, env), tail: Op::Ref((h0.len() + 1) as usize) },
        ),
        car_s(h1, car_s(h1, env)) != name,
        fuel >= 2,
    ensures
        assoc_s(h1, name, env, fuel) == Some(Op::Ref(h0.len() as usize)),
        cdr_s(h1, Op::Ref(h0.len() as usize)) == value,
{
    let p = Op::Ref(h0.len() as usize);
    let t = Op::Ref((h0.len() + 1) as usize);
    assert(cdr_s(h1, env) == t);
    assert(car_s(h1, t) == p);
    assert(car_s(h1, p) == name);
    assert(assoc_s(h1, name, t, (fuel - 1) as nat) == Some(p));
    assert(assoc_s(h1, name, env, fuel) == assoc_s(h1, name, t, (fuel - 1) as nat));
}

/// The default depth budget of the engine: evaluation deeper than this, or a
/// walk over a longer chain, is reported as `Error::TooDeep`.
pub const EVAL_DEPTH: u64 = 100000;

impl Engine {
    /// Evaluate one form against the global frame, under the engine's
    /// documented depth budget.
    pub fn eval(&mut self, op: Op) -> (r: Result<Op, Error>)
        requires
            old(self).ready(),
            valid_op(old(self).heap@, op),
        ensures
            final(self).ready(),
            final(self).globals == old(self).globals,
            old(self).heap@.len() <= final(self).heap@.len(),
            (match r {
                Ok(v) => valid_op(final(self).heap@, v),
                Err(err) => err_wf(final(self).heap@, err),
            }),
            final(self).symbols@ == old(self).symbols@,
            (final(self).heap@, r) == eval_s(
                old(self).heap@,
                old(self).globals,
                op,
                old(self).globals,
                EVAL_DEPTH as nat,
            ),
            op is Null ==> r == Ok::<Op, Error>(Op::Null) && *final(self) == *old(self),
            is_long_at(old(self).heap@, op) || is_expr_at(old(self).heap@, op) || is_subr_at(
                old(self).heap@,
                op,
            ) ==> r == Ok::<Op, Error>(op) && *final(self) == *old(self),
            is_symbol_at(old(self).heap@, op) ==> *final(self) == *old(self) && (match assoc_s(
                old(self).heap@,
                op,
                old(self).globals,
                old(self).heap@.len() + 1,
            ) {
                Some(p) => if p is Null {
                    r == Err::<Op, Error>(Error::Undefined(op))
                } else {
                    r == Ok::<Op, Error>(cdr_s(old(self).heap@, p))
                },
                None => r == Err::<Op, Error>(Error::Undefined(op)),
            }),
    {
        let g = self.globals;
        eval(self, op, g, EVAL_DEPTH)
    }

    /// Register one built-in routine in the global frame: the name is
    /// interned, a fresh routine object carrying `imp` and `is_fixed` is
    /// bound to it there, and every previously interned name stays
    /// interned.  Unless the frame's head association already bears the
    /// name, a lookup from the frame now finds the new binding.
    fn reg(&mut self, name: &str, imp: Prim, is_fixed: bool)
        requires
            old(self).ready(),
        ensures
            final(self).ready(),
            final(self).globals == old(self).globals,
            forall|i: int|
                0 <= i < old(self).heap@.len() && i != old(self).globals.spec_idx()
                    ==> final(self).heap@[i] == old(self).heap@[i],
            car_s(final(self).heap@, final(self).globals) == car_s(
                old(self).heap@,
                old(self).globals,
            ),
            final(self).has_interned(name@),
            forall|t: Seq<char>|
                old(self).has_interned(t) ==> #[trigger] final(self).has_interned(t),
            !(is_symbol_at(
                final(self).heap@,
                car_s(final(self).heap@, car_s(final(self).heap@, final(self).globals)),
            ) && text_at(
                final(self).heap@,
                car_s(final(self).heap@, car_s(final(self).heap@, final(self).globals)),
            ) == name@) ==> global_binding_s(
                final(self).heap@,
                final(self).globals,
                name@,
                imp,
                is_fixed,
            ),
    {
        let sym = self.intern(chars_of(name));
        let ghost mid = *self;
        let text = chars_of(name);
        let subr = Op::subr(self, imp, text, is_fixed);
        let g = self.globals;
        let ghost pre = *self;
        define(self, sym, subr, g);
        proof {
            assert forall|t: Seq<char>| mid.has_interned(t) implies #[trigger] self.has_interned(
                t,
            ) by {
                let j = choose|j: int|
                    0 <= j < mid.symbols@.len() && text_at(mid.heap@, #[trigger] mid.symbols@[j])
                        == t;
                assert(self.symbols@[j] == mid.symbols@[j]);
                assert(is_symbol_at(mid.heap@, mid.symbols@[j]));
                assert(mid.symbols@[j].spec_idx() != mid.globals.spec_idx());
                assert(self.heap@[mid.symbols@[j].spec_idx()] == mid.heap@[mid.symbols@[j].spec_idx()]);
                assert(text_at(self.heap@, self.symbols@[j]) == t);
            }
            assert forall|t: Seq<char>| old(self).has_interned(t) implies #[trigger] mid.has_interned(
                t,
            ) by {
                let j = choose|j: int|
                    0 <= j < old(self).symbols@.len() && text_at(
                        old(self).heap@,
                        #[trigger] old(self).symbols@[j],
                    ) == t;
                assert(mid.symbols@[j] == old(self).symbols@[j]);
                assert(is_symbol_at(old(self).heap@, old(self).symbols@[j]));
                assert(mid.heap@[old(self).symbols@[j].spec_idx()] == old(self).heap@[old(self).symbols@[j].spec_idx()]);
            }
            assert(mid.has_interned(name@));
            let h = self.heap@;
            let gl = self.globals;
            let hd = car_s(h, car_s(h, gl));
            if !(is_symbol_at(h, hd) && text_at(h, hd) == name@) {
                assert(is_symbol_at(h, sym) && text_at(h, sym) == name@) by {
                    assert(sym.spec_idx() != gl.spec_idx());
                    assert(h[sym.spec_idx()] == pre.heap@[sym.spec_idx()]);
                }
                assert(hd != sym);
                lemma_define_shadows(pre.heap@, h, sym, subr, gl, h.len() + 1);
                let p = Op::Ref(pre.heap@.len() as usize);
                assert(assoc_s(h, sym, gl, h.len() + 1) == Some(p));
                assert(cdr_s(h, p) == subr);
                assert(is_subr_at(h, subr) && subr_imp_s(h, subr) == imp && subr_fixed_s(h, subr)
                    == is_fixed && subr_name_s(h, subr) == name@) by {
                    assert(subr.spec_idx() != gl.spec_idx());
                    assert(h[subr.spec_idx()] == pre.heap@[subr.spec_idx()]);
                }
            }
        }
    }

    /// Build the global frame and register the built-in routines.  The
    /// frame's first association binds the name `globals` to the frame's own
    /// head cell, the self-loop that marks the global end of every chain.
    pub fn init(&mut self)
        requires
            old(self).wf(),
        ensures
            final(self).ready(),
            ({
                let h = final(self).heap@;
                let gv = car_s(h, final(self).globals);
                &&& is_pair_at(h, gv)
                &&& is_symbol_at(h, car_s(h, gv))
                &&& text_at(h, car_s(h, gv)) == "globals"@
                &&& cdr_s(h, gv) == final(self).globals
            }),
            final(self).has_interned("globals"@),
            final(self).has_interned("define"@),
            final(self).has_interned("lambda"@),
            final(self).has_interned("lambda_lambda"@),
            final(self).has_interned("set_scope"@),
            final(self).has_interned("get_scope"@),
            final(self).has_interned("apply"@),
            final(self).has_interned("lambda_apply"@),
            final(self).has_interned("add"@),
            final(self).has_interned("subtract"@),
            final(self).has_interned("mul"@),
            final(self).has_interned("div"@),
            final(self).has_interned("new_list"@),
            final(self).has_interned("list_append"@),
            final(self).has_interned("list_prepend"@),
            final(self).has_interned("list_count"@),
            final(self).has_interned("list_index"@),
            final(self).has_interned("list_map"@),
    {
        let s = self.intern(chars_of("globals"));
        let g0 = self.globals;
        let global_var = Op::pair(self, s, Op::Null);
        let g = Op::pair(self, global_var, g0);
        self.globals = g;
        proof {
            assert(self.heap@[global_var.spec_idx()] == Object::Pair { head: s, tail: Op::Null });
        }
        global_var.set_tail(self, g);
        proof {
            assert(global_var.spec_idx() != g.spec_idx());
            assert(self.heap@[g.spec_idx()] == Object::Pair { head: global_var, tail: g0 });
            assert(self.ready());
            assert(self.has_interned("globals"@)) by {
                assert(self.symbols@.contains(s));
                let j = choose|j: int| 0 <= j < self.symbols@.len() && self.symbols@[j] == s;
                assert(s.spec_idx() != global_var.spec_idx());
                assert(is_symbol_at(self.heap@, s));
                assert(text_at(self.heap@, self.symbols@[j]) == "globals"@);
            }
        }
        self.reg("define", Prim::Define, true);
        self.reg("lambda", Prim::Lambda, true);
        self.reg("lambda_lambda", Prim::LambdaLambda, true);
        self.reg("set_scope", Prim::SetScope, true);
        self.reg("get_scope", Prim::GetScope, false);
        self.reg("apply", Prim::Apply, false);
        self.reg("lambda_apply", Prim::Apply, false);
        self.reg("add", Prim::Add, false);
        self.reg("subtract", Prim::Subtract, false);
        self.reg("mul", Prim::Mul, false);
        self.reg("div", Prim::Div, false);
        self.reg("new_list", Prim::NewList, false);
        self.reg("list_append", Prim::ListAppend, false);
        self.reg("list_prepend", Prim::ListPrepend, false);
        self.reg("list_count", Prim::ListCount, false);
        self.reg("list_index", Prim::ListIndex, false);
        self.reg("list_map", Prim::ListMap, false);
    }
}

} // verus!
