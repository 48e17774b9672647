//! The object store and the symbol interner.
//!
//! Every value the engine ever creates lives in an append-only arena
//! (`Engine::heap`); a `Op` handle is either nil or a stable index into that
//! arena.  Handles are compared by identity, never by structure.  The
//! interner keeps at most one live `Symbol` allocation per distinct text, so
//! identifier equality reduces to handle equality.

use vstd::prelude::*;
use vstd::string::StrSliceExecFns;

verus! {

/// A handle: nil, or a reference to one allocation in the object store.
#[derive(Clone, Copy, PartialEq, Eq, Structural, Debug)]
pub enum Op {
    Null,
    Ref(usize),
}

/// Identity of a built-in routine.
#[derive(Clone, Copy, PartialEq, Eq, Structural, Debug)]
pub enum Prim {
    Define,
    Lambda,
    LambdaLambda,
    SetScope,
    GetScope,
    Apply,
    Add,
    Subtract,
    Mul,
    Div,
    NewList,
    ListAppend,
    ListPrepend,
    ListCount,
    ListIndex,
    ListMap,
}

/// One allocated value.
pub enum Object {
    /// A signed integer.
    Long(i64),
    /// An interned identifier.
    Symbol { s: Vec<char> },
    /// A cons cell: list node, call form, or association pair.
    Pair { head: Op, tail: Op },
    /// A user-defined function: `def` is a pair of `params . body`,
    /// `env` the captured environment.
    Expr { def: Op, env: Op },
    /// A built-in routine; `is_fixed` selects the unevaluated-operands policy.
    Subr { imp: Prim, name: Vec<char>, is_fixed: bool },
}

/// The engine instance: object store, symbol interner state, and the handle
/// of the global environment frame.  All operations thread one engine; the
/// store only ever grows, so handles stay valid for the engine's lifetime.
pub struct Engine {
    pub heap: Vec<Object>,
    pub symbols: Vec<Op>,
    pub globals: Op,
}

impl Op {
    /// The arena index of a reference handle; -1 for nil.
    pub open spec fn spec_idx(self) -> int {
        match self {
            Op::Null => -1,
            Op::Ref(i) => i as int,
        }
    }

    pub fn is_null(&self) -> (r: bool)
        ensures
            r == (*self is Null),
    {
        matches!(*self, Op::Null)
    }
}

/// The handle is nil or points inside the arena.
pub open spec fn valid_op(h: Seq<Object>, o: Op) -> bool {
    match o {
        Op::Null => true,
        Op::Ref(i) => i < h.len(),
    }
}

/// The object a reference handle points at.
pub open spec fn obj_at(h: Seq<Object>, o: Op) -> Object
    recommends
        o is Ref,
        valid_op(h, o),
{
    h[o.spec_idx()]
}

pub open spec fn is_long_at(h: Seq<Object>, o: Op) -> bool {
    o is Ref && valid_op(h, o) && obj_at(h, o) is Long
}

pub open spec fn is_symbol_at(h: Seq<Object>, o: Op) -> bool {
    o is Ref && valid_op(h, o) && obj_at(h, o) is Symbol
}

pub open spec fn is_pair_at(h: Seq<Object>, o: Op) -> bool {
    o is Ref && valid_op(h, o) && obj_at(h, o) is Pair
}

pub open spec fn is_expr_at(h: Seq<Object>, o: Op) -> bool {
    o is Ref && valid_op(h, o) && obj_at(h, o) is Expr
}

pub open spec fn is_subr_at(h: Seq<Object>, o: Op) -> bool {
    o is Ref && valid_op(h, o) && obj_at(h, o) is Subr
}

pub open spec fn long_at(h: Seq<Object>, o: Op) -> i64
    recommends
        is_long_at(h, o),
{
    match obj_at(h, o) {
        Object::Long(n) => n,
        _ => 0,
    }
}

pub open spec fn text_at(h: Seq<Object>, o: Op) -> Seq<char>
    recommends
        is_symbol_at(h, o),
{
    match obj_at(h, o) {
        Object::Symbol { s } => s@,
        _ => Seq::empty(),
    }
}

/// The head of a pair; nil when the handle is not a pair.
pub open spec fn car_s(h: Seq<Object>, o: Op) -> Op {
    if is_pair_at(h, o) {
        match obj_at(h, o) {
            Object::Pair { head, .. } => head,
            _ => Op::Null,
        }
    } else {
        Op::Null
    }
}

/// The tail of a pair; nil when the handle is not a pair.
pub open spec fn cdr_s(h: Seq<Object>, o: Op) -> Op {
    if is_pair_at(h, o) {
        match obj_at(h, o) {
            Object::Pair { tail, .. } => tail,
            _ => Op::Null,
        }
    } else {
        Op::Null
    }
}

pub open spec fn expr_def_s(h: Seq<Object>, o: Op) -> Op
    recommends
        is_expr_at(h, o),
{
    match obj_at(h, o) {
        Object::Expr { def, .. } => def,
        _ => Op::Null,
    }
}

pub open spec fn expr_env_s(h: Seq<Object>, o: Op) -> Op
    recommends
        is_expr_at(h, o),
{
    match obj_at(h, o) {
        Object::Expr { env, .. } => env,
        _ => Op::Null,
    }
}

pub open spec fn subr_imp_s(h: Seq<Object>, o: Op) -> Prim
    recommends
        is_subr_at(h, o),
{
    match obj_at(h, o) {
        Object::Subr { imp, .. } => imp,
        _ => Prim::Apply,
    }
}

pub open spec fn subr_fixed_s(h: Seq<Object>, o: Op) -> bool
    recommends
        is_subr_at(h, o),
{
    match obj_at(h, o) {
        Object::Subr { is_fixed, .. } => is_fixed,
        _ => false,
    }
}

pub open spec fn subr_name_s(h: Seq<Object>, o: Op) -> Seq<char>
    recommends
        is_subr_at(h, o),
{
    match obj_at(h, o) {
        Object::Subr { name, .. } => name@,
        _ => Seq::empty(),
    }
}

/// A store entry with its owned text abstracted to a character sequence:
/// what a value is, independent of how its text is held.
pub enum ObjView {
    Long(i64),
    Symbol(Seq<char>),
    Pair(Op, Op),
    Expr(Op, Op),
    Subr(Prim, Seq<char>, bool),
}

pub open spec fn obj_view(o: Object) -> ObjView {
    match o {
        Object::Long(n) => ObjView::Long(n),
        Object::Symbol { s } => ObjView::Symbol(s@),
        Object::Pair { head, tail } => ObjView::Pair(head, tail),
        Object::Expr { def, env } => ObjView::Expr(def, env),
        Object::Subr { imp, name, is_fixed } => ObjView::Subr(imp, name@, is_fixed),
    }
}

/// The whole store, entry by entry, under `obj_view`.
pub open spec fn heap_view(h: Seq<Object>) -> Seq<ObjView> {
    Seq::new(h.len(), |i: int| obj_view(h[i]))
}

pub open spec fn vis_symbol(hv: Seq<ObjView>, o: Op) -> bool {
    o is Ref && o.spec_idx() < hv.len() && hv[o.spec_idx()] is Symbol
}

pub open spec fn vtext(hv: Seq<ObjView>, o: Op) -> Seq<char>
    recommends
        vis_symbol(hv, o),
{
    match hv[o.spec_idx()] {
        ObjView::Symbol(t) => t,
        _ => Seq::empty(),
    }
}

pub open spec fn vis_pair(hv: Seq<ObjView>, o: Op) -> bool {
    o is Ref && o.spec_idx() < hv.len() && hv[o.spec_idx()] is Pair
}

/// The head of a pair entry; nil when the handle is not one.
pub open spec fn vcar(hv: Seq<ObjView>, o: Op) -> Op {
    if vis_pair(hv, o) {
        match hv[o.spec_idx()] {
            ObjView::Pair(head, _) => head,
            _ => Op::Null,
        }
    } else {
        Op::Null
    }
}

/// The tail of a pair entry; nil when the handle is not one.
pub open spec fn vcdr(hv: Seq<ObjView>, o: Op) -> Op {
    if vis_pair(hv, o) {
        match hv[o.spec_idx()] {
            ObjView::Pair(_, tail) => tail,
            _ => Op::Null,
        }
    } else {
        Op::Null
    }
}

/// Pushing an object appends its view.
pub proof fn lemma_heap_view_push(h: Seq<Object>, o: Object)
    ensures
        heap_view(h.push(o)) =~= heap_view(h).push(obj_view(o)),
{
}

/// Updating an object updates its view.
pub proof fn lemma_heap_view_update(h: Seq<Object>, i: int, o: Object)
    requires
        0 <= i < h.len(),
    ensures
        heap_view(h.update(i, o)) =~= heap_view(h).update(i, obj_view(o)),
{
}

/// The interner's scan, from entry `i` of the symbol list on: the first
/// interned symbol carrying the text, if any.
pub open spec fn find_interned_at(hv: Seq<ObjView>, syms: Seq<Op>, t: Seq<char>, i: int) -> Option<
    Op,
>
    decreases syms.len() - i,
{
    if i < 0 || i >= syms.len() {
        None
    } else if vis_symbol(hv, syms[i]) && vtext(hv, syms[i]) == t {
        Some(syms[i])
    } else {
        find_interned_at(hv, syms, t, i + 1)
    }
}

/// The interner's step: the existing symbol when the text is interned, else
/// a fresh symbol appended to the store and remembered.
pub open spec fn intern_v(hv: Seq<ObjView>, syms: Seq<Op>, t: Seq<char>) -> (
    Seq<ObjView>,
    Seq<Op>,
    Op,
) {
    match find_interned_at(hv, syms, t, 0) {
        Some(s) => (hv, syms, s),
        None => (
            hv.push(ObjView::Symbol(t)),
            syms.push(Op::Ref(hv.len() as usize)),
            Op::Ref(hv.len() as usize),
        ),
    }
}

/// Every handle held inside an object points inside the arena.
pub open spec fn wf_obj(h: Seq<Object>, obj: Object) -> bool {
    match obj {
        Object::Pair { head, tail } => valid_op(h, head) && valid_op(h, tail),
        Object::Expr { def, env } => valid_op(h, def) && valid_op(h, env),
        _ => true,
    }
}

impl Engine {
    /// Well-formedness: all stored handles point inside the arena, the
    /// interner's list holds exactly the live `Symbol` allocations, their
    /// texts are pairwise distinct, and the global-frame handle is valid.
    pub open spec fn wf(self) -> bool {
        &&& forall|i: int|
            0 <= i < self.heap@.len() ==> wf_obj(self.heap@, #[trigger] self.heap@[i])
        &&& forall|j: int|
            0 <= j < self.symbols@.len() ==> is_symbol_at(self.heap@, #[trigger] self.symbols@[j])
        &&& forall|i: int|
            0 <= i < self.heap@.len() && #[trigger] self.heap@[i] is Symbol
                ==> self.symbols@.contains(Op::Ref(i as usize))
        &&& forall|j1: int, j2: int|
            #![trigger self.symbols@[j1], self.symbols@[j2]]
            0 <= j1 < self.symbols@.len() && 0 <= j2 < self.symbols@.len()
                && text_at(self.heap@, self.symbols@[j1]) == text_at(self.heap@, self.symbols@[j2])
                ==> j1 == j2
        &&& valid_op(self.heap@, self.globals)
    }

    /// A fully initialised engine: well-formed with a global frame in place.
    pub open spec fn ready(self) -> bool {
        self.wf() && is_pair_at(self.heap@, self.globals)
    }

    /// Some interned symbol carries this text.
    pub open spec fn has_interned(self, t: Seq<char>) -> bool {
        exists|j: int|
            0 <= j < self.symbols@.len() && text_at(self.heap@, #[trigger] self.symbols@[j]) == t
    }

    pub fn new() -> (e: Engine)
        ensures
            e.wf(),
            e.heap@.len() == 0,
            e.symbols@.len() == 0,
            e.globals is Null,
    {
        Engine { heap: Vec::new(), symbols: Vec::new(), globals: Op::Null }
    }

    /// Append one non-symbol object to the arena; every older handle keeps
    /// its meaning.  Symbols are allocated only through `intern`.
    fn allocate(&mut self, obj: Object) -> (r: Op)
        requires
            old(self).wf(),
            wf_obj(old(self).heap@, obj),
            !(obj is Symbol),
        ensures
            final(self).wf(),
            final(self).heap@ == old(self).heap@.push(obj),
            final(self).symbols@ == old(self).symbols@,
            final(self).globals == old(self).globals,
            r == Op::Ref(old(self).heap@.len() as usize),
            old(self).heap@.len() < usize::MAX,
            forall|o: Op|
                is_pair_at(old(self).heap@, o) ==> #[trigger] is_pair_at(final(self).heap@, o),
            forall|o: Op|
                is_expr_at(old(self).heap@, o) ==> #[trigger] is_expr_at(final(self).heap@, o),
    {
        let idx = self.heap.len();
        self.heap.push(obj);
        let n2: usize = self.heap.len();
        proof {
            assert(self.heap@.len() == n2);
            let h0 = old(self).heap@;
            let h1 = self.heap@;
            assert forall|i: int| 0 <= i < h1.len() implies wf_obj(h1, #[trigger] h1[i]) by {
                if i < h0.len() {
                    assert(h1[i] == h0[i]);
                    assert(wf_obj(h0, h0[i]));
                }
            }
            assert forall|j: int| 0 <= j < self.symbols@.len() implies is_symbol_at(
                h1,
                #[trigger] self.symbols@[j],
            ) by {
                assert(is_symbol_at(h0, self.symbols@[j]));
            }
            assert forall|i: int|
                0 <= i < h1.len() && #[trigger] h1[i] is Symbol implies self.symbols@.contains(
                Op::Ref(i as usize),
            ) by {
                assert(i < h0.len() && h0[i] is Symbol);
            }
            assert forall|j1: int, j2: int|
                #![trigger self.symbols@[j1], self.symbols@[j2]]
                0 <= j1 < self.symbols@.len() && 0 <= j2 < self.symbols@.len() && text_at(
                    h1,
                    self.symbols@[j1],
                ) == text_at(h1, self.symbols@[j2]) implies j1 == j2 by {
                assert(is_symbol_at(h0, self.symbols@[j1]));
                assert(is_symbol_at(h0, self.symbols@[j2]));
                assert(text_at(h1, self.symbols@[j1]) == text_at(h0, self.symbols@[j1]));
                assert(text_at(h1, self.symbols@[j2]) == text_at(h0, self.symbols@[j2]));
            }
            assert forall|o: Op| is_pair_at(h0, o) implies #[trigger] is_pair_at(h1, o) by {
                assert(h1[o.spec_idx()] == h0[o.spec_idx()]);
            }
            assert forall|o: Op| is_expr_at(h0, o) implies #[trigger] is_expr_at(h1, o) by {
                assert(h1[o.spec_idx()] == h0[o.spec_idx()]);
            }
        }
        Op::Ref(idx)
    }
}

impl Op {
    /// Allocate an integer object.
    pub fn long(e: &mut Engine, n: i64) -> (r: Op)
        requires
            old(e).wf(),
        ensures
            final(e).wf(),
            final(e).heap@ == old(e).heap@.push(Object::Long(n)),
            final(e).symbols@ == old(e).symbols@,
            final(e).globals == old(e).globals,
            r == Op::Ref(old(e).heap@.len() as usize),
            old(e).heap@.len() < usize::MAX,
            forall|o: Op| is_pair_at(old(e).heap@, o) ==> #[trigger] is_pair_at(final(e).heap@, o),
            forall|o: Op| is_expr_at(old(e).heap@, o) ==> #[trigger] is_expr_at(final(e).heap@, o),
    {
        e.allocate(Object::Long(n))
    }

    /// Allocate a cons cell.
    pub fn pair(e: &mut Engine, head: Op, tail: Op) -> (r: Op)
        requires
            old(e).wf(),
            valid_op(old(e).heap@, head),
            valid_op(old(e).heap@, tail),
        ensures
            final(e).wf(),
            final(e).heap@ == old(e).heap@.push(Object::Pair { head, tail }),
            final(e).symbols@ == old(e).symbols@,
            final(e).globals == old(e).globals,
            r == Op::Ref(old(e).heap@.len() as usize),
            old(e).heap@.len() < usize::MAX,
            forall|o: Op| is_pair_at(old(e).heap@, o) ==> #[trigger] is_pair_at(final(e).heap@, o),
            forall|o: Op| is_expr_at(old(e).heap@, o) ==> #[trigger] is_expr_at(final(e).heap@, o),
    {
        e.allocate(Object::Pair { head, tail })
    }

    /// Allocate a closure object.
    pub fn expr(e: &mut Engine, def: Op, env: Op) -> (r: Op)
        requires
            old(e).wf(),
            valid_op(old(e).heap@, def),
            valid_op(old(e).heap@, env),
        ensures
            final(e).wf(),
            final(e).heap@ == old(e).heap@.push(Object::Expr { def, env }),
            final(e).symbols@ == old(e).symbols@,
            final(e).globals == old(e).globals,
            r == Op::Ref(old(e).heap@.len() as usize),
            old(e).heap@.len() < usize::MAX,
            forall|o: Op| is_pair_at(old(e).heap@, o) ==> #[trigger] is_pair_at(final(e).heap@, o),
            forall|o: Op| is_expr_at(old(e).heap@, o) ==> #[trigger] is_expr_at(final(e).heap@, o),
    {
        e.allocate(Object::Expr { def, env })
    }

    /// Allocate a built-in routine object.
    pub fn subr(e: &mut Engine, imp: Prim, name: Vec<char>, is_fixed: bool) -> (r: Op)
        requires
            old(e).wf(),
        ensures
            final(e).wf(),
            final(e).heap@ == old(e).heap@.push(Object::Subr { imp, name, is_fixed }),
            final(e).symbols@ == old(e).symbols@,
            final(e).globals == old(e).globals,
            r == Op::Ref(old(e).heap@.len() as usize),
            old(e).heap@.len() < usize::MAX,
            forall|o: Op| is_pair_at(old(e).heap@, o) ==> #[trigger] is_pair_at(final(e).heap@, o),
            forall|o: Op| is_expr_at(old(e).heap@, o) ==> #[trigger] is_expr_at(final(e).heap@, o),
    {
        e.allocate(Object::Subr { imp, name, is_fixed })
    }

    pub fn is_long(&self, e: &Engine) -> (r: bool)
        requires
            valid_op(e.heap@, *self),
        ensures
            r == is_long_at(e.heap@, *self),
    {
        match *self {
            Op::Null => false,
            Op::Ref(i) => matches!(e.heap[i], Object::Long(..)),
        }
    }

    pub fn is_symbol(&self, e: &Engine) -> (r: bool)
        requires
            valid_op(e.heap@, *self),
        ensures
            r == is_symbol_at(e.heap@, *self),
    {
        match *self {
            Op::Null => false,
            Op::Ref(i) => matches!(e.heap[i], Object::Symbol { .. }),
        }
    }

    pub fn is_pair(&self, e: &Engine) -> (r: bool)
        requires
            valid_op(e.heap@, *self),
        ensures
            r == is_pair_at(e.heap@, *self),
    {
        match *self {
            Op::Null => false,
            Op::Ref(i) => matches!(e.heap[i], Object::Pair { .. }),
        }
    }

    pub fn is_expr(&self, e: &Engine) -> (r: bool)
        requires
            valid_op(e.heap@, *self),
        ensures
            r == is_expr_at(e.heap@, *self),
    {
        match *self {
            Op::Null => false,
            Op::Ref(i) => matches!(e.heap[i], Object::Expr { .. }),
        }
    }

    pub fn is_subr(&self, e: &Engine) -> (r: bool)
        requires
            valid_op(e.heap@, *self),
        ensures
            r == is_subr_at(e.heap@, *self),
    {
        match *self {
            Op::Null => false,
            Op::Ref(i) => matches!(e.heap[i], Object::Subr { .. }),
        }
    }

    pub fn get_long(&self, e: &Engine) -> (r: i64)
        requires
            is_long_at(e.heap@, *self),
        ensures
            r == long_at(e.heap@, *self),
    {
        match *self {
            Op::Null => 0,
            Op::Ref(i) => match &e.heap[i] {
                Object::Long(n) => *n,
                _ => 0,
            },
        }
    }

    pub fn get_head(&self, e: &Engine) -> (r: Op)
        requires
            e.wf(),
            is_pair_at(e.heap@, *self),
        ensures
            r == car_s(e.heap@, *self),
            valid_op(e.heap@, r),
    {
        match *self {
            Op::Null => Op::Null,
            Op::Ref(i) => match &e.heap[i] {
                Object::Pair { head, .. } => *head,
                _ => Op::Null,
            },
        }
    }

    pub fn get_tail(&self, e: &Engine) -> (r: Op)
        requires
            e.wf(),
            is_pair_at(e.heap@, *self),
        ensures
            r == cdr_s(e.heap@, *self),
            valid_op(e.heap@, r),
    {
        match *self {
            Op::Null => Op::Null,
            Op::Ref(i) => match &e.heap[i] {
                Object::Pair { tail, .. } => *tail,
                _ => Op::Null,
            },
        }
    }

    pub fn get_def(&self, e: &Engine) -> (r: Op)
        requires
            e.wf(),
            is_expr_at(e.heap@, *self),
        ensures
            r == expr_def_s(e.heap@, *self),
            valid_op(e.heap@, r),
    {
        match *self {
            Op::Null => Op::Null,
            Op::Ref(i) => match &e.heap[i] {
                Object::Expr { def, .. } => *def,
                _ => Op::Null,
            },
        }
    }

    pub fn get_env(&self, e: &Engine) -> (r: Op)
        requires
            e.wf(),
            is_expr_at(e.heap@, *self),
        ensures
            r == expr_env_s(e.heap@, *self),
            valid_op(e.heap@, r),
    {
        match *self {
            Op::Null => Op::Null,
            Op::Ref(i) => match &e.heap[i] {
                Object::Expr { env, .. } => *env,
                _ => Op::Null,
            },
        }
    }

    pub fn get_imp(&self, e: &Engine) -> (r: Prim)
        requires
            is_subr_at(e.heap@, *self),
        ensures
            r == subr_imp_s(e.heap@, *self),
    {
        match *self {
            Op::Null => Prim::Apply,
            Op::Ref(i) => match &e.heap[i] {
                Object::Subr { imp, .. } => *imp,
                _ => Prim::Apply,
            },
        }
    }

    pub fn get_is_fixed(&self, e: &Engine) -> (r: bool)
        requires
            is_subr_at(e.heap@, *self),
        ensures
            r == subr_fixed_s(e.heap@, *self),
    {
        match *self {
            Op::Null => false,
            Op::Ref(i) => match &e.heap[i] {
                Object::Subr { is_fixed, .. } => *is_fixed,
                _ => false,
            },
        }
    }
}

/// After a single in-place rewrite of a non-symbol cell, every interner
/// invariant still holds: the symbol cells are untouched.
proof fn lemma_wf_after_update(e0: Engine, e1: Engine, i: int)
    requires
        e0.wf(),
        0 <= i < e0.heap@.len(),
        !(e0.heap@[i] is Symbol),
        !(e1.heap@[i] is Symbol),
        e1.heap@.len() == e0.heap@.len(),
        e1.symbols@ == e0.symbols@,
        e1.globals == e0.globals,
        forall|k: int| 0 <= k < e0.heap@.len() && k != i ==> e1.heap@[k] == e0.heap@[k],
        wf_obj(e1.heap@, e1.heap@[i]),
    ensures
        e1.wf(),
{
    let h0 = e0.heap@;
    let h1 = e1.heap@;
    assert forall|k: int| 0 <= k < h1.len() implies wf_obj(h1, #[trigger] h1[k]) by {
        if k != i {
            assert(h1[k] == h0[k]);
            assert(wf_obj(h0, h0[k]));
        }
    }
    assert forall|j: int| 0 <= j < e1.symbols@.len() implies is_symbol_at(
        h1,
        #[trigger] e1.symbols@[j],
    ) by {
        assert(is_symbol_at(h0, e0.symbols@[j]));
        assert(e0.symbols@[j].spec_idx() != i);
    }
    assert forall|k: int|
        0 <= k < h1.len() && #[trigger] h1[k] is Symbol implies e1.symbols@.contains(
        Op::Ref(k as usize),
    ) by {
        assert(k != i);
        assert(h0[k] is Symbol);
    }
    assert forall|j1: int, j2: int|
        #![trigger e1.symbols@[j1], e1.symbols@[j2]]
        0 <= j1 < e1.symbols@.len() && 0 <= j2 < e1.symbols@.len() && text_at(
            h1,
            e1.symbols@[j1],
        ) == text_at(h1, e1.symbols@[j2]) implies j1 == j2 by {
        assert(is_symbol_at(h0, e0.symbols@[j1]));
        assert(is_symbol_at(h0, e0.symbols@[j2]));
        assert(e0.symbols@[j1].spec_idx() != i && e0.symbols@[j2].spec_idx() != i);
        assert(text_at(h1, e1.symbols@[j1]) == text_at(h0, e0.symbols@[j1]));
        assert(text_at(h1, e1.symbols@[j2]) == text_at(h0, e0.symbols@[j2]));
    }
}

impl Op {
    /// Rewrite the head of a pair cell in place.
    pub fn set_head(&self, e: &mut Engine, v: Op)
        requires
            old(e).wf(),
            is_pair_at(old(e).heap@, *self),
            valid_op(old(e).heap@, v),
        ensures
            final(e).wf(),
            final(e).heap@ == old(e).heap@.update(
                self.spec_idx(),
                Object::Pair { head: v, tail: cdr_s(old(e).heap@, *self) },
            ),
            final(e).symbols@ == old(e).symbols@,
            final(e).globals == old(e).globals,
            forall|o: Op|
                is_pair_at(old(e).heap@, o) ==> #[trigger] is_pair_at(final(e).heap@, o),
            forall|o: Op|
                is_expr_at(old(e).heap@, o) ==> #[trigger] is_expr_at(final(e).heap@, o),
    {
        let t = self.get_tail(e);
        match *self {
            Op::Null => (),
            Op::Ref(i) => {
                e.heap[i] = Object::Pair { head: v, tail: t };
                proof {
                    lemma_wf_after_update(*old(e), *e, i as int);
                    assert forall|o: Op| is_pair_at(old(e).heap@, o) implies #[trigger] is_pair_at(
                        e.heap@,
                        o,
                    ) by {
                        if o.spec_idx() != i as int {
                            assert(e.heap@[o.spec_idx()] == old(e).heap@[o.spec_idx()]);
                        }
                    }
                    assert forall|o: Op| is_expr_at(old(e).heap@, o) implies #[trigger] is_expr_at(
                        e.heap@,
                        o,
                    ) by {
                        if o.spec_idx() != i as int {
                            assert(e.heap@[o.spec_idx()] == old(e).heap@[o.spec_idx()]);
                        }
                    }
                }
            },
        }
    }

    /// Rewrite the tail of a pair cell in place.
    pub fn set_tail(&self, e: &mut Engine, v: Op)
        requires
            old(e).wf(),
            is_pair_at(old(e).heap@, *self),
            valid_op(old(e).heap@, v),
        ensures
            final(e).wf(),
            final(e).heap@ == old(e).heap@.update(
                self.spec_idx(),
                Object::Pair { head: car_s(old(e).heap@, *self), tail: v },
            ),
            final(e).symbols@ == old(e).symbols@,
            final(e).globals == old(e).globals,
            forall|o: Op|
                is_pair_at(old(e).heap@, o) ==> #[trigger] is_pair_at(final(e).heap@, o),
            forall|o: Op|
                is_expr_at(old(e).heap@, o) ==> #[trigger] is_expr_at(final(e).heap@, o),
    {
        let h = self.get_head(e);
        match *self {
            Op::Null => (),
            Op::Ref(i) => {
                e.heap[i] = Object::Pair { head: h, tail: v };
                proof {
                    lemma_wf_after_update(*old(e), *e, i as int);
                    assert forall|o: Op| is_pair_at(old(e).heap@, o) implies #[trigger] is_pair_at(
                        e.heap@,
                        o,
                    ) by {
                        if o.spec_idx() != i as int {
                            assert(e.heap@[o.spec_idx()] == old(e).heap@[o.spec_idx()]);
                        }
                    }
                    assert forall|o: Op| is_expr_at(old(e).heap@, o) implies #[trigger] is_expr_at(
                        e.heap@,
                        o,
                    ) by {
                        if o.spec_idx() != i as int {
                            assert(e.heap@[o.spec_idx()] == old(e).heap@[o.spec_idx()]);
                        }
                    }
                }
            },
        }
    }

    /// Rewrite the captured environment of a closure in place.
    pub fn set_env(&self, e: &mut Engine, v: Op)
        requires
            old(e).wf(),
            is_expr_at(old(e).heap@, *self),
            valid_op(old(e).heap@, v),
        ensures
            final(e).wf(),
            final(e).heap@ == old(e).heap@.update(
                self.spec_idx(),
                Object::Expr { def: expr_def_s(old(e).heap@, *self), env: v },
            ),
            final(e).symbols@ == old(e).symbols@,
            final(e).globals == old(e).globals,
            forall|o: Op|
                is_pair_at(old(e).heap@, o) ==> #[trigger] is_pair_at(final(e).heap@, o),
            forall|o: Op|
                is_expr_at(old(e).heap@, o) ==> #[trigger] is_expr_at(final(e).heap@, o),
    {
        let d = self.get_def(e);
        match *self {
            Op::Null => (),
            Op::Ref(i) => {
                e.heap[i] = Object::Expr { def: d, env: v };
                proof {
                    lemma_wf_after_update(*old(e), *e, i as int);
                    assert forall|o: Op| is_pair_at(old(e).heap@, o) implies #[trigger] is_pair_at(
                        e.heap@,
                        o,
                    ) by {
                        if o.spec_idx() != i as int {
                            assert(e.heap@[o.spec_idx()] == old(e).heap@[o.spec_idx()]);
                        }
                    }
                    assert forall|o: Op| is_expr_at(old(e).heap@, o) implies #[trigger] is_expr_at(
                        e.heap@,
                        o,
                    ) by {
                        if o.spec_idx() != i as int {
                            assert(e.heap@[o.spec_idx()] == old(e).heap@[o.spec_idx()]);
                        }
                    }
                }
            },
        }
    }
}

/// Character-for-character equality of two owned texts.
pub fn chars_eq(a: &Vec<char>, b: &Vec<char>) -> (r: bool)
    ensures
        r == (a@ == b@),
{
    if a.len() != b.len() {
        proof {
            assert(a@.len() != b@.len());
        }
        return false;
    }
    let n = a.len();
    let mut i: usize = 0;
    while i < n
        invariant
            n == a@.len(),
            n == b@.len(),
            0 <= i <= n,
            forall|k: int| 0 <= k < i ==> a@[k] == b@[k],
        decreases n - i,
    {
        if a[i] != b[i] {
            return false;
        }
        i += 1;
    }
    proof {
        assert(a@ =~= b@);
    }
    true
}

/// Whether the symbol at `o` carries exactly the text `s`.
fn sym_text_is(e: &Engine, o: Op, s: &Vec<char>) -> (r: bool)
    requires
        is_symbol_at(e.heap@, o),
    ensures
        r == (text_at(e.heap@, o) == s@),
{
    match o {
        Op::Null => false,
        Op::Ref(i) => match &e.heap[i] {
            Object::Symbol { s: t } => chars_eq(t, s),
            _ => false,
        },
    }
}

impl Engine {
    /// Canonicalize an identifier: return the existing symbol with this text
    /// if one is interned, else allocate a new one and remember it.  The
    /// returned handle is the one handle that ever carries this text.
    pub fn intern(&mut self, s: Vec<char>) -> (r: Op)
        requires
            old(self).wf(),
        ensures
            final(self).wf(),
            is_symbol_at(final(self).heap@, r),
            text_at(final(self).heap@, r) == s@,
            final(self).symbols@.contains(r),
            final(self).globals == old(self).globals,
            old(self).heap@.len() <= final(self).heap@.len(),
            forall|i: int|
                0 <= i < old(self).heap@.len() ==> final(self).heap@[i] == old(self).heap@[i],
            old(self).has_interned(s@) ==> *final(self) == *old(self),
            old(self).symbols@.is_prefix_of(final(self).symbols@),
            !old(self).has_interned(s@) ==> final(self).heap@ == old(self).heap@.push(
                Object::Symbol { s },
            ) && r == Op::Ref(old(self).heap@.len() as usize),
            !old(self).has_interned(s@) ==> old(self).heap@.len() < usize::MAX,
            (heap_view(final(self).heap@), final(self).symbols@, r) == intern_v(
                heap_view(old(self).heap@),
                old(self).symbols@,
                s@,
            ),
    {
        let n = self.symbols.len();
        let mut j: usize = 0;
        while j < n
            invariant
                self.wf(),
                *self == *old(self),
                n == self.symbols@.len(),
                0 <= j <= n,
                forall|k: int| 0 <= k < j ==> text_at(self.heap@, #[trigger] self.symbols@[k]) != s@,
            decreases n - j,
        {
            let cand = self.symbols[j];
            proof {
                assert(is_symbol_at(self.heap@, cand));
            }
            if sym_text_is(self, cand, &s) {
                proof {
                    assert(self.symbols@.contains(cand)) by {
                        assert(self.symbols@[j as int] == cand);
                    }
                    assert(self.has_interned(s@)) by {
                        assert(text_at(self.heap@, self.symbols@[j as int]) == s@);
                    }
                    let hv = heap_view(self.heap@);
                    assert forall|k: int| 0 <= k < j implies !(vis_symbol(hv, #[trigger] self.symbols@[k])
                        && vtext(hv, self.symbols@[k]) == s@) by {
                        assert(text_at(self.heap@, self.symbols@[k]) != s@);
                    }
                    lemma_find_interned_from(hv, self.symbols@, s@, j as int);
                    assert(vis_symbol(hv, cand) && vtext(hv, cand) == s@);
                    assert(find_interned_at(hv, self.symbols@, s@, j as int) == Some(cand));
                }
                return cand;
            }
            j += 1;
        }
        proof {
            assert(!old(self).has_interned(s@));
            let hv = heap_view(self.heap@);
            assert forall|k: int| 0 <= k < n implies !(vis_symbol(hv, #[trigger] self.symbols@[k])
                && vtext(hv, self.symbols@[k]) == s@) by {
                assert(text_at(self.heap@, self.symbols@[k]) != s@);
            }
            lemma_find_interned_from(hv, self.symbols@, s@, n as int);
            assert(find_interned_at(hv, self.symbols@, s@, n as int) is None);
        }
        let idx = self.heap.len();
        self.heap.push(Object::Symbol { s });
        self.symbols.push(Op::Ref(idx));
        let n2: usize = self.heap.len();
        proof {
            assert(self.heap@.len() == n2);
            let h0 = old(self).heap@;
            let h1 = self.heap@;
            let s0 = old(self).symbols@;
            let s1 = self.symbols@;
            assert(s1 == s0.push(Op::Ref(idx)));
            assert forall|i: int| 0 <= i < h1.len() implies wf_obj(h1, #[trigger] h1[i]) by {
                if i < h0.len() {
                    assert(h1[i] == h0[i]);
                    assert(wf_obj(h0, h0[i]));
                }
            }
            assert forall|k: int| 0 <= k < s1.len() implies is_symbol_at(h1, #[trigger] s1[k]) by {
                if k < s0.len() {
                    assert(s1[k] == s0[k]);
                    assert(is_symbol_at(h0, s0[k]));
                } else {
                    assert(s1[k] == Op::Ref(idx));
                }
            }
            assert forall|i: int|
                0 <= i < h1.len() && #[trigger] h1[i] is Symbol implies s1.contains(
                Op::Ref(i as usize),
            ) by {
                if i < h0.len() {
                    assert(h0[i] is Symbol);
                    assert(s0.contains(Op::Ref(i as usize)));
                    let w = choose|w: int| 0 <= w < s0.len() && s0[w] == Op::Ref(i as usize);
                    assert(s1[w] == Op::Ref(i as usize));
                } else {
                    assert(s1[s0.len() as int] == Op::Ref(i as usize));
                }
            }
            assert forall|j1: int, j2: int|
                #![trigger s1[j1], s1[j2]]
                0 <= j1 < s1.len() && 0 <= j2 < s1.len() && text_at(h1, s1[j1]) == text_at(
                    h1,
                    s1[j2],
                ) implies j1 == j2 by {
                if j1 < s0.len() && j2 < s0.len() {
                    assert(is_symbol_at(h0, s0[j1]));
                    assert(is_symbol_at(h0, s0[j2]));
                    assert(text_at(h1, s1[j1]) == text_at(h0, s0[j1]));
                    assert(text_at(h1, s1[j2]) == text_at(h0, s0[j2]));
                } else if j1 < s0.len() {
                    assert(is_symbol_at(h0, s0[j1]));
                    assert(text_at(h1, s1[j1]) == text_at(h0, s0[j1]));
                    assert(text_at(h1, s1[j2]) == s@);
                    assert(text_at(h0, s0[j1]) != s@);
                } else if j2 < s0.len() {
                    assert(is_symbol_at(h0, s0[j2]));
                    assert(text_at(h1, s1[j2]) == text_at(h0, s0[j2]));
                    assert(text_at(h1, s1[j1]) == s@);
                    assert(text_at(h0, s0[j2]) != s@);
                }
            }
            assert(self.symbols@.contains(Op::Ref(idx))) by {
                assert(self.symbols@[s0.len() as int] == Op::Ref(idx));
            }
            lemma_heap_view_push(h0, Object::Symbol { s });
            assert(heap_view(self.heap@) =~= heap_view(h0).push(ObjView::Symbol(s@)));
        }
        Op::Ref(idx)
    }
}

/// A scan that found no match before entry `j` finds the same symbol as a
/// scan from the start.
proof fn lemma_find_interned_from(hv: Seq<ObjView>, syms: Seq<Op>, t: Seq<char>, j: int)
    requires
        0 <= j <= syms.len(),
        forall|k: int|
            0 <= k < j ==> !(vis_symbol(hv, #[trigger] syms[k]) && vtext(hv, syms[k]) == t),
    ensures
        find_interned_at(hv, syms, t, 0) == find_interned_at(hv, syms, t, j),
    decreases j,
{
    if j > 0 {
        lemma_find_interned_from(hv, syms, t, j - 1);
        assert(find_interned_at(hv, syms, t, j - 1) == find_interned_at(hv, syms, t, j));
    }
}

/// The characters of a string slice, as an owned vector.
pub fn chars_of(s: &str) -> (r: Vec<char>)
    ensures
        r@ == s@,
{
    let n = s.unicode_len();
    let mut r: Vec<char> = Vec::new();
    let mut i: usize = 0;
    while i < n
        invariant
            n == s@.len(),
            0 <= i <= n,
            r@ == s@.take(i as int),
        decreases n - i,
    {
        let c = s.get_char(i);
        r.push(c);
        proof {
            assert(r@ =~= s@.take(i + 1));
        }
        i += 1;
    }
    proof {
        assert(s@.take(n as int) =~= s@);
    }
    r
}

/// Interned symbols are unique: in a well-formed engine, two symbol
/// allocations carrying the same text are one and the same allocation, so
/// identifier equality is handle equality.
pub proof fn lemma_interned_symbols_unique(e: Engine, a: Op, b: Op)
    requires
        e.wf(),
        is_symbol_at(e.heap@, a),
        is_symbol_at(e.heap@, b),
        text_at(e.heap@, a) == text_at(e.heap@, b),
    ensures
        a == b,
{
    let ia = a.spec_idx();
    let ib = b.spec_idx();
    assert(e.heap@[ia] is Symbol);
    assert(e.heap@[ib] is Symbol);
    assert(e.symbols@.contains(Op::Ref(ia as usize)));
    assert(e.symbols@.contains(Op::Ref(ib as usize)));
    let ja = choose|j: int| 0 <= j < e.symbols@.len() && e.symbols@[j] == Op::Ref(ia as usize);
    let jb = choose|j: int| 0 <= j < e.symbols@.len() && e.symbols@[j] == Op::Ref(ib as usize);
    assert(text_at(e.heap@, e.symbols@[ja]) == text_at(e.heap@, e.symbols@[jb]));
    assert(ja == jb);
}

} // verus!
