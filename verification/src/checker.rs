//! The state of the type checker and the operations that the constraint generator uses.
use vstd::prelude::*;
use crate::ast::Literal;
use crate::context::{TypeConstraint, TypeConstraintKind, TypeContext};
use crate::error::{ErrorModel, TypeConstraintError, TypeError, error_model, error_models};
use crate::ids::{FunctionId, Identifier, SymbolId, TypeId};
use crate::pretty::table_names_ok;
use crate::resolved::{self, QueryableResolvedItems, Type, type_ok, types_ok, lemma_types_ok_index};
use crate::span::{Span, SpannedItem};
use crate::typed::{Function, TypedExpr, TypedExprKind, expr_ok, function_ok, typed_expr_ty};
use crate::types::{
    PetrType, TypeModel, TypeVariable, all_names_below, all_vars_below, lemma_all_names_below_intro,
    lemma_all_vars_below_index, lemma_all_vars_below_intro, lemma_sum_model, names_below, type_models, vars_below,
};
use crate::unify::table_ok;
use crate::maps::{TypeOrFunctionId, functions_sorted, key_rank, keys_sorted};

verus! {

/// One scope of variables: the symbols of names with the slots of their types. Names
/// are told apart by their symbol alone.
pub type Scope = Vec<(SymbolId, TypeVariable)>;

/// The slot that a name has in a scope, if it has one.
pub open spec fn scope_get(scope: Seq<(SymbolId, TypeVariable)>, id: SymbolId) -> Option<TypeVariable>
    decreases scope.len(),
{
    if scope.len() == 0 {
        None
    } else if scope.last().0 == id {
        Some(scope.last().1)
    } else {
        scope_get(scope.drop_last(), id)
    }
}

/// The slot of a name in the innermost scope that has it.
pub open spec fn scopes_lookup(scopes: Seq<Seq<(SymbolId, TypeVariable)>>, id: SymbolId) -> Option<TypeVariable>
    decreases scopes.len(),
{
    if scopes.len() == 0 {
        None
    } else if scope_get(scopes.last(), id) is Some {
        scope_get(scopes.last(), id)
    } else {
        scopes_lookup(scopes.drop_last(), id)
    }
}

/// The scopes of the checker, each as a sequence.
pub open spec fn scope_models(scopes: Seq<Scope>) -> Seq<Seq<(SymbolId, TypeVariable)>> {
    Seq::new(scopes.len(), |i: int| scopes[i]@)
}

/// Every name in `bound` has a slot in some scope.
pub open spec fn scopes_bind(scopes: Seq<Seq<(SymbolId, TypeVariable)>>, bound: Set<SymbolId>) -> bool {
    forall|id: SymbolId| bound.contains(id) ==> (#[trigger] scopes_lookup(scopes, id)) is Some
}

/// The scopes after are the scopes before, each possibly with more names.
pub open spec fn scopes_grow(before: Seq<Seq<(SymbolId, TypeVariable)>>, after: Seq<Seq<(SymbolId, TypeVariable)>>) -> bool {
    &&& after.len() == before.len()
    &&& forall|s: int, id: SymbolId|
        0 <= s < before.len() && (#[trigger] scope_get(before[s], id)) is Some ==> scope_get(after[s], id) is Some
}

/// `before` is a prefix of `after`.
pub open spec fn extends<T>(before: Seq<T>, after: Seq<T>) -> bool {
    before.len() <= after.len() && after.subrange(0, before.len() as int) == before
}

/// An entry of the type map names an existing declaration and an existing slot.
pub open spec fn map_entry_ok(e: (TypeOrFunctionId, TypeVariable), n: nat, res: &QueryableResolvedItems) -> bool {
    &&& e.1.0 < n
    &&& match e.0 {
        TypeOrFunctionId::TypeId(t) => t.0 < res.types@.len(),
        TypeOrFunctionId::FunctionId(f) => f.0 < res.functions@.len(),
    }
}

/// A function in the type map has its typed form cached.
pub open spec fn key_cached(e: (TypeOrFunctionId, TypeVariable), fns: Seq<(FunctionId, Function)>) -> bool {
    e.0 matches TypeOrFunctionId::FunctionId(f) ==> exists|j: int| 0 <= j < fns.len() && fns[j].0 == f
}

/// A typed function has the name and the parameter names of the resolved function it
/// was made from.
pub open spec fn fn_matches(tf: Function, rf: resolved::Function) -> bool {
    &&& tf.name == rf.name
    &&& tf.params@.len() == rf.params@.len()
    &&& forall|j: int| 0 <= j < tf.params@.len() ==> (#[trigger] tf.params@[j]).0 == rf.params@[j].0
}

/// A cached typed function is sound and was made from the resolved function of its id:
/// same name and parameter names, and a body of the resolved body's shape.
pub open spec fn typed_entry_ok(e: (FunctionId, Function), n: nat, res: &QueryableResolvedItems) -> bool {
    &&& function_ok(e.1, n, res.interner.texts().len())
    &&& e.0.0 < res.functions@.len()
    &&& fn_matches(e.1, res.functions@[e.0.0 as int])
    &&& crate::shape::shaped(res.functions@[e.0.0 as int].body, e.1.body, *res)
}

/// A monomorphized function is sound, and so are the argument types it was made for.
pub open spec fn mono_entry_ok(e: (FunctionId, Vec<PetrType>, Function), n: nat, k: nat) -> bool {
    &&& function_ok(e.2, n, k)
    &&& all_vars_below(type_models(e.1@), n)
    &&& all_names_below(type_models(e.1@), k)
}

/// The state of type checking.
pub struct CheckState {
    pub ctx: TypeContext,
    pub type_map: Vec<(TypeOrFunctionId, TypeVariable)>,
    pub monomorphized_functions: Vec<(FunctionId, Vec<PetrType>, Function)>,
    pub typed_functions: Vec<(FunctionId, Function)>,
    pub errors: Vec<TypeError>,
    pub variable_scope: Vec<Scope>,
}

impl CheckState {
    pub open spec fn n(&self) -> nat {
        self.ctx.types@.len() as nat
    }

    /// The state is consistent with the program it checks: the table is sound, the maps
    /// are ordered by key and mention only existing slots, declarations and symbols, and
    /// every scope gives only existing slots.
    pub open spec fn inv(&self, res: &QueryableResolvedItems) -> bool {
        let n = self.n();
        let k = res.interner.texts().len();
        &&& table_ok(&self.ctx, &res.interner)
        &&& keys_sorted(self.type_map@)
        &&& forall|i: int| 0 <= i < self.type_map@.len() ==> map_entry_ok(#[trigger] self.type_map@[i], n, res)
        &&& forall|i: int|
            0 <= i < self.type_map@.len() ==> key_cached(#[trigger] self.type_map@[i], self.typed_functions@)
        &&& functions_sorted(self.typed_functions@)
        &&& forall|i: int|
            0 <= i < self.typed_functions@.len() ==> typed_entry_ok(#[trigger] self.typed_functions@[i], n, res)
        &&& forall|i: int|
            0 <= i < self.monomorphized_functions@.len() ==> mono_entry_ok(
                #[trigger] self.monomorphized_functions@[i],
                n,
                k,
            )
        &&& forall|s: int, j: int|
            0 <= s < self.variable_scope@.len() && 0 <= j < self.variable_scope@[s]@.len()
                ==> (#[trigger] self.variable_scope@[s]@[j]).1.0 < n
    }

    /// What only grows while constraints are generated: the table keeps its slots and the
    /// constraints and errors keep what they had.
    pub open spec fn grows_to(&self, after: &CheckState) -> bool {
        &&& extends(self.ctx.tys(), after.ctx.tys())
        &&& extends(self.ctx.constraints@, after.ctx.constraints@)
        &&& extends(error_models(self.errors@), error_models(after.errors@))
        &&& after.ctx.same_primitives(self.ctx)
    }

    pub open spec fn scopes(&self) -> Seq<Seq<(SymbolId, TypeVariable)>> {
        scope_models(self.variable_scope@)
    }
}

pub proof fn lemma_grows_refl(st: &CheckState)
    ensures
        st.grows_to(st),
{
    assert(st.ctx.tys().subrange(0, st.ctx.tys().len() as int) =~= st.ctx.tys());
    assert(st.ctx.constraints@.subrange(0, st.ctx.constraints@.len() as int) =~= st.ctx.constraints@);
    assert(error_models(st.errors@).subrange(0, error_models(st.errors@).len() as int) =~= error_models(st.errors@));
}

pub proof fn lemma_grows_trans(a: &CheckState, b: &CheckState, c: &CheckState)
    requires
        a.grows_to(b),
        b.grows_to(c),
    ensures
        a.grows_to(c),
{
    assert(c.ctx.tys().subrange(0, a.ctx.tys().len() as int) =~= b.ctx.tys().subrange(0, a.ctx.tys().len() as int));
    assert(c.ctx.constraints@.subrange(0, a.ctx.constraints@.len() as int) =~= b.ctx.constraints@.subrange(
        0,
        a.ctx.constraints@.len() as int,
    ));
    assert(error_models(c.errors@).subrange(0, error_models(a.errors@).len() as int) =~= error_models(
        b.errors@,
    ).subrange(0, error_models(a.errors@).len() as int));
}

pub proof fn lemma_scopes_grow_refl(s: Seq<Seq<(SymbolId, TypeVariable)>>)
    ensures
        scopes_grow(s, s),
{
}

pub proof fn lemma_scopes_grow_trans(
    a: Seq<Seq<(SymbolId, TypeVariable)>>,
    b: Seq<Seq<(SymbolId, TypeVariable)>>,
    c: Seq<Seq<(SymbolId, TypeVariable)>>,
)
    requires
        scopes_grow(a, b),
        scopes_grow(b, c),
    ensures
        scopes_grow(a, c),
{
}

/// A name found in a scope keeps being found when scopes only gain names.
pub proof fn lemma_scopes_lookup_grow(
    before: Seq<Seq<(SymbolId, TypeVariable)>>,
    after: Seq<Seq<(SymbolId, TypeVariable)>>,
    id: SymbolId,
)
    requires
        scopes_grow(before, after),
        scopes_lookup(before, id) is Some,
    ensures
        scopes_lookup(after, id) is Some,
    decreases before.len(),
{
    let last = before.len() - 1;
    if scope_get(before.last(), id) is Some {
        assert(scope_get(after[last], id) is Some);
    } else {
        let b2 = before.drop_last();
        let a2 = after.drop_last();
        assert forall|s: int, i: SymbolId|
            0 <= s < b2.len() && (#[trigger] scope_get(b2[s], i)) is Some implies scope_get(a2[s], i) is Some by {
            assert(b2[s] == before[s]);
            assert(a2[s] == after[s]);
        }
        lemma_scopes_lookup_grow(b2, a2, id);
        if scope_get(after.last(), id) is None {
            assert(scopes_lookup(after, id) == scopes_lookup(a2, id));
        }
    }
}

pub proof fn lemma_scopes_bind_grow(
    before: Seq<Seq<(SymbolId, TypeVariable)>>,
    after: Seq<Seq<(SymbolId, TypeVariable)>>,
    bound: Set<SymbolId>,
)
    requires
        scopes_grow(before, after),
        scopes_bind(before, bound),
    ensures
        scopes_bind(after, bound),
{
    assert forall|id: SymbolId| bound.contains(id) implies (#[trigger] scopes_lookup(after, id)) is Some by {
        lemma_scopes_lookup_grow(before, after, id);
    }
}

/// The slot that a lookup finds is one of the slots that the scopes hold.
pub proof fn lemma_scopes_lookup_member(scopes: Seq<Seq<(SymbolId, TypeVariable)>>, id: SymbolId)
    requires
        scopes_lookup(scopes, id) is Some,
    ensures
        exists|s: int, j: int|
            0 <= s < scopes.len() && 0 <= j < scopes[s].len() && scopes[s][j].1 == scopes_lookup(scopes, id)->Some_0,
    decreases scopes.len(),
{
    let last = scopes.len() - 1;
    if scope_get(scopes.last(), id) is Some {
        lemma_scope_get_member(scopes.last(), id);
        let j = choose|j: int| 0 <= j < scopes.last().len() && scopes.last()[j].1 == scope_get(scopes.last(), id)->Some_0;
        assert(scopes[last][j].1 == scopes_lookup(scopes, id)->Some_0);
    } else {
        let rest = scopes.drop_last();
        lemma_scopes_lookup_member(rest, id);
        let (s, j) = choose|s: int, j: int|
            0 <= s < rest.len() && 0 <= j < rest[s].len() && rest[s][j].1 == scopes_lookup(rest, id)->Some_0;
        assert(scopes[s][j] == rest[s][j]);
    }
}

pub proof fn lemma_scope_get_member(scope: Seq<(SymbolId, TypeVariable)>, id: SymbolId)
    requires
        scope_get(scope, id) is Some,
    ensures
        exists|j: int| 0 <= j < scope.len() && scope[j].1 == scope_get(scope, id)->Some_0,
    decreases scope.len(),
{
    if scope.last().0 == id {
        assert(scope[scope.len() - 1].1 == scope_get(scope, id)->Some_0);
    } else {
        lemma_scope_get_member(scope.drop_last(), id);
        let j = choose|j: int| 0 <= j < scope.drop_last().len() && scope.drop_last()[j].1 == scope_get(scope.drop_last(), id)->Some_0;
        assert(scope[j] == scope.drop_last()[j]);
    }
}

/// The slot of `id` in one scope.
fn scope_find(scope: &Scope, id: SymbolId) -> (r: Option<TypeVariable>)
    ensures
        r == scope_get(scope@, id),
{
    let mut i: usize = scope.len();
    assert(scope@.subrange(0, i as int) =~= scope@);
    while i > 0
        invariant
            i <= scope@.len(),
            scope_get(scope@, id) == scope_get(scope@.subrange(0, i as int), id),
        decreases i,
    {
        let ghost pre = scope@.subrange(0, i as int);
        assert(pre.drop_last() =~= scope@.subrange(0, i - 1));
        if scope[i - 1].0 == id {
            return Some(scope[i - 1].1);
        }
        i -= 1;
    }
    None
}

/// Puts `id` with slot `ty` into a scope, replacing the slot it had.
fn scope_insert(scope: &mut Scope, id: SymbolId, ty: TypeVariable)
    ensures
        scope_get(final(scope)@, id) == Some(ty),
        forall|other: SymbolId| other != id ==> scope_get(final(scope)@, other) == scope_get(old(scope)@, other),
        forall|j: int| 0 <= j < final(scope)@.len() ==> (#[trigger] final(scope)@[j]).1 == ty || exists|i: int|
            0 <= i < old(scope)@.len() && old(scope)@[i] == final(scope)@[j],
{
    let mut i: usize = scope.len();
    while i > 0
        invariant
            i <= scope@.len(),
            *scope == *old(scope),
            forall|j: int| i <= j < scope@.len() ==> scope@[j].0 != id,
        decreases i,
    {
        if scope[i - 1].0 == id {
            let ghost before = scope@;
            scope.set(i - 1, (id, ty));
            proof {
                lemma_scope_get_update(before, i - 1, id, ty);
                assert forall|j: int| 0 <= j < scope@.len() implies (#[trigger] scope@[j]).1 == ty || exists|k: int|
                    0 <= k < before.len() && before[k] == scope@[j] by {
                    if j != i - 1 {
                        assert(before[j] == scope@[j]);
                    }
                }
            }
            return;
        }
        i -= 1;
    }
    let ghost before = scope@;
    scope.push((id, ty));
    proof {
        assert(scope@.drop_last() =~= before);
        assert forall|j: int| 0 <= j < scope@.len() implies (#[trigger] scope@[j]).1 == ty || exists|k: int|
            0 <= k < before.len() && before[k] == scope@[j] by {
            if j < before.len() {
                assert(before[j] == scope@[j]);
            }
        }
    }
}

proof fn lemma_scope_get_update(s: Seq<(SymbolId, TypeVariable)>, i: int, id: SymbolId, ty: TypeVariable)
    requires
        0 <= i < s.len(),
        s[i].0 == id,
        forall|j: int| i < j < s.len() ==> s[j].0 != id,
    ensures
        scope_get(s.update(i, (id, ty)), id) == Some(ty),
        forall|other: SymbolId| other != id ==> scope_get(s.update(i, (id, ty)), other) == scope_get(s, other),
    decreases s.len(),
{
    let t = s.update(i, (id, ty));
    assert(t.drop_last() =~= if i == s.len() - 1 {
        s.drop_last()
    } else {
        s.drop_last().update(i, (id, ty))
    });
    if i < s.len() - 1 {
        assert(s.last() == s[s.len() - 1]);
        assert(t.last() == s.last());
        assert(t.drop_last() =~= s.drop_last().update(i, (id, ty)));
        lemma_scope_get_update(s.drop_last(), i, id, ty);
        assert forall|other: SymbolId| other != id implies scope_get(t, other) == scope_get(s, other) by {
            if s.last().0 != other {
                assert(scope_get(t, other) == scope_get(t.drop_last(), other));
                assert(scope_get(s, other) == scope_get(s.drop_last(), other));
            }
        }
    } else {
        assert(t.last() == (id, ty));
        assert forall|other: SymbolId| other != id implies scope_get(t, other) == scope_get(s, other) by {
            assert(scope_get(t, other) == scope_get(t.drop_last(), other));
            assert(scope_get(s, other) == scope_get(s.drop_last(), other));
        }
    }
}


/// Every `TypeId` below `m` has its entry at the same position of the type map.
pub open spec fn types_mapped(st: &CheckState, m: nat) -> bool {
    &&& st.type_map@.len() >= m
    &&& forall|t: int| 0 <= t < m ==> (#[trigger] st.type_map@[t]).0 == TypeOrFunctionId::TypeId(TypeId(t as usize))
}

impl CheckState {
    /// The maps from declarations to types and functions are the same in both states.
    pub open spec fn same_maps(&self, other: &CheckState) -> bool {
        &&& self.type_map@ == other.type_map@
        &&& self.typed_functions@ == other.typed_functions@
        &&& self.monomorphized_functions@ == other.monomorphized_functions@
    }
}

pub proof fn lemma_extends_push<T>(s: Seq<T>, x: T)
    ensures
        extends(s, s.push(x)),
{
    assert(s.push(x).subrange(0, s.len() as int) =~= s);
}

pub proof fn lemma_extends_refl<T>(s: Seq<T>)
    ensures
        extends(s, s),
{
    assert(s.subrange(0, s.len() as int) =~= s);
}

pub proof fn lemma_all_vars_below_mono(ts: Seq<TypeModel>, n: nat, m: nat)
    requires
        all_vars_below(ts, n),
        n <= m,
    ensures
        all_vars_below(ts, m),
{
    assert forall|i: int| 0 <= i < ts.len() implies vars_below(#[trigger] ts[i], m) by {
        lemma_all_vars_below_index(ts, n, i);
        crate::types::lemma_vars_below_mono(ts[i], n, m);
    }
    lemma_all_vars_below_intro(ts, m);
}

/// A state whose table only grew and whose maps and scopes did not change keeps the
/// invariant.
pub proof fn lemma_inv_frame(a: &CheckState, b: &CheckState, res: &QueryableResolvedItems)
    requires
        a.inv(res),
        table_ok(&b.ctx, &res.interner),
        a.n() <= b.n(),
        b.same_maps(a),
        b.variable_scope@ == a.variable_scope@,
    ensures
        b.inv(res),
{
    lemma_inv_parts(a, b, res);
}

/// The parts of the invariant, each carried from a smaller table to a larger one.
pub proof fn lemma_inv_parts(a: &CheckState, b: &CheckState, res: &QueryableResolvedItems)
    requires
        a.inv(res),
        a.n() <= b.n(),
    ensures
        b.type_map@ == a.type_map@ ==> forall|i: int|
            0 <= i < b.type_map@.len() ==> map_entry_ok(#[trigger] b.type_map@[i], b.n(), res),
        b.typed_functions@ == a.typed_functions@ ==> forall|i: int|
            0 <= i < b.typed_functions@.len() ==> typed_entry_ok(#[trigger] b.typed_functions@[i], b.n(), res),
        b.monomorphized_functions@ == a.monomorphized_functions@ ==> forall|i: int|
            0 <= i < b.monomorphized_functions@.len() ==> mono_entry_ok(
                #[trigger] b.monomorphized_functions@[i],
                b.n(),
                res.interner.texts().len(),
            ),
        b.variable_scope@ == a.variable_scope@ ==> forall|s: int, j: int|
            0 <= s < b.variable_scope@.len() && 0 <= j < b.variable_scope@[s]@.len() ==> (
            #[trigger] b.variable_scope@[s]@[j]).1.0 < b.n(),
        b.type_map@ == a.type_map@ && b.typed_functions@ == a.typed_functions@ ==> forall|i: int|
            0 <= i < b.type_map@.len() ==> key_cached(#[trigger] b.type_map@[i], b.typed_functions@),
{
    let n = b.n();
    let k = res.interner.texts().len();
    if b.typed_functions@ == a.typed_functions@ {
        assert forall|i: int| 0 <= i < b.typed_functions@.len() implies typed_entry_ok(
            #[trigger] b.typed_functions@[i],
            n,
            res,
        ) by {
            assert(typed_entry_ok(a.typed_functions@[i], a.n(), res));
        }
    }
    if b.monomorphized_functions@ == a.monomorphized_functions@ {
        assert forall|i: int| 0 <= i < b.monomorphized_functions@.len() implies mono_entry_ok(
            #[trigger] b.monomorphized_functions@[i],
            n,
            k,
        ) by {
            assert(mono_entry_ok(a.monomorphized_functions@[i], a.n(), k));
            lemma_all_vars_below_mono(type_models(a.monomorphized_functions@[i].1@), a.n(), n);
        }
    }
    if b.type_map@ == a.type_map@ {
        assert forall|i: int| 0 <= i < b.type_map@.len() implies map_entry_ok(#[trigger] b.type_map@[i], n, res) by {
            assert(map_entry_ok(a.type_map@[i], a.n(), res));
        }
    }
    if b.variable_scope@ == a.variable_scope@ {
        assert forall|s: int, j: int|
            0 <= s < b.variable_scope@.len() && 0 <= j < b.variable_scope@[s]@.len() implies (
            #[trigger] b.variable_scope@[s]@[j]).1.0 < n by {
            assert(a.variable_scope@[s]@[j].1.0 < a.n());
        }
    }
}

impl CheckState {
    /// A state with only the primitive types and nothing else.
    pub(crate) fn new(res: &QueryableResolvedItems) -> (r: CheckState)
        ensures
            r.inv(res),
            r.ctx.tys() == seq![
                TypeModel::Unit,
                TypeModel::String,
                TypeModel::Boolean,
                TypeModel::Integer,
                TypeModel::ErrorRecovery,
            ],
            r.ctx.constraints@.len() == 0,
            r.type_map@.len() == 0,
            r.typed_functions@.len() == 0,
            r.monomorphized_functions@.len() == 0,
            r.errors@.len() == 0,
            r.variable_scope@.len() == 0,
    {
        CheckState {
            ctx: TypeContext::new(),
            type_map: Vec::new(),
            monomorphized_functions: Vec::new(),
            typed_functions: Vec::new(),
            errors: Vec::new(),
            variable_scope: Vec::new(),
        }
    }

    /// A fresh inference variable.
    pub(crate) fn fresh_ty_var(&mut self, res: &QueryableResolvedItems, span: Span) -> (r: TypeVariable)
        requires
            old(self).inv(res),
        ensures
            final(self).inv(res),
            old(self).grows_to(final(self)),
            r.0 == old(self).n(),
            final(self).ctx.tys() == old(self).ctx.tys().push(TypeModel::Infer(r.0, span)),
            final(self).ctx.constraints@ == old(self).ctx.constraints@,
            final(self).errors@ == old(self).errors@,
            final(self).same_maps(old(self)),
            final(self).variable_scope@ == old(self).variable_scope@,
    {
        let ghost before = *self;
        let r = self.ctx.new_variable(span);
        proof {
            assert(table_names_ok(self.ctx.tys(), res.interner.texts().len())) by {
                assert forall|i: int| 0 <= i < self.ctx.tys().len() implies names_below(
                    #[trigger] self.ctx.tys()[i],
                    res.interner.texts().len(),
                ) by {
                    if i < before.ctx.tys().len() {
                        assert(self.ctx.tys()[i] == before.ctx.tys()[i]);
                    }
                }
            }
            lemma_inv_frame(&before, self, res);
            lemma_extends_push(before.ctx.tys(), TypeModel::Infer(r.0, span));
            lemma_extends_refl(before.ctx.constraints@);
            lemma_extends_refl(error_models(before.errors@));
        }
        r
    }

    /// Appends a type to the table.
    pub(crate) fn insert_type(&mut self, res: &QueryableResolvedItems, ty: PetrType) -> (r: TypeVariable)
        requires
            old(self).inv(res),
            vars_below(ty@, old(self).n()),
            names_below(ty@, res.interner.texts().len()),
        ensures
            final(self).inv(res),
            old(self).grows_to(final(self)),
            r.0 == old(self).n(),
            final(self).ctx.tys() == old(self).ctx.tys().push(ty@),
            final(self).ctx.constraints@ == old(self).ctx.constraints@,
            final(self).errors@ == old(self).errors@,
            final(self).same_maps(old(self)),
            final(self).variable_scope@ == old(self).variable_scope@,
    {
        let ghost before = *self;
        let ghost m = ty@;
        let r = self.ctx.insert(ty);
        proof {
            assert(table_names_ok(self.ctx.tys(), res.interner.texts().len())) by {
                assert forall|i: int| 0 <= i < self.ctx.tys().len() implies names_below(
                    #[trigger] self.ctx.tys()[i],
                    res.interner.texts().len(),
                ) by {
                    if i < before.ctx.tys().len() {
                        assert(self.ctx.tys()[i] == before.ctx.tys()[i]);
                    }
                }
            }
            lemma_inv_frame(&before, self, res);
            lemma_extends_push(before.ctx.tys(), m);
            lemma_extends_refl(before.ctx.constraints@);
            lemma_extends_refl(error_models(before.errors@));
        }
        r
    }

    /// Records that two types must be the same.
    pub(crate) fn unify(&mut self, res: &QueryableResolvedItems, t1: TypeVariable, t2: TypeVariable, span: Span)
        requires
            old(self).inv(res),
            t1.0 < old(self).n(),
            t2.0 < old(self).n(),
        ensures
            final(self).inv(res),
            old(self).grows_to(final(self)),
            final(self).ctx.tys() == old(self).ctx.tys(),
            final(self).ctx.constraints@ == old(self).ctx.constraints@.push(TypeConstraint::unify_spec(t1, t2, span)),
            final(self).errors@ == old(self).errors@,
            final(self).same_maps(old(self)),
            final(self).variable_scope@ == old(self).variable_scope@,
    {
        let ghost before = *self;
        self.ctx.unify(t1, t2, span);
        proof {
            lemma_inv_frame(&before, self, res);
            lemma_extends_refl(before.ctx.tys());
            lemma_extends_push(before.ctx.constraints@, TypeConstraint::unify_spec(t1, t2, span));
            lemma_extends_refl(error_models(before.errors@));
        }
    }

    /// Records that the first type must satisfy the second.
    pub(crate) fn satisfies(&mut self, res: &QueryableResolvedItems, t1: TypeVariable, t2: TypeVariable, span: Span)
        requires
            old(self).inv(res),
            t1.0 < old(self).n(),
            t2.0 < old(self).n(),
        ensures
            final(self).inv(res),
            old(self).grows_to(final(self)),
            final(self).ctx.tys() == old(self).ctx.tys(),
            final(self).ctx.constraints@ == old(self).ctx.constraints@.push(
                TypeConstraint::satisfies_spec(t1, t2, span),
            ),
            final(self).errors@ == old(self).errors@,
            final(self).same_maps(old(self)),
            final(self).variable_scope@ == old(self).variable_scope@,
    {
        let ghost before = *self;
        self.ctx.satisfies(t1, t2, span);
        proof {
            lemma_inv_frame(&before, self, res);
            lemma_extends_refl(before.ctx.tys());
            lemma_extends_push(before.ctx.constraints@, TypeConstraint::satisfies_spec(t1, t2, span));
            lemma_extends_refl(error_models(before.errors@));
        }
    }

    /// Reports an error.
    pub(crate) fn push_error(&mut self, res: &QueryableResolvedItems, e: TypeError)
        requires
            old(self).inv(res),
        ensures
            final(self).inv(res),
            old(self).grows_to(final(self)),
            final(self).ctx == old(self).ctx,
            error_models(final(self).errors@) == error_models(old(self).errors@).push(error_model(e)),
            final(self).same_maps(old(self)),
            final(self).variable_scope@ == old(self).variable_scope@,
    {
        let ghost before = *self;
        let ghost em = error_model(e);
        self.errors.push(e);
        proof {
            assert(error_models(self.errors@) =~= error_models(before.errors@).push(em));
            lemma_inv_frame(&before, self, res);
            lemma_extends_refl(before.ctx.tys());
            lemma_extends_refl(before.ctx.constraints@);
            lemma_extends_push(error_models(before.errors@), em);
        }
    }
}


/// The message of the error that a generic type without any scope gets.
pub open spec fn no_scope_message() -> Seq<char> {
    "attempted to insert generic type into variable scope when no variable scope existed"@
}

impl CheckState {
    /// Replaces the type in a slot (see [`TypeContext::update_type`]).
    pub(crate) fn update_type(&mut self, res: &QueryableResolvedItems, t1: TypeVariable, known: PetrType)
        requires
            old(self).inv(res),
            t1.0 < old(self).n(),
            vars_below(known@, old(self).n()),
            names_below(known@, res.interner.texts().len()),
            !(known@ is Ref) || ({
                let y = known@->Ref_0.0 as int;
                &&& y != t1.0
                &&& !(old(self).ctx.tys()[t1.0 as int] is Ref)
                &&& !(old(self).ctx.tys()[y] is Ref)
            }),
        ensures
            final(self).inv(res),
            final(self).ctx.tys() == crate::context::set_slot(old(self).ctx.tys(), t1, known@),
            final(self).ctx.constraints@ == old(self).ctx.constraints@,
            final(self).ctx.same_primitives(old(self).ctx),
            final(self).errors@ == old(self).errors@,
            final(self).same_maps(old(self)),
            final(self).variable_scope@ == old(self).variable_scope@,
    {
        let ghost before = *self;
        let ghost m = known@;
        self.ctx.update_type(t1, known);
        proof {
            assert(table_names_ok(self.ctx.tys(), res.interner.texts().len())) by {
                assert forall|i: int| 0 <= i < self.ctx.tys().len() implies names_below(
                    #[trigger] self.ctx.tys()[i],
                    res.interner.texts().len(),
                ) by {
                    if i != t1.0 {
                        assert(self.ctx.tys()[i] == before.ctx.tys()[i]);
                    }
                }
            }
            lemma_inv_frame(&before, self, res);
        }
    }

    /// Opens a new innermost scope of variables.
    pub(crate) fn push_scope(&mut self, res: &QueryableResolvedItems)
        requires
            old(self).inv(res),
        ensures
            final(self).inv(res),
            final(self).scopes() == old(self).scopes().push(Seq::empty()),
            final(self).variable_scope@.len() == old(self).variable_scope@.len() + 1,
            final(self).ctx == old(self).ctx,
            final(self).errors@ == old(self).errors@,
            final(self).same_maps(old(self)),
    {
        let ghost before = *self;
        self.variable_scope.push(Vec::new());
        proof {
            assert(self.scopes() =~= before.scopes().push(Seq::empty()));
            assert forall|s: int, j: int|
                0 <= s < self.variable_scope@.len() && 0 <= j < self.variable_scope@[s]@.len() implies (
                #[trigger] self.variable_scope@[s]@[j]).1.0 < self.n() by {
                assert(self.variable_scope@[s] == before.variable_scope@[s]);
            }
        }
    }

    /// Closes the innermost scope of variables.
    pub(crate) fn pop_scope(&mut self, res: &QueryableResolvedItems)
        requires
            old(self).inv(res),
            old(self).variable_scope@.len() > 0,
        ensures
            final(self).inv(res),
            final(self).scopes() == old(self).scopes().drop_last(),
            final(self).ctx == old(self).ctx,
            final(self).errors@ == old(self).errors@,
            final(self).same_maps(old(self)),
    {
        let ghost before = *self;
        let _ = self.variable_scope.pop();
        proof {
            assert(self.scopes() =~= before.scopes().drop_last());
            assert forall|s: int, j: int|
                0 <= s < self.variable_scope@.len() && 0 <= j < self.variable_scope@[s]@.len() implies (
                #[trigger] self.variable_scope@[s]@[j]).1.0 < self.n() by {
                assert(self.variable_scope@[s] == before.variable_scope@[s]);
            }
        }
    }

    /// Binds `id` to slot `ty` in the innermost scope.
    pub(crate) fn insert_variable(&mut self, res: &QueryableResolvedItems, id: Identifier, ty: TypeVariable)
        requires
            old(self).inv(res),
            old(self).variable_scope@.len() > 0,
            ty.0 < old(self).n(),
        ensures
            final(self).inv(res),
            final(self).scopes().len() == old(self).scopes().len(),
            scopes_grow(old(self).scopes(), final(self).scopes()),
            scopes_lookup(final(self).scopes(), id.id) == Some(ty),
            forall|other: SymbolId|
                other != id.id ==> scopes_lookup(final(self).scopes(), other) == scopes_lookup(
                    old(self).scopes(),
                    other,
                ),
            final(self).scopes().drop_last() == old(self).scopes().drop_last(),
            scope_get(final(self).scopes().last(), id.id) == Some(ty),
            forall|other: SymbolId|
                other != id.id ==> scope_get(final(self).scopes().last(), other) == scope_get(
                    old(self).scopes().last(),
                    other,
                ),
            final(self).ctx == old(self).ctx,
            final(self).errors@ == old(self).errors@,
            final(self).same_maps(old(self)),
    {
        let ghost before = *self;
        let ghost old_scopes = self.scopes();
        let mut last = self.variable_scope.pop().unwrap();
        let ghost last_before = last@;
        scope_insert(&mut last, id.id, ty);
        self.variable_scope.push(last);
        proof {
            let sc = self.scopes();
            assert(sc.drop_last() =~= old_scopes.drop_last());
            assert(sc.last() == last@);
            assert(old_scopes.last() == last_before);
            assert forall|other: SymbolId| other != id.id implies scopes_lookup(sc, other) == scopes_lookup(
                old_scopes,
                other,
            ) by {
                assert(scope_get(sc.last(), other) == scope_get(old_scopes.last(), other));
            }
            assert forall|s: int, x: SymbolId|
                0 <= s < old_scopes.len() && (#[trigger] scope_get(old_scopes[s], x)) is Some implies scope_get(
                sc[s],
                x,
            ) is Some by {
                if s < old_scopes.len() - 1 {
                    assert(sc[s] == old_scopes[s]);
                } else {
                    assert(sc[s] == last@);
                }
            }
            assert forall|s: int, j: int|
                0 <= s < self.variable_scope@.len() && 0 <= j < self.variable_scope@[s]@.len() implies (
                #[trigger] self.variable_scope@[s]@[j]).1.0 < self.n() by {
                if s < self.variable_scope@.len() - 1 {
                    assert(self.variable_scope@[s] == before.variable_scope@[s]);
                } else {
                    assert(self.variable_scope@[s]@ == last@);
                    if last@[j].1 != ty {
                        let i = choose|i: int| 0 <= i < last_before.len() && last_before[i] == last@[j];
                        assert(before.variable_scope@[s]@[i] == last_before[i]);
                    }
                }
            }
        }
    }

    /// The slot of the variable named `id`, from the innermost scope that binds it.
    pub(crate) fn find_variable(&self, id: Identifier) -> (r: Option<TypeVariable>)
        ensures
            r == scopes_lookup(self.scopes(), id.id),
    {
        let ghost sc = self.scopes();
        let mut i: usize = self.variable_scope.len();
        assert(sc.subrange(0, i as int) =~= sc);
        while i > 0
            invariant
                i <= sc.len(),
                sc == self.scopes(),
                scopes_lookup(sc, id.id) == scopes_lookup(sc.subrange(0, i as int), id.id),
            decreases i,
        {
            let ghost pre = sc.subrange(0, i as int);
            assert(pre.drop_last() =~= sc.subrange(0, i - 1));
            assert(pre.last() == self.variable_scope@[i - 1]@);
            if let Some(t) = scope_find(&self.variable_scope[i - 1], id.id) {
                return Some(t);
            }
            i -= 1;
        }
        None
    }

    /// The slot that a generic name stands for: the one it was given in an enclosing
    /// scope, or a fresh inference variable bound in the innermost scope. With no scope
    /// at all, the fresh variable becomes the error-recovery type and an error is
    /// reported.
    pub(crate) fn generic_type(&mut self, res: &QueryableResolvedItems, id: &Identifier) -> (r: TypeVariable)
        requires
            old(self).inv(res),
        ensures
            final(self).inv(res),
            old(self).grows_to(final(self)),
            scopes_grow(old(self).scopes(), final(self).scopes()),
            final(self).ctx.constraints@ == old(self).ctx.constraints@,
            final(self).same_maps(old(self)),
            r.0 < final(self).n(),
            scopes_lookup(old(self).scopes(), id.id) is Some ==> {
                &&& r == scopes_lookup(old(self).scopes(), id.id)->Some_0
                &&& *final(self) == *old(self)
            },
            scopes_lookup(old(self).scopes(), id.id) is None ==> {
                &&& r.0 == old(self).n()
                &&& old(self).variable_scope@.len() > 0 ==> {
                    &&& final(self).ctx.tys() == old(self).ctx.tys().push(TypeModel::Infer(r.0, id.span))
                    &&& final(self).errors@ == old(self).errors@
                    &&& scopes_lookup(final(self).scopes(), id.id) == Some(r)
                }
                &&& old(self).variable_scope@.len() == 0 ==> {
                    &&& final(self).ctx.tys() == old(self).ctx.tys().push(TypeModel::ErrorRecovery)
                    &&& error_models(final(self).errors@) == error_models(old(self).errors@).push(
                        (ErrorModel::Internal(no_scope_message()), id.span),
                    )
                    &&& final(self).variable_scope@ == old(self).variable_scope@
                }
            },
    {
        let ghost before = *self;
        if let Some(ty) = self.find_variable(*id) {
            proof {
                lemma_scopes_lookup_member(before.scopes(), id.id);
                lemma_scopes_grow_refl(before.scopes());
                lemma_grows_refl(self);
                let (s, j) = choose|s: int, j: int|
                    0 <= s < before.scopes().len() && 0 <= j < before.scopes()[s].len() && before.scopes()[s][j].1
                        == ty;
                assert(before.variable_scope@[s]@[j].1.0 < before.n());
            }
            return ty;
        }
        let fresh_ty = self.fresh_ty_var(res, id.span);
        let ghost mid = *self;
        if self.variable_scope.len() > 0 {
            self.insert_variable(res, *id, fresh_ty);
            proof {
                lemma_grows_refl(self);
                assert(self.grows_to(self));
                lemma_grows_trans(&before, &mid, self);
            }
        } else {
            let msg = crate::text::owned(
                "attempted to insert generic type into variable scope when no variable scope existed",
            );
            proof {
                reveal_strlit("attempted to insert generic type into variable scope when no variable scope existed");
            }
            self.push_error(res, id.span.with_item(TypeConstraintError::Internal(msg)));
            let ghost mid2 = *self;
            self.update_type(res, fresh_ty, PetrType::ErrorRecovery);
            proof {
                assert(self.ctx.tys() =~= before.ctx.tys().push(TypeModel::ErrorRecovery));
                lemma_grows_trans(&before, &mid, &mid2);
                lemma_extends_push(before.ctx.tys(), TypeModel::ErrorRecovery);
                lemma_extends_refl(mid2.ctx.constraints@);
                lemma_extends_refl(error_models(mid2.errors@));
            }
        }
        fresh_ty
    }
}


/// What converting a written type gives, against the state before the conversion:
/// primitives and literals map to themselves, a named type to a reference to its slot, a
/// generic name to a reference to the slot it stands for (see
/// [`CheckState::generic_type`]), and a sum to a sum of as many types.
pub open spec fn converts(before: &CheckState, ty: Type, out: TypeModel) -> bool {
    match ty {
        Type::Integer => out == TypeModel::Integer,
        Type::Bool => out == TypeModel::Boolean,
        Type::Unit => out == TypeModel::Unit,
        Type::String => out == TypeModel::String,
        Type::ErrorRecovery(_) => out == TypeModel::ErrorRecovery,
        Type::Named(t) => out == TypeModel::Ref(before.type_map@[t.0 as int].1),
        Type::Generic(g) => {
            &&& out is Ref
            &&& scopes_lookup(before.scopes(), g.id) is Some ==> out->Ref_0 == scopes_lookup(
                before.scopes(),
                g.id,
            )->Some_0
            &&& scopes_lookup(before.scopes(), g.id) is None ==> out->Ref_0.0 == before.n()
        },
        Type::Sum(tys) => member_converts(before.type_map@, ty, out),
        Type::Literal(l) => out == TypeModel::Literal(l@),
    }
}

/// `out` is what a written type becomes as a member of a sum: as [`converts`] says,
/// except that a generic becomes some reference, whose slot depends on the scopes when
/// the member is converted.
pub open spec fn member_converts(type_map: Seq<(TypeOrFunctionId, TypeVariable)>, ty: Type, out: TypeModel) -> bool
    decreases ty,
{
    match ty {
        Type::Integer => out == TypeModel::Integer,
        Type::Bool => out == TypeModel::Boolean,
        Type::Unit => out == TypeModel::Unit,
        Type::String => out == TypeModel::String,
        Type::ErrorRecovery(_) => out == TypeModel::ErrorRecovery,
        Type::Named(t) => out == TypeModel::Ref(type_map[t.0 as int].1),
        Type::Generic(_) => out is Ref,
        Type::Sum(tys) => {
            &&& out is Sum
            &&& out->Sum_0.len() == tys@.len()
            &&& forall|j: int| 0 <= j < tys@.len() ==> member_converts(type_map, tys@[j], #[trigger] out->Sum_0[j])
        },
        Type::Literal(l) => out == TypeModel::Literal(l@),
    }
}

/// What a written type becomes is what it becomes as a member of a sum.
pub proof fn lemma_member_converts(before: &CheckState, ty: Type, out: TypeModel)
    requires
        converts(before, ty, out),
    ensures
        member_converts(before.type_map@, ty, out),
{
}

/// Converting this written type changes no state: it names no generic that could need
/// a fresh slot.
pub open spec fn converts_in_place(before: &CheckState, ty: Type) -> bool {
    match ty {
        Type::Generic(g) => scopes_lookup(before.scopes(), g.id) is Some,
        Type::Sum(_) => false,
        _ => true,
    }
}

impl CheckState {
    /// The checker's type for a written type.
    pub(crate) fn to_petr_type(&mut self, res: &QueryableResolvedItems, ty: &Type, Ghost(m): Ghost<nat>) -> (r:
        PetrType)
        requires
            old(self).inv(res),
            types_mapped(old(self), m),
            type_ok(*ty, m),
        ensures
            final(self).inv(res),
            old(self).grows_to(final(self)),
            scopes_grow(old(self).scopes(), final(self).scopes()),
            final(self).ctx.constraints@ == old(self).ctx.constraints@,
            final(self).same_maps(old(self)),
            vars_below(r@, final(self).n()),
            names_below(r@, res.interner.texts().len()),
            converts(old(self), *ty, r@),
            converts_in_place(old(self), *ty) ==> *final(self) == *old(self),
            old(self).variable_scope@.len() > 0 ==> final(self).errors@ == old(self).errors@,
        decreases ty,
    {
        let ghost before = *self;
        proof {
            lemma_grows_refl(self);
            lemma_scopes_grow_refl(self.scopes());
        }
        match ty {
            Type::Integer => PetrType::Integer,
            Type::Bool => PetrType::Boolean,
            Type::Unit => PetrType::Unit,
            Type::String => PetrType::String,
            Type::ErrorRecovery(_) => PetrType::ErrorRecovery,
            Type::Named(t) => {
                let slot = self.type_map[t.0].1;
                proof {
                    assert(self.type_map@[t.0 as int].1.0 < self.n());
                }
                PetrType::Ref(slot)
            },
            Type::Generic(g) => {
                let id = self.generic_type(res, g);
                PetrType::Ref(id)
            },
            Type::Literal(l) => PetrType::Literal(l.copy()),
            Type::Sum(tys) => {
                let mut out: Vec<PetrType> = Vec::new();
                let mut i: usize = 0;
                while i < tys.len()
                    invariant
                        i <= tys@.len(),
                        *ty == Type::Sum(*tys),
                        type_ok(*ty, m),
                        types_mapped(self, m),
                        self.inv(res),
                        before.grows_to(self),
                        scopes_grow(before.scopes(), self.scopes()),
                        self.ctx.constraints@ == before.ctx.constraints@,
                        self.same_maps(&before),
                        self.variable_scope@.len() == before.variable_scope@.len(),
                        before.variable_scope@.len() > 0 ==> self.errors@ == before.errors@,
                        out@.len() == i,
                        forall|j: int| 0 <= j < i ==> member_converts(before.type_map@, tys@[j], #[trigger] out@[j]@),
                        forall|j: int| 0 <= j < i ==> vars_below(#[trigger] out@[j]@, self.n()),
                        forall|j: int| 0 <= j < i ==> names_below(#[trigger] out@[j]@, res.interner.texts().len()),
                    decreases tys@.len() - i,
                {
                    proof {
                        assert(decreases_to!(*ty => (*ty)->Sum_0));
                        assert(decreases_to!(tys => tys@));
                        assert(decreases_to!(tys@ => tys@[i as int]));
                        lemma_types_ok_index(tys@, m, i as int);
                    }
                    let ghost mid = *self;
                    let one = self.to_petr_type(res, &tys[i], Ghost(m));
                    proof {
                        lemma_member_converts(&mid, tys@[i as int], one@);
                        lemma_grows_trans(&before, &mid, self);
                        lemma_scopes_grow_trans(before.scopes(), mid.scopes(), self.scopes());
                        assert forall|j: int| 0 <= j < i implies vars_below(#[trigger] out@[j]@, self.n()) by {
                            crate::types::lemma_vars_below_mono(out@[j]@, mid.n(), self.n());
                        }
                    }
                    out.push(one);
                    i += 1;
                }
                let r = PetrType::Sum(out);
                proof {
                    lemma_sum_model(out);
                    assert forall|j: int| 0 <= j < tys@.len() implies member_converts(
                        before.type_map@,
                        tys@[j],
                        #[trigger] r@->Sum_0[j],
                    ) by {
                        assert(r@->Sum_0[j] == out@[j]@);
                    }
                    lemma_all_vars_below_intro(r@->Sum_0, self.n());
                    lemma_all_names_below_intro(r@->Sum_0, res.interner.texts().len());
                }
                r
            },
        }
    }

    /// Converts a written type and puts it in a fresh slot.
    pub(crate) fn to_type_var(&mut self, res: &QueryableResolvedItems, ty: &Type, Ghost(m): Ghost<nat>) -> (r:
        TypeVariable)
        requires
            old(self).inv(res),
            types_mapped(old(self), m),
            type_ok(*ty, m),
        ensures
            final(self).inv(res),
            old(self).grows_to(final(self)),
            scopes_grow(old(self).scopes(), final(self).scopes()),
            final(self).ctx.constraints@ == old(self).ctx.constraints@,
            final(self).same_maps(old(self)),
            r.0 == final(self).n() - 1,
            r.0 >= old(self).n(),
            old(self).variable_scope@.len() > 0 ==> final(self).errors@ == old(self).errors@,
            converts(old(self), *ty, final(self).ctx.tys()[r.0 as int]),
            converts_in_place(old(self), *ty) ==> {
                &&& r.0 == old(self).n()
                &&& final(self).ctx.tys() == old(self).ctx.tys().push(final(self).ctx.tys()[r.0 as int])
                &&& final(self).errors@ == old(self).errors@
                &&& final(self).variable_scope@ == old(self).variable_scope@
            },
    {
        let ghost before = *self;
        let petr_ty = self.to_petr_type(res, ty, Ghost(m));
        let ghost mid = *self;
        let r = self.insert_type(res, petr_ty);
        proof {
            lemma_grows_trans(&before, &mid, self);
        }
        r
    }

    /// The slot of a function type over `tys`; a single type is its own slot.
    pub(crate) fn arrow_type(&mut self, res: &QueryableResolvedItems, tys: Vec<TypeVariable>) -> (r: TypeVariable)
        requires
            old(self).inv(res),
            tys@.len() > 0,
            forall|i: int| 0 <= i < tys@.len() ==> (#[trigger] tys@[i]).0 < old(self).n(),
        ensures
            final(self).inv(res),
            old(self).grows_to(final(self)),
            final(self).same_maps(old(self)),
            final(self).variable_scope@ == old(self).variable_scope@,
            final(self).errors@ == old(self).errors@,
            final(self).ctx.constraints@ == old(self).ctx.constraints@,
            tys@.len() == 1 ==> r == tys@[0] && final(self).ctx.tys() == old(self).ctx.tys(),
            tys@.len() > 1 ==> r.0 == old(self).n() && final(self).ctx.tys() == old(self).ctx.tys().push(
                TypeModel::Arrow(tys@),
            ),
    {
        if tys.len() == 1 {
            proof {
                lemma_grows_refl(self);
            }
            return tys[0];
        }
        self.insert_type(res, PetrType::Arrow(tys))
    }

    /// The slot of the type of a typed expression.
    pub(crate) fn expr_ty(&self, expr: &TypedExpr) -> (r: TypeVariable)
        requires
            self.ctx.wf(),
        ensures
            r == typed_expr_ty(*expr),
        decreases expr,
    {
        match &expr.kind {
            TypedExprKind::FunctionCall { ty, .. } => *ty,
            TypedExprKind::Literal { ty, .. } => *ty,
            TypedExprKind::List { ty, .. } => *ty,
            TypedExprKind::Unit => self.ctx.unit_ty,
            TypedExprKind::Variable { ty, .. } => *ty,
            TypedExprKind::Intrinsic { ty, .. } => *ty,
            TypedExprKind::ErrorRecovery(..) => self.ctx.error_recovery,
            TypedExprKind::ExprWithBindings { expression, .. } => self.expr_ty(expression),
            TypedExprKind::TypeConstructor { ty, .. } => *ty,
            TypedExprKind::If { then_branch, .. } => self.expr_ty(then_branch),
        }
    }
}



/// Adding a sound monomorphized function keeps the invariant.
pub proof fn lemma_inv_mono_push(
    a: &CheckState,
    b: &CheckState,
    x: (FunctionId, Vec<PetrType>, Function),
    res: &QueryableResolvedItems,
)
    requires
        a.inv(res),
        b.ctx == a.ctx,
        b.type_map@ == a.type_map@,
        b.typed_functions@ == a.typed_functions@,
        b.variable_scope@ == a.variable_scope@,
        b.monomorphized_functions@ == a.monomorphized_functions@.push(x),
        mono_entry_ok(x, a.n(), res.interner.texts().len()),
    ensures
        b.inv(res),
{
    lemma_inv_parts(a, b, res);
    assert forall|i: int| 0 <= i < b.monomorphized_functions@.len() implies mono_entry_ok(
        #[trigger] b.monomorphized_functions@[i],
        b.n(),
        res.interner.texts().len(),
    ) by {
        if i < a.monomorphized_functions@.len() {
            assert(b.monomorphized_functions@[i] == a.monomorphized_functions@[i]);
        }
    }
}

/// Replacing the typed functions by a sorted list of sound entries keeps the invariant.
pub proof fn lemma_inv_typed_update(a: &CheckState, b: &CheckState, res: &QueryableResolvedItems)
    requires
        a.inv(res),
        b.ctx == a.ctx,
        b.type_map@ == a.type_map@,
        b.monomorphized_functions@ == a.monomorphized_functions@,
        b.variable_scope@ == a.variable_scope@,
        functions_sorted(b.typed_functions@),
        forall|i: int| 0 <= i < b.typed_functions@.len() ==> typed_entry_ok(#[trigger] b.typed_functions@[i], b.n(), res),
        forall|i: int| 0 <= i < b.type_map@.len() ==> key_cached(#[trigger] b.type_map@[i], b.typed_functions@),
    ensures
        b.inv(res),
{
    lemma_inv_parts(a, b, res);
}

/// Replacing the type map by a sorted map of sound entries keeps the invariant.
pub proof fn lemma_inv_map_update(a: &CheckState, b: &CheckState, res: &QueryableResolvedItems)
    requires
        a.inv(res),
        b.ctx == a.ctx,
        b.typed_functions@ == a.typed_functions@,
        b.monomorphized_functions@ == a.monomorphized_functions@,
        b.variable_scope@ == a.variable_scope@,
        keys_sorted(b.type_map@),
        forall|i: int| 0 <= i < b.type_map@.len() ==> map_entry_ok(#[trigger] b.type_map@[i], b.n(), res),
        forall|i: int| 0 <= i < b.type_map@.len() ==> key_cached(#[trigger] b.type_map@[i], b.typed_functions@),
    ensures
        b.inv(res),
{
    lemma_inv_parts(a, b, res);
}

/// Whether two lists of types are the same types.
pub fn types_equal(a: &Vec<PetrType>, b: &Vec<PetrType>) -> (r: bool)
    ensures
        r == (type_models(a@) == type_models(b@)),
{
    if a.len() != b.len() {
        proof {
            assert(type_models(a@).len() != type_models(b@).len());
        }
        return false;
    }
    let mut i: usize = 0;
    while i < a.len()
        invariant
            i <= a@.len(),
            a@.len() == b@.len(),
            forall|j: int| 0 <= j < i ==> a@[j]@ == b@[j]@,
        decreases a@.len() - i,
    {
        if !a[i].equals(&b[i]) {
            proof {
                assert(type_models(a@)[i as int] != type_models(b@)[i as int]);
            }
            return false;
        }
        i += 1;
    }
    assert(type_models(a@) =~= type_models(b@));
    true
}

/// Whether function `id` was already monomorphized for these argument types.
pub fn mono_contains(mono: &Vec<(FunctionId, Vec<PetrType>, Function)>, id: FunctionId, tys: &Vec<PetrType>) -> (r:
    bool)
    ensures
        r == exists|i: int|
            0 <= i < mono@.len() && (#[trigger] mono@[i]).0 == id && type_models(mono@[i].1@) == type_models(tys@),
{
    let mut i: usize = 0;
    while i < mono.len()
        invariant
            i <= mono@.len(),
            forall|j: int|
                0 <= j < i ==> !((#[trigger] mono@[j]).0 == id && type_models(mono@[j].1@) == type_models(tys@)),
        decreases mono@.len() - i,
    {
        if mono[i].0 == id && types_equal(&mono[i].1, tys) {
            return true;
        }
        i += 1;
    }
    false
}

} // verus!
