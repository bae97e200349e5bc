//! Constraint generation: each resolved expression becomes a typed expression, and
//! the constraints between the types of its parts are recorded for the solver.
use vstd::prelude::*;
use crate::ast::Intrinsic as IntrinsicName;
use crate::checker::{
    CheckState, converts, extends, mono_contains, lemma_extends_refl, lemma_grows_refl, lemma_grows_trans, lemma_scopes_bind_grow,
    lemma_scopes_grow_refl, lemma_scopes_grow_trans, lemma_scopes_lookup_member, scope_get, scopes_bind,
    scopes_grow, scopes_lookup, types_mapped,
};
use crate::context::TypeConstraint;
use crate::error::{ErrorModel, TypeConstraintError, error_models};
use crate::maps::{function_index, functions_insert};
use crate::ids::{Identifier, SymbolId};
use crate::resolved::{
    self, Expr, ExprKind, QueryableResolvedItems, binding_names, expr_ok, exprs_ok, intrinsic_arity,
    lemma_bindings_ok_index, lemma_exprs_ok_index, ranked,
};
use crate::span::Span;
use crate::shape::{lemma_shaped_args, lemma_shaped_bindings, lemma_shaped_list, shaped, shaped_args, shaped_intrinsic, shaped_list};
use crate::typed::{
    self, TypedExpr, TypedExprKind, all_below, copy_expr, copy_function, copy_params, expr_syms, expr_vars,
    exprs_syms, exprs_vars, function_ok, lemma_exprs_ok, lemma_intrinsic_expr_ok, lemma_named_exprs_ok, lemma_typed_expr_ty_below,
    replace_var_reference_types, typed_expr_ty,
};
use crate::types::{PetrType, TypeModel, TypeVariable, type_models};

verus! {

/// One step of constraint generation from `before` to `after`: the invariant holds, the
/// table, constraints and errors only grew, the type map is unchanged, the scopes only
/// gained names, every typed function stays as it was, monomorphized functions are only
/// added after the ones there were, and when every typed function of `before` had its body generated into
/// its constraints and errors, so has every typed function of `after`.
pub open spec fn gen(before: &CheckState, after: &CheckState, res: &QueryableResolvedItems) -> bool {
    &&& after.inv(res)
    &&& before.grows_to(after)
    &&& after.type_map@ == before.type_map@
    &&& scopes_grow(before.scopes(), after.scopes())
    &&& keys_kept(before.typed_functions@, after.typed_functions@)
    &&& entries_kept(before.typed_functions@, after.typed_functions@)
    &&& extends(before.monomorphized_functions@, after.monomorphized_functions@)
    &&& fns_generated(before.typed_functions@, before.ctx.constraints@, error_models(before.errors@), *res)
        ==> fns_generated(after.typed_functions@, after.ctx.constraints@, error_models(after.errors@), *res)
}

/// The typed function of `entry` has its body generated from the body of its
/// declaration, and the constraints and errors that generation left are prefixes of
/// `cs` and `es`.
pub open spec fn entry_generated(
    entry: (crate::ids::FunctionId, typed::Function),
    cs: Seq<TypeConstraint>,
    es: Seq<(ErrorModel, Span)>,
    res: QueryableResolvedItems,
) -> bool {
    exists|s: CheckState, s2: CheckState|
        #[trigger] generated(res.functions@[entry.0.0 as int].body, entry.1.body, s, s2, res) && extends(
            s2.ctx.constraints@,
            cs,
        ) && extends(error_models(s2.errors@), es)
}

/// Each typed function of `fns` has its body generated from the body of its
/// declaration, and the constraints and errors of that generation are prefixes of `cs`
/// and `es`.
pub open spec fn fns_generated(
    fns: Seq<(crate::ids::FunctionId, typed::Function)>,
    cs: Seq<TypeConstraint>,
    es: Seq<(ErrorModel, Span)>,
    res: QueryableResolvedItems,
) -> bool {
    forall|j: int| 0 <= j < fns.len() ==> entry_generated(#[trigger] fns[j], cs, es, res)
}

/// A prefix of a prefix is a prefix.
pub proof fn lemma_extends_trans<T>(a: Seq<T>, b: Seq<T>, c: Seq<T>)
    requires
        extends(a, b),
        extends(b, c),
    ensures
        extends(a, c),
{
    assert(c.subrange(0, a.len() as int) =~= c.subrange(0, b.len() as int).subrange(0, a.len() as int));
}

/// The typed functions stay generated while the constraints and errors only grow.
pub proof fn lemma_fns_generated_grow(
    fns: Seq<(crate::ids::FunctionId, typed::Function)>,
    cs: Seq<TypeConstraint>,
    cs2: Seq<TypeConstraint>,
    es: Seq<(ErrorModel, Span)>,
    es2: Seq<(ErrorModel, Span)>,
    res: QueryableResolvedItems,
)
    requires
        fns_generated(fns, cs, es, res),
        extends(cs, cs2),
        extends(es, es2),
    ensures
        fns_generated(fns, cs2, es2, res),
{
    assert forall|j: int| 0 <= j < fns.len() implies entry_generated(#[trigger] fns[j], cs2, es2, res) by {
        assert(entry_generated(fns[j], cs, es, res));
        let (s, s2) = choose|s: CheckState, s2: CheckState|
            #[trigger] generated(res.functions@[fns[j].0.0 as int].body, fns[j].1.body, s, s2, res) && extends(
                s2.ctx.constraints@,
                cs,
            ) && extends(error_models(s2.errors@), es);
        lemma_extends_trans(s2.ctx.constraints@, cs, cs2);
        lemma_extends_trans(error_models(s2.errors@), es, es2);
    }
}

/// The typed functions stay generated when one more is put among them.
pub proof fn lemma_fns_generated_insert(
    fns: Seq<(crate::ids::FunctionId, typed::Function)>,
    fns2: Seq<(crate::ids::FunctionId, typed::Function)>,
    entry: (crate::ids::FunctionId, typed::Function),
    cs: Seq<TypeConstraint>,
    es: Seq<(ErrorModel, Span)>,
    res: QueryableResolvedItems,
)
    requires
        fns_generated(fns, cs, es, res),
        entry_generated(entry, cs, es, res),
        forall|x: int|
            0 <= x < fns2.len() ==> #[trigger] fns2[x] == entry || exists|y: int| 0 <= y < fns.len() && fns2[x] == fns[y],
    ensures
        fns_generated(fns2, cs, es, res),
{
    assert forall|j: int| 0 <= j < fns2.len() implies entry_generated(#[trigger] fns2[j], cs, es, res) by {
        if fns2[j] != entry {
            let y = choose|y: int| 0 <= y < fns.len() && fns2[j] == fns[y];
            assert(entry_generated(fns[y], cs, es, res));
        }
    }
}

/// Function `id` has a typed form in `s`.
pub open spec fn has_key(s: Seq<(crate::ids::FunctionId, typed::Function)>, id: crate::ids::FunctionId) -> bool {
    exists|j: int| 0 <= j < s.len() && (#[trigger] s[j]).0 == id
}

/// Every function that had a typed form still has one.
pub open spec fn keys_kept(
    before: Seq<(crate::ids::FunctionId, typed::Function)>,
    after: Seq<(crate::ids::FunctionId, typed::Function)>,
) -> bool {
    forall|i: int| 0 <= i < before.len() ==> has_key(after, (#[trigger] before[i]).0)
}

pub proof fn lemma_keys_kept_refl(a: Seq<(crate::ids::FunctionId, typed::Function)>)
    ensures
        keys_kept(a, a),
{
    assert forall|i: int| 0 <= i < a.len() implies has_key(a, (#[trigger] a[i]).0) by {
        assert(a[i] == a[i]);
    }
}

pub proof fn lemma_keys_kept_trans(
    a: Seq<(crate::ids::FunctionId, typed::Function)>,
    b: Seq<(crate::ids::FunctionId, typed::Function)>,
    c: Seq<(crate::ids::FunctionId, typed::Function)>,
)
    requires
        keys_kept(a, b),
        keys_kept(b, c),
    ensures
        keys_kept(a, c),
{
    assert forall|i: int| 0 <= i < a.len() implies has_key(c, (#[trigger] a[i]).0) by {
        assert(has_key(b, a[i].0));
        let jb = choose|j: int| 0 <= j < b.len() && (#[trigger] b[j]).0 == a[i].0;
        assert(has_key(c, b[jb].0));
    }
}

/// Every entry of `before` is an entry of `after`.
pub open spec fn entries_kept(
    before: Seq<(crate::ids::FunctionId, typed::Function)>,
    after: Seq<(crate::ids::FunctionId, typed::Function)>,
) -> bool {
    forall|i: int| 0 <= i < before.len() ==> #[trigger] has_entry(after, before[i])
}

/// `e` is an entry of `s`.
pub open spec fn has_entry(
    s: Seq<(crate::ids::FunctionId, typed::Function)>,
    e: (crate::ids::FunctionId, typed::Function),
) -> bool {
    exists|j: int| 0 <= j < s.len() && #[trigger] s[j] == e
}

pub proof fn lemma_entries_kept_refl(a: Seq<(crate::ids::FunctionId, typed::Function)>)
    ensures
        entries_kept(a, a),
{
    assert forall|i: int| 0 <= i < a.len() implies #[trigger] has_entry(a, a[i]) by {
        assert(a[i] == a[i]);
    }
}

pub proof fn lemma_entries_kept_trans(
    a: Seq<(crate::ids::FunctionId, typed::Function)>,
    b: Seq<(crate::ids::FunctionId, typed::Function)>,
    c: Seq<(crate::ids::FunctionId, typed::Function)>,
)
    requires
        entries_kept(a, b),
        entries_kept(b, c),
    ensures
        entries_kept(a, c),
{
    assert forall|i: int| 0 <= i < a.len() implies #[trigger] has_entry(c, a[i]) by {
        assert(has_entry(b, a[i]));
        let j = choose|j: int| 0 <= j < b.len() && #[trigger] b[j] == a[i];
        assert(has_entry(c, b[j]));
    }
}

/// A step that kept the typed and the monomorphized functions keeps their entries.
pub proof fn lemma_same_fns_kept(a: &CheckState, b: &CheckState)
    requires
        b.typed_functions@ == a.typed_functions@,
        b.monomorphized_functions@ == a.monomorphized_functions@,
    ensures
        entries_kept(a.typed_functions@, b.typed_functions@),
        extends(a.monomorphized_functions@, b.monomorphized_functions@),
{
    lemma_entries_kept_refl(a.typed_functions@);
    crate::checker::lemma_extends_refl(a.monomorphized_functions@);
}

pub proof fn lemma_gen_refl(st: &CheckState, res: &QueryableResolvedItems)
    requires
        st.inv(res),
    ensures
        gen(st, st, res),
{
    lemma_grows_refl(st);
    lemma_scopes_grow_refl(st.scopes());
    lemma_keys_kept_refl(st.typed_functions@);
    lemma_same_fns_kept(st, st);
}

pub proof fn lemma_gen_trans(a: &CheckState, b: &CheckState, c: &CheckState, res: &QueryableResolvedItems)
    requires
        gen(a, b, res),
        gen(b, c, res),
    ensures
        gen(a, c, res),
        a.n() <= b.n() <= c.n(),
{
    lemma_grows_trans(a, b, c);
    lemma_scopes_grow_trans(a.scopes(), b.scopes(), c.scopes());
    lemma_keys_kept_trans(a.typed_functions@, b.typed_functions@, c.typed_functions@);
    lemma_entries_kept_trans(a.typed_functions@, b.typed_functions@, c.typed_functions@);
    lemma_extends_trans(a.monomorphized_functions@, b.monomorphized_functions@, c.monomorphized_functions@);
}

pub proof fn lemma_gen_n(a: &CheckState, b: &CheckState, res: &QueryableResolvedItems)
    requires
        gen(a, b, res),
    ensures
        a.n() <= b.n(),
        a.variable_scope@.len() == b.variable_scope@.len(),
{
}

/// A new empty innermost scope hides nothing.
pub proof fn lemma_scopes_bind_push(s: Seq<Seq<(SymbolId, TypeVariable)>>, bound: Set<SymbolId>)
    requires
        scopes_bind(s, bound),
    ensures
        scopes_bind(s.push(Seq::empty()), bound),
        forall|id: SymbolId| scopes_lookup(s.push(Seq::empty()), id) == scopes_lookup(s, id),
{
    assert(s.push(Seq::empty()).drop_last() =~= s);
    assert forall|id: SymbolId| scopes_lookup(s.push(Seq::empty()), id) == scopes_lookup(s, id) by {
        assert(scope_get(Seq::<(SymbolId, TypeVariable)>::empty(), id) is None);
    }
    assert forall|id: SymbolId| bound.contains(id) implies (#[trigger] scopes_lookup(s.push(Seq::empty()), id)) is Some by {
        assert(scopes_lookup(s.push(Seq::empty()), id) == scopes_lookup(s, id));
    }
}

/// Closing the innermost scope of grown scopes leaves the enclosing scopes grown.
pub proof fn lemma_scopes_grow_pop(
    a: Seq<Seq<(SymbolId, TypeVariable)>>,
    x: Seq<(SymbolId, TypeVariable)>,
    b: Seq<Seq<(SymbolId, TypeVariable)>>,
)
    requires
        scopes_grow(a.push(x), b),
    ensures
        scopes_grow(a, b.drop_last()),
{
    assert forall|s: int, id: SymbolId|
        0 <= s < a.len() && (#[trigger] scope_get(a[s], id)) is Some implies scope_get(b.drop_last()[s], id) is Some by {
        assert(a.push(x)[s] == a[s]);
    }
}

/// The cached typed form of function `id` in `st` is `f`.
pub open spec fn cached_as(st: &CheckState, id: crate::ids::FunctionId, f: typed::Function) -> bool {
    exists|q: int|
        0 <= q < st.typed_functions@.len() && (#[trigger] st.typed_functions@[q]).0 == id && typed::same_function(
            st.typed_functions@[q].1,
            f,
        )
}

/// A typed list of expressions stands for the resolved list: as many, each with the
/// same span.
pub open spec fn typed_list(es: Seq<Expr>, ts: Seq<TypedExpr>) -> bool {
    &&& ts.len() == es.len()
    &&& forall|j: int| 0 <= j < es.len() ==> (#[trigger] ts[j]).span == es[j].span
}

/// The two operands of an arithmetic intrinsic are constrained to be integers.
pub open spec fn math_constrained(a: TypedExpr, b: TypedExpr, cs: Seq<TypeConstraint>) -> bool {
    &&& cs.contains(TypeConstraint::unify_spec(TypeVariable(3), typed_expr_ty(a), a.span))
    &&& cs.contains(TypeConstraint::unify_spec(TypeVariable(3), typed_expr_ty(b), b.span))
}

/// What a typed intrinsic call is, against the constraints recorded and the resolved
/// arguments `args`: the intrinsic it calls, its result type (unit for `puts`, bool for
/// `equals`, int for the others), its typed arguments, each from the resolved argument
/// at its place, and the constraints on them.
pub open spec fn intrinsic_typed(
    name: IntrinsicName,
    i: typed::Intrinsic,
    ty: TypeVariable,
    span: Span,
    cs: Seq<TypeConstraint>,
    args: Seq<Expr>,
) -> bool {
    match name {
        IntrinsicName::Puts => i matches typed::Intrinsic::Puts(a) && ty == TypeVariable(0) && a.span == args[0].span
            && cs.contains(TypeConstraint::unify_spec(TypeVariable(1), typed_expr_ty(*a), a.span)),
        IntrinsicName::Add => i matches typed::Intrinsic::Add(a, b) && ty == TypeVariable(3) && math_typed(*a, *b, cs, args),
        IntrinsicName::Subtract => i matches typed::Intrinsic::Subtract(a, b) && ty == TypeVariable(3) && math_typed(
            *a,
            *b,
            cs,
            args,
        ),
        IntrinsicName::Multiply => i matches typed::Intrinsic::Multiply(a, b) && ty == TypeVariable(3) && math_typed(
            *a,
            *b,
            cs,
            args,
        ),
        IntrinsicName::Divide => i matches typed::Intrinsic::Divide(a, b) && ty == TypeVariable(3) && math_typed(
            *a,
            *b,
            cs,
            args,
        ),
        IntrinsicName::Malloc => i matches typed::Intrinsic::Malloc(a) && ty == TypeVariable(3) && a.span == args[0].span
            && cs.contains(TypeConstraint::unify_spec(typed_expr_ty(*a), TypeVariable(3), a.span)),
        IntrinsicName::SizeOf => i matches typed::Intrinsic::SizeOf(a) && ty == TypeVariable(3) && a.span == args[0].span,
        IntrinsicName::Equals => i matches typed::Intrinsic::Equals(a, b) && ty == TypeVariable(2) && a.span
            == args[0].span && b.span == args[1].span && cs.contains(
            TypeConstraint::unify_spec(typed_expr_ty(*a), typed_expr_ty(*b), span),
        ),
    }
}

/// The operands of an arithmetic intrinsic come from its two arguments and are
/// constrained to be integers.
pub open spec fn math_typed(a: TypedExpr, b: TypedExpr, cs: Seq<TypeConstraint>, args: Seq<Expr>) -> bool {
    &&& a.span == args[0].span
    &&& b.span == args[1].span
    &&& math_constrained(a, b, cs)
}

/// What the typed expression `t` is for the resolved expression `e`, given the state
/// before and after its generation: its span, its kind and the parts that the kind
/// keeps, the type slot it gets, and the constraints that tie that slot to its parts.
pub open spec fn typed_from(
    e: Expr,
    t: TypedExpr,
    before: &CheckState,
    after: &CheckState,
    res: &QueryableResolvedItems,
) -> bool {
    let tys = after.ctx.tys();
    let cs = after.ctx.constraints@;
    &&& t.span == e.span
    &&& match e.kind {
        ExprKind::Literal(l) => t.kind matches TypedExprKind::Literal { value, ty } && value@ == l@ && tys[ty.0 as int]
            == TypeModel::Literal(l@),
        ExprKind::List(es) => t.kind matches TypedExprKind::List { elements, ty } && typed_list(es@, elements@) && (
        es@.len() == 0 ==> ty == TypeVariable(0)) && (es@.len() > 0 ==> {
            &&& tys[ty.0 as int] == TypeModel::List(typed_expr_ty(elements@[0]))
            &&& forall|j: int|
                1 <= j < es@.len() ==> cs.contains(
                    TypeConstraint::unify_spec(typed_expr_ty(elements@[0]), typed_expr_ty(#[trigger] elements@[j]), elements@[j].span),
                )
        }),
        ExprKind::FunctionCall(call) => {
            let decl = res.functions@[call.function.0 as int];
            if call.args@.len() != decl.params@.len() {
                &&& t.kind == TypedExprKind::ErrorRecovery(call.span)
                &&& error_models(after.errors@).last() == (arity_error(res, call), call.span)
            } else {
                &&& t.kind matches TypedExprKind::FunctionCall { func, args, .. }
                &&& t.kind->FunctionCall_func == call.function
                &&& t.kind->FunctionCall_args@.len() == call.args@.len()
                &&& forall|j: int|
                    0 <= j < call.args@.len() ==> (#[trigger] t.kind->FunctionCall_args@[j]).0 == decl.params@[j].0
                        && t.kind->FunctionCall_args@[j].1.span == call.args@[j].span
                &&& exists|f: typed::Function|
                    {
                        &&& crate::checker::fn_matches(f, decl)
                        &&& shaped(decl.body, f.body, *res)
                        &&& cached_as(after, call.function, f)
                        &&& #[trigger] call_typed(t.kind, f, after)
                    }
            }
        },
        ExprKind::Unit => t.kind is Unit,
        ExprKind::ErrorRecovery => t.kind == TypedExprKind::ErrorRecovery(e.span),
        ExprKind::Variable { name, ty } => t.kind matches TypedExprKind::Variable { ty: v, name: n } && n == name
            && converts(before, ty, tys[v.0 as int]) && scopes_lookup(before.scopes(), name.id) is Some
            && cs.contains(
            TypeConstraint::unify_spec(scopes_lookup(before.scopes(), name.id)->Some_0, v, name.span),
        ),
        ExprKind::Intrinsic(i) => t.kind matches TypedExprKind::Intrinsic { ty, intrinsic } && intrinsic_typed(
            i.intrinsic,
            intrinsic,
            ty,
            e.span,
            cs,
            i.args@,
        ),
        ExprKind::TypeConstructor(id, args) => t.kind matches TypedExprKind::TypeConstructor { ty, args: targs }
            && ty == before.type_map@[id.0 as int].1 && typed_list(args@, targs@),
        ExprKind::ExpressionWithBindings { bindings, expression } => t.kind matches TypedExprKind::ExprWithBindings {
            bindings: tb,
            expression: te,
        } && tb@.len() == bindings@.len() && (forall|j: int|
            0 <= j < bindings@.len() ==> (#[trigger] tb@[j]).0 == bindings@[j].name && tb@[j].1.span
                == bindings@[j].expression.span) && te.span == expression.span,
        ExprKind::If { condition, then_branch, else_branch } => t.kind matches TypedExprKind::If {
            condition: c,
            then_branch: a,
            else_branch: b,
        } && c.span == condition.span && a.span == then_branch.span && b.span == else_branch.span && cs.contains(
            TypeConstraint::unify_spec(typed_expr_ty(*c), TypeVariable(2), c.span),
        ) && cs.contains(TypeConstraint::unify_spec(typed_expr_ty(*a), typed_expr_ty(*b), b.span)),
    }
}

/// The constraints, errors and monomorphized functions of `after` are those of `before`.
pub open spec fn kept(before: CheckState, after: CheckState) -> bool {
    &&& after.ctx.constraints@ == before.ctx.constraints@
    &&& after.errors@ == before.errors@
    &&& after.monomorphized_functions@ == before.monomorphized_functions@
}

/// `after` has the constraints of `before` followed by `cs`, and the errors and
/// monomorphized functions of `before`.
pub open spec fn added(before: CheckState, after: CheckState, cs: Seq<TypeConstraint>) -> bool {
    &&& after.ctx.constraints@ == before.ctx.constraints@ + cs
    &&& after.errors@ == before.errors@
    &&& after.monomorphized_functions@ == before.monomorphized_functions@
}

/// The constraints that tie the type of each element of a list after the first to the
/// type of the first, in order.
pub open spec fn list_unifies(ts: Seq<TypedExpr>) -> Seq<TypeConstraint> {
    Seq::new(
        (ts.len() - 1) as nat,
        |j: int| TypeConstraint::unify_spec(typed_expr_ty(ts[0]), typed_expr_ty(ts[j + 1]), ts[j + 1].span),
    )
}

/// Exactly what generating `e` into `t` records from `before` to `after`: each part is
/// generated in turn, from the state that the part before it left, and the constraints
/// that tie the parts together are appended in order. Apart from what type checking a
/// callee for the first time records, no error is reported but for a call with the
/// wrong number of arguments.
pub open spec fn generated(
    e: Expr,
    t: TypedExpr,
    before: CheckState,
    after: CheckState,
    res: QueryableResolvedItems,
) -> bool
    decreases e, 1int,
{
    match e.kind {
        ExprKind::Literal(_) => kept(before, after),
        ExprKind::Unit => kept(before, after),
        ExprKind::ErrorRecovery => kept(before, after),
        ExprKind::List(es) => if es@.len() == 0 {
            kept(before, after)
        } else {
            t.kind matches TypedExprKind::List { elements, .. } && exists|mid: CheckState|
                #![trigger mid.ctx]
                exprs_generated(es@, elements@, before, mid, res) && added(
                    mid,
                    after,
                    list_unifies(elements@),
                )
        },
        ExprKind::Variable { name, .. } => t.kind matches TypedExprKind::Variable { ty, .. } && added(
            before,
            after,
            seq![TypeConstraint::unify_spec(scopes_lookup(before.scopes(), name.id)->Some_0, ty, name.span)],
        ),
        ExprKind::Intrinsic(i) => t.kind matches TypedExprKind::Intrinsic { intrinsic, .. } && intrinsic_generated(
            i,
            intrinsic,
            e.span,
            before,
            after,
            res,
        ),
        ExprKind::TypeConstructor(_, args) => t.kind matches TypedExprKind::TypeConstructor { args: targs, .. }
            && exprs_generated(args@, targs@, before, after, res),
        ExprKind::ExpressionWithBindings { bindings, expression } => t.kind matches TypedExprKind::ExprWithBindings {
            bindings: tb,
            expression: te,
        } && exists|mid: CheckState, last: CheckState|
            #![trigger mid.ctx, last.ctx]
            {
                &&& bindings_generated(bindings@, tb@, before, mid, res)
                &&& generated(*expression, *te, mid, last, res)
                &&& kept(last, after)
            },
        ExprKind::If { condition, then_branch, else_branch } => t.kind matches TypedExprKind::If {
            condition: c,
            then_branch: a,
            else_branch: b,
        } && exists|s1: CheckState, s2: CheckState, s3: CheckState, s4: CheckState|
            #![trigger s1.ctx, s2.ctx, s3.ctx, s4.ctx]
            {
                &&& generated(*condition, *c, before, s1, res)
                &&& added(s1, s2, seq![TypeConstraint::unify_spec(typed_expr_ty(*c), TypeVariable(2), c.span)])
                &&& generated(*then_branch, *a, s2, s3, res)
                &&& generated(*else_branch, *b, s3, s4, res)
                &&& added(s4, after, seq![TypeConstraint::unify_spec(typed_expr_ty(*a), typed_expr_ty(*b), b.span)])
            },
        ExprKind::FunctionCall(call) => call_generated(call, t.kind, before, after, res),
    }
}

/// Generating the expressions `es` into `ts`, one after the other.
pub open spec fn exprs_generated(
    es: Seq<Expr>,
    ts: Seq<TypedExpr>,
    before: CheckState,
    after: CheckState,
    res: QueryableResolvedItems,
) -> bool
    decreases es, 1int,
{
    if es.len() == 0 {
        kept(before, after)
    } else {
        exists|mid: CheckState|
            #![trigger mid.ctx]
            exprs_generated(es.subrange(0, es.len() - 1), ts.subrange(0, es.len() - 1), before, mid, res)
                && generated(es[es.len() - 1], ts[es.len() - 1], mid, after, res)
    }
}

/// Generating the bindings `bs` into `ts`, one after the other; binding a name records
/// nothing.
pub open spec fn bindings_generated(
    bs: Seq<resolved::Binding>,
    ts: Seq<(Identifier, TypedExpr)>,
    before: CheckState,
    after: CheckState,
    res: QueryableResolvedItems,
) -> bool
    decreases bs, 1int,
{
    if bs.len() == 0 {
        kept(before, after)
    } else {
        exists|mid: CheckState, last: CheckState|
            #![trigger mid.ctx, last.ctx]
            {
                &&& bindings_generated(bs.subrange(0, bs.len() - 1), ts.subrange(0, bs.len() - 1), before, mid, res)
                &&& generated(bs[bs.len() - 1].expression, ts[bs.len() - 1].1, mid, last, res)
                &&& kept(last, after)
            }
    }
}

/// Generating the arguments `es` of a call into `ts`, one after the other, each
/// followed by the constraint that its type satisfies the type of its parameter.
pub open spec fn args_generated(
    es: Seq<Expr>,
    ts: Seq<(Identifier, TypedExpr)>,
    before: CheckState,
    after: CheckState,
    res: QueryableResolvedItems,
) -> bool
    decreases es, 1int,
{
    if es.len() == 0 {
        kept(before, after)
    } else {
        let t = ts[es.len() - 1].1;
        exists|mid: CheckState, last: CheckState, p: TypeVariable|
            #![trigger mid.ctx, last.ctx, TypeConstraint::satisfies_spec(p, typed_expr_ty(t), t.span)]
            {
                &&& args_generated(es.subrange(0, es.len() - 1), ts.subrange(0, es.len() - 1), before, mid, res)
                &&& generated(es[es.len() - 1], t, mid, last, res)
                &&& added(last, after, seq![TypeConstraint::satisfies_spec(p, typed_expr_ty(t), t.span)])
            }
    }
}

/// Generating a call: once the callee is at hand (which records nothing when it was
/// type checked before, and otherwise generates the callee's body, so that the
/// constraints and errors only grow), a call with the wrong number of
/// arguments reports exactly that error and records nothing; otherwise its arguments
/// are generated, and then at most one constraint that the callee's body satisfies its
/// return type is appended, when the callee is first monomorphized for these argument
/// types.
pub open spec fn call_generated(
    call: resolved::FunctionCall,
    kind: TypedExprKind,
    before: CheckState,
    after: CheckState,
    res: QueryableResolvedItems,
) -> bool
    decreases call, 1int,
{
    let decl = res.functions@[call.function.0 as int];
    exists|s1: CheckState|
        #![trigger s1.ctx]
        {
            &&& before.grows_to(&s1)
            &&& extends(before.monomorphized_functions@, s1.monomorphized_functions@)
            &&& has_key(before.typed_functions@, call.function) ==> kept(before, s1)
            &&& call.args@.len() != decl.params@.len() ==> {
                &&& after.ctx.constraints@ == s1.ctx.constraints@
                &&& error_models(after.errors@) == error_models(s1.errors@).push((arity_error(&res, call), call.span))
                &&& after.monomorphized_functions@ == s1.monomorphized_functions@
            }
            &&& call.args@.len() == decl.params@.len() ==> (kind matches TypedExprKind::FunctionCall { args, .. }
                && exists|s2: CheckState|
                #![trigger s2.ctx]
                args_generated(call.args@, args@, s1, s2, res) && after.errors@ == s2.errors@ && monomorphized(
                    s2,
                    after,
                    call.function,
                    slot_types(arg_slots(args@), s2.ctx.tys()),
                ))
        }
}

/// Monomorphizing function `id` for the argument types `sig` from `before` to `after`:
/// when a form for them was made before, nothing changes; otherwise exactly one
/// constraint, that the callee's body satisfies its return type, and exactly one
/// monomorphized form, of `id` for `sig`, are added.
pub open spec fn monomorphized(before: CheckState, after: CheckState, id: crate::ids::FunctionId, sig: Seq<TypeModel>) -> bool {
    if mono_has(before.monomorphized_functions@, id, sig) {
        &&& after.ctx.constraints@ == before.ctx.constraints@
        &&& after.monomorphized_functions@ == before.monomorphized_functions@
    } else {
        &&& after.ctx.constraints@.drop_last() == before.ctx.constraints@
        &&& after.ctx.constraints@.len() == before.ctx.constraints@.len() + 1
        &&& after.ctx.constraints@.last().kind is Satisfies
        &&& after.monomorphized_functions@.drop_last() == before.monomorphized_functions@
        &&& after.monomorphized_functions@.len() == before.monomorphized_functions@.len() + 1
        &&& after.monomorphized_functions@.last().0 == id
        &&& type_models(after.monomorphized_functions@.last().1@) == sig
    }
}

/// Generating the operands of an arithmetic intrinsic into `a` and `b`, then appending
/// the constraints that both are integers.
pub open spec fn math_generated(
    i: resolved::Intrinsic,
    a: TypedExpr,
    b: TypedExpr,
    before: CheckState,
    after: CheckState,
    res: QueryableResolvedItems,
) -> bool
    decreases i, 0int,
{
    i.args@.len() == 2 && exists|m1: CheckState, m2: CheckState|
        #![trigger m1.ctx, m2.ctx]
        {
            &&& generated(i.args@[0], a, before, m1, res)
            &&& generated(i.args@[1], b, m1, m2, res)
            &&& added(
                m2,
                after,
                seq![
                    TypeConstraint::unify_spec(TypeVariable(3), typed_expr_ty(a), a.span),
                    TypeConstraint::unify_spec(TypeVariable(3), typed_expr_ty(b), b.span),
                ],
            )
        }
}

/// Generating an intrinsic call written at `span` into `ti`: its arguments in order,
/// then the constraints on them.
pub open spec fn intrinsic_generated(
    i: resolved::Intrinsic,
    ti: typed::Intrinsic,
    span: Span,
    before: CheckState,
    after: CheckState,
    res: QueryableResolvedItems,
) -> bool
    decreases i, 1int,
{
    match i.intrinsic {
        IntrinsicName::Puts => ti matches typed::Intrinsic::Puts(a) && i.args@.len() >= 1 && exists|mid: CheckState|
            #![trigger mid.ctx]
            generated(i.args@[0], *a, before, mid, res) && added(
                mid,
                after,
                seq![TypeConstraint::unify_spec(TypeVariable(1), typed_expr_ty(*a), a.span)],
            ),
        IntrinsicName::Add => ti matches typed::Intrinsic::Add(a, b) && math_generated(i, *a, *b, before, after, res),
        IntrinsicName::Subtract => ti matches typed::Intrinsic::Subtract(a, b) && math_generated(
            i,
            *a,
            *b,
            before,
            after,
            res,
        ),
        IntrinsicName::Multiply => ti matches typed::Intrinsic::Multiply(a, b) && math_generated(
            i,
            *a,
            *b,
            before,
            after,
            res,
        ),
        IntrinsicName::Divide => ti matches typed::Intrinsic::Divide(a, b) && math_generated(
            i,
            *a,
            *b,
            before,
            after,
            res,
        ),
        IntrinsicName::Malloc => ti matches typed::Intrinsic::Malloc(a) && i.args@.len() >= 1 && exists|mid: CheckState|
            #![trigger mid.ctx]
            generated(i.args@[0], *a, before, mid, res) && added(
                mid,
                after,
                seq![TypeConstraint::unify_spec(typed_expr_ty(*a), TypeVariable(3), a.span)],
            ),
        IntrinsicName::SizeOf => ti matches typed::Intrinsic::SizeOf(a) && i.args@.len() >= 1 && generated(i.args@[0], *a, before, after, res),
        IntrinsicName::Equals => ti matches typed::Intrinsic::Equals(a, b) && i.args@.len() == 2 && exists|m1: CheckState, m2: CheckState|
            #![trigger m1.ctx, m2.ctx]
            {
                &&& generated(i.args@[0], *a, before, m1, res)
                &&& generated(i.args@[1], *b, m1, m2, res)
                &&& added(m2, after, seq![TypeConstraint::unify_spec(typed_expr_ty(*a), typed_expr_ty(*b), span)])
            },
    }
}

/// One more expression generated after a list of them.
pub proof fn lemma_exprs_generated_push(
    es: Seq<Expr>,
    ts: Seq<TypedExpr>,
    e: Expr,
    t: TypedExpr,
    before: CheckState,
    mid: CheckState,
    after: CheckState,
    res: QueryableResolvedItems,
)
    requires
        es.len() == ts.len(),
        exprs_generated(es, ts, before, mid, res),
        generated(e, t, mid, after, res),
    ensures
        exprs_generated(es.push(e), ts.push(t), before, after, res),
{
    let es2 = es.push(e);
    let ts2 = ts.push(t);
    assert(es2.subrange(0, es2.len() - 1) =~= es);
    assert(ts2.subrange(0, es2.len() - 1) =~= ts);
    assert(es2[es2.len() - 1] == e);
    assert(ts2[es2.len() - 1] == t);
    assert(exprs_generated(es2.subrange(0, es2.len() - 1), ts2.subrange(0, es2.len() - 1), before, mid, res));
}

/// One more binding generated after a list of them.
pub proof fn lemma_bindings_generated_push(
    bs: Seq<resolved::Binding>,
    ts: Seq<(Identifier, TypedExpr)>,
    b: resolved::Binding,
    t: (Identifier, TypedExpr),
    before: CheckState,
    mid: CheckState,
    last: CheckState,
    after: CheckState,
    res: QueryableResolvedItems,
)
    requires
        bs.len() == ts.len(),
        bindings_generated(bs, ts, before, mid, res),
        generated(b.expression, t.1, mid, last, res),
        kept(last, after),
    ensures
        bindings_generated(bs.push(b), ts.push(t), before, after, res),
{
    let bs2 = bs.push(b);
    let ts2 = ts.push(t);
    assert(bs2.subrange(0, bs2.len() - 1) =~= bs);
    assert(ts2.subrange(0, bs2.len() - 1) =~= ts);
    assert(bs2[bs2.len() - 1] == b);
    assert(ts2[bs2.len() - 1] == t);
    assert(bindings_generated(bs2.subrange(0, bs2.len() - 1), ts2.subrange(0, bs2.len() - 1), before, mid, res));
    assert(generated(bs2[bs2.len() - 1].expression, ts2[bs2.len() - 1].1, mid, last, res));
}

/// One more argument generated after a list of them, with its constraint.
pub proof fn lemma_args_generated_push(
    es: Seq<Expr>,
    ts: Seq<(Identifier, TypedExpr)>,
    e: Expr,
    t: (Identifier, TypedExpr),
    p: TypeVariable,
    before: CheckState,
    mid: CheckState,
    last: CheckState,
    after: CheckState,
    res: QueryableResolvedItems,
)
    requires
        es.len() == ts.len(),
        args_generated(es, ts, before, mid, res),
        generated(e, t.1, mid, last, res),
        added(last, after, seq![TypeConstraint::satisfies_spec(p, typed_expr_ty(t.1), t.1.span)]),
    ensures
        args_generated(es.push(e), ts.push(t), before, after, res),
{
    let es2 = es.push(e);
    let ts2 = ts.push(t);
    assert(es2.subrange(0, es2.len() - 1) =~= es);
    assert(ts2.subrange(0, es2.len() - 1) =~= ts);
    assert(es2[es2.len() - 1] == e);
    assert(ts2[es2.len() - 1] == t);
    assert(args_generated(es2.subrange(0, es2.len() - 1), ts2.subrange(0, es2.len() - 1), before, mid, res));
    assert(generated(es2[es2.len() - 1], ts2[es2.len() - 1].1, mid, last, res));
    assert(TypeConstraint::satisfies_spec(p, typed_expr_ty(t.1), t.1.span) == TypeConstraint::satisfies_spec(
        p,
        typed_expr_ty(ts2[es2.len() - 1].1),
        ts2[es2.len() - 1].1.span,
    ));
}


/// What constraint generation asks of the state and the program: the state is
/// consistent, the functions can be ranked so that none calls itself, and every declared
/// type has its slot.
pub open spec fn gen_ready(st: &CheckState, res: &QueryableResolvedItems, rank: Seq<nat>) -> bool {
    &&& st.inv(res)
    &&& ranked(*res, rank)
    &&& types_mapped(st, res.types@.len() as nat)
}

/// A step that changed neither the scopes nor the type map is a generation step.
pub proof fn lemma_gen_same_scopes(a: &CheckState, b: &CheckState, res: &QueryableResolvedItems)
    requires
        b.inv(res),
        a.grows_to(b),
        b.type_map@ == a.type_map@,
        b.variable_scope@ == a.variable_scope@,
        b.typed_functions@ == a.typed_functions@,
        b.monomorphized_functions@ == a.monomorphized_functions@ || (b.monomorphized_functions@.drop_last()
            == a.monomorphized_functions@ && b.monomorphized_functions@.len() == a.monomorphized_functions@.len() + 1),
    ensures
        gen(a, b, res),
{
    lemma_scopes_grow_refl(a.scopes());
    lemma_keys_kept_refl(a.typed_functions@);
    lemma_entries_kept_refl(a.typed_functions@);
    lemma_fns_generated_keep(a, b, res);
    if b.monomorphized_functions@ == a.monomorphized_functions@ {
        crate::checker::lemma_extends_refl(a.monomorphized_functions@);
    } else {
        assert(b.monomorphized_functions@.subrange(0, a.monomorphized_functions@.len() as int)
            =~= b.monomorphized_functions@.drop_last());
    }
}

/// The typed functions of a state stay generated in a state that only grew from it
/// and has the same typed functions.
pub proof fn lemma_fns_generated_keep(a: &CheckState, b: &CheckState, res: &QueryableResolvedItems)
    requires
        a.grows_to(b),
        b.typed_functions@ == a.typed_functions@,
    ensures
        fns_generated(a.typed_functions@, a.ctx.constraints@, error_models(a.errors@), *res) ==> fns_generated(
            b.typed_functions@,
            b.ctx.constraints@,
            error_models(b.errors@),
            *res,
        ),
{
    if fns_generated(a.typed_functions@, a.ctx.constraints@, error_models(a.errors@), *res) {
        lemma_fns_generated_grow(
            a.typed_functions@,
            a.ctx.constraints@,
            b.ctx.constraints@,
            error_models(a.errors@),
            error_models(b.errors@),
            *res,
        );
    }
}

/// A step that changed neither the table, the constraints nor the errors grows nothing.
pub proof fn lemma_grows_same(a: &CheckState, b: &CheckState)
    requires
        b.ctx == a.ctx,
        b.errors@ == a.errors@,
    ensures
        a.grows_to(b),
{
    lemma_grows_refl(a);
}

/// A recorded constraint stays recorded.
pub proof fn lemma_contains_grow(a: &CheckState, b: &CheckState, c: TypeConstraint)
    requires
        a.grows_to(b),
        a.ctx.constraints@.contains(c),
    ensures
        b.ctx.constraints@.contains(c),
{
    let i = choose|i: int| 0 <= i < a.ctx.constraints@.len() && a.ctx.constraints@[i] == c;
    assert(b.ctx.constraints@.subrange(0, a.ctx.constraints@.len() as int)[i] == b.ctx.constraints@[i]);
}

/// A sound typed expression stays sound as the table grows.
pub proof fn lemma_expr_ok_grow(t: TypedExpr, n: nat, m: nat, k: nat)
    requires
        typed::expr_ok(t, n, k),
        n <= m,
    ensures
        typed::expr_ok(t, m, k),
{
}

/// Type checks an expression: generates its typed form and the constraints on it.
#[verifier::rlimit(40)]
pub fn type_check_expr(
    st: &mut CheckState,
    res: &QueryableResolvedItems,
    e: &Expr,
    Ghost(rank): Ghost<Seq<nat>>,
    Ghost(bound): Ghost<Set<SymbolId>>,
    Ghost(r): Ghost<nat>,
) -> (t: TypedExpr)
    requires
        gen_ready(old(st), res, rank),
        expr_ok(*e, *res, rank, bound, r),
        scopes_bind(old(st).scopes(), bound),
        old(st).variable_scope@.len() > 0,
    ensures
        gen(old(st), final(st), res),
        typed::expr_ok(t, final(st).n(), res.interner.texts().len()),
        typed_from(*e, t, old(st), final(st), res),
        shaped(*e, t, *res),
        generated(*e, t, *old(st), *final(st), *res),
    decreases 3 * r, e, 1int,
{
    let ghost st0 = *st;
    let ghost k = res.interner.texts().len();
    let ghost ntypes = res.types@.len() as nat;
    proof {
        assert(decreases_to!(e => e.kind));
    }
    match &e.kind {
        ExprKind::Literal(lit) => {
            let ty = st.insert_type(res, PetrType::Literal(lit.copy()));
            proof {
                lemma_gen_same_scopes(&st0, st, res);
            }
            let t = TypedExpr { kind: TypedExprKind::Literal { value: lit.copy(), ty }, span: e.span };
            proof {
                assert(expr_vars(t) =~= set![ty.0]);
                assert(expr_syms(t) =~= Set::<usize>::empty());
            }
            t
        },
        ExprKind::List(exprs) => {
            if exprs.len() == 0 {
                let t = TypedExpr { kind: TypedExprKind::List { elements: Vec::new(), ty: st.ctx.unit_ty }, span: e.span };
                proof {
                    lemma_gen_refl(st, res);
                    assert(exprs_vars(Seq::<TypedExpr>::empty()) =~= Set::<usize>::empty());
                    assert(exprs_syms(Seq::<TypedExpr>::empty()) =~= Set::<usize>::empty());
                    assert(expr_vars(t) =~= set![0usize]);
                    assert(expr_syms(t) =~= Set::<usize>::empty());
                    assert(t.kind->List_elements@.len() == 0);
                    assert(shaped_list(exprs@, t.kind->List_elements@, *res));
                }
                return t;
            }
            let elements = type_check_exprs(st, res, exprs, Ghost(rank), Ghost(bound), Ghost(r));
            let ghost mid = *st;
            let first_ty = st.expr_ty(&elements[0]);
            proof {
                lemma_typed_expr_ty_below(elements@[0], st.n(), k);
                lemma_gen_refl(st, res);
            }
            let mut i: usize = 1;
            proof {
                assert(st.ctx.constraints@ =~= mid.ctx.constraints@ + list_unifies(elements@).subrange(0, 0));
            }
            while i < elements.len()
                invariant
                    1 <= i <= elements@.len(),
                    k == res.interner.texts().len(),
                    gen(&mid, st, res),
                    st.ctx.constraints@ == mid.ctx.constraints@ + list_unifies(elements@).subrange(0, i - 1),
                    st.errors@ == mid.errors@,
                    st.monomorphized_functions@ == mid.monomorphized_functions@,
                    st.ctx.tys() == mid.ctx.tys(),
                    st.n() == mid.n(),
                    first_ty == typed_expr_ty(elements@[0]),
                    first_ty.0 < st.n(),
                    forall|j: int| 0 <= j < elements@.len() ==> typed::expr_ok(#[trigger] elements@[j], mid.n(), k),
                    forall|j: int|
                        1 <= j < i ==> st.ctx.constraints@.contains(
                            TypeConstraint::unify_spec(first_ty, typed_expr_ty(#[trigger] elements@[j]), elements@[j].span),
                        ),
                decreases elements@.len() - i,
            {
                let second_ty = st.expr_ty(&elements[i]);
                proof {
                    lemma_typed_expr_ty_below(elements@[i as int], st.n(), k);
                }
                let ghost before = *st;
                st.unify(res, first_ty, second_ty, elements[i].span());
                proof {
                    assert(list_unifies(elements@)[i - 1] == TypeConstraint::unify_spec(
                        first_ty,
                        second_ty,
                        elements@[i as int].span,
                    ));
                    assert(list_unifies(elements@).subrange(0, i as int) =~= list_unifies(elements@).subrange(
                        0,
                        i - 1,
                    ).push(list_unifies(elements@)[i - 1]));
                    lemma_gen_same_scopes(&before, st, res);
                    lemma_gen_trans(&mid, &before, st, res);
                    assert forall|j: int| 1 <= j < i + 1 implies st.ctx.constraints@.contains(
                        TypeConstraint::unify_spec(first_ty, typed_expr_ty(#[trigger] elements@[j]), elements@[j].span),
                    ) by {
                        if j < i {
                            lemma_contains_grow(&before, st, TypeConstraint::unify_spec(
                                first_ty,
                                typed_expr_ty(elements@[j]),
                                elements@[j].span,
                            ));
                        } else {
                            assert(st.ctx.constraints@[st.ctx.constraints@.len() - 1] == TypeConstraint::unify_spec(
                                first_ty,
                                typed_expr_ty(elements@[j]),
                                elements@[j].span,
                            ));
                        }
                    }
                }
                i += 1;
            }
            let ghost before = *st;
            let ty = st.insert_type(res, PetrType::List(first_ty));
            proof {
                lemma_gen_same_scopes(&before, st, res);
                lemma_gen_trans(&mid, &before, st, res);
                lemma_gen_trans(&st0, &mid, st, res);
                assert forall|j: int| 1 <= j < elements@.len() implies st.ctx.constraints@.contains(
                    TypeConstraint::unify_spec(first_ty, typed_expr_ty(#[trigger] elements@[j]), elements@[j].span),
                ) by {
                    lemma_contains_grow(&before, st, TypeConstraint::unify_spec(
                        first_ty,
                        typed_expr_ty(elements@[j]),
                        elements@[j].span,
                    ));
                }
                assert forall|j: int| 0 <= j < elements@.len() implies typed::expr_ok(#[trigger] elements@[j], st.n(), k) by {
                    lemma_expr_ok_grow(elements@[j], mid.n(), st.n(), k);
                }
                lemma_exprs_ok(elements@, st.n(), k);
                assert(list_unifies(elements@).subrange(0, elements@.len() - 1) =~= list_unifies(elements@));
                assert(added(mid, *st, list_unifies(elements@)));
                assert(exprs_generated(exprs@, elements@, st0, mid, *res));
            }
            TypedExpr { kind: TypedExprKind::List { elements, ty }, span: e.span }
        },
        ExprKind::FunctionCall(call) => {
            let kind = type_check_call(st, res, call, Ghost(rank), Ghost(bound), Ghost(r));
            TypedExpr { kind, span: e.span }
        },
        ExprKind::Unit => {
            proof {
                lemma_gen_refl(st, res);
            }
            TypedExpr { kind: TypedExprKind::Unit, span: e.span }
        },
        ExprKind::ErrorRecovery => {
            proof {
                lemma_gen_refl(st, res);
            }
            TypedExpr { kind: TypedExprKind::ErrorRecovery(e.span), span: e.span }
        },
        ExprKind::Variable { name, ty } => {
            // look up variable in scope
            // find its expr return type
            let var_ty = st.find_variable(*name).unwrap();
            proof {
                lemma_scopes_lookup_member(st.scopes(), name.id);
                let (s, j) = choose|s: int, j: int|
                    0 <= s < st.scopes().len() && 0 <= j < st.scopes()[s].len() && st.scopes()[s][j].1 == var_ty;
                assert(st.variable_scope@[s]@[j].1.0 < st.n());
            }
            let ty2 = st.to_type_var(res, ty, Ghost(ntypes));
            let ghost mid = *st;
            st.unify(res, var_ty, ty2, name.span());
            proof {
                lemma_gen_same_scopes(&mid, st, res);
                lemma_gen_trans(&st0, &mid, st, res);
                assert(st.ctx.constraints@[st.ctx.constraints@.len() - 1] == TypeConstraint::unify_spec(
                    var_ty,
                    ty2,
                    name.span,
                ));
                assert(st.ctx.constraints@ =~= st0.ctx.constraints@ + seq![
                    TypeConstraint::unify_spec(var_ty, ty2, name.span),
                ]);
            }
            let t = TypedExpr { kind: TypedExprKind::Variable { ty: ty2, name: *name }, span: e.span };
            proof {
                assert(expr_vars(t) =~= set![ty2.0]);
                assert(expr_syms(t) =~= set![name.id.0]);
            }
            t
        },
        ExprKind::Intrinsic(intrinsic) => {
            type_check_intrinsic(st, res, intrinsic, e.span, Ghost(rank), Ghost(bound), Ghost(r))
        },
        ExprKind::TypeConstructor(parent_type_id, args) => {
            // This ExprKind only shows up in the body of type constructor functions, and
            // is basically a noop. The surrounding function decl will handle type checking for
            // the type constructor.
            let targs = type_check_exprs(st, res, args, Ghost(rank), Ghost(bound), Ghost(r));
            // every declared type has its slot at its own position of the type map
            let ty = st.type_map[parent_type_id.0].1;
            proof {
                assert(crate::checker::map_entry_ok(st.type_map@[parent_type_id.0 as int], st.n(), res));
                lemma_exprs_ok(targs@, st.n(), k);
            }
            TypedExpr { kind: TypedExprKind::TypeConstructor { ty, args: targs }, span: e.span }
        },
        ExprKind::ExpressionWithBindings { bindings, expression } => {
            st.push_scope(res);
            let ghost pushed = *st;
            proof {
                assert(pushed.variable_scope@.len() > 0);
                crate::generate::lemma_scopes_bind_push(st0.scopes(), bound);
                lemma_gen_refl(st, res);
                assert(bindings@.subrange(0, 0) =~= Seq::<resolved::Binding>::empty());
                assert(bound + binding_names(Seq::<resolved::Binding>::empty()) =~= bound);
            }
            let mut type_checked_bindings: Vec<(Identifier, TypedExpr)> = Vec::new();
            let mut i: usize = 0;
            while i < bindings.len()
                invariant
                    i <= bindings@.len(),
                    k == res.interner.texts().len(),
                    e.kind == (ExprKind::ExpressionWithBindings { bindings: *bindings, expression: *expression }),
                    expr_ok(*e, *res, rank, bound, r),
                    gen_ready(st, res, rank),
                    gen(&pushed, st, res),
                    pushed.variable_scope@.len() > 0,
                    scopes_bind(st.scopes(), bound + binding_names(bindings@.subrange(0, i as int))),
                    type_checked_bindings@.len() == i,
                    forall|j: int|
                        0 <= j < i ==> {
                            &&& typed::expr_ok((#[trigger] type_checked_bindings@[j]).1, st.n(), k)
                            &&& type_checked_bindings@[j].0 == bindings@[j].name
                            &&& type_checked_bindings@[j].1.span == bindings@[j].expression.span
                            &&& shaped(bindings@[j].expression, type_checked_bindings@[j].1, *res)
                            &&& bindings@[j].name.id.0 < k
                        },
                    bindings_generated(bindings@.subrange(0, i as int), type_checked_bindings@, st0, *st, *res),
                decreases bindings@.len() - i,
            {
                let ghost before = *st;
                proof {
                    lemma_bindings_ok_index(bindings@, *res, rank, bound, r, i as int);
                    assert(decreases_to!(e.kind => *bindings));
                    assert(decreases_to!(*bindings => bindings@));
                    assert(decreases_to!(bindings@ => bindings@[i as int]));
                    assert(decreases_to!(bindings@[i as int] => bindings@[i as int].expression));
                }
                let binding_ty = type_check_expr(
                    st,
                    res,
                    &bindings[i].expression,
                    Ghost(rank),
                    Ghost(bound + binding_names(bindings@.subrange(0, i as int))),
                    Ghost(r),
                );
                let binding_expr_return_ty = st.expr_ty(&binding_ty);
                proof {
                    lemma_typed_expr_ty_below(binding_ty, st.n(), k);
                }
                let ghost mid = *st;
                st.insert_variable(res, bindings[i].name, binding_expr_return_ty);
                proof {
                    lemma_grows_same(&mid, st);
                    lemma_same_fns_kept(&mid, st);
                    assert(gen(&mid, st, res));
                    lemma_gen_trans(&before, &mid, st, res);
                    lemma_gen_trans(&pushed, &before, st, res);
                    let names_i = bound + binding_names(bindings@.subrange(0, i as int));
                    let names_next = bound + binding_names(bindings@.subrange(0, i + 1));
                    lemma_scopes_bind_grow(before.scopes(), mid.scopes(), names_i);
                    assert forall|id: SymbolId| names_next.contains(id) implies (#[trigger] scopes_lookup(
                        st.scopes(),
                        id,
                    )) is Some by {
                        if id != bindings@[i as int].name.id {
                            assert(scopes_lookup(st.scopes(), id) == scopes_lookup(mid.scopes(), id));
                            if !bound.contains(id) {
                                let pre = bindings@.subrange(0, i + 1);
                                let jj = choose|jj: int| 0 <= jj < pre.len() && (#[trigger] pre[jj]).name.id == id;
                                assert(bindings@.subrange(0, i as int)[jj] == bindings@[jj]);
                                assert(binding_names(bindings@.subrange(0, i as int)).contains(id));
                            }
                        }
                    }
                    assert forall|j: int| 0 <= j < i implies typed::expr_ok(
                        (#[trigger] type_checked_bindings@[j]).1,
                        st.n(),
                        k,
                    ) by {
                        lemma_expr_ok_grow(type_checked_bindings@[j].1, before.n(), st.n(), k);
                    }
                }
                let ghost tb_before = type_checked_bindings@;
                type_checked_bindings.push((bindings[i].name, binding_ty));
                proof {
                    lemma_bindings_generated_push(
                        bindings@.subrange(0, i as int),
                        tb_before,
                        bindings@[i as int],
                        (bindings@[i as int].name, binding_ty),
                        st0,
                        before,
                        mid,
                        *st,
                        *res,
                    );
                    assert(bindings@.subrange(0, i + 1) =~= bindings@.subrange(0, i as int).push(bindings@[i as int]));
                }
                i += 1;
            }
            proof {
                assert(bindings@.subrange(0, bindings@.len() as int) =~= bindings@);
                assert(decreases_to!(e.kind => *expression));
            }
            let ghost before_body = *st;
            let body = type_check_expr(
                st,
                res,
                expression,
                Ghost(rank),
                Ghost(bound + binding_names(bindings@)),
                Ghost(r),
            );
            let ghost before_pop = *st;
            st.pop_scope(res);
            proof {
                lemma_gen_trans(&pushed, &before_body, &before_pop, res);
                lemma_grows_same(&st0, &pushed);
                lemma_grows_trans(&st0, &pushed, &before_pop);
                lemma_grows_same(&before_pop, st);
                lemma_grows_trans(&st0, &before_pop, st);
                crate::generate::lemma_scopes_grow_pop(st0.scopes(), Seq::empty(), before_pop.scopes());
                assert forall|j: int| 0 <= j < type_checked_bindings@.len() implies typed::expr_ok(
                    (#[trigger] type_checked_bindings@[j]).1,
                    st.n(),
                    k,
                ) && type_checked_bindings@[j].0.id.0 < k by {
                    lemma_expr_ok_grow(type_checked_bindings@[j].1, before_body.n(), st.n(), k);
                }
                lemma_named_exprs_ok(type_checked_bindings@, st.n(), k);
                lemma_shaped_bindings(bindings@, type_checked_bindings@, *res);
                assert(bindings_generated(bindings@, type_checked_bindings@, st0, before_body, *res));
                assert(generated(**expression, body, before_body, before_pop, *res));
            }
            TypedExpr {
                kind: TypedExprKind::ExprWithBindings {
                    bindings: type_checked_bindings,
                    expression: Box::new(body),
                },
                span: e.span,
            }
        },
        ExprKind::If { condition, then_branch, else_branch } => {
            let condition = type_check_expr(st, res, condition, Ghost(rank), Ghost(bound), Ghost(r));
            let ghost s1 = *st;
            let condition_ty = st.expr_ty(&condition);
            proof {
                lemma_gen_n(&st0, st, res);
                lemma_typed_expr_ty_below(condition, st.n(), k);
                lemma_scopes_bind_grow(st0.scopes(), st.scopes(), bound);
            }
            let bool_ty = st.ctx.bool_ty;
            st.unify(res, condition_ty, bool_ty, condition.span());
            let ghost s2 = *st;
            proof {
                lemma_gen_same_scopes(&s1, st, res);
                lemma_gen_trans(&st0, &s1, st, res);
                assert(st.ctx.constraints@[st.ctx.constraints@.len() - 1] == TypeConstraint::unify_spec(
                    condition_ty,
                    TypeVariable(2),
                    condition.span,
                ));
                lemma_scopes_bind_grow(st0.scopes(), st.scopes(), bound);
            }
            let then_branch = type_check_expr(st, res, then_branch, Ghost(rank), Ghost(bound), Ghost(r));
            let ghost s3 = *st;
            let then_ty = st.expr_ty(&then_branch);
            proof {
                lemma_gen_trans(&st0, &s2, st, res);
                lemma_typed_expr_ty_below(then_branch, st.n(), k);
                lemma_scopes_bind_grow(st0.scopes(), st.scopes(), bound);
            }
            let else_branch = type_check_expr(st, res, else_branch, Ghost(rank), Ghost(bound), Ghost(r));
            let ghost s4 = *st;
            let else_ty = st.expr_ty(&else_branch);
            proof {
                lemma_gen_trans(&st0, &s3, st, res);
                lemma_gen_n(&s3, st, res);
                lemma_typed_expr_ty_below(else_branch, st.n(), k);
            }
            st.unify(res, then_ty, else_ty, else_branch.span());
            proof {
                lemma_gen_same_scopes(&s4, st, res);
                lemma_gen_trans(&st0, &s4, st, res);
                assert(st.ctx.constraints@[st.ctx.constraints@.len() - 1] == TypeConstraint::unify_spec(
                    then_ty,
                    else_ty,
                    else_branch.span,
                ));
                lemma_gen_trans(&s2, &s3, &s4, res);
                lemma_grows_trans(&s2, &s4, st);
                lemma_contains_grow(&s2, st, TypeConstraint::unify_spec(condition_ty, TypeVariable(2), condition.span));
                lemma_expr_ok_grow(condition, s1.n(), st.n(), k);
                lemma_expr_ok_grow(then_branch, s3.n(), st.n(), k);
                assert(s2.ctx.constraints@ =~= s1.ctx.constraints@ + seq![
                    TypeConstraint::unify_spec(condition_ty, TypeVariable(2), condition.span),
                ]);
                assert(st.ctx.constraints@ =~= s4.ctx.constraints@ + seq![
                    TypeConstraint::unify_spec(then_ty, else_ty, else_branch.span),
                ]);
            }
            TypedExpr {
                kind: TypedExprKind::If {
                    condition: Box::new(condition),
                    then_branch: Box::new(then_branch),
                    else_branch: Box::new(else_branch),
                },
                span: e.span,
            }
        },
    }
}

/// Type checks each expression of a list, in order.
pub fn type_check_exprs(
    st: &mut CheckState,
    res: &QueryableResolvedItems,
    es: &Vec<Expr>,
    Ghost(rank): Ghost<Seq<nat>>,
    Ghost(bound): Ghost<Set<SymbolId>>,
    Ghost(r): Ghost<nat>,
) -> (ts: Vec<TypedExpr>)
    requires
        gen_ready(old(st), res, rank),
        exprs_ok(es@, *res, rank, bound, r),
        scopes_bind(old(st).scopes(), bound),
        old(st).variable_scope@.len() > 0,
    ensures
        gen(old(st), final(st), res),
        typed_list(es@, ts@),
        shaped_list(es@, ts@, *res),
        forall|j: int| 0 <= j < ts@.len() ==> typed::expr_ok(#[trigger] ts@[j], final(st).n(), res.interner.texts().len()),
        exprs_generated(es@, ts@, *old(st), *final(st), *res),
    decreases 3 * r, es, 1int,
{
    let ghost st0 = *st;
    let ghost k = res.interner.texts().len();
    let mut out: Vec<TypedExpr> = Vec::new();
    let mut i: usize = 0;
    proof {
        lemma_gen_refl(st, res);
    }
    while i < es.len()
        invariant
            i <= es@.len(),
            k == res.interner.texts().len(),
            exprs_ok(es@, *res, rank, bound, r),
            gen_ready(st, res, rank),
            gen(&st0, st, res),
            st0.variable_scope@.len() > 0,
            scopes_bind(st0.scopes(), bound),
            out@.len() == i,
            forall|j: int| 0 <= j < i ==> (#[trigger] out@[j]).span == es@[j].span,
            forall|j: int| 0 <= j < i ==> shaped(es@[j], #[trigger] out@[j], *res),
            forall|j: int| 0 <= j < i ==> typed::expr_ok(#[trigger] out@[j], st.n(), k),
            exprs_generated(es@.subrange(0, i as int), out@, st0, *st, *res),
        decreases es@.len() - i,
    {
        proof {
            lemma_exprs_ok_index(es@, *res, rank, bound, r, i as int);
            lemma_scopes_bind_grow(st0.scopes(), st.scopes(), bound);
            assert(decreases_to!(es => es@));
            assert(decreases_to!(es@ => es@[i as int]));
        }
        let ghost before = *st;
        let t = type_check_expr(st, res, &es[i], Ghost(rank), Ghost(bound), Ghost(r));
        proof {
            lemma_gen_trans(&st0, &before, st, res);
            assert forall|j: int| 0 <= j < i implies typed::expr_ok(#[trigger] out@[j], st.n(), k) by {
                lemma_expr_ok_grow(out@[j], before.n(), st.n(), k);
            }
        }
        let ghost out_before = out@;
        out.push(t);
        proof {
            lemma_exprs_generated_push(es@.subrange(0, i as int), out_before, es@[i as int], t, st0, before, *st, *res);
            assert(es@.subrange(0, i + 1) =~= es@.subrange(0, i as int).push(es@[i as int]));
        }
        i += 1;
    }
    proof {
        lemma_shaped_list(es@, out@, *res);
        assert(es@.subrange(0, es@.len() as int) =~= es@);
    }
    out
}


/// Type checks an intrinsic call written at `span`.
pub fn type_check_intrinsic(
    st: &mut CheckState,
    res: &QueryableResolvedItems,
    intrinsic: &resolved::Intrinsic,
    span: Span,
    Ghost(rank): Ghost<Seq<nat>>,
    Ghost(bound): Ghost<Set<SymbolId>>,
    Ghost(r): Ghost<nat>,
) -> (t: TypedExpr)
    requires
        gen_ready(old(st), res, rank),
        intrinsic.args@.len() == intrinsic_arity(intrinsic.intrinsic),
        exprs_ok(intrinsic.args@, *res, rank, bound, r),
        scopes_bind(old(st).scopes(), bound),
        old(st).variable_scope@.len() > 0,
    ensures
        gen(old(st), final(st), res),
        typed::expr_ok(t, final(st).n(), res.interner.texts().len()),
        t.span == span,
        t.kind matches TypedExprKind::Intrinsic { ty, intrinsic: ti } && intrinsic_typed(
            intrinsic.intrinsic,
            ti,
            ty,
            span,
            final(st).ctx.constraints@,
            intrinsic.args@,
        ),
        t.kind matches TypedExprKind::Intrinsic { intrinsic: ti, .. } && shaped_intrinsic(*intrinsic, ti, *res),
        t.kind matches TypedExprKind::Intrinsic { intrinsic: ti, .. } && intrinsic_generated(
            *intrinsic,
            ti,
            span,
            *old(st),
            *final(st),
            *res,
        ),
    decreases 3 * r, intrinsic, 1int,
{
    let ghost st0 = *st;
    let ghost k = res.interner.texts().len();
    proof {
        lemma_exprs_ok_index(intrinsic.args@, *res, rank, bound, r, 0);
        assert(decreases_to!(intrinsic => intrinsic.args));
        assert(decreases_to!(intrinsic.args => intrinsic.args@));
        assert(decreases_to!(intrinsic.args@ => intrinsic.args@[0]));
    }
    match intrinsic.intrinsic {
        IntrinsicName::Puts => {
            // puts takes a single string and returns unit
            let arg = type_check_expr(st, res, &intrinsic.args[0], Ghost(rank), Ghost(bound), Ghost(r));
            let arg_ty = st.expr_ty(&arg);
            proof {
                lemma_typed_expr_ty_below(arg, st.n(), k);
            }
            let ghost mid = *st;
            let string_ty = st.ctx.string_ty;
            st.unify(res, string_ty, arg_ty, arg.span());
            proof {
                lemma_gen_same_scopes(&mid, st, res);
                lemma_gen_trans(&st0, &mid, st, res);
                assert(st.ctx.constraints@[st.ctx.constraints@.len() - 1] == TypeConstraint::unify_spec(
                    TypeVariable(1),
                    arg_ty,
                    arg.span,
                ));
                assert(st.ctx.constraints@ =~= mid.ctx.constraints@ + seq![
                    TypeConstraint::unify_spec(TypeVariable(1), arg_ty, arg.span),
                ]);
                assert(generated(intrinsic.args@[0], arg, st0, mid, *res));
            }
            let t = TypedExpr {
                kind: TypedExprKind::Intrinsic { intrinsic: typed::Intrinsic::Puts(Box::new(arg)), ty: st.ctx.unit_ty },
                span,
            };
            proof {
                lemma_intrinsic_expr_ok(t, st.n(), k);
            }
            t
        },
        IntrinsicName::Add => {
            let (lhs, rhs) = unify_basic_math_op(
                st,
                res,
                &intrinsic.args[0],
                &intrinsic.args[1],
                Ghost(rank),
                Ghost(bound),
                Ghost(r),
                Ghost(*intrinsic),
            );
            let t = TypedExpr {
                kind: TypedExprKind::Intrinsic {
                    intrinsic: typed::Intrinsic::Add(Box::new(lhs), Box::new(rhs)),
                    ty: st.ctx.int_ty,
                },
                span,
            };
            proof {
                lemma_intrinsic_expr_ok(t, st.n(), k);
            }
            t
        },
        IntrinsicName::Subtract => {
            let (lhs, rhs) = unify_basic_math_op(
                st,
                res,
                &intrinsic.args[0],
                &intrinsic.args[1],
                Ghost(rank),
                Ghost(bound),
                Ghost(r),
                Ghost(*intrinsic),
            );
            let t = TypedExpr {
                kind: TypedExprKind::Intrinsic {
                    intrinsic: typed::Intrinsic::Subtract(Box::new(lhs), Box::new(rhs)),
                    ty: st.ctx.int_ty,
                },
                span,
            };
            proof {
                lemma_intrinsic_expr_ok(t, st.n(), k);
            }
            t
        },
        IntrinsicName::Multiply => {
            let (lhs, rhs) = unify_basic_math_op(
                st,
                res,
                &intrinsic.args[0],
                &intrinsic.args[1],
                Ghost(rank),
                Ghost(bound),
                Ghost(r),
                Ghost(*intrinsic),
            );
            let t = TypedExpr {
                kind: TypedExprKind::Intrinsic {
                    intrinsic: typed::Intrinsic::Multiply(Box::new(lhs), Box::new(rhs)),
                    ty: st.ctx.int_ty,
                },
                span,
            };
            proof {
                lemma_intrinsic_expr_ok(t, st.n(), k);
            }
            t
        },
        IntrinsicName::Divide => {
            let (lhs, rhs) = unify_basic_math_op(
                st,
                res,
                &intrinsic.args[0],
                &intrinsic.args[1],
                Ghost(rank),
                Ghost(bound),
                Ghost(r),
                Ghost(*intrinsic),
            );
            let t = TypedExpr {
                kind: TypedExprKind::Intrinsic {
                    intrinsic: typed::Intrinsic::Divide(Box::new(lhs), Box::new(rhs)),
                    ty: st.ctx.int_ty,
                },
                span,
            };
            proof {
                lemma_intrinsic_expr_ok(t, st.n(), k);
            }
            t
        },
        IntrinsicName::Malloc => {
            // malloc takes one integer (the number of bytes to allocate)
            // and returns a pointer to the allocated memory
            let arg = type_check_expr(st, res, &intrinsic.args[0], Ghost(rank), Ghost(bound), Ghost(r));
            let arg_ty = st.expr_ty(&arg);
            proof {
                lemma_typed_expr_ty_below(arg, st.n(), k);
            }
            let ghost mid = *st;
            let int_ty = st.ctx.int_ty;
            st.unify(res, arg_ty, int_ty, arg.span());
            proof {
                lemma_gen_same_scopes(&mid, st, res);
                lemma_gen_trans(&st0, &mid, st, res);
                assert(st.ctx.constraints@[st.ctx.constraints@.len() - 1] == TypeConstraint::unify_spec(
                    arg_ty,
                    TypeVariable(3),
                    arg.span,
                ));
                assert(st.ctx.constraints@ =~= mid.ctx.constraints@ + seq![
                    TypeConstraint::unify_spec(arg_ty, TypeVariable(3), arg.span),
                ]);
                assert(generated(intrinsic.args@[0], arg, st0, mid, *res));
            }
            let t = TypedExpr {
                kind: TypedExprKind::Intrinsic { intrinsic: typed::Intrinsic::Malloc(Box::new(arg)), ty: int_ty },
                span,
            };
            proof {
                lemma_intrinsic_expr_ok(t, st.n(), k);
            }
            t
        },
        IntrinsicName::SizeOf => {
            let arg = type_check_expr(st, res, &intrinsic.args[0], Ghost(rank), Ghost(bound), Ghost(r));
            let t = TypedExpr {
                kind: TypedExprKind::Intrinsic { intrinsic: typed::Intrinsic::SizeOf(Box::new(arg)), ty: st.ctx.int_ty },
                span,
            };
            proof {
                lemma_intrinsic_expr_ok(t, st.n(), k);
            }
            t
        },
        IntrinsicName::Equals => {
            proof {
                lemma_exprs_ok_index(intrinsic.args@, *res, rank, bound, r, 1);
                assert(decreases_to!(intrinsic.args@ => intrinsic.args@[1]));
            }
            let lhs = type_check_expr(st, res, &intrinsic.args[0], Ghost(rank), Ghost(bound), Ghost(r));
            let ghost s1 = *st;
            proof {
                lemma_scopes_bind_grow(st0.scopes(), st.scopes(), bound);
            }
            let rhs = type_check_expr(st, res, &intrinsic.args[1], Ghost(rank), Ghost(bound), Ghost(r));
            let ghost s2 = *st;
            let lhs_ty = st.expr_ty(&lhs);
            let rhs_ty = st.expr_ty(&rhs);
            proof {
                lemma_gen_trans(&st0, &s1, st, res);
                lemma_expr_ok_grow(lhs, s1.n(), st.n(), k);
                lemma_typed_expr_ty_below(lhs, st.n(), k);
                lemma_typed_expr_ty_below(rhs, st.n(), k);
            }
            st.unify(res, lhs_ty, rhs_ty, span);
            proof {
                lemma_gen_same_scopes(&s2, st, res);
                lemma_gen_trans(&st0, &s2, st, res);
                assert(st.ctx.constraints@[st.ctx.constraints@.len() - 1] == TypeConstraint::unify_spec(
                    lhs_ty,
                    rhs_ty,
                    span,
                ));
                assert(st.ctx.constraints@ =~= s2.ctx.constraints@ + seq![
                    TypeConstraint::unify_spec(lhs_ty, rhs_ty, span),
                ]);
                assert(generated(intrinsic.args@[0], lhs, st0, s1, *res));
                assert(generated(intrinsic.args@[1], rhs, s1, s2, *res));
            }
            let t = TypedExpr {
                kind: TypedExprKind::Intrinsic {
                    intrinsic: typed::Intrinsic::Equals(Box::new(lhs), Box::new(rhs)),
                    ty: st.ctx.bool_ty,
                },
                span,
            };
            proof {
                lemma_intrinsic_expr_ok(t, st.n(), k);
            }
            t
        },
    }
}

/// Type checks the two operands of an arithmetic intrinsic and constrains both to be
/// integers.
pub fn unify_basic_math_op(
    st: &mut CheckState,
    res: &QueryableResolvedItems,
    lhs: &Expr,
    rhs: &Expr,
    Ghost(rank): Ghost<Seq<nat>>,
    Ghost(bound): Ghost<Set<SymbolId>>,
    Ghost(r): Ghost<nat>,
    Ghost(parent): Ghost<resolved::Intrinsic>,
) -> (out: (TypedExpr, TypedExpr))
    requires
        gen_ready(old(st), res, rank),
        parent.args@.len() == 2,
        *lhs == parent.args@[0],
        *rhs == parent.args@[1],
        exprs_ok(parent.args@, *res, rank, bound, r),
        scopes_bind(old(st).scopes(), bound),
        old(st).variable_scope@.len() > 0,
    ensures
        gen(old(st), final(st), res),
        typed::expr_ok(out.0, final(st).n(), res.interner.texts().len()),
        typed::expr_ok(out.1, final(st).n(), res.interner.texts().len()),
        out.0.span == lhs.span,
        out.1.span == rhs.span,
        shaped(*lhs, out.0, *res),
        shaped(*rhs, out.1, *res),
        math_constrained(out.0, out.1, final(st).ctx.constraints@),
        math_generated(parent, out.0, out.1, *old(st), *final(st), *res),
    decreases 3 * r, parent, 0int,
{
    let ghost st0 = *st;
    let ghost k = res.interner.texts().len();
    proof {
        lemma_exprs_ok_index(parent.args@, *res, rank, bound, r, 0);
        lemma_exprs_ok_index(parent.args@, *res, rank, bound, r, 1);
        assert(decreases_to!(parent => parent.args));
        assert(decreases_to!(parent.args => parent.args@));
        assert(decreases_to!(parent.args@ => parent.args@[0]));
        assert(decreases_to!(parent.args@ => parent.args@[1]));
    }
    let lhs = type_check_expr(st, res, lhs, Ghost(rank), Ghost(bound), Ghost(r));
    let ghost s1 = *st;
    proof {
        lemma_scopes_bind_grow(st0.scopes(), st.scopes(), bound);
    }
    let rhs = type_check_expr(st, res, rhs, Ghost(rank), Ghost(bound), Ghost(r));
    let ghost s2 = *st;
    let lhs_ty = st.expr_ty(&lhs);
    let rhs_ty = st.expr_ty(&rhs);
    proof {
        lemma_gen_trans(&st0, &s1, st, res);
        lemma_expr_ok_grow(lhs, s1.n(), st.n(), k);
        lemma_typed_expr_ty_below(lhs, st.n(), k);
        lemma_typed_expr_ty_below(rhs, st.n(), k);
    }
    let int_ty = st.ctx.int_ty;
    st.unify(res, int_ty, lhs_ty, lhs.span());
    let ghost s3 = *st;
    st.unify(res, int_ty, rhs_ty, rhs.span());
    proof {
        lemma_gen_same_scopes(&s2, &s3, res);
        lemma_gen_same_scopes(&s3, st, res);
        lemma_gen_trans(&s2, &s3, st, res);
        lemma_gen_trans(&st0, &s2, st, res);
        assert(s3.ctx.constraints@[s3.ctx.constraints@.len() - 1] == TypeConstraint::unify_spec(
            TypeVariable(3),
            lhs_ty,
            lhs.span,
        ));
        lemma_contains_grow(&s3, st, TypeConstraint::unify_spec(TypeVariable(3), lhs_ty, lhs.span));
        assert(st.ctx.constraints@[st.ctx.constraints@.len() - 1] == TypeConstraint::unify_spec(
            TypeVariable(3),
            rhs_ty,
            rhs.span,
        ));
        assert(st.ctx.constraints@ =~= s2.ctx.constraints@ + seq![
            TypeConstraint::unify_spec(TypeVariable(3), lhs_ty, lhs.span),
            TypeConstraint::unify_spec(TypeVariable(3), rhs_ty, rhs.span),
        ]);
        assert(generated(parent.args@[0], lhs, st0, s1, *res));
        assert(generated(parent.args@[1], rhs, s1, s2, *res));
    }
    (lhs, rhs)
}


/// The error for a call with the wrong number of arguments: the callee's name, the
/// number of its parameters and the number of arguments given.
pub open spec fn arity_error(res: &QueryableResolvedItems, call: resolved::FunctionCall) -> ErrorModel {
    let f = res.functions@[call.function.0 as int];
    ErrorModel::ArgumentCountMismatch {
        function: res.interner.texts()[f.name.id.0 as int],
        expected: f.params@.len() as usize,
        got: call.args@.len() as usize,
    }
}

/// Type checks a call: the callee is type checked once and cached, each argument must
/// satisfy its parameter, and the callee is monomorphized for the argument types unless
/// it already was. A call with the wrong number of arguments reports that and becomes
/// error recovery.
pub fn type_check_call(
    st: &mut CheckState,
    res: &QueryableResolvedItems,
    call: &resolved::FunctionCall,
    Ghost(rank): Ghost<Seq<nat>>,
    Ghost(bound): Ghost<Set<SymbolId>>,
    Ghost(r): Ghost<nat>,
) -> (kind: TypedExprKind)
    requires
        gen_ready(old(st), res, rank),
        call.function.0 < res.functions@.len(),
        rank[call.function.0 as int] < r,
        exprs_ok(call.args@, *res, rank, bound, r),
        scopes_bind(old(st).scopes(), bound),
        call.args@.len() > 0 ==> old(st).variable_scope@.len() > 0,
    ensures
        gen(old(st), final(st), res),
        typed::expr_ok(typed::of_kind(kind), final(st).n(), res.interner.texts().len()),
        call.args@.len() != res.functions@[call.function.0 as int].params@.len() ==> {
            &&& kind == TypedExprKind::ErrorRecovery(call.span)
            &&& error_models(final(st).errors@).last() == (arity_error(res, *call), call.span)
        },
        call.args@.len() == res.functions@[call.function.0 as int].params@.len() ==> {
            &&& kind matches TypedExprKind::FunctionCall { func, args, .. }
            &&& kind->FunctionCall_func == call.function
            &&& kind->FunctionCall_args@.len() == call.args@.len()
            &&& forall|j: int|
                0 <= j < call.args@.len() ==> (#[trigger] kind->FunctionCall_args@[j]).0 == res.functions@[call.function.0 as int].params@[j].0
                    && kind->FunctionCall_args@[j].1.span == call.args@[j].span
            &&& shaped_args(call.args@, kind->FunctionCall_args@, *res)
            &&& exists|f: typed::Function|
                {
                    &&& crate::checker::fn_matches(f, res.functions@[call.function.0 as int])
                    &&& shaped(res.functions@[call.function.0 as int].body, f.body, *res)
                    &&& cached_as(final(st), call.function, f)
                    &&& #[trigger] call_typed(kind, f, final(st))
                }
        },
        call_generated(*call, kind, *old(st), *final(st), *res),
    decreases 3 * r, call, 1int,
{
    let ghost st0 = *st;
    let ghost k = res.interner.texts().len();
    let ghost fid = call.function.0 as int;
    let func_decl = get_function(st, res, call.function, Ghost(rank));
    let ghost s1 = *st;
    if call.args.len() != func_decl.params.len() {
        // partial application is not supported: the arity must match
        let name = res.interner.get(func_decl.name.id).clone();
        st.push_error(
            res,
            call.span.with_item(
                TypeConstraintError::ArgumentCountMismatch {
                    expected: func_decl.params.len(),
                    got: call.args.len(),
                    function: name,
                },
            ),
        );
        proof {
            lemma_gen_same_scopes(&s1, st, res);
            lemma_gen_trans(&st0, &s1, st, res);
            assert(typed::expr_vars(typed::of_kind(TypedExprKind::ErrorRecovery(call.span))) =~= Set::<usize>::empty());
            assert(typed::expr_syms(typed::of_kind(TypedExprKind::ErrorRecovery(call.span))) =~= Set::<usize>::empty());
            assert(gen(&st0, &s1, res));
        }
        return TypedExprKind::ErrorRecovery(call.span);
    }
    let mut args: Vec<(Identifier, TypedExpr)> = Vec::new();
    let mut arg_tys: Vec<TypeVariable> = Vec::new();
    let mut i: usize = 0;
    proof {
        lemma_gen_refl(st, res);
    }
    // unify all of the arg types with the param types
    while i < call.args.len()
        invariant
            i <= call.args@.len(),
            k == res.interner.texts().len(),
            fid == call.function.0,
            call.args@.len() == func_decl.params@.len(),
            exprs_ok(call.args@, *res, rank, bound, r),
            gen_ready(st, res, rank),
            gen(&s1, st, res),
            gen(&st0, &s1, res),
            call.args@.len() > 0 ==> st0.variable_scope@.len() > 0,
            scopes_bind(st0.scopes(), bound),
            function_ok(func_decl, s1.n(), k),
            crate::checker::fn_matches(func_decl, res.functions@[fid]),
            args@.len() == i,
            arg_tys@.len() == i,
            forall|j: int|
                0 <= j < i ==> {
                    &&& typed::expr_ok((#[trigger] args@[j]).1, st.n(), k)
                    &&& args@[j].0 == func_decl.params@[j].0
                    &&& args@[j].1.span == call.args@[j].span
                },
            forall|j: int| 0 <= j < i ==> (#[trigger] arg_tys@[j]).0 < st.n(),
            forall|j: int| 0 <= j < i ==> (#[trigger] arg_tys@[j]) == typed_expr_ty(args@[j].1),
            forall|j: int| 0 <= j < i ==> shaped(call.args@[j], (#[trigger] args@[j]).1, *res),
            forall|j: int|
                0 <= j < i ==> st.ctx.constraints@.contains(
                    TypeConstraint::satisfies_spec(func_decl.params@[j].1, #[trigger] arg_tys@[j], args@[j].1.span),
                ),
            args_generated(call.args@.subrange(0, i as int), args@, s1, *st, *res),
        decreases call.args@.len() - i,
    {
        proof {
            lemma_exprs_ok_index(call.args@, *res, rank, bound, r, i as int);
            lemma_gen_trans(&st0, &s1, st, res);
            lemma_scopes_bind_grow(st0.scopes(), st.scopes(), bound);
            assert(decreases_to!(call => call.args));
            assert(decreases_to!(call.args => call.args@));
            assert(decreases_to!(call.args@ => call.args@[i as int]));
        }
        let ghost before = *st;
        let arg = type_check_expr(st, res, &call.args[i], Ghost(rank), Ghost(bound), Ghost(r));
        let arg_ty = st.expr_ty(&arg);
        proof {
            lemma_typed_expr_ty_below(arg, st.n(), k);
            assert(func_decl.params@[i as int].1.0 < s1.n());
            lemma_gen_trans(&s1, &before, st, res);
        }
        let ghost mid = *st;
        st.satisfies(res, func_decl.params[i].1, arg_ty, arg.span());
        proof {
            lemma_gen_same_scopes(&mid, st, res);
            lemma_gen_trans(&before, &mid, st, res);
            lemma_gen_trans(&s1, &before, st, res);
            assert forall|j: int| 0 <= j < i implies (#[trigger] arg_tys@[j]).0 < st.n() by {
                assert(arg_tys@[j].0 < before.n());
            }
            assert forall|j: int| 0 <= j < i implies typed::expr_ok((#[trigger] args@[j]).1, st.n(), k) by {
                lemma_expr_ok_grow(args@[j].1, before.n(), st.n(), k);
            }
            assert forall|j: int| 0 <= j < i implies st.ctx.constraints@.contains(
                TypeConstraint::satisfies_spec(func_decl.params@[j].1, #[trigger] arg_tys@[j], args@[j].1.span),
            ) by {
                lemma_contains_grow(&before, st, TypeConstraint::satisfies_spec(func_decl.params@[j].1, arg_tys@[j], args@[j].1.span));
            }
            assert(st.ctx.constraints@[st.ctx.constraints@.len() - 1] == TypeConstraint::satisfies_spec(
                func_decl.params@[i as int].1,
                arg_ty,
                arg.span,
            ));
        }
        let ghost args_before = args@;
        proof {
            assert(st.ctx.constraints@ =~= mid.ctx.constraints@ + seq![
                TypeConstraint::satisfies_spec(func_decl.params@[i as int].1, typed_expr_ty(arg), arg.span),
            ]);
        }
        args.push((func_decl.params[i].0, arg));
        proof {
            lemma_args_generated_push(
                call.args@.subrange(0, i as int),
                args_before,
                call.args@[i as int],
                (func_decl.params@[i as int].0, arg),
                func_decl.params@[i as int].1,
                s1,
                before,
                mid,
                *st,
                *res,
            );
            assert(call.args@.subrange(0, i + 1) =~= call.args@.subrange(0, i as int).push(call.args@[i as int]));
        }
        arg_tys.push(arg_ty);
        i += 1;
    }
    proof {
        lemma_gen_trans(&st0, &s1, st, res);
        assert forall|j: int| 0 <= j < args@.len() implies typed::expr_ok((#[trigger] args@[j]).1, st.n(), k)
            && args@[j].0.id.0 < k by {
            assert(func_decl.params@[j].0.id.0 < k);
        }
        lemma_named_exprs_ok(args@, st.n(), k);
        lemma_gen_n(&s1, st, res);
        assert(function_ok(func_decl, st.n(), k)) by {
            lemma_expr_ok_grow(func_decl.body, s1.n(), st.n(), k);
        }
    }
    proof {
        lemma_shaped_args(call.args@, args@, *res);
    }
    let ret = func_decl.return_ty;
    let ghost f = func_decl;
    let ghost s2 = *st;
    monomorphize(st, res, call.function, func_decl, &arg_tys);
    proof {
        lemma_gen_same_scopes(&s2, st, res);
        lemma_gen_trans(&st0, &s2, st, res);
        lemma_named_exprs_ok(args@, st.n(), k);
        let kind = TypedExprKind::FunctionCall { func: call.function, args, ty: ret };
        assert forall|j: int| 0 <= j < f.params@.len() implies st.ctx.constraints@.contains(
            TypeConstraint::satisfies_spec(
                f.params@[j].1,
                typed_expr_ty((#[trigger] kind->FunctionCall_args@[j]).1),
                kind->FunctionCall_args@[j].1.span,
            ),
        ) by {
            lemma_contains_grow(&s2, st, TypeConstraint::satisfies_spec(f.params@[j].1, arg_tys@[j], args@[j].1.span));
        }
        assert(slot_types(arg_slots(args@), st.ctx.tys()) =~= slot_types(arg_tys@, s2.ctx.tys())) by {
            assert forall|j: int| 0 <= j < arg_tys@.len() implies st.ctx.tys()[arg_tys@[j].0 as int]
                == s2.ctx.tys()[arg_tys@[j].0 as int] by {
                assert(st.ctx.tys().subrange(0, s2.ctx.tys().len() as int)[arg_tys@[j].0 as int]
                    == st.ctx.tys()[arg_tys@[j].0 as int]);
            }
        }
        assert(call_typed(kind, f, st));
        assert(call.args@.subrange(0, call.args@.len() as int) =~= call.args@);
        assert(args_generated(call.args@, args@, s1, s2, *res));
        assert(arg_slots(args@) =~= arg_tys@);
        if !mono_has(s2.monomorphized_functions@, call.function, slot_types(arg_tys@, s2.ctx.tys())) {
            assert(st.ctx.constraints@.drop_last() =~= s2.ctx.constraints@);
        }
        assert(monomorphized(s2, *st, call.function, slot_types(arg_slots(args@), s2.ctx.tys())));
        assert(gen(&st0, &s1, res));
        // the callee's cached entry stays
        let q = choose|q: int|
            0 <= q < s1.typed_functions@.len() && (#[trigger] s1.typed_functions@[q]).0 == call.function
                && typed::same_function(s1.typed_functions@[q].1, f);
        assert(has_entry(st.typed_functions@, s1.typed_functions@[q]));
        let q2 = choose|q2: int| 0 <= q2 < st.typed_functions@.len() && #[trigger] st.typed_functions@[q2] == s1.typed_functions@[q];
        assert(cached_as(st, call.function, f));
    }
    TypedExprKind::FunctionCall { func: call.function, args, ty: ret }
}

/// The types held by the slots `slots` of a table.
pub open spec fn slot_types(slots: Seq<TypeVariable>, tys: Seq<TypeModel>) -> Seq<TypeModel> {
    Seq::new(slots.len(), |j: int| tys[slots[j].0 as int])
}

/// The type slots of a call's typed arguments.
pub open spec fn arg_slots(args: Seq<(Identifier, TypedExpr)>) -> Seq<TypeVariable> {
    Seq::new(args.len(), |j: int| typed_expr_ty(args[j].1))
}

/// Whether function `id` has a monomorphized form for the argument types `sig`.
pub open spec fn mono_has(mono: Seq<(crate::ids::FunctionId, Vec<PetrType>, typed::Function)>, id: crate::ids::FunctionId, sig: Seq<
    TypeModel,
>) -> bool {
    exists|i: int| 0 <= i < mono.len() && (#[trigger] mono[i]).0 == id && type_models(mono[i].1@) == sig
}

/// `m` is `f` made for given argument types: each parameter keeps its name and gets a
/// new slot, the slots following one another from `first`, every variable of the body
/// that names a parameter points at that parameter's new slot, and the rest of `f` is
/// kept.
pub open spec fn monomorphized_from(m: typed::Function, f: typed::Function, first: nat) -> bool {
    &&& m.name == f.name
    &&& m.return_ty == f.return_ty
    &&& m.params@.len() == f.params@.len()
    &&& forall|j: int|
        0 <= j < m.params@.len() ==> (#[trigger] m.params@[j]).0 == f.params@[j].0 && m.params@[j].1.0 == first + j
    &&& m.body.span == f.body.span
    &&& typed::replaced_kind(f.body.kind, m.body.kind, m.params@)
}

/// What a checked call of `f` is: it returns `f`'s declared return type, the type of
/// each argument is constrained to satisfy the type of its parameter, and `f` has a
/// monomorphized form for the types of the arguments.
pub open spec fn call_typed(kind: TypedExprKind, f: typed::Function, st: &CheckState) -> bool {
    &&& kind is FunctionCall
    &&& kind->FunctionCall_ty == f.return_ty
    &&& kind->FunctionCall_args@.len() == f.params@.len()
    &&& forall|j: int|
        0 <= j < f.params@.len() ==> st.ctx.constraints@.contains(
            TypeConstraint::satisfies_spec(
                f.params@[j].1,
                typed_expr_ty((#[trigger] kind->FunctionCall_args@[j]).1),
                kind->FunctionCall_args@[j].1.span,
            ),
        )
    &&& mono_has(
        st.monomorphized_functions@,
        kind->FunctionCall_func,
        slot_types(arg_slots(kind->FunctionCall_args@), st.ctx.tys()),
    )
}

/// Makes the monomorphized form of function `func`, whose typed form is `f`, for
/// arguments whose types are in the slots `arg_tys`, unless one was made for the same
/// argument types before. Making it constrains `f`'s body to satisfy its declared
/// return type, gives each parameter a new slot holding its argument's type, and points
/// the body's variables that name parameters at those slots.
pub fn monomorphize(
    st: &mut CheckState,
    res: &QueryableResolvedItems,
    func: crate::ids::FunctionId,
    f: typed::Function,
    arg_tys: &Vec<TypeVariable>,
)
    requires
        old(st).inv(res),
        function_ok(f, old(st).n(), res.interner.texts().len()),
        arg_tys@.len() == f.params@.len(),
        forall|j: int| 0 <= j < arg_tys@.len() ==> (#[trigger] arg_tys@[j]).0 < old(st).n(),
    ensures
        final(st).inv(res),
        old(st).grows_to(final(st)),
        final(st).type_map@ == old(st).type_map@,
        final(st).typed_functions@ == old(st).typed_functions@,
        final(st).variable_scope@ == old(st).variable_scope@,
        final(st).errors@ == old(st).errors@,
        mono_has(final(st).monomorphized_functions@, func, slot_types(arg_tys@, old(st).ctx.tys())),
        mono_has(old(st).monomorphized_functions@, func, slot_types(arg_tys@, old(st).ctx.tys())) ==> {
            &&& final(st).ctx == old(st).ctx
            &&& final(st).monomorphized_functions@ == old(st).monomorphized_functions@
        },
        !mono_has(old(st).monomorphized_functions@, func, slot_types(arg_tys@, old(st).ctx.tys())) ==> {
            let sig = slot_types(arg_tys@, old(st).ctx.tys());
            let made = final(st).monomorphized_functions@.last();
            &&& final(st).ctx.constraints@ == old(st).ctx.constraints@.push(
                TypeConstraint::satisfies_spec(f.return_ty, typed_expr_ty(f.body), f.body.span),
            )
            &&& final(st).ctx.tys() == old(st).ctx.tys() + sig
            &&& final(st).monomorphized_functions@.drop_last() == old(st).monomorphized_functions@
            &&& final(st).monomorphized_functions@.len() == old(st).monomorphized_functions@.len() + 1
            &&& made.0 == func
            &&& type_models(made.1@) == sig
            &&& monomorphized_from(made.2, f, old(st).n())
        },
{
    let ghost st0 = *st;
    let ghost k = res.interner.texts().len();
    let ghost sig = slot_types(arg_tys@, st0.ctx.tys());
    let mut concrete_arg_types: Vec<PetrType> = Vec::new();
    let mut j: usize = 0;
    while j < arg_tys.len()
        invariant
            j <= arg_tys@.len(),
            st.inv(res),
            *st == st0,
            forall|x: int| 0 <= x < arg_tys@.len() ==> (#[trigger] arg_tys@[x]).0 < st.n(),
            concrete_arg_types@.len() == j,
            forall|x: int| 0 <= x < j ==> (#[trigger] concrete_arg_types@[x])@ == st.ctx.tys()[arg_tys@[x].0 as int],
        decreases arg_tys@.len() - j,
    {
        concrete_arg_types.push(st.ctx.get(arg_tys[j]).copy());
        j += 1;
    }
    proof {
        let n = st.n();
        assert(type_models(concrete_arg_types@) =~= sig);
        assert forall|x: int| 0 <= x < concrete_arg_types@.len() implies crate::types::vars_below(
            #[trigger] type_models(concrete_arg_types@)[x],
            n,
        ) && crate::types::names_below(type_models(concrete_arg_types@)[x], k) by {
            assert(type_models(concrete_arg_types@)[x] == st.ctx.tys()[arg_tys@[x].0 as int]);
        }
        crate::types::lemma_all_vars_below_intro(type_models(concrete_arg_types@), n);
        crate::types::lemma_all_names_below_intro(type_models(concrete_arg_types@), k);
    }
    // now that we know the argument types, check if this signature has been monomorphized
    // already
    if mono_contains(&st.monomorphized_functions, func, &concrete_arg_types) {
        proof {
            lemma_grows_refl(st);
        }
        return;
    }
    // unify declared return type with body return type
    let declared_return_type = f.return_ty;
    let body_ty = st.expr_ty(&f.body);
    proof {
        lemma_typed_expr_ty_below(f.body, st.n(), k);
    }
    st.satisfies(res, declared_return_type, body_ty, f.body.span());
    let ghost s3 = *st;
    let typed::Function { name, params, body, return_ty } = f;
    // to create a monomorphized func decl, we only need to update the parameter types.
    let mut mono_params = params;
    proof {
        lemma_grows_refl(st);
        assert(sig.subrange(0, 0) =~= Seq::<TypeModel>::empty());
        assert(s3.ctx.tys() + sig.subrange(0, 0) =~= s3.ctx.tys());
    }
    let mut p: usize = 0;
    while p < mono_params.len()
        invariant
            p <= mono_params@.len(),
            k == res.interner.texts().len(),
            mono_params@.len() == f.params@.len(),
            mono_params@.len() == concrete_arg_types@.len(),
            type_models(concrete_arg_types@) == sig,
            sig.len() == f.params@.len(),
            st.inv(res),
            s3.grows_to(st),
            st.same_maps(&s3),
            st.variable_scope@ == s3.variable_scope@,
            st.errors@ == s3.errors@,
            st.ctx.constraints@ == s3.ctx.constraints@,
            st.ctx.tys() == s3.ctx.tys() + sig.subrange(0, p as int),
            s3.n() == st0.n(),
            all_vars_below_models(concrete_arg_types@, s3.n()),
            crate::types::all_names_below(type_models(concrete_arg_types@), k),
            forall|x: int| 0 <= x < mono_params@.len() ==> (#[trigger] mono_params@[x]).0 == f.params@[x].0,
            forall|x: int| 0 <= x < p ==> (#[trigger] mono_params@[x]).1.0 == s3.n() + x,
            forall|x: int| 0 <= x < mono_params@.len() ==> (#[trigger] mono_params@[x]).1.0 < st.n(),
        decreases mono_params@.len() - p,
    {
        proof {
            crate::types::lemma_all_vars_below_index(type_models(concrete_arg_types@), s3.n(), p as int);
            crate::types::lemma_all_names_below_index(type_models(concrete_arg_types@), k, p as int);
            crate::types::lemma_vars_below_mono(concrete_arg_types@[p as int]@, s3.n(), st.n());
        }
        let ghost before = *st;
        let param_ty = st.insert_type(res, concrete_arg_types[p].copy());
        proof {
            lemma_grows_trans(&s3, &before, st);
            assert(sig[p as int] == type_models(concrete_arg_types@)[p as int]);
            assert(s3.ctx.tys() + sig.subrange(0, p + 1) =~= (s3.ctx.tys() + sig.subrange(0, p as int)).push(
                sig[p as int],
            ));
        }
        let name = mono_params[p].0;
        mono_params.set(p, (name, param_ty));
        p += 1;
    }
    let mut mono_body = body;
    let mut num_replacements: usize = 0;
    // if there are any variable exprs in the body, update those ref types
    replace_var_reference_types(&mut mono_body.kind, &mono_params, &mut num_replacements);
    let mono_decl = typed::Function { name, params: mono_params, return_ty, body: mono_body };
    let ghost s4 = *st;
    proof {
        let n = st.n();
        assert(sig.subrange(0, sig.len() as int) =~= sig);
        assert(typed::expr_vars(mono_body) == typed::expr_vars(typed::of_kind(mono_body.kind)));
        assert(typed::expr_vars(body) == typed::expr_vars(typed::of_kind(body.kind)));
        assert(typed::expr_syms(mono_body) == typed::expr_syms(typed::of_kind(mono_body.kind)));
        assert(typed::expr_syms(body) == typed::expr_syms(typed::of_kind(body.kind)));
        assert forall|x: usize| typed::expr_vars(mono_body).contains(x) implies x < n by {
            if !typed::expr_vars(body).contains(x) {
                let q = choose|q: int| 0 <= q < mono_params@.len() && mono_params@[q].1.0 == x;
                assert(mono_params@[q].1.0 < n);
            }
        }
        assert(function_ok(mono_decl, n, k));
        assert(monomorphized_from(mono_decl, f, st0.n()));
        crate::checker::lemma_all_vars_below_mono(type_models(concrete_arg_types@), s3.n(), n);
    }
    st.monomorphized_functions.push((func, concrete_arg_types, mono_decl));
    proof {
        crate::checker::lemma_inv_mono_push(&s4, st, (func, concrete_arg_types, mono_decl), res);
        lemma_grows_trans(&st0, &s3, &s4);
        lemma_grows_same(&s4, st);
        lemma_grows_trans(&st0, &s4, st);
        assert(st.monomorphized_functions@.drop_last() =~= st0.monomorphized_functions@);
        assert(mono_has(st.monomorphized_functions@, func, sig)) by {
            assert(st.monomorphized_functions@[st0.monomorphized_functions@.len() as int].0 == func);
        }
    }
}

/// Every type in the list mentions only slots below `n`.
pub open spec fn all_vars_below_models(tys: Seq<PetrType>, n: nat) -> bool {
    crate::types::all_vars_below(type_models(tys), n)
}

/// The typed form of a function, type checked once and then cached.
pub fn get_function(
    st: &mut CheckState,
    res: &QueryableResolvedItems,
    id: crate::ids::FunctionId,
    Ghost(rank): Ghost<Seq<nat>>,
) -> (f: typed::Function)
    requires
        gen_ready(old(st), res, rank),
        id.0 < res.functions@.len(),
    ensures
        gen(old(st), final(st), res),
        function_ok(f, final(st).n(), res.interner.texts().len()),
        crate::checker::fn_matches(f, res.functions@[id.0 as int]),
        shaped(res.functions@[id.0 as int].body, f.body, *res),
        exists|q: int|
            0 <= q < final(st).typed_functions@.len() && (#[trigger] final(st).typed_functions@[q]).0 == id
                && typed::same_function(final(st).typed_functions@[q].1, f),
        (exists|q: int| 0 <= q < old(st).typed_functions@.len() && (#[trigger] old(st).typed_functions@[q]).0 == id)
            ==> *final(st) == *old(st),
    decreases 3 * rank[id.0 as int] + 2, id, 0int,
{
    let ghost st0 = *st;
    if let Some(i) = function_index(&st.typed_functions, id) {
        proof {
            assert(crate::checker::typed_entry_ok(st.typed_functions@[i as int], st.n(), res));
            lemma_gen_refl(st, res);
        }
        let copy = copy_function(&st.typed_functions[i].1);
        proof {
            assert(typed::same_function(st.typed_functions@[i as int].1, copy));
            crate::shape::lemma_shaped_copy(
                res.functions@[id.0 as int].body,
                st.typed_functions@[i as int].1.body,
                copy.body,
                *res,
            );
        }
        return copy;
    }
    // if the function hasn't been type checked yet, type check it
    let func = res.get_function(id);
    let type_checked = type_check_function(st, res, func, Ghost(rank), Ghost(id.0 as int));
    if let Some(i) = function_index(&st.typed_functions, id) {
        // a function never reaches itself through its calls, so its body cannot have put
        // it in the cache; should it be there, the cached entry stands
        proof {
            assert(crate::checker::typed_entry_ok(st.typed_functions@[i as int], st.n(), res));
        }
        let cached = copy_function(&st.typed_functions[i].1);
        proof {
            assert(typed::same_function(st.typed_functions@[i as int].1, cached));
            crate::shape::lemma_shaped_copy(
                res.functions@[id.0 as int].body,
                st.typed_functions@[i as int].1.body,
                cached.body,
                *res,
            );
        }
        return cached;
    }
    let copy = copy_function(&type_checked);
    let ghost before = *st;
    let ghost n = st.n();
    let p = functions_insert(&mut st.typed_functions, id, type_checked);
    proof {
        let after = st.typed_functions@;
        let old_fns = before.typed_functions@;
        assert forall|x: int| 0 <= x < after.len() implies crate::checker::typed_entry_ok(#[trigger] after[x], n, res) by {
            if after[x] != (id, type_checked) {
                if p < old_fns.len() && old_fns[p as int].0 == id {
                    assert(after[x] == old_fns[x]);
                } else if x < p {
                    assert(after[x] == old_fns[x]);
                } else {
                    assert(after[x] == old_fns[x - 1]);
                }
            }
        }
        assert forall|x: int| 0 <= x < st.type_map@.len() implies crate::checker::key_cached(
            #[trigger] st.type_map@[x],
            st.typed_functions@,
        ) by {
            assert(crate::checker::key_cached(before.type_map@[x], old_fns));
            if let crate::maps::TypeOrFunctionId::FunctionId(g) = st.type_map@[x].0 {
                let q = choose|q: int| 0 <= q < old_fns.len() && old_fns[q].0 == g;
                if p < old_fns.len() && old_fns[p as int].0 == id {
                    assert(after[q].0 == old_fns[q].0);
                } else if q < p {
                    assert(after[q] == old_fns[q]);
                } else {
                    assert(after[q + 1] == old_fns[q]);
                }
            }
        }
        crate::checker::lemma_inv_typed_update(&before, st, res);
        lemma_grows_same(&before, st);
        assert forall|x: int| 0 <= x < old_fns.len() implies #[trigger] has_entry(after, old_fns[x]) by {
            if x < p {
                assert(after[x] == old_fns[x]);
            } else {
                assert(after[x + 1] == old_fns[x]);
            }
        }
        assert forall|x: int| 0 <= x < old_fns.len() implies has_key(after, (#[trigger] old_fns[x]).0) by {
            if p < old_fns.len() && old_fns[p as int].0 == id {
                assert(after[x].0 == old_fns[x].0);
            } else if x < p {
                assert(after[x] == old_fns[x]);
            } else {
                assert(after[x + 1] == old_fns[x]);
            }
        }
        lemma_scopes_grow_refl(before.scopes());
        assert forall|x: int| 0 <= x < after.len() implies #[trigger] after[x] == (id, type_checked) || exists|y: int|
            0 <= y < old_fns.len() && after[x] == old_fns[y] by {
            if after[x] != (id, type_checked) {
                if p < old_fns.len() && old_fns[p as int].0 == id {
                    assert(after[x] == old_fns[x]);
                } else if x < p {
                    assert(after[x] == old_fns[x]);
                } else {
                    assert(after[x] == old_fns[x - 1]);
                }
            }
        }
        assert(entry_generated((id, type_checked), before.ctx.constraints@, error_models(before.errors@), *res));
        if fns_generated(old_fns, before.ctx.constraints@, error_models(before.errors@), *res) {
            lemma_fns_generated_insert(
                old_fns,
                after,
                (id, type_checked),
                before.ctx.constraints@,
                error_models(before.errors@),
                *res,
            );
        }
        crate::checker::lemma_extends_refl(before.monomorphized_functions@);
        assert(entries_kept(old_fns, after));
        assert(gen(&before, st, res));
        lemma_gen_trans(&st0, &before, st, res);
        assert(typed::same_function(type_checked, copy));
        assert(after[p as int] == (id, type_checked));
        crate::shape::lemma_shaped_copy(res.functions@[id.0 as int].body, type_checked.body, copy.body, *res);
    }
    copy
}

/// Type checks a function: its parameters are bound in a new scope, then its body and
/// its declared return type are checked.
pub fn type_check_function(
    st: &mut CheckState,
    res: &QueryableResolvedItems,
    f: &resolved::Function,
    Ghost(rank): Ghost<Seq<nat>>,
    Ghost(fid): Ghost<int>,
) -> (out: typed::Function)
    requires
        gen_ready(old(st), res, rank),
        0 <= fid < res.functions@.len(),
        *f == res.functions@[fid],
    ensures
        gen(old(st), final(st), res),
        function_ok(out, final(st).n(), res.interner.texts().len()),
        crate::checker::fn_matches(out, *f),
        shaped(f.body, out.body, *res),
        exists|s: CheckState, s2: CheckState|
            #[trigger] generated(f.body, out.body, s, s2, *res) && extends(s2.ctx.constraints@, final(st).ctx.constraints@)
                && extends(error_models(s2.errors@), error_models(final(st).errors@)),
        exists|s: CheckState, s2: CheckState|
            #![trigger s.ctx, s2.ctx]
            kept(*old(st), s) && generated(f.body, out.body, s, s2, *res) && kept(s2, *final(st)),
    decreases 3 * rank[fid] + 1, f, 1int,
{
    let ghost st0 = *st;
    let ghost k = res.interner.texts().len();
    let ghost ntypes = res.types@.len() as nat;
    proof {
        assert(resolved::function_ok(*res, rank, fid));
    }
    st.push_scope(res);
    let ghost pushed = *st;
    let mut params: Vec<(Identifier, TypeVariable)> = Vec::new();
    let mut i: usize = 0;
    proof {
        lemma_gen_refl(st, res);
    }
    while i < f.params.len()
        invariant
            i <= f.params@.len(),
            ntypes == res.types@.len(),
            *f == res.functions@[fid],
            resolved::function_ok(*res, rank, fid),
            gen_ready(st, res, rank),
            gen(&pushed, st, res),
            params@.len() == i,
            forall|j: int| 0 <= j < i ==> (#[trigger] params@[j]).0 == f.params@[j].0 && params@[j].1.0 < st.n(),
            kept(st0, *st),
            st.variable_scope@.len() == pushed.variable_scope@.len(),
            pushed.variable_scope@.len() > 0,
        decreases f.params@.len() - i,
    {
        let ghost before = *st;
        proof {
            assert(type_ok_param(*f, i as int, ntypes));
        }
        let ty = st.to_type_var(res, &f.params[i].1, Ghost(ntypes));
        proof {
            lemma_fns_generated_keep(&before, st, res);
            lemma_same_fns_kept(&before, st);
            assert(gen(&before, st, res));
            lemma_gen_trans(&pushed, &before, st, res);
        }
        params.push((f.params[i].0, ty));
        i += 1;
    }
    let ghost s1 = *st;
    let mut j: usize = 0;
    proof {
        lemma_gen_refl(st, res);
    }
    while j < params.len()
        invariant
            j <= params@.len(),
            params@.len() == f.params@.len(),
            *f == res.functions@[fid],
            resolved::function_ok(*res, rank, fid),
            gen_ready(st, res, rank),
            gen(&s1, st, res),
            gen(&pushed, &s1, res),
            pushed.variable_scope@.len() > 0,
            forall|x: int| 0 <= x < params@.len() ==> (#[trigger] params@[x]).0 == f.params@[x].0 && params@[x].1.0 < s1.n(),
            forall|x: int| 0 <= x < j ==> scopes_lookup(st.scopes(), (#[trigger] params@[x]).0.id) is Some,
            kept(st0, *st),
        decreases params@.len() - j,
    {
        let ghost before = *st;
        proof {
            lemma_gen_n(&s1, st, res);
        }
        st.insert_variable(res, params[j].0, params[j].1);
        proof {
            lemma_grows_same(&before, st);
            lemma_same_fns_kept(&before, st);
            assert(gen(&before, st, res));
            lemma_gen_trans(&s1, &before, st, res);
            assert forall|x: int| 0 <= x < j + 1 implies scopes_lookup(st.scopes(), (#[trigger] params@[x]).0.id) is Some by {
                if params@[x].0.id != params@[j as int].0.id {
                    assert(scopes_lookup(st.scopes(), params@[x].0.id) == scopes_lookup(before.scopes(), params@[x].0.id));
                }
            }
        }
        j += 1;
    }
    proof {
        lemma_gen_trans(&pushed, &s1, st, res);
        assert forall|id: SymbolId| resolved::param_names(f.params@).contains(id) implies (#[trigger] scopes_lookup(
            st.scopes(),
            id,
        )) is Some by {
            let x = choose|x: int| 0 <= x < f.params@.len() && f.params@[x].0.id == id;
            assert(params@[x].0 == f.params@[x].0);
        }
    }
    let ghost s2 = *st;
    // unify types within the body with the parameter
    let body = type_check_expr(st, res, &f.body, Ghost(rank), Ghost(resolved::param_names(f.params@)), Ghost(rank[fid]));
    let ghost s3 = *st;
    let declared_return_type = st.to_type_var(res, &f.return_type, Ghost(ntypes));
    let ghost s4 = *st;
    st.pop_scope(res);
    proof {
        lemma_gen_trans(&pushed, &s2, &s3, res);
        lemma_same_fns_kept(&s3, &s4);
        assert(gen(&s3, &s4, res));
        lemma_gen_trans(&pushed, &s3, &s4, res);
        lemma_grows_same(&st0, &pushed);
        lemma_grows_trans(&st0, &pushed, &s4);
        lemma_grows_same(&s4, st);
        lemma_grows_trans(&st0, &s4, st);
        crate::generate::lemma_scopes_grow_pop(st0.scopes(), Seq::empty(), s4.scopes());
        lemma_expr_ok_grow(body, s3.n(), st.n(), k);
        lemma_grows_trans(&s3, &s4, st);
        assert(generated(f.body, body, s2, s3, *res));
        assert(kept(st0, s2) && generated(f.body, body, s2, s3, *res) && kept(s3, *st));
    }
    typed::Function { name: f.name, params, return_ty: declared_return_type, body }
}


/// The type of the `i`th parameter of `f` names only declared types.
pub open spec fn type_ok_param(f: resolved::Function, i: int, ntypes: nat) -> bool {
    resolved::type_ok(f.params@[i].1, ntypes)
}

} // verus!
