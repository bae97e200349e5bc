//! The type checker: generates constraints for a whole program and solves them.
use vstd::prelude::*;
use crate::checker::{CheckState, map_entry_ok, typed_entry_ok, types_mapped};
use crate::context::{TypeConstraint, TypeConstraintKind};
use crate::error::{ErrorModel, error_models};
use crate::generate::{
    entry_generated, fns_generated, gen, gen_ready, get_function as generate_function, lemma_extends_trans,
    lemma_fns_generated_grow, lemma_fns_generated_insert, lemma_fns_generated_keep, type_check_call, type_check_function,
};
use crate::ids::{FunctionId, TypeId};
use crate::maps::{TypeOrFunctionId, functions_insert, key_rank, keys_sorted, lemma_key_rank_values, map_insert};
use crate::resolved::{self, QueryableResolvedItems, ranked, resolved_ok, type_decl_ok};
use crate::span::Span;
use crate::types::{PetrType, TypeModel, TypeVariable, TypeVariant};
use crate::typed::{TypedExpr, TypedExprKind};
use crate::unify::{apply_satisfies, apply_unify, satisfy_types, table_ok, unify_types};

verus! {

/// The table and the errors after applying the constraints `cs`, in order, to `types`.
pub open spec fn solve(types: Seq<TypeModel>, names: Seq<Seq<char>>, cs: Seq<TypeConstraint>) -> (
    Seq<TypeModel>,
    Seq<(ErrorModel, Span)>,
)
    decreases cs.len(),
{
    if cs.len() == 0 {
        (types, Seq::empty())
    } else {
        let before = solve(types, names, cs.drop_last());
        let c = cs.last();
        let step = match c.kind {
            TypeConstraintKind::Unify(a, b) => unify_types(before.0, names, a, b, c.span),
            TypeConstraintKind::Satisfies(a, b) => satisfy_types(before.0, names, a, b, c.span),
        };
        (step.0, before.1 + step.1)
    }
}

/// Applies every recorded constraint, in the order they were recorded.
pub fn apply_constraints(st: &mut CheckState, res: &QueryableResolvedItems)
    requires
        old(st).inv(res),
    ensures
        final(st).inv(res),
        final(st).ctx.tys() == solve(old(st).ctx.tys(), res.interner.texts(), old(st).ctx.constraints@).0,
        error_models(final(st).errors@) == error_models(old(st).errors@) + solve(
            old(st).ctx.tys(),
            res.interner.texts(),
            old(st).ctx.constraints@,
        ).1,
        final(st).ctx.constraints@ == old(st).ctx.constraints@,
        final(st).ctx.same_primitives(old(st).ctx),
        final(st).same_maps(old(st)),
        final(st).variable_scope@ == old(st).variable_scope@,
{
    let ghost st0 = *st;
    let ghost names = res.interner.texts();
    let ghost cs = st.ctx.constraints@;
    let n: usize = st.ctx.constraints.len();
    let mut i: usize = 0;
    proof {
        assert(cs.subrange(0, 0) =~= Seq::<TypeConstraint>::empty());
        assert(error_models(st.errors@) =~= error_models(st0.errors@) + Seq::<(ErrorModel, Span)>::empty());
    }
    while i < n
        invariant
            i <= n,
            n == cs.len(),
            names == res.interner.texts(),
            st.inv(res),
            st.ctx.constraints@ == cs,
            st.ctx.same_primitives(st0.ctx),
            st.same_maps(&st0),
            st.variable_scope@ == st0.variable_scope@,
            st.ctx.tys() == solve(st0.ctx.tys(), names, cs.subrange(0, i as int)).0,
            error_models(st.errors@) == error_models(st0.errors@) + solve(
                st0.ctx.tys(),
                names,
                cs.subrange(0, i as int),
            ).1,
        decreases n - i,
    {
        let c = st.ctx.constraints[i];
        proof {
            assert(cs.subrange(0, i + 1).drop_last() =~= cs.subrange(0, i as int));
            assert(cs.subrange(0, i + 1).last() == c);
            assert(st.ctx.constraints@[i as int].below(st.n()));
        }
        let ghost before = *st;
        let ghost prev = solve(st0.ctx.tys(), names, cs.subrange(0, i as int));
        match c.kind {
            TypeConstraintKind::Unify(t1, t2) => {
                apply_unify(&mut st.ctx, &mut st.errors, &res.interner, t1, t2, c.span);
            },
            TypeConstraintKind::Satisfies(t1, t2) => {
                apply_satisfies(&mut st.ctx, &mut st.errors, &res.interner, t1, t2, c.span);
            },
        }
        proof {
            crate::checker::lemma_inv_frame(&before, st, res);
            assert(error_models(st.errors@) =~= error_models(st0.errors@) + solve(
                st0.ctx.tys(),
                names,
                cs.subrange(0, i + 1),
            ).1);
        }
        i += 1;
    }
    proof {
        assert(cs.subrange(0, n as int) =~= cs);
    }
}


/// The entries of a map that has the declared types `0..t` at their own positions.
pub open spec fn types_at_positions(m: Seq<(TypeOrFunctionId, TypeVariable)>, t: nat) -> bool {
    &&& m.len() >= t
    &&& forall|j: int| 0 <= j < t ==> (#[trigger] m[j]).0 == TypeOrFunctionId::TypeId(TypeId(j as usize))
}

/// Inserting type `t` into a sorted map with the types `0..t` at their positions puts it
/// at position `t` and keeps the types before it.
pub proof fn lemma_type_insert_position(
    before: Seq<(TypeOrFunctionId, TypeVariable)>,
    after: Seq<(TypeOrFunctionId, TypeVariable)>,
    p: int,
    t: usize,
    ty: TypeVariable,
)
    requires
        keys_sorted(before),
        types_at_positions(before, t as nat),
        0 <= p <= before.len(),
        forall|j: int| 0 <= j < p ==> key_rank(#[trigger] before[j].0) < key_rank(TypeOrFunctionId::TypeId(TypeId(t))),
        forall|j: int| p < j < before.len() ==> key_rank(#[trigger] before[j].0) > key_rank(TypeOrFunctionId::TypeId(TypeId(t))),
        p < before.len() && before[p].0 == TypeOrFunctionId::TypeId(TypeId(t)) ==> after == before.update(p, (TypeOrFunctionId::TypeId(TypeId(t)), ty)),
        !(p < before.len() && before[p].0 == TypeOrFunctionId::TypeId(TypeId(t))) ==> {
            &&& after == before.insert(p, (TypeOrFunctionId::TypeId(TypeId(t)), ty))
            &&& p < before.len() ==> key_rank(before[p].0) > key_rank(TypeOrFunctionId::TypeId(TypeId(t)))
        },
    ensures
        p == t,
        types_at_positions(after, (t + 1) as nat),
        after[t as int] == (TypeOrFunctionId::TypeId(TypeId(t)), ty),
        forall|j: int| 0 <= j < t ==> after[j] == before[j],
{
    let key = TypeOrFunctionId::TypeId(TypeId(t));
    lemma_key_rank_values(key);
    if p < t {
        assert(before[p].0 == TypeOrFunctionId::TypeId(TypeId(p as usize)));
        lemma_key_rank_values(before[p].0);
    }
    if p > t {
        assert(key_rank(before[t as int].0) < key_rank(key));
        if t > 0 {
            assert(before[t - 1].0 == TypeOrFunctionId::TypeId(TypeId((t - 1) as usize)));
            lemma_key_rank_values(before[t - 1].0);
            assert(key_rank(before[t - 1].0) < key_rank(before[t as int].0));
        }
        lemma_key_rank_values(before[t as int].0);
    }
    assert(p == t);
}

/// Inserting a function into a sorted map keeps the types `0..m` at their positions.
pub proof fn lemma_function_insert_keeps_types(
    before: Seq<(TypeOrFunctionId, TypeVariable)>,
    after: Seq<(TypeOrFunctionId, TypeVariable)>,
    p: int,
    f: FunctionId,
    ty: TypeVariable,
    m: nat,
)
    requires
        types_at_positions(before, m),
        0 <= p <= before.len(),
        forall|j: int| p < j < before.len() ==> key_rank(#[trigger] before[j].0) > key_rank(TypeOrFunctionId::FunctionId(f)),
        p < before.len() && before[p].0 == TypeOrFunctionId::FunctionId(f) ==> after == before.update(p, (TypeOrFunctionId::FunctionId(f), ty)),
        !(p < before.len() && before[p].0 == TypeOrFunctionId::FunctionId(f)) ==> {
            &&& after == before.insert(p, (TypeOrFunctionId::FunctionId(f), ty))
            &&& p < before.len() ==> key_rank(before[p].0) > key_rank(TypeOrFunctionId::FunctionId(f))
        },
    ensures
        types_at_positions(after, m),
{
    let key = TypeOrFunctionId::FunctionId(f);
    lemma_key_rank_values(key);
    assert forall|j: int| 0 <= j < m implies (#[trigger] after[j]).0 == TypeOrFunctionId::TypeId(TypeId(j as usize)) by {
        lemma_key_rank_values(before[j].0);
        if j >= p {
            assert(key_rank(before[j].0) == j);
        }
    }
}

/// Every entry of `after` is an entry of `before` or `(key, val)`.
pub open spec fn entries_from(
    before: Seq<(TypeOrFunctionId, TypeVariable)>,
    after: Seq<(TypeOrFunctionId, TypeVariable)>,
    key: TypeOrFunctionId,
    val: TypeVariable,
) -> bool {
    forall|j: int| 0 <= j < after.len() ==> (#[trigger] after[j]) == (key, val) || exists|i: int| 0 <= i < before.len() && before[i] == after[j]
}

pub proof fn lemma_entries_from(
    before: Seq<(TypeOrFunctionId, TypeVariable)>,
    after: Seq<(TypeOrFunctionId, TypeVariable)>,
    p: int,
    key: TypeOrFunctionId,
    val: TypeVariable,
)
    requires
        0 <= p <= before.len(),
        p < before.len() && before[p].0 == key ==> after == before.update(p, (key, val)),
        !(p < before.len() && before[p].0 == key) ==> after == before.insert(p, (key, val)),
    ensures
        entries_from(before, after, key, val),
{
    assert forall|j: int| 0 <= j < after.len() implies (#[trigger] after[j]) == (key, val) || exists|i: int| 0 <= i < before.len() && before[i] == after[j] by {
        if after[j] != (key, val) {
            if p < before.len() && before[p].0 == key {
                assert(before[j] == after[j]);
            } else if j < p {
                assert(before[j] == after[j]);
            } else {
                assert(before[j - 1] == after[j]);
            }
        }
    }
}

/// Gives declared type `t` its slot: a fresh slot that becomes the user-defined type, with
/// the types of the fields of each variant converted in a scope of its own.
fn declare_type(st: &mut CheckState, res: &QueryableResolvedItems, t: usize)
    requires
        old(st).inv(res),
        t < res.types@.len(),
        type_decl_ok(*res, t as int),
        types_at_positions(old(st).type_map@, t as nat),
    ensures
        final(st).inv(res),
        old(st).grows_to(final(st)),
        types_at_positions(final(st).type_map@, (t + 1) as nat),
        forall|j: int| 0 <= j < t ==> final(st).type_map@[j] == old(st).type_map@[j],
        final(st).typed_functions@ == old(st).typed_functions@,
        final(st).monomorphized_functions@ == old(st).monomorphized_functions@,
        final(st).variable_scope@.len() == old(st).variable_scope@.len(),
        final(st).ctx.tys()[final(st).type_map@[t as int].1.0 as int] is UserDefined,
        final(st).ctx.tys()[final(st).type_map@[t as int].1.0 as int]->UserDefined_name == res.types@[t as int].name,
        crate::generate::kept(*old(st), *final(st)),
{
    let ghost st0 = *st;
    let ghost k = res.interner.texts().len();
    let decl = res.get_type(TypeId(t));
    let ty = st.fresh_ty_var(res, decl.name.span);
    let ghost s1 = *st;
    let mut variants: Vec<TypeVariant> = Vec::new();
    let mut v: usize = 0;
    proof {
        crate::checker::lemma_grows_refl(st);
    }
    while v < decl.variants.len()
        invariant
            v <= decl.variants@.len(),
            *decl == res.types@[t as int],
            type_decl_ok(*res, t as int),
            t < res.types@.len(),
            st.inv(res),
            s1.grows_to(st),
            st.same_maps(&s1),
            st.variable_scope@.len() == s1.variable_scope@.len(),
            types_at_positions(st.type_map@, t as nat),
            ty.0 < s1.n(),
            crate::generate::kept(st0, *st),
            variants@.len() == v,
            forall|a: int, b: int|
                0 <= a < v && 0 <= b < variants@[a].fields@.len() ==> (#[trigger] variants@[a].fields@[b]).0 < st.n(),
        decreases decl.variants@.len() - v,
    {
        let ghost before = *st;
        st.push_scope(res);
        let ghost pushed = *st;
        proof {
            assert(st.scopes().len() == st.variable_scope@.len());
            assert(before.scopes().len() == before.variable_scope@.len());
            assert(st.variable_scope@.len() == before.variable_scope@.len() + 1);
        }
        let mut fields: Vec<TypeVariable> = Vec::new();
        let mut f: usize = 0;
        proof {
            crate::checker::lemma_grows_refl(st);
        }
        while f < decl.variants[v].fields.len()
            invariant
                f <= decl.variants@[v as int].fields@.len(),
                v < decl.variants@.len(),
                *decl == res.types@[t as int],
                type_decl_ok(*res, t as int),
                st.inv(res),
                pushed.grows_to(st),
                st.same_maps(&pushed),
                st.variable_scope@.len() == pushed.variable_scope@.len(),
                types_at_positions(st.type_map@, t as nat),
                fields@.len() == f,
                crate::generate::kept(st0, *st),
                pushed.variable_scope@.len() > 0,
                forall|b: int| 0 <= b < f ==> (#[trigger] fields@[b]).0 < st.n(),
            decreases decl.variants@[v as int].fields@.len() - f,
        {
            proof {
                assert(resolved::type_ok(decl.variants@[v as int].fields@[f as int].ty, t as nat));
                assert(types_mapped(st, t as nat));
            }
            let ghost mid = *st;
            let field_ty = st.to_type_var(res, &decl.variants[v].fields[f].ty, Ghost(t as nat));
            proof {
                crate::checker::lemma_grows_trans(&pushed, &mid, st);
            }
            fields.push(field_ty);
            f += 1;
        }
        let ghost before_pop = *st;
        st.pop_scope(res);
        proof {
            crate::generate::lemma_grows_same(&before, &pushed);
            crate::checker::lemma_grows_trans(&before, &pushed, &before_pop);
            crate::generate::lemma_grows_same(&before_pop, st);
            crate::checker::lemma_grows_trans(&before, &before_pop, st);
            crate::checker::lemma_grows_trans(&s1, &before, st);
            assert(st.scopes().len() == st.variable_scope@.len());
            assert(before_pop.scopes().len() == before_pop.variable_scope@.len());
        }
        variants.push(TypeVariant { fields });
        v += 1;
    }
    let ghost s2 = *st;
    let known = PetrType::UserDefined {
        name: decl.name,
        variants,
        constant_literal_types: crate::types::copy_literals(&decl.constant_literal_types),
    };
    proof {
        assert(crate::types::vars_below(known@, st.n()));
        assert(crate::types::names_below(known@, k));
    }
    st.update_type(res, ty, known);
    let ghost s3 = *st;
    let p = map_insert(&mut st.type_map, TypeOrFunctionId::TypeId(TypeId(t)), ty);
    proof {
        lemma_type_insert_position(s3.type_map@, st.type_map@, p as int, t, ty);
        lemma_entries_from(s3.type_map@, st.type_map@, p as int, TypeOrFunctionId::TypeId(TypeId(t)), ty);
        assert forall|i: int| 0 <= i < st.type_map@.len() implies map_entry_ok(#[trigger] st.type_map@[i], st.n(), res) by {
            if st.type_map@[i] != (TypeOrFunctionId::TypeId(TypeId(t)), ty) {
                let q = choose|q: int| 0 <= q < s3.type_map@.len() && s3.type_map@[q] == st.type_map@[i];
                assert(map_entry_ok(s3.type_map@[q], s3.n(), res));
            }
        }
        assert forall|i: int| 0 <= i < st.type_map@.len() implies crate::checker::key_cached(
            #[trigger] st.type_map@[i],
            st.typed_functions@,
        ) by {
            if st.type_map@[i] != (TypeOrFunctionId::TypeId(TypeId(t)), ty) {
                let q = choose|q: int| 0 <= q < s3.type_map@.len() && s3.type_map@[q] == st.type_map@[i];
                assert(crate::checker::key_cached(s3.type_map@[q], s3.typed_functions@));
            }
        }
        crate::checker::lemma_inv_map_update(&s3, st, res);
        crate::checker::lemma_grows_trans(&st0, &s1, &s2);
        assert(st.ctx.tys().subrange(0, st0.ctx.tys().len() as int) =~= s2.ctx.tys().subrange(
            0,
            st0.ctx.tys().len() as int,
        ));
    }
}


/// The typed function at position `j` is named `main`.
pub open spec fn is_main(st: &CheckState, res: &QueryableResolvedItems, j: int) -> bool {
    res.interner.texts()[st.typed_functions@[j].1.name.id.0 as int] == "main"@
}

/// The first typed function, in order of ids, named `main`, if there is one.
pub fn get_main_function(st: &CheckState, res: &QueryableResolvedItems) -> (r: Option<(FunctionId, crate::typed::Function)>)
    requires
        st.inv(res),
    ensures
        r is None ==> forall|j: int| 0 <= j < st.typed_functions@.len() ==> !is_main(st, res, j),
        r is Some ==> exists|j: int|
            0 <= j < st.typed_functions@.len() && is_main(st, res, j) && (forall|i: int| 0 <= i < j ==> !is_main(st, res, i))
                && st.typed_functions@[j].0 == r->Some_0.0 && st.typed_functions@[j].1.name == r->Some_0.1.name
                && st.typed_functions@[j].1.params@ == r->Some_0.1.params@ && st.typed_functions@[j].1.return_ty
                == r->Some_0.1.return_ty && crate::typed::mirrors(st.typed_functions@[j].1.body, r->Some_0.1.body),
{
    let main = crate::text::owned("main");
    let mut i: usize = 0;
    while i < st.typed_functions.len()
        invariant
            i <= st.typed_functions@.len(),
            st.inv(res),
            main@ == "main"@,
            forall|j: int| 0 <= j < i ==> !is_main(st, res, j),
        decreases st.typed_functions@.len() - i,
    {
        proof {
            assert(typed_entry_ok(st.typed_functions@[i as int], st.n(), res));
        }
        if *res.interner.get(st.typed_functions[i].1.name.id) == main {
            let r = (st.typed_functions[i].0, crate::typed::copy_function(&st.typed_functions[i].1));
            proof {
                assert(is_main(st, res, i as int));
            }
            return Some(r);
        }
        i += 1;
    }
    None
}

/// The map has an entry for `key`.
pub open spec fn map_has(m: Seq<(TypeOrFunctionId, TypeVariable)>, key: TypeOrFunctionId) -> bool {
    exists|j: int| 0 <= j < m.len() && (#[trigger] m[j]).0 == key
}

/// The functions below `f` are type checked and have their function types.
pub open spec fn functions_checked(st: &CheckState, f: nat) -> bool {
    &&& forall|g: int| 0 <= g < f ==> #[trigger] crate::generate::has_key(st.typed_functions@, FunctionId(g as usize))
    &&& forall|g: int| 0 <= g < f ==> #[trigger] map_has(st.type_map@, TypeOrFunctionId::FunctionId(FunctionId(g as usize)))
}

/// Type checking function `f` and recording its typed form and its type keeps the
/// functions before it checked and adds `f`.
pub proof fn lemma_functions_checked_step(
    before: &CheckState,
    s1: &CheckState,
    s2: &CheckState,
    s3: &CheckState,
    st: &CheckState,
    f: nat,
    p1: int,
    p2: int,
    tf: crate::typed::Function,
    ty: TypeVariable,
)
    requires
        f <= usize::MAX,
        functions_checked(before, f),
        crate::generate::keys_kept(before.typed_functions@, s1.typed_functions@),
        s1.type_map@ == before.type_map@,
        s2.typed_functions@ == s1.typed_functions@,
        s2.type_map@ == s1.type_map@,
        0 <= p1 <= s2.typed_functions@.len(),
        p1 < s2.typed_functions@.len() && s2.typed_functions@[p1].0 == FunctionId(f as usize) ==> s3.typed_functions@
            == s2.typed_functions@.update(p1, (FunctionId(f as usize), tf)),
        !(p1 < s2.typed_functions@.len() && s2.typed_functions@[p1].0 == FunctionId(f as usize)) ==> s3.typed_functions@
            == s2.typed_functions@.insert(p1, (FunctionId(f as usize), tf)),
        s3.type_map@ == s2.type_map@,
        0 <= p2 <= s3.type_map@.len(),
        p2 < s3.type_map@.len() && s3.type_map@[p2].0 == TypeOrFunctionId::FunctionId(FunctionId(f as usize))
            ==> st.type_map@ == s3.type_map@.update(p2, (TypeOrFunctionId::FunctionId(FunctionId(f as usize)), ty)),
        !(p2 < s3.type_map@.len() && s3.type_map@[p2].0 == TypeOrFunctionId::FunctionId(FunctionId(f as usize)))
            ==> st.type_map@ == s3.type_map@.insert(p2, (TypeOrFunctionId::FunctionId(FunctionId(f as usize)), ty)),
        st.typed_functions@ == s3.typed_functions@,
    ensures
        functions_checked(st, f + 1),
{
    let fns2 = s2.typed_functions@;
    let fns3 = s3.typed_functions@;
    let id = FunctionId(f as usize);
    assert forall|g: int| 0 <= g < f + 1 implies #[trigger] crate::generate::has_key(
        st.typed_functions@,
        FunctionId(g as usize),
    ) by {
        if g < f {
            assert(crate::generate::has_key(before.typed_functions@, FunctionId(g as usize)));
            let y = choose|y: int|
                0 <= y < before.typed_functions@.len() && (#[trigger] before.typed_functions@[y]).0 == FunctionId(
                    g as usize,
                );
            assert(crate::generate::has_key(s1.typed_functions@, before.typed_functions@[y].0));
            let x = choose|x: int| 0 <= x < fns2.len() && (#[trigger] fns2[x]).0 == FunctionId(g as usize);
            if p1 < fns2.len() && fns2[p1].0 == id {
                assert(fns3[x].0 == fns2[x].0);
            } else if x < p1 {
                assert(fns3[x] == fns2[x]);
            } else {
                assert(fns3[x + 1] == fns2[x]);
            }
        } else {
            assert(fns3[p1].0 == id);
        }
    }
    let key = TypeOrFunctionId::FunctionId(id);
    let m3 = s3.type_map@;
    let m4 = st.type_map@;
    assert forall|g: int| 0 <= g < f + 1 implies #[trigger] map_has(
        st.type_map@,
        TypeOrFunctionId::FunctionId(FunctionId(g as usize)),
    ) by {
        let kg = TypeOrFunctionId::FunctionId(FunctionId(g as usize));
        if g < f {
            assert(map_has(before.type_map@, kg));
            let x = choose|x: int| 0 <= x < m3.len() && (#[trigger] m3[x]).0 == kg;
            if p2 < m3.len() && m3[p2].0 == key {
                assert(m4[x].0 == m3[x].0);
            } else if x < p2 {
                assert(m4[x] == m3[x]);
            } else {
                assert(m4[x + 1] == m3[x]);
            }
        } else {
            assert(m4[p2].0 == key);
        }
    }
}

/// Functions that were checked stay checked while constraints are generated.
pub proof fn lemma_functions_checked_keep(a: &CheckState, b: &CheckState, n: nat)
    requires
        functions_checked(a, n),
        crate::generate::keys_kept(a.typed_functions@, b.typed_functions@),
        b.type_map@ == a.type_map@,
    ensures
        functions_checked(b, n),
{
    assert forall|g: int| 0 <= g < n implies #[trigger] crate::generate::has_key(
        b.typed_functions@,
        FunctionId(g as usize),
    ) by {
        assert(crate::generate::has_key(a.typed_functions@, FunctionId(g as usize)));
        let y = choose|y: int|
            0 <= y < a.typed_functions@.len() && (#[trigger] a.typed_functions@[y]).0 == FunctionId(g as usize);
        assert(crate::generate::has_key(b.typed_functions@, a.typed_functions@[y].0));
    }
    assert forall|g: int| 0 <= g < n implies #[trigger] map_has(
        b.type_map@,
        TypeOrFunctionId::FunctionId(FunctionId(g as usize)),
    ) by {
        assert(map_has(a.type_map@, TypeOrFunctionId::FunctionId(FunctionId(g as usize))));
    }
}

/// The slots of a typed function's parameters, in order.
pub open spec fn param_slots(f: crate::typed::Function) -> Seq<TypeVariable> {
    Seq::new(f.params@.len(), |i: int| f.params@[i].1)
}

/// Slot `v` stands for the type of function `f`: it holds the function type over the
/// slots of `f`'s parameters and its return slot, or, when `f` has no parameters, it is
/// the return slot itself.
pub open spec fn fn_slot(tys: Seq<TypeModel>, v: TypeVariable, f: crate::typed::Function) -> bool {
    if f.params@.len() == 0 {
        v == f.return_ty
    } else {
        tys[v.0 as int] == TypeModel::Arrow(param_slots(f).push(f.return_ty))
    }
}

/// Function `g` has its typed form, with body `body`, cached, and the slot that the map
/// gives it stands for the type of that typed form.
pub open spec fn fn_typed(st: &CheckState, g: int, body: TypedExpr) -> bool {
    exists|j: int, q: int|
        #![trigger st.type_map@[j], st.typed_functions@[q]]
        {
            &&& 0 <= j < st.type_map@.len()
            &&& st.type_map@[j].0 == TypeOrFunctionId::FunctionId(FunctionId(g as usize))
            &&& 0 <= q < st.typed_functions@.len()
            &&& st.typed_functions@[q].0 == FunctionId(g as usize)
            &&& st.typed_functions@[q].1.body == body
            &&& fn_slot(st.ctx.tys(), st.type_map@[j].1, st.typed_functions@[q].1)
        }
}

/// Each function `g` below `f` has its typed form, with body `bodies[g]`, cached, and the
/// slot of its type.
pub open spec fn functions_typed(st: &CheckState, bodies: Seq<TypedExpr>, f: nat) -> bool {
    &&& bodies.len() == f
    &&& forall|g: int| 0 <= g < f ==> #[trigger] fn_typed(st, g, bodies[g])
}

/// The function types stay in their slots while the table only grows, the map stays and
/// the typed functions keep their entries.
pub proof fn lemma_functions_typed_grow(
    a: &CheckState,
    b: &CheckState,
    res: &QueryableResolvedItems,
    bodies: Seq<TypedExpr>,
    f: nat,
)
    requires
        a.inv(res),
        functions_typed(a, bodies, f),
        b.type_map@ == a.type_map@,
        crate::checker::extends(a.ctx.tys(), b.ctx.tys()),
        crate::generate::entries_kept(a.typed_functions@, b.typed_functions@),
    ensures
        functions_typed(b, bodies, f),
{
    assert forall|g: int| 0 <= g < f implies #[trigger] fn_typed(b, g, bodies[g]) by {
        assert(fn_typed(a, g, bodies[g]));
        let (j, q) = choose|j: int, q: int|
            #![trigger a.type_map@[j], a.typed_functions@[q]]
            {
                &&& 0 <= j < a.type_map@.len()
                &&& a.type_map@[j].0 == TypeOrFunctionId::FunctionId(FunctionId(g as usize))
                &&& 0 <= q < a.typed_functions@.len()
                &&& a.typed_functions@[q].0 == FunctionId(g as usize)
                &&& a.typed_functions@[q].1.body == bodies[g]
                &&& fn_slot(a.ctx.tys(), a.type_map@[j].1, a.typed_functions@[q].1)
            };
        assert(map_entry_ok(a.type_map@[j], a.n(), res));
        let v = a.type_map@[j].1.0 as int;
        assert(b.ctx.tys().subrange(0, a.ctx.tys().len() as int)[v] == b.ctx.tys()[v]);
        assert(b.type_map@[j] == a.type_map@[j]);
        assert(crate::generate::has_entry(b.typed_functions@, a.typed_functions@[q]));
        let q2 = choose|q2: int| 0 <= q2 < b.typed_functions@.len() && #[trigger] b.typed_functions@[q2] == a.typed_functions@[q];
        assert(b.typed_functions@[q2] == a.typed_functions@[q]);
    }
}

/// Putting the typed form `tf` of function `f` into the typed functions and the slot
/// `ty` of its type into the map keeps the other functions' types and adds `f`'s.
pub proof fn lemma_functions_typed_insert(
    s2: &CheckState,
    st: &CheckState,
    f: nat,
    p1: int,
    p2: int,
    tf: crate::typed::Function,
    ty: TypeVariable,
    bodies: Seq<TypedExpr>,
)
    requires
        f <= usize::MAX,
        functions_typed(s2, bodies, f),
        st.ctx == s2.ctx,
        0 <= p1 <= s2.typed_functions@.len(),
        p1 < s2.typed_functions@.len() && s2.typed_functions@[p1].0 == FunctionId(f as usize) ==> st.typed_functions@
            == s2.typed_functions@.update(p1, (FunctionId(f as usize), tf)),
        !(p1 < s2.typed_functions@.len() && s2.typed_functions@[p1].0 == FunctionId(f as usize))
            ==> st.typed_functions@ == s2.typed_functions@.insert(p1, (FunctionId(f as usize), tf)),
        0 <= p2 <= s2.type_map@.len(),
        p2 < s2.type_map@.len() && s2.type_map@[p2].0 == TypeOrFunctionId::FunctionId(FunctionId(f as usize))
            ==> st.type_map@ == s2.type_map@.update(p2, (TypeOrFunctionId::FunctionId(FunctionId(f as usize)), ty)),
        !(p2 < s2.type_map@.len() && s2.type_map@[p2].0 == TypeOrFunctionId::FunctionId(FunctionId(f as usize)))
            ==> st.type_map@ == s2.type_map@.insert(p2, (TypeOrFunctionId::FunctionId(FunctionId(f as usize)), ty)),
        fn_slot(st.ctx.tys(), ty, tf),
    ensures
        functions_typed(st, bodies.push(tf.body), f + 1),
{
    let m2 = s2.type_map@;
    let m4 = st.type_map@;
    let f2 = s2.typed_functions@;
    let f4 = st.typed_functions@;
    let key = TypeOrFunctionId::FunctionId(FunctionId(f as usize));
    let id = FunctionId(f as usize);
    assert forall|g: int| 0 <= g < f + 1 implies #[trigger] fn_typed(st, g, bodies.push(tf.body)[g]) by {
        if g < f {
            assert(bodies.push(tf.body)[g] == bodies[g]);
            assert(fn_typed(s2, g, bodies[g]));
            let (x, q) = choose|x: int, q: int|
                #![trigger m2[x], f2[q]]
                {
                    &&& 0 <= x < m2.len()
                    &&& m2[x].0 == TypeOrFunctionId::FunctionId(FunctionId(g as usize))
                    &&& 0 <= q < f2.len()
                    &&& f2[q].0 == FunctionId(g as usize)
                    &&& f2[q].1.body == bodies[g]
                    &&& fn_slot(s2.ctx.tys(), m2[x].1, f2[q].1)
                };
            let x2 = if p2 < m2.len() && m2[p2].0 == key {
                x
            } else if x < p2 {
                x
            } else {
                x + 1
            };
            let q2 = if p1 < f2.len() && f2[p1].0 == id {
                q
            } else if q < p1 {
                q
            } else {
                q + 1
            };
            assert(m4[x2] == m2[x]);
            assert(f4[q2] == f2[q]);
        } else {
            assert(m4[p2] == (key, ty));
            assert(f4[p1] == (id, tf));
            assert(bodies.push(tf.body)[g] == tf.body);
        }
    }
}

/// Function `g` of the program is named `main`.
pub open spec fn named_main(res: &QueryableResolvedItems, g: int) -> bool {
    res.interner.texts()[res.functions@[g].name.id.0 as int] == "main"@
}

/// Function `g` is the first function named `main` and takes no parameters: the one
/// that is called once every function is checked.
pub open spec fn called_main(res: &QueryableResolvedItems, g: int) -> bool {
    &&& 0 <= g < res.functions@.len()
    &&& named_main(res, g)
    &&& forall|h: int| 0 <= h < g ==> !named_main(res, h)
    &&& res.functions@[g].params@.len() == 0
}

/// In a list of typed functions sorted by id whose ids are below `n`, the entries
/// before `j` are at least their positions.
pub proof fn lemma_sorted_at_least(v: Seq<(FunctionId, crate::typed::Function)>, j: int)
    requires
        crate::maps::functions_sorted(v),
        0 <= j < v.len(),
    ensures
        v[j].0.0 >= j,
    decreases j,
{
    if j > 0 {
        lemma_sorted_at_least(v, j - 1);
        assert(v[j - 1].0.0 < v[j].0.0);
    }
}

/// A list of typed functions sorted by id that has every id below `n` and no other has
/// function `j` at position `j`.
pub proof fn lemma_sorted_complete(v: Seq<(FunctionId, crate::typed::Function)>, n: nat, j: int)
    requires
        crate::maps::functions_sorted(v),
        forall|i: int| 0 <= i < v.len() ==> (#[trigger] v[i]).0.0 < n,
        forall|g: int| 0 <= g < n ==> #[trigger] crate::generate::has_key(v, FunctionId(g as usize)),
        0 <= j < v.len(),
    ensures
        v[j].0.0 == j,
    decreases j,
{
    lemma_sorted_at_least(v, j);
    assert(v[j].0.0 < n);
    assert(crate::generate::has_key(v, FunctionId(j as usize)));
    let i = choose|i: int| 0 <= i < v.len() && (#[trigger] v[i]).0 == FunctionId(j as usize);
    if i < j {
        lemma_sorted_complete(v, n, i);
    } else if i > j {
        assert(v[j].0.0 < v[i].0.0);
    }
}

/// Type checking function `f` of the program from `before` to `after`: its body is
/// generated into `body`, and nothing else is recorded.
pub open spec fn function_generated(
    res: QueryableResolvedItems,
    f: int,
    body: TypedExpr,
    before: CheckState,
    after: CheckState,
) -> bool {
    exists|s: CheckState, s2: CheckState|
        #![trigger s.ctx, s2.ctx]
        {
            &&& crate::generate::kept(before, s)
            &&& crate::generate::generated(res.functions@[f].body, body, s, s2, res)
            &&& crate::generate::kept(s2, after)
        }
}

/// Type checking the functions `0..n` of the program one after the other, from `before`
/// to `after`: function `f` has its body generated into `bodies[f]`.
pub open spec fn functions_generated_upto(
    res: QueryableResolvedItems,
    bodies: Seq<TypedExpr>,
    n: nat,
    before: CheckState,
    after: CheckState,
) -> bool
    decreases n,
{
    if n == 0 {
        crate::generate::kept(before, after)
    } else {
        exists|mid: CheckState|
            #![trigger mid.ctx]
            functions_generated_upto(res, bodies, (n - 1) as nat, before, mid) && function_generated(
                res,
                n - 1,
                bodies[n - 1],
                mid,
                after,
            )
    }
}

/// Function `g` is the first function of the program named `main`.
pub open spec fn first_main(res: &QueryableResolvedItems, g: int) -> bool {
    &&& 0 <= g < res.functions@.len()
    &&& named_main(res, g)
    &&& forall|h: int| 0 <= h < g ==> !named_main(res, h)
}

/// The call of `main` with no arguments, from `before` to `after`: when the program has
/// a function named `main`, the first one is called, written at its name; otherwise
/// nothing is recorded.
pub open spec fn main_generated(res: QueryableResolvedItems, before: CheckState, after: CheckState) -> bool {
    if exists|g: int| #[trigger] first_main(&res, g) {
        let g = choose|g: int| #[trigger] first_main(&res, g);
        exists|call: resolved::FunctionCall, kind: TypedExprKind|
            #![trigger crate::generate::call_generated(call, kind, before, after, res)]
            {
                &&& call.function == FunctionId(g as usize)
                &&& call.args@.len() == 0
                &&& call.span == res.functions@[g].name.span
                &&& crate::generate::call_generated(call, kind, before, after, res)
            }
    } else {
        crate::generate::kept(before, after)
    }
}

/// Appending one more function's generation to the ones before it.
pub proof fn lemma_functions_generated_push(
    res: QueryableResolvedItems,
    bodies: Seq<TypedExpr>,
    body: TypedExpr,
    n: nat,
    before: CheckState,
    mid: CheckState,
    after: CheckState,
)
    requires
        bodies.len() == n,
        functions_generated_upto(res, bodies, n, before, mid),
        function_generated(res, n as int, body, mid, after),
    ensures
        functions_generated_upto(res, bodies.push(body), n + 1, before, after),
{
    let b2 = bodies.push(body);
    assert(b2[n as int] == body);
    lemma_functions_generated_same(res, bodies, b2, n, before, mid);
}

/// The generation of the functions `0..n` depends only on their first `n` bodies.
pub proof fn lemma_functions_generated_same(
    res: QueryableResolvedItems,
    a: Seq<TypedExpr>,
    b: Seq<TypedExpr>,
    n: nat,
    before: CheckState,
    after: CheckState,
)
    requires
        a.len() >= n,
        b.len() >= n,
        forall|i: int| 0 <= i < n ==> a[i] == b[i],
        functions_generated_upto(res, a, n, before, after),
    ensures
        functions_generated_upto(res, b, n, before, after),
    decreases n,
{
    if n > 0 {
        let mid = choose|mid: CheckState|
            #![trigger mid.ctx]
            functions_generated_upto(res, a, (n - 1) as nat, before, mid) && function_generated(
                res,
                n - 1,
                a[n - 1],
                mid,
                after,
            );
        lemma_functions_generated_same(res, a, b, (n - 1) as nat, before, mid);
        assert(b[n - 1] == a[n - 1]);
        assert(functions_generated_upto(res, b, (n - 1) as nat, before, mid) && function_generated(
            res,
            n - 1,
            b[n - 1],
            mid,
            after,
        ));
    }
}

/// Type checking the whole program from `start`, up to `before_solving`, the state whose
/// constraints are then solved: its functions are type checked one after the other,
/// each into the typed form that is cached with the slot of its type, and then `main` is
/// called.
pub open spec fn program_checked(res: QueryableResolvedItems, start: CheckState, before_solving: CheckState) -> bool {
    exists|bodies: Seq<TypedExpr>, m: CheckState|
        #![trigger functions_typed(&before_solving, bodies, res.functions@.len() as nat), main_generated(res, m, before_solving)]
        {
            &&& functions_typed(&before_solving, bodies, res.functions@.len() as nat)
            &&& functions_generated_upto(res, bodies, res.functions@.len() as nat, start, m)
            &&& main_generated(res, m, before_solving)
        }
}

/// What type checking a program asks of it: its declarations are sound and `rank`
/// orders its functions so that none calls itself, directly or through others.
pub open spec fn program_ok(res: &QueryableResolvedItems, rank: Seq<nat>) -> bool {
    &&& forall|t: int| 0 <= t < res.types@.len() ==> type_decl_ok(*res, t)
    &&& ranked(*res, rank)
}

/// Type checks a whole program: each declared type gets its slot, then each function is
/// type checked and gets the slot of its function type, then `main`, if there is one, is
/// called with no arguments, and at last every constraint is applied.
pub fn fully_type_check(st: &mut CheckState, res: &QueryableResolvedItems, Ghost(rank): Ghost<Seq<nat>>)
    requires
        old(st).inv(res),
        program_ok(res, rank),
        types_at_positions(old(st).type_map@, 0),
    ensures
        final(st).inv(res),
        types_mapped(final(st), res.types@.len() as nat),
        functions_checked(final(st), res.functions@.len() as nat),
        final(st).variable_scope@.len() == old(st).variable_scope@.len(),
        fns_generated(old(st).typed_functions@, old(st).ctx.constraints@, error_models(old(st).errors@), *res)
            ==> fns_generated(final(st).typed_functions@, final(st).ctx.constraints@, error_models(final(st).errors@), *res),
        exists|before_solving: CheckState|
            #![trigger before_solving.ctx.tys()]
            {
                &&& old(st).grows_to(&before_solving)
                &&& program_checked(*res, *old(st), before_solving)
                &&& before_solving.type_map@ == final(st).type_map@
                &&& forall|g: int|
                    #[trigger] called_main(res, g) ==> crate::generate::mono_has(
                        before_solving.monomorphized_functions@,
                        FunctionId(g as usize),
                        Seq::empty(),
                    )
                &&& before_solving.monomorphized_functions@ == final(st).monomorphized_functions@
                &&& final(st).ctx.tys() == solve(
                    before_solving.ctx.tys(),
                    res.interner.texts(),
                    before_solving.ctx.constraints@,
                ).0
                &&& error_models(final(st).errors@) == error_models(before_solving.errors@) + solve(
                    before_solving.ctx.tys(),
                    res.interner.texts(),
                    before_solving.ctx.constraints@,
                ).1
                &&& final(st).ctx.constraints@ == before_solving.ctx.constraints@
            },
{
    let ghost st0 = *st;
    let ghost k = res.interner.texts().len();
    let mut t: usize = 0;
    proof {
        crate::checker::lemma_grows_refl(st);
    }
    while t < res.types.len()
        invariant
            t <= res.types@.len(),
            program_ok(res, rank),
            st.inv(res),
            st0.grows_to(st),
            types_at_positions(st.type_map@, t as nat),
            st.variable_scope@.len() == st0.variable_scope@.len(),
            crate::generate::kept(st0, *st),
            fns_generated(st0.typed_functions@, st0.ctx.constraints@, error_models(st0.errors@), *res)
                ==> fns_generated(st.typed_functions@, st.ctx.constraints@, error_models(st.errors@), *res),
        decreases res.types@.len() - t,
    {
        let ghost before = *st;
        declare_type(st, res, t);
        proof {
            crate::checker::lemma_grows_trans(&st0, &before, st);
            lemma_fns_generated_keep(&before, st, res);
        }
        t += 1;
    }
    let ghost ntypes = res.types@.len() as nat;
    let mut f: usize = 0;
    let ghost mut bodies: Seq<TypedExpr> = Seq::empty();
    while f < res.functions.len()
        invariant
            f <= res.functions@.len(),
            ntypes == res.types@.len(),
            program_ok(res, rank),
            st.inv(res),
            st0.grows_to(st),
            types_at_positions(st.type_map@, ntypes),
            st.variable_scope@.len() == st0.variable_scope@.len(),
            functions_checked(st, f as nat),
            functions_typed(st, bodies, f as nat),
            functions_generated_upto(*res, bodies, f as nat, st0, *st),
            fns_generated(st0.typed_functions@, st0.ctx.constraints@, error_models(st0.errors@), *res)
                ==> fns_generated(st.typed_functions@, st.ctx.constraints@, error_models(st.errors@), *res),
        decreases res.functions@.len() - f,
    {
        let ghost before = *st;
        let typed_function = type_check_function(st, res, res.get_function(FunctionId(f)), Ghost(rank), Ghost(f as int));
        let ghost s1 = *st;
        let mut tys: Vec<TypeVariable> = Vec::new();
        let mut q: usize = 0;
        while q < typed_function.params.len()
            invariant
                q <= typed_function.params@.len(),
                tys@.len() == q,
                forall|x: int| 0 <= x < q ==> tys@[x] == (#[trigger] typed_function.params@[x]).1,
            decreases typed_function.params@.len() - q,
        {
            tys.push(typed_function.params[q].1);
            q += 1;
        }
        tys.push(typed_function.return_ty);
        proof {
            assert forall|x: int| 0 <= x < tys@.len() implies (#[trigger] tys@[x]).0 < st.n() by {
                if x < typed_function.params@.len() {
                    assert(tys@[x] == typed_function.params@[x].1);
                }
            }
        }
        let ty = st.arrow_type(res, tys);
        let ghost s2 = *st;
        let p1 = functions_insert(&mut st.typed_functions, FunctionId(f), typed_function);
        let ghost s3 = *st;
        proof {
            let after = st.typed_functions@;
            let old_fns = s2.typed_functions@;
            let id = FunctionId(f);
            assert forall|x: int| 0 <= x < after.len() implies typed_entry_ok(#[trigger] after[x], st.n(), res) by {
                if after[x] != (id, typed_function) {
                    if p1 < old_fns.len() && old_fns[p1 as int].0 == id {
                        assert(after[x] == old_fns[x]);
                    } else if x < p1 {
                        assert(after[x] == old_fns[x]);
                    } else {
                        assert(after[x] == old_fns[x - 1]);
                    }
                }
            }
            assert forall|x: int| 0 <= x < st.type_map@.len() implies crate::checker::key_cached(
                #[trigger] st.type_map@[x],
                st.typed_functions@,
            ) by {
                assert(crate::checker::key_cached(s2.type_map@[x], old_fns));
                if let TypeOrFunctionId::FunctionId(g) = st.type_map@[x].0 {
                    let c = choose|c: int| 0 <= c < old_fns.len() && old_fns[c].0 == g;
                    if p1 < old_fns.len() && old_fns[p1 as int].0 == id {
                        assert(after[c].0 == old_fns[c].0);
                    } else if c < p1 {
                        assert(after[c] == old_fns[c]);
                    } else {
                        assert(after[c + 1] == old_fns[c]);
                    }
                }
            }
            crate::checker::lemma_inv_typed_update(&s2, st, res);
            assert(after[p1 as int] == (id, typed_function));
            assert forall|x: int| 0 <= x < after.len() implies #[trigger] after[x] == (id, typed_function) || exists|y: int|
                0 <= y < old_fns.len() && after[x] == old_fns[y] by {
                if after[x] != (id, typed_function) {
                    if p1 < old_fns.len() && old_fns[p1 as int].0 == id {
                        assert(after[x] == old_fns[x]);
                    } else if x < p1 {
                        assert(after[x] == old_fns[x]);
                    } else {
                        assert(after[x] == old_fns[x - 1]);
                    }
                }
            }
            let (ga, gb) = choose|ga: CheckState, gb: CheckState|
                #[trigger] crate::generate::generated(res.functions@[f as int].body, typed_function.body, ga, gb, *res)
                    && crate::checker::extends(gb.ctx.constraints@, s1.ctx.constraints@) && crate::checker::extends(
                    error_models(gb.errors@),
                    error_models(s1.errors@),
                );
            lemma_extends_trans(gb.ctx.constraints@, s1.ctx.constraints@, s2.ctx.constraints@);
            lemma_extends_trans(error_models(gb.errors@), error_models(s1.errors@), error_models(s2.errors@));
            assert(entry_generated((id, typed_function), s2.ctx.constraints@, error_models(s2.errors@), *res));
            if fns_generated(before.typed_functions@, before.ctx.constraints@, error_models(before.errors@), *res) {
                lemma_fns_generated_keep(&s1, &s2, res);
                lemma_fns_generated_insert(
                    old_fns,
                    after,
                    (id, typed_function),
                    s2.ctx.constraints@,
                    error_models(s2.errors@),
                    *res,
                );
            }
        }
        let p2 = map_insert(&mut st.type_map, TypeOrFunctionId::FunctionId(FunctionId(f)), ty);
        proof {
            lemma_function_insert_keeps_types(s3.type_map@, st.type_map@, p2 as int, FunctionId(f), ty, ntypes);
            lemma_entries_from(s3.type_map@, st.type_map@, p2 as int, TypeOrFunctionId::FunctionId(FunctionId(f)), ty);
            assert forall|i: int| 0 <= i < st.type_map@.len() implies map_entry_ok(#[trigger] st.type_map@[i], st.n(), res)
                && crate::checker::key_cached(st.type_map@[i], st.typed_functions@) by {
                if st.type_map@[i] != (TypeOrFunctionId::FunctionId(FunctionId(f)), ty) {
                    let c = choose|c: int| 0 <= c < s3.type_map@.len() && s3.type_map@[c] == st.type_map@[i];
                    assert(map_entry_ok(s3.type_map@[c], s3.n(), res));
                    assert(crate::checker::key_cached(s3.type_map@[c], s3.typed_functions@));
                } else {
                    assert(s3.typed_functions@[p1 as int].0 == FunctionId(f));
                }
            }
            crate::checker::lemma_inv_map_update(&s3, st, res);
            crate::checker::lemma_grows_trans(&before, &s1, &s2);
            crate::generate::lemma_grows_same(&s2, st);
            crate::checker::lemma_grows_trans(&before, &s2, st);
            crate::checker::lemma_grows_trans(&st0, &before, st);
            crate::generate::lemma_gen_n(&before, &s1, res);
            lemma_functions_checked_step(&before, &s1, &s2, &s3, st, f as nat, p1 as int, p2 as int, typed_function, ty);
            crate::generate::lemma_entries_kept_refl(s1.typed_functions@);
            crate::generate::lemma_entries_kept_trans(before.typed_functions@, s1.typed_functions@, s2.typed_functions@);
            lemma_functions_typed_grow(&before, &s2, res, bodies, f as nat);
            if typed_function.params@.len() > 0 {
                assert(tys@ =~= param_slots(typed_function).push(typed_function.return_ty));
            }
            lemma_functions_typed_insert(&s2, st, f as nat, p1 as int, p2 as int, typed_function, ty, bodies);
            let (ga, gb) = choose|ga: CheckState, gb: CheckState|
                #![trigger ga.ctx, gb.ctx]
                crate::generate::kept(before, ga) && crate::generate::generated(
                    res.functions@[f as int].body,
                    typed_function.body,
                    ga,
                    gb,
                    *res,
                ) && crate::generate::kept(gb, s1);
            assert(crate::generate::kept(gb, *st));
            assert(function_generated(*res, f as int, typed_function.body, before, *st));
            lemma_functions_generated_push(*res, bodies, typed_function.body, f as nat, st0, before, *st);
            bodies = bodies.push(typed_function.body);
        }
        f += 1;
    }
    // type check the main func with no params
    let ghost after_fns = *st;
    proof {
        assert(res.functions@.len() <= usize::MAX);
        assert forall|i: int| 0 <= i < st.typed_functions@.len() implies (#[trigger] st.typed_functions@[i]).0.0
            < res.functions@.len() by {
            assert(typed_entry_ok(st.typed_functions@[i], st.n(), res));
        }
        assert forall|j: int| 0 <= j < st.typed_functions@.len() implies (#[trigger] st.typed_functions@[j]).0.0 == j
            && (is_main(st, res, j) <==> named_main(res, j)) by {
            lemma_sorted_complete(st.typed_functions@, res.functions@.len() as nat, j);
            assert(typed_entry_ok(st.typed_functions@[j], st.n(), res));
        }
    }
    let main_func = get_main_function(st, res);
    proof {
        assert forall|g1: int, g2: int| #[trigger] first_main(res, g1) && #[trigger] first_main(res, g2) implies g1 == g2 by {
            if g1 < g2 {
                assert(!named_main(res, g1));
            } else if g2 < g1 {
                assert(!named_main(res, g2));
            }
        }
        if main_func is None {
            assert forall|g: int| #[trigger] first_main(res, g) implies false by {
                assert(crate::generate::has_key(st.typed_functions@, FunctionId(g as usize)));
                let i = choose|i: int|
                    0 <= i < st.typed_functions@.len() && (#[trigger] st.typed_functions@[i]).0 == FunctionId(g as usize);
                assert(st.typed_functions@[i].0.0 == i);
                assert(!is_main(st, res, i));
            }
            assert forall|g: int| #[trigger] called_main(res, g) implies false by {
                assert(first_main(res, g));
            }
            assert(main_generated(*res, after_fns, *st));
        }
    }
    // construct a function call for the main function, if one exists
    if let Some((id, func)) = main_func {
        let call = resolved::FunctionCall { function: id, args: Vec::new(), span: func.name.span };
        let ghost before = *st;
        proof {
            let j = choose|j: int| 0 <= j < st.typed_functions@.len() && st.typed_functions@[j].0 == id;
            assert(typed_entry_ok(st.typed_functions@[j], st.n(), res));
            assert(resolved::exprs_ok(call.args@, *res, rank, Set::empty(), rank[id.0 as int] + 1));
        }
        let kind = type_check_call(st, res, &call, Ghost(rank), Ghost(Set::empty()), Ghost(rank[id.0 as int] + 1));
        proof {
            let j = choose|j: int|
                0 <= j < after_fns.typed_functions@.len() && is_main(&after_fns, res, j) && (forall|i: int|
                    0 <= i < j ==> !is_main(&after_fns, res, i)) && after_fns.typed_functions@[j].0 == id
                    && after_fns.typed_functions@[j].1.name == func.name && after_fns.typed_functions@[j].1.params@
                    == func.params@ && after_fns.typed_functions@[j].1.return_ty == func.return_ty
                    && crate::typed::mirrors(after_fns.typed_functions@[j].1.body, func.body);
            assert(typed_entry_ok(after_fns.typed_functions@[j], after_fns.n(), res));
            assert forall|g: int| #[trigger] called_main(res, g) implies crate::generate::mono_has(
                st.monomorphized_functions@,
                FunctionId(g as usize),
                Seq::empty(),
            ) by {
                if g < j {
                    assert(!is_main(&after_fns, res, g));
                } else if g > j {
                    assert(named_main(res, j));
                }
                assert(id == FunctionId(g as usize));
                assert(call.args@.len() == res.functions@[call.function.0 as int].params@.len());
                let f = choose|f: crate::typed::Function|
                    {
                        &&& crate::checker::fn_matches(f, res.functions@[call.function.0 as int])
                        &&& crate::shape::shaped(res.functions@[call.function.0 as int].body, f.body, *res)
                        &&& #[trigger] crate::generate::call_typed(kind, f, st)
                    };
                assert(kind->FunctionCall_args@ =~= Seq::<(crate::ids::Identifier, crate::typed::TypedExpr)>::empty());
                assert(crate::generate::slot_types(
                    crate::generate::arg_slots(Seq::<(crate::ids::Identifier, crate::typed::TypedExpr)>::empty()),
                    st.ctx.tys(),
                ) =~= Seq::<TypeModel>::empty());
            }
            lemma_functions_typed_grow(&before, st, res, bodies, res.functions@.len() as nat);
            assert(after_fns.typed_functions@[j].0.0 == j && (is_main(&after_fns, res, j) <==> named_main(res, j)));
            assert forall|h: int| 0 <= h < j implies !named_main(res, h) by {
                assert(after_fns.typed_functions@[h].0.0 == h && (is_main(&after_fns, res, h) <==> named_main(res, h)));
            }
            assert(first_main(res, j));
            assert(call.span == res.functions@[j].name.span);
            assert(crate::generate::call_generated(call, kind, after_fns, *st, *res));
            assert(main_generated(*res, after_fns, *st));
            crate::checker::lemma_grows_trans(&st0, &before, st);
            lemma_functions_checked_keep(&before, st, res.functions@.len() as nat);
        }
    }
    let ghost before_solving = *st;
    proof {
        assert(functions_typed(&before_solving, bodies, res.functions@.len() as nat));
        assert(functions_generated_upto(*res, bodies, res.functions@.len() as nat, st0, after_fns));
        assert(main_generated(*res, after_fns, before_solving));
        assert(program_checked(*res, st0, before_solving));
    }
    apply_constraints(st, res);
    proof {
        crate::generate::lemma_keys_kept_refl(st.typed_functions@);
        lemma_functions_checked_keep(&before_solving, st, res.functions@.len() as nat);
        let e0 = error_models(before_solving.errors@);
        assert(error_models(st.errors@).subrange(0, e0.len() as int) =~= e0);
        crate::checker::lemma_extends_refl(st.ctx.constraints@);
        if fns_generated(st.typed_functions@, st.ctx.constraints@, e0, *res) {
            lemma_fns_generated_grow(
                st.typed_functions@,
                st.ctx.constraints@,
                st.ctx.constraints@,
                e0,
                error_models(st.errors@),
                *res,
            );
        }
    }
}


/// The type checker of a resolved program: the state of checking and the program.
pub struct TypeChecker {
    pub st: CheckState,
    pub resolved: QueryableResolvedItems,
}

impl TypeChecker {
    /// The checker is consistent with its program, every declared type has its slot, and
    /// the program can be type checked.
    pub open spec fn wf(&self) -> bool {
        &&& self.st.inv(&self.resolved)
        &&& types_mapped(&self.st, self.resolved.types@.len() as nat)
        &&& resolved_ok(self.resolved)
    }

    /// The number of slots in the table.
    pub open spec fn n(&self) -> nat {
        self.st.n()
    }

    /// The interned texts of the program's symbols.
    pub open spec fn names(&self) -> Seq<Seq<char>> {
        self.resolved.interner.texts()
    }

    /// Type checks a whole program (see [`fully_type_check`]).
    pub fn new(resolved: QueryableResolvedItems) -> (r: TypeChecker)
        requires
            resolved_ok(resolved),
        ensures
            r.wf(),
            r.resolved == resolved,
            r.st.variable_scope@.len() == 0,
            functions_checked(&r.st, r.resolved.functions@.len() as nat),
            fns_generated(r.st.typed_functions@, r.st.ctx.constraints@, error_models(r.st.errors@), r.resolved),
            exists|before_solving: CheckState, start: CheckState|
                #![trigger before_solving.ctx.tys(), start.ctx]
                {
                    &&& start.ctx.constraints@.len() == 0
                    &&& start.errors@.len() == 0
                    &&& start.monomorphized_functions@.len() == 0
                    &&& program_checked(r.resolved, start, before_solving)
                    &&& before_solving.type_map@ == r.st.type_map@
                    &&& forall|g: int|
                        #[trigger] called_main(&r.resolved, g) ==> crate::generate::mono_has(
                            before_solving.monomorphized_functions@,
                            FunctionId(g as usize),
                            Seq::empty(),
                        )
                    &&& before_solving.monomorphized_functions@ == r.st.monomorphized_functions@
                    &&& r.st.ctx.tys() == solve(before_solving.ctx.tys(), r.names(), before_solving.ctx.constraints@).0
                    &&& error_models(r.st.errors@) == error_models(before_solving.errors@) + solve(
                        before_solving.ctx.tys(),
                        r.names(),
                        before_solving.ctx.constraints@,
                    ).1
                    &&& r.st.ctx.constraints@ == before_solving.ctx.constraints@
                },
    {
        let ghost rank = choose|rank: Seq<nat>| ranked(resolved, rank);
        let mut st = CheckState::new(&resolved);
        let ghost start = st;
        fully_type_check(&mut st, &resolved, Ghost(rank));
        proof {
            let bs = choose|before_solving: CheckState|
                #![trigger before_solving.ctx.tys()]
                {
                    &&& start.grows_to(&before_solving)
                    &&& program_checked(resolved, start, before_solving)
                    &&& before_solving.type_map@ == st.type_map@
                    &&& forall|g: int|
                        #[trigger] called_main(&resolved, g) ==> crate::generate::mono_has(
                            before_solving.monomorphized_functions@,
                            FunctionId(g as usize),
                            Seq::empty(),
                        )
                    &&& before_solving.monomorphized_functions@ == st.monomorphized_functions@
                    &&& st.ctx.tys() == solve(before_solving.ctx.tys(), resolved.interner.texts(), before_solving.ctx.constraints@).0
                    &&& error_models(st.errors@) == error_models(before_solving.errors@) + solve(
                        before_solving.ctx.tys(),
                        resolved.interner.texts(),
                        before_solving.ctx.constraints@,
                    ).1
                    &&& st.ctx.constraints@ == before_solving.ctx.constraints@
                };
            assert(start.ctx == start.ctx);
            assert(bs.ctx.tys() == bs.ctx.tys());
        }
        TypeChecker { st, resolved }
    }

    /// Runs the whole type check once more on this checker.
    pub fn fully_type_check(&mut self)
        requires
            old(self).wf(),
        ensures
            final(self).wf(),
            final(self).resolved == old(self).resolved,
            final(self).st.variable_scope@.len() == old(self).st.variable_scope@.len(),
            functions_checked(&final(self).st, final(self).resolved.functions@.len() as nat),
            fns_generated(
                old(self).st.typed_functions@,
                old(self).st.ctx.constraints@,
                error_models(old(self).st.errors@),
                old(self).resolved,
            ) ==> fns_generated(
                final(self).st.typed_functions@,
                final(self).st.ctx.constraints@,
                error_models(final(self).st.errors@),
                final(self).resolved,
            ),
            exists|before_solving: CheckState|
                #![trigger before_solving.ctx.tys()]
                {
                    &&& old(self).st.grows_to(&before_solving)
                    &&& program_checked(final(self).resolved, old(self).st, before_solving)
                    &&& before_solving.type_map@ == final(self).st.type_map@
                    &&& forall|g: int|
                        #[trigger] called_main(&final(self).resolved, g) ==> crate::generate::mono_has(
                            before_solving.monomorphized_functions@,
                            FunctionId(g as usize),
                            Seq::empty(),
                        )
                    &&& before_solving.monomorphized_functions@ == final(self).st.monomorphized_functions@
                    &&& final(self).st.ctx.tys() == solve(
                        before_solving.ctx.tys(),
                        final(self).names(),
                        before_solving.ctx.constraints@,
                    ).0
                    &&& error_models(final(self).st.errors@) == error_models(before_solving.errors@) + solve(
                        before_solving.ctx.tys(),
                        final(self).names(),
                        before_solving.ctx.constraints@,
                    ).1
                    &&& final(self).st.ctx.constraints@ == before_solving.ctx.constraints@
                },
    {
        let ghost rank = choose|rank: Seq<nat>| ranked(self.resolved, rank);
        fully_type_check(&mut self.st, &self.resolved, Ghost(rank));
    }

    /// Appends a type to the table.
    pub fn insert_type(&mut self, ty: PetrType) -> (r: TypeVariable)
        requires
            old(self).wf(),
            crate::types::vars_below(ty@, old(self).n()),
            crate::types::names_below(ty@, old(self).names().len()),
        ensures
            final(self).wf(),
            final(self).resolved == old(self).resolved,
            r.0 == old(self).n(),
            final(self).st.ctx.tys() == old(self).st.ctx.tys().push(ty@),
            final(self).st.ctx.constraints@ == old(self).st.ctx.constraints@,
            final(self).st.errors@ == old(self).st.errors@,
            final(self).st.same_maps(&old(self).st),
            final(self).st.variable_scope@ == old(self).st.variable_scope@,
    {
        // an equal type inserted before gets a slot of its own too
        self.st.insert_type(&self.resolved, ty)
    }

    /// The type in a slot.
    pub fn look_up_variable(&self, ty: TypeVariable) -> (r: &PetrType)
        requires
            ty.0 < self.n(),
        ensures
            r@ == self.st.ctx.tys()[ty.0 as int],
    {
        self.st.ctx.get(ty)
    }

    /// The text of a symbol.
    pub fn get_symbol(&self, id: crate::ids::SymbolId) -> (r: String)
        requires
            id.0 < self.names().len(),
        ensures
            r@ == self.names()[id.0 as int],
    {
        self.resolved.interner.get(id).clone()
    }

    /// The first typed function, in order of ids, named `main`.
    pub fn get_main_function(&self) -> (r: Option<(FunctionId, crate::typed::Function)>)
        requires
            self.wf(),
        ensures
            r is None ==> forall|j: int| 0 <= j < self.st.typed_functions@.len() ==> !is_main(&self.st, &self.resolved, j),
            r is Some ==> exists|j: int|
                0 <= j < self.st.typed_functions@.len() && is_main(&self.st, &self.resolved, j) && (forall|i: int|
                    0 <= i < j ==> !is_main(&self.st, &self.resolved, i)) && self.st.typed_functions@[j].0 == r->Some_0.0
                    && crate::typed::same_function(self.st.typed_functions@[j].1, r->Some_0.1),
    {
        get_main_function(&self.st, &self.resolved)
    }

    /// Binds `id` to slot `ty` in the innermost scope of variables.
    pub fn insert_variable(&mut self, id: crate::ids::Identifier, ty: TypeVariable)
        requires
            old(self).wf(),
            old(self).st.variable_scope@.len() > 0,
            ty.0 < old(self).n(),
        ensures
            final(self).wf(),
            final(self).resolved == old(self).resolved,
            crate::checker::scopes_lookup(final(self).st.scopes(), id.id) == Some(ty),
            forall|other: crate::ids::SymbolId|
                other != id.id ==> crate::checker::scopes_lookup(final(self).st.scopes(), other)
                    == crate::checker::scopes_lookup(old(self).st.scopes(), other),
            final(self).st.scopes().drop_last() == old(self).st.scopes().drop_last(),
            crate::checker::scope_get(final(self).st.scopes().last(), id.id) == Some(ty),
            forall|other: crate::ids::SymbolId|
                other != id.id ==> crate::checker::scope_get(final(self).st.scopes().last(), other)
                    == crate::checker::scope_get(old(self).st.scopes().last(), other),
            final(self).st.ctx == old(self).st.ctx,
            final(self).st.errors@ == old(self).st.errors@,
            final(self).st.same_maps(&old(self).st),
    {
        self.st.insert_variable(&self.resolved, id, ty);
    }

    /// A fresh inference variable.
    pub fn fresh_ty_var(&mut self, span: Span) -> (r: TypeVariable)
        requires
            old(self).wf(),
        ensures
            final(self).wf(),
            final(self).resolved == old(self).resolved,
            r.0 == old(self).n(),
            final(self).st.ctx.tys() == old(self).st.ctx.tys().push(TypeModel::Infer(r.0, span)),
            final(self).st.ctx.constraints@ == old(self).st.ctx.constraints@,
            final(self).st.errors@ == old(self).st.errors@,
            final(self).st.same_maps(&old(self).st),
            final(self).st.variable_scope@ == old(self).st.variable_scope@,
    {
        self.st.fresh_ty_var(&self.resolved, span)
    }

    /// The checker's type for a written type (see [`crate::checker::converts`]).
    pub fn to_petr_type(&mut self, ty: &resolved::Type) -> (r: PetrType)
        requires
            old(self).wf(),
            resolved::type_ok(*ty, old(self).resolved.types@.len() as nat),
        ensures
            final(self).wf(),
            final(self).resolved == old(self).resolved,
            crate::checker::converts(&old(self).st, *ty, r@),
            crate::types::vars_below(r@, final(self).n()),
    {
        self.st.to_petr_type(&self.resolved, ty, Ghost(self.resolved.types@.len() as nat))
    }

    /// Converts a written type and puts it in a fresh slot.
    pub fn to_type_var(&mut self, ty: &resolved::Type) -> (r: TypeVariable)
        requires
            old(self).wf(),
            resolved::type_ok(*ty, old(self).resolved.types@.len() as nat),
        ensures
            final(self).wf(),
            final(self).resolved == old(self).resolved,
            r.0 == final(self).n() - 1,
            crate::checker::converts(&old(self).st, *ty, final(self).st.ctx.tys()[r.0 as int]),
    {
        self.st.to_type_var(&self.resolved, ty, Ghost(self.resolved.types@.len() as nat))
    }

    /// The slot of a declaration.
    pub fn get_type(&self, key: TypeOrFunctionId) -> (r: TypeVariable)
        requires
            exists|j: int| 0 <= j < self.st.type_map@.len() && self.st.type_map@[j].0 == key,
        ensures
            exists|j: int| 0 <= j < self.st.type_map@.len() && self.st.type_map@[j] == (key, r),
    {
        crate::maps::map_get(&self.st.type_map, key).unwrap()
    }

    /// Records that two types must be the same.
    pub fn unify(&mut self, ty1: TypeVariable, ty2: TypeVariable, span: Span)
        requires
            old(self).wf(),
            ty1.0 < old(self).n(),
            ty2.0 < old(self).n(),
        ensures
            final(self).wf(),
            final(self).resolved == old(self).resolved,
            final(self).st.ctx.tys() == old(self).st.ctx.tys(),
            final(self).st.ctx.constraints@ == old(self).st.ctx.constraints@.push(
                TypeConstraint::unify_spec(ty1, ty2, span),
            ),
            final(self).st.errors@ == old(self).st.errors@,
            final(self).st.same_maps(&old(self).st),
            final(self).st.variable_scope@ == old(self).st.variable_scope@,
    {
        self.st.unify(&self.resolved, ty1, ty2, span);
    }

    /// Records that the first type must satisfy the second.
    pub fn satisfies(&mut self, ty1: TypeVariable, ty2: TypeVariable, span: Span)
        requires
            old(self).wf(),
            ty1.0 < old(self).n(),
            ty2.0 < old(self).n(),
        ensures
            final(self).wf(),
            final(self).resolved == old(self).resolved,
            final(self).st.ctx.tys() == old(self).st.ctx.tys(),
            final(self).st.ctx.constraints@ == old(self).st.ctx.constraints@.push(
                TypeConstraint::satisfies_spec(ty1, ty2, span),
            ),
            final(self).st.errors@ == old(self).st.errors@,
            final(self).st.same_maps(&old(self).st),
            final(self).st.variable_scope@ == old(self).st.variable_scope@,
    {
        self.st.satisfies(&self.resolved, ty1, ty2, span);
    }

    /// The typed form of a function, type checked on first use and cached.
    pub fn get_function(&mut self, id: &FunctionId) -> (r: crate::typed::Function)
        requires
            old(self).wf(),
            id.0 < old(self).resolved.functions@.len(),
        ensures
            final(self).wf(),
            final(self).resolved == old(self).resolved,
            crate::typed::function_ok(r, final(self).n(), final(self).names().len()),
            crate::checker::fn_matches(r, old(self).resolved.functions@[id.0 as int]),
            crate::shape::shaped(old(self).resolved.functions@[id.0 as int].body, r.body, old(self).resolved),
            exists|q: int|
                0 <= q < final(self).st.typed_functions@.len() && (#[trigger] final(self).st.typed_functions@[q]).0
                    == *id && crate::typed::same_function(final(self).st.typed_functions@[q].1, r),
            (exists|q: int|
                0 <= q < old(self).st.typed_functions@.len() && (#[trigger] old(self).st.typed_functions@[q]).0 == *id)
                ==> *final(self) == *old(self),
    {
        let ghost rank = choose|rank: Seq<nat>| ranked(self.resolved, rank);
        generate_function(&mut self.st, &self.resolved, *id, Ghost(rank))
    }

    /// The function monomorphized for a signature that was monomorphized.
    pub fn get_monomorphized_function(&self, id: &(FunctionId, Vec<PetrType>)) -> (r: &crate::typed::Function)
        requires
            exists|j: int|
                0 <= j < self.st.monomorphized_functions@.len() && self.st.monomorphized_functions@[j].0 == id.0
                    && crate::types::type_models(self.st.monomorphized_functions@[j].1@) == crate::types::type_models(
                    id.1@,
                ),
        ensures
            exists|j: int|
                0 <= j < self.st.monomorphized_functions@.len() && self.st.monomorphized_functions@[j].0 == id.0
                    && crate::types::type_models(self.st.monomorphized_functions@[j].1@) == crate::types::type_models(
                    id.1@,
                ) && *r == self.st.monomorphized_functions@[j].2,
    {
        let mut i: usize = 0;
        while i < self.st.monomorphized_functions.len()
            invariant
                i <= self.st.monomorphized_functions@.len(),
                exists|j: int|
                    i <= j < self.st.monomorphized_functions@.len() && self.st.monomorphized_functions@[j].0 == id.0
                        && crate::types::type_models(self.st.monomorphized_functions@[j].1@)
                        == crate::types::type_models(id.1@),
            decreases self.st.monomorphized_functions@.len() - i,
        {
            if self.st.monomorphized_functions[i].0 == id.0 && crate::checker::types_equal(
                &self.st.monomorphized_functions[i].1,
                &id.1,
            ) {
                return &self.st.monomorphized_functions[i].2;
            }
            i += 1;
        }
        proof {
            assert(false);
        }
        &self.st.monomorphized_functions[0].2
    }

    /// Copies of the typed functions, in order of ids.
    pub fn functions(&self) -> (r: Vec<(FunctionId, crate::typed::Function)>)
        ensures
            r@.len() == self.st.typed_functions@.len(),
            forall|j: int|
                0 <= j < r@.len() ==> (#[trigger] r@[j]).0 == self.st.typed_functions@[j].0 && r@[j].1.name
                    == self.st.typed_functions@[j].1.name && r@[j].1.params@ == self.st.typed_functions@[j].1.params@
                    && r@[j].1.return_ty == self.st.typed_functions@[j].1.return_ty && crate::typed::mirrors(
                    self.st.typed_functions@[j].1.body,
                    r@[j].1.body,
                ),
    {
        let mut out: Vec<(FunctionId, crate::typed::Function)> = Vec::new();
        let mut i: usize = 0;
        while i < self.st.typed_functions.len()
            invariant
                i <= self.st.typed_functions@.len(),
                out@.len() == i,
                forall|j: int|
                    0 <= j < i ==> (#[trigger] out@[j]).0 == self.st.typed_functions@[j].0 && out@[j].1.name
                        == self.st.typed_functions@[j].1.name && out@[j].1.params@
                        == self.st.typed_functions@[j].1.params@ && out@[j].1.return_ty
                        == self.st.typed_functions@[j].1.return_ty && crate::typed::mirrors(
                        self.st.typed_functions@[j].1.body,
                        out@[j].1.body,
                    ),
            decreases self.st.typed_functions@.len() - i,
        {
            out.push((self.st.typed_functions[i].0, crate::typed::copy_function(&self.st.typed_functions[i].1)));
            i += 1;
        }
        out
    }

    /// The slot of the type of a typed expression.
    pub fn expr_ty(&self, expr: &crate::typed::TypedExpr) -> (r: TypeVariable)
        requires
            self.wf(),
        ensures
            r == crate::typed::typed_expr_ty(*expr),
    {
        self.st.expr_ty(expr)
    }

    /// Records that a type must be the type of an expression.
    pub fn unify_expr_return(&mut self, ty: TypeVariable, expr: &crate::typed::TypedExpr)
        requires
            old(self).wf(),
            ty.0 < old(self).n(),
            crate::typed::expr_ok(*expr, old(self).n(), old(self).names().len()),
        ensures
            final(self).wf(),
            final(self).resolved == old(self).resolved,
            final(self).st.ctx.tys() == old(self).st.ctx.tys(),
            final(self).st.ctx.constraints@ == old(self).st.ctx.constraints@.push(
                TypeConstraint::unify_spec(ty, crate::typed::typed_expr_ty(*expr), expr.span),
            ),
    {
        let expr_ty = self.st.expr_ty(expr);
        proof {
            crate::typed::lemma_typed_expr_ty_below(*expr, self.n(), self.names().len());
        }
        self.st.unify(&self.resolved, ty, expr_ty, expr.span());
    }

    /// The slot of the string type.
    pub fn string(&self) -> (r: TypeVariable)
        requires
            self.wf(),
        ensures
            r == TypeVariable(1),
    {
        self.st.ctx.string_ty
    }

    /// The slot of the unit type.
    pub fn unit(&self) -> (r: TypeVariable)
        requires
            self.wf(),
        ensures
            r == TypeVariable(0),
    {
        self.st.ctx.unit_ty
    }

    /// The slot of the integer type (`int` in the language).
    pub fn int_ty(&self) -> (r: TypeVariable)
        requires
            self.wf(),
        ensures
            r == TypeVariable(3),
    {
        self.st.ctx.int_ty
    }

    /// The slot of the boolean type.
    pub fn bool(&self) -> (r: TypeVariable)
        requires
            self.wf(),
        ensures
            r == TypeVariable(2),
    {
        self.st.ctx.bool_ty
    }

    /// To reference the error-recovery type, an error must be reported: errors are the
    /// only source of error-recovery types.
    pub fn error_recovery(&mut self, err: crate::error::TypeError) -> (r: TypeVariable)
        requires
            old(self).wf(),
        ensures
            final(self).wf(),
            final(self).resolved == old(self).resolved,
            r == TypeVariable(4),
            final(self).st.ctx.tys()[4] == TypeModel::ErrorRecovery,
            final(self).st.ctx == old(self).st.ctx,
            error_models(final(self).st.errors@) == error_models(old(self).st.errors@).push(
                crate::error::error_model(err),
            ),
    {
        self.st.push_error(&self.resolved, err);
        self.st.ctx.error_recovery
    }

    /// The errors reported so far.
    pub fn errors(&self) -> (r: &Vec<crate::error::TypeError>)
        ensures
            r@ == self.st.errors@,
    {
        &self.st.errors
    }
}

/// Type checks a program, and gives back the errors it found with the checker. The
/// checker runs the whole check twice: once when it is made and once more here.
pub fn type_check(resolved: QueryableResolvedItems) -> (r: (Vec<crate::error::TypeError>, TypeChecker))
    requires
        resolved_ok(resolved),
    ensures
        r.1.wf(),
        r.1.resolved == resolved,
        error_models(r.0@) == error_models(r.1.st.errors@),
        functions_checked(&r.1.st, resolved.functions@.len() as nat),
        fns_generated(r.1.st.typed_functions@, r.1.st.ctx.constraints@, error_models(r.1.st.errors@), resolved),
        exists|before_solving: CheckState, start: CheckState|
            #![trigger before_solving.ctx.tys(), start.ctx]
            {
                &&& program_checked(resolved, start, before_solving)
                &&& before_solving.type_map@ == r.1.st.type_map@
                &&& forall|g: int|
                    #[trigger] called_main(&resolved, g) ==> crate::generate::mono_has(
                        before_solving.monomorphized_functions@,
                        FunctionId(g as usize),
                        Seq::empty(),
                    )
                &&& before_solving.monomorphized_functions@ == r.1.st.monomorphized_functions@
                &&& r.1.st.ctx.tys() == solve(before_solving.ctx.tys(), r.1.names(), before_solving.ctx.constraints@).0
                &&& error_models(r.1.st.errors@) == error_models(before_solving.errors@) + solve(
                    before_solving.ctx.tys(),
                    r.1.names(),
                    before_solving.ctx.constraints@,
                ).1
                &&& r.1.st.ctx.constraints@ == before_solving.ctx.constraints@
            },
{
    let mut type_checker = TypeChecker::new(resolved);
    type_checker.fully_type_check();
    (crate::error::copy_errors(&type_checker.st.errors), type_checker)
}

} // verus!
