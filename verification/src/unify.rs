//! Solving constraints: unification and satisfaction of types in the table.
use vstd::prelude::*;
use crate::ast::LiteralModel;
use crate::context::{acyclic_refs, ref_rank, lemma_ref_rank_decreases, set_slot, TypeContext};
use crate::error::{ErrorModel, TypeConstraintError, TypeError, error_models};
use crate::ids::SymbolInterner;
use crate::pretty::{print_type, push_type, table_names_ok};
use crate::text::push_str;
use crate::span::{Span, SpannedItem};
use crate::types::{
    PetrType, TypeModel, TypeVariable, all_names_below, all_vars_below, copy_types, lemma_all_names_below_index,
    lemma_all_vars_below_index, lemma_concat_below, lemma_filter_below, lemma_single_below, lemma_sum_model,
    names_below, type_models, types_contain, vars_below,
};

verus! {

/// The depth budget with which types are printed in error messages.
pub open spec fn print_fuel(types: Seq<TypeModel>) -> nat {
    types.len()
}

/// A literal constant belongs to the broader type of its kind.
pub open spec fn literal_fits(lit: LiteralModel, ty: TypeModel) -> bool {
    match lit {
        LiteralModel::Integer(_) => ty is Integer,
        LiteralModel::Boolean(_) => ty is Boolean,
        LiteralModel::String(_) => ty is String,
    }
}

/// Two literals of the same kind: both integers, both booleans or both strings.
pub open spec fn same_kind(a: LiteralModel, b: LiteralModel) -> bool {
    match (a, b) {
        (LiteralModel::Integer(_), LiteralModel::Integer(_)) => true,
        (LiteralModel::Boolean(_), LiteralModel::Boolean(_)) => true,
        (LiteralModel::String(_), LiteralModel::String(_)) => true,
        _ => false,
    }
}

/// How a type is named in a unification failure: a primitive type by its name, a
/// literal by the name of its kind, and any other type as it prints.
pub open spec fn failure_name(types: Seq<TypeModel>, names: Seq<Seq<char>>, t: TypeModel) -> Seq<char> {
    match t {
        TypeModel::Unit => "Unit"@,
        TypeModel::Integer => "Integer"@,
        TypeModel::Boolean => "Boolean"@,
        TypeModel::String => "String"@,
        TypeModel::ErrorRecovery => "ErrorRecovery"@,
        TypeModel::Literal(LiteralModel::Integer(_)) => "Integer"@,
        TypeModel::Literal(LiteralModel::Boolean(_)) => "Boolean"@,
        TypeModel::Literal(LiteralModel::String(_)) => "String"@,
        _ => print_type(types, names, t, print_fuel(types)),
    }
}

/// The error for two types that cannot be unified.
pub open spec fn unify_error(types: Seq<TypeModel>, names: Seq<Seq<char>>, a: TypeModel, b: TypeModel) -> ErrorModel {
    ErrorModel::UnificationFailure(failure_name(types, names, a), failure_name(types, names, b))
}

/// The error for a type that does not satisfy another.
pub open spec fn satisfy_error(types: Seq<TypeModel>, names: Seq<Seq<char>>, a: TypeModel, b: TypeModel) -> ErrorModel {
    ErrorModel::FailedToSatisfy(
        print_type(types, names, a, print_fuel(types)),
        print_type(types, names, b, print_fuel(types)),
    )
}

/// Both slots are in the table and references in it never go round in a circle.
pub open spec fn solvable(types: Seq<TypeModel>, t1: TypeVariable, t2: TypeVariable) -> bool {
    acyclic_refs(types) && t1.0 < types.len() && t2.0 < types.len()
}

/// The table after making `t2` refer to `t1` once `t1` holds `merged`.
pub open spec fn merge_into(types: Seq<TypeModel>, t1: TypeVariable, t2: TypeVariable, merged: TypeModel) -> Seq<
    TypeModel,
> {
    set_slot(set_slot(types, t1, merged), t2, TypeModel::Ref(t1))
}

/// The rules of unification: the table after unifying slots `t1` and `t2`, and the
/// errors that it reports (none or one).
///
/// Equal types and the error-recovery type unify silently, references are followed,
/// two inference variables are joined, sum types absorb the other side, an inference
/// variable takes a literal, literals of one kind widen to sums, literals of different
/// kinds are a mismatch, a literal instantiates its broader type, an inference variable
/// takes the other type, and anything else is a mismatch. A mismatch names both types
/// (see [`failure_name`]). The
/// slots of the primitive types are never rewritten (see [`set_slot`]).
pub open spec fn unify_types(
    types: Seq<TypeModel>,
    names: Seq<Seq<char>>,
    t1: TypeVariable,
    t2: TypeVariable,
    span: Span,
) -> (Seq<TypeModel>, Seq<(ErrorModel, Span)>)
    decreases ref_rank(types, t1.0 as int) + ref_rank(types, t2.0 as int),
    when solvable(types, t1, t2)
{
    let ty1 = types[t1.0 as int];
    let ty2 = types[t2.0 as int];
    let none = Seq::<(ErrorModel, Span)>::empty();
    if ty1 == ty2 {
        (types, none)
    } else if ty1 is ErrorRecovery || ty2 is ErrorRecovery {
        (types, none)
    } else if ty1 is Ref {
        proof {
            lemma_ref_rank_decreases(types, t1.0 as int);
        }
        unify_types(types, names, ty1->Ref_0, t2, span)
    } else if ty2 is Ref {
        proof {
            lemma_ref_rank_decreases(types, t2.0 as int);
        }
        unify_types(types, names, t1, ty2->Ref_0, span)
    } else if ty1 is Infer && ty2 is Infer && ty1->Infer_0 != ty2->Infer_0 {
        (set_slot(types, t2, TypeModel::Ref(t1)), none)
    } else if ty1 is Sum && ty2 is Sum {
        (merge_into(types, t1, t2, TypeModel::Sum(ty1->Sum_0 + ty2->Sum_0)), none)
    } else if ty1 is Sum {
        (merge_into(types, t1, t2, TypeModel::Sum(ty1->Sum_0.push(ty2))), none)
    } else if ty1 is Infer && ty2 is Literal {
        (set_slot(types, t1, ty2), none)
    } else if ty1 is Literal && ty2 is Infer {
        (set_slot(types, t2, ty1), none)
    } else if ty1 is Literal && ty2 is Literal && ty1->Literal_0 == ty2->Literal_0 {
        (types, none)
    } else if ty1 is Literal && ty2 is Literal && !same_kind(ty1->Literal_0, ty2->Literal_0) {
        (types, seq![(unify_error(types, names, ty1, ty2), span)])
    } else if ty1 is Literal && ty2 is Literal {
        (merge_into(types, t1, t2, TypeModel::Sum(seq![ty1, ty2])), none)
    } else if ty1 is Literal && ty2 is Sum {
        (merge_into(types, t1, t2, TypeModel::Sum(seq![ty1] + ty2->Sum_0)), none)
    } else if ty2 is Literal {
        if literal_fits(ty2->Literal_0, ty1) {
            (set_slot(types, t1, ty2), none)
        } else {
            (types, seq![(unify_error(types, names, ty1, ty2), span)])
        }
    } else if ty1 is Literal {
        if literal_fits(ty1->Literal_0, ty2) {
            (set_slot(types, t2, ty1), none)
        } else {
            (types, seq![(unify_error(types, names, ty1, ty2), span)])
        }
    } else if ty2 is Sum {
        let errs = if ty2->Sum_0.contains(ty1) {
            none
        } else {
            seq![(unify_error(types, names, ty1, ty2), span)]
        };
        (set_slot(types, t2, ty1), errs)
    } else if ty1 is Infer {
        (set_slot(types, t1, ty2), none)
    } else if ty2 is Infer {
        (set_slot(types, t2, ty1), none)
    } else {
        (types, seq![(unify_error(types, names, ty1, ty2), span)])
    }
}

/// How far a type is from the end of its chain of references.
pub open spec fn general_measure(types: Seq<TypeModel>, t: TypeModel) -> nat {
    match t {
        TypeModel::Ref(v) => ref_rank(types, v.0 as int) + 1,
        _ => 0,
    }
}

/// Every type of `tys` is one of `sum_tys`.
pub open spec fn all_members(tys: Seq<TypeModel>, sum_tys: Seq<TypeModel>) -> bool {
    forall|i: int| 0 <= i < tys.len() ==> sum_tys.contains(#[trigger] tys[i])
}

/// Whether `t` is a broader form of the sum made of `sum_tys`: `string`, `int` and
/// `bool` are broader than sums of their literals, and a sum is broader than a sum
/// whose members it all holds.
pub open spec fn is_generalized_of(types: Seq<TypeModel>, t: TypeModel, sum_tys: Seq<TypeModel>) -> bool
    decreases general_measure(types, t),
    when acyclic_refs(types) && (t is Ref ==> t->Ref_0.0 < types.len())
{
    match t {
        TypeModel::String => forall|i: int|
            #![trigger sum_tys[i]]
            0 <= i < sum_tys.len() ==> (sum_tys[i] is Literal && sum_tys[i]->Literal_0 is String),
        TypeModel::Integer => forall|i: int|
            #![trigger sum_tys[i]]
            0 <= i < sum_tys.len() ==> (sum_tys[i] is Literal && sum_tys[i]->Literal_0 is Integer),
        TypeModel::Boolean => forall|i: int|
            #![trigger sum_tys[i]]
            0 <= i < sum_tys.len() ==> (sum_tys[i] is Literal && sum_tys[i]->Literal_0 is Boolean),
        TypeModel::Ref(v) => {
            let next = types[v.0 as int];
            if next is Ref {
                proof {
                    lemma_ref_rank_decreases(types, v.0 as int);
                }
                is_generalized_of(types, next, sum_tys)
            } else {
                is_generalized_of(types, next, sum_tys)
            }
        },
        TypeModel::Sum(tys) => all_members(sum_tys, tys),
        _ => false,
    }
}

/// The rules of satisfaction: the table after requiring slot `t1` to satisfy slot `t2`,
/// and the errors that it reports (none or one).
pub open spec fn satisfy_types(
    types: Seq<TypeModel>,
    names: Seq<Seq<char>>,
    t1: TypeVariable,
    t2: TypeVariable,
    span: Span,
) -> (Seq<TypeModel>, Seq<(ErrorModel, Span)>)
    decreases ref_rank(types, t1.0 as int) + ref_rank(types, t2.0 as int),
    when solvable(types, t1, t2)
{
    let ty1 = types[t1.0 as int];
    let ty2 = types[t2.0 as int];
    let none = Seq::<(ErrorModel, Span)>::empty();
    if ty1 == ty2 {
        (types, none)
    } else if ty1 is ErrorRecovery || ty2 is ErrorRecovery {
        (types, none)
    } else if ty1 is Ref {
        proof {
            lemma_ref_rank_decreases(types, t1.0 as int);
        }
        satisfy_types(types, names, ty1->Ref_0, t2, span)
    } else if ty2 is Ref {
        proof {
            lemma_ref_rank_decreases(types, t2.0 as int);
        }
        satisfy_types(types, names, t1, ty2->Ref_0, span)
    } else if !(ty1 is Infer) && ty2 is Infer {
        // a fully instantiated type: the inference variable refers to it
        (set_slot(types, t2, TypeModel::Ref(t1)), none)
    } else if ty1 is Infer && !(ty2 is Infer) {
        // the "parent" inference variable is not instantiated to the "child" type
        (types, none)
    } else if ty1 is Sum && ty2 is Sum {
        let b = ty2->Sum_0;
        (set_slot(types, t2, TypeModel::Sum(ty1->Sum_0.filter(|x: TypeModel| b.contains(x)))), none)
    } else if ty1 is Sum || ty2 is Sum {
        let (sum_tys, other) = if ty1 is Sum {
            (ty1->Sum_0, ty2)
        } else {
            (ty2->Sum_0, ty1)
        };
        if is_generalized_of(types, other, sum_tys) || sum_tys.contains(other) {
            (types, none)
        } else {
            (types, seq![(satisfy_error(types, names, other, TypeModel::Sum(sum_tys)), span)])
        }
    } else if ty1 is Literal && ty2 is Literal && ty1->Literal_0 == ty2->Literal_0 {
        (types, none)
    } else if ty2 is Literal {
        if literal_fits(ty2->Literal_0, ty1) {
            (types, none)
        } else {
            (types, seq![(satisfy_error(types, names, ty1, ty2), span)])
        }
    } else if ty1 is Infer {
        (types, none)
    } else {
        (types, seq![(satisfy_error(types, names, ty1, ty2), span)])
    }
}

/// The type checker's view of the table is sound: the context is well formed and every
/// user-defined type it holds is named by an interned symbol.
pub open spec fn table_ok(ctx: &TypeContext, interner: &SymbolInterner) -> bool {
    ctx.wf() && table_names_ok(ctx.tys(), interner.texts().len())
}

/// The error for two types that cannot be unified, as reported.
fn make_unify_error(ctx: &TypeContext, interner: &SymbolInterner, a: &PetrType, b: &PetrType, span: Span) -> (r: TypeError)
    requires
        table_ok(ctx, interner),
        names_below(a@, interner.texts().len()),
        names_below(b@, interner.texts().len()),
    ensures
        r.0@ == unify_error(ctx.tys(), interner.texts(), a@, b@),
        r.1 == span,
{
    let ta = failure_name_of(ctx, interner, a);
    let tb = failure_name_of(ctx, interner, b);
    SpannedItem(TypeConstraintError::UnificationFailure(ta, tb), span)
}

/// How `t` is named in a unification failure (see [`failure_name`]).
fn failure_name_of(ctx: &TypeContext, interner: &SymbolInterner, t: &PetrType) -> (r: String)
    requires
        table_ok(ctx, interner),
        names_below(t@, interner.texts().len()),
    ensures
        r@ == failure_name(ctx.tys(), interner.texts(), t@),
{
    let mut out = String::new();
    match t {
        PetrType::Unit => push_str(&mut out, "Unit"),
        PetrType::Integer => push_str(&mut out, "Integer"),
        PetrType::Boolean => push_str(&mut out, "Boolean"),
        PetrType::String => push_str(&mut out, "String"),
        PetrType::ErrorRecovery => push_str(&mut out, "ErrorRecovery"),
        PetrType::Literal(crate::ast::Literal::Integer(_)) => push_str(&mut out, "Integer"),
        PetrType::Literal(crate::ast::Literal::Boolean(_)) => push_str(&mut out, "Boolean"),
        PetrType::Literal(crate::ast::Literal::String(_)) => push_str(&mut out, "String"),
        _ => {
            let fuel = ctx.types.len();
            push_type(&mut out, ctx, interner, t, fuel);
            assert(out@ =~= print_type(ctx.tys(), interner.texts(), t@, print_fuel(ctx.tys())));
        },
    }
    proof {
        if !(t@ is Unit || t@ is Integer || t@ is Boolean || t@ is String || t@ is ErrorRecovery || t@ is Literal) {
            assert(out@ =~= failure_name(ctx.tys(), interner.texts(), t@));
        }
    }
    out
}

/// The error for a type that does not satisfy another, as reported.
fn make_satisfy_error(ctx: &TypeContext, interner: &SymbolInterner, a: &PetrType, b: &PetrType, span: Span) -> (r: TypeError)
    requires
        table_ok(ctx, interner),
        names_below(a@, interner.texts().len()),
        names_below(b@, interner.texts().len()),
    ensures
        r.0@ == satisfy_error(ctx.tys(), interner.texts(), a@, b@),
        r.1 == span,
{
    let fuel = ctx.types.len();
    let mut ta = String::new();
    push_type(&mut ta, ctx, interner, a, fuel);
    let mut tb = String::new();
    push_type(&mut tb, ctx, interner, b, fuel);
    assert(ta@ =~= print_type(ctx.tys(), interner.texts(), a@, print_fuel(ctx.tys())));
    assert(tb@ =~= print_type(ctx.tys(), interner.texts(), b@, print_fuel(ctx.tys())));
    SpannedItem(TypeConstraintError::FailedToSatisfy(ta, tb), span)
}

/// Appends one error to the list.
fn report(errors: &mut Vec<TypeError>, e: TypeError)
    ensures
        error_models(final(errors)@) == error_models(old(errors)@).push((e.0@, e.1)),
{
    errors.push(e);
    assert(error_models(final(errors)@) =~= error_models(old(errors)@).push((e.0@, e.1)));
}

/// Facts about one slot of a sound table.
proof fn lemma_slot_ok(ctx: &TypeContext, interner: &SymbolInterner, t: TypeVariable)
    requires
        table_ok(ctx, interner),
        t.0 < ctx.types@.len(),
    ensures
        vars_below(ctx.tys()[t.0 as int], ctx.types@.len() as nat),
        names_below(ctx.tys()[t.0 as int], interner.texts().len()),
{
}

/// The table after `t1` takes `merged` and `t2` refers to `t1`.
fn merge(ctx: &mut TypeContext, interner: &SymbolInterner, t1: TypeVariable, t2: TypeVariable, merged: PetrType)
    requires
        table_ok(old(ctx), interner),
        t1.0 < old(ctx).types@.len(),
        t2.0 < old(ctx).types@.len(),
        t1 != t2,
        !(old(ctx).tys()[t1.0 as int] is Ref),
        !(old(ctx).tys()[t2.0 as int] is Ref),
        merged@ is Sum,
        vars_below(merged@, old(ctx).types@.len() as nat),
        names_below(merged@, interner.texts().len()),
    ensures
        table_ok(final(ctx), interner),
        final(ctx).tys() == merge_into(old(ctx).tys(), t1, t2, merged@),
        final(ctx).constraints@ == old(ctx).constraints@,
        final(ctx).same_primitives(*old(ctx)),
{
    let ghost m = merged@;
    ctx.update_type(t1, merged);
    ctx.update_type(t2, PetrType::Ref(t1));
    proof {
        assert forall|i: int| 0 <= i < final(ctx).tys().len() implies names_below(
            #[trigger] final(ctx).tys()[i],
            interner.texts().len(),
        ) by {
            if i != t1.0 && i != t2.0 {
                assert(final(ctx).tys()[i] == old(ctx).tys()[i]);
            }
        }
    }
}

/// Applies the rules of unification to slots `t1` and `t2` (see [`unify_types`]).
pub fn apply_unify(
    ctx: &mut TypeContext,
    errors: &mut Vec<TypeError>,
    interner: &SymbolInterner,
    t1: TypeVariable,
    t2: TypeVariable,
    span: Span,
)
    requires
        table_ok(old(ctx), interner),
        t1.0 < old(ctx).types@.len(),
        t2.0 < old(ctx).types@.len(),
    ensures
        table_ok(final(ctx), interner),
        final(ctx).tys() == unify_types(old(ctx).tys(), interner.texts(), t1, t2, span).0,
        error_models(final(errors)@) == error_models(old(errors)@) + unify_types(
            old(ctx).tys(),
            interner.texts(),
            t1,
            t2,
            span,
        ).1,
        final(ctx).types@.len() == old(ctx).types@.len(),
        final(ctx).constraints@ == old(ctx).constraints@,
        final(ctx).same_primitives(*old(ctx)),
    decreases ref_rank(old(ctx).tys(), t1.0 as int) + ref_rank(old(ctx).tys(), t2.0 as int),
{
    let ghost types = ctx.tys();
    let ghost names = interner.texts();
    let ghost n = ctx.types@.len() as nat;
    let ghost k = names.len();
    let ghost none = Seq::<(ErrorModel, Span)>::empty();
    proof {
        lemma_slot_ok(ctx, interner, t1);
        lemma_slot_ok(ctx, interner, t2);
    }
    let ty1 = ctx.get(t1).copy();
    let ty2 = ctx.get(t2).copy();
    assert(solvable(types, t1, t2));
    if ty1.equals(&ty2) {
        assert(error_models(errors@) =~= error_models(errors@) + none);
        return;
    }
    if matches!(ty1, PetrType::ErrorRecovery) || matches!(ty2, PetrType::ErrorRecovery) {
        assert(error_models(errors@) =~= error_models(errors@) + none);
        return;
    }
    if let PetrType::Ref(a) = ty1 {
        proof {
            lemma_ref_rank_decreases(types, t1.0 as int);
        }
        apply_unify(ctx, errors, interner, a, t2, span);
        return;
    }
    if let PetrType::Ref(b) = ty2 {
        proof {
            lemma_ref_rank_decreases(types, t2.0 as int);
        }
        apply_unify(ctx, errors, interner, t1, b, span);
        return;
    }
    assert(t1 != t2);
    match (&ty1, &ty2) {
        (PetrType::Infer(id1, _), PetrType::Infer(id2, _)) => {
            if *id1 != *id2 {
                ctx.update_type(t2, PetrType::Ref(t1));
                assert(error_models(errors@) =~= error_models(errors@) + none);
                proof {
                    assert forall|i: int| 0 <= i < ctx.tys().len() implies names_below(#[trigger] ctx.tys()[i], k) by {
                        if i != t2.0 {
                            assert(ctx.tys()[i] == types[i]);
                        }
                    }
                }
                return;
            }
        },
        _ => {},
    }
    if let PetrType::Sum(a_tys) = &ty1 {
        if let PetrType::Sum(b_tys) = &ty2 {
            // the unification of two sum types is the union of the two types
            let mut union = copy_types(a_tys);
            let mut i: usize = 0;
            while i < b_tys.len()
                invariant
                    i <= b_tys@.len(),
                    type_models(union@) == type_models(a_tys@) + type_models(b_tys@).subrange(0, i as int),
                decreases b_tys@.len() - i,
            {
                let ghost before = union@;
                union.push(b_tys[i].copy());
                assert(type_models(union@) =~= type_models(before).push(b_tys@[i as int]@));
                assert(type_models(union@) =~= type_models(a_tys@) + type_models(b_tys@).subrange(0, i + 1));
                i += 1;
            }
            assert(type_models(b_tys@).subrange(0, i as int) =~= type_models(b_tys@));
            proof {
                lemma_sum_model(*a_tys);
                lemma_sum_model(*b_tys);
                lemma_sum_model(union);
                lemma_concat_below(type_models(a_tys@), type_models(b_tys@), n, k);
            }
            merge(ctx, interner, t1, t2, PetrType::Sum(union));
            assert(error_models(errors@) =~= error_models(errors@) + none);
            return;
        }
        // the unification of a sum type and another type is the sum type plus the other type
        let mut union = copy_types(a_tys);
        union.push(ty2.copy());
        proof {
            lemma_sum_model(*a_tys);
            lemma_sum_model(union);
            assert(type_models(union@) =~= type_models(a_tys@).push(ty2@));
            lemma_single_below(ty2@, n, k);
            lemma_concat_below(type_models(a_tys@), seq![ty2@], n, k);
            assert(type_models(a_tys@) + seq![ty2@] =~= type_models(a_tys@).push(ty2@));
        }
        merge(ctx, interner, t1, t2, PetrType::Sum(union));
        assert(error_models(errors@) =~= error_models(errors@) + none);
        return;
    }
    if matches!(ty1, PetrType::Infer(..)) && matches!(ty2, PetrType::Literal(..)) {
        // the inference variable is instantiated by the more specific literal
        ctx.update_type(t1, ty2);
        proof {
            assert forall|i: int| 0 <= i < ctx.tys().len() implies names_below(#[trigger] ctx.tys()[i], k) by {
                if i != t1.0 {
                    assert(ctx.tys()[i] == types[i]);
                }
            }
        }
        assert(error_models(errors@) =~= error_models(errors@) + none);
        return;
    }
    if matches!(ty1, PetrType::Literal(..)) && matches!(ty2, PetrType::Infer(..)) {
        ctx.update_type(t2, ty1);
        proof {
            assert forall|i: int| 0 <= i < ctx.tys().len() implies names_below(#[trigger] ctx.tys()[i], k) by {
                if i != t2.0 {
                    assert(ctx.tys()[i] == types[i]);
                }
            }
        }
        assert(error_models(errors@) =~= error_models(errors@) + none);
        return;
    }
    if let PetrType::Literal(l1) = &ty1 {
        match &ty2 {
            PetrType::Literal(l2) => {
                if l1.equals(l2) {
                    assert(error_models(errors@) =~= error_models(errors@) + none);
                    return;
                }
                let same = match (l1, l2) {
                    (crate::ast::Literal::Integer(_), crate::ast::Literal::Integer(_)) => true,
                    (crate::ast::Literal::Boolean(_), crate::ast::Literal::Boolean(_)) => true,
                    (crate::ast::Literal::String(_), crate::ast::Literal::String(_)) => true,
                    _ => false,
                };
                if !same {
                    let e = make_unify_error(ctx, interner, &ty1, &ty2, span);
                    report(errors, e);
                    return;
                }
                let mut pair: Vec<PetrType> = Vec::new();
                pair.push(ty1.copy());
                pair.push(ty2.copy());
                proof {
                    lemma_sum_model(pair);
                    assert(type_models(pair@) =~= seq![ty1@, ty2@]);
                    lemma_single_below(ty1@, n, k);
                    lemma_single_below(ty2@, n, k);
                    lemma_concat_below(seq![ty1@], seq![ty2@], n, k);
                    assert(seq![ty1@] + seq![ty2@] =~= seq![ty1@, ty2@]);
                }
                merge(ctx, interner, t1, t2, PetrType::Sum(pair));
                assert(error_models(errors@) =~= error_models(errors@) + none);
                return;
            },
            PetrType::Sum(tys) => {
                let mut union: Vec<PetrType> = Vec::new();
                union.push(ty1.copy());
                let mut i: usize = 0;
                while i < tys.len()
                    invariant
                        i <= tys@.len(),
                        type_models(union@) == seq![ty1@] + type_models(tys@).subrange(0, i as int),
                    decreases tys@.len() - i,
                {
                    let ghost before = union@;
                    union.push(tys[i].copy());
                    assert(type_models(union@) =~= type_models(before).push(tys@[i as int]@));
                    assert(type_models(union@) =~= seq![ty1@] + type_models(tys@).subrange(0, i + 1));
                    i += 1;
                }
                assert(type_models(tys@).subrange(0, i as int) =~= type_models(tys@));
                proof {
                    lemma_sum_model(*tys);
                    lemma_sum_model(union);
                    lemma_single_below(ty1@, n, k);
                    lemma_concat_below(seq![ty1@], type_models(tys@), n, k);
                }
                merge(ctx, interner, t1, t2, PetrType::Sum(union));
                assert(error_models(errors@) =~= error_models(errors@) + none);
                return;
            },
            _ => {},
        }
    }
    if let PetrType::Literal(lit) = &ty2 {
        // literals can unify broader parent types
        // but the broader parent type gets instantiated with the literal type
        let fits = match (lit, &ty1) {
            (crate::ast::Literal::Integer(_), PetrType::Integer) => true,
            (crate::ast::Literal::Boolean(_), PetrType::Boolean) => true,
            (crate::ast::Literal::String(_), PetrType::String) => true,
            _ => false,
        };
        if fits {
            ctx.update_type(t1, ty2);
            proof {
                assert forall|i: int| 0 <= i < ctx.tys().len() implies names_below(#[trigger] ctx.tys()[i], k) by {
                    if i != t1.0 {
                        assert(ctx.tys()[i] == types[i]);
                    }
                }
            }
            assert(error_models(errors@) =~= error_models(errors@) + none);
        } else {
            let e = make_unify_error(ctx, interner, &ty1, &ty2, span);
            report(errors, e);
        }
        return;
    }
    if let PetrType::Literal(lit) = &ty1 {
        let fits = match (lit, &ty2) {
            (crate::ast::Literal::Integer(_), PetrType::Integer) => true,
            (crate::ast::Literal::Boolean(_), PetrType::Boolean) => true,
            (crate::ast::Literal::String(_), PetrType::String) => true,
            _ => false,
        };
        if fits {
            ctx.update_type(t2, ty1);
            proof {
                assert forall|i: int| 0 <= i < ctx.tys().len() implies names_below(#[trigger] ctx.tys()[i], k) by {
                    if i != t2.0 {
                        assert(ctx.tys()[i] == types[i]);
                    }
                }
            }
            assert(error_models(errors@) =~= error_models(errors@) + none);
        } else {
            let e = make_unify_error(ctx, interner, &ty1, &ty2, span);
            report(errors, e);
        }
        return;
    }
    if let PetrType::Sum(sum_tys) = &ty2 {
        // `other` must be a member of the Sum type
        proof {
            lemma_sum_model(*sum_tys);
        }
        if !types_contain(sum_tys, &ty1) {
            let e = make_unify_error(ctx, interner, &ty1, &ty2, span);
            report(errors, e);
        } else {
            assert(error_models(errors@) =~= error_models(errors@) + none);
        }
        // unify both types to the other type
        ctx.update_type(t2, ty1);
        proof {
            assert forall|i: int| 0 <= i < ctx.tys().len() implies names_below(#[trigger] ctx.tys()[i], k) by {
                if i != t2.0 {
                    assert(ctx.tys()[i] == types[i]);
                }
            }
        }
        return;
    }
    if matches!(ty1, PetrType::Infer(..)) {
        // instantiate the infer type with the known type
        ctx.update_type(t1, ty2);
        proof {
            assert forall|i: int| 0 <= i < ctx.tys().len() implies names_below(#[trigger] ctx.tys()[i], k) by {
                if i != t1.0 {
                    assert(ctx.tys()[i] == types[i]);
                }
            }
        }
        assert(error_models(errors@) =~= error_models(errors@) + none);
        return;
    }
    if matches!(ty2, PetrType::Infer(..)) {
        ctx.update_type(t2, ty1);
        proof {
            assert forall|i: int| 0 <= i < ctx.tys().len() implies names_below(#[trigger] ctx.tys()[i], k) by {
                if i != t2.0 {
                    assert(ctx.tys()[i] == types[i]);
                }
            }
        }
        assert(error_models(errors@) =~= error_models(errors@) + none);
        return;
    }
    // lastly, if no unification rule exists for these two types, it is a mismatch
    let e = make_unify_error(ctx, interner, &ty1, &ty2, span);
    report(errors, e);
}


/// Whether `t` is a broader form of the sum made of `sum_tys` (see [`is_generalized_of`]).
pub fn generalizes(ctx: &TypeContext, t: &PetrType, sum_tys: &Vec<PetrType>) -> (r: bool)
    requires
        ctx.wf(),
        vars_below(t@, ctx.types@.len() as nat),
    ensures
        r == is_generalized_of(ctx.tys(), t@, type_models(sum_tys@)),
    decreases general_measure(ctx.tys(), t@),
{
    let ghost sums = type_models(sum_tys@);
    match t {
        PetrType::String => {
            let mut i: usize = 0;
            while i < sum_tys.len()
                invariant
                    i <= sum_tys@.len(),
                    sums == type_models(sum_tys@),
                    ctx.wf(),
                    t@ == TypeModel::String,
                    forall|j: int|
                        #![trigger sums[j]]
                        0 <= j < i ==> (sums[j] is Literal && sums[j]->Literal_0 is String),
                decreases sum_tys@.len() - i,
            {
                if !matches!(sum_tys[i], PetrType::Literal(crate::ast::Literal::String(_))) {
                    assert(!(sums[i as int] is Literal && sums[i as int]->Literal_0 is String));
                    return false;
                }
                i += 1;
            }
            true
        },
        PetrType::Integer => {
            let mut i: usize = 0;
            while i < sum_tys.len()
                invariant
                    i <= sum_tys@.len(),
                    sums == type_models(sum_tys@),
                    ctx.wf(),
                    t@ == TypeModel::Integer,
                    forall|j: int|
                        #![trigger sums[j]]
                        0 <= j < i ==> (sums[j] is Literal && sums[j]->Literal_0 is Integer),
                decreases sum_tys@.len() - i,
            {
                if !matches!(sum_tys[i], PetrType::Literal(crate::ast::Literal::Integer(_))) {
                    assert(!(sums[i as int] is Literal && sums[i as int]->Literal_0 is Integer));
                    return false;
                }
                i += 1;
            }
            true
        },
        PetrType::Boolean => {
            let mut i: usize = 0;
            while i < sum_tys.len()
                invariant
                    i <= sum_tys@.len(),
                    sums == type_models(sum_tys@),
                    ctx.wf(),
                    t@ == TypeModel::Boolean,
                    forall|j: int|
                        #![trigger sums[j]]
                        0 <= j < i ==> (sums[j] is Literal && sums[j]->Literal_0 is Boolean),
                decreases sum_tys@.len() - i,
            {
                if !matches!(sum_tys[i], PetrType::Literal(crate::ast::Literal::Boolean(_))) {
                    assert(!(sums[i as int] is Literal && sums[i as int]->Literal_0 is Boolean));
                    return false;
                }
                i += 1;
            }
            true
        },
        PetrType::Ref(v) => {
            let next = ctx.get(*v);
            proof {
                if next@ is Ref {
                    lemma_ref_rank_decreases(ctx.tys(), v.0 as int);
                }
            }
            generalizes(ctx, next, sum_tys)
        },
        PetrType::Sum(tys) => {
            proof {
                lemma_sum_model(*tys);
            }
            let ghost mine = type_models(tys@);
            let mut i: usize = 0;
            // the sum is a generalized form when it holds every member of `sum_tys`
            while i < sum_tys.len()
                invariant
                    i <= sum_tys@.len(),
                    mine == type_models(tys@),
                    sums == type_models(sum_tys@),
                    ctx.wf(),
                    t@ == TypeModel::Sum(mine),
                    forall|j: int| 0 <= j < i ==> mine.contains(#[trigger] sums[j]),
                decreases sum_tys@.len() - i,
            {
                if !types_contain(tys, &sum_tys[i]) {
                    assert(!mine.contains(sums[i as int]));
                    assert(!is_generalized_of(ctx.tys(), t@, sums)) by {
                        if is_generalized_of(ctx.tys(), t@, sums) {
                            assert(0 <= i < sums.len());
                            assert(mine.contains(sums[i as int]));
                        }
                    }
                    return false;
                }
                i += 1;
            }
            true
        },
        _ => false,
    }
}

/// Applies the rules of satisfaction to slots `t1` and `t2` (see [`satisfy_types`]).
pub fn apply_satisfies(
    ctx: &mut TypeContext,
    errors: &mut Vec<TypeError>,
    interner: &SymbolInterner,
    t1: TypeVariable,
    t2: TypeVariable,
    span: Span,
)
    requires
        table_ok(old(ctx), interner),
        t1.0 < old(ctx).types@.len(),
        t2.0 < old(ctx).types@.len(),
    ensures
        table_ok(final(ctx), interner),
        final(ctx).tys() == satisfy_types(old(ctx).tys(), interner.texts(), t1, t2, span).0,
        error_models(final(errors)@) == error_models(old(errors)@) + satisfy_types(
            old(ctx).tys(),
            interner.texts(),
            t1,
            t2,
            span,
        ).1,
        final(ctx).types@.len() == old(ctx).types@.len(),
        final(ctx).constraints@ == old(ctx).constraints@,
        final(ctx).same_primitives(*old(ctx)),
    decreases ref_rank(old(ctx).tys(), t1.0 as int) + ref_rank(old(ctx).tys(), t2.0 as int),
{
    let ghost types = ctx.tys();
    let ghost names = interner.texts();
    let ghost n = ctx.types@.len() as nat;
    let ghost k = names.len();
    let ghost none = Seq::<(ErrorModel, Span)>::empty();
    proof {
        lemma_slot_ok(ctx, interner, t1);
        lemma_slot_ok(ctx, interner, t2);
    }
    let ty1 = ctx.get(t1).copy();
    let ty2 = ctx.get(t2).copy();
    assert(solvable(types, t1, t2));
    if ty1.equals(&ty2) {
        assert(error_models(errors@) =~= error_models(errors@) + none);
        return;
    }
    if matches!(ty1, PetrType::ErrorRecovery) || matches!(ty2, PetrType::ErrorRecovery) {
        assert(error_models(errors@) =~= error_models(errors@) + none);
        return;
    }
    if let PetrType::Ref(a) = ty1 {
        proof {
            lemma_ref_rank_decreases(types, t1.0 as int);
        }
        apply_satisfies(ctx, errors, interner, a, t2, span);
        return;
    }
    if let PetrType::Ref(b) = ty2 {
        proof {
            lemma_ref_rank_decreases(types, t2.0 as int);
        }
        apply_satisfies(ctx, errors, interner, t1, b, span);
        return;
    }
    assert(t1 != t2);
    let infer1 = matches!(ty1, PetrType::Infer(..));
    let infer2 = matches!(ty2, PetrType::Infer(..));
    if !infer1 && infer2 {
        // if t1 is a fully instantiated type, then t2 can be updated to be a reference to t1
        ctx.update_type(t2, PetrType::Ref(t1));
        proof {
            assert forall|i: int| 0 <= i < ctx.tys().len() implies names_below(#[trigger] ctx.tys()[i], k) by {
                if i != t2.0 {
                    assert(ctx.tys()[i] == types[i]);
                }
            }
        }
        assert(error_models(errors@) =~= error_models(errors@) + none);
        return;
    }
    if infer1 && !infer2 {
        // the "parent" infer type will not instantiate to the "child" type
        assert(error_models(errors@) =~= error_models(errors@) + none);
        return;
    }
    if let PetrType::Sum(a_tys) = &ty1 {
        if let PetrType::Sum(b_tys) = &ty2 {
            // calculate the intersection of these types, update t2 to the intersection
            proof {
                lemma_sum_model(*a_tys);
                lemma_sum_model(*b_tys);
            }
            let ghost am = type_models(a_tys@);
            let ghost bm = type_models(b_tys@);
            let ghost keep = |x: TypeModel| bm.contains(x);
            let mut intersection: Vec<PetrType> = Vec::new();
            let mut i: usize = 0;
            while i < a_tys.len()
                invariant
                    i <= a_tys@.len(),
                    am == type_models(a_tys@),
                    bm == type_models(b_tys@),
                    keep == (|x: TypeModel| bm.contains(x)),
                    type_models(intersection@) == am.subrange(0, i as int).filter(keep),
                decreases a_tys@.len() - i,
            {
                let ghost before = intersection@;
                proof {
                    reveal(Seq::filter);
                    assert(am.subrange(0, i + 1).drop_last() =~= am.subrange(0, i as int));
                    assert(am.subrange(0, i + 1).last() == am[i as int]);
                }
                if types_contain(b_tys, &a_tys[i]) {
                    intersection.push(a_tys[i].copy());
                    assert(type_models(intersection@) =~= type_models(before).push(am[i as int]));
                } else {
                    assert(type_models(intersection@) =~= type_models(before));
                }
                i += 1;
            }
            assert(am.subrange(0, i as int) =~= am);
            proof {
                lemma_sum_model(intersection);
                lemma_filter_below(am, keep, n, k);
            }
            ctx.update_type(t2, PetrType::Sum(intersection));
            proof {
                assert forall|i: int| 0 <= i < ctx.tys().len() implies names_below(#[trigger] ctx.tys()[i], k) by {
                    if i != t2.0 {
                        assert(ctx.tys()[i] == types[i]);
                    }
                }
            }
            assert(error_models(errors@) =~= error_models(errors@) + none);
            return;
        }
    }
    let sum1 = matches!(ty1, PetrType::Sum(..));
    let sum2 = matches!(ty2, PetrType::Sum(..));
    if sum1 || sum2 {
        let (sum_ty, other) = if sum1 {
            (&ty1, &ty2)
        } else {
            (&ty2, &ty1)
        };
        if let PetrType::Sum(sum_tys) = sum_ty {
            proof {
                lemma_sum_model(*sum_tys);
            }
            // if `other` is a generalized version of the sum type,
            // then it satisfies the sum type
            if generalizes(ctx, other, sum_tys) {
                assert(error_models(errors@) =~= error_models(errors@) + none);
            } else if types_contain(sum_tys, other) {
                // `other` must be a member of the Sum type
                assert(error_models(errors@) =~= error_models(errors@) + none);
            } else {
                let e = make_satisfy_error(ctx, interner, other, sum_ty, span);
                report(errors, e);
            }
        }
        return;
    }
    if let PetrType::Literal(l1) = &ty1 {
        if let PetrType::Literal(l2) = &ty2 {
            if l1.equals(l2) {
                assert(error_models(errors@) =~= error_models(errors@) + none);
                return;
            }
        }
    }
    if let PetrType::Literal(lit) = &ty2 {
        // Literals can satisfy broader parent types
        let fits = match (lit, &ty1) {
            (crate::ast::Literal::Integer(_), PetrType::Integer) => true,
            (crate::ast::Literal::Boolean(_), PetrType::Boolean) => true,
            (crate::ast::Literal::String(_), PetrType::String) => true,
            _ => false,
        };
        if fits {
            assert(error_models(errors@) =~= error_models(errors@) + none);
        } else {
            let e = make_satisfy_error(ctx, interner, &ty1, &ty2, span);
            report(errors, e);
        }
        return;
    }
    if infer1 {
        // if we are trying to satisfy an inferred type with no bounds, this is ok
        assert(error_models(errors@) =~= error_models(errors@) + none);
        return;
    }
    let e = make_satisfy_error(ctx, interner, &ty1, &ty2, span);
    report(errors, e);
}


/// Unifying a slot with itself changes nothing and reports nothing; so does making a
/// slot satisfy itself.
pub proof fn law_self_constraints_are_noops(types: Seq<TypeModel>, names: Seq<Seq<char>>, t: TypeVariable, span: Span)
    requires
        solvable(types, t, t),
    ensures
        unify_types(types, names, t, t, span) == (types, Seq::<(ErrorModel, Span)>::empty()),
        satisfy_types(types, names, t, t, span) == (types, Seq::<(ErrorModel, Span)>::empty()),
{
}

/// The error-recovery type unifies with, satisfies and is satisfied by anything,
/// silently: the table stays as it is and no error is reported.
pub proof fn law_error_recovery_is_silent(
    types: Seq<TypeModel>,
    names: Seq<Seq<char>>,
    t1: TypeVariable,
    t2: TypeVariable,
    span: Span,
)
    requires
        solvable(types, t1, t2),
        types[t1.0 as int] is ErrorRecovery || types[t2.0 as int] is ErrorRecovery,
    ensures
        unify_types(types, names, t1, t2, span) == (types, Seq::<(ErrorModel, Span)>::empty()),
        satisfy_types(types, names, t1, t2, span) == (types, Seq::<(ErrorModel, Span)>::empty()),
{
}


/// The slot that the chain of references from `t` ends at.
pub open spec fn ref_end(types: Seq<TypeModel>, t: TypeVariable) -> TypeVariable
    decreases ref_rank(types, t.0 as int),
    when acyclic_refs(types) && t.0 < types.len()
{
    if types[t.0 as int] is Ref {
        proof {
            lemma_ref_rank_decreases(types, t.0 as int);
        }
        ref_end(types, types[t.0 as int]->Ref_0)
    } else {
        t
    }
}

/// Applying a satisfies constraint of `t2` by `t1` changes no slot of the table but
/// the one that the chain of references from `t2` ends at, and keeps its length.
pub proof fn lemma_satisfy_changes_only_end(
    types: Seq<TypeModel>,
    names: Seq<Seq<char>>,
    t1: TypeVariable,
    t2: TypeVariable,
    span: Span,
)
    requires
        solvable(types, t1, t2),
    ensures
        satisfy_types(types, names, t1, t2, span).0.len() == types.len(),
        forall|s: int|
            0 <= s < types.len() && s != ref_end(types, t2).0 ==> #[trigger] satisfy_types(
                types,
                names,
                t1,
                t2,
                span,
            ).0[s] == types[s],
    decreases ref_rank(types, t1.0 as int) + ref_rank(types, t2.0 as int),
{
    let ty1 = types[t1.0 as int];
    let ty2 = types[t2.0 as int];
    if ty1 == ty2 {
    } else if ty1 is ErrorRecovery || ty2 is ErrorRecovery {
    } else if ty1 is Ref {
        lemma_ref_rank_decreases(types, t1.0 as int);
        lemma_satisfy_changes_only_end(types, names, ty1->Ref_0, t2, span);
    } else if ty2 is Ref {
        lemma_ref_rank_decreases(types, t2.0 as int);
        lemma_satisfy_changes_only_end(types, names, t1, ty2->Ref_0, span);
        assert(ref_end(types, t2) == ref_end(types, ty2->Ref_0));
    } else {
        assert(ref_end(types, t2) == t2);
    }
}


/// The chain of references from `t` ends at a slot in the table that holds no reference.
pub proof fn lemma_ref_end_not_ref(types: Seq<TypeModel>, t: TypeVariable)
    requires
        acyclic_refs(types),
        t.0 < types.len(),
    ensures
        ref_end(types, t).0 < types.len(),
        !(types[ref_end(types, t).0 as int] is Ref),
    decreases ref_rank(types, t.0 as int),
{
    if types[t.0 as int] is Ref {
        lemma_ref_rank_decreases(types, t.0 as int);
        lemma_ref_end_not_ref(types, types[t.0 as int]->Ref_0);
    }
}

/// Slot `s` is on the chain of references from `t`: `t` itself or a slot that it refers
/// to, directly or through others.
pub open spec fn in_chain(types: Seq<TypeModel>, t: TypeVariable, s: int) -> bool
    decreases ref_rank(types, t.0 as int),
    when acyclic_refs(types) && t.0 < types.len()
{
    s == t.0 || (types[t.0 as int] is Ref && {
        proof {
            lemma_ref_rank_decreases(types, t.0 as int);
        }
        in_chain(types, types[t.0 as int]->Ref_0, s)
    })
}

/// Applying a satisfies constraint of `t2` by `t1` never changes a slot on the chain
/// of references from `t1`, and reports at most one error.
pub proof fn lemma_satisfy_keeps_first_chain(
    types: Seq<TypeModel>,
    names: Seq<Seq<char>>,
    t1: TypeVariable,
    t2: TypeVariable,
    span: Span,
)
    requires
        solvable(types, t1, t2),
    ensures
        forall|s: int| #[trigger] in_chain(types, t1, s) ==> satisfy_types(types, names, t1, t2, span).0[s] == types[s],
        satisfy_types(types, names, t1, t2, span).1.len() <= 1,
    decreases ref_rank(types, t1.0 as int) + ref_rank(types, t2.0 as int),
{
    let ty1 = types[t1.0 as int];
    let ty2 = types[t2.0 as int];
    if ty1 == ty2 {
    } else if ty1 is ErrorRecovery || ty2 is ErrorRecovery {
    } else if ty1 is Ref {
        lemma_ref_rank_decreases(types, t1.0 as int);
        lemma_satisfy_keeps_first_chain(types, names, ty1->Ref_0, t2, span);
        lemma_satisfy_changes_only_end(types, names, t1, t2, span);
        lemma_ref_end_not_ref(types, t2);
        assert forall|s: int| #[trigger] in_chain(types, t1, s) implies satisfy_types(types, names, t1, t2, span).0[s]
            == types[s] by {
            if s != t1.0 {
                assert(in_chain(types, ty1->Ref_0, s));
            }
        }
    } else if ty2 is Ref {
        lemma_ref_rank_decreases(types, t2.0 as int);
        lemma_satisfy_keeps_first_chain(types, names, t1, ty2->Ref_0, span);
    } else {
        assert(t1 != t2);
        assert forall|s: int| #[trigger] in_chain(types, t1, s) implies satisfy_types(types, names, t1, t2, span).0[s]
            == types[s] by {
            assert(s == t1.0);
        }
    }
}


/// Unifying a sum type in `t1` with a type in `t2` that is neither a sum, a reference
/// nor error recovery only widens the sum: afterwards `t1` holds a sum with every
/// member it had and the other type too, `t2` refers to `t1`, and no error is reported.
pub proof fn lemma_unify_sum_widens(
    types: Seq<TypeModel>,
    names: Seq<Seq<char>>,
    t1: TypeVariable,
    t2: TypeVariable,
    span: Span,
)
    requires
        solvable(types, t1, t2),
        crate::context::primitives_kept(types),
        types[t1.0 as int] is Sum,
        !(types[t2.0 as int] is Sum),
        !(types[t2.0 as int] is Ref),
        !(types[t2.0 as int] is ErrorRecovery),
    ensures
        ({
            let r = unify_types(types, names, t1, t2, span);
            &&& r.0.len() == types.len()
            &&& r.0[t1.0 as int] is Sum
            &&& r.0[t1.0 as int]->Sum_0.contains(types[t2.0 as int])
            &&& forall|x: TypeModel| types[t1.0 as int]->Sum_0.contains(x) ==> r.0[t1.0 as int]->Sum_0.contains(x)
            &&& t2.0 >= 5 ==> r.0[t2.0 as int] == TypeModel::Ref(t1)
            &&& r.1.len() == 0
        }),
{
    let ty1 = types[t1.0 as int];
    let ty2 = types[t2.0 as int];
    assert(t1 != t2);
    assert(t1.0 >= 5);
    let merged = TypeModel::Sum(ty1->Sum_0.push(ty2));
    let r = unify_types(types, names, t1, t2, span);
    assert(r.0 == merge_into(types, t1, t2, merged));
    assert(set_slot(types, t1, merged)[t1.0 as int] == merged);
    assert(r.0[t1.0 as int] == merged);
    assert(merged->Sum_0[ty1->Sum_0.len() as int] == ty2);
    assert forall|x: TypeModel| ty1->Sum_0.contains(x) implies merged->Sum_0.contains(x) by {
        let i = choose|i: int| 0 <= i < ty1->Sum_0.len() && ty1->Sum_0[i] == x;
        assert(merged->Sum_0[i] == x);
    }
}

/// Satisfying a primitive type in `t1` by a literal in `t2` reports an error exactly
/// when the literal is not of that type's kind, and that error is a failure to satisfy
/// naming both types; the table is left as it was.
pub proof fn lemma_satisfy_literal_kind(
    types: Seq<TypeModel>,
    names: Seq<Seq<char>>,
    t1: TypeVariable,
    t2: TypeVariable,
    span: Span,
)
    requires
        solvable(types, t1, t2),
        types[t1.0 as int] is Integer || types[t1.0 as int] is Boolean || types[t1.0 as int] is String
            || types[t1.0 as int] is Unit,
        types[t2.0 as int] is Literal,
    ensures
        ({
            let r = satisfy_types(types, names, t1, t2, span);
            &&& r.0 == types
            &&& literal_fits(types[t2.0 as int]->Literal_0, types[t1.0 as int]) ==> r.1.len() == 0
            &&& !literal_fits(types[t2.0 as int]->Literal_0, types[t1.0 as int]) ==> r.1 == seq![
                (
                    ErrorModel::FailedToSatisfy(
                        print_type(types, names, types[t1.0 as int], print_fuel(types)),
                        print_type(types, names, types[t2.0 as int], print_fuel(types)),
                    ),
                    span,
                ),
            ]
        }),
{
}


/// Unifying two different sum types gives their union: afterwards `t1` holds a sum with
/// every member of both, `t2` refers to `t1`, and no error is reported.
pub proof fn lemma_unify_sums_join(
    types: Seq<TypeModel>,
    names: Seq<Seq<char>>,
    t1: TypeVariable,
    t2: TypeVariable,
    span: Span,
)
    requires
        solvable(types, t1, t2),
        crate::context::primitives_kept(types),
        types[t1.0 as int] is Sum,
        types[t2.0 as int] is Sum,
        types[t1.0 as int] != types[t2.0 as int],
    ensures
        ({
            let r = unify_types(types, names, t1, t2, span);
            &&& r.0[t1.0 as int] is Sum
            &&& forall|x: TypeModel| types[t1.0 as int]->Sum_0.contains(x) ==> r.0[t1.0 as int]->Sum_0.contains(x)
            &&& forall|x: TypeModel| types[t2.0 as int]->Sum_0.contains(x) ==> r.0[t1.0 as int]->Sum_0.contains(x)
            &&& r.0[t2.0 as int] == TypeModel::Ref(t1)
            &&& r.1.len() == 0
        }),
{
    let ty1 = types[t1.0 as int];
    let ty2 = types[t2.0 as int];
    assert(t1 != t2);
    let a = ty1->Sum_0;
    let b = ty2->Sum_0;
    let merged = TypeModel::Sum(a + b);
    let r = unify_types(types, names, t1, t2, span);
    assert(r.0 == merge_into(types, t1, t2, merged));
    assert(set_slot(types, t1, merged)[t1.0 as int] == merged);
    assert forall|x: TypeModel| a.contains(x) implies (a + b).contains(x) by {
        let i = choose|i: int| 0 <= i < a.len() && a[i] == x;
        assert((a + b)[i] == x);
    }
    assert forall|x: TypeModel| b.contains(x) implies (a + b).contains(x) by {
        let i = choose|i: int| 0 <= i < b.len() && b[i] == x;
        assert((a + b)[a.len() + i] == x);
    }
}

/// Unifying two different literals: literals of one kind widen into a sum holding both,
/// with no error; literals of different kinds are left as they are and exactly one
/// unification failure is reported, at the constraint's span.
pub proof fn lemma_unify_literals(
    types: Seq<TypeModel>,
    names: Seq<Seq<char>>,
    t1: TypeVariable,
    t2: TypeVariable,
    span: Span,
)
    requires
        solvable(types, t1, t2),
        crate::context::primitives_kept(types),
        types[t1.0 as int] is Literal,
        types[t2.0 as int] is Literal,
        types[t1.0 as int] != types[t2.0 as int],
    ensures
        ({
            let r = unify_types(types, names, t1, t2, span);
            let ty1 = types[t1.0 as int];
            let ty2 = types[t2.0 as int];
            &&& same_kind(ty1->Literal_0, ty2->Literal_0) ==> {
                &&& r.0[t1.0 as int] is Sum
                &&& r.0[t1.0 as int]->Sum_0.contains(ty1)
                &&& r.0[t1.0 as int]->Sum_0.contains(ty2)
                &&& r.0[t2.0 as int] == TypeModel::Ref(t1)
                &&& r.1.len() == 0
            }
            &&& !same_kind(ty1->Literal_0, ty2->Literal_0) ==> {
                &&& r.0 == types
                &&& r.1.len() == 1
                &&& r.1[0].0 is UnificationFailure
                &&& r.1[0].1 == span
            }
        }),
{
    let ty1 = types[t1.0 as int];
    let ty2 = types[t2.0 as int];
    assert(t1 != t2);
    assert(t1.0 >= 5 && t2.0 >= 5);
    if same_kind(ty1->Literal_0, ty2->Literal_0) {
        let merged = TypeModel::Sum(seq![ty1, ty2]);
        let r = unify_types(types, names, t1, t2, span);
        assert(r.0 == merge_into(types, t1, t2, merged));
        assert(set_slot(types, t1, merged)[t1.0 as int] == merged);
        assert(merged->Sum_0[0] == ty1);
        assert(merged->Sum_0[1] == ty2);
    }
}

} // verus!
