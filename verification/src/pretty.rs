//! Printing types as the user reads them.
//!
//! Printing follows type variables through the table of types. The table may refer to
//! itself through arrows, lists and fields (unification does no occurs check), so the
//! printer carries a depth budget: each step through a variable spends one unit, and a
//! variable met with no budget left prints as `…`. A budget of the number of slots never
//! runs out when no type contains itself.
use vstd::prelude::*;
use crate::ast::{literal_debug, Literal};
use crate::context::TypeContext;
use crate::ids::SymbolInterner;
use crate::text::{nat_text, push_str, push_usize};
use crate::types::{
    PetrType, TypeModel, TypeVariable, all_names_below, lemma_all_names_below_index, names_below,
};

verus! {

/// The text of a variable: the text of the first type that is not a reference on the
/// chain of references that starts at it.
pub open spec fn print_var(types: Seq<TypeModel>, names: Seq<Seq<char>>, v: TypeVariable, fuel: nat) -> Seq<char>
    decreases fuel, 0int, v,
{
    if fuel == 0 {
        "…"@
    } else if v.0 < types.len() {
        match types[v.0 as int] {
            TypeModel::Ref(t) => print_var(types, names, t, (fuel - 1) as nat),
            other => print_type(types, names, other, (fuel - 1) as nat),
        }
    } else {
        Seq::empty()
    }
}

/// The text of a type.
pub open spec fn print_type(types: Seq<TypeModel>, names: Seq<Seq<char>>, t: TypeModel, fuel: nat) -> Seq<char>
    decreases fuel, 1int, t,
{
    match t {
        TypeModel::Unit => "unit"@,
        TypeModel::Integer => "int"@,
        TypeModel::Boolean => "bool"@,
        TypeModel::String => "string"@,
        TypeModel::Ref(v) => {
            print_var(types, names, v, fuel)
        },
        TypeModel::UserDefined { name, .. } => names[name.id.0 as int],
        TypeModel::Arrow(tys) => {
            "("@ + print_vars(types, names, tys, fuel) + ")"@
        },
        TypeModel::ErrorRecovery => "error recovery"@,
        TypeModel::List(v) => {
            "["@ + print_var(types, names, v, fuel) + "]"@
        },
        TypeModel::Infer(id, _) => "t"@ + nat_text(id as nat),
        TypeModel::Sum(tys) => {
            proof { assert(decreases_to!(t => t->Sum_0)); }
            "("@ + print_types(types, names, tys, fuel) + ")"@
        },
        TypeModel::Literal(l) => "Literal "@ + literal_debug(l),
    }
}

/// The texts of the variables, joined by arrows.
pub open spec fn print_vars(types: Seq<TypeModel>, names: Seq<Seq<char>>, tys: Seq<TypeVariable>, fuel: nat) -> Seq<char>
    decreases fuel, 0int, tys,
{
    if tys.len() == 0 {
        Seq::empty()
    } else if tys.len() == 1 {
        print_var(types, names, tys[0], fuel)
    } else {
        print_vars(types, names, tys.subrange(0, tys.len() - 1), fuel) + " → "@ + print_var(
            types,
            names,
            tys[tys.len() - 1],
            fuel,
        )
    }
}

/// The texts of the types, joined by bars.
pub open spec fn print_types(types: Seq<TypeModel>, names: Seq<Seq<char>>, tys: Seq<TypeModel>, fuel: nat) -> Seq<char>
    decreases fuel, 1int, tys,
{
    if tys.len() == 0 {
        Seq::empty()
    } else if tys.len() == 1 {
        print_type(types, names, tys[0], fuel)
    } else {
        print_types(types, names, tys.subrange(0, tys.len() - 1), fuel) + " | "@ + print_type(
            types,
            names,
            tys[tys.len() - 1],
            fuel,
        )
    }
}

/// Every user-defined type in the table is named by an interned symbol.
pub open spec fn table_names_ok(types: Seq<TypeModel>, k: nat) -> bool {
    forall|i: int| 0 <= i < types.len() ==> names_below(#[trigger] types[i], k)
}

/// Appends the text of variable `v` to `buf`.
pub fn push_var(buf: &mut String, ctx: &TypeContext, interner: &SymbolInterner, v: TypeVariable, fuel: usize)
    requires
        ctx.wf(),
        table_names_ok(ctx.tys(), interner.texts().len()),
    ensures
        final(buf)@ == old(buf)@ + print_var(ctx.tys(), interner.texts(), v, fuel as nat),
    decreases fuel, 0int, v,
{
    if fuel == 0 {
        push_str(buf, "…");
    } else if v.0 < ctx.types.len() {
        let t = ctx.get(v);
        match t {
            PetrType::Ref(next) => push_var(buf, ctx, interner, *next, fuel - 1),
            _ => push_type(buf, ctx, interner, t, fuel - 1),
        }
    }
}

/// Appends the text of type `t` to `buf`.
pub fn push_type(buf: &mut String, ctx: &TypeContext, interner: &SymbolInterner, t: &PetrType, fuel: usize)
    requires
        ctx.wf(),
        table_names_ok(ctx.tys(), interner.texts().len()),
        names_below(t@, interner.texts().len()),
    ensures
        final(buf)@ == old(buf)@ + print_type(ctx.tys(), interner.texts(), t@, fuel as nat),
    decreases fuel, 1int, t,
{
    match t {
        PetrType::Unit => push_str(buf, "unit"),
        PetrType::Integer => push_str(buf, "int"),
        PetrType::Boolean => push_str(buf, "bool"),
        PetrType::String => push_str(buf, "string"),
        PetrType::Ref(v) => {
            push_var(buf, ctx, interner, *v, fuel);
        },
        PetrType::UserDefined { name, .. } => {
            let text = interner.get(name.id);
            push_str(buf, text.as_str());
        },
        PetrType::Arrow(tys) => {
            push_str(buf, "(");
            let mut i: usize = 0;
            let ghost start = buf@;
            while i < tys.len()
                invariant
                    i <= tys@.len(),
                    *t == PetrType::Arrow(*tys),
                    ctx.wf(),
                    table_names_ok(ctx.tys(), interner.texts().len()),
                    buf@ == start + print_vars(ctx.tys(), interner.texts(), tys@.subrange(0, i as int), fuel as nat),
                decreases tys@.len() - i,
            {
                if i > 0 {
                    push_str(buf, " → ");
                }
                push_var(buf, ctx, interner, tys[i], fuel);
                proof {
                    let s = tys@.subrange(0, i + 1);
                    assert(s.subrange(0, s.len() - 1) =~= tys@.subrange(0, i as int));
                    assert(s[s.len() - 1] == tys@[i as int]);
                    if i == 0 {
                        assert(print_vars(ctx.tys(), interner.texts(), s, fuel as nat) == print_var(ctx.tys(), interner.texts(), tys@[0], fuel as nat));
                    }
                }
                assert(buf@ =~= start + print_vars(ctx.tys(), interner.texts(), tys@.subrange(0, i + 1), fuel as nat));
                i += 1;
            }
            assert(tys@.subrange(0, i as int) =~= tys@);
            push_str(buf, ")");
            assert(final(buf)@ =~= old(buf)@ + print_type(ctx.tys(), interner.texts(), t@, fuel as nat));
        },
        PetrType::ErrorRecovery => push_str(buf, "error recovery"),
        PetrType::List(v) => {
            push_str(buf, "[");
            push_var(buf, ctx, interner, *v, fuel);
            push_str(buf, "]");
            assert(final(buf)@ =~= old(buf)@ + print_type(ctx.tys(), interner.texts(), t@, fuel as nat));
        },
        PetrType::Infer(id, _) => {
            push_str(buf, "t");
            push_usize(buf, *id);
            assert(final(buf)@ =~= old(buf)@ + print_type(ctx.tys(), interner.texts(), t@, fuel as nat));
        },
        PetrType::Sum(tys) => {
            push_str(buf, "(");
            let mut i: usize = 0;
            let ghost start = buf@;
            let ghost models = t@->Sum_0;
            while i < tys.len()
                invariant
                    i <= tys@.len(),
                    *t == PetrType::Sum(*tys),
                    models == t@->Sum_0,
                    ctx.wf(),
                    table_names_ok(ctx.tys(), interner.texts().len()),
                    names_below(t@, interner.texts().len()),
                    buf@ == start + print_types(ctx.tys(), interner.texts(), models.subrange(0, i as int), fuel as nat),
                decreases tys@.len() - i,
            {
                if i > 0 {
                    push_str(buf, " | ");
                }
                proof {
                    assert(decreases_to!(*t => (*t)->Sum_0));
                    assert(decreases_to!(tys => tys@));
                    assert(decreases_to!(tys@ => tys@[i as int]));
                    assert(models[i as int] == tys@[i as int]@);
                    lemma_all_names_below_index(models, interner.texts().len(), i as int);
                }
                push_type(buf, ctx, interner, &tys[i], fuel);
                proof {
                    let s = models.subrange(0, i + 1);
                    assert(s.subrange(0, s.len() - 1) =~= models.subrange(0, i as int));
                    assert(s[s.len() - 1] == models[i as int]);
                    if i == 0 {
                        assert(print_types(ctx.tys(), interner.texts(), s, fuel as nat) == print_type(ctx.tys(), interner.texts(), models[0], fuel as nat));
                    }
                }
                assert(buf@ =~= start + print_types(ctx.tys(), interner.texts(), models.subrange(0, i + 1), fuel as nat));
                i += 1;
            }
            assert(models.subrange(0, i as int) =~= models);
            push_str(buf, ")");
            assert(final(buf)@ =~= old(buf)@ + print_type(ctx.tys(), interner.texts(), t@, fuel as nat));
        },
        PetrType::Literal(l) => {
            push_str(buf, "Literal ");
            l.push_debug(buf);
            assert(final(buf)@ =~= old(buf)@ + print_type(ctx.tys(), interner.texts(), t@, fuel as nat));
        },
    }
}


/// A list type prints as its element's text in square brackets, so it is two
/// characters longer than its element and never prints like it.
pub proof fn lemma_list_text(types: Seq<TypeModel>, names: Seq<Seq<char>>, v: TypeVariable, fuel: nat)
    ensures
        print_type(types, names, TypeModel::List(v), fuel) == "["@ + print_var(types, names, v, fuel) + "]"@,
        print_type(types, names, TypeModel::List(v), fuel).len() == print_var(types, names, v, fuel).len() + 2,
        print_type(types, names, TypeModel::List(v), fuel) != print_var(types, names, v, fuel),
        print_type(types, names, TypeModel::List(v), fuel)[0] == '[',
{
    reveal_strlit("[");
    reveal_strlit("]");
    let t = print_type(types, names, TypeModel::List(v), fuel);
    assert(t.len() == print_var(types, names, v, fuel).len() + 2);
    assert(t[0] == '[');
}

} // verus!
