//! The table of types and the constraints collected over it.
use vstd::prelude::*;
use crate::span::Span;
use crate::types::{PetrType, TypeModel, TypeVariable, type_models, vars_below, lemma_vars_below_mono};

verus! {

#[derive(Clone, Copy, Debug, PartialEq, Eq, Structural)]
pub enum TypeConstraintKind {
    Unify(TypeVariable, TypeVariable),
    // constraint that lhs is a "subtype" or satisfies the typeclass constraints of "rhs"
    Satisfies(TypeVariable, TypeVariable),
}

#[derive(Clone, Copy, Debug, PartialEq, Eq, Structural)]
pub struct TypeConstraint {
    pub kind: TypeConstraintKind,
    /// The span from which this type constraint originated
    pub span: Span,
}

impl TypeConstraint {
    pub fn unify(t1: TypeVariable, t2: TypeVariable, span: Span) -> (r: Self)
        ensures
            r == (TypeConstraint { kind: TypeConstraintKind::Unify(t1, t2), span }),
    {
        TypeConstraint { kind: TypeConstraintKind::Unify(t1, t2), span }
    }

    pub fn satisfies(t1: TypeVariable, t2: TypeVariable, span: Span) -> (r: Self)
        ensures
            r == (TypeConstraint { kind: TypeConstraintKind::Satisfies(t1, t2), span }),
    {
        TypeConstraint { kind: TypeConstraintKind::Satisfies(t1, t2), span }
    }

    pub open spec fn unify_spec(t1: TypeVariable, t2: TypeVariable, span: Span) -> TypeConstraint {
        TypeConstraint { kind: TypeConstraintKind::Unify(t1, t2), span }
    }

    pub open spec fn satisfies_spec(t1: TypeVariable, t2: TypeVariable, span: Span) -> TypeConstraint {
        TypeConstraint { kind: TypeConstraintKind::Satisfies(t1, t2), span }
    }

    /// Both variables of the constraint are below `n`.
    pub open spec fn below(self, n: nat) -> bool {
        match self.kind {
            TypeConstraintKind::Unify(a, b) => a.0 < n && b.0 < n,
            TypeConstraintKind::Satisfies(a, b) => a.0 < n && b.0 < n,
        }
    }
}

/// `rank` gives each slot a number that strictly decreases along every reference.
pub open spec fn ranks_ok(types: Seq<TypeModel>, rank: Seq<nat>) -> bool {
    &&& rank.len() == types.len()
    &&& forall|i: int|
        0 <= i < types.len() && (#[trigger] types[i]) is Ref ==> {
            let j = types[i]->Ref_0.0 as int;
            0 <= j < types.len() && rank[j] < rank[i]
        }
}

/// Following references from any slot ends at a slot that is not a reference.
pub open spec fn acyclic_refs(types: Seq<TypeModel>) -> bool {
    exists|rank: Seq<nat>| ranks_ok(types, rank)
}

/// A bound on how many references can be followed from slot `i`.
pub open spec fn ref_rank(types: Seq<TypeModel>, i: int) -> nat {
    (choose|rank: Seq<nat>| ranks_ok(types, rank))[i]
}

pub proof fn lemma_ref_rank_decreases(types: Seq<TypeModel>, i: int)
    requires
        acyclic_refs(types),
        0 <= i < types.len(),
        types[i] is Ref,
    ensures
        0 <= types[i]->Ref_0.0 < types.len(),
        ref_rank(types, types[i]->Ref_0.0 as int) < ref_rank(types, i),
{
    let rank = choose|rank: Seq<nat>| ranks_ok(types, rank);
    assert(ranks_ok(types, rank));
    assert(types[i] is Ref);
}

/// Appending a slot keeps references acyclic when a reference it holds points back.
pub proof fn lemma_acyclic_push(types: Seq<TypeModel>, t: TypeModel)
    requires
        acyclic_refs(types),
        t is Ref ==> t->Ref_0.0 < types.len(),
    ensures
        acyclic_refs(types.push(t)),
{
    let rank = choose|rank: Seq<nat>| ranks_ok(types, rank);
    let top: nat = if t is Ref {
        rank[t->Ref_0.0 as int] + 1
    } else {
        0
    };
    let rank2 = rank.push(top);
    let types2 = types.push(t);
    assert forall|i: int| 0 <= i < types2.len() && (#[trigger] types2[i]) is Ref implies {
        let j = types2[i]->Ref_0.0 as int;
        0 <= j < types2.len() && rank2[j] < rank2[i]
    } by {
        if i < types.len() {
            assert(types2[i] == types[i]);
        }
    }
    assert(ranks_ok(types2, rank2));
}

/// Replacing a slot by a type that is not a reference keeps references acyclic.
pub proof fn lemma_acyclic_update_plain(types: Seq<TypeModel>, x: int, t: TypeModel)
    requires
        acyclic_refs(types),
        0 <= x < types.len(),
        !(t is Ref),
    ensures
        acyclic_refs(types.update(x, t)),
{
    let rank = choose|rank: Seq<nat>| ranks_ok(types, rank);
    let types2 = types.update(x, t);
    assert forall|i: int| 0 <= i < types2.len() && (#[trigger] types2[i]) is Ref implies {
        let j = types2[i]->Ref_0.0 as int;
        0 <= j < types2.len() && rank[j] < rank[i]
    } by {
        assert(types2[i] == types[i]);
    }
    assert(ranks_ok(types2, rank));
}

/// Making one end slot refer to another end slot keeps references acyclic.
pub proof fn lemma_acyclic_link(types: Seq<TypeModel>, x: int, y: TypeVariable)
    requires
        acyclic_refs(types),
        0 <= x < types.len(),
        y.0 < types.len(),
        x != y.0,
        !(types[x] is Ref),
        !(types[y.0 as int] is Ref),
    ensures
        acyclic_refs(types.update(x, TypeModel::Ref(y))),
{
    let rank = choose|rank: Seq<nat>| ranks_ok(types, rank);
    assert(ranks_ok(types, rank));
    let yi = y.0 as int;
    let low: int = if rank[yi] <= rank[x] - 1 {
        rank[yi] as int
    } else {
        rank[x] - 1
    };
    let rank2 = Seq::new(
        rank.len(),
        |k: int|
            if k == yi {
                (low + 1) as nat
            } else {
                rank[k] + 1
            },
    );
    let types2 = types.update(x, TypeModel::Ref(y));
    assert forall|i: int| 0 <= i < types2.len() && (#[trigger] types2[i]) is Ref implies {
        let j = types2[i]->Ref_0.0 as int;
        0 <= j < types2.len() && rank2[j] < rank2[i]
    } by {
        if i != x {
            assert(types2[i] == types[i]);
            assert(types[i] is Ref);
            let j = types[i]->Ref_0.0 as int;
            assert(rank[j] < rank[i]);
            assert(i != yi);
        } else {
            assert(types2[i]->Ref_0.0 as int == yi);
        }
    }
    assert(ranks_ok(types2, rank2));
}

/// The slots of the primitive types hold them: unit, string, bool, int and the
/// error-recovery type, in that order.
pub open spec fn primitives_kept(tys: Seq<TypeModel>) -> bool {
    &&& tys.len() >= 5
    &&& tys[0] == TypeModel::Unit
    &&& tys[1] == TypeModel::String
    &&& tys[2] == TypeModel::Boolean
    &&& tys[3] == TypeModel::Integer
    &&& tys[4] == TypeModel::ErrorRecovery
}

/// The table after slot `t` takes `ty`; the slots of the primitive types are never
/// rewritten.
pub open spec fn set_slot(tys: Seq<TypeModel>, t: TypeVariable, ty: TypeModel) -> Seq<TypeModel> {
    if t.0 < 5 {
        tys
    } else {
        tys.update(t.0 as int, ty)
    }
}

/// The table of types and the constraints over it.
pub struct TypeContext {
    pub types: Vec<PetrType>,
    pub constraints: Vec<TypeConstraint>,
    // known primitive type IDs
    pub unit_ty: TypeVariable,
    pub string_ty: TypeVariable,
    pub int_ty: TypeVariable,
    pub bool_ty: TypeVariable,
    pub error_recovery: TypeVariable,
}

impl TypeContext {
    /// The types in the table, in slot order.
    pub open spec fn tys(&self) -> Seq<TypeModel> {
        type_models(self.types@)
    }

    /// Every variable that the table and the constraints mention is a slot of the table,
    /// the primitive slots are where they were put, and references never go round in a
    /// circle.
    pub open spec fn wf(&self) -> bool {
        let n = self.types@.len();
        &&& forall|i: int| 0 <= i < n ==> vars_below(#[trigger] self.tys()[i], n)
        &&& forall|i: int| 0 <= i < self.constraints@.len() ==> (#[trigger] self.constraints@[i]).below(n)
        &&& acyclic_refs(self.tys())
        &&& self.unit_ty == TypeVariable(0)
        &&& self.string_ty == TypeVariable(1)
        &&& self.bool_ty == TypeVariable(2)
        &&& self.int_ty == TypeVariable(3)
        &&& self.error_recovery == TypeVariable(4)
        &&& n >= 5
        &&& primitives_kept(self.tys())
    }

    /// A context that holds only the primitive types: unit, string, bool, int and the
    /// error-recovery type, in that order, and no constraint.
    pub fn new() -> (r: TypeContext)
        ensures
            r.wf(),
            r.tys() == seq![
                TypeModel::Unit,
                TypeModel::String,
                TypeModel::Boolean,
                TypeModel::Integer,
                TypeModel::ErrorRecovery,
            ],
            r.constraints@ == Seq::<TypeConstraint>::empty(),
    {
        let mut types: Vec<PetrType> = Vec::new();
        types.push(PetrType::Unit);
        types.push(PetrType::String);
        types.push(PetrType::Boolean);
        types.push(PetrType::Integer);
        types.push(PetrType::ErrorRecovery);
        let r = TypeContext {
            types,
            constraints: Vec::new(),
            unit_ty: TypeVariable(0),
            string_ty: TypeVariable(1),
            bool_ty: TypeVariable(2),
            int_ty: TypeVariable(3),
            error_recovery: TypeVariable(4),
        };
        assert(r.tys() =~= seq![
            TypeModel::Unit,
            TypeModel::String,
            TypeModel::Boolean,
            TypeModel::Integer,
            TypeModel::ErrorRecovery,
        ]);
        let ghost rank: Seq<nat> = seq![0, 0, 0, 0, 0];
        assert(ranks_ok(r.tys(), rank));
        r
    }

    /// Records that two types must be the same.
    pub fn unify(&mut self, ty1: TypeVariable, ty2: TypeVariable, span: Span)
        requires
            old(self).wf(),
            ty1.0 < old(self).types@.len(),
            ty2.0 < old(self).types@.len(),
        ensures
            final(self).wf(),
            final(self).types@ == old(self).types@,
            final(self).constraints@ == old(self).constraints@.push(
                TypeConstraint { kind: TypeConstraintKind::Unify(ty1, ty2), span },
            ),
            final(self).same_primitives(*old(self)),
    {
        self.constraints.push(TypeConstraint::unify(ty1, ty2, span));
        assert(forall|i: int| 0 <= i < old(self).constraints@.len() ==> self.constraints@[i] == old(self).constraints@[i]);
    }

    /// Records that the first type must satisfy the second.
    pub fn satisfies(&mut self, ty1: TypeVariable, ty2: TypeVariable, span: Span)
        requires
            old(self).wf(),
            ty1.0 < old(self).types@.len(),
            ty2.0 < old(self).types@.len(),
        ensures
            final(self).wf(),
            final(self).types@ == old(self).types@,
            final(self).constraints@ == old(self).constraints@.push(
                TypeConstraint { kind: TypeConstraintKind::Satisfies(ty1, ty2), span },
            ),
            final(self).same_primitives(*old(self)),
    {
        self.constraints.push(TypeConstraint::satisfies(ty1, ty2, span));
        assert(forall|i: int| 0 <= i < old(self).constraints@.len() ==> self.constraints@[i] == old(self).constraints@[i]);
    }

    /// The primitive slots are the same in both contexts.
    pub open spec fn same_primitives(self, other: TypeContext) -> bool {
        &&& self.unit_ty == other.unit_ty
        &&& self.string_ty == other.string_ty
        &&& self.int_ty == other.int_ty
        &&& self.bool_ty == other.bool_ty
        &&& self.error_recovery == other.error_recovery
    }

    /// Appends a type to the table and returns its slot.
    pub fn insert(&mut self, ty: PetrType) -> (r: TypeVariable)
        requires
            old(self).wf(),
            vars_below(ty@, old(self).types@.len() as nat),
        ensures
            final(self).wf(),
            r.0 == old(self).types@.len(),
            final(self).tys() == old(self).tys().push(ty@),
            final(self).constraints@ == old(self).constraints@,
            final(self).same_primitives(*old(self)),
    {
        let ghost before = self.tys();
        let ghost n = self.types@.len();
        let id = self.types.len();
        self.types.push(ty);
        assert(self.tys() =~= before.push(ty@));
        proof {
            lemma_acyclic_push(before, ty@);
            assert forall|i: int| 0 <= i < n + 1 implies vars_below(#[trigger] self.tys()[i], (n + 1) as nat) by {
                if i < n {
                    lemma_vars_below_mono(before[i], n as nat, (n + 1) as nat);
                } else {
                    lemma_vars_below_mono(ty@, n as nat, (n + 1) as nat);
                }
            }
        }
        TypeVariable(id)
    }

    /// A fresh inference variable; it records its own slot number and where it arose.
    pub fn new_variable(&mut self, span: Span) -> (r: TypeVariable)
        requires
            old(self).wf(),
        ensures
            final(self).wf(),
            r.0 == old(self).types@.len(),
            final(self).tys() == old(self).tys().push(TypeModel::Infer(r.0, span)),
            final(self).constraints@ == old(self).constraints@,
            final(self).same_primitives(*old(self)),
    {
        // infer is special -- it knows its own id, mostly for printing
        // and disambiguating
        let infer_id = self.types.len();
        self.insert(PetrType::Infer(infer_id, span))
    }

    /// Replaces the type in a slot by one that is not a reference, or makes one end of a
    /// reference chain refer to another end.
    pub fn update_type(&mut self, t1: TypeVariable, known: PetrType)
        requires
            old(self).wf(),
            t1.0 < old(self).types@.len(),
            vars_below(known@, old(self).types@.len() as nat),
            !(known@ is Ref) || ({
                let y = known@->Ref_0.0 as int;
                &&& y != t1.0
                &&& !(old(self).tys()[t1.0 as int] is Ref)
                &&& !(old(self).tys()[y] is Ref)
            }),
        ensures
            final(self).wf(),
            final(self).tys() == set_slot(old(self).tys(), t1, known@),
            final(self).constraints@ == old(self).constraints@,
            final(self).same_primitives(*old(self)),
    {
        let ghost before = self.tys();
        let ghost k = known@;
        if t1.0 < 5 {
            // the slots of the primitive types keep them
            return;
        }
        self.types.set(t1.0, known);
        assert(self.tys() =~= before.update(t1.0 as int, k));
        proof {
            if k is Ref {
                lemma_acyclic_link(before, t1.0 as int, k->Ref_0);
            } else {
                lemma_acyclic_update_plain(before, t1.0 as int, k);
            }
        }
    }

    /// The type in a slot.
    pub fn get(&self, t: TypeVariable) -> (r: &PetrType)
        requires
            t.0 < self.types@.len(),
        ensures
            r@ == self.tys()[t.0 as int],
    {
        &self.types[t.0]
    }
}

} // verus!
