//! The types that the checker infers, and their mathematical model.
use vstd::prelude::*;
use crate::ast::{Literal, LiteralModel};
use crate::ids::Identifier;
use crate::span::Span;

verus! {

/// A slot in the type context: an index into its table of types.
#[derive(Clone, Copy, Debug, PartialEq, Eq, Structural)]
pub struct TypeVariable(pub usize);

/// One variant of a user-defined type: the types of its fields.
pub struct TypeVariant {
    pub fields: Vec<TypeVariable>,
}

pub enum PetrType {
    Unit,
    Integer,
    Boolean,
    /// a static length string known at compile time
    String,
    /// A reference to another type
    Ref(TypeVariable),
    /// A user-defined type
    UserDefined { name: Identifier, variants: Vec<TypeVariant>, constant_literal_types: Vec<Literal> },
    Arrow(Vec<TypeVariable>),
    ErrorRecovery,
    List(TypeVariable),
    /// the usize is just an identifier for use in rendering the type
    /// the span is the location of the inference, for error reporting if the inference is never
    /// resolved
    Infer(usize, Span),
    Sum(Vec<PetrType>),
    Literal(Literal),
}

/// The value of a [`PetrType`], with sequences in place of vectors.
pub enum TypeModel {
    Unit,
    Integer,
    Boolean,
    String,
    Ref(TypeVariable),
    UserDefined {
        name: Identifier,
        variants: Seq<Seq<TypeVariable>>,
        constant_literal_types: Seq<LiteralModel>,
    },
    Arrow(Seq<TypeVariable>),
    ErrorRecovery,
    List(TypeVariable),
    Infer(usize, Span),
    Sum(Seq<TypeModel>),
    Literal(LiteralModel),
}

/// The models of a sequence of types.
pub open spec fn type_models(v: Seq<PetrType>) -> Seq<TypeModel> {
    Seq::new(v.len(), |i: int| v[i]@)
}

/// The field types of each variant.
pub open spec fn variant_models(v: Seq<TypeVariant>) -> Seq<Seq<TypeVariable>> {
    Seq::new(v.len(), |i: int| v[i].fields@)
}

/// The values of a sequence of literals.
pub open spec fn literal_models(v: Seq<Literal>) -> Seq<LiteralModel> {
    Seq::new(v.len(), |i: int| v[i]@)
}

impl View for PetrType {
    type V = TypeModel;

    open spec fn view(&self) -> TypeModel {
        self.model()
    }
}

impl PetrType {
    /// The value of the type.
    pub open spec fn model(&self) -> TypeModel
        decreases self,
    {
        match self {
            PetrType::Unit => TypeModel::Unit,
            PetrType::Integer => TypeModel::Integer,
            PetrType::Boolean => TypeModel::Boolean,
            PetrType::String => TypeModel::String,
            PetrType::Ref(t) => TypeModel::Ref(*t),
            PetrType::UserDefined { name, variants, constant_literal_types } => TypeModel::UserDefined {
                name: *name,
                variants: variant_models(variants@),
                constant_literal_types: literal_models(constant_literal_types@),
            },
            PetrType::Arrow(tys) => TypeModel::Arrow(tys@),
            PetrType::ErrorRecovery => TypeModel::ErrorRecovery,
            PetrType::List(t) => TypeModel::List(*t),
            PetrType::Infer(id, span) => TypeModel::Infer(*id, *span),
            PetrType::Sum(tys) => TypeModel::Sum(
                Seq::new(
                    tys@.len(),
                    |i: int|
                        if 0 <= i < tys@.len() {
                            tys@[i].model()
                        } else {
                            TypeModel::Unit
                        },
                ),
            ),
            PetrType::Literal(l) => TypeModel::Literal(l@),
        }
    }
}

/// Every type variable that `t` mentions is below `n`.
pub open spec fn vars_below(t: TypeModel, n: nat) -> bool
    decreases t,
{
    match t {
        TypeModel::Ref(v) => v.0 < n,
        TypeModel::UserDefined { variants, .. } => forall|i: int, j: int|
            0 <= i < variants.len() && 0 <= j < variants[i].len() ==> (#[trigger] variants[i][j]).0 < n,
        TypeModel::Arrow(tys) => forall|i: int| 0 <= i < tys.len() ==> (#[trigger] tys[i]).0 < n,
        TypeModel::List(v) => v.0 < n,
        TypeModel::Sum(tys) => all_vars_below(tys, n),
        _ => true,
    }
}

/// Every type variable that the types in `ts` mention is below `n`.
pub open spec fn all_vars_below(ts: Seq<TypeModel>, n: nat) -> bool
    decreases ts,
{
    if ts.len() == 0 {
        true
    } else {
        all_vars_below(ts.subrange(0, ts.len() - 1), n) && vars_below(ts[ts.len() - 1], n)
    }
}

pub proof fn lemma_all_vars_below_index(ts: Seq<TypeModel>, n: nat, i: int)
    requires
        all_vars_below(ts, n),
        0 <= i < ts.len(),
    ensures
        vars_below(ts[i], n),
    decreases ts.len(),
{
    if i < ts.len() - 1 {
        lemma_all_vars_below_index(ts.subrange(0, ts.len() - 1), n, i);
    }
}

pub proof fn lemma_all_vars_below_intro(ts: Seq<TypeModel>, n: nat)
    requires
        forall|i: int| 0 <= i < ts.len() ==> vars_below(#[trigger] ts[i], n),
    ensures
        all_vars_below(ts, n),
    decreases ts.len(),
{
    if ts.len() > 0 {
        lemma_all_vars_below_intro(ts.subrange(0, ts.len() - 1), n);
    }
}

/// Raising the bound keeps every mention below it.
pub proof fn lemma_vars_below_mono(t: TypeModel, n: nat, m: nat)
    requires
        vars_below(t, n),
        n <= m,
    ensures
        vars_below(t, m),
    decreases t,
{
    if let TypeModel::Sum(tys) = t {
        assert forall|i: int| 0 <= i < tys.len() implies vars_below(#[trigger] tys[i], m) by {
            lemma_all_vars_below_index(tys, n, i);
            lemma_vars_below_mono(tys[i], n, m);
        }
        lemma_all_vars_below_intro(tys, m);
    }
}

/// Every user-defined type that `t` mentions is named by a symbol below `k`.
pub open spec fn names_below(t: TypeModel, k: nat) -> bool
    decreases t,
{
    match t {
        TypeModel::UserDefined { name, .. } => name.id.0 < k,
        TypeModel::Sum(tys) => all_names_below(tys, k),
        _ => true,
    }
}

/// Every user-defined type that the types in `ts` mention is named by a symbol below `k`.
pub open spec fn all_names_below(ts: Seq<TypeModel>, k: nat) -> bool
    decreases ts,
{
    if ts.len() == 0 {
        true
    } else {
        all_names_below(ts.subrange(0, ts.len() - 1), k) && names_below(ts[ts.len() - 1], k)
    }
}

pub proof fn lemma_all_names_below_index(ts: Seq<TypeModel>, k: nat, i: int)
    requires
        all_names_below(ts, k),
        0 <= i < ts.len(),
    ensures
        names_below(ts[i], k),
    decreases ts.len(),
{
    if i < ts.len() - 1 {
        lemma_all_names_below_index(ts.subrange(0, ts.len() - 1), k, i);
    }
}

pub proof fn lemma_all_names_below_intro(ts: Seq<TypeModel>, k: nat)
    requires
        forall|i: int| 0 <= i < ts.len() ==> names_below(#[trigger] ts[i], k),
    ensures
        all_names_below(ts, k),
    decreases ts.len(),
{
    if ts.len() > 0 {
        lemma_all_names_below_intro(ts.subrange(0, ts.len() - 1), k);
    }
}

/// Whether two vectors of type variables hold the same variables.
pub fn vars_equal(a: &Vec<TypeVariable>, b: &Vec<TypeVariable>) -> (r: bool)
    ensures
        r == (a@ == b@),
{
    if a.len() != b.len() {
        return false;
    }
    let mut i: usize = 0;
    while i < a.len()
        invariant
            i <= a@.len(),
            a@.len() == b@.len(),
            forall|j: int| 0 <= j < i ==> a@[j] == b@[j],
        decreases a@.len() - i,
    {
        if a[i] != b[i] {
            return false;
        }
        i += 1;
    }
    assert(a@ =~= b@);
    true
}

/// A copy of a vector of type variables.
pub fn copy_vars(a: &Vec<TypeVariable>) -> (r: Vec<TypeVariable>)
    ensures
        r@ == a@,
{
    let mut r: Vec<TypeVariable> = Vec::new();
    let mut i: usize = 0;
    while i < a.len()
        invariant
            i <= a@.len(),
            r@ == a@.subrange(0, i as int),
        decreases a@.len() - i,
    {
        r.push(a[i]);
        assert(r@ =~= a@.subrange(0, i + 1));
        i += 1;
    }
    assert(a@.subrange(0, i as int) =~= a@);
    r
}

fn variants_equal(a: &Vec<TypeVariant>, b: &Vec<TypeVariant>) -> (r: bool)
    ensures
        r == (variant_models(a@) == variant_models(b@)),
{
    if a.len() != b.len() {
        assert(variant_models(a@).len() != variant_models(b@).len());
        return false;
    }
    let mut i: usize = 0;
    while i < a.len()
        invariant
            i <= a@.len(),
            a@.len() == b@.len(),
            forall|j: int| 0 <= j < i ==> a@[j].fields@ == b@[j].fields@,
        decreases a@.len() - i,
    {
        if !vars_equal(&a[i].fields, &b[i].fields) {
            assert(variant_models(a@)[i as int] != variant_models(b@)[i as int]);
            return false;
        }
        i += 1;
    }
    assert(variant_models(a@) =~= variant_models(b@));
    true
}

fn copy_variants(a: &Vec<TypeVariant>) -> (r: Vec<TypeVariant>)
    ensures
        variant_models(r@) == variant_models(a@),
{
    let mut r: Vec<TypeVariant> = Vec::new();
    let mut i: usize = 0;
    while i < a.len()
        invariant
            i <= a@.len(),
            r@.len() == i,
            forall|j: int| 0 <= j < i ==> r@[j].fields@ == a@[j].fields@,
        decreases a@.len() - i,
    {
        r.push(TypeVariant { fields: copy_vars(&a[i].fields) });
        i += 1;
    }
    assert(variant_models(r@) =~= variant_models(a@));
    r
}

fn literals_equal(a: &Vec<Literal>, b: &Vec<Literal>) -> (r: bool)
    ensures
        r == (literal_models(a@) == literal_models(b@)),
{
    if a.len() != b.len() {
        assert(literal_models(a@).len() != literal_models(b@).len());
        return false;
    }
    let mut i: usize = 0;
    while i < a.len()
        invariant
            i <= a@.len(),
            a@.len() == b@.len(),
            forall|j: int| 0 <= j < i ==> a@[j]@ == b@[j]@,
        decreases a@.len() - i,
    {
        if !a[i].equals(&b[i]) {
            assert(literal_models(a@)[i as int] != literal_models(b@)[i as int]);
            return false;
        }
        i += 1;
    }
    assert(literal_models(a@) =~= literal_models(b@));
    true
}

pub fn copy_literals(a: &Vec<Literal>) -> (r: Vec<Literal>)
    ensures
        literal_models(r@) == literal_models(a@),
{
    let mut r: Vec<Literal> = Vec::new();
    let mut i: usize = 0;
    while i < a.len()
        invariant
            i <= a@.len(),
            r@.len() == i,
            forall|j: int| 0 <= j < i ==> r@[j]@ == a@[j]@,
        decreases a@.len() - i,
    {
        r.push(a[i].copy());
        i += 1;
    }
    assert(literal_models(r@) =~= literal_models(a@));
    r
}

impl PetrType {
    /// Whether two types are the same type.
    pub fn equals(&self, other: &PetrType) -> (r: bool)
        ensures
            r == (self@ == other@),
        decreases self,
    {
        match self {
            PetrType::Unit => matches!(other, PetrType::Unit),
            PetrType::Integer => matches!(other, PetrType::Integer),
            PetrType::Boolean => matches!(other, PetrType::Boolean),
            PetrType::String => matches!(other, PetrType::String),
            PetrType::ErrorRecovery => matches!(other, PetrType::ErrorRecovery),
            PetrType::Ref(a) => match other {
                PetrType::Ref(b) => *a == *b,
                _ => false,
            },
            PetrType::List(a) => match other {
                PetrType::List(b) => *a == *b,
                _ => false,
            },
            PetrType::Infer(a, sa) => match other {
                PetrType::Infer(b, sb) => *a == *b && *sa == *sb,
                _ => false,
            },
            PetrType::Literal(a) => match other {
                PetrType::Literal(b) => a.equals(b),
                _ => false,
            },
            PetrType::Arrow(a) => match other {
                PetrType::Arrow(b) => vars_equal(a, b),
                _ => false,
            },
            PetrType::UserDefined { name: na, variants: va, constant_literal_types: la } => match other {
                PetrType::UserDefined { name: nb, variants: vb, constant_literal_types: lb } => {
                    *na == *nb && variants_equal(va, vb) && literals_equal(la, lb)
                },
                _ => false,
            },
            PetrType::Sum(a) => match other {
                PetrType::Sum(b) => {
                    if a.len() != b.len() {
                        assert(self@->Sum_0.len() != other@->Sum_0.len());
                        return false;
                    }
                    let mut i: usize = 0;
                    while i < a.len()
                        invariant
                            i <= a@.len(),
                            a@.len() == b@.len(),
                            *self == PetrType::Sum(*a),
                            *other == PetrType::Sum(*b),
                            forall|j: int| 0 <= j < i ==> a@[j]@ == b@[j]@,
                        decreases a@.len() - i,
                    {
                        proof {
                            assert(decreases_to!(*self => *a));
                            assert(decreases_to!(a => a@));
                            assert(decreases_to!(a@ => a@[i as int]));
                        }
                        if !a[i].equals(&b[i]) {
                            assert(self@->Sum_0[i as int] != other@->Sum_0[i as int]);
                            return false;
                        }
                        i += 1;
                    }
                    assert(self@->Sum_0 =~= other@->Sum_0);
                    true
                },
                _ => false,
            },
        }
    }

    /// A copy of the type.
    pub fn copy(&self) -> (r: PetrType)
        ensures
            r@ == self@,
        decreases self,
    {
        match self {
            PetrType::Unit => PetrType::Unit,
            PetrType::Integer => PetrType::Integer,
            PetrType::Boolean => PetrType::Boolean,
            PetrType::String => PetrType::String,
            PetrType::ErrorRecovery => PetrType::ErrorRecovery,
            PetrType::Ref(a) => PetrType::Ref(*a),
            PetrType::List(a) => PetrType::List(*a),
            PetrType::Infer(a, s) => PetrType::Infer(*a, *s),
            PetrType::Literal(l) => PetrType::Literal(l.copy()),
            PetrType::Arrow(a) => PetrType::Arrow(copy_vars(a)),
            PetrType::UserDefined { name, variants, constant_literal_types } => PetrType::UserDefined {
                name: *name,
                variants: copy_variants(variants),
                constant_literal_types: copy_literals(constant_literal_types),
            },
            PetrType::Sum(a) => {
                let mut elems: Vec<PetrType> = Vec::new();
                let mut i: usize = 0;
                while i < a.len()
                    invariant
                        i <= a@.len(),
                        *self == PetrType::Sum(*a),
                        elems@.len() == i,
                        forall|j: int| 0 <= j < i ==> elems@[j]@ == a@[j]@,
                    decreases a@.len() - i,
                {
                    proof {
                        assert(decreases_to!(*self => (*self)->Sum_0));
                        assert(decreases_to!(a => a@));
                        assert(decreases_to!(a@ => a@[i as int]));
                    }
                    elems.push(a[i].copy());
                    i += 1;
                }
                let out = PetrType::Sum(elems);
                assert(out@->Sum_0 =~= self@->Sum_0);
                out
            },
        }
    }
}

/// A copy of a vector of types.
pub fn copy_types(a: &Vec<PetrType>) -> (r: Vec<PetrType>)
    ensures
        type_models(r@) == type_models(a@),
{
    let mut r: Vec<PetrType> = Vec::new();
    let mut i: usize = 0;
    while i < a.len()
        invariant
            i <= a@.len(),
            r@.len() == i,
            forall|j: int| 0 <= j < i ==> r@[j]@ == a@[j]@,
        decreases a@.len() - i,
    {
        r.push(a[i].copy());
        i += 1;
    }
    assert(type_models(r@) =~= type_models(a@));
    r
}

/// Whether `ty` is among `tys`.
pub fn types_contain(tys: &Vec<PetrType>, ty: &PetrType) -> (r: bool)
    ensures
        r == type_models(tys@).contains(ty@),
{
    let mut i: usize = 0;
    while i < tys.len()
        invariant
            i <= tys@.len(),
            forall|j: int| 0 <= j < i ==> tys@[j]@ != ty@,
        decreases tys@.len() - i,
    {
        if tys[i].equals(ty) {
            assert(type_models(tys@)[i as int] == ty@);
            return true;
        }
        i += 1;
    }
    assert(!type_models(tys@).contains(ty@)) by {
        if type_models(tys@).contains(ty@) {
            let k = choose|k: int| 0 <= k < type_models(tys@).len() && type_models(tys@)[k] == ty@;
            assert(tys@[k]@ == ty@);
        }
    }
    false
}

/// Builds a vector of types from the models it must have.
pub proof fn lemma_sum_model(tys: Vec<PetrType>)
    ensures
        PetrType::Sum(tys)@ == TypeModel::Sum(type_models(tys@)),
{
    assert(PetrType::Sum(tys)@->Sum_0 =~= type_models(tys@));
}

} // verus!

verus! {

/// Joining two sequences keeps every mention below the bound.
pub proof fn lemma_concat_below(a: Seq<TypeModel>, b: Seq<TypeModel>, n: nat, k: nat)
    requires
        all_vars_below(a, n),
        all_vars_below(b, n),
        all_names_below(a, k),
        all_names_below(b, k),
    ensures
        all_vars_below(a + b, n),
        all_names_below(a + b, k),
{
    let c = a + b;
    assert forall|i: int| 0 <= i < c.len() implies vars_below(#[trigger] c[i], n) && names_below(c[i], k) by {
        if i < a.len() {
            lemma_all_vars_below_index(a, n, i);
            lemma_all_names_below_index(a, k, i);
        } else {
            lemma_all_vars_below_index(b, n, i - a.len());
            lemma_all_names_below_index(b, k, i - a.len());
        }
    }
    lemma_all_vars_below_intro(c, n);
    lemma_all_names_below_intro(c, k);
}

/// A one-element sequence mentions what its element mentions.
pub proof fn lemma_single_below(t: TypeModel, n: nat, k: nat)
    requires
        vars_below(t, n),
        names_below(t, k),
    ensures
        all_vars_below(seq![t], n),
        all_names_below(seq![t], k),
{
    let s = seq![t];
    lemma_all_vars_below_intro(s, n);
    lemma_all_names_below_intro(s, k);
}

/// Keeping some elements of a sequence keeps every mention below the bound.
pub proof fn lemma_filter_below(a: Seq<TypeModel>, keep: spec_fn(TypeModel) -> bool, n: nat, k: nat)
    requires
        all_vars_below(a, n),
        all_names_below(a, k),
    ensures
        all_vars_below(a.filter(keep), n),
        all_names_below(a.filter(keep), k),
{
    let f = a.filter(keep);
    assert forall|i: int| 0 <= i < f.len() implies vars_below(#[trigger] f[i], n) && names_below(f[i], k) by {
        assert(f.contains(f[i]));
        a.lemma_filter_contains_rev(keep, f[i]);
        let j = choose|j: int| 0 <= j < a.len() && a[j] == f[i];
        lemma_all_vars_below_index(a, n, j);
        lemma_all_names_below_index(a, k, j);
    }
    lemma_all_vars_below_intro(f, n);
    lemma_all_names_below_intro(f, k);
}

} // verus!
