//! The program after name resolution: what the type checker reads.
//!
//! Every name is resolved to a symbol, every type name to a [`TypeId`] and every
//! called function to a [`FunctionId`]; `TypeId(i)` and `FunctionId(i)` index the
//! declarations below.
use vstd::prelude::*;
use crate::ast::{Intrinsic as IntrinsicName, Literal};
use crate::ids::{FunctionId, Identifier, SymbolId, SymbolInterner, TypeId};
use crate::span::Span;

verus! {

/// A type as written in a signature or a field, after resolution.
pub enum Type {
    Integer,
    Bool,
    Unit,
    String,
    /// A type that failed to resolve; it unifies with anything.
    ErrorRecovery(Span),
    Named(TypeId),
    Generic(Identifier),
    Sum(Vec<Type>),
    Literal(Literal),
}

pub struct TypeField {
    pub name: Identifier,
    pub ty: Type,
}

pub struct TypeVariant {
    pub name: Identifier,
    pub fields: Vec<TypeField>,
}

pub struct TypeDeclaration {
    pub name: Identifier,
    pub variants: Vec<TypeVariant>,
    /// For a type made of constants (such as `1 | 2`), the constants.
    pub constant_literal_types: Vec<Literal>,
}

pub struct Function {
    pub name: Identifier,
    pub params: Vec<(Identifier, Type)>,
    pub return_type: Type,
    pub body: Expr,
}

pub struct Expr {
    pub kind: ExprKind,
    pub span: Span,
}

pub struct Binding {
    pub name: Identifier,
    pub expression: Expr,
}

pub enum ExprKind {
    Literal(Literal),
    List(Vec<Expr>),
    FunctionCall(FunctionCall),
    Unit,
    ErrorRecovery,
    Variable { name: Identifier, ty: Type },
    Intrinsic(Intrinsic),
    TypeConstructor(TypeId, Vec<Expr>),
    ExpressionWithBindings { bindings: Vec<Binding>, expression: Box<Expr> },
    If { condition: Box<Expr>, then_branch: Box<Expr>, else_branch: Box<Expr> },
}

pub struct FunctionCall {
    pub function: FunctionId,
    pub args: Vec<Expr>,
    pub span: Span,
}

impl FunctionCall {
    pub fn span(&self) -> (r: Span)
        ensures
            r == self.span,
    {
        self.span
    }
}

pub struct Intrinsic {
    pub intrinsic: IntrinsicName,
    pub args: Vec<Expr>,
}

/// The resolved declarations of a program, with the interner that names their symbols.
pub struct QueryableResolvedItems {
    pub types: Vec<TypeDeclaration>,
    pub functions: Vec<Function>,
    pub interner: SymbolInterner,
}

impl QueryableResolvedItems {
    pub fn get_function(&self, id: FunctionId) -> (r: &Function)
        requires
            id.0 < self.functions@.len(),
        ensures
            *r == self.functions@[id.0 as int],
    {
        &self.functions[id.0]
    }

    pub fn get_type(&self, id: TypeId) -> (r: &TypeDeclaration)
        requires
            id.0 < self.types@.len(),
        ensures
            *r == self.types@[id.0 as int],
    {
        &self.types[id.0]
    }
}

} // verus!

verus! {

/// The number of arguments an intrinsic takes.
pub open spec fn intrinsic_arity(i: IntrinsicName) -> nat {
    match i {
        IntrinsicName::Puts => 1,
        IntrinsicName::Malloc => 1,
        IntrinsicName::SizeOf => 1,
        _ => 2,
    }
}

/// Every type name in `t` names a declared type below `ntypes`.
pub open spec fn type_ok(t: Type, ntypes: nat) -> bool
    decreases t,
{
    match t {
        Type::Named(id) => id.0 < ntypes,
        Type::Sum(tys) => types_ok(tys@, ntypes),
        _ => true,
    }
}

pub open spec fn types_ok(ts: Seq<Type>, ntypes: nat) -> bool
    decreases ts,
{
    if ts.len() == 0 {
        true
    } else {
        types_ok(ts.subrange(0, ts.len() - 1), ntypes) && type_ok(ts[ts.len() - 1], ntypes)
    }
}

pub proof fn lemma_types_ok_index(ts: Seq<Type>, ntypes: nat, i: int)
    requires
        types_ok(ts, ntypes),
        0 <= i < ts.len(),
    ensures
        type_ok(ts[i], ntypes),
    decreases ts.len(),
{
    if i < ts.len() - 1 {
        lemma_types_ok_index(ts.subrange(0, ts.len() - 1), ntypes, i);
    }
}

/// The symbols bound by a list of bindings.
pub open spec fn binding_names(bs: Seq<Binding>) -> Set<SymbolId> {
    Set::new(|id: SymbolId| exists|i: int| 0 <= i < bs.len() && bs[i].name.id == id)
}

/// An expression is sound in a program when every function it calls exists and ranks
/// below `r`, every type it names exists, every variable it reads has its symbol bound in `bound`,
/// every intrinsic gets the number of arguments it takes, and every name it holds is
/// an interned symbol.
pub open spec fn expr_ok(e: Expr, res: QueryableResolvedItems, rank: Seq<nat>, bound: Set<SymbolId>, r: nat) -> bool
    decreases e,
{
    let ntypes = res.types@.len() as nat;
    let k = res.interner.texts().len();
    match e.kind {
        ExprKind::Literal(_) => true,
        ExprKind::List(es) => exprs_ok(es@, res, rank, bound, r),
        ExprKind::FunctionCall(call) => {
            &&& call.function.0 < res.functions@.len()
            &&& call.function.0 < rank.len()
            &&& rank[call.function.0 as int] < r
            &&& exprs_ok(call.args@, res, rank, bound, r)
        },
        ExprKind::Unit => true,
        ExprKind::ErrorRecovery => true,
        ExprKind::Variable { name, ty } => bound.contains(name.id) && name.id.0 < k && type_ok(ty, ntypes),
        ExprKind::Intrinsic(i) => i.args@.len() == intrinsic_arity(i.intrinsic) && exprs_ok(
            i.args@,
            res,
            rank,
            bound,
            r,
        ),
        ExprKind::TypeConstructor(id, args) => id.0 < ntypes && exprs_ok(args@, res, rank, bound, r),
        ExprKind::ExpressionWithBindings { bindings, expression } => {
            &&& bindings_ok(bindings@, res, rank, bound, r)
            &&& expr_ok(*expression, res, rank, bound + binding_names(bindings@), r)
        },
        ExprKind::If { condition, then_branch, else_branch } => {
            &&& expr_ok(*condition, res, rank, bound, r)
            &&& expr_ok(*then_branch, res, rank, bound, r)
            &&& expr_ok(*else_branch, res, rank, bound, r)
        },
    }
}

pub open spec fn exprs_ok(es: Seq<Expr>, res: QueryableResolvedItems, rank: Seq<nat>, bound: Set<SymbolId>, r: nat) -> bool
    decreases es,
{
    if es.len() == 0 {
        true
    } else {
        exprs_ok(es.subrange(0, es.len() - 1), res, rank, bound, r) && expr_ok(es[es.len() - 1], res, rank, bound, r)
    }
}

/// Each binding's expression is sound with the names bound before it in scope.
pub open spec fn bindings_ok(bs: Seq<Binding>, res: QueryableResolvedItems, rank: Seq<nat>, bound: Set<SymbolId>, r: nat) -> bool
    decreases bs,
{
    if bs.len() == 0 {
        true
    } else {
        let init = bs.subrange(0, bs.len() - 1);
        let last = bs[bs.len() - 1];
        &&& bindings_ok(init, res, rank, bound, r)
        &&& expr_ok(last.expression, res, rank, bound + binding_names(init), r)
        &&& last.name.id.0 < res.interner.texts().len()
    }
}

pub proof fn lemma_exprs_ok_index(es: Seq<Expr>, res: QueryableResolvedItems, rank: Seq<nat>, bound: Set<SymbolId>, r: nat, i: int)
    requires
        exprs_ok(es, res, rank, bound, r),
        0 <= i < es.len(),
    ensures
        expr_ok(es[i], res, rank, bound, r),
    decreases es.len(),
{
    if i < es.len() - 1 {
        lemma_exprs_ok_index(es.subrange(0, es.len() - 1), res, rank, bound, r, i);
    }
}

pub proof fn lemma_bindings_ok_index(bs: Seq<Binding>, res: QueryableResolvedItems, rank: Seq<nat>, bound: Set<SymbolId>, r: nat, i: int)
    requires
        bindings_ok(bs, res, rank, bound, r),
        0 <= i < bs.len(),
    ensures
        expr_ok(bs[i].expression, res, rank, bound + binding_names(bs.subrange(0, i)), r),
        bs[i].name.id.0 < res.interner.texts().len(),
    decreases bs.len(),
{
    let init = bs.subrange(0, bs.len() - 1);
    if i < bs.len() - 1 {
        lemma_bindings_ok_index(init, res, rank, bound, r, i);
        assert(init.subrange(0, i) =~= bs.subrange(0, i));
    } else {
        assert(init =~= bs.subrange(0, i));
    }
}

/// The symbols that name the parameters of a function.
pub open spec fn param_names(ps: Seq<(Identifier, Type)>) -> Set<SymbolId> {
    Set::new(|id: SymbolId| exists|i: int| 0 <= i < ps.len() && ps[i].0.id == id)
}

/// A declared type is sound when its name is interned and each type its fields name is
/// declared before it.
pub open spec fn type_decl_ok(res: QueryableResolvedItems, t: int) -> bool {
    let d = res.types@[t];
    &&& d.name.id.0 < res.interner.texts().len()
    &&& forall|v: int, f: int|
        0 <= v < d.variants@.len() && 0 <= f < d.variants@[v].fields@.len() ==> type_ok(
            #[trigger] d.variants@[v].fields@[f].ty,
            t as nat,
        )
}

/// A function is sound when its names are interned, its types exist, and its body is
/// sound with its parameters in scope, calling only functions of lower rank.
pub open spec fn function_ok(res: QueryableResolvedItems, rank: Seq<nat>, f: int) -> bool {
    let func = res.functions@[f];
    let ntypes = res.types@.len() as nat;
    let k = res.interner.texts().len();
    &&& func.name.id.0 < k
    &&& forall|i: int|
        0 <= i < func.params@.len() ==> (#[trigger] func.params@[i]).0.id.0 < k && type_ok(
            func.params@[i].1,
            ntypes,
        )
    &&& type_ok(func.return_type, ntypes)
    &&& expr_ok(func.body, res, rank, param_names(func.params@), rank[f])
}

/// `rank` orders the functions so that every call goes to a function of lower rank: no
/// function calls itself, directly or through others.
pub open spec fn ranked(res: QueryableResolvedItems, rank: Seq<nat>) -> bool {
    &&& rank.len() == res.functions@.len()
    &&& forall|f: int| 0 <= f < res.functions@.len() ==> function_ok(res, rank, f)
}

/// The program can be type checked: its declarations are sound and its functions can be
/// ranked so that none calls itself, directly or through others.
pub open spec fn resolved_ok(res: QueryableResolvedItems) -> bool {
    &&& forall|t: int| 0 <= t < res.types@.len() ==> type_decl_ok(res, t)
    &&& exists|rank: Seq<nat>| ranked(res, rank)
}

} // verus!
