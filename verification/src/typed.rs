//! Expressions after type checking, and what they mention.
use vstd::prelude::*;
use crate::ast::{Literal, LiteralModel};
use crate::ids::{FunctionId, Identifier, SymbolId};
use crate::span::Span;
use crate::types::TypeVariable;

verus! {

pub enum Intrinsic {
    Puts(Box<TypedExpr>),
    Add(Box<TypedExpr>, Box<TypedExpr>),
    Multiply(Box<TypedExpr>, Box<TypedExpr>),
    Divide(Box<TypedExpr>, Box<TypedExpr>),
    Subtract(Box<TypedExpr>, Box<TypedExpr>),
    Malloc(Box<TypedExpr>),
    SizeOf(Box<TypedExpr>),
    Equals(Box<TypedExpr>, Box<TypedExpr>),
}

pub struct TypedExpr {
    pub kind: TypedExprKind,
    pub span: Span,
}

impl TypedExpr {
    pub fn span(&self) -> (r: Span)
        ensures
            r == self.span,
    {
        self.span
    }
}

#[allow(inconsistent_fields)]
pub enum TypedExprKind {
    FunctionCall { func: FunctionId, args: Vec<(Identifier, TypedExpr)>, ty: TypeVariable },
    Literal { value: Literal, ty: TypeVariable },
    List { elements: Vec<TypedExpr>, ty: TypeVariable },
    Unit,
    Variable { ty: TypeVariable, name: Identifier },
    Intrinsic { ty: TypeVariable, intrinsic: Intrinsic },
    ErrorRecovery(Span),
    ExprWithBindings { bindings: Vec<(Identifier, TypedExpr)>, expression: Box<TypedExpr> },
    TypeConstructor { ty: TypeVariable, args: Vec<TypedExpr> },
    If { condition: Box<TypedExpr>, then_branch: Box<TypedExpr>, else_branch: Box<TypedExpr> },
}

/// A function after type checking: its parameters with their types, its body, and its
/// declared return type.
pub struct Function {
    pub name: Identifier,
    pub params: Vec<(Identifier, TypeVariable)>,
    pub body: TypedExpr,
    pub return_ty: TypeVariable,
}

/// The type variables that a typed expression mentions.
pub open spec fn expr_vars(e: TypedExpr) -> Set<usize>
    decreases e,
{
    match e.kind {
        TypedExprKind::FunctionCall { args, ty, .. } => set![ty.0] + named_exprs_vars(args@),
        TypedExprKind::Literal { ty, .. } => set![ty.0],
        TypedExprKind::List { elements, ty } => set![ty.0] + exprs_vars(elements@),
        TypedExprKind::Unit => Set::empty(),
        TypedExprKind::Variable { ty, .. } => set![ty.0],
        TypedExprKind::Intrinsic { ty, intrinsic } => set![ty.0] + intrinsic_vars(intrinsic),
        TypedExprKind::ErrorRecovery(_) => Set::empty(),
        TypedExprKind::ExprWithBindings { bindings, expression } => named_exprs_vars(bindings@) + expr_vars(
            *expression,
        ),
        TypedExprKind::TypeConstructor { ty, args } => set![ty.0] + exprs_vars(args@),
        TypedExprKind::If { condition, then_branch, else_branch } => expr_vars(*condition) + expr_vars(
            *then_branch,
        ) + expr_vars(*else_branch),
    }
}

pub open spec fn intrinsic_vars(i: Intrinsic) -> Set<usize>
    decreases i,
{
    match i {
        Intrinsic::Puts(a) => expr_vars(*a),
        Intrinsic::Malloc(a) => expr_vars(*a),
        Intrinsic::SizeOf(a) => expr_vars(*a),
        Intrinsic::Add(a, b) => expr_vars(*a) + expr_vars(*b),
        Intrinsic::Multiply(a, b) => expr_vars(*a) + expr_vars(*b),
        Intrinsic::Divide(a, b) => expr_vars(*a) + expr_vars(*b),
        Intrinsic::Subtract(a, b) => expr_vars(*a) + expr_vars(*b),
        Intrinsic::Equals(a, b) => expr_vars(*a) + expr_vars(*b),
    }
}

pub open spec fn exprs_vars(es: Seq<TypedExpr>) -> Set<usize>
    decreases es,
{
    if es.len() == 0 {
        Set::empty()
    } else {
        exprs_vars(es.subrange(0, es.len() - 1)) + expr_vars(es[es.len() - 1])
    }
}

pub open spec fn named_exprs_vars(es: Seq<(Identifier, TypedExpr)>) -> Set<usize>
    decreases es,
{
    if es.len() == 0 {
        Set::empty()
    } else {
        named_exprs_vars(es.subrange(0, es.len() - 1)) + expr_vars(es[es.len() - 1].1)
    }
}

/// The symbols that name variables, bindings and arguments in a typed expression.
pub open spec fn expr_syms(e: TypedExpr) -> Set<usize>
    decreases e,
{
    match e.kind {
        TypedExprKind::FunctionCall { args, .. } => named_exprs_syms(args@),
        TypedExprKind::List { elements, .. } => exprs_syms(elements@),
        TypedExprKind::Variable { name, .. } => set![name.id.0],
        TypedExprKind::Intrinsic { intrinsic, .. } => intrinsic_syms(intrinsic),
        TypedExprKind::ExprWithBindings { bindings, expression } => named_exprs_syms(bindings@) + expr_syms(
            *expression,
        ),
        TypedExprKind::TypeConstructor { args, .. } => exprs_syms(args@),
        TypedExprKind::If { condition, then_branch, else_branch } => expr_syms(*condition) + expr_syms(
            *then_branch,
        ) + expr_syms(*else_branch),
        _ => Set::empty(),
    }
}

pub open spec fn intrinsic_syms(i: Intrinsic) -> Set<usize>
    decreases i,
{
    match i {
        Intrinsic::Puts(a) => expr_syms(*a),
        Intrinsic::Malloc(a) => expr_syms(*a),
        Intrinsic::SizeOf(a) => expr_syms(*a),
        Intrinsic::Add(a, b) => expr_syms(*a) + expr_syms(*b),
        Intrinsic::Multiply(a, b) => expr_syms(*a) + expr_syms(*b),
        Intrinsic::Divide(a, b) => expr_syms(*a) + expr_syms(*b),
        Intrinsic::Subtract(a, b) => expr_syms(*a) + expr_syms(*b),
        Intrinsic::Equals(a, b) => expr_syms(*a) + expr_syms(*b),
    }
}

pub open spec fn exprs_syms(es: Seq<TypedExpr>) -> Set<usize>
    decreases es,
{
    if es.len() == 0 {
        Set::empty()
    } else {
        exprs_syms(es.subrange(0, es.len() - 1)) + expr_syms(es[es.len() - 1])
    }
}

pub open spec fn named_exprs_syms(es: Seq<(Identifier, TypedExpr)>) -> Set<usize>
    decreases es,
{
    if es.len() == 0 {
        Set::empty()
    } else {
        named_exprs_syms(es.subrange(0, es.len() - 1)) + set![es[es.len() - 1].0.id.0] + expr_syms(
            es[es.len() - 1].1,
        )
    }
}

/// Every number in `s` is below `n`.
pub open spec fn all_below(s: Set<usize>, n: nat) -> bool {
    forall|x: usize| s.contains(x) ==> x < n
}

/// A typed expression is sound against a table of `n` slots and an interner of `k`
/// symbols when every variable and symbol it mentions exists.
pub open spec fn expr_ok(e: TypedExpr, n: nat, k: nat) -> bool {
    all_below(expr_vars(e), n) && all_below(expr_syms(e), k)
}

pub proof fn lemma_exprs_ok(es: Seq<TypedExpr>, n: nat, k: nat)
    requires
        forall|i: int| 0 <= i < es.len() ==> expr_ok(#[trigger] es[i], n, k),
    ensures
        all_below(exprs_vars(es), n),
        all_below(exprs_syms(es), k),
    decreases es.len(),
{
    if es.len() > 0 {
        let init = es.subrange(0, es.len() - 1);
        let last = es[es.len() - 1];
        assert forall|i: int| 0 <= i < init.len() implies expr_ok(#[trigger] init[i], n, k) by {
            assert(init[i] == es[i]);
        }
        lemma_exprs_ok(init, n, k);
        assert(expr_ok(last, n, k));
        assert(exprs_vars(es) == exprs_vars(init) + expr_vars(last));
        assert(exprs_syms(es) == exprs_syms(init) + expr_syms(last));
    }
}

pub proof fn lemma_named_exprs_ok(es: Seq<(Identifier, TypedExpr)>, n: nat, k: nat)
    requires
        forall|i: int| 0 <= i < es.len() ==> expr_ok(#[trigger] es[i].1, n, k) && es[i].0.id.0 < k,
    ensures
        all_below(named_exprs_vars(es), n),
        all_below(named_exprs_syms(es), k),
    decreases es.len(),
{
    if es.len() > 0 {
        let init = es.subrange(0, es.len() - 1);
        let last = es[es.len() - 1];
        assert forall|i: int| 0 <= i < init.len() implies expr_ok(#[trigger] init[i].1, n, k) && init[i].0.id.0
            < k by {
            assert(init[i] == es[i]);
            assert(expr_ok(es[i].1, n, k) && es[i].0.id.0 < k);
        }
        lemma_named_exprs_ok(init, n, k);
        assert(expr_ok(last.1, n, k) && last.0.id.0 < k);
        assert(named_exprs_vars(es) == named_exprs_vars(init) + expr_vars(last.1));
        assert(named_exprs_syms(es) == named_exprs_syms(init) + set![last.0.id.0] + expr_syms(last.1));
    }
}

pub proof fn lemma_exprs_elem_ok(es: Seq<TypedExpr>, n: nat, k: nat, i: int)
    requires
        all_below(exprs_vars(es), n),
        all_below(exprs_syms(es), k),
        0 <= i < es.len(),
    ensures
        expr_ok(es[i], n, k),
    decreases es.len(),
{
    let init = es.subrange(0, es.len() - 1);
    let last = es[es.len() - 1];
    assert(exprs_vars(es) == exprs_vars(init) + expr_vars(last));
    assert(exprs_syms(es) == exprs_syms(init) + expr_syms(last));
    assert forall|x: usize| exprs_vars(init).contains(x) || expr_vars(last).contains(x) implies x < n by {
        assert(exprs_vars(es).contains(x));
    }
    assert forall|x: usize| exprs_syms(init).contains(x) || expr_syms(last).contains(x) implies x < k by {
        assert(exprs_syms(es).contains(x));
    }
    assert forall|x: usize| expr_vars(last).contains(x) implies x < n by {
        assert(exprs_vars(es).contains(x));
    }
    assert forall|x: usize| expr_syms(last).contains(x) implies x < k by {
        assert(exprs_syms(es).contains(x));
    }
    if i < es.len() - 1 {
        assert(init[i] == es[i]);
        lemma_exprs_elem_ok(init, n, k, i);
    }
}

pub proof fn lemma_named_exprs_elem_ok(es: Seq<(Identifier, TypedExpr)>, n: nat, k: nat, i: int)
    requires
        all_below(named_exprs_vars(es), n),
        all_below(named_exprs_syms(es), k),
        0 <= i < es.len(),
    ensures
        expr_ok(es[i].1, n, k),
        es[i].0.id.0 < k,
    decreases es.len(),
{
    let init = es.subrange(0, es.len() - 1);
    let last = es[es.len() - 1];
    assert(named_exprs_vars(es) == named_exprs_vars(init) + expr_vars(last.1));
    assert(named_exprs_syms(es) == named_exprs_syms(init) + set![last.0.id.0] + expr_syms(last.1));
    assert(set![last.0.id.0].contains(last.0.id.0));
    assert forall|x: usize| named_exprs_vars(init).contains(x) || expr_vars(last.1).contains(x) implies x < n by {
        assert(named_exprs_vars(es).contains(x));
    }
    assert forall|x: usize|
        named_exprs_syms(init).contains(x) || expr_syms(last.1).contains(x) || x == last.0.id.0 implies x < k by {
        assert(named_exprs_syms(es).contains(x));
    }
    assert(named_exprs_syms(es).contains(last.0.id.0));
    assert forall|x: usize| expr_vars(last.1).contains(x) implies x < n by {
        assert(named_exprs_vars(es).contains(x));
    }
    assert forall|x: usize| expr_syms(last.1).contains(x) implies x < k by {
        assert(named_exprs_syms(es).contains(x));
    }
    if i < es.len() - 1 {
        assert(init[i] == es[i]);
        lemma_named_exprs_elem_ok(init, n, k, i);
    }
}

/// A typed function is sound when its parameters, return type and body are.
pub open spec fn function_ok(f: Function, n: nat, k: nat) -> bool {
    &&& f.name.id.0 < k
    &&& forall|i: int| 0 <= i < f.params@.len() ==> (#[trigger] f.params@[i]).1.0 < n && f.params@[i].0.id.0 < k
    &&& f.return_ty.0 < n
    &&& expr_ok(f.body, n, k)
}

/// The slot of the type of a typed expression: the slot it carries, the unit slot for
/// `()`, the error-recovery slot for a failed expression, and for bindings and `if` the
/// type of their result.
pub open spec fn typed_expr_ty(e: TypedExpr) -> TypeVariable
    decreases e,
{
    match e.kind {
        TypedExprKind::FunctionCall { ty, .. } => ty,
        TypedExprKind::Literal { ty, .. } => ty,
        TypedExprKind::List { ty, .. } => ty,
        TypedExprKind::Unit => TypeVariable(0),
        TypedExprKind::Variable { ty, .. } => ty,
        TypedExprKind::Intrinsic { ty, .. } => ty,
        TypedExprKind::ErrorRecovery(_) => TypeVariable(4),
        TypedExprKind::ExprWithBindings { expression, .. } => typed_expr_ty(*expression),
        TypedExprKind::TypeConstructor { ty, .. } => ty,
        TypedExprKind::If { then_branch, .. } => typed_expr_ty(*then_branch),
    }
}

/// The type of a sound expression is a slot of the table.
pub proof fn lemma_typed_expr_ty_below(e: TypedExpr, n: nat, k: nat)
    requires
        expr_ok(e, n, k),
        n >= 5,
    ensures
        typed_expr_ty(e).0 < n,
    decreases e,
{
    match e.kind {
        TypedExprKind::FunctionCall { ty, args, .. } => {
            assert(expr_vars(e).contains(ty.0));
        },
        TypedExprKind::Literal { ty, .. } => {
            assert(expr_vars(e).contains(ty.0));
        },
        TypedExprKind::List { ty, .. } => {
            assert(expr_vars(e).contains(ty.0));
        },
        TypedExprKind::Variable { ty, .. } => {
            assert(expr_vars(e).contains(ty.0));
        },
        TypedExprKind::Intrinsic { ty, .. } => {
            assert(expr_vars(e).contains(ty.0));
        },
        TypedExprKind::TypeConstructor { ty, .. } => {
            assert(expr_vars(e).contains(ty.0));
        },
        TypedExprKind::ExprWithBindings { bindings, expression } => {
            assert forall|x: usize| expr_vars(*expression).contains(x) implies x < n by {
                assert(expr_vars(e).contains(x));
            }
            assert forall|x: usize| expr_syms(*expression).contains(x) implies x < k by {
                assert(expr_syms(e).contains(x));
            }
            lemma_typed_expr_ty_below(*expression, n, k);
        },
        TypedExprKind::If { condition, then_branch, else_branch } => {
            assert forall|x: usize| expr_vars(*then_branch).contains(x) implies x < n by {
                assert(expr_vars(e).contains(x));
            }
            assert forall|x: usize| expr_syms(*then_branch).contains(x) implies x < k by {
                assert(expr_syms(e).contains(x));
            }
            lemma_typed_expr_ty_below(*then_branch, n, k);
        },
        _ => {},
    }
}


/// `a` and `b` are the same tree: the same kind with the same fields at every node, and
/// lists that agree element by element.
pub open spec fn same_expr(a: TypedExpr, b: TypedExpr) -> bool
    decreases a,
{
    &&& a.span == b.span
    &&& match a.kind {
        TypedExprKind::FunctionCall { func, args, ty } => b.kind matches TypedExprKind::FunctionCall {
            func: f,
            args: bs,
            ty: t,
        } && f == func && t == ty && same_named_exprs(args@, bs@),
        TypedExprKind::Literal { value, ty } => b.kind matches TypedExprKind::Literal { value: v, ty: t } && v@
            == value@ && t == ty,
        TypedExprKind::List { elements, ty } => b.kind matches TypedExprKind::List { elements: bs, ty: t } && t == ty
            && same_exprs(elements@, bs@),
        TypedExprKind::Unit => b.kind is Unit,
        TypedExprKind::Variable { ty, name } => b.kind == (TypedExprKind::Variable { ty, name }),
        TypedExprKind::Intrinsic { ty, intrinsic } => b.kind matches TypedExprKind::Intrinsic { ty: t, intrinsic: j }
            && t == ty && same_intrinsic(intrinsic, j),
        TypedExprKind::ErrorRecovery(span) => b.kind == TypedExprKind::ErrorRecovery(span),
        TypedExprKind::ExprWithBindings { bindings, expression } => b.kind matches TypedExprKind::ExprWithBindings {
            bindings: bs,
            expression: x,
        } && same_named_exprs(bindings@, bs@) && same_expr(*expression, *x),
        TypedExprKind::TypeConstructor { ty, args } => b.kind matches TypedExprKind::TypeConstructor {
            ty: t,
            args: bs,
        } && t == ty && same_exprs(args@, bs@),
        TypedExprKind::If { condition, then_branch, else_branch } => b.kind matches TypedExprKind::If {
            condition: c,
            then_branch: x,
            else_branch: y,
        } && same_expr(*condition, *c) && same_expr(*then_branch, *x) && same_expr(*else_branch, *y),
    }
}

/// `a` and `b` are the same intrinsic call on the same trees.
pub open spec fn same_intrinsic(a: Intrinsic, b: Intrinsic) -> bool
    decreases a,
{
    match a {
        Intrinsic::Puts(x) => b matches Intrinsic::Puts(y) && same_expr(*x, *y),
        Intrinsic::Malloc(x) => b matches Intrinsic::Malloc(y) && same_expr(*x, *y),
        Intrinsic::SizeOf(x) => b matches Intrinsic::SizeOf(y) && same_expr(*x, *y),
        Intrinsic::Add(x, y) => b matches Intrinsic::Add(u, v) && same_expr(*x, *u) && same_expr(*y, *v),
        Intrinsic::Multiply(x, y) => b matches Intrinsic::Multiply(u, v) && same_expr(*x, *u) && same_expr(*y, *v),
        Intrinsic::Divide(x, y) => b matches Intrinsic::Divide(u, v) && same_expr(*x, *u) && same_expr(*y, *v),
        Intrinsic::Subtract(x, y) => b matches Intrinsic::Subtract(u, v) && same_expr(*x, *u) && same_expr(*y, *v),
        Intrinsic::Equals(x, y) => b matches Intrinsic::Equals(u, v) && same_expr(*x, *u) && same_expr(*y, *v),
    }
}

/// Two lists of the same trees, element by element.
pub open spec fn same_exprs(a: Seq<TypedExpr>, b: Seq<TypedExpr>) -> bool
    decreases a,
{
    &&& a.len() == b.len()
    &&& a.len() > 0 ==> {
        &&& same_exprs(a.subrange(0, a.len() - 1), b.subrange(0, b.len() - 1))
        &&& same_expr(a[a.len() - 1], b[b.len() - 1])
    }
}

/// Two lists of the same names bound to the same trees, element by element.
pub open spec fn same_named_exprs(a: Seq<(Identifier, TypedExpr)>, b: Seq<(Identifier, TypedExpr)>) -> bool
    decreases a,
{
    &&& a.len() == b.len()
    &&& a.len() > 0 ==> {
        &&& same_named_exprs(a.subrange(0, a.len() - 1), b.subrange(0, b.len() - 1))
        &&& a[a.len() - 1].0 == b[b.len() - 1].0
        &&& same_expr(a[a.len() - 1].1, b[b.len() - 1].1)
    }
}

/// Lists that agree element by element are the same lists.
pub proof fn lemma_same_exprs(a: Seq<TypedExpr>, b: Seq<TypedExpr>)
    requires
        a.len() == b.len(),
        forall|j: int| 0 <= j < a.len() ==> same_expr(a[j], #[trigger] b[j]),
    ensures
        same_exprs(a, b),
    decreases a.len(),
{
    if a.len() > 0 {
        let (ia, ib) = (a.subrange(0, a.len() - 1), b.subrange(0, b.len() - 1));
        assert forall|j: int| 0 <= j < ia.len() implies same_expr(ia[j], #[trigger] ib[j]) by {
            assert(ia[j] == a[j] && ib[j] == b[j]);
        }
        lemma_same_exprs(ia, ib);
    }
}

/// Named lists that agree element by element are the same named lists.
pub proof fn lemma_same_named_exprs(a: Seq<(Identifier, TypedExpr)>, b: Seq<(Identifier, TypedExpr)>)
    requires
        a.len() == b.len(),
        forall|j: int| 0 <= j < a.len() ==> (#[trigger] b[j]).0 == a[j].0 && same_expr(a[j].1, b[j].1),
    ensures
        same_named_exprs(a, b),
    decreases a.len(),
{
    if a.len() > 0 {
        let (ia, ib) = (a.subrange(0, a.len() - 1), b.subrange(0, b.len() - 1));
        assert forall|j: int| 0 <= j < ia.len() implies (#[trigger] ib[j]).0 == ia[j].0 && same_expr(ia[j].1, ib[j].1) by {
            assert(ia[j] == a[j] && ib[j] == b[j]);
        }
        lemma_same_named_exprs(ia, ib);
    }
}

/// `b` is a copy of `a`: the same tree, so the same span, type slot, variables and
/// symbols.
pub open spec fn mirrors(a: TypedExpr, b: TypedExpr) -> bool {
    &&& same_expr(a, b)
    &&& a.span == b.span
    &&& typed_expr_ty(a) == typed_expr_ty(b)
    &&& expr_vars(a) == expr_vars(b)
    &&& expr_syms(a) == expr_syms(b)
}

/// A copy of a typed expression.
pub fn copy_expr(e: &TypedExpr) -> (r: TypedExpr)
    ensures
        mirrors(*e, r),
    decreases e,
{
    let kind = match &e.kind {
        TypedExprKind::FunctionCall { func, args, ty } => {
            proof {
                assert(decreases_to!(e => e.kind));
            }
            TypedExprKind::FunctionCall { func: *func, args: copy_named_exprs(args), ty: *ty }
        },
        TypedExprKind::Literal { value, ty } => TypedExprKind::Literal { value: value.copy(), ty: *ty },
        TypedExprKind::List { elements, ty } => {
            proof {
                assert(decreases_to!(e => e.kind));
            }
            TypedExprKind::List { elements: copy_exprs(elements), ty: *ty }
        },
        TypedExprKind::Unit => TypedExprKind::Unit,
        TypedExprKind::Variable { ty, name } => TypedExprKind::Variable { ty: *ty, name: *name },
        TypedExprKind::Intrinsic { ty, intrinsic } => {
            proof {
                assert(decreases_to!(e => e.kind));
            }
            TypedExprKind::Intrinsic { ty: *ty, intrinsic: copy_intrinsic(intrinsic) }
        },
        TypedExprKind::ErrorRecovery(span) => TypedExprKind::ErrorRecovery(*span),
        TypedExprKind::ExprWithBindings { bindings, expression } => {
            proof {
                assert(decreases_to!(e => e.kind));
            }
            TypedExprKind::ExprWithBindings {
                bindings: copy_named_exprs(bindings),
                expression: Box::new(copy_expr(expression)),
            }
        },
        TypedExprKind::TypeConstructor { ty, args } => {
            proof {
                assert(decreases_to!(e => e.kind));
            }
            TypedExprKind::TypeConstructor { ty: *ty, args: copy_exprs(args) }
        },
        TypedExprKind::If { condition, then_branch, else_branch } => {
            proof {
                assert(decreases_to!(e => e.kind));
            }
            TypedExprKind::If {
                condition: Box::new(copy_expr(condition)),
                then_branch: Box::new(copy_expr(then_branch)),
                else_branch: Box::new(copy_expr(else_branch)),
            }
        },
    };
    TypedExpr { kind, span: e.span }
}

/// A copy of an intrinsic call.
pub fn copy_intrinsic(i: &Intrinsic) -> (r: Intrinsic)
    ensures
        same_intrinsic(*i, r),
        intrinsic_vars(r) == intrinsic_vars(*i),
        intrinsic_syms(r) == intrinsic_syms(*i),
    decreases i,
{
    match i {
        Intrinsic::Puts(a) => Intrinsic::Puts(Box::new(copy_expr(a))),
        Intrinsic::Malloc(a) => Intrinsic::Malloc(Box::new(copy_expr(a))),
        Intrinsic::SizeOf(a) => Intrinsic::SizeOf(Box::new(copy_expr(a))),
        Intrinsic::Add(a, b) => Intrinsic::Add(Box::new(copy_expr(a)), Box::new(copy_expr(b))),
        Intrinsic::Multiply(a, b) => Intrinsic::Multiply(Box::new(copy_expr(a)), Box::new(copy_expr(b))),
        Intrinsic::Divide(a, b) => Intrinsic::Divide(Box::new(copy_expr(a)), Box::new(copy_expr(b))),
        Intrinsic::Subtract(a, b) => Intrinsic::Subtract(Box::new(copy_expr(a)), Box::new(copy_expr(b))),
        Intrinsic::Equals(a, b) => Intrinsic::Equals(Box::new(copy_expr(a)), Box::new(copy_expr(b))),
    }
}

/// A copy of a list of typed expressions.
pub fn copy_exprs(es: &Vec<TypedExpr>) -> (r: Vec<TypedExpr>)
    ensures
        r@.len() == es@.len(),
        forall|j: int| 0 <= j < es@.len() ==> mirrors(es@[j], #[trigger] r@[j]),
        same_exprs(es@, r@),
        exprs_vars(r@) == exprs_vars(es@),
        exprs_syms(r@) == exprs_syms(es@),
    decreases es,
{
    let mut out: Vec<TypedExpr> = Vec::new();
    let mut i: usize = 0;
    assert(es@.subrange(0, 0) =~= Seq::<TypedExpr>::empty());
    while i < es.len()
        invariant
            i <= es@.len(),
            out@.len() == i,
            forall|j: int| 0 <= j < i ==> mirrors(es@[j], #[trigger] out@[j]),
            exprs_vars(out@) == exprs_vars(es@.subrange(0, i as int)),
            exprs_syms(out@) == exprs_syms(es@.subrange(0, i as int)),
        decreases es@.len() - i,
    {
        proof {
            assert(decreases_to!(es => es@));
            assert(decreases_to!(es@ => es@[i as int]));
        }
        let c = copy_expr(&es[i]);
        let ghost before = out@;
        out.push(c);
        proof {
            let pre = es@.subrange(0, i + 1);
            assert(pre.subrange(0, i as int) =~= es@.subrange(0, i as int));
            assert(out@.subrange(0, i as int) =~= before);
            assert(pre[i as int] == es@[i as int]);
        }
        i += 1;
    }
    assert(es@.subrange(0, es@.len() as int) =~= es@);
    proof {
        lemma_same_exprs(es@, out@);
    }
    out
}

/// A copy of a list of named typed expressions.
pub fn copy_named_exprs(es: &Vec<(Identifier, TypedExpr)>) -> (r: Vec<(Identifier, TypedExpr)>)
    ensures
        r@.len() == es@.len(),
        forall|j: int| 0 <= j < es@.len() ==> (#[trigger] r@[j]).0 == es@[j].0 && mirrors(es@[j].1, r@[j].1),
        same_named_exprs(es@, r@),
        named_exprs_vars(r@) == named_exprs_vars(es@),
        named_exprs_syms(r@) == named_exprs_syms(es@),
    decreases es,
{
    let mut out: Vec<(Identifier, TypedExpr)> = Vec::new();
    let mut i: usize = 0;
    assert(es@.subrange(0, 0) =~= Seq::<(Identifier, TypedExpr)>::empty());
    while i < es.len()
        invariant
            i <= es@.len(),
            out@.len() == i,
            forall|j: int| 0 <= j < i ==> (#[trigger] out@[j]).0 == es@[j].0 && mirrors(es@[j].1, out@[j].1),
            named_exprs_vars(out@) == named_exprs_vars(es@.subrange(0, i as int)),
            named_exprs_syms(out@) == named_exprs_syms(es@.subrange(0, i as int)),
        decreases es@.len() - i,
    {
        proof {
            assert(decreases_to!(es => es@));
            assert(decreases_to!(es@ => es@[i as int]));
            assert(decreases_to!(es@[i as int] => es@[i as int].1));
        }
        let c = copy_expr(&es[i].1);
        let ghost before = out@;
        out.push((es[i].0, c));
        proof {
            let pre = es@.subrange(0, i + 1);
            assert(pre.subrange(0, i as int) =~= es@.subrange(0, i as int));
            assert(out@.subrange(0, i as int) =~= before);
            assert(pre[i as int] == es@[i as int]);
        }
        i += 1;
    }
    assert(es@.subrange(0, es@.len() as int) =~= es@);
    proof {
        lemma_same_named_exprs(es@, out@);
    }
    out
}

/// `b` is a copy of the typed function `a`.
pub open spec fn same_function(a: Function, b: Function) -> bool {
    &&& b.name == a.name
    &&& b.params@ == a.params@
    &&& b.return_ty == a.return_ty
    &&& mirrors(a.body, b.body)
}

/// A copy of a typed function.
pub fn copy_function(f: &Function) -> (r: Function)
    ensures
        same_function(*f, r),
        r.name == f.name,
        r.params@ == f.params@,
        r.return_ty == f.return_ty,
        mirrors(f.body, r.body),
{
    Function { name: f.name, params: copy_params(&f.params), body: copy_expr(&f.body), return_ty: f.return_ty }
}

/// A copy of a list of parameters.
pub fn copy_params(ps: &Vec<(Identifier, TypeVariable)>) -> (r: Vec<(Identifier, TypeVariable)>)
    ensures
        r@ == ps@,
{
    let mut out: Vec<(Identifier, TypeVariable)> = Vec::new();
    let mut i: usize = 0;
    while i < ps.len()
        invariant
            i <= ps@.len(),
            out@ == ps@.subrange(0, i as int),
        decreases ps@.len() - i,
    {
        out.push(ps[i]);
        i += 1;
        assert(out@ =~= ps@.subrange(0, i as int));
    }
    assert(ps@.subrange(0, ps@.len() as int) =~= ps@);
    out
}


/// A typed expression of kind `k` (the span plays no part in what it mentions).
pub open spec fn of_kind(k: TypedExprKind) -> TypedExpr {
    TypedExpr { kind: k, span: arbitrary() }
}

/// The slots that a list of parameters gives its parameters.
pub open spec fn param_vars(ps: Seq<(Identifier, TypeVariable)>) -> Set<usize> {
    Set::new(|x: usize| exists|i: int| 0 <= i < ps.len() && ps[i].1.0 == x)
}

/// Changing named expressions one by one, each within its variables and `extra`, and
/// keeping names and symbols, keeps the whole list within its variables and `extra`.
pub proof fn lemma_named_exprs_pointwise(a: Seq<(Identifier, TypedExpr)>, b: Seq<(Identifier, TypedExpr)>, extra: Set<
    usize,
>)
    requires
        a.len() == b.len(),
        forall|j: int|
            0 <= j < a.len() ==> {
                &&& (#[trigger] a[j]).0 == b[j].0
                &&& expr_vars(a[j].1).subset_of(expr_vars(b[j].1) + extra)
                &&& expr_syms(a[j].1) == expr_syms(b[j].1)
            },
    ensures
        named_exprs_vars(a).subset_of(named_exprs_vars(b) + extra),
        named_exprs_syms(a) == named_exprs_syms(b),
    decreases a.len(),
{
    if a.len() > 0 {
        let ai = a.subrange(0, a.len() - 1);
        let bi = b.subrange(0, b.len() - 1);
        assert forall|j: int| 0 <= j < ai.len() implies {
            &&& (#[trigger] ai[j]).0 == bi[j].0
            &&& expr_vars(ai[j].1).subset_of(expr_vars(bi[j].1) + extra)
            &&& expr_syms(ai[j].1) == expr_syms(bi[j].1)
        } by {
            assert(ai[j] == a[j]);
            assert(bi[j] == b[j]);
        }
        lemma_named_exprs_pointwise(ai, bi, extra);
        let la = a[a.len() - 1];
        let lb = b[b.len() - 1];
        assert(la.0 == lb.0 && expr_vars(la.1).subset_of(expr_vars(lb.1) + extra));
    }
}

/// The slot of the first parameter at or after position `i` named by symbol `id`.
pub open spec fn param_slot_from(ps: Seq<(Identifier, TypeVariable)>, id: SymbolId, i: int) -> Option<TypeVariable>
    decreases ps.len() - i,
{
    if i < 0 || i >= ps.len() {
        None
    } else if ps[i].0.id == id {
        Some(ps[i].1)
    } else {
        param_slot_from(ps, id, i + 1)
    }
}

/// The slot of the first parameter named by symbol `id`.
pub open spec fn param_slot(ps: Seq<(Identifier, TypeVariable)>, id: SymbolId) -> Option<TypeVariable> {
    param_slot_from(ps, id, 0)
}

/// `a` and `b` are the same expression kind.
pub open spec fn same_kind(a: TypedExprKind, b: TypedExprKind) -> bool {
    same_expr(of_kind(a), of_kind(b))
}

/// `b` is `a` with every variable that names a parameter of `ps` pointed at the slot of
/// the first such parameter. The rewrite looks into the arguments of function calls and
/// of intrinsic calls; every other kind of expression is left as it is.
pub open spec fn replaced_kind(a: TypedExprKind, b: TypedExprKind, ps: Seq<(Identifier, TypeVariable)>) -> bool
    decreases a,
{
    match a {
        TypedExprKind::Variable { ty, name } => b == (TypedExprKind::Variable {
            ty: match param_slot(ps, name.id) {
                Some(t) => t,
                None => ty,
            },
            name,
        }),
        TypedExprKind::FunctionCall { func, args, ty } => b matches TypedExprKind::FunctionCall {
            func: f,
            args: bs,
            ty: t,
        } && f == func && t == ty && replaced_args(args@, bs@, ps),
        TypedExprKind::Intrinsic { ty, intrinsic } => b matches TypedExprKind::Intrinsic { ty: t, intrinsic: j } && t
            == ty && replaced_intrinsic(intrinsic, j, ps),
        _ => same_kind(a, b),
    }
}

/// `b` is `a` with its expression rewritten as [`replaced_kind`] says.
pub open spec fn replaced_expr(a: TypedExpr, b: TypedExpr, ps: Seq<(Identifier, TypeVariable)>) -> bool
    decreases a,
{
    a.span == b.span && replaced_kind(a.kind, b.kind, ps)
}

/// The arguments of a call, each rewritten as [`replaced_kind`] says.
pub open spec fn replaced_args(
    a: Seq<(Identifier, TypedExpr)>,
    b: Seq<(Identifier, TypedExpr)>,
    ps: Seq<(Identifier, TypeVariable)>,
) -> bool
    decreases a,
{
    &&& a.len() == b.len()
    &&& a.len() > 0 ==> {
        &&& replaced_args(a.subrange(0, a.len() - 1), b.subrange(0, b.len() - 1), ps)
        &&& a[a.len() - 1].0 == b[b.len() - 1].0
        &&& replaced_expr(a[a.len() - 1].1, b[b.len() - 1].1, ps)
    }
}

/// The arguments of an intrinsic call, each rewritten as [`replaced_kind`] says.
pub open spec fn replaced_intrinsic(a: Intrinsic, b: Intrinsic, ps: Seq<(Identifier, TypeVariable)>) -> bool
    decreases a,
{
    match a {
        Intrinsic::Puts(x) => b matches Intrinsic::Puts(y) && replaced_expr(*x, *y, ps),
        Intrinsic::Malloc(x) => b matches Intrinsic::Malloc(y) && replaced_expr(*x, *y, ps),
        Intrinsic::SizeOf(x) => b matches Intrinsic::SizeOf(y) && replaced_expr(*x, *y, ps),
        Intrinsic::Add(x, y) => b matches Intrinsic::Add(u, v) && replaced_expr(*x, *u, ps) && replaced_expr(*y, *v, ps),
        Intrinsic::Multiply(x, y) => b matches Intrinsic::Multiply(u, v) && replaced_expr(*x, *u, ps) && replaced_expr(
            *y,
            *v,
            ps,
        ),
        Intrinsic::Divide(x, y) => b matches Intrinsic::Divide(u, v) && replaced_expr(*x, *u, ps) && replaced_expr(
            *y,
            *v,
            ps,
        ),
        Intrinsic::Subtract(x, y) => b matches Intrinsic::Subtract(u, v) && replaced_expr(*x, *u, ps) && replaced_expr(
            *y,
            *v,
            ps,
        ),
        Intrinsic::Equals(x, y) => b matches Intrinsic::Equals(u, v) && replaced_expr(*x, *u, ps) && replaced_expr(
            *y,
            *v,
            ps,
        ),
    }
}

/// How many variables [`replaced_kind`] points at a parameter's slot.
pub open spec fn replacements(a: TypedExprKind, ps: Seq<(Identifier, TypeVariable)>) -> nat
    decreases a,
{
    match a {
        TypedExprKind::Variable { name, .. } => if param_slot(ps, name.id) is Some {
            1
        } else {
            0
        },
        TypedExprKind::FunctionCall { args, .. } => args_replacements(args@, ps),
        TypedExprKind::Intrinsic { intrinsic, .. } => intrinsic_replacements(intrinsic, ps),
        _ => 0,
    }
}

pub open spec fn args_replacements(a: Seq<(Identifier, TypedExpr)>, ps: Seq<(Identifier, TypeVariable)>) -> nat
    decreases a,
{
    if a.len() == 0 {
        0
    } else {
        args_replacements(a.subrange(0, a.len() - 1), ps) + replacements(a[a.len() - 1].1.kind, ps)
    }
}

pub open spec fn intrinsic_replacements(a: Intrinsic, ps: Seq<(Identifier, TypeVariable)>) -> nat
    decreases a,
{
    match a {
        Intrinsic::Puts(x) => replacements(x.kind, ps),
        Intrinsic::Malloc(x) => replacements(x.kind, ps),
        Intrinsic::SizeOf(x) => replacements(x.kind, ps),
        Intrinsic::Add(x, y) => replacements(x.kind, ps) + replacements(y.kind, ps),
        Intrinsic::Multiply(x, y) => replacements(x.kind, ps) + replacements(y.kind, ps),
        Intrinsic::Divide(x, y) => replacements(x.kind, ps) + replacements(y.kind, ps),
        Intrinsic::Subtract(x, y) => replacements(x.kind, ps) + replacements(y.kind, ps),
        Intrinsic::Equals(x, y) => replacements(x.kind, ps) + replacements(y.kind, ps),
    }
}

/// `x + y`, stopping at `usize::MAX`.
pub open spec fn saturating(x: int, y: int) -> int {
    if x + y <= usize::MAX {
        x + y
    } else {
        usize::MAX as int
    }
}

/// The same expression is the same.
pub proof fn lemma_same_expr_refl(e: TypedExpr)
    ensures
        same_expr(e, e),
    decreases e,
{
    match e.kind {
        TypedExprKind::FunctionCall { args, .. } => {
            lemma_same_named_exprs_refl(args@);
        },
        TypedExprKind::List { elements, .. } => {
            lemma_same_exprs_refl(elements@);
        },
        TypedExprKind::Intrinsic { intrinsic, .. } => {
            lemma_same_intrinsic_refl(intrinsic);
        },
        TypedExprKind::ExprWithBindings { bindings, expression } => {
            lemma_same_named_exprs_refl(bindings@);
            lemma_same_expr_refl(*expression);
        },
        TypedExprKind::TypeConstructor { args, .. } => {
            lemma_same_exprs_refl(args@);
        },
        TypedExprKind::If { condition, then_branch, else_branch } => {
            lemma_same_expr_refl(*condition);
            lemma_same_expr_refl(*then_branch);
            lemma_same_expr_refl(*else_branch);
        },
        _ => {},
    }
}

pub proof fn lemma_same_intrinsic_refl(i: Intrinsic)
    ensures
        same_intrinsic(i, i),
    decreases i,
{
    match i {
        Intrinsic::Puts(x) => lemma_same_expr_refl(*x),
        Intrinsic::Malloc(x) => lemma_same_expr_refl(*x),
        Intrinsic::SizeOf(x) => lemma_same_expr_refl(*x),
        Intrinsic::Add(x, y) => {
            lemma_same_expr_refl(*x);
            lemma_same_expr_refl(*y);
        },
        Intrinsic::Multiply(x, y) => {
            lemma_same_expr_refl(*x);
            lemma_same_expr_refl(*y);
        },
        Intrinsic::Divide(x, y) => {
            lemma_same_expr_refl(*x);
            lemma_same_expr_refl(*y);
        },
        Intrinsic::Subtract(x, y) => {
            lemma_same_expr_refl(*x);
            lemma_same_expr_refl(*y);
        },
        Intrinsic::Equals(x, y) => {
            lemma_same_expr_refl(*x);
            lemma_same_expr_refl(*y);
        },
    }
}

pub proof fn lemma_same_exprs_refl(es: Seq<TypedExpr>)
    ensures
        same_exprs(es, es),
    decreases es,
{
    if es.len() > 0 {
        lemma_same_exprs_refl(es.subrange(0, es.len() - 1));
        lemma_same_expr_refl(es[es.len() - 1]);
    }
}

pub proof fn lemma_same_named_exprs_refl(es: Seq<(Identifier, TypedExpr)>)
    ensures
        same_named_exprs(es, es),
    decreases es,
{
    if es.len() > 0 {
        lemma_same_named_exprs_refl(es.subrange(0, es.len() - 1));
        lemma_same_expr_refl(es[es.len() - 1].1);
    }
}

/// Arguments rewritten one by one make a rewritten argument list.
pub proof fn lemma_replaced_args(
    a: Seq<(Identifier, TypedExpr)>,
    b: Seq<(Identifier, TypedExpr)>,
    ps: Seq<(Identifier, TypeVariable)>,
)
    requires
        a.len() == b.len(),
        forall|j: int| 0 <= j < a.len() ==> (#[trigger] b[j]).0 == a[j].0 && replaced_expr(a[j].1, b[j].1, ps),
    ensures
        replaced_args(a, b, ps),
    decreases a.len(),
{
    if a.len() > 0 {
        let (ia, ib) = (a.subrange(0, a.len() - 1), b.subrange(0, b.len() - 1));
        assert forall|j: int| 0 <= j < ia.len() implies (#[trigger] ib[j]).0 == ia[j].0 && replaced_expr(
            ia[j].1,
            ib[j].1,
            ps,
        ) by {
            assert(ia[j] == a[j] && ib[j] == b[j]);
        }
        lemma_replaced_args(ia, ib, ps);
    }
}

/// Points the variables of `expr` that name a parameter at the parameter's slot, and
/// counts how many it changed (the count stops at `usize::MAX`).
pub fn replace_var_reference_types(
    expr: &mut TypedExprKind,
    params: &Vec<(Identifier, TypeVariable)>,
    num_replacements: &mut usize,
)
    ensures
        replaced_kind(*old(expr), *final(expr), params@),
        *final(num_replacements) == saturating(*old(num_replacements) as int, replacements(*old(expr), params@) as int),
        expr_vars(of_kind(*final(expr))).subset_of(expr_vars(of_kind(*old(expr))) + param_vars(params@)),
        expr_syms(of_kind(*final(expr))) == expr_syms(of_kind(*old(expr))),
    decreases *old(expr),
{
    let ghost before = *expr;
    let ghost n0 = *num_replacements;
    match expr {
        TypedExprKind::Variable { ty, name } => {
            if let Some(t) = find_param(params, name.id) {
                *num_replacements = num_replacements.saturating_add(1);
                *ty = t;
            }
        },
        TypedExprKind::FunctionCall { args, .. } => {
            let ghost old_args = args@;
            let mut i: usize = 0;
            proof {
                assert(old_args.subrange(0, 0) =~= Seq::<(Identifier, TypedExpr)>::empty());
            }
            while i < args.len()
                invariant
                    i <= args@.len(),
                    args@.len() == old_args.len(),
                    before == *old(expr),
                    before matches TypedExprKind::FunctionCall { args: a0, .. } && a0@ == old_args,
                    forall|j: int| i <= j < old_args.len() ==> args@[j] == old_args[j],
                    forall|j: int|
                        0 <= j < i ==> {
                            &&& (#[trigger] args@[j]).0 == old_args[j].0
                            &&& replaced_expr(old_args[j].1, args@[j].1, params@)
                            &&& expr_vars(args@[j].1).subset_of(expr_vars(old_args[j].1) + param_vars(params@))
                            &&& expr_syms(args@[j].1) == expr_syms(old_args[j].1)
                        },
                    *num_replacements == saturating(n0 as int, args_replacements(old_args.subrange(0, i as int), params@) as int),
                decreases old_args.len() - i,
            {
                let mut item = args.remove(i);
                proof {
                    assert(item == old_args[i as int]);
                    assert(decreases_to!(before => before->FunctionCall_args));
                    assert(decreases_to!(before->FunctionCall_args => before->FunctionCall_args@));
                    assert(decreases_to!(old_args => old_args[i as int]));
                    assert(decreases_to!(old_args[i as int] => old_args[i as int].1));
                    assert(decreases_to!(old_args[i as int].1 => old_args[i as int].1.kind));
                    assert(decreases_to!(before => item.1.kind));
                }
                let ghost item_before = item;
                let ghost count_before = *num_replacements;
                replace_var_reference_types(&mut item.1.kind, params, num_replacements);
                args.insert(i, item);
                proof {
                    assert(expr_vars(item.1) == expr_vars(of_kind(item.1.kind)));
                    assert(expr_vars(item_before.1) == expr_vars(of_kind(item_before.1.kind)));
                    assert(expr_syms(item.1) == expr_syms(of_kind(item.1.kind)));
                    assert(expr_syms(item_before.1) == expr_syms(of_kind(item_before.1.kind)));
                    let pre = old_args.subrange(0, i + 1);
                    assert(pre.subrange(0, i as int) =~= old_args.subrange(0, i as int));
                    assert(pre[i as int] == old_args[i as int]);
                }
                i += 1;
            }
            proof {
                lemma_named_exprs_pointwise(args@, old_args, param_vars(params@));
                lemma_replaced_args(old_args, args@, params@);
                assert(old_args.subrange(0, old_args.len() as int) =~= old_args);
            }
        },
        TypedExprKind::Intrinsic { intrinsic, .. } => {
            replace_in_intrinsic(intrinsic, params, num_replacements);
        },
        _ => {
            proof {
                lemma_same_expr_refl(of_kind(before));
            }
        },
    }
}

/// The slot of the first parameter named by symbol `id`.
fn find_param(params: &Vec<(Identifier, TypeVariable)>, id: SymbolId) -> (r: Option<TypeVariable>)
    ensures
        r == param_slot(params@, id),
        r is Some ==> param_vars(params@).contains(r->Some_0.0),
{
    let mut i: usize = 0;
    while i < params.len()
        invariant
            i <= params@.len(),
            param_slot(params@, id) == param_slot_from(params@, id, i as int),
        decreases params@.len() - i,
    {
        if params[i].0.id == id {
            proof {
                assert(param_vars(params@).contains(params@[i as int].1.0));
            }
            return Some(params[i].1);
        }
        i += 1;
    }
    None
}

fn replace_in_intrinsic(
    intrinsic: &mut Intrinsic,
    params: &Vec<(Identifier, TypeVariable)>,
    num_replacements: &mut usize,
)
    ensures
        replaced_intrinsic(*old(intrinsic), *final(intrinsic), params@),
        *final(num_replacements) == saturating(
            *old(num_replacements) as int,
            intrinsic_replacements(*old(intrinsic), params@) as int,
        ),
        intrinsic_vars(*final(intrinsic)).subset_of(intrinsic_vars(*old(intrinsic)) + param_vars(params@)),
        intrinsic_syms(*final(intrinsic)) == intrinsic_syms(*old(intrinsic)),
    decreases *old(intrinsic),
{
    match intrinsic {
        // intrinsics which take one arg
        Intrinsic::Puts(a) => replace_in_box(a, params, num_replacements),
        Intrinsic::Malloc(a) => replace_in_box(a, params, num_replacements),
        Intrinsic::SizeOf(a) => replace_in_box(a, params, num_replacements),
        // intrinsics which take two args
        Intrinsic::Add(a, b) => {
            replace_in_box(a, params, num_replacements);
            replace_in_box(b, params, num_replacements);
        },
        Intrinsic::Subtract(a, b) => {
            replace_in_box(a, params, num_replacements);
            replace_in_box(b, params, num_replacements);
        },
        Intrinsic::Multiply(a, b) => {
            replace_in_box(a, params, num_replacements);
            replace_in_box(b, params, num_replacements);
        },
        Intrinsic::Divide(a, b) => {
            replace_in_box(a, params, num_replacements);
            replace_in_box(b, params, num_replacements);
        },
        Intrinsic::Equals(a, b) => {
            replace_in_box(a, params, num_replacements);
            replace_in_box(b, params, num_replacements);
        },
    }
}

fn replace_in_box(a: &mut Box<TypedExpr>, params: &Vec<(Identifier, TypeVariable)>, num_replacements: &mut usize)
    ensures
        replaced_expr(**old(a), **final(a), params@),
        *final(num_replacements) == saturating(*old(num_replacements) as int, replacements(old(a).kind, params@) as int),
        expr_vars(**final(a)).subset_of(expr_vars(**old(a)) + param_vars(params@)),
        expr_syms(**final(a)) == expr_syms(**old(a)),
        final(a).span == old(a).span,
    decreases **old(a),
{
    let ghost before = **a;
    proof {
        assert(decreases_to!(before => before.kind));
    }
    replace_var_reference_types(&mut a.kind, params, num_replacements);
    proof {
        assert(expr_vars(**a) == expr_vars(of_kind(a.kind)));
        assert(expr_vars(before) == expr_vars(of_kind(before.kind)));
        assert(expr_syms(**a) == expr_syms(of_kind(a.kind)));
        assert(expr_syms(before) == expr_syms(of_kind(before.kind)));
    }
}


/// Every argument of an intrinsic call is sound.
pub open spec fn intrinsic_args_ok(i: Intrinsic, n: nat, k: nat) -> bool {
    match i {
        Intrinsic::Puts(a) => expr_ok(*a, n, k),
        Intrinsic::Malloc(a) => expr_ok(*a, n, k),
        Intrinsic::SizeOf(a) => expr_ok(*a, n, k),
        Intrinsic::Add(a, b) => expr_ok(*a, n, k) && expr_ok(*b, n, k),
        Intrinsic::Multiply(a, b) => expr_ok(*a, n, k) && expr_ok(*b, n, k),
        Intrinsic::Divide(a, b) => expr_ok(*a, n, k) && expr_ok(*b, n, k),
        Intrinsic::Subtract(a, b) => expr_ok(*a, n, k) && expr_ok(*b, n, k),
        Intrinsic::Equals(a, b) => expr_ok(*a, n, k) && expr_ok(*b, n, k),
    }
}

/// An intrinsic call with a type slot in the table and sound arguments is sound.
pub proof fn lemma_intrinsic_expr_ok(t: TypedExpr, n: nat, k: nat)
    requires
        t.kind is Intrinsic,
        t.kind->Intrinsic_ty.0 < n,
        intrinsic_args_ok(t.kind->Intrinsic_intrinsic, n, k),
    ensures
        expr_ok(t, n, k),
{
    let i = t.kind->Intrinsic_intrinsic;
    let ty = t.kind->Intrinsic_ty;
    assert(expr_vars(t) == set![ty.0] + intrinsic_vars(i));
    assert(expr_syms(t) == intrinsic_syms(i));
    match i {
        Intrinsic::Puts(a) => {
            assert(intrinsic_vars(i) == expr_vars(*a));
            assert(intrinsic_syms(i) == expr_syms(*a));
        },
        Intrinsic::Malloc(a) => {
            assert(intrinsic_vars(i) == expr_vars(*a));
            assert(intrinsic_syms(i) == expr_syms(*a));
        },
        Intrinsic::SizeOf(a) => {
            assert(intrinsic_vars(i) == expr_vars(*a));
            assert(intrinsic_syms(i) == expr_syms(*a));
        },
        Intrinsic::Add(a, b) => {
            assert(intrinsic_vars(i) == expr_vars(*a) + expr_vars(*b));
            assert(intrinsic_syms(i) == expr_syms(*a) + expr_syms(*b));
        },
        Intrinsic::Multiply(a, b) => {
            assert(intrinsic_vars(i) == expr_vars(*a) + expr_vars(*b));
            assert(intrinsic_syms(i) == expr_syms(*a) + expr_syms(*b));
        },
        Intrinsic::Divide(a, b) => {
            assert(intrinsic_vars(i) == expr_vars(*a) + expr_vars(*b));
            assert(intrinsic_syms(i) == expr_syms(*a) + expr_syms(*b));
        },
        Intrinsic::Subtract(a, b) => {
            assert(intrinsic_vars(i) == expr_vars(*a) + expr_vars(*b));
            assert(intrinsic_syms(i) == expr_syms(*a) + expr_syms(*b));
        },
        Intrinsic::Equals(a, b) => {
            assert(intrinsic_vars(i) == expr_vars(*a) + expr_vars(*b));
            assert(intrinsic_syms(i) == expr_syms(*a) + expr_syms(*b));
        },
    }
}


/// Every named expression of a sound list is sound, and so is its name.
pub proof fn lemma_named_exprs_elem_ok_all(es: Seq<(Identifier, TypedExpr)>, n: nat, k: nat)
    requires
        all_below(named_exprs_vars(es), n),
        all_below(named_exprs_syms(es), k),
    ensures
        forall|j: int| 0 <= j < es.len() ==> (#[trigger] es[j]).0.id.0 < k && expr_ok(es[j].1, n, k),
{
    assert forall|j: int| 0 <= j < es.len() implies (#[trigger] es[j]).0.id.0 < k && expr_ok(es[j].1, n, k) by {
        lemma_named_exprs_elem_ok(es, n, k, j);
    }
}


/// An expression with bindings has the type of its final expression, whatever its
/// bindings are.
pub proof fn lemma_bindings_take_final_type(bindings: Vec<(Identifier, TypedExpr)>, expression: TypedExpr, span: Span)
    ensures
        typed_expr_ty(TypedExpr { kind: TypedExprKind::ExprWithBindings { bindings, expression: Box::new(expression) }, span })
            == typed_expr_ty(expression),
{
}


/// An `if` has the type of its `then` branch, whatever its condition and `else` branch.
pub proof fn lemma_if_takes_then_type(condition: TypedExpr, then_branch: TypedExpr, else_branch: TypedExpr, span: Span)
    ensures
        typed_expr_ty(
            TypedExpr {
                kind: TypedExprKind::If {
                    condition: Box::new(condition),
                    then_branch: Box::new(then_branch),
                    else_branch: Box::new(else_branch),
                },
                span,
            },
        ) == typed_expr_ty(then_branch),
{
}

} // verus!
