//! The shape that type checking gives a resolved expression: the typed tree has a node
//! for every node of the resolved tree, at the same span, of the matching kind, with the
//! same literals, names, called functions and intrinsics.
use vstd::prelude::*;
use crate::ast::Intrinsic as IntrinsicName;
use crate::ids::Identifier;
use crate::resolved::{self, Binding, Expr, ExprKind, QueryableResolvedItems};
use crate::typed::{self, TypedExpr, TypedExprKind};

verus! {

/// `t` has the shape of `e` at every node. A call with as many arguments as its function
/// has parameters keeps its function and the shape of its arguments; any other call
/// becomes an error expression at the call's span.
pub open spec fn shaped(e: Expr, t: TypedExpr, res: QueryableResolvedItems) -> bool
    decreases e,
{
    &&& t.span == e.span
    &&& match e.kind {
        ExprKind::Literal(l) => t.kind matches TypedExprKind::Literal { value, .. } && value@ == l@,
        ExprKind::List(es) => t.kind matches TypedExprKind::List { elements, .. } && shaped_list(es@, elements@, res),
        ExprKind::FunctionCall(call) => if call.args@.len() == res.functions@[call.function.0 as int].params@.len() {
            t.kind matches TypedExprKind::FunctionCall { func, args, .. } && func == call.function && shaped_args(
                call.args@,
                args@,
                res,
            )
        } else {
            t.kind == TypedExprKind::ErrorRecovery(call.span)
        },
        ExprKind::Unit => t.kind is Unit,
        ExprKind::ErrorRecovery => t.kind == TypedExprKind::ErrorRecovery(e.span),
        ExprKind::Variable { name, .. } => t.kind matches TypedExprKind::Variable { name: n, .. } && n == name,
        ExprKind::Intrinsic(i) => t.kind matches TypedExprKind::Intrinsic { intrinsic, .. } && shaped_intrinsic(
            i,
            intrinsic,
            res,
        ),
        ExprKind::TypeConstructor(_, args) => t.kind matches TypedExprKind::TypeConstructor { args: targs, .. }
            && shaped_list(args@, targs@, res),
        ExprKind::ExpressionWithBindings { bindings, expression } => t.kind matches TypedExprKind::ExprWithBindings {
            bindings: tb,
            expression: te,
        } && shaped_bindings(bindings@, tb@, res) && shaped(*expression, *te, res),
        ExprKind::If { condition, then_branch, else_branch } => t.kind matches TypedExprKind::If {
            condition: c,
            then_branch: a,
            else_branch: b,
        } && shaped(*condition, *c, res) && shaped(*then_branch, *a, res) && shaped(*else_branch, *b, res),
    }
}

/// Each typed expression has the shape of the resolved expression at its place.
pub open spec fn shaped_list(es: Seq<Expr>, ts: Seq<TypedExpr>, res: QueryableResolvedItems) -> bool
    decreases es,
{
    &&& ts.len() == es.len()
    &&& es.len() > 0 ==> {
        &&& shaped_list(es.subrange(0, es.len() - 1), ts.subrange(0, ts.len() - 1), res)
        &&& shaped(es[es.len() - 1], ts[ts.len() - 1], res)
    }
}

/// Each typed argument has the shape of the resolved argument at its place.
pub open spec fn shaped_args(es: Seq<Expr>, ts: Seq<(Identifier, TypedExpr)>, res: QueryableResolvedItems) -> bool
    decreases es,
{
    &&& ts.len() == es.len()
    &&& es.len() > 0 ==> {
        &&& shaped_args(es.subrange(0, es.len() - 1), ts.subrange(0, ts.len() - 1), res)
        &&& shaped(es[es.len() - 1], ts[ts.len() - 1].1, res)
    }
}

/// Each typed binding has the name of the binding at its place and the shape of its
/// expression.
pub open spec fn shaped_bindings(bs: Seq<Binding>, ts: Seq<(Identifier, TypedExpr)>, res: QueryableResolvedItems) -> bool
    decreases bs,
{
    &&& ts.len() == bs.len()
    &&& bs.len() > 0 ==> {
        &&& shaped_bindings(bs.subrange(0, bs.len() - 1), ts.subrange(0, ts.len() - 1), res)
        &&& ts[ts.len() - 1].0 == bs[bs.len() - 1].name
        &&& shaped(bs[bs.len() - 1].expression, ts[ts.len() - 1].1, res)
    }
}

/// The typed intrinsic call is the same intrinsic, and its arguments have the shape of
/// the resolved arguments.
pub open spec fn shaped_intrinsic(i: resolved::Intrinsic, ti: typed::Intrinsic, res: QueryableResolvedItems) -> bool
    decreases i,
{
    let args = i.args@;
    if args.len() == 0 {
        false
    } else {
        match i.intrinsic {
            IntrinsicName::Puts => ti matches typed::Intrinsic::Puts(a) && shaped(args[0], *a, res),
            IntrinsicName::Malloc => ti matches typed::Intrinsic::Malloc(a) && shaped(args[0], *a, res),
            IntrinsicName::SizeOf => ti matches typed::Intrinsic::SizeOf(a) && shaped(args[0], *a, res),
            IntrinsicName::Add => args.len() > 1 && (ti matches typed::Intrinsic::Add(a, b) && shaped(args[0], *a, res)
                && shaped(args[1], *b, res)),
            IntrinsicName::Subtract => args.len() > 1 && (ti matches typed::Intrinsic::Subtract(a, b) && shaped(
                args[0],
                *a,
                res,
            ) && shaped(args[1], *b, res)),
            IntrinsicName::Multiply => args.len() > 1 && (ti matches typed::Intrinsic::Multiply(a, b) && shaped(
                args[0],
                *a,
                res,
            ) && shaped(args[1], *b, res)),
            IntrinsicName::Divide => args.len() > 1 && (ti matches typed::Intrinsic::Divide(a, b) && shaped(
                args[0],
                *a,
                res,
            ) && shaped(args[1], *b, res)),
            IntrinsicName::Equals => args.len() > 1 && (ti matches typed::Intrinsic::Equals(a, b) && shaped(
                args[0],
                *a,
                res,
            ) && shaped(args[1], *b, res)),
        }
    }
}

/// Expressions shaped one by one make a shaped list.
pub proof fn lemma_shaped_list(es: Seq<Expr>, ts: Seq<TypedExpr>, res: QueryableResolvedItems)
    requires
        ts.len() == es.len(),
        forall|j: int| 0 <= j < es.len() ==> shaped(es[j], #[trigger] ts[j], res),
    ensures
        shaped_list(es, ts, res),
    decreases es.len(),
{
    if es.len() > 0 {
        let (ie, it) = (es.subrange(0, es.len() - 1), ts.subrange(0, ts.len() - 1));
        assert forall|j: int| 0 <= j < ie.len() implies shaped(ie[j], #[trigger] it[j], res) by {
            assert(ie[j] == es[j] && it[j] == ts[j]);
        }
        lemma_shaped_list(ie, it, res);
    }
}

/// Arguments shaped one by one make shaped arguments.
pub proof fn lemma_shaped_args(es: Seq<Expr>, ts: Seq<(Identifier, TypedExpr)>, res: QueryableResolvedItems)
    requires
        ts.len() == es.len(),
        forall|j: int| 0 <= j < es.len() ==> shaped(es[j], (#[trigger] ts[j]).1, res),
    ensures
        shaped_args(es, ts, res),
    decreases es.len(),
{
    if es.len() > 0 {
        let (ie, it) = (es.subrange(0, es.len() - 1), ts.subrange(0, ts.len() - 1));
        assert forall|j: int| 0 <= j < ie.len() implies shaped(ie[j], (#[trigger] it[j]).1, res) by {
            assert(ie[j] == es[j] && it[j] == ts[j]);
        }
        lemma_shaped_args(ie, it, res);
    }
}

/// Bindings shaped one by one make shaped bindings.
pub proof fn lemma_shaped_bindings(bs: Seq<Binding>, ts: Seq<(Identifier, TypedExpr)>, res: QueryableResolvedItems)
    requires
        ts.len() == bs.len(),
        forall|j: int| 0 <= j < bs.len() ==> (#[trigger] ts[j]).0 == bs[j].name && shaped(bs[j].expression, ts[j].1, res),
    ensures
        shaped_bindings(bs, ts, res),
    decreases bs.len(),
{
    if bs.len() > 0 {
        let (ib, it) = (bs.subrange(0, bs.len() - 1), ts.subrange(0, ts.len() - 1));
        assert forall|j: int| 0 <= j < ib.len() implies (#[trigger] it[j]).0 == ib[j].name && shaped(
            ib[j].expression,
            it[j].1,
            res,
        ) by {
            assert(ib[j] == bs[j] && it[j] == ts[j]);
        }
        lemma_shaped_bindings(ib, it, res);
    }
}

/// A copy of a shaped tree is shaped the same.
pub proof fn lemma_shaped_copy(e: Expr, a: TypedExpr, b: TypedExpr, res: QueryableResolvedItems)
    requires
        shaped(e, a, res),
        typed::same_expr(a, b),
    ensures
        shaped(e, b, res),
    decreases e,
{
    match e.kind {
        ExprKind::List(es) => {
            lemma_shaped_list_copy(es@, a.kind->List_elements@, b.kind->List_elements@, res);
        },
        ExprKind::FunctionCall(call) => {
            if call.args@.len() == res.functions@[call.function.0 as int].params@.len() {
                lemma_shaped_args_copy(call.args@, a.kind->FunctionCall_args@, b.kind->FunctionCall_args@, res);
            }
        },
        ExprKind::Intrinsic(i) => {
            lemma_shaped_intrinsic_copy(i, a.kind->Intrinsic_intrinsic, b.kind->Intrinsic_intrinsic, res);
        },
        ExprKind::TypeConstructor(_, args) => {
            lemma_shaped_list_copy(args@, a.kind->TypeConstructor_args@, b.kind->TypeConstructor_args@, res);
        },
        ExprKind::ExpressionWithBindings { bindings, expression } => {
            lemma_shaped_bindings_copy(
                bindings@,
                a.kind->ExprWithBindings_bindings@,
                b.kind->ExprWithBindings_bindings@,
                res,
            );
            lemma_shaped_copy(*expression, *a.kind->ExprWithBindings_expression, *b.kind->ExprWithBindings_expression, res);
        },
        ExprKind::If { condition, then_branch, else_branch } => {
            lemma_shaped_copy(*condition, *a.kind->If_condition, *b.kind->If_condition, res);
            lemma_shaped_copy(*then_branch, *a.kind->If_then_branch, *b.kind->If_then_branch, res);
            lemma_shaped_copy(*else_branch, *a.kind->If_else_branch, *b.kind->If_else_branch, res);
        },
        _ => {},
    }
}

pub proof fn lemma_shaped_list_copy(es: Seq<Expr>, a: Seq<TypedExpr>, b: Seq<TypedExpr>, res: QueryableResolvedItems)
    requires
        shaped_list(es, a, res),
        typed::same_exprs(a, b),
    ensures
        shaped_list(es, b, res),
    decreases es,
{
    if es.len() > 0 {
        lemma_shaped_list_copy(es.subrange(0, es.len() - 1), a.subrange(0, a.len() - 1), b.subrange(0, b.len() - 1), res);
        lemma_shaped_copy(es[es.len() - 1], a[a.len() - 1], b[b.len() - 1], res);
    }
}

pub proof fn lemma_shaped_args_copy(
    es: Seq<Expr>,
    a: Seq<(Identifier, TypedExpr)>,
    b: Seq<(Identifier, TypedExpr)>,
    res: QueryableResolvedItems,
)
    requires
        shaped_args(es, a, res),
        typed::same_named_exprs(a, b),
    ensures
        shaped_args(es, b, res),
    decreases es,
{
    if es.len() > 0 {
        lemma_shaped_args_copy(es.subrange(0, es.len() - 1), a.subrange(0, a.len() - 1), b.subrange(0, b.len() - 1), res);
        lemma_shaped_copy(es[es.len() - 1], a[a.len() - 1].1, b[b.len() - 1].1, res);
    }
}

pub proof fn lemma_shaped_bindings_copy(
    bs: Seq<Binding>,
    a: Seq<(Identifier, TypedExpr)>,
    b: Seq<(Identifier, TypedExpr)>,
    res: QueryableResolvedItems,
)
    requires
        shaped_bindings(bs, a, res),
        typed::same_named_exprs(a, b),
    ensures
        shaped_bindings(bs, b, res),
    decreases bs,
{
    if bs.len() > 0 {
        lemma_shaped_bindings_copy(
            bs.subrange(0, bs.len() - 1),
            a.subrange(0, a.len() - 1),
            b.subrange(0, b.len() - 1),
            res,
        );
        lemma_shaped_copy(bs[bs.len() - 1].expression, a[a.len() - 1].1, b[b.len() - 1].1, res);
    }
}

pub proof fn lemma_shaped_intrinsic_copy(
    i: resolved::Intrinsic,
    a: typed::Intrinsic,
    b: typed::Intrinsic,
    res: QueryableResolvedItems,
)
    requires
        shaped_intrinsic(i, a, res),
        typed::same_intrinsic(a, b),
    ensures
        shaped_intrinsic(i, b, res),
    decreases i,
{
    let args = i.args@;
    match a {
        typed::Intrinsic::Puts(x) => lemma_shaped_copy(args[0], *x, *b->Puts_0, res),
        typed::Intrinsic::Malloc(x) => lemma_shaped_copy(args[0], *x, *b->Malloc_0, res),
        typed::Intrinsic::SizeOf(x) => lemma_shaped_copy(args[0], *x, *b->SizeOf_0, res),
        typed::Intrinsic::Add(x, y) => {
            lemma_shaped_copy(args[0], *x, *b->Add_0, res);
            lemma_shaped_copy(args[1], *y, *b->Add_1, res);
        },
        typed::Intrinsic::Multiply(x, y) => {
            lemma_shaped_copy(args[0], *x, *b->Multiply_0, res);
            lemma_shaped_copy(args[1], *y, *b->Multiply_1, res);
        },
        typed::Intrinsic::Divide(x, y) => {
            lemma_shaped_copy(args[0], *x, *b->Divide_0, res);
            lemma_shaped_copy(args[1], *y, *b->Divide_1, res);
        },
        typed::Intrinsic::Subtract(x, y) => {
            lemma_shaped_copy(args[0], *x, *b->Subtract_0, res);
            lemma_shaped_copy(args[1], *y, *b->Subtract_1, res);
        },
        typed::Intrinsic::Equals(x, y) => {
            lemma_shaped_copy(args[0], *x, *b->Equals_0, res);
            lemma_shaped_copy(args[1], *y, *b->Equals_1, res);
        },
    }
}

} // verus!
