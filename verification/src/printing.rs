//! How typed expressions and the results of type checking are printed.
use vstd::prelude::*;
use crate::ast::{literal_display, push_symbol_id, symbol_id_text};
use crate::error::{
    ErrorModel, error_model, error_models, push_span_debug, push_spanned_error_debug, span_debug, spanned_error_debug,
};
use crate::maps::TypeOrFunctionId;
use crate::span::Span;
use crate::ids::FunctionId;
use crate::pretty::{print_type, print_var, push_type, push_var};
use crate::text::{debug_quoted, nat_text, push_debug_quoted, push_str, push_usize};
use crate::type_checker::TypeChecker;
use crate::typed::{Intrinsic, TypedExpr, TypedExprKind, typed_expr_ty};
use crate::types::{PetrType, TypeVariable, names_below};
use crate::unify::print_fuel;

verus! {

/// How a function id is displayed: `functionid` and its number.
pub open spec fn function_id_text(f: FunctionId) -> Seq<char> {
    "functionid"@ + nat_text(f.0 as nat)
}

/// How `Debug` prints a type variable.
pub open spec fn type_variable_debug(t: TypeVariable) -> Seq<char> {
    "TypeVariable("@ + nat_text(t.0 as nat) + ")"@
}

/// How `Debug` prints a typed expression.
pub open spec fn typed_debug(e: TypedExpr) -> Seq<char>
    decreases e,
{
    match e.kind {
        TypedExprKind::FunctionCall { func, args, .. } => "function call to "@ + function_id_text(func)
            + " with args: "@ + named_debug(args@),
        TypedExprKind::Literal { value, .. } => "literal: "@ + literal_display(value@),
        TypedExprKind::List { elements, .. } => "list: ["@ + list_debug(elements@) + "]"@,
        TypedExprKind::Unit => "unit"@,
        TypedExprKind::Variable { name, .. } => "variable: "@ + symbol_id_text(name.id),
        TypedExprKind::Intrinsic { intrinsic, .. } => "intrinsic: "@ + intrinsic_debug(intrinsic),
        TypedExprKind::ErrorRecovery(span) => "error recovery "@ + span_debug(span),
        TypedExprKind::ExprWithBindings { bindings, expression } => "bindings: "@ + named_debug(bindings@)
            + "expression: "@ + typed_debug(*expression),
        TypedExprKind::TypeConstructor { ty, .. } => "type constructor: "@ + type_variable_debug(ty),
        TypedExprKind::If { condition, then_branch, else_branch } => "if "@ + typed_debug(*condition) + " then "@
            + typed_debug(*then_branch) + " else "@ + typed_debug(*else_branch),
    }
}

/// How `Debug` prints an intrinsic call.
pub open spec fn intrinsic_debug(i: Intrinsic) -> Seq<char>
    decreases i,
{
    match i {
        Intrinsic::Puts(a) => "@puts("@ + typed_debug(*a) + ")"@,
        Intrinsic::Add(a, b) => "@add("@ + typed_debug(*a) + ", "@ + typed_debug(*b) + ")"@,
        Intrinsic::Multiply(a, b) => "@multiply("@ + typed_debug(*a) + ", "@ + typed_debug(*b) + ")"@,
        Intrinsic::Divide(a, b) => "@divide("@ + typed_debug(*a) + ", "@ + typed_debug(*b) + ")"@,
        Intrinsic::Subtract(a, b) => "@subtract("@ + typed_debug(*a) + ", "@ + typed_debug(*b) + ")"@,
        Intrinsic::Malloc(a) => "@malloc("@ + typed_debug(*a) + ")"@,
        Intrinsic::SizeOf(a) => "@sizeof("@ + typed_debug(*a) + ")"@,
        Intrinsic::Equals(a, b) => "@equal("@ + typed_debug(*a) + ", "@ + typed_debug(*b) + ")"@,
    }
}

/// Each expression of a list printed with `Debug` and followed by a comma.
pub open spec fn list_debug(es: Seq<TypedExpr>) -> Seq<char>
    decreases es,
{
    if es.len() == 0 {
        Seq::empty()
    } else {
        list_debug(es.subrange(0, es.len() - 1)) + typed_debug(es[es.len() - 1]) + ", "@
    }
}

/// Each named expression printed as its symbol, a colon and its `Debug` text, followed by
/// a comma.
pub open spec fn named_debug(es: Seq<(crate::ids::Identifier, TypedExpr)>) -> Seq<char>
    decreases es,
{
    if es.len() == 0 {
        Seq::empty()
    } else {
        named_debug(es.subrange(0, es.len() - 1)) + symbol_id_text(es[es.len() - 1].0.id) + ": "@ + typed_debug(
            es[es.len() - 1].1,
        ) + ", "@
    }
}

/// Appends the display text of a function id to `buf`.
pub fn push_function_id(buf: &mut String, f: FunctionId)
    ensures
        final(buf)@ == old(buf)@ + function_id_text(f),
{
    push_str(buf, "functionid");
    push_usize(buf, f.0);
    assert(final(buf)@ =~= old(buf)@ + function_id_text(f));
}

/// Appends how `Debug` prints a typed expression to `buf`.
pub fn push_typed_debug(buf: &mut String, e: &TypedExpr)
    ensures
        final(buf)@ == old(buf)@ + typed_debug(*e),
    decreases e,
{
    let ghost start = buf@;
    proof {
        assert(decreases_to!(e => e.kind));
    }
    match &e.kind {
        TypedExprKind::FunctionCall { func, args, .. } => {
            push_str(buf, "function call to ");
            push_function_id(buf, *func);
            push_str(buf, " with args: ");
            push_named_debug(buf, args);
        },
        TypedExprKind::Literal { value, .. } => {
            push_str(buf, "literal: ");
            value.push_display(buf);
        },
        TypedExprKind::List { elements, .. } => {
            push_str(buf, "list: [");
            push_list_debug(buf, elements);
            push_str(buf, "]");
        },
        TypedExprKind::Unit => push_str(buf, "unit"),
        TypedExprKind::Variable { name, .. } => {
            push_str(buf, "variable: ");
            push_symbol_id(buf, name.id);
        },
        TypedExprKind::Intrinsic { intrinsic, .. } => {
            push_str(buf, "intrinsic: ");
            push_intrinsic_debug(buf, intrinsic);
        },
        TypedExprKind::ErrorRecovery(span) => {
            push_str(buf, "error recovery ");
            push_span_debug(buf, *span);
        },
        TypedExprKind::ExprWithBindings { bindings, expression } => {
            push_str(buf, "bindings: ");
            push_named_debug(buf, bindings);
            push_str(buf, "expression: ");
            push_typed_debug(buf, expression);
        },
        TypedExprKind::TypeConstructor { ty, .. } => {
            push_str(buf, "type constructor: ");
            push_str(buf, "TypeVariable(");
            push_usize(buf, ty.0);
            push_str(buf, ")");
        },
        TypedExprKind::If { condition, then_branch, else_branch } => {
            push_str(buf, "if ");
            push_typed_debug(buf, condition);
            push_str(buf, " then ");
            push_typed_debug(buf, then_branch);
            push_str(buf, " else ");
            push_typed_debug(buf, else_branch);
        },
    }
    assert(buf@ =~= start + typed_debug(*e));
}

/// Appends how `Debug` prints an intrinsic call to `buf`.
pub fn push_intrinsic_debug(buf: &mut String, i: &Intrinsic)
    ensures
        final(buf)@ == old(buf)@ + intrinsic_debug(*i),
    decreases i,
{
    let ghost start = buf@;
    match i {
        Intrinsic::Puts(a) => {
            push_str(buf, "@puts(");
            push_typed_debug(buf, a);
        },
        Intrinsic::Add(a, b) => {
            push_str(buf, "@add(");
            push_typed_debug(buf, a);
            push_str(buf, ", ");
            push_typed_debug(buf, b);
        },
        Intrinsic::Multiply(a, b) => {
            push_str(buf, "@multiply(");
            push_typed_debug(buf, a);
            push_str(buf, ", ");
            push_typed_debug(buf, b);
        },
        Intrinsic::Divide(a, b) => {
            push_str(buf, "@divide(");
            push_typed_debug(buf, a);
            push_str(buf, ", ");
            push_typed_debug(buf, b);
        },
        Intrinsic::Subtract(a, b) => {
            push_str(buf, "@subtract(");
            push_typed_debug(buf, a);
            push_str(buf, ", ");
            push_typed_debug(buf, b);
        },
        Intrinsic::Malloc(a) => {
            push_str(buf, "@malloc(");
            push_typed_debug(buf, a);
        },
        Intrinsic::SizeOf(a) => {
            push_str(buf, "@sizeof(");
            push_typed_debug(buf, a);
        },
        Intrinsic::Equals(a, b) => {
            push_str(buf, "@equal(");
            push_typed_debug(buf, a);
            push_str(buf, ", ");
            push_typed_debug(buf, b);
        },
    }
    push_str(buf, ")");
    assert(buf@ =~= start + intrinsic_debug(*i));
}

/// Appends each expression's `Debug` text, followed by a comma, to `buf`.
pub fn push_list_debug(buf: &mut String, es: &Vec<TypedExpr>)
    ensures
        final(buf)@ == old(buf)@ + list_debug(es@),
    decreases es,
{
    let ghost start = buf@;
    let mut i: usize = 0;
    assert(es@.subrange(0, 0) =~= Seq::<TypedExpr>::empty());
    while i < es.len()
        invariant
            i <= es@.len(),
            buf@ == start + list_debug(es@.subrange(0, i as int)),
        decreases es@.len() - i,
    {
        proof {
            assert(decreases_to!(es => es@));
            assert(decreases_to!(es@ => es@[i as int]));
        }
        push_typed_debug(buf, &es[i]);
        push_str(buf, ", ");
        proof {
            let pre = es@.subrange(0, i + 1);
            assert(pre.subrange(0, i as int) =~= es@.subrange(0, i as int));
            assert(pre[i as int] == es@[i as int]);
        }
        assert(buf@ =~= start + list_debug(es@.subrange(0, i + 1)));
        i += 1;
    }
    assert(es@.subrange(0, es@.len() as int) =~= es@);
}

/// Appends each named expression, as its symbol, a colon and its `Debug` text followed
/// by a comma, to `buf`.
pub fn push_named_debug(buf: &mut String, es: &Vec<(crate::ids::Identifier, TypedExpr)>)
    ensures
        final(buf)@ == old(buf)@ + named_debug(es@),
    decreases es,
{
    let ghost start = buf@;
    let mut i: usize = 0;
    assert(es@.subrange(0, 0) =~= Seq::<(crate::ids::Identifier, TypedExpr)>::empty());
    while i < es.len()
        invariant
            i <= es@.len(),
            buf@ == start + named_debug(es@.subrange(0, i as int)),
        decreases es@.len() - i,
    {
        proof {
            assert(decreases_to!(es => es@));
            assert(decreases_to!(es@ => es@[i as int]));
            assert(decreases_to!(es@[i as int] => es@[i as int].1));
        }
        push_symbol_id(buf, es[i].0.id);
        push_str(buf, ": ");
        push_typed_debug(buf, &es[i].1);
        push_str(buf, ", ");
        proof {
            let pre = es@.subrange(0, i + 1);
            assert(pre.subrange(0, i as int) =~= es@.subrange(0, i as int));
            assert(pre[i as int] == es@[i as int]);
        }
        assert(buf@ =~= start + named_debug(es@.subrange(0, i + 1)));
        i += 1;
    }
    assert(es@.subrange(0, es@.len() as int) =~= es@);
}


/// The text of the type in slot `v`, as the checker prints it.
pub open spec fn ty_text(tc: &TypeChecker, v: TypeVariable) -> Seq<char> {
    print_var(tc.st.ctx.tys(), tc.names(), v, print_fuel(tc.st.ctx.tys()))
}

/// How the checker prints a typed expression: bindings, variables, calls and type
/// constructors with the types they got, anything else as `Debug` prints it.
pub open spec fn typed_pretty(tc: &TypeChecker, e: TypedExpr) -> Seq<char>
    decreases e,
{
    let names = tc.names();
    match e.kind {
        TypedExprKind::ExprWithBindings { bindings, expression } => bindings_pretty(tc, bindings@) + debug_quoted(
            typed_pretty(tc, *expression),
        ) + " ("@ + ty_text(tc, typed_expr_ty(*expression)) + ")"@,
        TypedExprKind::Variable { name, ty } => "variable "@ + names[name.id.0 as int] + ": "@ + ty_text(tc, ty),
        TypedExprKind::FunctionCall { func, args, ty } => "function call to "@ + function_id_text(func)
            + " with args: "@ + args_pretty(tc, args@) + "returns "@ + ty_text(tc, ty),
        TypedExprKind::TypeConstructor { ty, .. } => "type constructor: "@ + ty_text(tc, ty),
        _ => typed_debug(e),
    }
}

/// Each binding as its name, the `Debug` text of its expression and its type.
pub open spec fn bindings_pretty(tc: &TypeChecker, bs: Seq<(crate::ids::Identifier, TypedExpr)>) -> Seq<char>
    decreases bs.len(),
{
    if bs.len() == 0 {
        Seq::empty()
    } else {
        let b = bs[bs.len() - 1];
        bindings_pretty(tc, bs.subrange(0, bs.len() - 1)) + tc.names()[b.0.id.0 as int] + ": "@ + typed_debug(b.1)
            + " ("@ + ty_text(tc, typed_expr_ty(b.1)) + "),\n"@
    }
}

/// Each argument as its parameter's name and its type.
pub open spec fn args_pretty(tc: &TypeChecker, args: Seq<(crate::ids::Identifier, TypedExpr)>) -> Seq<char>
    decreases args.len(),
{
    if args.len() == 0 {
        Seq::empty()
    } else {
        let a = args[args.len() - 1];
        args_pretty(tc, args.subrange(0, args.len() - 1)) + tc.names()[a.0.id.0 as int] + ": "@ + ty_text(
            tc,
            typed_expr_ty(a.1),
        ) + ", "@
    }
}

/// Appends the text of the type in slot `v` to `buf`.
fn push_ty(buf: &mut String, tc: &TypeChecker, v: TypeVariable)
    requires
        tc.wf(),
    ensures
        final(buf)@ == old(buf)@ + ty_text(tc, v),
{
    push_var(buf, &tc.st.ctx, &tc.resolved.interner, v, tc.st.ctx.types.len());
}

/// The text of the type in slot `ty`: the type at the end of its chain of references.
pub fn pretty_print_ty(ty: &TypeVariable, type_checker: &TypeChecker) -> (r: String)
    requires
        type_checker.wf(),
    ensures
        r@ == ty_text(type_checker, *ty),
{
    let mut s = String::new();
    push_ty(&mut s, type_checker, *ty);
    s
}

/// The text of a type.
pub fn pretty_print_petr_type(ty: &PetrType, type_checker: &TypeChecker) -> (r: String)
    requires
        type_checker.wf(),
        names_below(ty@, type_checker.names().len()),
    ensures
        r@ == print_type(
            type_checker.st.ctx.tys(),
            type_checker.names(),
            ty@,
            print_fuel(type_checker.st.ctx.tys()),
        ),
{
    let mut s = String::new();
    push_type(&mut s, &type_checker.st.ctx, &type_checker.resolved.interner, ty, type_checker.st.ctx.types.len());
    s
}

/// The text of a typed expression (see [`typed_pretty`]).
pub fn pretty_print_typed_expr(typed_expr: &TypedExpr, type_checker: &TypeChecker) -> (r: String)
    requires
        type_checker.wf(),
        crate::typed::expr_ok(*typed_expr, type_checker.n(), type_checker.names().len()),
    ensures
        r@ == typed_pretty(type_checker, *typed_expr),
    decreases typed_expr,
{
    let ghost k = type_checker.names().len();
    proof {
        assert(decreases_to!(typed_expr => typed_expr.kind));
    }
    match &typed_expr.kind {
        TypedExprKind::ExprWithBindings { bindings, expression } => {
            let mut s = String::new();
            let mut i: usize = 0;
            proof {
                assert(bindings@.subrange(0, 0) =~= Seq::<(crate::ids::Identifier, TypedExpr)>::empty());
                assert forall|x: usize| crate::typed::named_exprs_vars(bindings@).contains(x) implies x < type_checker.n() by {
                    assert(crate::typed::expr_vars(*typed_expr).contains(x));
                }
                assert forall|x: usize| crate::typed::named_exprs_syms(bindings@).contains(x) implies x < k by {
                    assert(crate::typed::expr_syms(*typed_expr).contains(x));
                }
                crate::typed::lemma_named_exprs_elem_ok_all(bindings@, type_checker.n(), k);
            }
            while i < bindings.len()
                invariant
                    i <= bindings@.len(),
                    type_checker.wf(),
                    k == type_checker.names().len(),
                    forall|j: int| 0 <= j < bindings@.len() ==> (#[trigger] bindings@[j]).0.id.0 < k,
                    s@ == bindings_pretty(type_checker, bindings@.subrange(0, i as int)),
                decreases bindings@.len() - i,
            {
                let ident = type_checker.resolved.interner.get(bindings[i].0.id);
                push_str(&mut s, ident.as_str());
                push_str(&mut s, ": ");
                push_typed_debug(&mut s, &bindings[i].1);
                push_str(&mut s, " (");
                let ty = type_checker.st.expr_ty(&bindings[i].1);
                push_ty(&mut s, type_checker, ty);
                push_str(&mut s, "),\n");
                proof {
                    let pre = bindings@.subrange(0, i + 1);
                    assert(pre.subrange(0, i as int) =~= bindings@.subrange(0, i as int));
                    assert(pre[i as int] == bindings@[i as int]);
                }
                assert(s@ =~= bindings_pretty(type_checker, bindings@.subrange(0, i + 1)));
                i += 1;
            }
            assert(bindings@.subrange(0, bindings@.len() as int) =~= bindings@);
            let expr_ty = type_checker.st.expr_ty(expression);
            proof {
                assert forall|x: usize| crate::typed::expr_vars(**expression).contains(x) implies x < type_checker.n() by {
                    assert(crate::typed::expr_vars(*typed_expr).contains(x));
                }
                assert forall|x: usize| crate::typed::expr_syms(**expression).contains(x) implies x < k by {
                    assert(crate::typed::expr_syms(*typed_expr).contains(x));
                }
            }
            let inner = pretty_print_typed_expr(expression, type_checker);
            push_debug_quoted(&mut s, inner.as_str());
            push_str(&mut s, " (");
            push_ty(&mut s, type_checker, expr_ty);
            push_str(&mut s, ")");
            s
        },
        TypedExprKind::Variable { name, ty } => {
            let mut s = String::new();
            proof {
                assert(crate::typed::expr_syms(*typed_expr).contains(name.id.0));
            }
            push_str(&mut s, "variable ");
            push_str(&mut s, type_checker.resolved.interner.get(name.id).as_str());
            push_str(&mut s, ": ");
            push_ty(&mut s, type_checker, *ty);
            s
        },
        TypedExprKind::FunctionCall { func, args, ty } => {
            let mut s = String::new();
            push_str(&mut s, "function call to ");
            push_function_id(&mut s, *func);
            push_str(&mut s, " with args: ");
            let ghost start = s@;
            let mut i: usize = 0;
            proof {
                assert(args@.subrange(0, 0) =~= Seq::<(crate::ids::Identifier, TypedExpr)>::empty());
                assert forall|x: usize| crate::typed::named_exprs_vars(args@).contains(x) implies x < type_checker.n() by {
                    assert(crate::typed::expr_vars(*typed_expr).contains(x));
                }
                assert forall|x: usize| crate::typed::named_exprs_syms(args@).contains(x) implies x < k by {
                    assert(crate::typed::expr_syms(*typed_expr).contains(x));
                }
                crate::typed::lemma_named_exprs_elem_ok_all(args@, type_checker.n(), k);
            }
            while i < args.len()
                invariant
                    i <= args@.len(),
                    type_checker.wf(),
                    k == type_checker.names().len(),
                    forall|j: int| 0 <= j < args@.len() ==> (#[trigger] args@[j]).0.id.0 < k,
                    s@ == start + args_pretty(type_checker, args@.subrange(0, i as int)),
                decreases args@.len() - i,
            {
                push_str(&mut s, type_checker.resolved.interner.get(args[i].0.id).as_str());
                push_str(&mut s, ": ");
                let arg_ty = type_checker.st.expr_ty(&args[i].1);
                push_ty(&mut s, type_checker, arg_ty);
                push_str(&mut s, ", ");
                proof {
                    let pre = args@.subrange(0, i + 1);
                    assert(pre.subrange(0, i as int) =~= args@.subrange(0, i as int));
                    assert(pre[i as int] == args@[i as int]);
                }
                assert(s@ =~= start + args_pretty(type_checker, args@.subrange(0, i + 1)));
                i += 1;
            }
            assert(args@.subrange(0, args@.len() as int) =~= args@);
            push_str(&mut s, "returns ");
            push_ty(&mut s, type_checker, *ty);
            s
        },
        TypedExprKind::TypeConstructor { ty, .. } => {
            let mut s = String::new();
            push_str(&mut s, "type constructor: ");
            push_ty(&mut s, type_checker, *ty);
            s
        },
        _ => {
            let mut s = String::new();
            push_typed_debug(&mut s, typed_expr);
            s
        },
    }
}


/// The declaration of an entry of the type map, as printed.
pub open spec fn decl_text(tc: &TypeChecker, key: TypeOrFunctionId) -> Seq<char> {
    match key {
        TypeOrFunctionId::TypeId(t) => "type "@ + tc.names()[tc.resolved.types@[t.0 as int].name.id.0 as int],
        TypeOrFunctionId::FunctionId(f) => "fn "@ + tc.names()[tc.resolved.functions@[f.0 as int].name.id.0 as int],
    }
}

/// The position of function `f` among the typed functions.
pub open spec fn typed_index(tc: &TypeChecker, f: FunctionId) -> int {
    choose|j: int| 0 <= j < tc.st.typed_functions@.len() && tc.st.typed_functions@[j].0 == f
}

/// One entry of the type map as printed: the declaration and its type, and for a
/// function the text of its typed body.
pub open spec fn entry_text(tc: &TypeChecker, e: (TypeOrFunctionId, TypeVariable)) -> Seq<char> {
    decl_text(tc, e.0) + ": "@ + ty_text(tc, e.1) + "\n"@ + match e.0 {
        TypeOrFunctionId::FunctionId(f) => typed_pretty(tc, tc.st.typed_functions@[typed_index(tc, f)].1.body)
            + "\n"@,
        TypeOrFunctionId::TypeId(_) => Seq::empty(),
    } + "\n"@
}

pub open spec fn entries_text(tc: &TypeChecker, es: Seq<(TypeOrFunctionId, TypeVariable)>) -> Seq<char>
    decreases es.len(),
{
    if es.len() == 0 {
        Seq::empty()
    } else {
        entries_text(tc, es.subrange(0, es.len() - 1)) + entry_text(tc, es[es.len() - 1])
    }
}

/// The types of the parameters, each quoted as `Debug` prints a string, joined by commas.
pub open spec fn param_types_text(tc: &TypeChecker, ps: Seq<(crate::ids::Identifier, TypeVariable)>) -> Seq<char>
    decreases ps.len(),
{
    if ps.len() == 0 {
        Seq::empty()
    } else if ps.len() == 1 {
        debug_quoted(ty_text(tc, ps[0].1))
    } else {
        param_types_text(tc, ps.subrange(0, ps.len() - 1)) + ", "@ + debug_quoted(ty_text(tc, ps[ps.len() - 1].1))
    }
}

/// One monomorphized function as printed: its name, its parameter types and its return
/// type.
pub open spec fn mono_text(tc: &TypeChecker, m: (FunctionId, Vec<PetrType>, crate::typed::Function)) -> Seq<char> {
    "\nfn "@ + tc.names()[m.2.name.id.0 as int] + "(["@ + param_types_text(tc, m.2.params@) + "]) -> "@ + ty_text(
        tc,
        m.2.return_ty,
    )
}

pub open spec fn monos_text(tc: &TypeChecker, ms: Seq<(FunctionId, Vec<PetrType>, crate::typed::Function)>) -> Seq<char>
    decreases ms.len(),
{
    if ms.len() == 0 {
        Seq::empty()
    } else {
        monos_text(tc, ms.subrange(0, ms.len() - 1)) + mono_text(tc, ms[ms.len() - 1])
    }
}

/// Each error as `Debug` prints it, on a line of its own.
pub open spec fn errors_text(es: Seq<(ErrorModel, Span)>) -> Seq<char>
    decreases es.len(),
{
    if es.len() == 0 {
        Seq::empty()
    } else {
        errors_text(es.subrange(0, es.len() - 1)) + spanned_error_debug(es[es.len() - 1]) + "\n"@
    }
}

/// Monomorphized function `x` comes before `y`: by the id of the function, then by when
/// it was made.
pub open spec fn mono_before(ms: Seq<(FunctionId, Vec<PetrType>, crate::typed::Function)>, x: int, y: int) -> bool {
    ms[x].0.0 < ms[y].0.0 || (ms[x].0.0 == ms[y].0.0 && x < y)
}

/// `order` lists every position of `ms` once, in increasing order of function id (and
/// of position for the same function).
pub open spec fn is_mono_order(ms: Seq<(FunctionId, Vec<PetrType>, crate::typed::Function)>, order: Seq<int>) -> bool {
    &&& order.len() == ms.len()
    &&& forall|i: int| 0 <= i < order.len() ==> 0 <= #[trigger] order[i] < ms.len()
    &&& forall|a: int, b: int| 0 <= a < b < order.len() ==> mono_before(ms, #[trigger] order[a], #[trigger] order[b])
}

/// The entries of `ms` in the order `order`.
pub open spec fn in_order(ms: Seq<(FunctionId, Vec<PetrType>, crate::typed::Function)>, order: Seq<int>) -> Seq<
    (FunctionId, Vec<PetrType>, crate::typed::Function),
> {
    Seq::new(order.len(), |i: int| ms[order[i]])
}

/// The whole result of type checking as printed: every declaration with its type (and
/// each function with its typed body), the monomorphized functions in the order `order`,
/// and the errors.
pub open spec fn checker_text(tc: &TypeChecker, order: Seq<int>) -> Seq<char> {
    entries_text(tc, tc.st.type_map@) + (if tc.st.monomorphized_functions@.len() == 0 {
        Seq::empty()
    } else {
        "__MONOMORPHIZED FUNCTIONS__"@ + monos_text(tc, in_order(tc.st.monomorphized_functions@, order))
    }) + (if tc.st.errors@.len() == 0 {
        Seq::empty()
    } else {
        "\n__ERRORS__\n"@ + errors_text(error_models(tc.st.errors@))
    })
}

/// In a list of typed functions ordered by id, an id is at one position only.
pub proof fn lemma_typed_index_unique(tc: &TypeChecker, i: int, f: FunctionId)
    requires
        tc.wf(),
        0 <= i < tc.st.typed_functions@.len(),
        tc.st.typed_functions@[i].0 == f,
    ensures
        typed_index(tc, f) == i,
{
    let j = typed_index(tc, f);
    assert(0 <= j < tc.st.typed_functions@.len() && tc.st.typed_functions@[j].0 == f);
    if j < i {
        assert(tc.st.typed_functions@[j].0.0 < tc.st.typed_functions@[i].0.0);
    } else if j > i {
        assert(tc.st.typed_functions@[i].0.0 < tc.st.typed_functions@[j].0.0);
    }
}

/// Appends the printed entry `e` of the type map to `buf`.
fn push_entry(buf: &mut String, tc: &TypeChecker, e: (TypeOrFunctionId, TypeVariable))
    requires
        tc.wf(),
        exists|i: int| 0 <= i < tc.st.type_map@.len() && tc.st.type_map@[i] == e,
    ensures
        final(buf)@ == old(buf)@ + entry_text(tc, e),
{
    let ghost start = buf@;
    let ghost k = tc.names().len();
    let ghost rank = choose|rank: Seq<nat>| crate::resolved::ranked(tc.resolved, rank);
    proof {
        let i = choose|i: int| 0 <= i < tc.st.type_map@.len() && tc.st.type_map@[i] == e;
        assert(crate::checker::map_entry_ok(tc.st.type_map@[i], tc.n(), &tc.resolved));
        assert(crate::checker::key_cached(tc.st.type_map@[i], tc.st.typed_functions@));
    }
    match e.0 {
        TypeOrFunctionId::TypeId(t) => {
            proof {
                assert(crate::resolved::type_decl_ok(tc.resolved, t.0 as int));
            }
            push_str(buf, "type ");
            push_str(buf, tc.resolved.interner.get(tc.resolved.types[t.0].name.id).as_str());
        },
        TypeOrFunctionId::FunctionId(f) => {
            proof {
                assert(crate::resolved::function_ok(tc.resolved, rank, f.0 as int));
            }
            push_str(buf, "fn ");
            push_str(buf, tc.resolved.interner.get(tc.resolved.functions[f.0].name.id).as_str());
        },
    }
    push_str(buf, ": ");
    push_ty(buf, tc, e.1);
    push_str(buf, "\n");
    let ghost mid = buf@;
    match e.0 {
        TypeOrFunctionId::FunctionId(f) => {
            let i = crate::maps::function_index(&tc.st.typed_functions, f).unwrap();
            proof {
                lemma_typed_index_unique(tc, i as int, f);
                assert(crate::checker::typed_entry_ok(tc.st.typed_functions@[i as int], tc.n(), &tc.resolved));
            }
            let body = pretty_print_typed_expr(&tc.st.typed_functions[i].1.body, tc);
            push_str(buf, body.as_str());
            push_str(buf, "\n");
        },
        TypeOrFunctionId::TypeId(_) => {},
    }
    push_str(buf, "\n");
    assert(buf@ =~= start + entry_text(tc, e));
}

/// The positions of the monomorphized functions in printing order (see [`is_mono_order`]).
pub fn mono_order(ms: &Vec<(FunctionId, Vec<PetrType>, crate::typed::Function)>) -> (r: Vec<usize>)
    ensures
        is_mono_order(ms@, Seq::new(r@.len(), |i: int| r@[i] as int)),
{
    let mut order: Vec<usize> = Vec::new();
    let mut i: usize = 0;
    while i < ms.len()
        invariant
            i <= ms@.len(),
            order@.len() == i,
            forall|a: int| 0 <= a < order@.len() ==> (#[trigger] order@[a]) < i,
            forall|a: int, b: int| 0 <= a < b < order@.len() ==> mono_before(ms@, #[trigger] order@[a] as int, #[trigger] order@[b] as int),
        decreases ms@.len() - i,
    {
        let mut p: usize = 0;
        while p < order.len() && ms[order[p]].0.0 <= ms[i].0.0
            invariant
                p <= order@.len(),
                i < ms@.len(),
                forall|a: int| 0 <= a < order@.len() ==> (#[trigger] order@[a]) < i,
                forall|a: int| 0 <= a < p ==> ms@[order@[a] as int].0.0 <= ms@[i as int].0.0,
            decreases order@.len() - p,
        {
            p += 1;
        }
        let ghost before = order@;
        order.insert(p, i);
        proof {
            assert forall|a: int, b: int| 0 <= a < b < order@.len() implies mono_before(ms@, #[trigger] order@[a] as int, #[trigger] order@[b] as int) by {
                if b < p {
                    assert(order@[a] == before[a] && order@[b] == before[b]);
                } else if b == p {
                    assert(order@[a] == before[a]);
                    assert(ms@[before[a] as int].0.0 <= ms@[i as int].0.0);
                } else if a < p {
                    assert(order@[a] == before[a] && order@[b] == before[b - 1]);
                } else if a == p {
                    assert(order@[b] == before[b - 1]);
                    if b - 1 == p {
                        assert(ms@[before[p as int] as int].0.0 > ms@[i as int].0.0);
                    } else {
                        assert(mono_before(ms@, before[p as int] as int, before[b - 1] as int));
                        assert(ms@[before[p as int] as int].0.0 > ms@[i as int].0.0);
                    }
                } else {
                    assert(order@[a] == before[a - 1] && order@[b] == before[b - 1]);
                }
            }
            assert forall|a: int| 0 <= a < order@.len() implies (#[trigger] order@[a]) < i + 1 by {
                if a < p {
                    assert(order@[a] == before[a]);
                } else if a > p {
                    assert(order@[a] == before[a - 1]);
                }
            }
        }
        i += 1;
    }
    order
}

/// The whole result of type checking as text (see [`checker_text`]): the monomorphized
/// functions come in order of function id.
pub fn pretty_print_type_checker(type_checker: TypeChecker) -> (r: String)
    requires
        type_checker.wf(),
    ensures
        exists|order: Seq<int>|
            is_mono_order(type_checker.st.monomorphized_functions@, order) && r@ == checker_text(&type_checker, order),
{
    let tc = &type_checker;
    let ghost k = tc.names().len();
    let mut s = String::new();
    let mut i: usize = 0;
    assert(tc.st.type_map@.subrange(0, 0) =~= Seq::<(TypeOrFunctionId, TypeVariable)>::empty());
    while i < tc.st.type_map.len()
        invariant
            i <= tc.st.type_map@.len(),
            tc.wf(),
            s@ == entries_text(tc, tc.st.type_map@.subrange(0, i as int)),
        decreases tc.st.type_map@.len() - i,
    {
        push_entry(&mut s, tc, tc.st.type_map[i]);
        proof {
            let pre = tc.st.type_map@.subrange(0, i + 1);
            assert(pre.subrange(0, i as int) =~= tc.st.type_map@.subrange(0, i as int));
            assert(pre[i as int] == tc.st.type_map@[i as int]);
        }
        i += 1;
    }
    assert(tc.st.type_map@.subrange(0, tc.st.type_map@.len() as int) =~= tc.st.type_map@);
    let ghost after_entries = s@;
    if tc.st.monomorphized_functions.len() > 0 {
        push_str(&mut s, "__MONOMORPHIZED FUNCTIONS__");
    }
    let ghost start = s@;
    let order = mono_order(&tc.st.monomorphized_functions);
    let ghost ord = Seq::new(order@.len(), |i: int| order@[i] as int);
    let ghost ms = in_order(tc.st.monomorphized_functions@, ord);
    let mut m: usize = 0;
    assert(ms.subrange(0, 0) =~= Seq::<(FunctionId, Vec<PetrType>, crate::typed::Function)>::empty());
    while m < order.len()
        invariant
            m <= order@.len(),
            tc.wf(),
            k == tc.names().len(),
            ord == Seq::new(order@.len(), |i: int| order@[i] as int),
            ms == in_order(tc.st.monomorphized_functions@, ord),
            is_mono_order(tc.st.monomorphized_functions@, ord),
            s@ == start + monos_text(tc, ms.subrange(0, m as int)),
        decreases order@.len() - m,
    {
        proof {
            assert(0 <= ord[m as int] < tc.st.monomorphized_functions@.len());
        }
        let func = &tc.st.monomorphized_functions[order[m]].2;
        proof {
            assert(crate::checker::mono_entry_ok(tc.st.monomorphized_functions@[order@[m as int] as int], tc.n(), k));
        }
        let ghost before = s@;
        push_str(&mut s, "\nfn ");
        push_str(&mut s, tc.resolved.interner.get(func.name.id).as_str());
        push_str(&mut s, "([");
        let ghost params_start = s@;
        let mut p: usize = 0;
        assert(func.params@.subrange(0, 0) =~= Seq::<(crate::ids::Identifier, TypeVariable)>::empty());
        while p < func.params.len()
            invariant
                p <= func.params@.len(),
                tc.wf(),
                s@ == params_start + param_types_text(tc, func.params@.subrange(0, p as int)),
            decreases func.params@.len() - p,
        {
            if p > 0 {
                push_str(&mut s, ", ");
            }
            let text = pretty_print_ty(&func.params[p].1, tc);
            push_debug_quoted(&mut s, text.as_str());
            proof {
                let pre = func.params@.subrange(0, p + 1);
                assert(pre.subrange(0, p as int) =~= func.params@.subrange(0, p as int));
                assert(pre[p as int] == func.params@[p as int]);
                if p == 0 {
                    assert(param_types_text(tc, pre) == debug_quoted(ty_text(tc, func.params@[0].1)));
                }
            }
            assert(s@ =~= params_start + param_types_text(tc, func.params@.subrange(0, p + 1)));
            p += 1;
        }
        assert(func.params@.subrange(0, func.params@.len() as int) =~= func.params@);
        push_str(&mut s, "]) -> ");
        push_ty(&mut s, tc, func.return_ty);
        proof {
            let pre = ms.subrange(0, m + 1);
            assert(pre.subrange(0, m as int) =~= ms.subrange(0, m as int));
            assert(pre[m as int] == tc.st.monomorphized_functions@[order@[m as int] as int]);
        }
        assert(s@ =~= start + monos_text(tc, ms.subrange(0, m + 1)));
        m += 1;
    }
    assert(ms.subrange(0, ms.len() as int) =~= ms);
    let ghost after_monos = s@;
    if tc.st.errors.len() > 0 {
        push_str(&mut s, "\n__ERRORS__\n");
    }
    let ghost estart = s@;
    let mut e: usize = 0;
    assert(error_models(tc.st.errors@).subrange(0, 0) =~= Seq::<(ErrorModel, Span)>::empty());
    while e < tc.st.errors.len()
        invariant
            e <= tc.st.errors@.len(),
            s@ == estart + errors_text(error_models(tc.st.errors@).subrange(0, e as int)),
        decreases tc.st.errors@.len() - e,
    {
        push_spanned_error_debug(&mut s, &tc.st.errors[e]);
        push_str(&mut s, "\n");
        proof {
            let all = error_models(tc.st.errors@);
            let pre = all.subrange(0, e + 1);
            assert(pre.subrange(0, e as int) =~= all.subrange(0, e as int));
            assert(pre[e as int] == error_model(tc.st.errors@[e as int]));
        }
        assert(s@ =~= estart + errors_text(error_models(tc.st.errors@).subrange(0, e + 1)));
        e += 1;
    }
    assert(error_models(tc.st.errors@).subrange(0, tc.st.errors@.len() as int) =~= error_models(tc.st.errors@));
    assert(s@ =~= checker_text(tc, ord));
    s
}


/// A two-operand intrinsic prints its operands in the order of the call: its name, the
/// text of the first operand, a comma and the text of the second.
pub proof fn lemma_intrinsic_operand_order(a: TypedExpr, b: TypedExpr)
    ensures
        intrinsic_debug(Intrinsic::Add(Box::new(a), Box::new(b))) == "@add("@ + typed_debug(a) + ", "@ + typed_debug(b)
            + ")"@,
        intrinsic_debug(Intrinsic::Subtract(Box::new(a), Box::new(b))) == "@subtract("@ + typed_debug(a) + ", "@
            + typed_debug(b) + ")"@,
        intrinsic_debug(Intrinsic::Multiply(Box::new(a), Box::new(b))) == "@multiply("@ + typed_debug(a) + ", "@
            + typed_debug(b) + ")"@,
        intrinsic_debug(Intrinsic::Divide(Box::new(a), Box::new(b))) == "@divide("@ + typed_debug(a) + ", "@
            + typed_debug(b) + ")"@,
        intrinsic_debug(Intrinsic::Equals(Box::new(a), Box::new(b))) == "@equal("@ + typed_debug(a) + ", "@
            + typed_debug(b) + ")"@,
{
}

/// Printing a subtraction with its operands swapped gives another text whenever the
/// operands print differently: the first operand's text comes right after the name.
pub proof fn lemma_subtract_not_symmetric(a: TypedExpr, b: TypedExpr)
    requires
        typed_debug(a) != typed_debug(b),
        typed_debug(a).len() == typed_debug(b).len(),
    ensures
        intrinsic_debug(Intrinsic::Subtract(Box::new(a), Box::new(b))) != intrinsic_debug(
            Intrinsic::Subtract(Box::new(b), Box::new(a)),
        ),
{
    reveal_strlit("@subtract(");
    let p = "@subtract("@;
    let x = intrinsic_debug(Intrinsic::Subtract(Box::new(a), Box::new(b)));
    let y = intrinsic_debug(Intrinsic::Subtract(Box::new(b), Box::new(a)));
    let da = typed_debug(a);
    let db = typed_debug(b);
    assert(!(da =~= db));
    let i = choose|i: int| 0 <= i < da.len() && da[i] != db[i];
    assert(x[p.len() + i] == da[i]);
    assert(y[p.len() + i] == db[i]);
}

} // verus!
