use petr::ast::{Intrinsic as IntrinsicName, Literal};
use petr::error::TypeConstraintError;
use petr::ids::{FunctionId, Identifier, SymbolId, SymbolInterner, TypeId};
use petr::maps::TypeOrFunctionId;
use petr::printing::{pretty_print_ty, pretty_print_type_checker};
use petr::resolved::{
    Binding, Expr, ExprKind, Function, FunctionCall, Intrinsic, QueryableResolvedItems, Type, TypeDeclaration,
    TypeField, TypeVariant,
};
use petr::type_checker::{type_check, TypeChecker};
use petr::types::{PetrType, TypeVariable};
use petr::typed::TypedExprKind;
use petr::span::{SourceId, SourceSpan, Span};

fn sp(offset: usize, length: usize) -> Span {
    Span::new(SourceId(0), SourceSpan::new(offset, length))
}

/// Interns `names` in order, so that the `i`th name gets symbol `i`.
fn interner(names: &[&str]) -> SymbolInterner {
    let mut interner = SymbolInterner::new();
    for name in names {
        interner.insert(name.to_string());
    }
    interner
}

fn ident(id: usize, offset: usize) -> Identifier {
    Identifier { id: SymbolId(id), span: sp(offset, 1) }
}

fn expr(kind: ExprKind, offset: usize, length: usize) -> Expr {
    Expr { kind, span: sp(offset, length) }
}

fn lit_int(i: i64, offset: usize) -> Expr {
    expr(ExprKind::Literal(Literal::Integer(i)), offset, 1)
}

fn lit_bool(b: bool, offset: usize) -> Expr {
    expr(ExprKind::Literal(Literal::Boolean(b)), offset, 4)
}

fn lit_str(s: &str, offset: usize) -> Expr {
    expr(ExprKind::Literal(Literal::String(s.to_string())), offset, s.len() + 2)
}

fn var(id: usize, offset: usize, ty: Type) -> Expr {
    expr(ExprKind::Variable { name: ident(id, offset), ty }, offset, 1)
}

fn call(function: usize, args: Vec<Expr>, offset: usize, length: usize) -> Expr {
    expr(ExprKind::FunctionCall(FunctionCall { function: FunctionId(function), args, span: sp(offset, length) }), offset, length)
}

fn intrinsic(name: IntrinsicName, args: Vec<Expr>, offset: usize, length: usize) -> Expr {
    expr(ExprKind::Intrinsic(Intrinsic { intrinsic: name, args }), offset, length)
}

fn function(name: usize, params: Vec<(Identifier, Type)>, return_type: Type, body: Expr) -> Function {
    Function { name: ident(name, 0), params, return_type, body }
}

fn program(names: &[&str], types: Vec<TypeDeclaration>, functions: Vec<Function>) -> QueryableResolvedItems {
    QueryableResolvedItems { types, functions, interner: interner(names) }
}

fn check(program: QueryableResolvedItems) -> String {
    pretty_print_type_checker(TypeChecker::new(program))
}

#[test]
fn identity_resolution_concrete_type() {
    // fn foo(x in 'int) returns 'int x
    let p = program(
        &["foo", "x"],
        vec![],
        vec![function(0, vec![(ident(1, 8), Type::Integer)], Type::Integer, var(1, 30, Type::Integer))],
    );
    assert_eq!(check(p), "fn foo: (int → int)\nvariable x: int\n\n");
}

#[test]
fn identity_resolution_generic() {
    // fn foo(x in 'A) returns 'A x
    let a = Type::Generic(ident(2, 13));
    let p = program(
        &["foo", "x", "A"],
        vec![],
        vec![function(0, vec![(ident(1, 8), a)], Type::Generic(ident(2, 25)), var(1, 28, Type::Generic(ident(2, 13))))],
    );
    // the generic gets slot 5 in the function's scope; the parameter, the variable and the
    // return type all refer to it
    assert_eq!(check(p), "fn foo: (t5 → t5)\nvariable x: t5\n\n");
}

#[test]
fn literal_unification_fail() {
    // fn foo() returns 'int 5
    // fn bar() returns 'bool 5
    let p = program(
        &["foo", "bar"],
        vec![],
        vec![function(0, vec![], Type::Integer, lit_int(5, 20)), function(1, vec![], Type::Bool, lit_int(5, 45))],
    );
    assert_eq!(check(p), "fn foo: int\nliteral: 5\n\nfn bar: bool\nliteral: 5\n\n");
}

#[test]
fn literal_unification_success() {
    let p = program(
        &["foo", "bar"],
        vec![],
        vec![function(0, vec![], Type::Integer, lit_int(5, 20)), function(1, vec![], Type::Bool, lit_bool(true, 45))],
    );
    assert_eq!(check(p), "fn foo: int\nliteral: 5\n\nfn bar: bool\nliteral: true\n\n");
}

#[test]
fn pass_literal_string_to_intrinsic() {
    let p = program(
        &["my_func"],
        vec![],
        vec![function(0, vec![], Type::Unit, intrinsic(IntrinsicName::Puts, vec![lit_str("test", 40)], 34, 13))],
    );
    assert_eq!(check(p), "fn my_func: unit\nintrinsic: @puts(literal: \"test\")\n\n");
}

#[test]
fn pass_wrong_type_literal_to_intrinsic() {
    let p = program(
        &["my_func"],
        vec![],
        vec![function(0, vec![], Type::Unit, intrinsic(IntrinsicName::Puts, vec![lit_bool(true, 52)], 46, 11))],
    );
    assert_eq!(
        check(p),
        "fn my_func: unit\nintrinsic: @puts(literal: true)\n\n\n__ERRORS__\n\
         SpannedItem UnificationFailure(String, Boolean) \
         [Span { source: SourceId(0), span: SourceSpan { offset: SourceOffset(52), length: 4 } }]\n"
    );
}

#[test]
fn pass_zero_arity_func_to_intrinsic() {
    // fn string_literal() returns 'string "This is a string literal."
    // fn my_func() returns 'unit @puts(~string_literal)
    let p = program(
        &["string_literal", "my_func"],
        vec![],
        vec![
            function(0, vec![], Type::String, lit_str("This is a string literal.", 40)),
            function(1, vec![], Type::Unit, intrinsic(IntrinsicName::Puts, vec![call(0, vec![], 110, 15)], 104, 22)),
        ],
    );
    assert_eq!(
        check(p),
        "fn string_literal: string\nliteral: \"This is a string literal.\"\n\n\
         fn my_func: unit\nintrinsic: @puts(function call to functionid0 with args: )\n\n\
         __MONOMORPHIZED FUNCTIONS__\nfn string_literal([]) -> string"
    );
}

#[test]
fn pass_wrong_type_fn_call_to_intrinsic() {
    let p = program(
        &["bool_literal", "my_func"],
        vec![],
        vec![
            function(0, vec![], Type::Bool, lit_bool(true, 45)),
            function(1, vec![], Type::Unit, intrinsic(IntrinsicName::Puts, vec![call(0, vec![], 110, 14)], 104, 22)),
        ],
    );
    assert_eq!(
        check(p),
        "fn bool_literal: bool\nliteral: true\n\n\
         fn my_func: unit\nintrinsic: @puts(function call to functionid0 with args: )\n\n\
         __MONOMORPHIZED FUNCTIONS__\nfn bool_literal([]) -> bool\n__ERRORS__\n\
         SpannedItem UnificationFailure(String, Boolean) \
         [Span { source: SourceId(0), span: SourceSpan { offset: SourceOffset(110), length: 14 } }]\n"
    );
}

#[test]
fn identity_resolution_custom_type() {
    // type MyType = A | B
    // fn foo(x in 'MyType) returns 'MyType x
    let my_type = TypeDeclaration {
        name: ident(0, 5),
        variants: vec![TypeVariant { name: ident(1, 14), fields: vec![] }, TypeVariant { name: ident(2, 18), fields: vec![] }],
        constant_literal_types: vec![],
    };
    let constructor = |name: usize| {
        function(name, vec![], Type::Named(TypeId(0)), expr(ExprKind::TypeConstructor(TypeId(0), vec![]), 14, 1))
    };
    let p = program(
        &["MyType", "A", "B", "foo", "x"],
        vec![my_type],
        vec![
            constructor(1),
            constructor(2),
            function(3, vec![(ident(4, 30), Type::Named(TypeId(0)))], Type::Named(TypeId(0)), var(4, 60, Type::Named(TypeId(0)))),
        ],
    );
    assert_eq!(
        check(p),
        "type MyType: MyType\n\nfn A: MyType\ntype constructor: MyType\n\nfn B: MyType\ntype constructor: MyType\n\n\
         fn foo: (MyType → MyType)\nvariable x: MyType\n\n"
    );
}

#[test]
fn type_check_reports_the_errors_of_both_runs() {
    // fn one(a in 'int) returns 'int a
    // fn main() returns 'int ~one
    let p = program(
        &["one", "a", "main"],
        vec![],
        vec![
            function(0, vec![(ident(1, 7), Type::Integer)], Type::Integer, var(1, 30, Type::Integer)),
            function(2, vec![], Type::Integer, call(0, vec![], 60, 4)),
        ],
    );
    let (errors, checker) = type_check(p);
    // the call is checked once in each of the two runs of the whole check
    assert_eq!(errors.len(), 2);
    match &errors[0].0 {
        TypeConstraintError::ArgumentCountMismatch { function, expected, got } => {
            assert_eq!(function, "one");
            assert_eq!(*expected, 1);
            assert_eq!(*got, 0);
        },
        _ => panic!("expected an argument count mismatch"),
    }
    assert_eq!(errors[0].1, sp(60, 4));
    assert_eq!(checker.errors().len(), 2);
}

#[test]
fn list_different_types_type_err() {
    // fn my_list() returns 'list [ 1, true ]
    let list = expr(ExprKind::List(vec![lit_int(1, 45), expr(ExprKind::Literal(Literal::Boolean(true)), 48, 5)]), 43, 12);
    let p = program(&["my_list", "list"], vec![], vec![function(0, vec![], Type::Generic(ident(1, 38)), list)]);
    assert_eq!(
        check(p),
        "fn my_list: t8\nlist: [literal: 1, literal: true, ]\n\n\n__ERRORS__\n\
         SpannedItem UnificationFailure(Integer, Boolean) \
         [Span { source: SourceId(0), span: SourceSpan { offset: SourceOffset(48), length: 5 } }]\n"
    );
}

#[test]
fn literals_of_one_kind_unify_into_a_sum() {
    // fn l() returns 'int [1, 2]
    let list = expr(ExprKind::List(vec![lit_int(1, 20), lit_int(2, 23)]), 19, 6);
    let p = program(&["l"], vec![], vec![function(0, vec![], Type::Integer, list)]);
    assert_eq!(check(p), "fn l: int\nlist: [literal: 1, literal: 2, ]\n\n");
}

#[test]
fn if_rejects_non_unit_missing_else() {
    // fn hi() returns 'int if true then 1
    // fn main() returns 'int ~hi()
    let body = expr(
        ExprKind::If {
            condition: Box::new(lit_bool(true, 36)),
            then_branch: Box::new(lit_int(1, 46)),
            else_branch: Box::new(expr(ExprKind::Unit, 33, 46)),
        },
        33,
        46,
    );
    let p = program(
        &["hi", "main"],
        vec![],
        vec![function(0, vec![], Type::Integer, body), function(1, vec![], Type::Integer, call(0, vec![], 100, 4))],
    );
    assert_eq!(
        check(p),
        "fn hi: int\nif literal: true then literal: 1 else unit\n\n\
         fn main: int\nfunction call to functionid0 with args: returns int\n\n\
         __MONOMORPHIZED FUNCTIONS__\nfn hi([]) -> int\nfn main([]) -> int\n\
         __ERRORS__\n\
         SpannedItem UnificationFailure(Integer, Unit) \
         [Span { source: SourceId(0), span: SourceSpan { offset: SourceOffset(33), length: 46 } }]\n"
    );
}

#[test]
fn bindings_scope_their_names() {
    // fn f() returns 'int let a = 1, b = a; b
    let body = expr(
        ExprKind::ExpressionWithBindings {
            bindings: vec![
                Binding { name: ident(1, 20), expression: lit_int(1, 24) },
                Binding { name: ident(2, 27), expression: var(1, 31, Type::Integer) },
            ],
            expression: Box::new(var(2, 34, Type::Integer)),
        },
        16,
        20,
    );
    let p = program(&["f", "a", "b"], vec![], vec![function(0, vec![], Type::Integer, body)]);
    assert_eq!(
        check(p),
        "fn f: int\na: literal: 1 (Literal Integer(1)),\nb: variable: symbolid1 (Literal Integer(1)),\n\"variable b: Literal Integer(1)\" (Literal Integer(1))\n\n"
    );
}

#[test]
fn checker_accessors() {
    let p = program(&["main"], vec![], vec![function(0, vec![], Type::Unit, expr(ExprKind::Unit, 20, 2))]);
    let mut checker = TypeChecker::new(p);
    assert_eq!(checker.unit(), TypeVariable(0));
    assert_eq!(checker.string(), TypeVariable(1));
    assert_eq!(checker.bool(), TypeVariable(2));
    assert_eq!(checker.int_ty(), TypeVariable(3));
    assert!(checker.get_main_function().is_some());
    let slot = checker.insert_type(PetrType::Integer);
    assert_eq!(pretty_print_ty(&slot, &checker), "int");
    let main_ty = checker.get_type(TypeOrFunctionId::FunctionId(FunctionId(0)));
    assert_eq!(pretty_print_ty(&main_ty, &checker), "unit");
    assert_eq!(checker.functions().len(), 1);
    assert_eq!(checker.get_symbol(SymbolId(0)), "main");
}

#[test]
fn conditional_branches_unify() {
    // fn f() returns 'int if true then 1 else 2
    let body = expr(
        ExprKind::If {
            condition: Box::new(lit_bool(true, 22)),
            then_branch: Box::new(lit_int(1, 32)),
            else_branch: Box::new(lit_int(2, 39)),
        },
        19,
        21,
    );
    let p = program(&["f"], vec![], vec![function(0, vec![], Type::Integer, body)]);
    let text = check(p);
    assert!(text.starts_with("fn f: int\nif literal: true then literal: 1 else literal: 2\n\n"));
}

#[test]
fn arithmetic_intrinsics_are_integers() {
    let body = intrinsic(IntrinsicName::Add, vec![lit_int(1, 25), lit_int(2, 28)], 20, 10);
    let p = program(&["f"], vec![], vec![function(0, vec![], Type::Integer, body)]);
    assert_eq!(check(p), "fn f: int\nintrinsic: @add(literal: 1, literal: 2)\n\n");
}

#[test]
fn user_types_with_fields() {
    // type P = point x 'int
    let decl = TypeDeclaration {
        name: ident(0, 5),
        variants: vec![TypeVariant { name: ident(1, 9), fields: vec![TypeField { name: ident(2, 15), ty: Type::Integer }] }],
        constant_literal_types: vec![],
    };
    let ctor = function(
        1,
        vec![(ident(2, 15), Type::Integer)],
        Type::Named(TypeId(0)),
        expr(ExprKind::TypeConstructor(TypeId(0), vec![var(2, 15, Type::Integer)]), 9, 10),
    );
    let p = program(&["P", "point", "x"], vec![decl], vec![ctor]);
    assert_eq!(check(p), "type P: P\n\nfn point: (int → P)\ntype constructor: P\n\n");
}

#[test]
fn monomorphized_functions_point_parameters_at_new_slots() {
    // fn foo(x in 'A) returns 'A x
    // fn bar() returns 'int ~foo(5)
    let a = Type::Generic(ident(2, 13));
    let p = program(
        &["foo", "x", "A", "bar"],
        vec![],
        vec![
            function(0, vec![(ident(1, 8), a)], Type::Generic(ident(2, 25)), var(1, 28, Type::Generic(ident(2, 13)))),
            function(3, vec![], Type::Integer, call(0, vec![lit_int(5, 60)], 55, 7)),
        ],
    );
    let mut checker = TypeChecker::new(p);
    let generic = checker.get_function(&FunctionId(0));
    let mono = checker.get_monomorphized_function(&(FunctionId(0), vec![PetrType::Literal(Literal::Integer(5))]));
    // the parameter keeps its name and gets a slot of its own holding the argument's type
    assert_eq!(mono.params.len(), 1);
    assert_eq!(mono.params[0].0, generic.params[0].0);
    assert!(mono.params[0].1 != generic.params[0].1);
    assert_eq!(pretty_print_ty(&mono.params[0].1, &checker), "Literal Integer(5)");
    // the body's variable now points at that slot; the return type is kept
    match &mono.body.kind {
        TypedExprKind::Variable { ty, name } => {
            assert_eq!(*ty, mono.params[0].1);
            assert_eq!(name.id, SymbolId(1));
        },
        _ => panic!("the body of foo is a variable"),
    }
    assert_eq!(mono.return_ty, generic.return_ty);
}

#[test]
fn intrinsic_and_return_ty_dont_match() {
    // fn my_func() returns 'bool @puts("test")
    let p = program(
        &["my_func"],
        vec![],
        vec![function(0, vec![], Type::Bool, intrinsic(IntrinsicName::Puts, vec![lit_str("test", 46)], 40, 13))],
    );
    assert_eq!(check(p), "fn my_func: bool\nintrinsic: @puts(literal: \"test\")\n\n");
}

#[test]
fn incorrect_number_of_args() {
    // fn add(a in 'int, b in 'int) returns 'int a
    // fn add_five(a in 'int) returns 'int ~add(5)
    let p = program(
        &["add", "a", "b", "add_five"],
        vec![],
        vec![
            function(0, vec![(ident(1, 24), Type::Integer), (ident(2, 34), Type::Integer)], Type::Integer, var(1, 59, Type::Integer)),
            function(3, vec![(ident(1, 90), Type::Integer)], Type::Integer, call(0, vec![lit_int(5, 118)], 113, 8)),
        ],
    );
    assert_eq!(
        check(p),
        "fn add: (int → int → int)\nvariable a: int\n\n\
         fn add_five: (int → int)\n\
         error recovery Span { source: SourceId(0), span: SourceSpan { offset: SourceOffset(113), length: 8 } }\n\n\n\
         __ERRORS__\n\
         SpannedItem ArgumentCountMismatch { function: \"add\", expected: 2, got: 1 } \
         [Span { source: SourceId(0), span: SourceSpan { offset: SourceOffset(113), length: 8 } }]\n"
    );
}

#[test]
fn disallow_incorrect_constant_int() {
    // type OneOrTwo = 1 | 2
    // fn main() returns 'OneOrTwo ~OneOrTwo 10
    let decl = TypeDeclaration {
        name: ident(0, 18),
        variants: vec![],
        constant_literal_types: vec![Literal::Integer(1), Literal::Integer(2)],
    };
    let one_or_two = || Type::Sum(vec![Type::Literal(Literal::Integer(1)), Type::Literal(Literal::Integer(2))]);
    let ctor = function(
        0,
        vec![(ident(0, 18), one_or_two())],
        Type::Named(TypeId(0)),
        expr(ExprKind::TypeConstructor(TypeId(0), vec![var(0, 18, one_or_two())]), 18, 8),
    );
    let main = function(1, vec![], Type::Named(TypeId(0)), call(0, vec![expr(ExprKind::Literal(Literal::Integer(10)), 104, 0)], 94, 12));
    let p = program(&["OneOrTwo", "main"], vec![decl], vec![ctor, main]);
    assert_eq!(
        check(p),
        "type OneOrTwo: OneOrTwo\n\n\
         fn OneOrTwo: ((Literal Integer(1) | Literal Integer(2)) → OneOrTwo)\ntype constructor: OneOrTwo\n\n\
         fn main: OneOrTwo\nfunction call to functionid0 with args: OneOrTwo: Literal Integer(10), returns OneOrTwo\n\n\
         __MONOMORPHIZED FUNCTIONS__\nfn OneOrTwo([\"Literal Integer(10)\"]) -> OneOrTwo\nfn main([]) -> OneOrTwo\n\
         __ERRORS__\n\
         SpannedItem FailedToSatisfy(\"Literal Integer(10)\", \"(Literal Integer(1) | Literal Integer(2))\") \
         [Span { source: SourceId(0), span: SourceSpan { offset: SourceOffset(104), length: 0 } }]\n"
    );
}

/// A program with a type made of the constants `lits`, named by symbol 0, whose
/// constructor `main` (symbol 1) calls with `arg`, written at `offset` with no length.
fn constant_type_program(name: &str, lits: fn() -> Vec<Literal>, arg: Literal, offset: usize) -> QueryableResolvedItems {
    let decl = TypeDeclaration { name: ident(0, 18), variants: vec![], constant_literal_types: lits() };
    let sum = || Type::Sum(lits().into_iter().map(Type::Literal).collect());
    let ctor = function(
        0,
        vec![(ident(0, 18), sum())],
        Type::Named(TypeId(0)),
        expr(ExprKind::TypeConstructor(TypeId(0), vec![var(0, 18, sum())]), 18, 8),
    );
    let main = function(1, vec![], Type::Named(TypeId(0)), call(0, vec![expr(ExprKind::Literal(arg), offset, 0)], 90, 12));
    program(&[name, "main"], vec![decl], vec![ctor, main])
}

#[test]
fn disallow_incorrect_constant_string() {
    // type AOrB = "A" | "B"
    // fn main() returns 'AOrB ~AOrB "c"
    let lits = || vec![Literal::String("A".to_string()), Literal::String("B".to_string())];
    let p = constant_type_program("AOrB", lits, Literal::String("c".to_string()), 97);
    assert_eq!(
        check(p),
        "type AOrB: AOrB\n\n\
         fn AOrB: ((Literal String(\"A\") | Literal String(\"B\")) → AOrB)\ntype constructor: AOrB\n\n\
         fn main: AOrB\nfunction call to functionid0 with args: AOrB: Literal String(\"c\"), returns AOrB\n\n\
         __MONOMORPHIZED FUNCTIONS__\nfn AOrB([\"Literal String(\\\"c\\\")\"]) -> AOrB\nfn main([]) -> AOrB\n\
         __ERRORS__\n\
         SpannedItem FailedToSatisfy(\"Literal String(\\\"c\\\")\", \"(Literal String(\\\"A\\\") | Literal String(\\\"B\\\"))\") \
         [Span { source: SourceId(0), span: SourceSpan { offset: SourceOffset(97), length: 0 } }]\n"
    );
}

#[test]
fn disallow_incorrect_constant_bool() {
    // type AlwaysTrue = true
    // fn main() returns 'AlwaysTrue ~AlwaysTrue false
    let p = constant_type_program("AlwaysTrue", || vec![Literal::Boolean(true)], Literal::Boolean(false), 100);
    assert_eq!(
        check(p),
        "type AlwaysTrue: AlwaysTrue\n\n\
         fn AlwaysTrue: ((Literal Boolean(true)) → AlwaysTrue)\ntype constructor: AlwaysTrue\n\n\
         fn main: AlwaysTrue\nfunction call to functionid0 with args: AlwaysTrue: Literal Boolean(false), returns AlwaysTrue\n\n\
         __MONOMORPHIZED FUNCTIONS__\nfn AlwaysTrue([\"Literal Boolean(false)\"]) -> AlwaysTrue\nfn main([]) -> AlwaysTrue\n\
         __ERRORS__\n\
         SpannedItem FailedToSatisfy(\"Literal Boolean(false)\", \"(Literal Boolean(true))\") \
         [Span { source: SourceId(0), span: SourceSpan { offset: SourceOffset(100), length: 0 } }]\n"
    );
}

#[test]
fn if_allows_unit_missing_else() {
    // fn hi() returns 'unit if true then @puts "hi"
    // fn main() returns 'unit ~hi()
    let body = expr(
        ExprKind::If {
            condition: Box::new(lit_bool(true, 36)),
            then_branch: Box::new(intrinsic(IntrinsicName::Puts, vec![lit_str("hi", 52)], 46, 10)),
            else_branch: Box::new(expr(ExprKind::Unit, 33, 23)),
        },
        33,
        23,
    );
    let p = program(
        &["hi", "main"],
        vec![],
        vec![function(0, vec![], Type::Unit, body), function(1, vec![], Type::Unit, call(0, vec![], 90, 4))],
    );
    assert_eq!(
        check(p),
        "fn hi: unit\nif literal: true then intrinsic: @puts(literal: \"hi\") else unit\n\n\
         fn main: unit\nfunction call to functionid0 with args: returns unit\n\n\
         __MONOMORPHIZED FUNCTIONS__\nfn hi([]) -> unit\nfn main([]) -> unit"
    );
}

#[test]
fn satisfies_changes_only_the_end_of_the_reference_chain() {
    let mut ctx = petr::context::TypeContext::new();
    let int_slot = ctx.insert(PetrType::Integer);
    let var = ctx.new_variable(sp(3, 1));
    let reference = ctx.insert(PetrType::Ref(var));
    let first = ctx.insert(PetrType::Ref(int_slot));
    let mut errors = Vec::new();
    petr::unify::apply_satisfies(&mut ctx, &mut errors, &SymbolInterner::new(), first, reference, sp(0, 1));
    // the chain from the first slot is kept
    assert!(matches!(ctx.get(first), PetrType::Ref(t) if *t == int_slot));
    assert!(errors.is_empty());
    assert!(matches!(ctx.get(TypeVariable(0)), PetrType::Unit));
    assert!(matches!(ctx.get(TypeVariable(1)), PetrType::String));
    assert!(matches!(ctx.get(TypeVariable(2)), PetrType::Boolean));
    assert!(matches!(ctx.get(TypeVariable(3)), PetrType::Integer));
    assert!(matches!(ctx.get(TypeVariable(4)), PetrType::ErrorRecovery));
    assert!(matches!(ctx.get(int_slot), PetrType::Integer));
    assert!(matches!(ctx.get(reference), PetrType::Ref(t) if *t == var));
    assert!(matches!(ctx.get(var), PetrType::Ref(t) if *t == int_slot));
}

#[test]
fn identity_resolution_two_custom_types() {
    // type MyType = A | B
    // type MyComposedType = firstVariant someField 'MyType
    //     | secondVariant someField 'int someField2 'MyType someField3 'GenericType
    // fn foo(x in 'MyType) returns 'MyComposedType ~firstVariant(x)
    let names = [
        "MyType", "A", "B", "MyComposedType", "firstVariant", "someField", "secondVariant", "someField2", "someField3",
        "GenericType", "foo", "x",
    ];
    let my_type = TypeDeclaration {
        name: ident(0, 18),
        variants: vec![TypeVariant { name: ident(1, 27), fields: vec![] }, TypeVariant { name: ident(2, 31), fields: vec![] }],
        constant_literal_types: vec![],
    };
    let composed = TypeDeclaration {
        name: ident(3, 50),
        variants: vec![
            TypeVariant { name: ident(4, 67), fields: vec![TypeField { name: ident(5, 80), ty: Type::Named(TypeId(0)) }] },
            TypeVariant {
                name: ident(6, 100),
                fields: vec![
                    TypeField { name: ident(5, 114), ty: Type::Integer },
                    TypeField { name: ident(7, 129), ty: Type::Named(TypeId(0)) },
                    TypeField { name: ident(8, 148), ty: Type::Generic(ident(9, 159)) },
                ],
            },
        ],
        constant_literal_types: vec![],
    };
    // each variant's constructor builds its type from its parameters
    let ctor = |name: usize, params: Vec<(Identifier, Type)>, ty: usize, offset: usize| {
        function(name, params, Type::Named(TypeId(ty)), expr(ExprKind::TypeConstructor(TypeId(ty), vec![]), offset, 1))
    };
    let p = program(
        &names,
        vec![my_type, composed],
        vec![
            ctor(1, vec![], 0, 27),
            ctor(2, vec![], 0, 31),
            ctor(4, vec![(ident(5, 80), Type::Named(TypeId(0)))], 1, 67),
            ctor(
                6,
                vec![
                    (ident(5, 114), Type::Integer),
                    (ident(7, 129), Type::Named(TypeId(0))),
                    (ident(8, 148), Type::Generic(ident(9, 159))),
                ],
                1,
                100,
            ),
            function(
                10,
                vec![(ident(11, 190), Type::Named(TypeId(0)))],
                Type::Named(TypeId(1)),
                call(2, vec![var(11, 237, Type::Named(TypeId(0)))], 223, 16),
            ),
        ],
    );
    assert_eq!(
        check(p),
        "type MyType: MyType\n\ntype MyComposedType: MyComposedType\n\n\
         fn A: MyType\ntype constructor: MyType\n\nfn B: MyType\ntype constructor: MyType\n\n\
         fn firstVariant: (MyType → MyComposedType)\ntype constructor: MyComposedType\n\n\
         fn secondVariant: (int → MyType → t19 → MyComposedType)\ntype constructor: MyComposedType\n\n\
         fn foo: (MyType → MyComposedType)\nfunction call to functionid2 with args: someField: MyType, returns MyComposedType\n\n\
         __MONOMORPHIZED FUNCTIONS__\nfn firstVariant([\"MyType\"]) -> MyComposedType"
    );
}
