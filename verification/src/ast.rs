//! The syntax tree that the parser produces.
use vstd::prelude::*;
use crate::ids::{Identifier, Path, SymbolId, TypeId};
use crate::span::{Span, SpannedItem};
use crate::text::{debug_quoted, int_text, nat_text, owned, push_debug_quoted, push_i64, push_str, push_usize};

verus! {

/// The text that names a symbol id in debug output: `symbolid` and the index.
pub open spec fn symbol_id_text(id: SymbolId) -> Seq<char> {
    "symbolid"@ + nat_text(id.0 as nat)
}

/// Appends the debug name of a symbol id to `buf`.
pub fn push_symbol_id(buf: &mut String, id: SymbolId)
    ensures
        final(buf)@ == old(buf)@ + symbol_id_text(id),
{
    push_str(buf, "symbolid");
    push_usize(buf, id.0);
    assert(final(buf)@ =~= old(buf)@ + symbol_id_text(id));
}

/// An item together with the comments written in front of it.
pub struct Commented<T>(pub T, pub Vec<Comment>);

impl<T> Commented<T> {
    pub fn item(&self) -> (r: &T)
        ensures
            *r == self.0,
    {
        &self.0
    }

    pub fn comments(&self) -> (r: &Vec<Comment>)
        ensures
            *r == self.1,
    {
        &self.1
    }
}

/// A parsed program: its modules, one per source file.
pub struct Ast {
    pub modules: Vec<Module>,
}

pub struct Module {
    pub name: Path,
    pub nodes: Vec<SpannedItem<AstNode>>,
}

impl Module {
    /// A one-character span at the start of the first item of the module.
    pub fn span_pointing_to_beginning_of_module(&self) -> (r: Span)
        requires
            self.nodes@.len() > 0,
        ensures
            r.source == self.nodes@[0].1.source,
            r.span.offset == self.nodes@[0].1.span.offset,
            r.span.length == 1,
    {
        let first = &self.nodes[0];
        let span = first.span();
        // make this span just point to a single character
        Span::new(span.source, crate::span::SourceSpan::new(span.span.offset, 1))
    }
}

impl Ast {
    pub fn new(nodes: Vec<Module>) -> (r: Ast)
        ensures
            r.modules == nodes,
    {
        Ast { modules: nodes }
    }

    /// A one-character span at the start of the first item of the first module.
    pub fn span_pointing_to_beginning_of_ast(&self) -> (r: Span)
        requires
            self.modules@.len() > 0,
            self.modules@[0].nodes@.len() > 0,
        ensures
            r.source == self.modules@[0].nodes@[0].1.source,
            r.span.offset == self.modules@[0].nodes@[0].1.span.offset,
            r.span.length == 1,
    {
        let first = &self.modules[0];
        first.span_pointing_to_beginning_of_module()
    }

    /// The outline that `Debug` prints for a syntax tree: each module with its path,
    /// and one line for each function, type and import in it.
    pub fn debug_string(&self) -> (r: String)
        ensures
            r@ == ast_outline(self),
    {
        proof { reveal_strlit("AST\n"); }
        let mut buf = owned("AST\n");
        let mut i: usize = 0;
        while i < self.modules.len()
            invariant
                i <= self.modules@.len(),
                buf@ == "AST\n"@ + modules_outline(self.modules@.subrange(0, i as int)),
            decreases self.modules@.len() - i,
        {
            let ghost before = buf@;
            let module = &self.modules[i];
            push_str(&mut buf, "Module: ");
            push_path(&mut buf, &module.name);
            push_str(&mut buf, "\n");
            let mut j: usize = 0;
            let ghost head = buf@;
            while j < module.nodes.len()
                invariant
                    j <= module.nodes@.len(),
                    buf@ == head + nodes_outline(module.nodes@.subrange(0, j as int)),
                decreases module.nodes@.len() - j,
            {
                let ghost before_node = buf@;
                match module.nodes[j].item() {
                    AstNode::FunctionDeclaration(fun) => {
                        push_str(&mut buf, "  Function: ");
                        push_symbol_id(&mut buf, fun.item().name.id);
                    },
                    AstNode::TypeDeclaration(ty) => {
                        push_str(&mut buf, "  Type: ");
                        push_symbol_id(&mut buf, ty.item().name.id);
                    },
                    AstNode::ImportStatement(imp) => {
                        push_str(&mut buf, "  Import: ");
                        push_path(&mut buf, &imp.item().path);
                    },
                }
                push_str(&mut buf, "\n");
                assert(module.nodes@.subrange(0, j + 1).drop_last() =~= module.nodes@.subrange(
                    0,
                    j as int,
                ));
                assert(buf@ =~= head + nodes_outline(module.nodes@.subrange(0, j + 1)));
                j += 1;
            }
            assert(module.nodes@.subrange(0, j as int) =~= module.nodes@);
            assert(self.modules@.subrange(0, i + 1).drop_last() =~= self.modules@.subrange(
                0,
                i as int,
            ));
            assert(buf@ =~= "AST\n"@ + modules_outline(self.modules@.subrange(0, i + 1)));
            i += 1;
        }
        assert(self.modules@.subrange(0, i as int) =~= self.modules@);
        buf
    }
}

/// The identifiers of a path, joined by dots.
pub open spec fn path_text(ids: Seq<Identifier>) -> Seq<char>
    decreases ids.len(),
{
    if ids.len() == 0 {
        Seq::empty()
    } else if ids.len() == 1 {
        symbol_id_text(ids[0].id)
    } else {
        path_text(ids.drop_last()) + "."@ + symbol_id_text(ids.last().id)
    }
}

/// Appends the dotted text of a path to `buf`.
pub fn push_path(buf: &mut String, path: &Path)
    ensures
        final(buf)@ == old(buf)@ + path_text(path.identifiers@),
{
    let ids = &path.identifiers;
    let mut i: usize = 0;
    let ghost start = buf@;
    while i < ids.len()
        invariant
            i <= ids@.len(),
            buf@ == start + path_text(ids@.subrange(0, i as int)),
        decreases ids@.len() - i,
    {
        if i > 0 {
            push_str(buf, ".");
        }
        push_symbol_id(buf, ids[i].id);
        assert(ids@.subrange(0, i + 1).drop_last() =~= ids@.subrange(0, i as int));
        if i == 0 {
            assert(path_text(ids@.subrange(0, 1)) == symbol_id_text(ids@[0].id));
        }
        assert(buf@ =~= start + path_text(ids@.subrange(0, i + 1)));
        i += 1;
    }
    assert(ids@.subrange(0, i as int) =~= ids@);
}

/// The outline line of one item of a module.
pub open spec fn node_outline(node: AstNode) -> Seq<char> {
    match node {
        AstNode::FunctionDeclaration(f) => "  Function: "@ + symbol_id_text(f.0.name.id) + "\n"@,
        AstNode::TypeDeclaration(t) => "  Type: "@ + symbol_id_text(t.0.name.id) + "\n"@,
        AstNode::ImportStatement(i) => "  Import: "@ + path_text(i.0.path.identifiers@) + "\n"@,
    }
}

pub open spec fn nodes_outline(nodes: Seq<SpannedItem<AstNode>>) -> Seq<char>
    decreases nodes.len(),
{
    if nodes.len() == 0 {
        Seq::empty()
    } else {
        nodes_outline(nodes.drop_last()) + node_outline(nodes.last().0)
    }
}

pub open spec fn modules_outline(modules: Seq<Module>) -> Seq<char>
    decreases modules.len(),
{
    if modules.len() == 0 {
        Seq::empty()
    } else {
        modules_outline(modules.drop_last()) + "Module: "@ + path_text(
            modules.last().name.identifiers@,
        ) + "\n"@ + nodes_outline(modules.last().nodes@)
    }
}

/// The whole outline of a syntax tree.
pub open spec fn ast_outline(ast: &Ast) -> Seq<char> {
    "AST\n"@ + modules_outline(ast.modules@)
}

pub enum AstNode {
    FunctionDeclaration(Commented<FunctionDeclaration>),
    TypeDeclaration(Commented<TypeDeclaration>),
    ImportStatement(Commented<ImportStatement>),
}

pub struct ImportStatement {
    pub path: Path,
    pub alias: Option<Identifier>,
    pub visibility: Visibility,
}

impl ImportStatement {
    pub fn is_exported(&self) -> (r: bool)
        ensures
            r == (self.visibility == Visibility::Exported),
    {
        self.visibility == Visibility::Exported
    }
}

pub struct TypeDeclaration {
    pub name: Identifier,
    pub variants: Vec<SpannedItem<TypeVariant>>,
    pub visibility: Visibility,
}

impl TypeDeclaration {
    pub fn is_exported(&self) -> (r: bool)
        ensures
            r == (self.visibility == Visibility::Exported),
    {
        self.visibility == Visibility::Exported
    }
}

#[derive(Debug, Clone, Copy, PartialEq, Eq, Structural)]
pub enum Visibility {
    Local,
    Exported,
}

pub struct TypeVariant {
    pub name: Identifier,
    pub fields: Vec<SpannedItem<TypeField>>,
}

pub struct TypeField {
    pub name: Identifier,
    pub ty: Ty,
}

pub struct FunctionDeclaration {
    pub name: Identifier,
    pub parameters: Vec<FunctionParameter>,
    pub return_type: Ty,
    pub body: SpannedItem<Expression>,
    pub visibility: Visibility,
}

impl FunctionDeclaration {
    pub fn is_exported(&self) -> (r: bool)
        ensures
            r == (self.visibility == Visibility::Exported),
    {
        self.visibility == Visibility::Exported
    }
}

pub enum Expression {
    Literal(Literal),
    List(List),
    Operator(Box<OperatorExpression>),
    FunctionCall(FunctionCall),
    Variable(Identifier),
    IntrinsicCall(IntrinsicCall),
    Binding(ExpressionWithBindings),
    TypeConstructor(TypeId, Vec<SpannedItem<Expression>>),
    If(If),
}

pub struct ExpressionWithBindings {
    pub bindings: Vec<Binding>,
    pub expression: Box<SpannedItem<Expression>>,
    pub expr_id: ExprId,
}

/// Names an expression that opens a scope.
#[derive(Clone, Debug, Eq, PartialEq, Copy, Structural)]
pub struct ExprId(pub usize);

pub struct Binding {
    pub name: Identifier,
    pub val: SpannedItem<Expression>,
}

pub struct If {
    pub condition: Box<SpannedItem<Expression>>,
    pub then_branch: Box<SpannedItem<Expression>>,
    pub else_branch: Option<Box<SpannedItem<Expression>>>,
}

pub struct IntrinsicCall {
    pub intrinsic: Intrinsic,
    pub args: Vec<SpannedItem<Expression>>,
}

/// The built-in operations of the language.
#[derive(Clone, Copy, Debug, PartialEq, Eq, Structural)]
pub enum Intrinsic {
    /// intrinsic for `libc` puts
    Puts,
    Add,
    Subtract,
    Multiply,
    Divide,
    Malloc,
    SizeOf,
    Equals,
}

/// The name under which an intrinsic is written after `@`.
pub open spec fn intrinsic_name(i: Intrinsic) -> Seq<char> {
    match i {
        Intrinsic::Puts => "puts"@,
        Intrinsic::Add => "add"@,
        Intrinsic::Subtract => "subtract"@,
        Intrinsic::Multiply => "multiply"@,
        Intrinsic::Divide => "divide"@,
        Intrinsic::Malloc => "malloc"@,
        Intrinsic::SizeOf => "size_of"@,
        Intrinsic::Equals => "equals"@,
    }
}

impl Intrinsic {
    /// The name under which the intrinsic is written after `@`.
    pub fn to_display_string(&self) -> (r: String)
        ensures
            r@ == intrinsic_name(*self),
    {
        match self {
            Intrinsic::Puts => owned("puts"),
            Intrinsic::Add => owned("add"),
            Intrinsic::Subtract => owned("subtract"),
            Intrinsic::Multiply => owned("multiply"),
            Intrinsic::Divide => owned("divide"),
            Intrinsic::Malloc => owned("malloc"),
            Intrinsic::SizeOf => owned("size_of"),
            Intrinsic::Equals => owned("equals"),
        }
    }
}

pub struct FunctionCall {
    pub func_name: Path,
    pub args: Vec<SpannedItem<Expression>>,
    /// used for the formatter, primarily
    pub args_were_parenthesized: bool,
}

pub struct VariableExpression {
    pub name: Identifier,
}

pub struct List {
    pub elements: Vec<Commented<SpannedItem<Expression>>>,
}

/// A constant written in the source.
pub enum Literal {
    Integer(i64),
    Boolean(bool),
    String(String),
}

/// The value of a literal, with the text of a string literal as a sequence of characters.
pub enum LiteralModel {
    Integer(i64),
    Boolean(bool),
    String(Seq<char>),
}

impl View for Literal {
    type V = LiteralModel;

    open spec fn view(&self) -> LiteralModel {
        match self {
            Literal::Integer(i) => LiteralModel::Integer(*i),
            Literal::Boolean(b) => LiteralModel::Boolean(*b),
            Literal::String(s) => LiteralModel::String(s@),
        }
    }
}

/// The text of `true` or `false`.
pub open spec fn bool_text(b: bool) -> Seq<char> {
    if b {
        "true"@
    } else {
        "false"@
    }
}

/// How a literal is displayed: integers in decimal, booleans as words, strings in quotes.
pub open spec fn literal_display(l: LiteralModel) -> Seq<char> {
    match l {
        LiteralModel::Integer(i) => int_text(i as int),
        LiteralModel::Boolean(b) => bool_text(b),
        LiteralModel::String(s) => "\""@ + s + "\""@,
    }
}

/// How `Debug` prints a literal: the variant name with its value in brackets.
pub open spec fn literal_debug(l: LiteralModel) -> Seq<char> {
    match l {
        LiteralModel::Integer(i) => "Integer("@ + int_text(i as int) + ")"@,
        LiteralModel::Boolean(b) => "Boolean("@ + bool_text(b) + ")"@,
        LiteralModel::String(s) => "String("@ + debug_quoted(s) + ")"@,
    }
}

/// Appends the text of `true` or `false` to `buf`.
pub fn push_bool(buf: &mut String, b: bool)
    ensures
        final(buf)@ == old(buf)@ + bool_text(b),
{
    if b {
        push_str(buf, "true");
    } else {
        push_str(buf, "false");
    }
}

impl Literal {
    /// An equal copy of the literal.
    pub fn copy(&self) -> (r: Literal)
        ensures
            r@ == self@,
    {
        match self {
            Literal::Integer(i) => Literal::Integer(*i),
            Literal::Boolean(b) => Literal::Boolean(*b),
            Literal::String(s) => Literal::String(s.clone()),
        }
    }

    /// Whether two literals are the same constant.
    pub fn equals(&self, other: &Literal) -> (r: bool)
        ensures
            r == (self@ == other@),
    {
        match (self, other) {
            (Literal::Integer(a), Literal::Integer(b)) => *a == *b,
            (Literal::Boolean(a), Literal::Boolean(b)) => *a == *b,
            (Literal::String(a), Literal::String(b)) => *a == *b,
            _ => false,
        }
    }

    /// Appends how the literal is displayed to `buf`.
    pub fn push_display(&self, buf: &mut String)
        ensures
            final(buf)@ == old(buf)@ + literal_display(self@),
    {
        match self {
            Literal::Integer(i) => push_i64(buf, *i),
            Literal::Boolean(b) => push_bool(buf, *b),
            Literal::String(s) => {
                push_str(buf, "\"");
                push_str(buf, s.as_str());
                push_str(buf, "\"");
                assert(final(buf)@ =~= old(buf)@ + literal_display(self@));
            },
        }
    }

    /// How the literal is displayed.
    pub fn to_display_string(&self) -> (r: String)
        ensures
            r@ == literal_display(self@),
    {
        let mut buf = String::new();
        self.push_display(&mut buf);
        assert(buf@ =~= literal_display(self@));
        buf
    }

    /// Appends how `Debug` prints the literal to `buf`.
    pub fn push_debug(&self, buf: &mut String)
        ensures
            final(buf)@ == old(buf)@ + literal_debug(self@),
    {
        match self {
            Literal::Integer(i) => {
                push_str(buf, "Integer(");
                push_i64(buf, *i);
            },
            Literal::Boolean(b) => {
                push_str(buf, "Boolean(");
                push_bool(buf, *b);
            },
            Literal::String(s) => {
                push_str(buf, "String(");
                push_debug_quoted(buf, s.as_str());
            },
        }
        push_str(buf, ")");
        assert(final(buf)@ =~= old(buf)@ + literal_debug(self@));
    }
}

pub struct OperatorExpression {
    pub lhs: SpannedItem<Expression>,
    pub rhs: SpannedItem<Expression>,
    pub op: SpannedItem<Operator>,
}

#[derive(Clone, Debug, Copy)]
pub struct FunctionParameter {
    pub name: Identifier,
    pub ty: Ty,
}

#[derive(Clone, Copy, Debug, PartialEq, Eq, Structural)]
pub enum Ty {
    Int,
    Bool,
    Named(Identifier),
    String,
    Unit,
}

#[derive(Clone, Copy, Debug, PartialEq, Eq, Structural)]
pub enum Operator {
    Plus,
    Minus,
    Star,
    Slash,
}

/// The symbol that writes an operator.
pub open spec fn operator_symbol(op: Operator) -> Seq<char> {
    match op {
        Operator::Plus => "+"@,
        Operator::Minus => "-"@,
        Operator::Star => "*"@,
        Operator::Slash => "/"@,
    }
}

impl Operator {
    pub fn as_str(&self) -> (r: &'static str)
        ensures
            r@ == operator_symbol(*self),
    {
        match self {
            Operator::Plus => "+",
            Operator::Minus => "-",
            Operator::Star => "*",
            Operator::Slash => "/",
        }
    }
}

/// The text of a comment.
pub struct Comment {
    pub content: String,
}

impl Comment {
    pub fn new(item: &str) -> (r: Comment)
        ensures
            r.content@ == item@,
    {
        Comment { content: owned(item) }
    }
}

} // verus!
