//! Abstract syntax tree of Vibelang sources.

use vstd::prelude::*;
use crate::error::Span;

verus! {

#[derive(Debug, PartialEq)]
pub struct Param {
    pub name: String,
    pub name_span: Span,
    /// `true` for `_: T` parameters (name is `"_"`).
    pub is_wildcard: bool,
    /// `true` when declared as `params name: [T]`.
    pub is_params: bool,
    pub ty: TypeExpr,
    /// Optional default value expression, evaluated at call time.
    pub default_value: Option<Box<AstNode>>,
}

#[derive(Debug, Clone, PartialEq, Eq)]
pub struct ExtensionReceiver {
    pub ty: TypeExpr,
    pub method_name: String,
}

/// Generic parameter in declarations: `T` or `T = SomeType`.
#[derive(Debug, Clone, PartialEq, Eq)]
pub struct GenericParam {
    pub name: String,
    pub name_span: Span,
    pub default: Option<TypeExpr>,
}

impl GenericParam {
    /// The names of `params`, in order.
    pub fn names(params: &[GenericParam]) -> (r: Vec<String>)
        ensures
            r@.len() == params@.len(),
            forall|i: int| 0 <= i < params@.len() ==> #[trigger] r@[i]@ == params@[i].name@,
    {
        let mut out: Vec<String> = Vec::new();
        let mut i: usize = 0;
        while i < params.len()
            invariant
                i <= params@.len(),
                out@.len() == i,
                forall|j: int| 0 <= j < i ==> #[trigger] out@[j]@ == params@[j].name@,
            decreases params@.len() - i,
        {
            out.push(params[i].name.clone());
            i += 1;
        }
        out
    }
}

/// Type syntax: `Int`, `()`, `(Int, String)`, `[Int]`, nested combinations.
#[derive(Debug, PartialEq, Eq)]
pub enum TypeExpr {
    Named(String),
    /// Generic application: `Option<Int>`, `Result<String, Int>`.
    EnumApp { name: String, args: Vec<TypeExpr> },
    /// `_` placeholder in type argument lists.
    Infer,
    Unit,
    Tuple(Vec<TypeExpr>),
    Array(Box<TypeExpr>),
    /// Function type: `(A, b: B = ...) => R`.
    Function { params: Vec<FunctionTypeParam>, ret: Box<TypeExpr> },
    /// Type parameter in a type position (e.g. `[type T]`).
    TypeParam(String),
}

#[derive(Debug, PartialEq, Eq)]
pub struct FunctionTypeParam {
    pub name: Option<String>,
    pub ty: TypeExpr,
    /// The parameter has a default value in the type annotation.
    pub has_default: bool,
}

/// A type expression as plain values: names as character sequences, parts as sequences.
pub enum TypeShape {
    Named(Seq<char>),
    EnumApp(Seq<char>, Seq<TypeShape>),
    Infer,
    Unit,
    Tuple(Seq<TypeShape>),
    Array(Box<TypeShape>),
    /// Parameters (name, type, whether it has a default) and the result type.
    Function(Seq<(Option<Seq<char>>, TypeShape, bool)>, Box<TypeShape>),
    TypeParam(Seq<char>),
}

/// The shape of a type expression.
pub open spec fn shape_of(t: TypeExpr) -> TypeShape
    decreases t, 0nat,
{
    match t {
        TypeExpr::Named(n) => TypeShape::Named(n@),
        TypeExpr::EnumApp { name, args } => TypeShape::EnumApp(name@, shapes_of(args@)),
        TypeExpr::Infer => TypeShape::Infer,
        TypeExpr::Unit => TypeShape::Unit,
        TypeExpr::Tuple(parts) => TypeShape::Tuple(shapes_of(parts@)),
        TypeExpr::Array(inner) => TypeShape::Array(Box::new(shape_of(*inner))),
        TypeExpr::Function { params, ret } => TypeShape::Function(param_shapes(params@), Box::new(shape_of(*ret))),
        TypeExpr::TypeParam(n) => TypeShape::TypeParam(n@),
    }
}

/// The shapes of a sequence of type expressions, in order.
pub open spec fn shapes_of(ts: Seq<TypeExpr>) -> Seq<TypeShape>
    decreases ts, 1nat,
{
    if ts.len() == 0 {
        Seq::empty()
    } else {
        shapes_of(ts.drop_last()).push(shape_of(ts.last()))
    }
}

/// The name of a function-type parameter, if it has one.
pub open spec fn param_name_of(n: Option<String>) -> Option<Seq<char>> {
    match n {
        Some(s) => Some(s@),
        None => None,
    }
}

/// The shapes of function-type parameters, in order.
pub open spec fn param_shapes(ps: Seq<FunctionTypeParam>) -> Seq<(Option<Seq<char>>, TypeShape, bool)>
    decreases ps, 1nat,
{
    if ps.len() == 0 {
        Seq::empty()
    } else {
        param_shapes(ps.drop_last()).push(
            (param_name_of(ps.last().name), shape_of(ps.last().ty), ps.last().has_default))
    }
}

/// `shapes_of` goes element by element.
pub(crate) proof fn lemma_shapes_of_index(ts: Seq<TypeExpr>)
    ensures
        shapes_of(ts).len() == ts.len(),
        forall|k: int| 0 <= k < ts.len() ==> #[trigger] shapes_of(ts)[k] == shape_of(ts[k]),
    decreases ts.len(),
{
    if ts.len() > 0 {
        lemma_shapes_of_index(ts.drop_last());
        assert forall|k: int| 0 <= k < ts.len() implies #[trigger] shapes_of(ts)[k] == shape_of(ts[k]) by {
            if k < ts.len() - 1 {
                assert(ts.drop_last()[k] == ts[k]);
            }
        }
    }
}

/// `param_shapes` goes element by element.
pub(crate) proof fn lemma_param_shapes_index(ps: Seq<FunctionTypeParam>)
    ensures
        param_shapes(ps).len() == ps.len(),
        forall|k: int| 0 <= k < ps.len() ==> #[trigger] param_shapes(ps)[k]
            == (param_name_of(ps[k].name), shape_of(ps[k].ty), ps[k].has_default),
    decreases ps.len(),
{
    if ps.len() > 0 {
        lemma_param_shapes_index(ps.drop_last());
        assert forall|k: int| 0 <= k < ps.len() implies #[trigger] param_shapes(ps)[k]
            == (param_name_of(ps[k].name), shape_of(ps[k].ty), ps[k].has_default) by {
            if k < ps.len() - 1 {
                assert(ps.drop_last()[k] == ps[k]);
            }
        }
    }
}

/// Pattern: `_`, `x`, literals, `(a, b, ..)`, `[a, ..]`, struct and enum destructuring.
#[derive(Debug, PartialEq, Eq)]
pub enum Pattern {
    Wildcard { span: Span },
    Binding { name: String, name_span: Span },
    IntLiteral { value: u64, original: String, radix: u32, span: Span },
    StringLiteral { value: String, span: Span },
    BoolLiteral { value: bool, span: Span },
    Tuple { elements: Vec<PatternElem>, span: Span },
    Array { elements: Vec<PatternElem>, span: Span },
    /// `Name { x, y: z, .. }`.
    Struct {
        name: String,
        name_span: Span,
        type_args: Vec<TypeExpr>,
        fields: Vec<StructPatternField>,
        rest: Option<Span>,
        span: Span,
    },
    /// `EnumName::Variant(p1, p2, ...)`.
    EnumVariant {
        enum_name: String,
        enum_name_span: Span,
        type_args: Vec<TypeExpr>,
        variant: String,
        payloads: Vec<Pattern>,
        span: Span,
    },
}

#[derive(Debug, PartialEq, Eq)]
pub enum PatternElem {
    Pattern(Pattern),
    Rest(Span),
}

/// Field declaration in `struct Name { field: Type, ... }`.
#[derive(Debug, Clone, PartialEq, Eq)]
pub struct StructFieldDecl {
    pub name: String,
    pub name_span: Span,
    pub ty: TypeExpr,
    pub ty_span: Span,
}

/// One field entry in a struct destructuring pattern.
#[derive(Debug, PartialEq, Eq)]
pub struct StructPatternField {
    pub name: String,
    pub name_span: Span,
    pub pattern: Pattern,
}

#[derive(Debug, PartialEq)]
pub enum CallArg {
    Positional(AstNode),
    Named { name: String, name_span: Span, value: AstNode },
}

#[derive(Debug, Clone, PartialEq, Eq)]
pub struct EnumVariantDecl {
    pub name: String,
    pub name_span: Span,
    pub payload_types: Vec<TypeExpr>,
}

#[derive(Debug, Clone, Copy, PartialEq, Eq)]
pub enum BinaryOp {
    Add,
    Sub,
    Mul,
    Div,
    Mod,
    BitAnd,
    BitXor,
    BitOr,
    ShiftLeft,
    ShiftRight,
    Eq,
    Ne,
    Lt,
    Gt,
    Le,
    Ge,
    And,
    Or,
}

/// Compound assignment operator (`+=`, ...).
#[derive(Debug, Clone, Copy, PartialEq, Eq)]
pub enum CompoundOp {
    Add,
    Sub,
    Mul,
    Div,
    Mod,
    BitAnd,
    BitXor,
    BitOr,
    ShiftLeft,
    ShiftRight,
}

#[derive(Debug, Clone, Copy, PartialEq, Eq)]
pub enum UnaryOp {
    Plus,
    Minus,
    BitNot,
    /// Logical not (`!`).
    Not,
}

/// The source text of a binary operator.
pub open spec fn binary_op_spelling(op: BinaryOp) -> Seq<char> {
    match op {
        BinaryOp::Add => "+"@,
        BinaryOp::Sub => "-"@,
        BinaryOp::Mul => "*"@,
        BinaryOp::Div => "/"@,
        BinaryOp::Mod => "%"@,
        BinaryOp::BitAnd => "&"@,
        BinaryOp::BitXor => "^"@,
        BinaryOp::BitOr => "|"@,
        BinaryOp::ShiftLeft => "<<"@,
        BinaryOp::ShiftRight => ">>"@,
        BinaryOp::Eq => "=="@,
        BinaryOp::Ne => "!="@,
        BinaryOp::Lt => "<"@,
        BinaryOp::Gt => ">"@,
        BinaryOp::Le => "<="@,
        BinaryOp::Ge => ">="@,
        BinaryOp::And => "&&"@,
        BinaryOp::Or => "||"@,
    }
}

/// The source text of a compound assignment operator.
pub open spec fn compound_op_spelling(op: CompoundOp) -> Seq<char> {
    match op {
        CompoundOp::Add => "+="@,
        CompoundOp::Sub => "-="@,
        CompoundOp::Mul => "*="@,
        CompoundOp::Div => "/="@,
        CompoundOp::Mod => "%="@,
        CompoundOp::BitAnd => "&="@,
        CompoundOp::BitXor => "^="@,
        CompoundOp::BitOr => "|="@,
        CompoundOp::ShiftLeft => "<<="@,
        CompoundOp::ShiftRight => ">>="@,
    }
}

/// The source text of a prefix operator.
pub open spec fn unary_op_spelling(op: UnaryOp) -> Seq<char> {
    match op {
        UnaryOp::Plus => "+"@,
        UnaryOp::Minus => "-"@,
        UnaryOp::BitNot => "~"@,
        UnaryOp::Not => "!"@,
    }
}

#[derive(Debug, Clone, PartialEq)]
pub struct ImportBinding {
    pub export_name: String,
    pub local_name: String,
    pub local_span: Span,
}

#[derive(Debug, PartialEq)]
pub enum AstNode {
    /// `import { A, B as C } from "path";`
    Import { bindings: Vec<ImportBinding>, source_path: String, span: Span },
    /// `export from_name as to_name;`
    ExportAlias { from: String, to: String, span: Span },
    /// `export Name;`
    ExportName { name: String, name_span: Span, span: Span },
    SingleLineComment(String),
    MultiLineComment(String),
    IntegerLiteral { value: u64, original: String, radix: u32, span: Span },
    FloatLiteral { original: String, cleaned: String, span: Span },
    StringLiteral { value: String, original: String, span: Span },
    BoolLiteral { value: bool, span: Span },
    Identifier { name: String, span: Span },
    UnitLiteral { span: Span },
    TupleLiteral { elements: Vec<AstNode>, span: Span },
    ArrayLiteral { elements: Vec<AstNode>, span: Span },
    DictLiteral { entries: Vec<(AstNode, AstNode)>, span: Span },
    /// `expr.0`
    TupleField { base: Box<AstNode>, index: u32, span: Span },
    /// `expr[idx]`
    ArrayIndex { base: Box<AstNode>, index: Box<AstNode>, span: Span },
    /// `x => x + 1`, `(x, y) => { ... }`, `() => 1`.
    Lambda { params: Vec<LambdaParam>, body: Box<LambdaBody>, span: Span },
    BinaryOp { left: Box<AstNode>, op: BinaryOp, right: Box<AstNode>, span: Span },
    UnaryOp { op: UnaryOp, operand: Box<AstNode>, span: Span },
    /// `internal func name(args);` or `internal async func name(args): Type;`
    InternalFunction {
        name: String,
        type_params: Vec<GenericParam>,
        params: Vec<Param>,
        return_type: Option<TypeExpr>,
        name_span: Span,
        is_exported: bool,
        is_async: bool,
    },
    /// `func name(args) { body }` or `async func name(args): Type { body }`
    Function {
        name: String,
        extension_receiver: Option<ExtensionReceiver>,
        type_params: Vec<GenericParam>,
        params: Vec<Param>,
        return_type: Option<TypeExpr>,
        body: Vec<AstNode>,
        name_span: Span,
        closing_span: Span,
        is_exported: bool,
        is_async: bool,
    },
    /// `callee(args)` / `callee(args);`
    Call { callee: String, type_args: Vec<TypeExpr>, arguments: Vec<CallArg>, span: Span },
    /// Call of an expression: `f()(x)`, `(x => x)(1)`.
    Invoke { callee: Box<AstNode>, arguments: Vec<CallArg>, span: Span },
    /// `value.method(args...)`
    MethodCall { receiver: Box<AstNode>, method: String, arguments: Vec<CallArg>, span: Span },
    /// `Type::method(args...)`
    TypeMethodCall { ty_name: String, method: String, arguments: Vec<CallArg>, span: Span },
    /// Type-as-value expression for unit structs (`None`, `None<Int>`).
    TypeValue { ty_name: String, span: Span },
    /// `await expr`
    Await { expr: Box<AstNode>, span: Span },
    /// `struct Name { field: Type, ... }` or `struct Name<T>;`
    StructDef {
        name: String,
        type_params: Vec<GenericParam>,
        fields: Vec<StructFieldDecl>,
        is_unit: bool,
        is_internal: bool,
        name_span: Span,
        span: Span,
        is_exported: bool,
    },
    /// `Name { x: expr, ..base? }`
    StructLiteral {
        name: String,
        type_args: Vec<TypeExpr>,
        fields: Vec<(String, AstNode)>,
        update: Option<Box<AstNode>>,
        span: Span,
    },
    /// `base.field`
    FieldAccess { base: Box<AstNode>, field: String, span: Span },
    /// `enum Name<T, ...> { Variant, Variant(T), ... }`
    EnumDef {
        name: String,
        type_params: Vec<GenericParam>,
        variants: Vec<EnumVariantDecl>,
        is_internal: bool,
        name_span: Span,
        span: Span,
        is_exported: bool,
    },
    /// `type Name<T, ...> = SomeTypeExpr;`
    TypeAlias {
        name: String,
        type_params: Vec<GenericParam>,
        target: TypeExpr,
        name_span: Span,
        span: Span,
        is_exported: bool,
    },
    /// `EnumType::Variant(payloads?)`
    EnumVariantCtor {
        enum_name: String,
        type_args: Vec<TypeExpr>,
        variant: String,
        payloads: Vec<AstNode>,
        span: Span,
    },
    /// `return;` or `return expr;`
    Return { value: Option<Box<AstNode>>, span: Span },
    /// `let pattern: Type? = expr?;` (also `const`).
    Let {
        pattern: Pattern,
        type_annotation: Option<TypeExpr>,
        initializer: Option<Box<AstNode>>,
        is_const: bool,
        is_exported: bool,
        span: Span,
    },
    /// `pattern = expr;`
    Assign { pattern: Pattern, value: Box<AstNode>, span: Span },
    /// `lhs = rhs;` for an lvalue expression.
    AssignExpr { lhs: Box<AstNode>, rhs: Box<AstNode>, span: Span },
    /// `lhs += rhs;` etc.
    CompoundAssign { lhs: Box<AstNode>, op: CompoundOp, rhs: Box<AstNode>, span: Span },
    Block { body: Vec<AstNode>, closing_span: Span },
    /// `if cond { ... } else { ... }`
    If { condition: Box<AstNode>, then_body: Vec<AstNode>, else_body: Option<Vec<AstNode>>, span: Span },
    /// `if let pattern = expr { ... } else { ... }`
    IfLet {
        pattern: Pattern,
        value: Box<AstNode>,
        then_body: Vec<AstNode>,
        else_body: Option<Vec<AstNode>>,
        span: Span,
    },
    /// `while cond { body }`
    While { condition: Box<AstNode>, body: Vec<AstNode>, span: Span },
    /// `match scrutinee { arms }`
    Match { scrutinee: Box<AstNode>, arms: Vec<MatchArm>, span: Span },
    Break { span: Span },
    Continue { span: Span },
    Program(Vec<AstNode>),
}

#[derive(Debug, Clone, PartialEq)]
pub struct LambdaParam {
    pub name: String,
    pub name_span: Span,
}

#[derive(Debug, PartialEq)]
pub enum LambdaBody {
    Expr(AstNode),
    Block(Vec<AstNode>),
}

#[derive(Debug, PartialEq)]
pub struct MatchArm {
    /// `pat1 | pat2 | ...`
    pub patterns: Vec<Pattern>,
    pub guard: Option<Box<AstNode>>,
    pub body: Box<AstNode>,
    pub span: Span,
}

/// A syntax tree as plain values: a node is a tag and its parts in order; names and
/// texts are character sequences, types are their shapes.
pub enum Tree {
    Text(Seq<char>),
    Num(int),
    At(Span),
    Flag(bool),
    Ty(TypeShape),
    Tys(Seq<TypeShape>),
    Bin(BinaryOp),
    Un(UnaryOp),
    Cmp(CompoundOp),
    Node(nat, Seq<Tree>),
}

/// An optional type by its shape.
pub open spec fn opt_shape_of(t: Option<TypeExpr>) -> Option<TypeShape> {
    match t {
        Some(t) => Some(shape_of(t)),
        None => None,
    }
}

/// An optional part: `Node(0, [])` when absent, `Node(1, [t])` when present.
pub open spec fn opt_tree(t: Option<Tree>) -> Tree {
    match t {
        Some(t) => Tree::Node(1, seq![t]),
        None => Tree::Node(0, Seq::empty()),
    }
}

/// An optional type as a tree.
pub open spec fn opt_ty_tree(t: Option<TypeExpr>) -> Tree {
    match t {
        Some(t) => opt_tree(Some(Tree::Ty(shape_of(t)))),
        None => opt_tree(None),
    }
}

/// A generic parameter as plain values.
pub open spec fn generic_view(g: GenericParam) -> (Seq<char>, Span, Option<TypeShape>) {
    (g.name@, g.name_span, opt_shape_of(g.default))
}

/// Generic parameters as plain values, in order.
pub open spec fn generic_views(s: Seq<GenericParam>) -> Seq<(Seq<char>, Span, Option<TypeShape>)> {
    s.map_values(|g: GenericParam| generic_view(g))
}

/// Import bindings as plain values, in order.
pub open spec fn binding_views(s: Seq<ImportBinding>) -> Seq<(Seq<char>, Seq<char>, Span)> {
    s.map_values(|b: ImportBinding| (b.export_name@, b.local_name@, b.local_span))
}

/// Lambda parameters as plain values, in order.
pub open spec fn lambda_param_views(s: Seq<LambdaParam>) -> Seq<(Seq<char>, Span)> {
    s.map_values(|p: LambdaParam| (p.name@, p.name_span))
}

/// Struct field declarations as plain values, in order.
pub open spec fn field_decl_views(s: Seq<StructFieldDecl>) -> Seq<(Seq<char>, Span, TypeShape, Span)> {
    s.map_values(|f: StructFieldDecl| (f.name@, f.name_span, shape_of(f.ty), f.ty_span))
}

/// Enum variant declarations as plain values, in order.
pub open spec fn variant_decl_views(s: Seq<EnumVariantDecl>) -> Seq<(Seq<char>, Span, Seq<TypeShape>)> {
    s.map_values(|v: EnumVariantDecl| (v.name@, v.name_span, shapes_of(v.payload_types@)))
}

/// The tree of the pattern `p`.
pub open spec fn pat_tree(p: Pattern) -> Tree
    decreases p, 0nat,
{
    match p {
        Pattern::Wildcard { span } => Tree::Node(0, seq![Tree::At(span)]),
        Pattern::Binding { name, name_span } => Tree::Node(1, seq![Tree::Text(name@), Tree::At(name_span)]),
        Pattern::IntLiteral { value, original, radix, span } =>
            Tree::Node(2, seq![Tree::Num(value as int), Tree::Text(original@), Tree::Num(radix as int), Tree::At(span)]),
        Pattern::StringLiteral { value, span } => Tree::Node(3, seq![Tree::Text(value@), Tree::At(span)]),
        Pattern::BoolLiteral { value, span } => Tree::Node(4, seq![Tree::Flag(value), Tree::At(span)]),
        Pattern::Tuple { elements, span } => Tree::Node(5, seq![Tree::Node(0, elem_trees(elements@)), Tree::At(span)]),
        Pattern::Array { elements, span } => Tree::Node(6, seq![Tree::Node(0, elem_trees(elements@)), Tree::At(span)]),
        Pattern::Struct { name, name_span, type_args, fields, rest, span } => Tree::Node(7, seq![
            Tree::Text(name@),
            Tree::At(name_span),
            Tree::Tys(shapes_of(type_args@)),
            Tree::Node(0, pat_field_trees(fields@)),
            opt_tree(match rest { Some(s) => Some(Tree::At(s)), None => None }),
            Tree::At(span),
        ]),
        Pattern::EnumVariant { enum_name, enum_name_span, type_args, variant, payloads, span } => Tree::Node(8, seq![
            Tree::Text(enum_name@),
            Tree::At(enum_name_span),
            Tree::Tys(shapes_of(type_args@)),
            Tree::Text(variant@),
            Tree::Node(0, pat_trees(payloads@)),
            Tree::At(span),
        ]),
    }
}

/// The trees of the patterns `s`, in order.
pub open spec fn pat_trees(s: Seq<Pattern>) -> Seq<Tree>
    decreases s, 1nat,
{
    if s.len() == 0 { Seq::empty() } else { pat_trees(s.drop_last()).push(pat_tree(s.last())) }
}

/// The trees of the tuple or array pattern elements `s`, in order.
pub open spec fn elem_trees(s: Seq<PatternElem>) -> Seq<Tree>
    decreases s, 1nat,
{
    if s.len() == 0 {
        Seq::empty()
    } else {
        elem_trees(s.drop_last()).push(match s.last() {
            PatternElem::Pattern(p) => Tree::Node(0, seq![pat_tree(p)]),
            PatternElem::Rest(sp) => Tree::Node(1, seq![Tree::At(sp)]),
        })
    }
}

/// The trees of the struct pattern fields `s`, in order.
pub open spec fn pat_field_trees(s: Seq<StructPatternField>) -> Seq<Tree>
    decreases s, 1nat,
{
    if s.len() == 0 {
        Seq::empty()
    } else {
        pat_field_trees(s.drop_last()).push(
            Tree::Node(0, seq![Tree::Text(s.last().name@), Tree::At(s.last().name_span), pat_tree(s.last().pattern)]))
    }
}

impl Clone for TypeExpr {
    fn clone(&self) -> (r: Self)
        ensures
            shape_of(r) == shape_of(*self),
        decreases self, 0nat,
    {
        match self {
            TypeExpr::Named(n) => TypeExpr::Named(n.clone()),
            TypeExpr::EnumApp { name, args } => TypeExpr::EnumApp { name: name.clone(), args: clone_type_exprs(args) },
            TypeExpr::Infer => TypeExpr::Infer,
            TypeExpr::Unit => TypeExpr::Unit,
            TypeExpr::Tuple(items) => TypeExpr::Tuple(clone_type_exprs(items)),
            TypeExpr::Array(elem) => TypeExpr::Array(Box::new((&**elem).clone())),
            TypeExpr::Function { params, ret } => TypeExpr::Function {
                params: clone_fn_params(params),
                ret: Box::new((&**ret).clone()),
            },
            TypeExpr::TypeParam(n) => TypeExpr::TypeParam(n.clone()),
        }
    }
}

fn clone_type_exprs(v: &Vec<TypeExpr>) -> (r: Vec<TypeExpr>)
    ensures
        r@.len() == v@.len(),
        shapes_of(r@) == shapes_of(v@),
    decreases v, 1nat,
{
    let mut out: Vec<TypeExpr> = Vec::new();
    let mut i: usize = 0;
    while i < v.len()
        invariant
            i <= v@.len(),
            out@.len() == i,
            shapes_of(out@) == shapes_of(v@.take(i as int)),
        decreases v@.len() - i,
    {
        let ghost before = out@;
        out.push(v[i].clone());
        proof {
            assert(out@.drop_last() =~= before);
            assert(v@.take(i + 1).drop_last() =~= v@.take(i as int));
        }
        i += 1;
    }
    proof { assert(v@.take(v@.len() as int) =~= v@); }
    out
}

fn clone_fn_params(v: &Vec<FunctionTypeParam>) -> (r: Vec<FunctionTypeParam>)
    ensures
        r@.len() == v@.len(),
        param_shapes(r@) == param_shapes(v@),
    decreases v, 1nat,
{
    let mut out: Vec<FunctionTypeParam> = Vec::new();
    let mut i: usize = 0;
    while i < v.len()
        invariant
            i <= v@.len(),
            out@.len() == i,
            param_shapes(out@) == param_shapes(v@.take(i as int)),
        decreases v@.len() - i,
    {
        let p = &v[i];
        let name = match &p.name {
            Some(n) => Some(n.clone()),
            None => None,
        };
        let ghost before = out@;
        out.push(FunctionTypeParam { name, ty: p.ty.clone(), has_default: p.has_default });
        proof {
            assert(out@.drop_last() =~= before);
            assert(v@.take(i + 1).drop_last() =~= v@.take(i as int));
        }
        i += 1;
    }
    proof { assert(v@.take(v@.len() as int) =~= v@); }
    out
}

fn clone_type_opt(t: &Option<TypeExpr>) -> (r: Option<TypeExpr>)
    ensures
        r is Some == t is Some,
        opt_shape_of(r) == opt_shape_of(*t),
{
    match t {
        Some(x) => Some(x.clone()),
        None => None,
    }
}

fn clone_generic_params(v: &Vec<GenericParam>) -> (r: Vec<GenericParam>)
    ensures
        r@.len() == v@.len(),
        generic_views(r@) == generic_views(v@),
{
    let mut out: Vec<GenericParam> = Vec::new();
    let mut i: usize = 0;
    while i < v.len()
        invariant
            i <= v@.len(),
            out@.len() == i,
            forall|k: int| 0 <= k < i ==> generic_view(#[trigger] out@[k]) == generic_view(v@[k]),
        decreases v@.len() - i,
    {
        out.push(GenericParam { name: v[i].name.clone(), name_span: v[i].name_span, default: clone_type_opt(&v[i].default) });
        i += 1;
    }
    proof { assert(generic_views(out@) =~= generic_views(v@)); }
    out
}

fn clone_import_bindings(v: &Vec<ImportBinding>) -> (r: Vec<ImportBinding>)
    ensures
        binding_views(r@) == binding_views(v@),
{
    let mut out: Vec<ImportBinding> = Vec::new();
    let mut i: usize = 0;
    while i < v.len()
        invariant
            i <= v@.len(),
            out@.len() == i,
            forall|k: int| 0 <= k < i ==> (#[trigger] out@[k]).export_name@ == v@[k].export_name@
                && out@[k].local_name@ == v@[k].local_name@ && out@[k].local_span == v@[k].local_span,
        decreases v@.len() - i,
    {
        out.push(ImportBinding {
            export_name: v[i].export_name.clone(),
            local_name: v[i].local_name.clone(),
            local_span: v[i].local_span,
        });
        i += 1;
    }
    proof { assert(binding_views(out@) =~= binding_views(v@)); }
    out
}

fn clone_lambda_params(v: &Vec<LambdaParam>) -> (r: Vec<LambdaParam>)
    ensures
        lambda_param_views(r@) == lambda_param_views(v@),
{
    let mut out: Vec<LambdaParam> = Vec::new();
    let mut i: usize = 0;
    while i < v.len()
        invariant
            i <= v@.len(),
            out@.len() == i,
            forall|k: int| 0 <= k < i ==> (#[trigger] out@[k]).name@ == v@[k].name@ && out@[k].name_span == v@[k].name_span,
        decreases v@.len() - i,
    {
        out.push(LambdaParam { name: v[i].name.clone(), name_span: v[i].name_span });
        i += 1;
    }
    proof { assert(lambda_param_views(out@) =~= lambda_param_views(v@)); }
    out
}

fn clone_field_decls(v: &Vec<StructFieldDecl>) -> (r: Vec<StructFieldDecl>)
    ensures
        field_decl_views(r@) == field_decl_views(v@),
{
    let mut out: Vec<StructFieldDecl> = Vec::new();
    let mut i: usize = 0;
    while i < v.len()
        invariant
            i <= v@.len(),
            out@.len() == i,
            forall|k: int| 0 <= k < i ==> (#[trigger] out@[k]).name@ == v@[k].name@
                && out@[k].name_span == v@[k].name_span && shape_of(out@[k].ty) == shape_of(v@[k].ty)
                && out@[k].ty_span == v@[k].ty_span,
        decreases v@.len() - i,
    {
        out.push(StructFieldDecl { name: v[i].name.clone(), name_span: v[i].name_span, ty: v[i].ty.clone(), ty_span: v[i].ty_span });
        i += 1;
    }
    proof { assert(field_decl_views(out@) =~= field_decl_views(v@)); }
    out
}

fn clone_variant_decls(v: &Vec<EnumVariantDecl>) -> (r: Vec<EnumVariantDecl>)
    ensures
        variant_decl_views(r@) == variant_decl_views(v@),
{
    let mut out: Vec<EnumVariantDecl> = Vec::new();
    let mut i: usize = 0;
    while i < v.len()
        invariant
            i <= v@.len(),
            out@.len() == i,
            forall|k: int| 0 <= k < i ==> (#[trigger] out@[k]).name@ == v@[k].name@
                && out@[k].name_span == v@[k].name_span && shapes_of(out@[k].payload_types@) == shapes_of(v@[k].payload_types@),
        decreases v@.len() - i,
    {
        out.push(EnumVariantDecl {
            name: v[i].name.clone(),
            name_span: v[i].name_span,
            payload_types: clone_type_exprs(&v[i].payload_types),
        });
        i += 1;
    }
    proof { assert(variant_decl_views(out@) =~= variant_decl_views(v@)); }
    out
}

impl Clone for Pattern {
    fn clone(&self) -> (r: Self)
        ensures
            pat_tree(r) == pat_tree(*self),
        decreases self, 0nat,
    {
        match self {
            Pattern::Wildcard { span } => Pattern::Wildcard { span: *span },
            Pattern::Binding { name, name_span } => Pattern::Binding { name: name.clone(), name_span: *name_span },
            Pattern::IntLiteral { value, original, radix, span } =>
                Pattern::IntLiteral { value: *value, original: original.clone(), radix: *radix, span: *span },
            Pattern::StringLiteral { value, span } => Pattern::StringLiteral { value: value.clone(), span: *span },
            Pattern::BoolLiteral { value, span } => Pattern::BoolLiteral { value: *value, span: *span },
            Pattern::Tuple { elements, span } => Pattern::Tuple { elements: clone_pattern_elems(elements), span: *span },
            Pattern::Array { elements, span } => Pattern::Array { elements: clone_pattern_elems(elements), span: *span },
            Pattern::Struct { name, name_span, type_args, fields, rest, span } =>
                Pattern::Struct {
                    name: name.clone(),
                    name_span: *name_span,
                    type_args: clone_type_exprs(type_args),
                    fields: clone_pattern_fields(fields),
                    rest: *rest,
                    span: *span,
                },
            Pattern::EnumVariant { enum_name, enum_name_span, type_args, variant, payloads, span } =>
                Pattern::EnumVariant {
                    enum_name: enum_name.clone(),
                    enum_name_span: *enum_name_span,
                    type_args: clone_type_exprs(type_args),
                    variant: variant.clone(),
                    payloads: clone_patterns(payloads),
                    span: *span,
                },
        }
    }
}

fn clone_patterns(v: &Vec<Pattern>) -> (r: Vec<Pattern>)
    ensures
        r@.len() == v@.len(),
        pat_trees(r@) == pat_trees(v@),
    decreases v, 1nat,
{
    let mut out: Vec<Pattern> = Vec::new();
    let mut i: usize = 0;
    while i < v.len()
        invariant
            i <= v@.len(),
            out@.len() == i,
            pat_trees(out@) == pat_trees(v@.take(i as int)),
        decreases v@.len() - i,
    {
        let ghost before = out@;
        out.push(v[i].clone());
        proof {
            assert(out@.drop_last() =~= before);
            assert(v@.take(i + 1).drop_last() =~= v@.take(i as int));
        }
        i += 1;
    }
    proof { assert(v@.take(v@.len() as int) =~= v@); }
    out
}

fn clone_pattern_elems(v: &Vec<PatternElem>) -> (r: Vec<PatternElem>)
    ensures
        r@.len() == v@.len(),
        elem_trees(r@) == elem_trees(v@),
    decreases v, 1nat,
{
    let mut out: Vec<PatternElem> = Vec::new();
    let mut i: usize = 0;
    while i < v.len()
        invariant
            i <= v@.len(),
            out@.len() == i,
            elem_trees(out@) == elem_trees(v@.take(i as int)),
        decreases v@.len() - i,
    {
        let e = match &v[i] {
            PatternElem::Pattern(p) => PatternElem::Pattern(p.clone()),
            PatternElem::Rest(s) => PatternElem::Rest(*s),
        };
        let ghost before = out@;
        out.push(e);
        proof {
            assert(out@.drop_last() =~= before);
            assert(v@.take(i + 1).drop_last() =~= v@.take(i as int));
        }
        i += 1;
    }
    proof { assert(v@.take(v@.len() as int) =~= v@); }
    out
}

fn clone_pattern_fields(v: &Vec<StructPatternField>) -> (r: Vec<StructPatternField>)
    ensures
        r@.len() == v@.len(),
        pat_field_trees(r@) == pat_field_trees(v@),
    decreases v, 1nat,
{
    let mut out: Vec<StructPatternField> = Vec::new();
    let mut i: usize = 0;
    while i < v.len()
        invariant
            i <= v@.len(),
            out@.len() == i,
            pat_field_trees(out@) == pat_field_trees(v@.take(i as int)),
        decreases v@.len() - i,
    {
        let ghost before = out@;
        out.push(StructPatternField { name: v[i].name.clone(), name_span: v[i].name_span, pattern: v[i].pattern.clone() });
        proof {
            assert(out@.drop_last() =~= before);
            assert(v@.take(i + 1).drop_last() =~= v@.take(i as int));
        }
        i += 1;
    }
    proof { assert(v@.take(v@.len() as int) =~= v@); }
    out
}

/// An optional node as a tree.
pub open spec fn opt_node_tree(n: Option<Box<AstNode>>) -> Tree
    decreases n, 2nat,
{
    match n {
        Some(b) => opt_tree(Some(node_tree(*b))),
        None => opt_tree(None),
    }
}

/// The tree of the syntax tree `n`: every part of every node, in order.
pub open spec fn node_tree(n: AstNode) -> Tree
    decreases n, 0nat,
{
    match n {
        AstNode::Import { bindings, source_path, span } => Tree::Node(0, seq![
            binding_tree(bindings@),
            Tree::Text(source_path@),
            Tree::At(span),
        ]),
        AstNode::ExportAlias { from, to, span } => Tree::Node(1, seq![Tree::Text(from@), Tree::Text(to@), Tree::At(span)]),
        AstNode::ExportName { name, name_span, span } => Tree::Node(2, seq![Tree::Text(name@), Tree::At(name_span), Tree::At(span)]),
        AstNode::SingleLineComment(t) => Tree::Node(3, seq![Tree::Text(t@)]),
        AstNode::MultiLineComment(t) => Tree::Node(4, seq![Tree::Text(t@)]),
        AstNode::IntegerLiteral { value, original, radix, span } =>
            Tree::Node(5, seq![Tree::Num(value as int), Tree::Text(original@), Tree::Num(radix as int), Tree::At(span)]),
        AstNode::FloatLiteral { original, cleaned, span } =>
            Tree::Node(6, seq![Tree::Text(original@), Tree::Text(cleaned@), Tree::At(span)]),
        AstNode::StringLiteral { value, original, span } =>
            Tree::Node(7, seq![Tree::Text(value@), Tree::Text(original@), Tree::At(span)]),
        AstNode::BoolLiteral { value, span } => Tree::Node(8, seq![Tree::Flag(value), Tree::At(span)]),
        AstNode::Identifier { name, span } => Tree::Node(9, seq![Tree::Text(name@), Tree::At(span)]),
        AstNode::UnitLiteral { span } => Tree::Node(10, seq![Tree::At(span)]),
        AstNode::TupleLiteral { elements, span } => Tree::Node(11, seq![Tree::Node(0, node_trees(elements@)), Tree::At(span)]),
        AstNode::ArrayLiteral { elements, span } => Tree::Node(12, seq![Tree::Node(0, node_trees(elements@)), Tree::At(span)]),
        AstNode::DictLiteral { entries, span } => Tree::Node(13, seq![Tree::Node(0, pair_trees(entries@)), Tree::At(span)]),
        AstNode::TupleField { base, index, span } =>
            Tree::Node(14, seq![node_tree(*base), Tree::Num(index as int), Tree::At(span)]),
        AstNode::ArrayIndex { base, index, span } =>
            Tree::Node(15, seq![node_tree(*base), node_tree(*index), Tree::At(span)]),
        AstNode::Lambda { params, body, span } => Tree::Node(16, seq![
            lambda_param_tree(params@),
            lambda_body_tree(*body),
            Tree::At(span),
        ]),
        AstNode::BinaryOp { left, op, right, span } =>
            Tree::Node(17, seq![node_tree(*left), Tree::Bin(op), node_tree(*right), Tree::At(span)]),
        AstNode::UnaryOp { op, operand, span } => Tree::Node(18, seq![Tree::Un(op), node_tree(*operand), Tree::At(span)]),
        AstNode::InternalFunction { name, type_params, params, return_type, name_span, is_exported, is_async } =>
            Tree::Node(19, seq![
                Tree::Text(name@),
                generic_tree(type_params@),
                Tree::Node(0, param_trees(params@)),
                opt_ty_tree(return_type),
                Tree::At(name_span),
                Tree::Flag(is_exported),
                Tree::Flag(is_async),
            ]),
        AstNode::Function {
            name, extension_receiver, type_params, params, return_type, body, name_span, closing_span, is_exported, is_async,
        } => Tree::Node(20, seq![
            Tree::Text(name@),
            ext_tree(extension_receiver),
            generic_tree(type_params@),
            Tree::Node(0, param_trees(params@)),
            opt_ty_tree(return_type),
            Tree::Node(0, node_trees(body@)),
            Tree::At(name_span),
            Tree::At(closing_span),
            Tree::Flag(is_exported),
            Tree::Flag(is_async),
        ]),
        AstNode::Call { callee, type_args, arguments, span } => Tree::Node(21, seq![
            Tree::Text(callee@), Tree::Tys(shapes_of(type_args@)), Tree::Node(0, arg_trees(arguments@)), Tree::At(span),
        ]),
        AstNode::Invoke { callee, arguments, span } =>
            Tree::Node(22, seq![node_tree(*callee), Tree::Node(0, arg_trees(arguments@)), Tree::At(span)]),
        AstNode::MethodCall { receiver, method, arguments, span } => Tree::Node(23, seq![
            node_tree(*receiver), Tree::Text(method@), Tree::Node(0, arg_trees(arguments@)), Tree::At(span),
        ]),
        AstNode::TypeMethodCall { ty_name, method, arguments, span } => Tree::Node(24, seq![
            Tree::Text(ty_name@), Tree::Text(method@), Tree::Node(0, arg_trees(arguments@)), Tree::At(span),
        ]),
        AstNode::TypeValue { ty_name, span } => Tree::Node(25, seq![Tree::Text(ty_name@), Tree::At(span)]),
        AstNode::Await { expr, span } => Tree::Node(26, seq![node_tree(*expr), Tree::At(span)]),
        AstNode::StructDef { name, type_params, fields, is_unit, is_internal, name_span, span, is_exported } =>
            Tree::Node(27, seq![
                Tree::Text(name@),
                generic_tree(type_params@),
                field_decl_tree(fields@),
                Tree::Flag(is_unit),
                Tree::Flag(is_internal),
                Tree::At(name_span),
                Tree::At(span),
                Tree::Flag(is_exported),
            ]),
        AstNode::StructLiteral { name, type_args, fields, update, span } => Tree::Node(28, seq![
            Tree::Text(name@),
            Tree::Tys(shapes_of(type_args@)),
            Tree::Node(0, named_trees(fields@)),
            opt_node_tree(update),
            Tree::At(span),
        ]),
        AstNode::FieldAccess { base, field, span } => Tree::Node(29, seq![node_tree(*base), Tree::Text(field@), Tree::At(span)]),
        AstNode::EnumDef { name, type_params, variants, is_internal, name_span, span, is_exported } =>
            Tree::Node(30, seq![
                Tree::Text(name@),
                generic_tree(type_params@),
                variant_decl_tree(variants@),
                Tree::Flag(is_internal),
                Tree::At(name_span),
                Tree::At(span),
                Tree::Flag(is_exported),
            ]),
        AstNode::TypeAlias { name, type_params, target, name_span, span, is_exported } => Tree::Node(31, seq![
            Tree::Text(name@),
            generic_tree(type_params@),
            Tree::Ty(shape_of(target)),
            Tree::At(name_span),
            Tree::At(span),
            Tree::Flag(is_exported),
        ]),
        AstNode::EnumVariantCtor { enum_name, type_args, variant, payloads, span } => Tree::Node(32, seq![
            Tree::Text(enum_name@),
            Tree::Tys(shapes_of(type_args@)),
            Tree::Text(variant@),
            Tree::Node(0, node_trees(payloads@)),
            Tree::At(span),
        ]),
        AstNode::Return { value, span } => Tree::Node(33, seq![opt_node_tree(value), Tree::At(span)]),
        AstNode::Let { pattern, type_annotation, initializer, is_const, is_exported, span } => Tree::Node(34, seq![
            pat_tree(pattern),
            opt_ty_tree(type_annotation),
            opt_node_tree(initializer),
            Tree::Flag(is_const),
            Tree::Flag(is_exported),
            Tree::At(span),
        ]),
        AstNode::Assign { pattern, value, span } => Tree::Node(35, seq![pat_tree(pattern), node_tree(*value), Tree::At(span)]),
        AstNode::AssignExpr { lhs, rhs, span } => Tree::Node(36, seq![node_tree(*lhs), node_tree(*rhs), Tree::At(span)]),
        AstNode::CompoundAssign { lhs, op, rhs, span } =>
            Tree::Node(37, seq![node_tree(*lhs), Tree::Cmp(op), node_tree(*rhs), Tree::At(span)]),
        AstNode::Block { body, closing_span } => Tree::Node(38, seq![Tree::Node(0, node_trees(body@)), Tree::At(closing_span)]),
        AstNode::If { condition, then_body, else_body, span } => Tree::Node(39, seq![
            node_tree(*condition),
            Tree::Node(0, node_trees(then_body@)),
            opt_nodes_tree(else_body),
            Tree::At(span),
        ]),
        AstNode::IfLet { pattern, value, then_body, else_body, span } => Tree::Node(40, seq![
            pat_tree(pattern),
            node_tree(*value),
            Tree::Node(0, node_trees(then_body@)),
            opt_nodes_tree(else_body),
            Tree::At(span),
        ]),
        AstNode::While { condition, body, span } =>
            Tree::Node(41, seq![node_tree(*condition), Tree::Node(0, node_trees(body@)), Tree::At(span)]),
        AstNode::Match { scrutinee, arms, span } =>
            Tree::Node(42, seq![node_tree(*scrutinee), Tree::Node(0, arm_trees(arms@)), Tree::At(span)]),
        AstNode::Break { span } => Tree::Node(43, seq![Tree::At(span)]),
        AstNode::Continue { span } => Tree::Node(44, seq![Tree::At(span)]),
        AstNode::Program(items) => Tree::Node(45, seq![Tree::Node(0, node_trees(items@))]),
    }
}

/// An extension receiver as a tree.
pub open spec fn ext_tree(e: Option<ExtensionReceiver>) -> Tree {
    match e {
        Some(e) => opt_tree(Some(Tree::Node(0, seq![Tree::Ty(shape_of(e.ty)), Tree::Text(e.method_name@)]))),
        None => opt_tree(None),
    }
}

/// An optional list of nodes as a tree.
pub open spec fn opt_nodes_tree(o: Option<Vec<AstNode>>) -> Tree
    decreases o, 2nat,
{
    match o {
        Some(b) => opt_tree(Some(Tree::Node(0, node_trees(b@)))),
        None => opt_tree(None),
    }
}

/// Import bindings as a tree.
pub open spec fn binding_tree(s: Seq<ImportBinding>) -> Tree {
    Tree::Node(0, binding_views(s).map_values(|b: (Seq<char>, Seq<char>, Span)|
        Tree::Node(0, seq![Tree::Text(b.0), Tree::Text(b.1), Tree::At(b.2)])))
}

/// Lambda parameters as a tree.
pub open spec fn lambda_param_tree(s: Seq<LambdaParam>) -> Tree {
    Tree::Node(0, lambda_param_views(s).map_values(|p: (Seq<char>, Span)| Tree::Node(0, seq![Tree::Text(p.0), Tree::At(p.1)])))
}

/// Struct field declarations as a tree.
pub open spec fn field_decl_tree(s: Seq<StructFieldDecl>) -> Tree {
    Tree::Node(0, field_decl_views(s).map_values(|f: (Seq<char>, Span, TypeShape, Span)|
        Tree::Node(0, seq![Tree::Text(f.0), Tree::At(f.1), Tree::Ty(f.2), Tree::At(f.3)])))
}

/// Enum variant declarations as a tree.
pub open spec fn variant_decl_tree(s: Seq<EnumVariantDecl>) -> Tree {
    Tree::Node(0, variant_decl_views(s).map_values(|v: (Seq<char>, Span, Seq<TypeShape>)|
        Tree::Node(0, seq![Tree::Text(v.0), Tree::At(v.1), Tree::Tys(v.2)])))
}

/// Generic parameters as a tree.
pub open spec fn generic_tree(s: Seq<GenericParam>) -> Tree {
    Tree::Node(0, generic_views(s).map_values(|g: (Seq<char>, Span, Option<TypeShape>)|
        Tree::Node(0, seq![Tree::Text(g.0), Tree::At(g.1), opt_tree(match g.2 { Some(t) => Some(Tree::Ty(t)), None => None })])))
}

/// The tree of a lambda body.
pub open spec fn lambda_body_tree(b: LambdaBody) -> Tree
    decreases b, 0nat,
{
    match b {
        LambdaBody::Expr(e) => Tree::Node(0, seq![node_tree(e)]),
        LambdaBody::Block(v) => Tree::Node(1, node_trees(v@)),
    }
}

/// The trees of the nodes `s`, in order.
pub open spec fn node_trees(s: Seq<AstNode>) -> Seq<Tree>
    decreases s, 1nat,
{
    if s.len() == 0 { Seq::empty() } else { node_trees(s.drop_last()).push(node_tree(s.last())) }
}

/// The trees of the node pairs `s`, in order.
pub open spec fn pair_trees(s: Seq<(AstNode, AstNode)>) -> Seq<Tree>
    decreases s, 1nat,
{
    if s.len() == 0 {
        Seq::empty()
    } else {
        pair_trees(s.drop_last()).push(Tree::Node(0, seq![node_tree(s.last().0), node_tree(s.last().1)]))
    }
}

/// The trees of the named nodes `s`, in order.
pub open spec fn named_trees(s: Seq<(String, AstNode)>) -> Seq<Tree>
    decreases s, 1nat,
{
    if s.len() == 0 {
        Seq::empty()
    } else {
        named_trees(s.drop_last()).push(Tree::Node(0, seq![Tree::Text(s.last().0@), node_tree(s.last().1)]))
    }
}

/// The tree of the parameter `p`.
pub open spec fn param_tree(p: Param) -> Tree
    decreases p, 0nat,
{
    Tree::Node(0, seq![
        Tree::Text(p.name@),
        Tree::At(p.name_span),
        Tree::Flag(p.is_wildcard),
        Tree::Flag(p.is_params),
        Tree::Ty(shape_of(p.ty)),
        opt_node_tree(p.default_value),
    ])
}

/// The trees of the parameters `s`, in order.
pub open spec fn param_trees(s: Seq<Param>) -> Seq<Tree>
    decreases s, 1nat,
{
    if s.len() == 0 { Seq::empty() } else { param_trees(s.drop_last()).push(param_tree(s.last())) }
}

/// The tree of the call argument `a`.
pub open spec fn arg_tree(a: CallArg) -> Tree
    decreases a, 0nat,
{
    match a {
        CallArg::Positional(e) => Tree::Node(0, seq![node_tree(e)]),
        CallArg::Named { name, name_span, value } =>
            Tree::Node(1, seq![Tree::Text(name@), Tree::At(name_span), node_tree(value)]),
    }
}

/// The trees of the call arguments `s`, in order.
pub open spec fn arg_trees(s: Seq<CallArg>) -> Seq<Tree>
    decreases s, 1nat,
{
    if s.len() == 0 { Seq::empty() } else { arg_trees(s.drop_last()).push(arg_tree(s.last())) }
}

/// The trees of the match arms `s`, in order.
pub open spec fn arm_trees(s: Seq<MatchArm>) -> Seq<Tree>
    decreases s, 1nat,
{
    if s.len() == 0 {
        Seq::empty()
    } else {
        arm_trees(s.drop_last()).push(Tree::Node(0, seq![
            Tree::Node(0, pat_trees(s.last().patterns@)),
            opt_node_tree(s.last().guard),
            node_tree(*s.last().body),
            Tree::At(s.last().span),
        ]))
    }
}

impl Clone for AstNode {
    fn clone(&self) -> (r: Self)
        ensures
            node_tree(r) == node_tree(*self),
        decreases self, 1nat,
    {
        match self {
            AstNode::Import { .. } | AstNode::ExportAlias { .. } | AstNode::ExportName { .. } | AstNode::SingleLineComment(..) | AstNode::MultiLineComment(..) | AstNode::IntegerLiteral { .. } | AstNode::FloatLiteral { .. } | AstNode::StringLiteral { .. } | AstNode::BoolLiteral { .. } | AstNode::Identifier { .. } | AstNode::UnitLiteral { .. } | AstNode::TupleLiteral { .. } => clone_node_0(self),
            AstNode::ArrayLiteral { .. } | AstNode::DictLiteral { .. } | AstNode::TupleField { .. } | AstNode::ArrayIndex { .. } | AstNode::Lambda { .. } | AstNode::BinaryOp { .. } | AstNode::UnaryOp { .. } | AstNode::InternalFunction { .. } => clone_node_1(self),
            AstNode::Function { .. } | AstNode::Call { .. } | AstNode::Invoke { .. } | AstNode::MethodCall { .. } | AstNode::TypeMethodCall { .. } | AstNode::TypeValue { .. } | AstNode::Await { .. } | AstNode::StructDef { .. } => clone_node_2(self),
            AstNode::StructLiteral { .. } | AstNode::FieldAccess { .. } | AstNode::EnumDef { .. } | AstNode::TypeAlias { .. } | AstNode::EnumVariantCtor { .. } | AstNode::Return { .. } | AstNode::Let { .. } | AstNode::Assign { .. } => clone_node_3(self),
            AstNode::AssignExpr { .. } | AstNode::CompoundAssign { .. } | AstNode::Block { .. } | AstNode::If { .. } | AstNode::IfLet { .. } | AstNode::While { .. } | AstNode::Match { .. } | AstNode::Break { .. } | AstNode::Continue { .. } | AstNode::Program(..) => clone_node_4(self),
        }
    }
}

/// Clones a node of the first kinds.
#[verifier::rlimit(100)]
#[verifier::spinoff_prover]
fn clone_node_0(n: &AstNode) -> (r: AstNode)
    requires
        n is Import || n is ExportAlias || n is ExportName || n is SingleLineComment || n is MultiLineComment || n is IntegerLiteral || n is FloatLiteral || n is StringLiteral || n is BoolLiteral || n is Identifier || n is UnitLiteral || n is TupleLiteral,
    ensures
        node_tree(r) == node_tree(*n),
    decreases n, 0nat,
{
    match n {
        AstNode::Import { bindings, source_path, span } =>
            AstNode::Import { bindings: clone_import_bindings(bindings), source_path: source_path.clone(), span: *span },
        AstNode::ExportAlias { from, to, span } =>
            AstNode::ExportAlias { from: from.clone(), to: to.clone(), span: *span },
        AstNode::ExportName { name, name_span, span } =>
            AstNode::ExportName { name: name.clone(), name_span: *name_span, span: *span },
        AstNode::SingleLineComment(t) => AstNode::SingleLineComment(t.clone()),
        AstNode::MultiLineComment(t) => AstNode::MultiLineComment(t.clone()),
        AstNode::IntegerLiteral { value, original, radix, span } =>
            AstNode::IntegerLiteral { value: *value, original: original.clone(), radix: *radix, span: *span },
        AstNode::FloatLiteral { original, cleaned, span } =>
            AstNode::FloatLiteral { original: original.clone(), cleaned: cleaned.clone(), span: *span },
        AstNode::StringLiteral { value, original, span } =>
            AstNode::StringLiteral { value: value.clone(), original: original.clone(), span: *span },
        AstNode::BoolLiteral { value, span } => AstNode::BoolLiteral { value: *value, span: *span },
        AstNode::Identifier { name, span } => AstNode::Identifier { name: name.clone(), span: *span },
        AstNode::UnitLiteral { span } => AstNode::UnitLiteral { span: *span },
        AstNode::TupleLiteral { elements, span } =>
            AstNode::TupleLiteral { elements: clone_nodes(elements), span: *span },
        _ => {
            proof { assert(false); }
            AstNode::UnitLiteral { span: Span::new(0, 0, 0) }
        },
    }
}

/// Clones a node of the second kinds.
#[verifier::rlimit(100)]
#[verifier::spinoff_prover]
fn clone_node_1(n: &AstNode) -> (r: AstNode)
    requires
        n is ArrayLiteral || n is DictLiteral || n is TupleField || n is ArrayIndex || n is Lambda || n is BinaryOp || n is UnaryOp || n is InternalFunction,
    ensures
        node_tree(r) == node_tree(*n),
    decreases n, 0nat,
{
    match n {
        AstNode::ArrayLiteral { elements, span } =>
            AstNode::ArrayLiteral { elements: clone_nodes(elements), span: *span },
        AstNode::DictLiteral { entries, span } =>
            AstNode::DictLiteral { entries: clone_node_pairs(entries), span: *span },
        AstNode::TupleField { base, index, span } =>
            AstNode::TupleField { base: clone_box(base), index: *index, span: *span },
        AstNode::ArrayIndex { base, index, span } =>
            AstNode::ArrayIndex { base: clone_box(base), index: clone_box(index), span: *span },
        AstNode::Lambda { params, body, span } =>
            AstNode::Lambda { params: clone_lambda_params(params), body: Box::new(clone_lambda_body(body)), span: *span },
        AstNode::BinaryOp { left, op, right, span } =>
            AstNode::BinaryOp { left: clone_box(left), op: *op, right: clone_box(right), span: *span },
        AstNode::UnaryOp { op, operand, span } =>
            AstNode::UnaryOp { op: *op, operand: clone_box(operand), span: *span },
        AstNode::InternalFunction { name, type_params, params, return_type, name_span, is_exported, is_async } =>
            AstNode::InternalFunction {
                name: name.clone(),
                type_params: clone_generic_params(type_params),
                params: clone_params(params),
                return_type: clone_type_opt(return_type),
                name_span: *name_span,
                is_exported: *is_exported,
                is_async: *is_async,
            },
        _ => {
            proof { assert(false); }
            AstNode::UnitLiteral { span: Span::new(0, 0, 0) }
        },
    }
}

/// Clones a node of the third kinds.
#[verifier::rlimit(100)]
#[verifier::spinoff_prover]
fn clone_node_2(n: &AstNode) -> (r: AstNode)
    requires
        n is Function || n is Call || n is Invoke || n is MethodCall || n is TypeMethodCall || n is TypeValue || n is Await || n is StructDef,
    ensures
        node_tree(r) == node_tree(*n),
    decreases n, 0nat,
{
    match n {
        AstNode::Function {
            name, extension_receiver, type_params, params, return_type, body, name_span, closing_span,
            is_exported, is_async,
        } => AstNode::Function {
            name: name.clone(),
            extension_receiver: clone_ext(extension_receiver),
            type_params: clone_generic_params(type_params),
            params: clone_params(params),
            return_type: clone_type_opt(return_type),
            body: clone_nodes(body),
            name_span: *name_span,
            closing_span: *closing_span,
            is_exported: *is_exported,
            is_async: *is_async,
        },
        AstNode::Call { callee, type_args, arguments, span } =>
            AstNode::Call { callee: callee.clone(), type_args: clone_type_exprs(type_args), arguments: clone_call_args(arguments), span: *span },
        AstNode::Invoke { callee, arguments, span } =>
            AstNode::Invoke { callee: clone_box(callee), arguments: clone_call_args(arguments), span: *span },
        AstNode::MethodCall { receiver, method, arguments, span } =>
            AstNode::MethodCall { receiver: clone_box(receiver), method: method.clone(), arguments: clone_call_args(arguments), span: *span },
        AstNode::TypeMethodCall { ty_name, method, arguments, span } =>
            AstNode::TypeMethodCall { ty_name: ty_name.clone(), method: method.clone(), arguments: clone_call_args(arguments), span: *span },
        AstNode::TypeValue { ty_name, span } => AstNode::TypeValue { ty_name: ty_name.clone(), span: *span },
        AstNode::Await { expr, span } => AstNode::Await { expr: clone_box(expr), span: *span },
        AstNode::StructDef { name, type_params, fields, is_unit, is_internal, name_span, span, is_exported } =>
            AstNode::StructDef {
                name: name.clone(),
                type_params: clone_generic_params(type_params),
                fields: clone_field_decls(fields),
                is_unit: *is_unit,
                is_internal: *is_internal,
                name_span: *name_span,
                span: *span,
                is_exported: *is_exported,
            },
        _ => {
            proof { assert(false); }
            AstNode::UnitLiteral { span: Span::new(0, 0, 0) }
        },
    }
}

/// Clones a node of the fourth kinds.
#[verifier::rlimit(100)]
#[verifier::spinoff_prover]
fn clone_node_3(n: &AstNode) -> (r: AstNode)
    requires
        n is StructLiteral || n is FieldAccess || n is EnumDef || n is TypeAlias || n is EnumVariantCtor || n is Return || n is Let || n is Assign,
    ensures
        node_tree(r) == node_tree(*n),
    decreases n, 0nat,
{
    match n {
        AstNode::StructLiteral { name, type_args, fields, update, span } =>
            AstNode::StructLiteral {
                name: name.clone(),
                type_args: clone_type_exprs(type_args),
                fields: clone_named_nodes(fields),
                update: clone_box_opt(update),
                span: *span,
            },
        AstNode::FieldAccess { base, field, span } =>
            AstNode::FieldAccess { base: clone_box(base), field: field.clone(), span: *span },
        AstNode::EnumDef { name, type_params, variants, is_internal, name_span, span, is_exported } =>
            AstNode::EnumDef {
                name: name.clone(),
                type_params: clone_generic_params(type_params),
                variants: clone_variant_decls(variants),
                is_internal: *is_internal,
                name_span: *name_span,
                span: *span,
                is_exported: *is_exported,
            },
        AstNode::TypeAlias { name, type_params, target, name_span, span, is_exported } =>
            AstNode::TypeAlias {
                name: name.clone(),
                type_params: clone_generic_params(type_params),
                target: target.clone(),
                name_span: *name_span,
                span: *span,
                is_exported: *is_exported,
            },
        AstNode::EnumVariantCtor { enum_name, type_args, variant, payloads, span } =>
            AstNode::EnumVariantCtor {
                enum_name: enum_name.clone(),
                type_args: clone_type_exprs(type_args),
                variant: variant.clone(),
                payloads: clone_nodes(payloads),
                span: *span,
            },
        AstNode::Return { value, span } => AstNode::Return { value: clone_box_opt(value), span: *span },
        AstNode::Let { pattern, type_annotation, initializer, is_const, is_exported, span } =>
            AstNode::Let {
                pattern: pattern.clone(),
                type_annotation: clone_type_opt(type_annotation),
                initializer: clone_box_opt(initializer),
                is_const: *is_const,
                is_exported: *is_exported,
                span: *span,
            },
        AstNode::Assign { pattern, value, span } =>
            AstNode::Assign { pattern: pattern.clone(), value: clone_box(value), span: *span },
        _ => {
            proof { assert(false); }
            AstNode::UnitLiteral { span: Span::new(0, 0, 0) }
        },
    }
}

/// Clones a node of the fifth kinds.
#[verifier::rlimit(100)]
#[verifier::spinoff_prover]
fn clone_node_4(n: &AstNode) -> (r: AstNode)
    requires
        n is AssignExpr || n is CompoundAssign || n is Block || n is If || n is IfLet || n is While || n is Match || n is Break || n is Continue || n is Program,
    ensures
        node_tree(r) == node_tree(*n),
    decreases n, 0nat,
{
    match n {
        AstNode::AssignExpr { lhs, rhs, span } =>
            AstNode::AssignExpr { lhs: clone_box(lhs), rhs: clone_box(rhs), span: *span },
        AstNode::CompoundAssign { lhs, op, rhs, span } =>
            AstNode::CompoundAssign { lhs: clone_box(lhs), op: *op, rhs: clone_box(rhs), span: *span },
        AstNode::Block { body, closing_span } => AstNode::Block { body: clone_nodes(body), closing_span: *closing_span },
        AstNode::If { condition, then_body, else_body, span } =>
            AstNode::If {
                condition: clone_box(condition),
                then_body: clone_nodes(then_body),
                else_body: clone_nodes_opt(else_body),
                span: *span,
            },
        AstNode::IfLet { pattern, value, then_body, else_body, span } =>
            AstNode::IfLet {
                pattern: pattern.clone(),
                value: clone_box(value),
                then_body: clone_nodes(then_body),
                else_body: clone_nodes_opt(else_body),
                span: *span,
            },
        AstNode::While { condition, body, span } =>
            AstNode::While { condition: clone_box(condition), body: clone_nodes(body), span: *span },
        AstNode::Match { scrutinee, arms, span } =>
            AstNode::Match { scrutinee: clone_box(scrutinee), arms: clone_arms(arms), span: *span },
        AstNode::Break { span } => AstNode::Break { span: *span },
        AstNode::Continue { span } => AstNode::Continue { span: *span },
        AstNode::Program(items) => AstNode::Program(clone_nodes(items)),
        _ => {
            proof { assert(false); }
            AstNode::UnitLiteral { span: Span::new(0, 0, 0) }
        },
    }
}

fn clone_box(b: &Box<AstNode>) -> (r: Box<AstNode>)
    ensures
        node_tree(*r) == node_tree(**b),
    decreases b, 2nat,
{
    Box::new((&**b).clone())
}

fn clone_box_opt(b: &Option<Box<AstNode>>) -> (r: Option<Box<AstNode>>)
    ensures
        r is Some == b is Some,
        opt_node_tree(r) == opt_node_tree(*b),
    decreases b, 3nat,
{
    match b {
        Some(x) => Some(clone_box(x)),
        None => None,
    }
}

fn clone_nodes(v: &Vec<AstNode>) -> (r: Vec<AstNode>)
    ensures
        r@.len() == v@.len(),
        node_trees(r@) == node_trees(v@),
    decreases v, 1nat,
{
    let mut out: Vec<AstNode> = Vec::new();
    let mut i: usize = 0;
    while i < v.len()
        invariant
            i <= v@.len(),
            out@.len() == i,
            node_trees(out@) == node_trees(v@.take(i as int)),
        decreases v@.len() - i,
    {
        let ghost before = out@;
        out.push(v[i].clone());
        proof {
            assert(out@.drop_last() =~= before);
            assert(v@.take(i + 1).drop_last() =~= v@.take(i as int));
        }
        i += 1;
    }
    proof { assert(v@.take(v@.len() as int) =~= v@); }
    out
}

fn clone_ext(e: &Option<ExtensionReceiver>) -> (r: Option<ExtensionReceiver>)
    ensures
        ext_tree(r) == ext_tree(*e),
{
    match e {
        Some(e) => Some(ExtensionReceiver { ty: e.ty.clone(), method_name: e.method_name.clone() }),
        None => None,
    }
}

fn clone_nodes_opt(v: &Option<Vec<AstNode>>) -> (r: Option<Vec<AstNode>>)
    ensures
        opt_nodes_tree(r) == opt_nodes_tree(*v),
    decreases v, 2nat,
{
    match v {
        Some(x) => Some(clone_nodes(x)),
        None => None,
    }
}

fn clone_node_pairs(v: &Vec<(AstNode, AstNode)>) -> (r: Vec<(AstNode, AstNode)>)
    ensures
        r@.len() == v@.len(),
        pair_trees(r@) == pair_trees(v@),
    decreases v, 1nat,
{
    let mut out: Vec<(AstNode, AstNode)> = Vec::new();
    let mut i: usize = 0;
    while i < v.len()
        invariant
            i <= v@.len(),
            out@.len() == i,
            pair_trees(out@) == pair_trees(v@.take(i as int)),
        decreases v@.len() - i,
    {
        let ghost before = out@;
        out.push((v[i].0.clone(), v[i].1.clone()));
        proof {
            assert(out@.drop_last() =~= before);
            assert(v@.take(i + 1).drop_last() =~= v@.take(i as int));
        }
        i += 1;
    }
    proof { assert(v@.take(v@.len() as int) =~= v@); }
    out
}

fn clone_named_nodes(v: &Vec<(String, AstNode)>) -> (r: Vec<(String, AstNode)>)
    ensures
        r@.len() == v@.len(),
        named_trees(r@) == named_trees(v@),
    decreases v, 1nat,
{
    let mut out: Vec<(String, AstNode)> = Vec::new();
    let mut i: usize = 0;
    while i < v.len()
        invariant
            i <= v@.len(),
            out@.len() == i,
            named_trees(out@) == named_trees(v@.take(i as int)),
        decreases v@.len() - i,
    {
        let ghost before = out@;
        out.push((v[i].0.clone(), v[i].1.clone()));
        proof {
            assert(out@.drop_last() =~= before);
            assert(v@.take(i + 1).drop_last() =~= v@.take(i as int));
        }
        i += 1;
    }
    proof { assert(v@.take(v@.len() as int) =~= v@); }
    out
}



fn clone_params(v: &Vec<Param>) -> (r: Vec<Param>)
    ensures
        r@.len() == v@.len(),
        param_trees(r@) == param_trees(v@),
    decreases v, 1nat,
{
    let mut out: Vec<Param> = Vec::new();
    let mut i: usize = 0;
    while i < v.len()
        invariant
            i <= v@.len(),
            out@.len() == i,
            param_trees(out@) == param_trees(v@.take(i as int)),
        decreases v@.len() - i,
    {
        let ghost before = out@;
        out.push(v[i].clone());
        proof {
            assert(out@.drop_last() =~= before);
            assert(v@.take(i + 1).drop_last() =~= v@.take(i as int));
        }
        i += 1;
    }
    proof { assert(v@.take(v@.len() as int) =~= v@); }
    out
}

impl Clone for Param {
    fn clone(&self) -> (r: Self)
        ensures
            param_tree(r) == param_tree(*self),
        decreases self, 0nat,
    {
        Param {
            name: self.name.clone(),
            name_span: self.name_span,
            is_wildcard: self.is_wildcard,
            is_params: self.is_params,
            ty: self.ty.clone(),
            default_value: clone_box_opt(&self.default_value),
        }
    }
}

fn clone_call_args(v: &Vec<CallArg>) -> (r: Vec<CallArg>)
    ensures
        r@.len() == v@.len(),
        arg_trees(r@) == arg_trees(v@),
    decreases v, 1nat,
{
    let mut out: Vec<CallArg> = Vec::new();
    let mut i: usize = 0;
    while i < v.len()
        invariant
            i <= v@.len(),
            out@.len() == i,
            arg_trees(out@) == arg_trees(v@.take(i as int)),
        decreases v@.len() - i,
    {
        let ghost before = out@;
        out.push(v[i].clone());
        proof {
            assert(out@.drop_last() =~= before);
            assert(v@.take(i + 1).drop_last() =~= v@.take(i as int));
        }
        i += 1;
    }
    proof { assert(v@.take(v@.len() as int) =~= v@); }
    out
}

impl Clone for CallArg {
    fn clone(&self) -> (r: Self)
        ensures
            arg_tree(r) == arg_tree(*self),
        decreases self, 0nat,
    {
        match self {
            CallArg::Positional(e) => CallArg::Positional(e.clone()),
            CallArg::Named { name, name_span, value } =>
                CallArg::Named { name: name.clone(), name_span: *name_span, value: value.clone() },
        }
    }
}

fn clone_lambda_body(b: &LambdaBody) -> (r: LambdaBody)
    ensures
        lambda_body_tree(r) == lambda_body_tree(*b),
    decreases b, 0nat,
{
    match b {
        LambdaBody::Expr(e) => LambdaBody::Expr(e.clone()),
        LambdaBody::Block(v) => LambdaBody::Block(clone_nodes(v)),
    }
}

fn clone_arms(v: &Vec<MatchArm>) -> (r: Vec<MatchArm>)
    ensures
        r@.len() == v@.len(),
        arm_trees(r@) == arm_trees(v@),
    decreases v, 1nat,
{
    let mut out: Vec<MatchArm> = Vec::new();
    let mut i: usize = 0;
    while i < v.len()
        invariant
            i <= v@.len(),
            out@.len() == i,
            arm_trees(out@) == arm_trees(v@.take(i as int)),
        decreases v@.len() - i,
    {
        let arm = &v[i];
        let ghost before = out@;
        out.push(MatchArm {
            patterns: clone_patterns(&arm.patterns),
            guard: clone_box_opt(&arm.guard),
            body: clone_box(&arm.body),
            span: arm.span,
        });
        proof {
            assert(out@.drop_last() =~= before);
            assert(v@.take(i + 1).drop_last() =~= v@.take(i as int));
        }
        i += 1;
    }
    proof { assert(v@.take(v@.len() as int) =~= v@); }
    out
}

} // verus!
