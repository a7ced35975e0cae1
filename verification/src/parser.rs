//! Recursive-descent parser from tokens to the abstract syntax tree.

use vstd::prelude::*;
use crate::ast::{
    AstNode, BinaryOp, CallArg, CompoundOp, ExtensionReceiver, FunctionTypeParam, GenericParam,
    ImportBinding, LambdaBody, LambdaParam, Param, Pattern, PatternElem, TypeExpr, UnaryOp,
    StructFieldDecl, StructPatternField, EnumVariantDecl, MatchArm, TypeShape, shape_of, shapes_of,
    param_shapes, param_name_of, lemma_shapes_of_index, lemma_param_shapes_index,
    binary_op_spelling, unary_op_spelling, compound_op_spelling,
};
use crate::error::{ParseError, Span};
use crate::lexer::{
    Lexer, Token, TokenKind, strip_underscores, all_digits, digits_value, parse_digits, lexed, valid_radices,
    lex_failure, lemma_failure_has_no_lexing, kind_spelling,
};
use crate::text::{lit, str_is, chars_to_string, push_str, str_chars};

verus! {

pub struct Parser {
    tokens: Vec<Token>,
    position: usize,
    eof: Token,
}

/// `new` is `old` after some tokens were consumed: same tokens, cursor not moved back.
pub open spec fn moved_on(old: Parser, new: Parser) -> bool {
    &&& new.wf()
    &&& new.toks() == old.toks()
    &&& old.pos() <= new.pos()
}

impl Parser {
    /// The tokens being parsed.
    pub closed spec fn toks(&self) -> Seq<Token> {
        self.tokens@
    }

    /// The index of the next token.
    pub closed spec fn pos(&self) -> int {
        self.position as int
    }

    /// The cursor lies within the tokens; past them the parser sees an end-of-file token.
    pub closed spec fn wf(&self) -> bool {
        &&& self.position <= self.tokens@.len()
        &&& self.eof.kind == TokenKind::Eof
        &&& valid_radices(self.tokens@)
    }

    /// How many tokens are left.
    pub open spec fn remaining(&self) -> int {
        self.toks().len() - self.pos()
    }

    /// The token under the cursor (an end-of-file token past the end).
    pub closed spec fn current(&self) -> Token {
        if self.position < self.tokens@.len() { self.tokens@[self.position as int] } else { self.eof }
    }

    /// The parser sits on an end-of-file token.
    pub open spec fn at_end(&self) -> bool {
        self.current().kind is Eof
    }

    pub fn new(tokens: Vec<Token>) -> (p: Self)
        ensures
            valid_radices(tokens@) ==> p.wf(),
            p.toks() == tokens@,
            p.pos() == 0,
    {
        Parser { tokens, position: 0, eof: Token { kind: TokenKind::Eof, span: Span::new(1, 1, 0) } }
    }

    fn peek(&self) -> (t: &Token)
        requires
            self.wf(),
        ensures
            *t == self.current(),
            t.kind is Eof || self.position < self.tokens@.len(),
    {
        if self.position < self.tokens.len() {
            &self.tokens[self.position]
        } else {
            &self.eof
        }
    }

    fn peek_n(&self, n: usize) -> (t: &Token)
        requires
            self.wf(),
        ensures
            self.position + n < self.tokens@.len() ==> *t == self.tokens@[self.position + n],
            n == 0 ==> *t == self.current(),
            self.position + n >= self.tokens@.len() ==> t.kind is Eof,
    {
        if n < self.tokens.len() && self.position < self.tokens.len() - n {
            &self.tokens[self.position + n]
        } else {
            &self.eof
        }
    }

    fn advance(&mut self)
        requires
            old(self).wf(),
        ensures
            moved_on(*old(self), *final(self)),
            final(self).eof == old(self).eof,
            old(self).position < old(self).tokens@.len() ==> final(self).pos() == old(self).pos() + 1,
            !(old(self).current().kind is Eof) ==> final(self).pos() == old(self).pos() + 1,
    {
        if self.position < self.tokens.len() {
            self.position += 1;
        }
    }

    fn is_at_end(&self) -> (r: bool)
        requires
            self.wf(),
        ensures
            r == self.at_end(),
    {
        matches!(self.peek().kind, TokenKind::Eof)
    }

}


/// The error for an unexpected token, with its message and where it stands.
pub open spec fn unexpected_at(e: ParseError, msg: Seq<char>, span: Span) -> bool {
    e matches ParseError::UnexpectedToken { message, span: Some(s) } && message@ == msg && s == span
}

impl Parser {
    /// An "unexpected token" error at the current token.
    fn unexpected(&self, msg: &str) -> (e: ParseError)
        requires
            self.wf(),
        ensures
            unexpected_at(e, msg@, self.current().span),
    {
        ParseError::UnexpectedToken { message: lit(msg), span: Some(self.peek().span) }
    }

    fn take_identifier(&mut self) -> (r: Result<(String, Span), ParseError>)
        requires
            old(self).wf(),
        ensures
            moved_on(*old(self), *final(self)),
            final(self).eof == old(self).eof,
            r is Ok <==> old(self).current().kind is Identifier,
            r matches Ok((name, sp)) ==> final(self).pos() == old(self).pos() + 1
                && old(self).current().kind == TokenKind::Identifier(name)
                && sp == old(self).current().span,
            r matches Err(e) ==> final(self).pos() == old(self).pos()
                && unexpected_at(e, "expected identifier"@, old(self).current().span),
    {
        let t = self.peek();
        match &t.kind {
            TokenKind::Identifier(s) => {
                let name = s.clone();
                let span = t.span;
                self.advance();
                Ok((name, span))
            },
            _ => Err(self.unexpected("expected identifier")),
        }
    }

    fn expect_colon(&mut self) -> (r: Result<(), ParseError>)
        requires
            old(self).wf(),
        ensures
            moved_on(*old(self), *final(self)),
            final(self).eof == old(self).eof,
            r is Ok <==> old(self).current().kind is Colon,
            r is Ok ==> final(self).pos() == old(self).pos() + 1,
            r matches Err(e) ==> final(self).pos() == old(self).pos()
                && unexpected_at(e, "expected `:`"@, old(self).current().span),
    {
        if matches!(self.peek().kind, TokenKind::Colon) {
            self.advance();
            Ok(())
        } else {
            Err(self.unexpected("expected `:`"))
        }
    }

    fn expect_semicolon(&mut self) -> (r: Result<(), ParseError>)
        requires
            old(self).wf(),
        ensures
            moved_on(*old(self), *final(self)),
            final(self).eof == old(self).eof,
            r is Ok <==> old(self).current().kind is Semicolon,
            r is Ok ==> final(self).pos() == old(self).pos() + 1,
            r matches Err(e) ==> final(self).pos() == old(self).pos()
                && unexpected_at(e, "expected `;`"@, old(self).current().span),
    {
        if matches!(self.peek().kind, TokenKind::Semicolon) {
            self.advance();
            Ok(())
        } else {
            Err(self.unexpected("expected `;`"))
        }
    }

    fn expect_lparen(&mut self) -> (r: Result<(), ParseError>)
        requires
            old(self).wf(),
        ensures
            moved_on(*old(self), *final(self)),
            final(self).eof == old(self).eof,
            r is Ok <==> old(self).current().kind is LParen,
            r is Ok ==> final(self).pos() == old(self).pos() + 1,
            r matches Err(e) ==> final(self).pos() == old(self).pos()
                && unexpected_at(e, "expected `(`"@, old(self).current().span),
    {
        if matches!(self.peek().kind, TokenKind::LParen) {
            self.advance();
            Ok(())
        } else {
            Err(self.unexpected("expected `(`"))
        }
    }

    fn expect_lbracket(&mut self) -> (r: Result<(), ParseError>)
        requires
            old(self).wf(),
        ensures
            moved_on(*old(self), *final(self)),
            final(self).eof == old(self).eof,
            r is Ok <==> old(self).current().kind is LBracket,
            r is Ok ==> final(self).pos() == old(self).pos() + 1,
            r matches Err(e) ==> final(self).pos() == old(self).pos()
                && unexpected_at(e, "expected `[`"@, old(self).current().span),
    {
        if matches!(self.peek().kind, TokenKind::LBracket) {
            self.advance();
            Ok(())
        } else {
            Err(self.unexpected("expected `[`"))
        }
    }

    fn expect_rparen(&mut self) -> (r: Result<(), ParseError>)
        requires
            old(self).wf(),
        ensures
            moved_on(*old(self), *final(self)),
            final(self).eof == old(self).eof,
            r is Ok <==> old(self).current().kind is RParen,
            r is Ok ==> final(self).pos() == old(self).pos() + 1,
            r matches Err(e) ==> final(self).pos() == old(self).pos()
                && unexpected_at(e, "expected `)`"@, old(self).current().span),
    {
        if matches!(self.peek().kind, TokenKind::RParen) {
            self.advance();
            Ok(())
        } else {
            Err(self.unexpected("expected `)`"))
        }
    }

    fn expect_rbracket(&mut self) -> (r: Result<(), ParseError>)
        requires
            old(self).wf(),
        ensures
            moved_on(*old(self), *final(self)),
            final(self).eof == old(self).eof,
            r is Ok <==> old(self).current().kind is RBracket,
            r is Ok ==> final(self).pos() == old(self).pos() + 1,
            r matches Err(e) ==> final(self).pos() == old(self).pos()
                && unexpected_at(e, "expected `]`"@, old(self).current().span),
    {
        if matches!(self.peek().kind, TokenKind::RBracket) {
            self.advance();
            Ok(())
        } else {
            Err(self.unexpected("expected `]`"))
        }
    }

    fn expect_lbrace(&mut self) -> (r: Result<(), ParseError>)
        requires
            old(self).wf(),
        ensures
            moved_on(*old(self), *final(self)),
            final(self).eof == old(self).eof,
            r is Ok <==> old(self).current().kind is LBrace,
            r is Ok ==> final(self).pos() == old(self).pos() + 1,
            r matches Err(e) ==> final(self).pos() == old(self).pos()
                && unexpected_at(e, "expected `{`"@, old(self).current().span),
    {
        if matches!(self.peek().kind, TokenKind::LBrace) {
            self.advance();
            Ok(())
        } else {
            Err(self.unexpected("expected `{`"))
        }
    }

    fn expect_rbrace(&mut self) -> (r: Result<(), ParseError>)
        requires
            old(self).wf(),
        ensures
            moved_on(*old(self), *final(self)),
            final(self).eof == old(self).eof,
            r is Ok <==> old(self).current().kind is RBrace,
            r is Ok ==> final(self).pos() == old(self).pos() + 1,
            r matches Err(e) ==> final(self).pos() == old(self).pos()
                && unexpected_at(e, "expected `}`"@, old(self).current().span),
    {
        if matches!(self.peek().kind, TokenKind::RBrace) {
            self.advance();
            Ok(())
        } else {
            Err(self.unexpected("expected `}`"))
        }
    }

    fn expect_eq(&mut self) -> (r: Result<(), ParseError>)
        requires
            old(self).wf(),
        ensures
            moved_on(*old(self), *final(self)),
            final(self).eof == old(self).eof,
            r is Ok <==> old(self).current().kind is Eq,
            r is Ok ==> final(self).pos() == old(self).pos() + 1,
            r matches Err(e) ==> final(self).pos() == old(self).pos()
                && unexpected_at(e, "expected `=`"@, old(self).current().span),
    {
        if matches!(self.peek().kind, TokenKind::Eq) {
            self.advance();
            Ok(())
        } else {
            Err(self.unexpected("expected `=`"))
        }
    }

    fn compound_op_from_peek(&self) -> (r: Option<CompoundOp>)
        requires
            self.wf(),
        ensures
            r == compound_op_of(self.current().kind),
    {
        match self.peek().kind {
            TokenKind::PlusEq => Some(CompoundOp::Add),
            TokenKind::MinusEq => Some(CompoundOp::Sub),
            TokenKind::StarEq => Some(CompoundOp::Mul),
            TokenKind::SlashEq => Some(CompoundOp::Div),
            TokenKind::PercentEq => Some(CompoundOp::Mod),
            TokenKind::AndEq => Some(CompoundOp::BitAnd),
            TokenKind::OrEq => Some(CompoundOp::BitOr),
            TokenKind::CaretEq => Some(CompoundOp::BitXor),
            TokenKind::ShiftLeftEq => Some(CompoundOp::ShiftLeft),
            TokenKind::ShiftRightEq => Some(CompoundOp::ShiftRight),
            _ => None,
        }
    }
}

/// The compound assignment a token spells, if any.
pub open spec fn compound_op_of(k: TokenKind) -> Option<CompoundOp> {
    match k {
        TokenKind::PlusEq => Some(CompoundOp::Add),
        TokenKind::MinusEq => Some(CompoundOp::Sub),
        TokenKind::StarEq => Some(CompoundOp::Mul),
        TokenKind::SlashEq => Some(CompoundOp::Div),
        TokenKind::PercentEq => Some(CompoundOp::Mod),
        TokenKind::AndEq => Some(CompoundOp::BitAnd),
        TokenKind::OrEq => Some(CompoundOp::BitOr),
        TokenKind::CaretEq => Some(CompoundOp::BitXor),
        TokenKind::ShiftLeftEq => Some(CompoundOp::ShiftLeft),
        TokenKind::ShiftRightEq => Some(CompoundOp::ShiftRight),
        _ => None,
    }
}


/// `item` with its export flag set, for the items that can be exported.
pub open spec fn exported_item(item: AstNode) -> Option<AstNode> {
    match item {
        AstNode::InternalFunction { name, type_params, params, return_type, name_span, is_async, .. } =>
            Some(AstNode::InternalFunction { name, type_params, params, return_type, name_span, is_exported: true, is_async }),
        AstNode::Function { name, extension_receiver, type_params, params, return_type, body, name_span, closing_span, is_async, .. } =>
            Some(AstNode::Function { name, extension_receiver, type_params, params, return_type, body, name_span, closing_span, is_exported: true, is_async }),
        AstNode::StructDef { name, type_params, fields, is_unit, is_internal, name_span, span, .. } =>
            Some(AstNode::StructDef { name, type_params, fields, is_unit, is_internal, name_span, span, is_exported: true }),
        AstNode::EnumDef { name, type_params, variants, is_internal, name_span, span, .. } =>
            Some(AstNode::EnumDef { name, type_params, variants, is_internal, name_span, span, is_exported: true }),
        AstNode::TypeAlias { name, type_params, target, name_span, span, .. } =>
            Some(AstNode::TypeAlias { name, type_params, target, name_span, span, is_exported: true }),
        AstNode::Let { pattern, type_annotation, initializer, is_const, span, .. } =>
            if is_const {
                Some(AstNode::Let { pattern, type_annotation, initializer, is_const: true, is_exported: true, span })
            } else {
                None
            },
        _ => None,
    }
}

/// Patterns a top-level `let` accepts: `_`, a name, `()` and `[]`.
pub open spec fn top_level_pattern_ok(p: Pattern) -> bool {
    match p {
        Pattern::Wildcard { .. } | Pattern::Binding { .. } => true,
        Pattern::Tuple { elements, .. } => elements@.len() == 0,
        Pattern::Array { elements, .. } => elements@.len() == 0,
        _ => false,
    }
}

/// The span a pattern reports errors at.
pub open spec fn pattern_span(p: Pattern) -> Span {
    match p {
        Pattern::Wildcard { span } => span,
        Pattern::Binding { name_span, .. } => name_span,
        Pattern::IntLiteral { span, .. } => span,
        Pattern::StringLiteral { span, .. } => span,
        Pattern::BoolLiteral { span, .. } => span,
        Pattern::Tuple { span, .. } => span,
        Pattern::Array { span, .. } => span,
        Pattern::Struct { span, .. } => span,
        Pattern::EnumVariant { span, .. } => span,
    }
}

/// The kind of the token `n` places after the cursor at `pos` (end of file past the end).
pub open spec fn kind_at(toks: Seq<Token>, pos: int, n: int) -> TokenKind {
    if 0 <= pos + n < toks.len() { toks[pos + n].kind } else { TokenKind::Eof }
}

/// A token that may follow the `>` closing generic arguments in an expression.
pub open spec fn continues_generic(k: TokenKind) -> bool {
    ||| k is LParen ||| k is ColonColon ||| k is LBrace ||| k is Semicolon ||| k is Comma
    ||| k is RParen ||| k is RBracket ||| k is RBrace ||| k is Dot ||| k is EqEq ||| k is Ne
    ||| k is Lt ||| k is Gt ||| k is Le ||| k is Ge ||| k is Plus ||| k is Minus ||| k is Star
    ||| k is Slash ||| k is Percent ||| k is AndAnd ||| k is OrOr ||| k is Eq
}

/// Scanning from the token `i` places after the cursor with `depth` `<` still open: a `>`
/// that closes them all, followed by a token that `continues_generic`, comes at or before
/// the 128th token and before `;`, `{`, `}`, `=`, `=>` or the end.
pub open spec fn generic_args_ahead(toks: Seq<Token>, pos: int, i: int, depth: int) -> bool
    decreases 129 - i,
{
    if i < 1 || i > 128 {
        false
    } else {
        match kind_at(toks, pos, i) {
            TokenKind::Lt => generic_args_ahead(toks, pos, i + 1, depth + 1),
            TokenKind::Gt => if depth == 1 {
                continues_generic(kind_at(toks, pos, i + 1))
            } else {
                generic_args_ahead(toks, pos, i + 1, depth - 1)
            },
            TokenKind::Eof | TokenKind::Semicolon | TokenKind::LBrace | TokenKind::RBrace
            | TokenKind::Eq | TokenKind::FatArrow => false,
            _ => generic_args_ahead(toks, pos, i + 1, depth),
        }
    }
}

impl Parser {
    /// Whether the `<` under the cursor likely opens generic arguments: a balanced `>`
    /// (within 128 tokens, before `;`, `{`, `}`, `=`, `=>` or the end) followed by a
    /// token that can continue a generic expression.
    fn lt_starts_generic_args(&self) -> (r: bool)
        requires
            self.wf(),
        ensures
            r == generic_args_ahead(self.toks(), self.pos(), 1, 1),
    {
        let mut depth: i32 = 1;
        let mut i: usize = 1;
        loop
            invariant
                self.wf(),
                1 <= i <= 128,
                1 <= depth <= i,
                generic_args_ahead(self.toks(), self.pos(), 1, 1)
                    == generic_args_ahead(self.toks(), self.pos(), i as int, depth as int),
            decreases 129 - i,
        {
            match &self.peek_n(i).kind {
                TokenKind::Lt => {
                    depth += 1;
                },
                TokenKind::Gt => {
                    depth -= 1;
                    if depth == 0 {
                        return match self.peek_n(i + 1).kind {
                            TokenKind::LParen | TokenKind::ColonColon | TokenKind::LBrace
                            | TokenKind::Semicolon | TokenKind::Comma | TokenKind::RParen
                            | TokenKind::RBracket | TokenKind::RBrace | TokenKind::Dot
                            | TokenKind::EqEq | TokenKind::Ne | TokenKind::Lt | TokenKind::Gt
                            | TokenKind::Le | TokenKind::Ge | TokenKind::Plus | TokenKind::Minus
                            | TokenKind::Star | TokenKind::Slash | TokenKind::Percent
                            | TokenKind::AndAnd | TokenKind::OrOr | TokenKind::Eq => true,
                            _ => false,
                        };
                    }
                },
                TokenKind::Eof | TokenKind::Semicolon | TokenKind::LBrace | TokenKind::RBrace
                | TokenKind::Eq | TokenKind::FatArrow => {
                    return false;
                },
                _ => {},
            }
            i += 1;
            assert(generic_args_ahead(self.toks(), self.pos(), 1, 1)
                == generic_args_ahead(self.toks(), self.pos(), i as int, depth as int));
            if i > 128 {
                return false;
            }
        }
    }

    fn mark_exported(&self, item: AstNode) -> (r: Result<AstNode, ParseError>)
        ensures
            match exported_item(item) {
                Some(x) => r == Ok::<AstNode, ParseError>(x),
                None => r matches Err(ParseError::UnexpectedToken { message, span: None })
                    && message@ == "item cannot be exported"@,
            },
    {
        match item {
            AstNode::InternalFunction { name, type_params, params, return_type, name_span, is_async, .. } =>
                Ok(AstNode::InternalFunction { name, type_params, params, return_type, name_span, is_exported: true, is_async }),
            AstNode::Function { name, extension_receiver, type_params, params, return_type, body, name_span, closing_span, is_async, .. } =>
                Ok(AstNode::Function { name, extension_receiver, type_params, params, return_type, body, name_span, closing_span, is_exported: true, is_async }),
            AstNode::StructDef { name, type_params, fields, is_unit, is_internal, name_span, span, .. } =>
                Ok(AstNode::StructDef { name, type_params, fields, is_unit, is_internal, name_span, span, is_exported: true }),
            AstNode::EnumDef { name, type_params, variants, is_internal, name_span, span, .. } =>
                Ok(AstNode::EnumDef { name, type_params, variants, is_internal, name_span, span, is_exported: true }),
            AstNode::TypeAlias { name, type_params, target, name_span, span, .. } =>
                Ok(AstNode::TypeAlias { name, type_params, target, name_span, span, is_exported: true }),
            AstNode::Let { pattern, type_annotation, initializer, is_const: true, span, .. } =>
                Ok(AstNode::Let { pattern, type_annotation, initializer, is_const: true, is_exported: true, span }),
            _ => Err(ParseError::UnexpectedToken { message: lit("item cannot be exported"), span: None }),
        }
    }

    fn validate_top_level_let_pattern(&self, p: &Pattern) -> (r: Result<(), ParseError>)
        ensures
            r is Ok <==> top_level_pattern_ok(*p),
            r matches Err(ParseError::UnexpectedToken { span, .. }) ==> span == Some(pattern_span(*p)),
            r matches Err(e) ==> e is UnexpectedToken,
    {
        match p {
            Pattern::Wildcard { .. } | Pattern::Binding { .. } => Ok(()),
            Pattern::IntLiteral { span, .. } | Pattern::StringLiteral { span, .. } | Pattern::BoolLiteral { span, .. } =>
                Err(ParseError::UnexpectedToken {
                    message: lit("literal patterns are not allowed at the top level"),
                    span: Some(*span),
                }),
            Pattern::Tuple { elements, span } => {
                if elements.len() == 0 {
                    return Ok(());
                }
                Err(ParseError::UnexpectedToken {
                    message: lit("tuple patterns are not allowed at the top level"),
                    span: Some(*span),
                })
            },
            Pattern::Array { elements, span } => {
                if elements.len() == 0 {
                    return Ok(());
                }
                Err(ParseError::UnexpectedToken {
                    message: lit("array patterns are not allowed at the top level"),
                    span: Some(*span),
                })
            },
            Pattern::Struct { span, .. } => Err(ParseError::UnexpectedToken {
                message: lit("struct patterns are not allowed at the top level"),
                span: Some(*span),
            }),
            Pattern::EnumVariant { span, .. } => Err(ParseError::UnexpectedToken {
                message: lit("enum patterns are not allowed at the top level"),
                span: Some(*span),
            }),
        }
    }
}


impl Parser {
    /// The name under which an extension receiver type is keyed (`Int`, `[Int]`,
    /// `(A, B)`, `Option<Int>`, `(x: A) => R`), or `None` when it holds `_`.
    fn type_expr_receiver_key(ty: &TypeExpr) -> (r: Option<String>)
        ensures
            ty matches TypeExpr::Named(n) ==> r matches Some(k) && k@ == n@,
            ty matches TypeExpr::TypeParam(n) ==> r matches Some(k) && k@ == n@,
            ty is Unit ==> (r matches Some(k) && k@ == "()"@),
            ty is Infer ==> r is None,
        decreases ty,
    {
        match ty {
            TypeExpr::Named(n) => Some(n.clone()),
            TypeExpr::Unit => Some(lit("()")),
            TypeExpr::Array(elem) => {
                let inner = match Self::type_expr_receiver_key(&**elem) {
                    Some(k) => k,
                    None => { return None; },
                };
                let mut out: Vec<char> = Vec::new();
                out.push('[');
                push_str(&mut out, inner.as_str());
                out.push(']');
                Some(chars_to_string(out.as_slice()))
            },
            TypeExpr::Tuple(parts) => {
                let mut out: Vec<char> = Vec::new();
                out.push('(');
                let mut i: usize = 0;
                while i < parts.len()
                    invariant
                        i <= parts@.len(),
                        ty is Tuple,
                        *ty == TypeExpr::Tuple(*parts),
                    decreases parts@.len() - i,
                {
                    if i > 0 {
                        push_str(&mut out, ", ");
                    }
                    proof {
                        assert(decreases_to!(*ty => ty->Tuple_0));
                        assert(decreases_to!(*parts => parts[i as int]));
                        assert(decreases_to!(*ty => parts[i as int]));
                    }
                    let k = match Self::type_expr_receiver_key(&parts[i]) {
                        Some(k) => k,
                        None => { return None; },
                    };
                    push_str(&mut out, k.as_str());
                    i += 1;
                }
                if parts.len() == 1 {
                    out.push(',');
                }
                out.push(')');
                Some(chars_to_string(out.as_slice()))
            },
            TypeExpr::TypeParam(n) => Some(n.clone()),
            TypeExpr::EnumApp { name, args } => {
                let mut out: Vec<char> = Vec::new();
                push_str(&mut out, name.as_str());
                out.push('<');
                let mut i: usize = 0;
                while i < args.len()
                    invariant
                        i <= args@.len(),
                        ty is EnumApp,
                        *ty == (TypeExpr::EnumApp { name: *name, args: *args }),
                    decreases args@.len() - i,
                {
                    if i > 0 {
                        push_str(&mut out, ", ");
                    }
                    proof {
                        assert(decreases_to!(*ty => ty->args));
                        assert(decreases_to!(*args => args[i as int]));
                        assert(decreases_to!(*ty => args[i as int]));
                    }
                    let k = match Self::type_expr_receiver_key(&args[i]) {
                        Some(k) => k,
                        None => { return None; },
                    };
                    push_str(&mut out, k.as_str());
                    i += 1;
                }
                out.push('>');
                Some(chars_to_string(out.as_slice()))
            },
            TypeExpr::Function { params, ret } => {
                let mut out: Vec<char> = Vec::new();
                out.push('(');
                let mut i: usize = 0;
                while i < params.len()
                    invariant
                        i <= params@.len(),
                        ty is Function,
                        *ty == (TypeExpr::Function { params: *params, ret: *ret }),
                    decreases params@.len() - i,
                {
                    if i > 0 {
                        push_str(&mut out, ", ");
                    }
                    proof {
                        assert(decreases_to!(*ty => ty->params));
                        assert(decreases_to!(*params => params[i as int]));
                        assert(decreases_to!(*ty => params[i as int].ty));
                    }
                    let rendered = match Self::type_expr_receiver_key(&params[i].ty) {
                        Some(k) => k,
                        None => { return None; },
                    };
                    match &params[i].name {
                        Some(n) => {
                            push_str(&mut out, n.as_str());
                            push_str(&mut out, ": ");
                        },
                        None => {},
                    }
                    push_str(&mut out, rendered.as_str());
                    i += 1;
                }
                push_str(&mut out, ") => ");
                let r = match Self::type_expr_receiver_key(&**ret) {
                    Some(k) => k,
                    None => { return None; },
                };
                push_str(&mut out, r.as_str());
                Some(chars_to_string(out.as_slice()))
            },
            TypeExpr::Infer => None,
        }
    }
}


/// The text of an identifier token (empty for other tokens).
pub open spec fn ident_text(k: TokenKind) -> Seq<char> {
    match k {
        TokenKind::Identifier(n) => n@,
        _ => Seq::empty(),
    }
}

/// What reading a type at a token gives: its shape and the index of the token after
/// it, a failure, or `Unread` when the type holds a parameter default (`= expr`), whose
/// reading this description leaves to the expression parser.
pub enum TypeRead {
    Parsed(TypeShape, int),
    Failed,
    Unread,
}

/// What reading the parameters of a parenthesised type gives: their shapes, whether one
/// was named, and the index after the closing `)`; a failure; or `Unread` as for types.
pub enum ParamsRead {
    Done(Seq<(Option<Seq<char>>, TypeShape, bool)>, bool, int),
    Failed,
    Unread,
}

/// What reading the type arguments inside `<...>` gives: their shapes and the index
/// after the closing `>`; a failure; or `Unread` as for types.
pub enum ArgsRead {
    Done(Seq<TypeShape>, int),
    Failed,
    Unread,
}

/// The type grammar, read from token `i` of `toks`:
/// `()`, `() => R`, `(T)`, `(A, B, ..)` (a trailing comma allowed), function types
/// `(a: A, B) => R` (a named parameter without `=> R` leaves the result to be inferred),
/// `[T]`, `[type T]`, `_`, `type T`, `Name` and `Name<A, ..>`.
pub open spec fn type_at(toks: Seq<Token>, i: int) -> TypeRead
    decreases toks.len() - i, 3nat,
{
    if i < 0 || i > toks.len() {
        TypeRead::Failed
    } else {
        match kind_at(toks, i, 0) {
            TokenKind::LParen => paren_type_at(toks, i),
            TokenKind::LBracket => bracket_type_at(toks, i),
            TokenKind::Underscore => TypeRead::Parsed(TypeShape::Infer, i + 1),
            TokenKind::Type => if kind_at(toks, i, 1) is Identifier {
                TypeRead::Parsed(TypeShape::TypeParam(ident_text(kind_at(toks, i, 1))), i + 2)
            } else {
                TypeRead::Failed
            },
            TokenKind::Identifier(n) => named_type_at(toks, i, n@),
            _ => TypeRead::Failed,
        }
    }
}

/// A type starting with the `(` at token `i`.
pub open spec fn paren_type_at(toks: Seq<Token>, i: int) -> TypeRead
    decreases toks.len() - i, 2nat,
{
    if i < 0 || i >= toks.len() {
        TypeRead::Failed
    } else if kind_at(toks, i, 1) is RParen {
        if kind_at(toks, i, 2) is FatArrow {
            match type_at(toks, i + 3) {
                TypeRead::Parsed(r, j) => TypeRead::Parsed(TypeShape::Function(Seq::empty(), Box::new(r)), j),
                TypeRead::Failed => TypeRead::Failed,
                TypeRead::Unread => TypeRead::Unread,
            }
        } else {
            TypeRead::Parsed(TypeShape::Unit, i + 2)
        }
    } else {
        match params_at(toks, i + 1, Seq::empty(), false) {
            ParamsRead::Done(ps, named, j) => {
                if j <= i {
                    TypeRead::Failed
                } else if kind_at(toks, j, 0) is FatArrow {
                    match type_at(toks, j + 1) {
                        TypeRead::Parsed(r, k) => TypeRead::Parsed(TypeShape::Function(ps, Box::new(r)), k),
                        TypeRead::Failed => TypeRead::Failed,
                        TypeRead::Unread => TypeRead::Unread,
                    }
                } else if named {
                    TypeRead::Parsed(TypeShape::Function(ps, Box::new(TypeShape::Infer)), j)
                } else if ps.len() == 1 {
                    TypeRead::Parsed(ps[0].1, j)
                } else {
                    TypeRead::Parsed(TypeShape::Tuple(
                        ps.map_values(|p: (Option<Seq<char>>, TypeShape, bool)| p.1)), j)
                }
            },
            ParamsRead::Failed => TypeRead::Failed,
            ParamsRead::Unread => TypeRead::Unread,
        }
    }
}

/// A type starting with the `[` at token `i`.
pub open spec fn bracket_type_at(toks: Seq<Token>, i: int) -> TypeRead
    decreases toks.len() - i, 2nat,
{
    if i < 0 || i >= toks.len() {
        TypeRead::Failed
    } else if kind_at(toks, i, 1) is Type {
        if kind_at(toks, i, 2) is Identifier && kind_at(toks, i, 3) is RBracket {
            TypeRead::Parsed(TypeShape::Array(Box::new(
                TypeShape::TypeParam(ident_text(kind_at(toks, i, 2))))), i + 4)
        } else {
            TypeRead::Failed
        }
    } else {
        match type_at(toks, i + 1) {
            TypeRead::Parsed(e, j) => if kind_at(toks, j, 0) is RBracket {
                TypeRead::Parsed(TypeShape::Array(Box::new(e)), j + 1)
            } else {
                TypeRead::Failed
            },
            TypeRead::Failed => TypeRead::Failed,
            TypeRead::Unread => TypeRead::Unread,
        }
    }
}

/// A type starting with the name `n` at token `i`: the name alone, or with `<...>`.
pub open spec fn named_type_at(toks: Seq<Token>, i: int, n: Seq<char>) -> TypeRead
    decreases toks.len() - i, 2nat,
{
    if i < 0 || i >= toks.len() {
        TypeRead::Failed
    } else if kind_at(toks, i, 1) is Lt {
        if kind_at(toks, i, 2) is Gt {
            TypeRead::Parsed(TypeShape::EnumApp(n, Seq::empty()), i + 3)
        } else {
            match args_at(toks, i + 2, Seq::empty()) {
                ArgsRead::Done(args, j) => TypeRead::Parsed(TypeShape::EnumApp(n, args), j),
                ArgsRead::Failed => TypeRead::Failed,
                ArgsRead::Unread => TypeRead::Unread,
            }
        }
    } else {
        TypeRead::Parsed(TypeShape::Named(n), i + 1)
    }
}

/// The parameters of a parenthesised type, read from token `i` after those in `acc`:
/// an optional `name:`, a type, then `)`, `,)` or `,` and the next parameter; a `=`
/// after the type starts a default.
pub open spec fn params_at(toks: Seq<Token>, i: int, acc: Seq<(Option<Seq<char>>, TypeShape, bool)>,
    named: bool) -> ParamsRead
    decreases toks.len() - i, 4nat,
{
    if i < 0 || i > toks.len() {
        ParamsRead::Failed
    } else {
        let has_name = kind_at(toks, i, 0) is Identifier && kind_at(toks, i, 1) is Colon;
        let start = if has_name { i + 2 } else { i };
        let name = if has_name { Some(ident_text(kind_at(toks, i, 0))) } else { None };
        match type_at(toks, start) {
            TypeRead::Parsed(t, j) => params_tail(toks, i, j, acc.push((name, t, false)), named || has_name),
            TypeRead::Failed => ParamsRead::Failed,
            TypeRead::Unread => ParamsRead::Unread,
        }
    }
}

/// What follows a parameter that started at `i` and whose type ended at `j`.
pub open spec fn params_tail(toks: Seq<Token>, i: int, j: int, acc: Seq<(Option<Seq<char>>, TypeShape, bool)>,
    named: bool) -> ParamsRead
    decreases toks.len() - i, 0nat,
{
    if kind_at(toks, j, 0) is Eq {
        ParamsRead::Unread
    } else if kind_at(toks, j, 0) is RParen {
        ParamsRead::Done(acc, named, j + 1)
    } else if kind_at(toks, j, 0) is Comma {
        if kind_at(toks, j, 1) is RParen {
            ParamsRead::Done(acc, named, j + 2)
        } else if j < i {
            ParamsRead::Failed
        } else {
            params_at(toks, j + 1, acc, named)
        }
    } else {
        ParamsRead::Failed
    }
}

/// The type arguments inside `<...>`, read from token `i` after those in `acc`.
pub open spec fn args_at(toks: Seq<Token>, i: int, acc: Seq<TypeShape>) -> ArgsRead
    decreases toks.len() - i, 4nat,
{
    if i < 0 || i > toks.len() {
        ArgsRead::Failed
    } else {
        match type_at(toks, i) {
            TypeRead::Parsed(t, j) => args_tail(toks, i, j, acc.push(t)),
            TypeRead::Failed => ArgsRead::Failed,
            TypeRead::Unread => ArgsRead::Unread,
        }
    }
}

/// What follows a type argument that started at `i` and ended at `j`: `,` and the
/// next argument, or the closing `>`.
pub open spec fn args_tail(toks: Seq<Token>, i: int, j: int, acc: Seq<TypeShape>) -> ArgsRead
    decreases toks.len() - i, 0nat,
{
    if kind_at(toks, j, 0) is Comma {
        if j < i {
            ArgsRead::Failed
        } else {
            args_at(toks, j + 1, acc)
        }
    } else if kind_at(toks, j, 0) is Gt {
        ArgsRead::Done(acc, j + 1)
    } else {
        ArgsRead::Failed
    }
}

/// What reading a generic parameter list gives: each parameter's name and whether it
/// has a default, and the index after the list; a failure; or `Unread` when a default
/// is a type this description leaves open.
pub enum TypeParamsRead {
    Done(Seq<(Seq<char>, bool)>, int),
    Failed,
    Unread,
}

/// The generic parameters from token `i` on, after those in `acc`: `Name` or
/// `Name = Type`, separated by `,` up to `>`; once one has a default, all that follow
/// must have one.
pub open spec fn type_params_from(toks: Seq<Token>, i: int, acc: Seq<(Seq<char>, bool)>, saw_default: bool)
    -> TypeParamsRead
    decreases toks.len() - i,
{
    if i < 0 || i >= toks.len() || !(kind_at(toks, i, 0) is Identifier) {
        TypeParamsRead::Failed
    } else {
        let item = (ident_text(kind_at(toks, i, 0)), kind_at(toks, i, 1) is Eq);
        let after = if kind_at(toks, i, 1) is Eq {
            type_at(toks, i + 2)
        } else if saw_default {
            TypeRead::Failed
        } else {
            TypeRead::Parsed(TypeShape::Unit, i + 1)
        };
        match after {
            TypeRead::Parsed(_, e) => if e <= i || e >= toks.len() {
                TypeParamsRead::Failed
            } else if kind_at(toks, e, 0) is Comma {
                type_params_from(toks, e + 1, acc.push(item), saw_default || item.1)
            } else if kind_at(toks, e, 0) is Gt {
                TypeParamsRead::Done(acc.push(item), e + 1)
            } else {
                TypeParamsRead::Failed
            },
            TypeRead::Failed => TypeParamsRead::Failed,
            TypeRead::Unread => TypeParamsRead::Unread,
        }
    }
}

/// An optional generic parameter list read from token `i`: none unless `<` comes first.
pub open spec fn type_params_at(toks: Seq<Token>, i: int) -> TypeParamsRead {
    if !(kind_at(toks, i, 0) is Lt) {
        TypeParamsRead::Done(Seq::empty(), i)
    } else {
        type_params_from(toks, i + 1, Seq::empty(), false)
    }
}

/// A generic parameter's name and whether it has a default.
pub open spec fn type_param_summary(g: GenericParam) -> (Seq<char>, bool) {
    (g.name@, g.default is Some)
}

/// The summaries of generic parameters, in order.
pub open spec fn type_param_summaries(v: Seq<GenericParam>) -> Seq<(Seq<char>, bool)> {
    Seq::new(v.len(), |k: int| type_param_summary(v[k]))
}

/// `type Name<..> = Type;` read from the `type` at token `i`.
pub open spec fn type_alias_at(toks: Seq<Token>, i: int) -> ExprRead {
    if !(kind_at(toks, i, 1) is Identifier) {
        ExprRead::Failed
    } else {
        match type_params_at(toks, i + 2) {
            TypeParamsRead::Done(_, j) => if !(kind_at(toks, j, 0) is Eq) {
                ExprRead::Failed
            } else {
                match type_at(toks, j + 1) {
                    TypeRead::Parsed(_, k) => if kind_at(toks, k, 0) is Semicolon { ExprRead::Parsed(k + 1) } else { ExprRead::Failed },
                    TypeRead::Failed => ExprRead::Failed,
                    TypeRead::Unread => ExprRead::Unread,
                }
            },
            TypeParamsRead::Failed => ExprRead::Failed,
            TypeParamsRead::Unread => ExprRead::Unread,
        }
    }
}

/// The bindings of an import from token `f` on: `name` or `name as local`, separated by
/// `,`; gives the index after the last one.
pub open spec fn import_bindings_at(toks: Seq<Token>, f: int) -> ExprRead
    decreases toks.len() - f,
{
    if f < 0 || f >= toks.len() || !(kind_at(toks, f, 0) is Identifier) {
        ExprRead::Failed
    } else {
        let g = if kind_at(toks, f, 1) is As { if kind_at(toks, f, 2) is Identifier { f + 3 } else { -1 } } else { f + 1 };
        if g < 0 {
            ExprRead::Failed
        } else if kind_at(toks, g, 0) is Comma {
            import_bindings_at(toks, g + 1)
        } else {
            ExprRead::Parsed(g)
        }
    }
}

/// `import { bindings } from "path";` read from the `import` at token `i`.
pub open spec fn import_at(toks: Seq<Token>, i: int) -> ExprRead {
    if !(kind_at(toks, i, 1) is LBrace) {
        ExprRead::Failed
    } else {
        let b = if kind_at(toks, i, 2) is RBrace { ExprRead::Parsed(i + 2) } else { import_bindings_at(toks, i + 2) };
        match b {
            ExprRead::Parsed(c) => if kind_at(toks, c, 0) is RBrace && kind_at(toks, c, 1) is From
                && kind_at(toks, c, 2) is StringLiteral && kind_at(toks, c, 3) is Semicolon {
                ExprRead::Parsed(c + 4)
            } else {
                ExprRead::Failed
            },
            _ => ExprRead::Failed,
        }
    }
}

/// The fields of a struct definition from token `f` on: `name: Type` separated by `,`
/// (a trailing comma allowed), with comments among them, up to and past `}`.
pub open spec fn struct_fields_decl_at(toks: Seq<Token>, f: int) -> ExprRead
    decreases toks.len() - f,
{
    if f < 0 || f > toks.len() {
        ExprRead::Failed
    } else if kind_at(toks, f, 0) is RBrace {
        ExprRead::Parsed(f + 1)
    } else if f < toks.len() && comment_token(kind_at(toks, f, 0)) {
        struct_fields_decl_at(toks, f + 1)
    } else if !(kind_at(toks, f, 0) is Identifier) || !(kind_at(toks, f, 1) is Colon) {
        ExprRead::Failed
    } else {
        match type_at(toks, f + 2) {
            TypeRead::Parsed(_, e) => if e <= f || e > toks.len() {
                ExprRead::Failed
            } else if kind_at(toks, e, 0) is Comma {
                let m = skip_comments_from(toks, e + 1);
                if m <= f || m > toks.len() { ExprRead::Failed } else { struct_fields_decl_at(toks, m) }
            } else if kind_at(toks, e, 0) is RBrace {
                struct_fields_decl_at(toks, e)
            } else {
                ExprRead::Failed
            },
            TypeRead::Failed => ExprRead::Failed,
            TypeRead::Unread => ExprRead::Unread,
        }
    }
}

/// `struct Name<..>;` or `struct Name<..> { fields }` read from the `struct` at token
/// `i` (an `internal` struct must be the first form).
pub open spec fn struct_def_at(toks: Seq<Token>, i: int, is_internal: bool) -> ExprRead {
    if !(kind_at(toks, i, 1) is Identifier) {
        ExprRead::Failed
    } else {
        match type_params_at(toks, i + 2) {
            TypeParamsRead::Done(_, j) => if kind_at(toks, j, 0) is Semicolon {
                ExprRead::Parsed(j + 1)
            } else if is_internal || !(kind_at(toks, j, 0) is LBrace) {
                ExprRead::Failed
            } else {
                struct_fields_decl_at(toks, j + 1)
            },
            TypeParamsRead::Failed => ExprRead::Failed,
            TypeParamsRead::Unread => ExprRead::Unread,
        }
    }
}

/// Types separated by `,` from token `p` on, up to and past `)`.
pub open spec fn type_list_at(toks: Seq<Token>, p: int) -> ExprRead
    decreases toks.len() - p,
{
    match type_at(toks, p) {
        TypeRead::Parsed(_, e) => if e <= p || e >= toks.len() {
            ExprRead::Failed
        } else if kind_at(toks, e, 0) is Comma {
            type_list_at(toks, e + 1)
        } else if kind_at(toks, e, 0) is RParen {
            ExprRead::Parsed(e + 1)
        } else {
            ExprRead::Failed
        },
        TypeRead::Failed => ExprRead::Failed,
        TypeRead::Unread => ExprRead::Unread,
    }
}

/// The variants of an enum definition from token `f` on: `Name` or `Name(Types)`,
/// separated by `,` (a trailing comma allowed), with comments among them, up to and
/// past `}`.
pub open spec fn enum_variants_at(toks: Seq<Token>, f: int) -> ExprRead
    decreases toks.len() - f,
{
    if f < 0 || f > toks.len() {
        ExprRead::Failed
    } else if kind_at(toks, f, 0) is RBrace {
        ExprRead::Parsed(f + 1)
    } else if f < toks.len() && comment_token(kind_at(toks, f, 0)) {
        enum_variants_at(toks, f + 1)
    } else if !(kind_at(toks, f, 0) is Identifier) {
        ExprRead::Failed
    } else {
        let g = if kind_at(toks, f, 1) is LParen {
            if kind_at(toks, f, 2) is RParen { ExprRead::Parsed(f + 3) } else { type_list_at(toks, f + 2) }
        } else {
            ExprRead::Parsed(f + 1)
        };
        match g {
            ExprRead::Parsed(h) => {
                let c = skip_comments_from(toks, h);
                if h <= f || c < h || c >= toks.len() {
                    ExprRead::Failed
                } else if kind_at(toks, c, 0) is Comma {
                    if kind_at(toks, c, 1) is RBrace { ExprRead::Parsed(c + 2) } else { enum_variants_at(toks, c + 1) }
                } else if kind_at(toks, c, 0) is RBrace {
                    ExprRead::Parsed(c + 1)
                } else {
                    ExprRead::Failed
                }
            },
            other => other,
        }
    }
}

/// `enum Name<..> { variants }` read from the `enum` at token `i`.
pub open spec fn enum_def_at(toks: Seq<Token>, i: int) -> ExprRead {
    if !(kind_at(toks, i, 1) is Identifier) {
        ExprRead::Failed
    } else {
        match type_params_at(toks, i + 2) {
            TypeParamsRead::Done(_, j) => if kind_at(toks, j, 0) is LBrace {
                enum_variants_at(toks, j + 1)
            } else {
                ExprRead::Failed
            },
            TypeParamsRead::Failed => ExprRead::Failed,
            TypeParamsRead::Unread => ExprRead::Unread,
        }
    }
}

/// What reading a parameter list gives: the index of its `)` (not consumed) and whether
/// a parameter has a default; a failure; or `Unread` for what this description leaves
/// open.
pub enum ParamListRead {
    Done(int, bool),
    Failed,
    Unread,
}

/// One parameter read from token `i` on: an optional `params`, a name or `_`, then
/// `: Type` (a first `self` without a type takes the extension receiver's type when
/// there is one), an optional `= default`, and `,` or `)`. A parameter without a default
/// may not follow one with a default; a `params` parameter has an array type and comes
/// last. A `params self` that takes the receiver's type is left open.
pub open spec fn param_items_at(toks: Seq<Token>, i: int, first: bool, has_ext: bool, seen_default: bool,
    seen_params: bool) -> ParamListRead
    decreases toks.len() - i, 1nat,
{
    if i < 0 || i >= toks.len() {
        ParamListRead::Failed
    } else {
        let is_params = kind_at(toks, i, 0) is Params;
        let q = if is_params { i + 1 } else { i };
        let kq = kind_at(toks, q, 0);
        let n = q + 1;
        if !(kq is Underscore || kq is Identifier) {
            ParamListRead::Failed
        } else if first && has_ext && kq is Identifier && ident_text(kq) == "self"@ && !(kind_at(toks, n, 0) is Colon) {
            if is_params { ParamListRead::Unread } else { param_default_at(toks, i, n, has_ext, seen_default, seen_params) }
        } else if !(kind_at(toks, n, 0) is Colon) {
            ParamListRead::Failed
        } else {
            match type_at(toks, n + 1) {
                TypeRead::Parsed(sh, e) => if is_params && !(sh is Array) {
                    ParamListRead::Failed
                } else if !is_params && seen_params {
                    ParamListRead::Failed
                } else {
                    param_default_at(toks, i, e, has_ext, seen_default, seen_params || is_params)
                },
                TypeRead::Failed => ParamListRead::Failed,
                TypeRead::Unread => ParamListRead::Unread,
            }
        }
    }
}

/// The rest of the parameter that started at token `i`, after its type ending at `e`:
/// an optional `= default`, then `,` and the next parameter, or `)` (not consumed).
pub open spec fn param_default_at(toks: Seq<Token>, i: int, e: int, has_ext: bool, seen_default: bool,
    seen_params: bool) -> ParamListRead
    decreases toks.len() - i, 0nat,
{
    let has_default = kind_at(toks, e, 0) is Eq;
    let d = if has_default {
        expr_at(toks, e + 1)
    } else if seen_default {
        ExprRead::Failed
    } else {
        ExprRead::Parsed(e)
    };
    match d {
        ExprRead::Parsed(m) => if m <= i || m >= toks.len() {
            ParamListRead::Failed
        } else if kind_at(toks, m, 0) is Comma {
            if kind_at(toks, m, 1) is RParen {
                ParamListRead::Failed
            } else {
                param_items_at(toks, m + 1, false, has_ext, seen_default || has_default, seen_params)
            }
        } else if kind_at(toks, m, 0) is RParen {
            ParamListRead::Done(m, seen_default || has_default)
        } else {
            ParamListRead::Failed
        },
        ExprRead::Failed => ParamListRead::Failed,
        ExprRead::Unread => ParamListRead::Unread,
    }
}

/// The shape of a parameter: its name (`_` for a wildcard), the shape of its type,
/// whether it is a `params` parameter, and the shape of its default value.
pub type ParamShape = (Seq<char>, TypeShape, bool, Option<ExprShape>);

/// The shape of the parameter `p`.
pub open spec fn param_shape_of(p: Param) -> ParamShape {
    (p.name@, shape_of(p.ty), p.is_params, match p.default_value {
        Some(d) => Some(expr_shape(*d)),
        None => None,
    })
}

/// The shapes of the parameters `ps`, in order.
pub open spec fn params_shapes(ps: Seq<Param>) -> Seq<ParamShape> {
    ps.map_values(|p: Param| param_shape_of(p))
}

/// The shapes of the parameters read from token `i` on, in a list without a receiver
/// (see `param_items_at`).
pub open spec fn param_items_shape(toks: Seq<Token>, i: int) -> Seq<ParamShape>
    decreases toks.len() - i,
{
    if i < 0 || i >= toks.len() {
        Seq::empty()
    } else {
        let is_params = kind_at(toks, i, 0) is Params;
        let q = if is_params { i + 1 } else { i };
        let kq = kind_at(toks, q, 0);
        let name = if kq is Underscore { "_"@ } else { ident_text(kq) };
        match type_at(toks, q + 2) {
            TypeRead::Parsed(sh, e) => {
                let has_default = kind_at(toks, e, 0) is Eq;
                let d = if has_default { expr_at(toks, e + 1) } else { ExprRead::Parsed(e) };
                match d {
                    ExprRead::Parsed(m) => {
                        let head = (name, sh, is_params, if has_default { Some(expr_shape_at(toks, e + 1)) } else { None });
                        if i < m < toks.len() && kind_at(toks, m, 0) is Comma {
                            seq![head] + param_items_shape(toks, m + 1)
                        } else {
                            seq![head]
                        }
                    },
                    _ => Seq::empty(),
                }
            },
            _ => Seq::empty(),
        }
    }
}

/// The shapes of the parameters of a list read from token `i` (see `param_list_at`).
pub open spec fn params_shape(toks: Seq<Token>, i: int) -> Seq<ParamShape> {
    if kind_at(toks, i, 0) is RParen { Seq::empty() } else { param_items_shape(toks, i) }
}

/// Where a list of parameters without a receiver, read from token `i` on, has a plain
/// parameter after a `params` one: the position of its name, when everything before it
/// reads.
pub open spec fn params_order_error_at(toks: Seq<Token>, i: int, seen_default: bool, seen_params: bool) -> Option<int>
    decreases toks.len() - i,
{
    if i < 0 || i >= toks.len() {
        None
    } else {
        let is_params = kind_at(toks, i, 0) is Params;
        let q = if is_params { i + 1 } else { i };
        let kq = kind_at(toks, q, 0);
        if !(kq is Underscore || kq is Identifier) || !(kind_at(toks, q + 1, 0) is Colon) {
            None
        } else {
            match type_at(toks, q + 2) {
                TypeRead::Parsed(sh, e) => if is_params && !(sh is Array) {
                    None
                } else if !is_params && seen_params {
                    Some(q)
                } else {
                    let has_default = kind_at(toks, e, 0) is Eq;
                    let d = if has_default {
                        expr_at(toks, e + 1)
                    } else if seen_default {
                        ExprRead::Failed
                    } else {
                        ExprRead::Parsed(e)
                    };
                    match d {
                        ExprRead::Parsed(m) => if i < m < toks.len() && kind_at(toks, m, 0) is Comma
                            && !(kind_at(toks, m, 1) is RParen) {
                            params_order_error_at(toks, m + 1, seen_default || has_default, seen_params || is_params)
                        } else {
                            None
                        },
                        _ => None,
                    }
                },
                _ => None,
            }
        }
    }
}

/// Where the parameter list read from token `i` (no receiver) has a plain parameter after
/// a `params` one: the position of its name.
pub open spec fn params_order_error(toks: Seq<Token>, i: int) -> Option<int> {
    if kind_at(toks, i, 0) is RParen { None } else { params_order_error_at(toks, i, false, false) }
}

/// A parameter list read from token `i` up to (not past) its `)`.
pub open spec fn param_list_at(toks: Seq<Token>, i: int, has_ext: bool) -> ParamListRead {
    if kind_at(toks, i, 0) is RParen {
        ParamListRead::Done(i, false)
    } else {
        param_items_at(toks, i, true, has_ext, false, false)
    }
}

/// What reading a function signature gives: the index after it and whether a parameter
/// has a default; a failure; or `Unread` for what this description leaves open.
pub enum SigRead {
    Done(int, bool),
    Failed,
    Unread,
}

/// A function signature read from token `s`: `name<..>(params)` and an optional
/// `: ReturnType`.
pub open spec fn signature_at(toks: Seq<Token>, s: int) -> SigRead {
    if !(kind_at(toks, s, 0) is Identifier) {
        SigRead::Failed
    } else {
        match type_params_at(toks, s + 1) {
            TypeParamsRead::Done(_, j) => if !(kind_at(toks, j, 0) is LParen) {
                SigRead::Failed
            } else {
                match param_list_at(toks, j + 1, false) {
                    ParamListRead::Done(m, d) => if !(kind_at(toks, m, 0) is RParen) {
                        SigRead::Failed
                    } else {
                        let rt = if kind_at(toks, m + 1, 0) is Colon {
                            type_at(toks, m + 2)
                        } else {
                            TypeRead::Parsed(TypeShape::Unit, m + 1)
                        };
                        match rt {
                            TypeRead::Parsed(_, k) => SigRead::Done(k, d),
                            TypeRead::Failed => SigRead::Failed,
                            TypeRead::Unread => SigRead::Unread,
                        }
                    },
                    ParamListRead::Failed => SigRead::Failed,
                    ParamListRead::Unread => SigRead::Unread,
                }
            },
            TypeParamsRead::Failed => SigRead::Failed,
            TypeParamsRead::Unread => SigRead::Unread,
        }
    }
}

/// A type read from token `s` is followed by `::`: the function is an extension
/// (`Type::name`), a form this description leaves open, as it does when the type
/// itself is left open.
pub open spec fn receiver_ahead(toks: Seq<Token>, s: int) -> bool {
    type_at(toks, s) is Unread || (type_at(toks, s) matches TypeRead::Parsed(_, e) && kind_at(toks, e, 0) is ColonColon)
}

/// An `internal` function declaration read from token `s` after `func`:
/// `name<..>(params): Ret;` with no parameter defaults; extension declarations are left
/// open.
#[verifier::opaque]
pub open spec fn internal_fn_at(toks: Seq<Token>, s: int) -> ExprRead {
    if receiver_ahead(toks, s) {
        ExprRead::Unread
    } else {
        match signature_at(toks, s) {
            SigRead::Done(k, d) => if d || !(kind_at(toks, k, 0) is Semicolon) { ExprRead::Failed } else { ExprRead::Parsed(k + 1) },
            SigRead::Failed => ExprRead::Failed,
            SigRead::Unread => ExprRead::Unread,
        }
    }
}

/// `internal func ...;` or `internal async func ...;` read from the `internal` at token
/// `i`.
pub open spec fn internal_decl_at(toks: Seq<Token>, i: int) -> ExprRead {
    if kind_at(toks, i, 1) is Async {
        if is_func_word(kind_at(toks, i, 2)) { internal_fn_at(toks, i + 3) } else { ExprRead::Failed }
    } else if is_func_word(kind_at(toks, i, 1)) {
        internal_fn_at(toks, i + 2)
    } else {
        ExprRead::Failed
    }
}

/// A function definition read from token `s` after `func`: a signature, then
/// `= expr;` or a `{ body }`; extension functions (`Type::name`) are left open.
#[verifier::opaque]
pub open spec fn fn_def_at(toks: Seq<Token>, s: int) -> ExprRead {
    let k0 = kind_at(toks, s, 0);
    if (k0 is Identifier || k0 is LParen || k0 is LBracket) && receiver_ahead(toks, s) {
        ExprRead::Unread
    } else {
        match signature_at(toks, s) {
            SigRead::Done(k, _) => fn_body_at(toks, k),
            SigRead::Failed => ExprRead::Failed,
            SigRead::Unread => ExprRead::Unread,
        }
    }
}

/// The shape of a top-level item: a function by its name, its parameters, its return
/// type and the shapes of the statements of its body; a global `let` or `const` by its statement shape; any
/// other item by its kind.
pub enum ItemShape {
    Function { name: Seq<char>, params: Seq<ParamShape>, ret: Option<TypeShape>, body: Seq<StmtShape> },
    Binding(StmtShape),
    Internal,
    Struct,
    Enum,
    Alias,
    Import,
    ExportAlias,
    ExportName,
    Call,
    Comment,
    Literal,
    Other,
}

/// The shape of the item `n`.
#[verifier::opaque]
pub open spec fn item_shape(n: AstNode) -> ItemShape {
    match n {
        AstNode::Function { name, params, return_type, body, .. } => ItemShape::Function {
            name: name@,
            params: params_shapes(params@),
            ret: opt_type_shape(return_type),
            body: stmt_shapes(body@),
        },
        AstNode::Let { .. } => ItemShape::Binding(stmt_shape(n)),
        AstNode::InternalFunction { .. } => ItemShape::Internal,
        AstNode::StructDef { .. } => ItemShape::Struct,
        AstNode::EnumDef { .. } => ItemShape::Enum,
        AstNode::TypeAlias { .. } => ItemShape::Alias,
        AstNode::Import { .. } => ItemShape::Import,
        AstNode::ExportAlias { .. } => ItemShape::ExportAlias,
        AstNode::ExportName { .. } => ItemShape::ExportName,
        AstNode::Call { .. } => ItemShape::Call,
        AstNode::SingleLineComment(_) => ItemShape::Comment,
        AstNode::MultiLineComment(_) => ItemShape::Comment,
        AstNode::IntegerLiteral { .. } => ItemShape::Literal,
        AstNode::FloatLiteral { .. } => ItemShape::Literal,
        AstNode::StringLiteral { .. } => ItemShape::Literal,
        _ => ItemShape::Other,
    }
}

/// The shape of an optional type.
pub open spec fn opt_type_shape(t: Option<TypeExpr>) -> Option<TypeShape> {
    match t {
        Some(t) => Some(shape_of(t)),
        None => None,
    }
}

/// Exporting an item keeps its shape.
proof fn lemma_exported_shape(item: AstNode)
    ensures
        exported_item(item) matches Some(x) ==> item_shape(x) == item_shape(item),
{
    reveal(item_shape);
}

/// The return type of the signature read from token `s`, by its shape.
pub open spec fn sig_ret_shape(toks: Seq<Token>, s: int) -> Option<TypeShape> {
    match type_params_at(toks, s + 1) {
        TypeParamsRead::Done(_, j) => match param_list_at(toks, j + 1, false) {
            ParamListRead::Done(m, _) => if kind_at(toks, m + 1, 0) is Colon {
                match type_at(toks, m + 2) {
                    TypeRead::Parsed(sh, _) => Some(sh),
                    _ => None,
                }
            } else {
                None
            },
            _ => None,
        },
        _ => None,
    }
}

/// The statements of the body of a function whose signature ends at token `k`; the
/// shorthand `= expr;` is a body of one `return expr;`.
pub open spec fn fn_body_shape(toks: Seq<Token>, k: int) -> Seq<StmtShape> {
    if kind_at(toks, k, 0) is Eq {
        seq![StmtShape::Return(Some(expr_shape_at(toks, k + 1)))]
    } else {
        block_items_shape(toks, k + 1)
    }
}

/// The shape of the function read from token `s` after `func`.
pub open spec fn fn_shape(toks: Seq<Token>, s: int) -> ItemShape {
    match signature_at(toks, s) {
        SigRead::Done(k, _) => ItemShape::Function {
            name: ident_text(kind_at(toks, s, 0)),
            params: match type_params_at(toks, s + 1) {
                TypeParamsRead::Done(_, j) => params_shape(toks, j + 1),
                _ => Seq::empty(),
            },
            ret: sig_ret_shape(toks, s),
            body: fn_body_shape(toks, k),
        },
        _ => ItemShape::Other,
    }
}

/// The shape of what follows the `export` at token `i`.
pub open spec fn export_shape(toks: Seq<Token>, i: int) -> ItemShape {
    let k1 = kind_at(toks, i, 1);
    if k1 is Identifier && kind_at(toks, i, 2) is As {
        ItemShape::ExportAlias
    } else if k1 is Identifier && kind_at(toks, i, 2) is Semicolon {
        ItemShape::ExportName
    } else {
        exportable_shape(toks, i + 1)
    }
}

/// The shape of the declaration read from token `j` after `export`.
pub open spec fn exportable_shape(toks: Seq<Token>, j: int) -> ItemShape {
    let k = kind_at(toks, j, 0);
    if k is Struct {
        ItemShape::Struct
    } else if k is Enum {
        ItemShape::Enum
    } else if k is Type {
        ItemShape::Alias
    } else if k is Const {
        ItemShape::Binding(const_shape(toks, j))
    } else if k is Async {
        fn_shape(toks, j + 2)
    } else if k is Identifier && ident_text(k) == "internal"@ {
        ItemShape::Internal
    } else {
        fn_shape(toks, j + 1)
    }
}

/// The shape of the top-level item read from token `i` (see `top_item_at`).
#[verifier::opaque]
pub open spec fn top_item_shape(toks: Seq<Token>, i: int) -> ItemShape {
    let k = kind_at(toks, i, 0);
    if k is Import {
        ItemShape::Import
    } else if k is Export {
        export_shape(toks, i)
    } else if k is Let {
        ItemShape::Binding(let_shape(toks, i))
    } else if k is Const {
        ItemShape::Binding(const_shape(toks, i))
    } else if k is Struct {
        ItemShape::Struct
    } else if k is Enum {
        ItemShape::Enum
    } else if k is Type {
        ItemShape::Alias
    } else if k is Async {
        fn_shape(toks, i + 2)
    } else if k is Identifier {
        if ident_text(k) == "internal"@ {
            ItemShape::Internal
        } else if ident_text(k) == "func"@ {
            fn_shape(toks, i + 1)
        } else {
            ItemShape::Call
        }
    } else if comment_token(k) {
        ItemShape::Comment
    } else {
        ItemShape::Literal
    }
}

/// The shapes of the items of the program read from token `i`.
pub open spec fn program_shape(toks: Seq<Token>, i: int) -> Seq<ItemShape>
    decreases toks.len() - i,
{
    if i < 0 || i > toks.len() || kind_at(toks, i, 0) is Eof {
        Seq::empty()
    } else {
        match top_item_at(toks, i) {
            ExprRead::Parsed(j) => if j <= i || j > toks.len() {
                Seq::empty()
            } else {
                seq![top_item_shape(toks, i)] + program_shape(toks, j)
            },
            _ => Seq::empty(),
        }
    }
}

/// A top-level `let` or function is read as such.
proof fn lemma_top_item_at_let_func(toks: Seq<Token>, i: int)
    requires
        0 <= i < toks.len(),
    ensures
        kind_at(toks, i, 0) is Let ==> top_item_at(toks, i) == let_at(toks, i, true, true),
        is_func_word(kind_at(toks, i, 0)) && ident_text(kind_at(toks, i, 0)) != "internal"@
            ==> top_item_at(toks, i) == fn_def_at(toks, i + 1),
        kind_at(toks, i, 0) is Let ==> top_item_shape(toks, i) == ItemShape::Binding(let_shape(toks, i)),
        is_func_word(kind_at(toks, i, 0)) && ident_text(kind_at(toks, i, 0)) != "internal"@
            ==> top_item_shape(toks, i) == fn_shape(toks, i + 1),
{
    reveal(top_item_at);
    reveal(top_item_shape);
}

/// Where the program read from token `i` fails: the start of its first item that
/// fails.
pub open spec fn program_fail_at(toks: Seq<Token>, i: int) -> Option<int>
    decreases toks.len() - i,
{
    if i < 0 || i > toks.len() || kind_at(toks, i, 0) is Eof {
        None
    } else {
        match top_item_at(toks, i) {
            ExprRead::Parsed(j) => if j <= i || j > toks.len() { None } else { program_fail_at(toks, j) },
            ExprRead::Failed => Some(i),
            ExprRead::Unread => None,
        }
    }
}

/// The message and place of the error for a top-level item at token `i` that is a
/// `let` without an initializer, a function with a parameter after its `params` one, or
/// a function written with the `=>` shorthand.
pub open spec fn item_error_at(toks: Seq<Token>, i: int) -> Option<(Seq<char>, Span)> {
    if 0 <= i < toks.len() && kind_at(toks, i, 0) is Let && let_lacks_initializer(toks, i, true) {
        Some(("top-level `let` must have an initializer"@, toks[i].span))
    } else if 0 <= i < toks.len() && is_func_word(kind_at(toks, i, 0)) {
        match fn_params_error(toks, i + 1) {
            Some(q) => Some(("`params` parameter must be the last parameter"@, toks[q].span)),
            None => match shorthand_arrow_at(toks, i + 1) {
                Some(k) => Some(("function shorthand now uses `=`; use `func name(args) = expr;`"@, toks[k].span)),
                None => None,
            },
        }
    } else {
        None
    }
}

/// The shapes of the items `v`, in order.
pub open spec fn item_shapes(v: Seq<AstNode>) -> Seq<ItemShape> {
    v.map_values(|n: AstNode| item_shape(n))
}

/// Where the parameters of the function read from token `s` after `func` have a plain
/// parameter after a `params` one: the position of its name.
#[verifier::opaque]
pub open spec fn fn_params_error(toks: Seq<Token>, s: int) -> Option<int> {
    let k0 = kind_at(toks, s, 0);
    if !(k0 is Identifier) || receiver_ahead(toks, s) {
        None
    } else {
        match type_params_at(toks, s + 1) {
            TypeParamsRead::Done(_, j) => if kind_at(toks, j, 0) is LParen { params_order_error(toks, j + 1) } else { None },
            _ => None,
        }
    }
}

/// Where the function read from token `s` after `func` has its signature end at a `=>`,
/// the position of that `=>`.
#[verifier::opaque]
pub open spec fn shorthand_arrow_at(toks: Seq<Token>, s: int) -> Option<int> {
    let k0 = kind_at(toks, s, 0);
    if (k0 is Identifier || k0 is LParen || k0 is LBracket) && receiver_ahead(toks, s) {
        None
    } else {
        match signature_at(toks, s) {
            SigRead::Done(k, _) => if kind_at(toks, k, 0) is FatArrow { Some(k) } else { None },
            _ => None,
        }
    }
}

/// The body of a function whose signature ends at token `k`: `= expr;` or
/// `{ statements }`.
pub open spec fn fn_body_at(toks: Seq<Token>, k: int) -> ExprRead {
    if kind_at(toks, k, 0) is Eq {
        match expr_at(toks, k + 1) {
            ExprRead::Parsed(x) => if kind_at(toks, x, 0) is Semicolon { ExprRead::Parsed(x + 1) } else { ExprRead::Failed },
            other => other,
        }
    } else if !(kind_at(toks, k, 0) is LBrace) {
        ExprRead::Failed
    } else {
        match block_items_at(toks, k + 1) {
            ExprRead::Parsed(b) => if kind_at(toks, b, 0) is RBrace { ExprRead::Parsed(b + 1) } else { ExprRead::Failed },
            other => other,
        }
    }
}

/// The identifier `func`.
pub open spec fn is_func_word(k: TokenKind) -> bool {
    k is Identifier && ident_text(k) == "func"@
}

/// What `export` introduces, read from the `export` at token `i`: `name as alias;`,
/// `name;`, or an exportable declaration.
pub open spec fn export_at(toks: Seq<Token>, i: int) -> ExprRead {
    let k1 = kind_at(toks, i, 1);
    if k1 is Identifier && kind_at(toks, i, 2) is As {
        if kind_at(toks, i, 3) is Identifier && kind_at(toks, i, 4) is Semicolon { ExprRead::Parsed(i + 5) } else { ExprRead::Failed }
    } else if k1 is Identifier && kind_at(toks, i, 2) is Semicolon {
        ExprRead::Parsed(i + 3)
    } else {
        exportable_at(toks, i + 1)
    }
}

/// A declaration that can be exported, read from token `j` after `export`.
pub open spec fn exportable_at(toks: Seq<Token>, j: int) -> ExprRead {
    let k = kind_at(toks, j, 0);
    if k is Struct {
        struct_def_at(toks, j, false)
    } else if k is Enum {
        enum_def_at(toks, j)
    } else if k is Type {
        type_alias_at(toks, j)
    } else if k is Const {
        const_at(toks, j)
    } else if k is Async {
        if is_func_word(kind_at(toks, j, 1)) { fn_def_at(toks, j + 2) } else { ExprRead::Failed }
    } else if k is Identifier && ident_text(k) == "internal"@ {
        internal_decl_at(toks, j)
    } else if k is Identifier && ident_text(k) == "func"@ {
        fn_def_at(toks, j + 1)
    } else {
        ExprRead::Failed
    }
}

/// One top-level item read from token `i`: an import, an export, a global `let` or
/// `const`, a struct, enum or type alias definition, a function definition, an
/// `internal` declaration, a call statement, a comment or a literal.
#[verifier::opaque]
pub open spec fn top_item_at(toks: Seq<Token>, i: int) -> ExprRead {
    let k = kind_at(toks, i, 0);
    if i < 0 || i >= toks.len() {
        ExprRead::Failed
    } else if k is Import {
        import_at(toks, i)
    } else if k is Export {
        export_at(toks, i)
    } else if k is Let {
        let_at(toks, i, true, true)
    } else if k is Const {
        const_at(toks, i)
    } else if k is Struct {
        struct_def_at(toks, i, false)
    } else if k is Enum {
        enum_def_at(toks, i)
    } else if k is Type {
        type_alias_at(toks, i)
    } else if k is Async {
        if is_func_word(kind_at(toks, i, 1)) { fn_def_at(toks, i + 2) } else { ExprRead::Failed }
    } else if k is Identifier {
        if ident_text(k) == "internal"@ {
            internal_decl_at(toks, i)
        } else if ident_text(k) == "func"@ {
            fn_def_at(toks, i + 1)
        } else {
            call_stmt_at(toks, i)
        }
    } else if comment_token(k) || k is IntegerLiteral || k is FloatLiteral || k is StringLiteral {
        ExprRead::Parsed(i + 1)
    } else {
        ExprRead::Failed
    }
}

/// A whole program read from token `i`: top-level items up to the end of the input.
pub open spec fn program_at(toks: Seq<Token>, i: int) -> ExprRead
    decreases toks.len() - i,
{
    if i < 0 || i > toks.len() {
        ExprRead::Failed
    } else if kind_at(toks, i, 0) is Eof {
        ExprRead::Parsed(i)
    } else {
        match top_item_at(toks, i) {
            ExprRead::Parsed(j) => if j <= i || j > toks.len() { ExprRead::Failed } else { program_at(toks, j) },
            other => other,
        }
    }
}

/// The number of top-level items of the program read from token `i`.
pub open spec fn program_len(toks: Seq<Token>, i: int) -> nat
    decreases toks.len() - i,
{
    if i < 0 || i > toks.len() || kind_at(toks, i, 0) is Eof {
        0
    } else {
        match top_item_at(toks, i) {
            ExprRead::Parsed(j) => if j <= i || j > toks.len() { 0 } else { 1 + program_len(toks, j) },
            _ => 0,
        }
    }
}

/// A parse result agrees with what the type grammar reads: the same shape, ending at
/// `end`, when it reads one; an error when it fails.
pub open spec fn type_read_matches(tr: TypeRead, r: Result<TypeExpr, ParseError>, end: int) -> bool {
    match tr {
        TypeRead::Parsed(sh, j) => r matches Ok(t) && shape_of(t) == sh && end == j,
        TypeRead::Failed => r is Err,
        TypeRead::Unread => true,
    }
}

impl Parser {
    /// The kind of the token under the cursor, as `kind_at` reads it.
    proof fn lemma_kinds_here(&self)
        requires
            self.wf(),
        ensures
            kind_at(self.toks(), self.pos(), 0) == self.current().kind,
            0 <= self.pos() <= self.toks().len(),
            self.pos() < self.toks().len() ==> self.current() == self.toks()[self.pos()],
    {
    }

    fn parse_type_expr(&mut self) -> (r: Result<TypeExpr, ParseError>)
        requires
            old(self).wf(),
        ensures
            moved_on(*old(self), *final(self)),
            r is Ok ==> old(self).pos() < final(self).pos(),
            type_read_matches(type_at(old(self).toks(), old(self).pos()), r, final(self).pos()),
        decreases old(self).remaining(), 1nat,
    {
        proof {
            self.lemma_kinds_here();
        }
        if matches!(self.peek().kind, TokenKind::LParen) {
            self.parse_paren_type()
        } else if matches!(self.peek().kind, TokenKind::LBracket) {
            self.parse_bracket_type()
        } else if matches!(self.peek().kind, TokenKind::Underscore) {
            self.advance();
            Ok(TypeExpr::Infer)
        } else if matches!(self.peek().kind, TokenKind::Type) {
            self.advance();
            proof { self.lemma_kinds_here(); }
            let (n, _) = self.take_identifier()?;
            Ok(TypeExpr::TypeParam(n))
        } else if matches!(self.peek().kind, TokenKind::Identifier(_)) {
            self.parse_named_type()
        } else {
            Err(self.unexpected("expected type"))
        }
    }

    /// A type that starts with `[`: `[T]` or `[type T]`.
    fn parse_bracket_type(&mut self) -> (r: Result<TypeExpr, ParseError>)
        requires
            old(self).wf(),
            old(self).current().kind is LBracket,
        ensures
            moved_on(*old(self), *final(self)),
            r is Ok ==> old(self).pos() < final(self).pos(),
            type_read_matches(bracket_type_at(old(self).toks(), old(self).pos()), r, final(self).pos()),
        decreases old(self).remaining(), 0nat,
    {
        let ghost toks = self.toks();
        let ghost i0 = self.pos();
        proof { self.lemma_kinds_here(); }
        self.advance();
        proof { self.lemma_kinds_here(); }
        let elem_ty = if matches!(self.peek().kind, TokenKind::Type) {
            self.advance();
            proof { self.lemma_kinds_here(); }
            let (n, _) = self.take_identifier()?;
            proof {
                assert(ident_text(kind_at(toks, i0, 2)) == n@);
            }
            TypeExpr::TypeParam(n)
        } else {
            self.parse_type_expr()?
        };
        let ghost j = self.pos();
        proof { self.lemma_kinds_here(); }
        self.expect_rbracket()?;
        let t = TypeExpr::Array(Box::new(elem_ty));
        proof {
            assert(shape_of(t) == TypeShape::Array(Box::new(shape_of(elem_ty))));
            if kind_at(toks, i0, 1) is Type {
                assert(j == i0 + 3);
                assert(bracket_type_at(toks, i0) == TypeRead::Parsed(TypeShape::Array(Box::new(
                    TypeShape::TypeParam(ident_text(kind_at(toks, i0, 2))))), i0 + 4));
            } else {
                match type_at(toks, i0 + 1) {
                    TypeRead::Parsed(e, jj) => {
                        assert(jj == j && e == shape_of(elem_ty));
                        assert(bracket_type_at(toks, i0) == TypeRead::Parsed(TypeShape::Array(Box::new(e)), j + 1));
                    },
                    _ => {},
                }
            }
        }
        Ok(t)
    }

    /// A type that starts with a name: the name alone, or with type arguments.
    fn parse_named_type(&mut self) -> (r: Result<TypeExpr, ParseError>)
        requires
            old(self).wf(),
            old(self).current().kind is Identifier,
        ensures
            moved_on(*old(self), *final(self)),
            r is Ok ==> old(self).pos() < final(self).pos(),
            type_read_matches(named_type_at(old(self).toks(), old(self).pos(), ident_text(old(self).current().kind)),
                r, final(self).pos()),
        decreases old(self).remaining(), 0nat,
    {
        proof { self.lemma_kinds_here(); }
        let (n, _) = self.take_identifier()?;
        proof { self.lemma_kinds_here(); }
        if matches!(self.peek().kind, TokenKind::Lt) {
            self.advance();
            proof { self.lemma_kinds_here(); }
            if matches!(self.peek().kind, TokenKind::Gt) {
                self.advance();
                proof {
                    assert(shapes_of(Seq::<TypeExpr>::empty()) == Seq::<TypeShape>::empty());
                }
                return Ok(TypeExpr::EnumApp { name: n, args: Vec::new() });
            }
            let args = self.parse_type_args()?;
            Ok(TypeExpr::EnumApp { name: n, args })
        } else {
            Ok(TypeExpr::Named(n))
        }
    }

    /// A type that starts with `(`: unit, a parenthesised type, a tuple or a function type.
    fn parse_paren_type(&mut self) -> (r: Result<TypeExpr, ParseError>)
        requires
            old(self).wf(),
            old(self).current().kind is LParen,
        ensures
            moved_on(*old(self), *final(self)),
            r is Ok ==> old(self).pos() < final(self).pos(),
            type_read_matches(paren_type_at(old(self).toks(), old(self).pos()), r, final(self).pos()),
        decreases old(self).remaining(), 0nat,
    {
        proof { self.lemma_kinds_here(); }
        self.advance();
        proof { self.lemma_kinds_here(); }
        if matches!(self.peek().kind, TokenKind::RParen) {
            self.advance();
            proof { self.lemma_kinds_here(); }
            if matches!(self.peek().kind, TokenKind::FatArrow) {
                self.advance();
                let ret = self.parse_type_expr()?;
                proof {
                    assert(param_shapes(Seq::<FunctionTypeParam>::empty()) == Seq::<(Option<Seq<char>>, TypeShape, bool)>::empty());
                }
                return Ok(TypeExpr::Function { params: Vec::new(), ret: Box::new(ret) });
            }
            return Ok(TypeExpr::Unit);
        }
        let ghost toks = self.toks();
        let ghost i1 = self.pos();
        let (mut fn_params, saw_named, saw_default) = self.parse_type_params()?;
        proof {
            lemma_param_shapes_index(fn_params@);
            self.lemma_kinds_here();
        }
        let ghost ps = param_shapes(fn_params@);
        let ghost j = self.pos();
        proof {
            match params_at(toks, i1, Seq::empty(), false) {
                ParamsRead::Done(ps2, named, jj) => {
                    assert(ps2 == ps && named == saw_named && !saw_default && jj == j);
                    assert(j > i1);
                },
                ParamsRead::Failed => {},
                ParamsRead::Unread => {},
            }
        }
        if matches!(self.peek().kind, TokenKind::FatArrow) {
            self.advance();
            let ret = self.parse_type_expr()?;
            return Ok(TypeExpr::Function { params: fn_params, ret: Box::new(ret) });
        }
        if saw_named || saw_default {
            let t = TypeExpr::Function { params: fn_params, ret: Box::new(TypeExpr::Infer) };
            proof {
                assert(shape_of(TypeExpr::Infer) == TypeShape::Infer);
            }
            return Ok(t);
        }
        if fn_params.len() == 1 {
            let p = fn_params.remove(0);
            Ok(p.ty)
        } else {
            let parts = param_types(fn_params);
            proof {
                lemma_shapes_of_index(parts@);
                assert(shapes_of(parts@) =~= ps.map_values(|p: (Option<Seq<char>>, TypeShape, bool)| p.1));
            }
            Ok(TypeExpr::Tuple(parts))
        }
    }

    /// The parameters of a parenthesised type, after its `(`, up to and past its `)`;
    /// with whether one was named and whether one had a default.
    fn parse_type_params(&mut self) -> (r: Result<(Vec<FunctionTypeParam>, bool, bool), ParseError>)
        requires
            old(self).wf(),
        ensures
            moved_on(*old(self), *final(self)),
            r is Ok ==> old(self).pos() < final(self).pos(),
            match params_at(old(self).toks(), old(self).pos(), Seq::empty(), false) {
                ParamsRead::Done(ps, named, j) => r matches Ok((v, sn, sd))
                    && param_shapes(v@) == ps && sn == named && !sd && final(self).pos() == j,
                ParamsRead::Failed => r is Err,
                ParamsRead::Unread => true,
            },
        decreases old(self).remaining(), 2nat,
    {
        let ghost toks = self.toks();
        let ghost i0 = self.pos();
        let ghost spec_params = params_at(toks, i0, Seq::empty(), false);
        let mut fn_params: Vec<FunctionTypeParam> = Vec::new();
        let mut saw_named = false;
        let mut saw_default = false;
        proof {
            assert(param_shapes(fn_params@) == Seq::<(Option<Seq<char>>, TypeShape, bool)>::empty());
        }
        loop
            invariant_except_break
                self.wf(),
                self.toks() == toks,
                i0 <= self.pos(),
                spec_params is Unread
                    || spec_params == params_at(toks, self.pos(), param_shapes(fn_params@), saw_named),
            invariant
                toks == old(self).toks(),
                i0 == old(self).pos(),
                spec_params == params_at(toks, i0, Seq::empty(), false),
                saw_default ==> spec_params is Unread,
            ensures
                self.wf(),
                self.toks() == toks,
                i0 < self.pos(),
                saw_default ==> spec_params is Unread,
                spec_params is Unread
                    || spec_params == ParamsRead::Done(param_shapes(fn_params@), saw_named, self.pos()),
            decreases self.remaining(),
        {
            let ghost p = self.pos();
            let ghost acc = param_shapes(fn_params@);
            let ghost sn0 = saw_named;
            proof {
                self.lemma_kinds_here();
            }
            let mut param_name: Option<String> = None;
            let mut has_default = false;
            let named = match &self.peek().kind {
                TokenKind::Identifier(name) => {
                    if matches!(self.peek_n(1).kind, TokenKind::Colon) { Some(name.clone()) } else { None }
                },
                _ => None,
            };
            let ghost has_name = named is Some;
            assert(has_name == (kind_at(toks, p, 0) is Identifier && kind_at(toks, p, 1) is Colon));
            let ghost start = if has_name { p + 2 } else { p };
            let ty = match named {
                Some(name) => {
                    saw_named = true;
                    param_name = Some(name);
                    self.advance();
                    self.advance();
                    self.parse_type_expr()?
                },
                None => self.parse_type_expr()?,
            };
            let ghost j = self.pos();
            let ghost pn = param_name_of(param_name);
            assert(pn == (if has_name { Some(ident_text(kind_at(toks, p, 0))) } else { None }));
            let ghost acc2 = acc.push((pn, shape_of(ty), false));
            proof {
                self.lemma_kinds_here();
                assert(saw_named == (sn0 || has_name));
                assert(spec_params is Unread
                    || spec_params == params_tail(toks, p, j, acc2, saw_named));
            }
            if matches!(self.peek().kind, TokenKind::Eq) {
                has_default = true;
                saw_default = true;
                self.advance();
                let _ = self.parse_expression()?;
            }
            let ghost fp_before = fn_params@;
            fn_params.push(FunctionTypeParam { name: param_name, ty, has_default });
            proof {
                assert(fn_params@.drop_last() == fp_before);
                assert(!has_default ==> param_shapes(fn_params@) == acc2);
                self.lemma_kinds_here();
            }
            if matches!(self.peek().kind, TokenKind::RParen) {
                self.advance();
                break;
            } else if matches!(self.peek().kind, TokenKind::Comma) {
                self.advance();
                proof { self.lemma_kinds_here(); }
                if matches!(self.peek().kind, TokenKind::RParen) {
                    self.advance();
                    break;
                }
            } else {
                return Err(self.unexpected("expected `,` or `)` in type"));
            }
        }
        Ok((fn_params, saw_named, saw_default))
    }

    /// The type arguments after `<` (at least one), up to and past the closing `>`.
    fn parse_type_args(&mut self) -> (r: Result<Vec<TypeExpr>, ParseError>)
        requires
            old(self).wf(),
        ensures
            moved_on(*old(self), *final(self)),
            r is Ok ==> old(self).pos() < final(self).pos(),
            match args_at(old(self).toks(), old(self).pos(), Seq::empty()) {
                ArgsRead::Done(a, j) => r matches Ok(v) && shapes_of(v@) == a && final(self).pos() == j,
                ArgsRead::Failed => r is Err,
                ArgsRead::Unread => true,
            },
        decreases old(self).remaining(), 2nat,
    {
        let ghost toks = self.toks();
        let ghost i0 = self.pos();
        let ghost spec_args = args_at(toks, i0, Seq::empty());
        let mut args: Vec<TypeExpr> = Vec::new();
        proof { self.lemma_kinds_here(); }
        args.push(self.parse_type_expr()?);
        proof {
            lemma_shapes_of_index(args@);
            assert(shapes_of(args@) =~= seq![shape_of(args@[0])]);
            assert(Seq::<TypeShape>::empty().push(shape_of(args@[0])) =~= seq![shape_of(args@[0])]);
        }
        let ghost mut last = i0;
        while matches!(self.peek().kind, TokenKind::Comma)
            invariant
                self.wf(),
                self.toks() == toks,
                toks == old(self).toks(),
                i0 == old(self).pos(),
                i0 <= last < self.pos(),
                spec_args == args_at(toks, i0, Seq::empty()),
                spec_args is Unread
                    || spec_args == args_tail(toks, last, self.pos(), shapes_of(args@)),
            decreases self.remaining(),
        {
            proof { self.lemma_kinds_here(); }
            self.advance();
            let ghost q = self.pos();
            let ghost before = args@;
            proof { self.lemma_kinds_here(); }
            args.push(self.parse_type_expr()?);
            proof {
                assert(args@.drop_last() == before);
                last = q;
            }
        }
        proof { self.lemma_kinds_here(); }
        if matches!(self.peek().kind, TokenKind::Gt) {
            self.advance();
        } else {
            return Err(self.unexpected("expected `>` in type argument list"));
        }
        Ok(args)
    }
}

/// The types of function-type parameters, in order.
fn param_types(ps: Vec<FunctionTypeParam>) -> (r: Vec<TypeExpr>)
    ensures
        r@.len() == ps@.len(),
        forall|k: int| 0 <= k < ps@.len() ==> #[trigger] r@[k] == ps@[k].ty,
{
    let ghost orig = ps@;
    let mut ps = ps;
    let n = ps.len();
    let mut rev: Vec<TypeExpr> = Vec::new();
    while ps.len() > 0
        invariant
            rev@.len() + ps@.len() == n,
            n == orig.len(),
            ps@ == orig.take(ps@.len() as int),
            forall|k: int| 0 <= k < rev@.len() ==> #[trigger] rev@[k] == orig[n - 1 - k].ty,
        decreases ps@.len(),
    {
        let p = ps.pop().unwrap();
        rev.push(p.ty);
    }
    let mut out: Vec<TypeExpr> = Vec::new();
    while rev.len() > 0
        invariant
            out@.len() + rev@.len() == n,
            n == orig.len(),
            forall|k: int| 0 <= k < rev@.len() ==> #[trigger] rev@[k] == orig[n - 1 - k].ty,
            forall|k: int| 0 <= k < out@.len() ==> #[trigger] out@[k] == orig[k].ty,
        decreases rev@.len(),
    {
        let t = rev.pop().unwrap();
        out.push(t);
    }
    out
}

/// What reading an expression at a token gives: the index of the token after it, a
/// failure, or `Unread` for the forms this description leaves open: lambdas with a
/// block body, type values (`Name<T>` with nothing after it), and `match`.
pub enum ExprRead {
    Parsed(int),
    Failed,
    Unread,
}

/// A parse result agrees with what the expression grammar reads.
pub open spec fn read_matches(er: ExprRead, ok: bool, end: int) -> bool {
    match er {
        ExprRead::Parsed(j) => ok && end == j,
        ExprRead::Failed => !ok,
        ExprRead::Unread => true,
    }
}

/// The binary operators of precedence level `lvl`, from `* / %` (1) up to `||` (10).
pub open spec fn binary_op_of(k: TokenKind, lvl: int) -> bool {
    if lvl == 1 { k is Star || k is Slash || k is Percent }
    else if lvl == 2 { k is Plus || k is Minus }
    else if lvl == 3 { k is ShiftLeft || k is ShiftRight }
    else if lvl == 4 { k is Lt || k is Gt || k is Le || k is Ge }
    else if lvl == 5 { k is EqEq || k is Ne }
    else if lvl == 6 { k is Amp }
    else if lvl == 7 { k is Caret }
    else if lvl == 8 { k is Pipe }
    else if lvl == 9 { k is AndAnd }
    else { k is OrOr }
}

/// A prefix operator: `+`, `-`, `~`, `!`, or `await`.
pub open spec fn prefix_op(k: TokenKind) -> bool {
    k is Plus || k is Minus || k is Tilde || k is Bang || k is Await
}

/// A literal token: a string, an integer, a float, `true` or `false`.
pub open spec fn literal_token(k: TokenKind) -> bool {
    k is StringLiteral || k is IntegerLiteral || k is FloatLiteral || k is True || k is False
}

/// A token that starts a `.field`, `[index]` or `(args)` suffix.
pub open spec fn suffix_token(k: TokenKind) -> bool {
    k is Dot || k is LBracket || k is LParen
}

/// The parameters of a lambda from token `p` on: names separated by `,`, then `)` and
/// `=>`; gives the index after `=>`, or `None` when the tokens do not read so.
pub open spec fn lambda_params_at(toks: Seq<Token>, p: int) -> Option<int>
    decreases toks.len() - p,
{
    if p < 0 || p >= toks.len() || !(kind_at(toks, p, 0) is Identifier) {
        None
    } else if kind_at(toks, p, 1) is Comma {
        lambda_params_at(toks, p + 2)
    } else if kind_at(toks, p, 1) is RParen && kind_at(toks, p, 2) is FatArrow {
        Some(p + 3)
    } else {
        None
    }
}

/// The head of a lambda read from token `i`: `name =>`, `() =>` or `(a, b, ..) =>`;
/// gives the index after `=>`, or `None` when no lambda starts here.
pub open spec fn lambda_head_at(toks: Seq<Token>, i: int) -> Option<int> {
    if kind_at(toks, i, 0) is Identifier && kind_at(toks, i, 1) is FatArrow {
        Some(i + 2)
    } else if !(kind_at(toks, i, 0) is LParen) {
        None
    } else if kind_at(toks, i, 1) is RParen {
        if kind_at(toks, i, 2) is FatArrow { Some(i + 3) } else { None }
    } else {
        lambda_params_at(toks, i + 1)
    }
}

/// An expression read from token `i`: a lambda whose body is an expression, or an `||`
/// chain; lambdas with a block body are left open.
pub open spec fn expr_at(toks: Seq<Token>, i: int) -> ExprRead
    decreases toks.len() - i, 30nat,
{
    if i < 0 || i > toks.len() {
        ExprRead::Failed
    } else {
        match lambda_head_at(toks, i) {
            Some(h) => if h <= i || h > toks.len() {
                ExprRead::Failed
            } else if kind_at(toks, h, 0) is LBrace {
                ExprRead::Unread
            } else {
                expr_at(toks, h)
            },
            None => level_at(toks, i, 10),
        }
    }
}

/// The elements of an array literal from token `j` on: expressions separated by `,` (a
/// trailing comma allowed), up to and past `]`.
pub open spec fn array_items_at(toks: Seq<Token>, j: int) -> ExprRead
    decreases toks.len() - j, 31nat,
{
    if j < 0 || j > toks.len() {
        ExprRead::Failed
    } else if kind_at(toks, j, 0) is RBracket {
        ExprRead::Parsed(j + 1)
    } else {
        match expr_at(toks, j) {
            ExprRead::Parsed(e) => if e <= j || e >= toks.len() {
                ExprRead::Failed
            } else if kind_at(toks, e, 0) is Comma {
                if kind_at(toks, e, 1) is RBracket { ExprRead::Parsed(e + 2) } else { array_items_at(toks, e + 1) }
            } else if kind_at(toks, e, 0) is RBracket {
                ExprRead::Parsed(e + 1)
            } else {
                ExprRead::Failed
            },
            other => other,
        }
    }
}

/// The elements of a tuple literal after its first one and `,`, from token `j` on:
/// expressions separated by `,` (a trailing comma allowed), up to and past `)`.
pub open spec fn tuple_items_at(toks: Seq<Token>, j: int) -> ExprRead
    decreases toks.len() - j, 31nat,
{
    if j < 0 || j > toks.len() {
        ExprRead::Failed
    } else if kind_at(toks, j, 0) is RParen {
        ExprRead::Parsed(j + 1)
    } else {
        match expr_at(toks, j) {
            ExprRead::Parsed(e) => if e <= j || e >= toks.len() {
                ExprRead::Failed
            } else if kind_at(toks, e, 0) is RParen {
                ExprRead::Parsed(e + 1)
            } else if kind_at(toks, e, 0) is Comma {
                if kind_at(toks, e, 1) is RParen { ExprRead::Parsed(e + 2) } else { tuple_items_at(toks, e + 1) }
            } else {
                ExprRead::Failed
            },
            other => other,
        }
    }
}

/// The entries of a dict literal from token `j0` on: `key: value` separated by `,` (a
/// trailing comma allowed), with comments among them, up to and past `}`.
pub open spec fn dict_items_at(toks: Seq<Token>, j0: int) -> ExprRead
    decreases toks.len() - j0, 31nat,
{
    let j = skip_comments_from(toks, j0);
    if j0 < 0 || j < j0 || j > toks.len() {
        ExprRead::Failed
    } else {
        match expr_at(toks, j) {
            ExprRead::Parsed(k) => if k <= j0 || k >= toks.len() || !(kind_at(toks, k, 0) is Colon) {
                ExprRead::Failed
            } else {
                match expr_at(toks, k + 1) {
                    ExprRead::Parsed(v) => {
                        let c = skip_comments_from(toks, v);
                        if v <= k || c < v || c >= toks.len() {
                            ExprRead::Failed
                        } else if kind_at(toks, c, 0) is Comma {
                            let m = skip_comments_from(toks, c + 1);
                            if m <= j0 || m > toks.len() {
                                ExprRead::Failed
                            } else if kind_at(toks, m, 0) is RBrace {
                                ExprRead::Parsed(m + 1)
                            } else {
                                dict_items_at(toks, m)
                            }
                        } else if kind_at(toks, c, 0) is RBrace {
                            ExprRead::Parsed(c + 1)
                        } else {
                            ExprRead::Failed
                        }
                    },
                    other => other,
                }
            },
            other => other,
        }
    }
}

/// A primary expression read from token `i`: a literal, a name and what follows it
/// (see `after_ident_at`), an array or dict literal, `()`, `(e)`, or a tuple `(a, b, ..)`.
pub open spec fn primary_at(toks: Seq<Token>, i: int) -> ExprRead
    decreases toks.len() - i, 0nat,
{
    if i < 0 || i > toks.len() {
        ExprRead::Failed
    } else {
        let k = kind_at(toks, i, 0);
        if k is Match {
            ExprRead::Unread
        } else if k is LBrace {
            let j = skip_comments_from(toks, i + 1);
            if j < i + 1 || j > toks.len() {
                ExprRead::Failed
            } else if kind_at(toks, j, 0) is RBrace {
                ExprRead::Parsed(j + 1)
            } else {
                dict_items_at(toks, j)
            }
        } else if k is LBracket {
            array_items_at(toks, i + 1)
        } else if k is Identifier {
            after_ident_at(toks, i + 1)
        } else if literal_token(k) {
            ExprRead::Parsed(i + 1)
        } else if k is LParen {
            if kind_at(toks, i, 1) is RParen {
                ExprRead::Parsed(i + 2)
            } else {
                match expr_at(toks, i + 1) {
                    ExprRead::Parsed(j) => if kind_at(toks, j, 0) is RParen {
                        ExprRead::Parsed(j + 1)
                    } else if kind_at(toks, j, 0) is Comma {
                        if j <= i || j >= toks.len() { ExprRead::Failed } else { tuple_items_at(toks, j + 1) }
                    } else {
                        ExprRead::Failed
                    },
                    other => other,
                }
            }
        } else {
            ExprRead::Failed
        }
    }
}

/// The shape of an expression tree: literals with their values, source text, radix and
/// spans; names with their spans; calls, method calls and invocations by what they call,
/// the names of their arguments (`None` for a positional one) and the shapes of their
/// values; member accesses and indexing with what they apply to; tuple and array
/// literals with their elements; operators with their operands and the span of the
/// operator; any other expression is `Other`.
pub enum ExprShape {
    Int(u64, Seq<char>, u32, Span),
    Str(Seq<char>, Seq<char>, Span),
    Bool(bool, Span),
    Unit,
    Ident(Seq<char>, Span),
    Call(Seq<char>, Seq<Option<Seq<char>>>, Seq<ExprShape>),
    Binary(BinaryOp, Box<ExprShape>, Box<ExprShape>, Span),
    Unary(UnaryOp, Box<ExprShape>, Span),
    Await(Box<ExprShape>, Span),
    Field(Box<ExprShape>, Seq<char>, Span),
    TupleField(Box<ExprShape>, u32, Span),
    Index(Box<ExprShape>, Box<ExprShape>, Span),
    MethodCall(Box<ExprShape>, Seq<char>, Seq<Option<Seq<char>>>, Seq<ExprShape>),
    Invoke(Box<ExprShape>, Seq<Option<Seq<char>>>, Seq<ExprShape>),
    Tuple(Seq<ExprShape>, Span),
    Array(Seq<ExprShape>, Span),
    Other,
}

/// The shape of the expression tree `n`.
pub open spec fn expr_shape(n: AstNode) -> ExprShape
    decreases n, 0nat,
{
    match n {
        AstNode::IntegerLiteral { value, original, radix, span } => ExprShape::Int(value, original@, radix, span),
        AstNode::StringLiteral { value, original, span } => ExprShape::Str(value@, original@, span),
        AstNode::BoolLiteral { value, span } => ExprShape::Bool(value, span),
        AstNode::UnitLiteral { .. } => ExprShape::Unit,
        AstNode::Identifier { name, span } => ExprShape::Ident(name@, span),
        AstNode::Call { callee, arguments, .. } => ExprShape::Call(callee@, call_arg_names(arguments@), call_arg_shapes(arguments@)),
        AstNode::BinaryOp { left, op, right, span } =>
            ExprShape::Binary(op, Box::new(expr_shape(*left)), Box::new(expr_shape(*right)), span),
        AstNode::UnaryOp { op, operand, span } => ExprShape::Unary(op, Box::new(expr_shape(*operand)), span),
        AstNode::Await { expr, span } => ExprShape::Await(Box::new(expr_shape(*expr)), span),
        AstNode::FieldAccess { base, field, span } => ExprShape::Field(Box::new(expr_shape(*base)), field@, span),
        AstNode::TupleField { base, index, span } => ExprShape::TupleField(Box::new(expr_shape(*base)), index, span),
        AstNode::ArrayIndex { base, index, span } =>
            ExprShape::Index(Box::new(expr_shape(*base)), Box::new(expr_shape(*index)), span),
        AstNode::MethodCall { receiver, method, arguments, .. } =>
            ExprShape::MethodCall(Box::new(expr_shape(*receiver)), method@, call_arg_names(arguments@), call_arg_shapes(arguments@)),
        AstNode::Invoke { callee, arguments, .. } =>
            ExprShape::Invoke(Box::new(expr_shape(*callee)), call_arg_names(arguments@), call_arg_shapes(arguments@)),
        AstNode::TupleLiteral { elements, span } => ExprShape::Tuple(node_shapes(elements@), span),
        AstNode::ArrayLiteral { elements, span } => ExprShape::Array(node_shapes(elements@), span),
        _ => ExprShape::Other,
    }
}

/// The shapes of the expression trees `s`, in order.
pub open spec fn node_shapes(s: Seq<AstNode>) -> Seq<ExprShape>
    decreases s, 1nat,
{
    if s.len() == 0 { Seq::empty() } else { node_shapes(s.drop_last()).push(expr_shape(s.last())) }
}

/// The token that closes a tuple (`)`) or an array (`]`) literal.
pub open spec fn closes_items(k: TokenKind, tuple: bool) -> bool {
    if tuple { k is RParen } else { k is RBracket }
}

/// The shapes of the elements of a tuple or array literal read from token `j` on (see
/// `tuple_items_at` and `array_items_at`), after those in `acc`.
pub open spec fn item_shapes_at(toks: Seq<Token>, j: int, acc: Seq<ExprShape>, tuple: bool) -> Seq<ExprShape>
    decreases toks.len() - j, 31nat,
{
    if j < 0 || j > toks.len() || closes_items(kind_at(toks, j, 0), tuple) {
        acc
    } else {
        match expr_at(toks, j) {
            ExprRead::Parsed(e) => if e <= j || e >= toks.len() {
                acc
            } else if kind_at(toks, e, 0) is Comma && !closes_items(kind_at(toks, e, 1), tuple) {
                item_shapes_at(toks, e + 1, acc.push(expr_shape_at(toks, j)), tuple)
            } else {
                acc.push(expr_shape_at(toks, j))
            },
            _ => acc,
        }
    }
}

/// The shape of the value of the call argument `a`.
pub open spec fn call_arg_shape(a: CallArg) -> ExprShape
    decreases a, 0nat,
{
    match a {
        CallArg::Positional(e) => expr_shape(e),
        CallArg::Named { value, .. } => expr_shape(value),
    }
}

/// The shapes of the values of the call arguments `s`, in order.
pub open spec fn call_arg_shapes(s: Seq<CallArg>) -> Seq<ExprShape>
    decreases s, 1nat,
{
    if s.len() == 0 { Seq::empty() } else { call_arg_shapes(s.drop_last()).push(call_arg_shape(s.last())) }
}

/// The binary operator a token stands for.
pub open spec fn binop_of(k: TokenKind) -> BinaryOp {
    match k {
        TokenKind::Star => BinaryOp::Mul,
        TokenKind::Slash => BinaryOp::Div,
        TokenKind::Percent => BinaryOp::Mod,
        TokenKind::Plus => BinaryOp::Add,
        TokenKind::Minus => BinaryOp::Sub,
        TokenKind::ShiftLeft => BinaryOp::ShiftLeft,
        TokenKind::ShiftRight => BinaryOp::ShiftRight,
        TokenKind::Lt => BinaryOp::Lt,
        TokenKind::Gt => BinaryOp::Gt,
        TokenKind::Le => BinaryOp::Le,
        TokenKind::Ge => BinaryOp::Ge,
        TokenKind::EqEq => BinaryOp::Eq,
        TokenKind::Ne => BinaryOp::Ne,
        TokenKind::Amp => BinaryOp::BitAnd,
        TokenKind::Caret => BinaryOp::BitXor,
        TokenKind::Pipe => BinaryOp::BitOr,
        TokenKind::AndAnd => BinaryOp::And,
        _ => BinaryOp::Or,
    }
}

/// A binary operator token reads as the operator written the same way: `==` as `Eq`,
/// `!=` as `Ne`, `<<` as `ShiftLeft`, and so on.
pub proof fn lemma_binary_operator_spelled(k: TokenKind, lvl: int)
    requires
        binary_op_of(k, lvl),
    ensures
        kind_spelling(k) == Some(binary_op_spelling(binop_of(k))),
{
}

/// Two different binary operator tokens read as two different operators; in particular
/// `x == y` and `x != y` never parse to the same tree.
pub proof fn lemma_binary_operators_distinct(k1: TokenKind, l1: int, k2: TokenKind, l2: int)
    requires
        binary_op_of(k1, l1),
        binary_op_of(k2, l2),
        k1 != k2,
    ensures
        binop_of(k1) != binop_of(k2),
{
    reveal_strlit("*");
    reveal_strlit("/");
    reveal_strlit("%");
    reveal_strlit("+");
    reveal_strlit("-");
    reveal_strlit("<<");
    reveal_strlit(">>");
    reveal_strlit("<");
    reveal_strlit(">");
    reveal_strlit("<=");
    reveal_strlit(">=");
    reveal_strlit("==");
    reveal_strlit("!=");
    reveal_strlit("&");
    reveal_strlit("^");
    reveal_strlit("|");
    reveal_strlit("&&");
    reveal_strlit("||");
    lemma_binary_operator_spelled(k1, l1);
    lemma_binary_operator_spelled(k2, l2);
}

/// A prefix operator token other than `await` reads as the operator written the same way.
pub proof fn lemma_unary_operator_spelled(k: TokenKind)
    requires
        prefix_op(k),
        !(k is Await),
    ensures
        kind_spelling(k) == Some(unary_op_spelling(unop_of(k))),
{
}

/// A compound assignment token reads as the compound assignment written the same way:
/// `<<=` as `ShiftLeft`, `-=` as `Sub`, and so on.
pub proof fn lemma_compound_operator_spelled(k: TokenKind)
    requires
        compound_op_of(k) is Some,
    ensures
        kind_spelling(k) == Some(compound_op_spelling(compound_op_of(k)->0)),
{
}

/// The prefix operator a token stands for (`await` aside).
pub open spec fn unop_of(k: TokenKind) -> UnaryOp {
    match k {
        TokenKind::Plus => UnaryOp::Plus,
        TokenKind::Minus => UnaryOp::Minus,
        TokenKind::Tilde => UnaryOp::BitNot,
        _ => UnaryOp::Not,
    }
}

/// The shape of what follows the name `name` ending just before token `j`: a call when
/// `(args)` or `<T, ..>(args)` follows, the name itself when nothing it takes follows.
pub open spec fn after_ident_shape(toks: Seq<Token>, j: int, name: Seq<char>, sp: Span) -> ExprShape
    decreases toks.len() - j, 40nat,
{
    let k = kind_at(toks, j, 0);
    if k is LParen {
        match list_at(toks, j + 1, true) {
            ListRead::Done(names, _) => ExprShape::Call(name, names, list_shapes_at(toks, j + 1, true)),
            _ => ExprShape::Other,
        }
    } else if k is Lt && generic_args_ahead(toks, j, 1, 1) {
        match args_at(toks, j + 1, Seq::empty()) {
            ArgsRead::Done(_, m) => if kind_at(toks, m, 0) is LParen && m >= j {
                match list_at(toks, m + 1, true) {
                    ListRead::Done(names, _) => ExprShape::Call(name, names, list_shapes_at(toks, m + 1, true)),
                    _ => ExprShape::Other,
                }
            } else {
                ExprShape::Other
            },
            _ => ExprShape::Other,
        }
    } else if k is Lt {
        ExprShape::Ident(name, sp)
    } else if (k is LBrace && struct_literal_ahead(toks, j)) || k is ColonColon {
        ExprShape::Other
    } else {
        ExprShape::Ident(name, sp)
    }
}

/// The shape of the expression read from token `i` (see `expr_at`).
pub open spec fn expr_shape_at(toks: Seq<Token>, i: int) -> ExprShape
    decreases toks.len() - i, 30nat,
{
    if i < 0 || i > toks.len() {
        ExprShape::Other
    } else {
        match lambda_head_at(toks, i) {
            Some(_) => ExprShape::Other,
            None => level_shape(toks, i, 10),
        }
    }
}

/// The shape of the primary expression read from token `i` (see `primary_at`).
pub open spec fn prim_shape(toks: Seq<Token>, i: int) -> ExprShape
    decreases toks.len() - i, 0nat,
{
    if i < 0 || i >= toks.len() {
        ExprShape::Other
    } else {
        match kind_at(toks, i, 0) {
            TokenKind::IntegerLiteral { value, original, radix } => ExprShape::Int(value, original@, radix, toks[i].span),
            TokenKind::StringLiteral { value, original } => ExprShape::Str(value@, original@, toks[i].span),
            TokenKind::True => ExprShape::Bool(true, toks[i].span),
            TokenKind::False => ExprShape::Bool(false, toks[i].span),
            TokenKind::Identifier(n) => after_ident_shape(toks, i + 1, n@, toks[i].span),
            TokenKind::LParen => if kind_at(toks, i, 1) is RParen {
                ExprShape::Unit
            } else {
                match expr_at(toks, i + 1) {
                    ExprRead::Parsed(j) => if kind_at(toks, j, 0) is RParen {
                        expr_shape_at(toks, i + 1)
                    } else if kind_at(toks, j, 0) is Comma && i < j < toks.len() {
                        ExprShape::Tuple(item_shapes_at(toks, j + 1, seq![expr_shape_at(toks, i + 1)], true), toks[i].span)
                    } else {
                        ExprShape::Other
                    },
                    _ => ExprShape::Other,
                }
            },
            TokenKind::LBracket => ExprShape::Array(item_shapes_at(toks, i + 1, Seq::empty(), false), toks[i].span),
            _ => ExprShape::Other,
        }
    }
}

/// The shape of the tree of level `lvl` read from token `i` (see `level_at`): operators
/// of one level group to the left.
pub open spec fn level_shape(toks: Seq<Token>, i: int, lvl: nat) -> ExprShape
    decreases toks.len() - i, 2 * lvl + 2,
{
    if i < 0 || i > toks.len() {
        ExprShape::Other
    } else if lvl == 0 {
        let k = kind_at(toks, i, 0);
        if prefix_op(k) {
            if k is Await {
                ExprShape::Await(Box::new(level_shape(toks, i + 1, 0)), toks[i].span)
            } else {
                ExprShape::Unary(unop_of(k), Box::new(level_shape(toks, i + 1, 0)), toks[i].span)
            }
        } else {
            match primary_at(toks, i) {
                ExprRead::Parsed(j) => if j < i || j > toks.len() { ExprShape::Other } else { suffix_shape(toks, j, prim_shape(toks, i)) },
                _ => ExprShape::Other,
            }
        }
    } else {
        match level_at(toks, i, (lvl - 1) as nat) {
            ExprRead::Parsed(j) => if j <= i || j > toks.len() {
                ExprShape::Other
            } else {
                tail_shape(toks, j, lvl, level_shape(toks, i, (lvl - 1) as nat))
            },
            _ => ExprShape::Other,
        }
    }
}

/// The tree of level `lvl` after its operand `acc` ending at `j`: each further operator of
/// the level takes the tree so far as its left operand.
pub open spec fn tail_shape(toks: Seq<Token>, j: int, lvl: nat, acc: ExprShape) -> ExprShape
    decreases toks.len() - j, 2 * lvl + 1,
{
    if j < 0 || j > toks.len() || lvl == 0 {
        ExprShape::Other
    } else if binary_op_of(kind_at(toks, j, 0), lvl as int) {
        match level_at(toks, j + 1, (lvl - 1) as nat) {
            ExprRead::Parsed(k) => if k <= j || k > toks.len() {
                ExprShape::Other
            } else {
                tail_shape(
                    toks,
                    k,
                    lvl,
                    ExprShape::Binary(binop_of(kind_at(toks, j, 0)), Box::new(acc), Box::new(level_shape(toks, j + 1, (lvl - 1) as nat)), toks[j].span),
                )
            },
            _ => ExprShape::Other,
        }
    } else {
        acc
    }
}

/// The shape of the operand of shape `acc` after the suffixes read from token `j` on
/// (see `suffixes_at`): `.field`, `.N` and `[index]` apply to the operand so far; `(args)`
/// makes a call of a name, a method call of a field, and an invocation of anything else.
pub open spec fn suffix_shape(toks: Seq<Token>, j: int, acc: ExprShape) -> ExprShape
    decreases toks.len() - j, 0nat,
{
    if j < 0 || j > toks.len() {
        ExprShape::Other
    } else {
        let k = kind_at(toks, j, 0);
        if k is Dot {
            if j + 2 <= toks.len() {
                let member = match kind_at(toks, j, 1) {
                    TokenKind::IntegerLiteral { original, radix, .. } => match tuple_index_value(original@, radix) {
                        Some(ix) => ExprShape::TupleField(Box::new(acc), ix, toks[j + 1].span),
                        None => ExprShape::Other,
                    },
                    TokenKind::Identifier(f) => ExprShape::Field(Box::new(acc), f@, toks[j + 1].span),
                    _ => ExprShape::Other,
                };
                suffix_shape(toks, j + 2, member)
            } else {
                ExprShape::Other
            }
        } else if k is LBracket {
            match expr_at(toks, j + 1) {
                ExprRead::Parsed(m) => if m <= j || m >= toks.len() {
                    ExprShape::Other
                } else {
                    suffix_shape(toks, m + 1, ExprShape::Index(Box::new(acc), Box::new(expr_shape_at(toks, j + 1)), toks[j].span))
                },
                _ => ExprShape::Other,
            }
        } else if k is LParen {
            match list_at(toks, j + 1, true) {
                ListRead::Done(names, m) => if m <= j || m >= toks.len() {
                    ExprShape::Other
                } else {
                    let next = match acc {
                        ExprShape::Ident(n, _) => ExprShape::Call(n, names, list_shapes_at(toks, j + 1, true)),
                        ExprShape::Field(b, f, _) => ExprShape::MethodCall(b, f, names, list_shapes_at(toks, j + 1, true)),
                        other => ExprShape::Invoke(Box::new(other), names, list_shapes_at(toks, j + 1, true)),
                    };
                    suffix_shape(toks, m + 1, next)
                },
                _ => ExprShape::Other,
            }
        } else {
            acc
        }
    }
}

/// The suffixes after an operand, read from token `j` on: `.field`, `.N` (a tuple index
/// that fits in `u32`), `[index]` and `(args)`, up to the first other token.
pub open spec fn suffixes_at(toks: Seq<Token>, j: int) -> ExprRead
    decreases toks.len() - j, 0nat,
{
    if j < 0 || j > toks.len() {
        ExprRead::Failed
    } else {
        let k = kind_at(toks, j, 0);
        if k is Dot {
            match kind_at(toks, j, 1) {
                TokenKind::IntegerLiteral { original, radix, .. } => if tuple_index_value(original@, radix) is Some {
                    suffixes_at(toks, j + 2)
                } else {
                    ExprRead::Failed
                },
                TokenKind::Identifier(_) => suffixes_at(toks, j + 2),
                _ => ExprRead::Failed,
            }
        } else if k is LBracket {
            match expr_at(toks, j + 1) {
                ExprRead::Parsed(m) => if m <= j || m >= toks.len() || !(kind_at(toks, m, 0) is RBracket) {
                    ExprRead::Failed
                } else {
                    suffixes_at(toks, m + 1)
                },
                other => other,
            }
        } else if k is LParen {
            match list_at(toks, j + 1, true) {
                ListRead::Done(_, m) => if m <= j || m >= toks.len() || !(kind_at(toks, m, 0) is RParen) {
                    ExprRead::Failed
                } else {
                    suffixes_at(toks, m + 1)
                },
                ListRead::Failed => ExprRead::Failed,
                ListRead::Unread => ExprRead::Unread,
            }
        } else {
            ExprRead::Parsed(j)
        }
    }
}

/// The operators of level `lvl` (0 for prefix operators) and what they apply to,
/// read from token `i`; operators of one level group to the left.
pub open spec fn level_at(toks: Seq<Token>, i: int, lvl: nat) -> ExprRead
    decreases toks.len() - i, 2 * lvl + 2,
{
    if i < 0 || i > toks.len() {
        ExprRead::Failed
    } else if lvl == 0 {
        if prefix_op(kind_at(toks, i, 0)) {
            level_at(toks, i + 1, 0)
        } else {
            match primary_at(toks, i) {
                ExprRead::Parsed(j) => if j <= i || j > toks.len() { ExprRead::Failed } else { suffixes_at(toks, j) },
                other => other,
            }
        }
    } else {
        match level_at(toks, i, (lvl - 1) as nat) {
            ExprRead::Parsed(j) => if j <= i || j > toks.len() {
                ExprRead::Failed
            } else {
                level_tail(toks, j, lvl)
            },
            other => other,
        }
    }
}

/// After an operand of level `lvl` that ends at `j`: more operators of that level and
/// their right operands, up to the first other token.
pub open spec fn level_tail(toks: Seq<Token>, j: int, lvl: nat) -> ExprRead
    decreases toks.len() - j, 2 * lvl + 1,
{
    if j < 0 || j > toks.len() || lvl == 0 {
        ExprRead::Failed
    } else if binary_op_of(kind_at(toks, j, 0), lvl as int) {
        match level_at(toks, j + 1, (lvl - 1) as nat) {
            ExprRead::Parsed(k) => if k <= j || k > toks.len() {
                ExprRead::Failed
            } else {
                level_tail(toks, k, lvl)
            },
            other => other,
        }
    } else {
        ExprRead::Parsed(j)
    }
}

/// A pattern read from token `i`: a literal, `_`, a name, a tuple or array pattern,
/// `Enum::Variant` with or without payloads, or a struct pattern `Name { .. }`; patterns
/// with generic arguments (`Name<T>..`) are left open.
pub open spec fn pattern_at(toks: Seq<Token>, i: int) -> ExprRead
    decreases toks.len() - i, 0nat,
{
    if i < 0 || i > toks.len() {
        ExprRead::Failed
    } else {
        let k = kind_at(toks, i, 0);
        if k is IntegerLiteral || k is StringLiteral || k is True || k is False || k is Underscore {
            ExprRead::Parsed(i + 1)
        } else if k is LParen {
            tuple_pattern_at(toks, i)
        } else if k is LBracket {
            array_pattern_at(toks, i)
        } else if !(k is Identifier) {
            ExprRead::Failed
        } else if kind_at(toks, i, 1) is ColonColon {
            if !(kind_at(toks, i, 2) is Identifier) {
                ExprRead::Failed
            } else if kind_at(toks, i, 3) is LParen {
                payloads_at(toks, i + 3)
            } else {
                ExprRead::Parsed(i + 3)
            }
        } else if kind_at(toks, i, 1) is Lt {
            ExprRead::Unread
        } else if kind_at(toks, i, 1) is LBrace {
            struct_pattern_body_at(toks, i + 1)
        } else {
            ExprRead::Parsed(i + 1)
        }
    }
}

/// A literal pattern token: an integer, a string, `true` or `false`.
pub open spec fn literal_pattern_token(k: TokenKind) -> bool {
    k is IntegerLiteral || k is StringLiteral || k is True || k is False
}

/// A tuple pattern read from the `(` at token `i`: bindings, `_`, literals, nested
/// tuple patterns and `..`, separated by `,` (a trailing comma allowed), with at most
/// one `..`.
pub open spec fn tuple_pattern_at(toks: Seq<Token>, i: int) -> ExprRead
    decreases toks.len() - i, 0nat,
{
    if i < 0 || i >= toks.len() || !(kind_at(toks, i, 0) is LParen) {
        ExprRead::Failed
    } else if kind_at(toks, i, 1) is RParen {
        ExprRead::Parsed(i + 2)
    } else {
        tuple_elems_at(toks, i + 1, 0)
    }
}

/// A tuple pattern that closes just before `end` after `rests` `..` elements.
pub open spec fn close_rests(rests: nat, end: int) -> ExprRead {
    if rests >= 2 { ExprRead::Failed } else { ExprRead::Parsed(end) }
}

/// One element of a tuple pattern read from token `j`.
pub open spec fn tuple_elem_at(toks: Seq<Token>, j: int) -> ExprRead
    decreases toks.len() - j, 1nat,
{
    let k = kind_at(toks, j, 0);
    if j < 0 || j >= toks.len() {
        ExprRead::Failed
    } else if k is LParen {
        tuple_pattern_at(toks, j)
    } else if k is DotDot || k is Underscore || literal_pattern_token(k) || k is Identifier {
        ExprRead::Parsed(j + 1)
    } else {
        ExprRead::Failed
    }
}

/// The elements of a tuple pattern from token `j` on, after `rests` `..` elements.
pub open spec fn tuple_elems_at(toks: Seq<Token>, j: int, rests: nat) -> ExprRead
    decreases toks.len() - j, 2nat,
{
    if j < 0 || j >= toks.len() {
        ExprRead::Failed
    } else {
        let k = kind_at(toks, j, 0);
        let r2: nat = if k is DotDot { rests + 1 } else { rests };
        match tuple_elem_at(toks, j) {
            ExprRead::Parsed(e) => if e <= j || e >= toks.len() {
                ExprRead::Failed
            } else if kind_at(toks, e, 0) is RParen {
                close_rests(r2, e + 1)
            } else if kind_at(toks, e, 0) is Comma {
                if kind_at(toks, e, 1) is RParen { close_rests(r2, e + 2) } else { tuple_elems_at(toks, e + 1, r2) }
            } else {
                ExprRead::Failed
            },
            _ => ExprRead::Failed,
        }
    }
}

/// An array pattern read from the `[` at token `i`: bindings, `_`, literals, nested
/// array and tuple patterns and `..`, separated by `,` (a trailing comma allowed).
pub open spec fn array_pattern_at(toks: Seq<Token>, i: int) -> ExprRead
    decreases toks.len() - i, 0nat,
{
    if i < 0 || i >= toks.len() || !(kind_at(toks, i, 0) is LBracket) {
        ExprRead::Failed
    } else if kind_at(toks, i, 1) is RBracket {
        ExprRead::Parsed(i + 2)
    } else {
        array_elems_at(toks, i + 1)
    }
}

/// One element of an array pattern read from token `j`.
pub open spec fn array_elem_at(toks: Seq<Token>, j: int) -> ExprRead
    decreases toks.len() - j, 1nat,
{
    let k = kind_at(toks, j, 0);
    if j < 0 || j >= toks.len() {
        ExprRead::Failed
    } else if k is LBracket {
        array_pattern_at(toks, j)
    } else if k is LParen {
        tuple_pattern_at(toks, j)
    } else if k is DotDot || k is Underscore || literal_pattern_token(k) || k is Identifier {
        ExprRead::Parsed(j + 1)
    } else {
        ExprRead::Failed
    }
}

/// The elements of an array pattern from token `j` on.
pub open spec fn array_elems_at(toks: Seq<Token>, j: int) -> ExprRead
    decreases toks.len() - j, 2nat,
{
    if j < 0 || j >= toks.len() {
        ExprRead::Failed
    } else {
        match array_elem_at(toks, j) {
            ExprRead::Parsed(e) => if e <= j || e >= toks.len() {
                ExprRead::Failed
            } else if kind_at(toks, e, 0) is Comma {
                if kind_at(toks, e, 1) is RBracket { ExprRead::Parsed(e + 2) } else { array_elems_at(toks, e + 1) }
            } else if kind_at(toks, e, 0) is RBracket {
                ExprRead::Parsed(e + 1)
            } else {
                ExprRead::Failed
            },
            _ => ExprRead::Failed,
        }
    }
}

/// The fields of a struct pattern from token `j` on: `name`, `name: _`,
/// `name: pattern` and at most one `..`, separated by `,` (a trailing comma allowed),
/// up to `}`.
pub open spec fn struct_fields_pattern_at(toks: Seq<Token>, j: int, rest_seen: bool) -> ExprRead
    decreases toks.len() - j, 0nat,
{
    if j < 0 || j >= toks.len() {
        ExprRead::Failed
    } else {
        let k = kind_at(toks, j, 0);
        let elem = if k is DotDot {
            if rest_seen { ExprRead::Failed } else { ExprRead::Parsed(j + 1) }
        } else if k is Identifier {
            if kind_at(toks, j, 1) is Colon {
                if kind_at(toks, j, 2) is Underscore { ExprRead::Parsed(j + 3) } else { pattern_at(toks, j + 2) }
            } else {
                ExprRead::Parsed(j + 1)
            }
        } else {
            ExprRead::Failed
        };
        let rs = rest_seen || k is DotDot;
        match elem {
            ExprRead::Parsed(e) => if e <= j || e >= toks.len() {
                ExprRead::Failed
            } else if kind_at(toks, e, 0) is Comma {
                if kind_at(toks, e, 1) is RBrace { ExprRead::Parsed(e + 2) } else { struct_fields_pattern_at(toks, e + 1, rs) }
            } else if kind_at(toks, e, 0) is RBrace {
                ExprRead::Parsed(e + 1)
            } else {
                ExprRead::Failed
            },
            other => other,
        }
    }
}

/// The `{ fields }` of a struct pattern read from the `{` at token `i`.
pub open spec fn struct_pattern_body_at(toks: Seq<Token>, i: int) -> ExprRead
    decreases toks.len() - i, 0nat,
{
    if !(kind_at(toks, i, 0) is LBrace) {
        ExprRead::Failed
    } else if kind_at(toks, i, 1) is RBrace {
        ExprRead::Parsed(i + 2)
    } else {
        struct_fields_pattern_at(toks, i + 1, false)
    }
}

/// The payload patterns of an enum variant pattern from token `j` on, separated by
/// `,` up to `)`.
pub open spec fn payload_items_at(toks: Seq<Token>, j: int) -> ExprRead
    decreases toks.len() - j, 1nat,
{
    if j < 0 || j >= toks.len() {
        ExprRead::Failed
    } else {
        match pattern_at(toks, j) {
            ExprRead::Parsed(e) => if e <= j || e >= toks.len() {
                ExprRead::Failed
            } else if kind_at(toks, e, 0) is Comma {
                payload_items_at(toks, e + 1)
            } else if kind_at(toks, e, 0) is RParen {
                ExprRead::Parsed(e + 1)
            } else {
                ExprRead::Failed
            },
            other => other,
        }
    }
}

/// `(p1, .., pn)` read from the `(` at token `i`: the payloads of a variant pattern.
pub open spec fn payloads_at(toks: Seq<Token>, i: int) -> ExprRead
    decreases toks.len() - i, 0nat,
{
    if !(kind_at(toks, i, 0) is LParen) {
        ExprRead::Failed
    } else if kind_at(toks, i, 1) is RParen {
        ExprRead::Parsed(i + 2)
    } else {
        payload_items_at(toks, i + 1)
    }
}

/// The pattern read from token `i` may stand in a top-level `let`: `_`, a plain name,
/// `()` or `[]`.
pub open spec fn pattern_top_ok(toks: Seq<Token>, i: int) -> bool {
    ||| kind_at(toks, i, 0) is Underscore
    ||| (kind_at(toks, i, 0) is Identifier
        && !(kind_at(toks, i, 1) is ColonColon || kind_at(toks, i, 1) is Lt || kind_at(toks, i, 1) is LBrace))
    ||| (kind_at(toks, i, 0) is LParen && kind_at(toks, i, 1) is RParen)
    ||| (kind_at(toks, i, 0) is LBracket && kind_at(toks, i, 1) is RBracket)
}

/// Continues a `let` or `const` after its pattern or name ending at `j`: an optional
/// `: Type`, then (`let` only: optionally, `const`: always) `= expr`, then `;`.
pub open spec fn binding_rest_at(toks: Seq<Token>, j: int, init_required: bool) -> ExprRead {
    let ty = if kind_at(toks, j, 0) is Colon { type_at(toks, j + 1) } else { TypeRead::Parsed(TypeShape::Unit, j) };
    match ty {
        TypeRead::Parsed(_, k) => {
            let init = if kind_at(toks, k, 0) is Eq { expr_at(toks, k + 1) } else { ExprRead::Parsed(k) };
            match init {
                ExprRead::Parsed(m) => if init_required && !(kind_at(toks, k, 0) is Eq) {
                    ExprRead::Failed
                } else if kind_at(toks, m, 0) is Semicolon {
                    ExprRead::Parsed(m + 1)
                } else {
                    ExprRead::Failed
                },
                other => other,
            }
        },
        TypeRead::Failed => ExprRead::Failed,
        TypeRead::Unread => ExprRead::Unread,
    }
}

/// `let pattern (: Type)? (= expr)?;` read from the `let` at token `i`.
pub open spec fn let_at(toks: Seq<Token>, i: int, require_initializer: bool, top_level: bool) -> ExprRead {
    match pattern_at(toks, i + 1) {
        ExprRead::Parsed(j) => if top_level && !pattern_top_ok(toks, i + 1) {
            ExprRead::Failed
        } else {
            binding_rest_at(toks, j, require_initializer)
        },
        other => other,
    }
}

/// The `let` at token `i` reads its pattern (and, at the top level, a pattern allowed
/// there) and its type, and no `=` follows.
#[verifier::opaque]
pub open spec fn let_lacks_initializer(toks: Seq<Token>, i: int, top_level: bool) -> bool {
    match pattern_at(toks, i + 1) {
        ExprRead::Parsed(j) => {
            &&& !(top_level && !pattern_top_ok(toks, i + 1))
            &&& match (if kind_at(toks, j, 0) is Colon { type_at(toks, j + 1) } else { TypeRead::Parsed(TypeShape::Unit, j) }) {
                TypeRead::Parsed(_, k) => !(kind_at(toks, k, 0) is Eq),
                _ => false,
            }
        },
        _ => false,
    }
}

/// `const name (: Type)? = expr;` read from the `const` at token `i`.
pub open spec fn const_at(toks: Seq<Token>, i: int) -> ExprRead {
    if kind_at(toks, i, 1) is Identifier {
        if kind_at(toks, i, 2) is Colon {
            match type_at(toks, i + 3) {
                TypeRead::Parsed(_, k) => if kind_at(toks, k, 0) is Eq {
                    match expr_at(toks, k + 1) {
                        ExprRead::Parsed(m) => if kind_at(toks, m, 0) is Semicolon { ExprRead::Parsed(m + 1) } else { ExprRead::Failed },
                        other => other,
                    }
                } else {
                    ExprRead::Failed
                },
                TypeRead::Failed => ExprRead::Failed,
                TypeRead::Unread => ExprRead::Unread,
            }
        } else if kind_at(toks, i, 2) is Eq {
            match expr_at(toks, i + 3) {
                ExprRead::Parsed(m) => if kind_at(toks, m, 0) is Semicolon { ExprRead::Parsed(m + 1) } else { ExprRead::Failed },
                other => other,
            }
        } else {
            ExprRead::Failed
        }
    } else {
        ExprRead::Failed
    }
}

/// `return;` or `return expr;` read from the `return` at token `i`.
pub open spec fn return_at(toks: Seq<Token>, i: int) -> ExprRead {
    if kind_at(toks, i, 1) is Semicolon {
        ExprRead::Parsed(i + 2)
    } else {
        match expr_at(toks, i + 1) {
            ExprRead::Parsed(j) => if kind_at(toks, j, 0) is Semicolon { ExprRead::Parsed(j + 1) } else { ExprRead::Failed },
            other => other,
        }
    }
}

/// The statements of a block read from token `i` up to (not past) its `}`.
pub open spec fn block_items_at(toks: Seq<Token>, i: int) -> ExprRead
    decreases toks.len() - i, 5nat,
{
    if i < 0 || i > toks.len() {
        ExprRead::Failed
    } else if kind_at(toks, i, 0) is RBrace {
        ExprRead::Parsed(i)
    } else if kind_at(toks, i, 0) is Eof {
        ExprRead::Failed
    } else {
        match block_item_at(toks, i) {
            ExprRead::Parsed(j) => if j <= i || j > toks.len() { ExprRead::Failed } else { block_items_at(toks, j) },
            other => other,
        }
    }
}

/// `{ statements }` read from the `{` at token `i`.
pub open spec fn braced_at(toks: Seq<Token>, i: int) -> ExprRead
    decreases toks.len() - i, 0nat,
{
    if i < 0 || i >= toks.len() || !(kind_at(toks, i, 0) is LBrace) {
        ExprRead::Failed
    } else {
        match block_items_at(toks, i + 1) {
            ExprRead::Parsed(k) => ExprRead::Parsed(k + 1),
            other => other,
        }
    }
}

/// `while cond { ... }` read from the `while` at token `i`.
pub open spec fn while_at(toks: Seq<Token>, i: int) -> ExprRead
    decreases toks.len() - i, 0nat,
{
    if i < 0 || i >= toks.len() {
        ExprRead::Failed
    } else {
        match expr_at(toks, i + 1) {
            ExprRead::Parsed(j) => if j <= i || j > toks.len() { ExprRead::Failed } else { braced_at(toks, j) },
            other => other,
        }
    }
}

/// `if cond { ... }` with an optional `else if ...` or `else { ... }`, read from the
/// `if` at token `i`; `if let` is left open.
pub open spec fn if_at(toks: Seq<Token>, i: int) -> ExprRead
    decreases toks.len() - i, 3nat,
{
    if i < 0 || i >= toks.len() {
        ExprRead::Failed
    } else if kind_at(toks, i, 1) is Let {
        ExprRead::Unread
    } else {
        match expr_at(toks, i + 1) {
            ExprRead::Parsed(j) => if_after_cond(toks, i, j),
            other => other,
        }
    }
}

/// The rest of the `if` at token `i` after its condition, which ends at `j`.
pub open spec fn if_after_cond(toks: Seq<Token>, i: int, j: int) -> ExprRead
    decreases toks.len() - i, 2nat,
{
    if i < 0 || j <= i || j > toks.len() {
        ExprRead::Failed
    } else {
        match braced_at(toks, j) {
            ExprRead::Parsed(a) => if_else_at(toks, i, a),
            other => other,
        }
    }
}

/// The optional `else` part of the `if` at token `i`, from token `a` after its body.
pub open spec fn if_else_at(toks: Seq<Token>, i: int, a: int) -> ExprRead
    decreases toks.len() - i, 1nat,
{
    if i < 0 || a <= i || a > toks.len() {
        ExprRead::Failed
    } else if kind_at(toks, a, 0) is Else {
        if kind_at(toks, a, 1) is If {
            if_at(toks, a + 1)
        } else {
            braced_at(toks, a + 1)
        }
    } else {
        ExprRead::Parsed(a)
    }
}

/// A statement that starts with the name at token `i`: a call `name(args);` or
/// `name<T>(args);`, or an assignment `place = expr;` or `place op= expr;` to the name
/// or to a field or element reached from it (`name.f`, `name[i]`, ..).
#[verifier::opaque]
pub open spec fn name_statement_at(toks: Seq<Token>, i: int) -> ExprRead {
    let k1 = kind_at(toks, i, 1);
    if k1 is LParen {
        call_tail_at(toks, i + 1)
    } else if k1 is Lt {
        if !generic_args_ahead(toks, i + 1, 1, 1) {
            ExprRead::Failed
        } else {
            match args_at(toks, i + 2, Seq::empty()) {
                ArgsRead::Done(_, j) => call_tail_at(toks, j),
                ArgsRead::Failed => ExprRead::Failed,
                ArgsRead::Unread => ExprRead::Unread,
            }
        }
    } else {
        match suffixes_at(toks, i + 1) {
            ExprRead::Parsed(j) => if j < i + 1 || j > toks.len() {
                ExprRead::Failed
            } else {
                assign_tail_at(toks, j)
            },
            other => other,
        }
    }
}

/// The rest of an assignment whose target ends before token `j`: `op= expr;` or
/// `= expr;`.
pub open spec fn assign_tail_at(toks: Seq<Token>, j: int) -> ExprRead {
    if compound_op_of(kind_at(toks, j, 0)) is Some || kind_at(toks, j, 0) is Eq {
        match expr_at(toks, j + 1) {
            ExprRead::Parsed(m) => if kind_at(toks, m, 0) is Semicolon { ExprRead::Parsed(m + 1) } else { ExprRead::Failed },
            other => other,
        }
    } else {
        ExprRead::Failed
    }
}

/// The shape of an assignment to a target of shape `lhs` whose target ends before
/// token `j`.
pub open spec fn assign_tail_shape(toks: Seq<Token>, j: int, lhs: ExprShape) -> StmtShape {
    match compound_op_of(kind_at(toks, j, 0)) {
        Some(op) => StmtShape::CompoundAssign(lhs, op, expr_shape_at(toks, j + 1)),
        None => match lhs {
            ExprShape::Ident(n, _) => if kind_at(toks, j, 0) is Eq {
                StmtShape::Assign(n, expr_shape_at(toks, j + 1))
            } else {
                StmtShape::Other
            },
            _ => StmtShape::Other,
        },
    }
}

/// One statement of a block read from token `i`; `match` statements and destructuring
/// assignments (which start with `(`) are left open.
pub open spec fn block_item_at(toks: Seq<Token>, i: int) -> ExprRead
    decreases toks.len() - i, 4nat,
{
    if i < 0 || i > toks.len() {
        ExprRead::Failed
    } else {
        let k = kind_at(toks, i, 0);
        match k {
            TokenKind::Identifier(n) => if n@ == "internal"@ || n@ == "func"@ {
                ExprRead::Failed
            } else if n@ == "return"@ {
                return_at(toks, i)
            } else {
                name_statement_at(toks, i)
            },
            TokenKind::Await => match expr_at(toks, i) {
                ExprRead::Parsed(j) => if kind_at(toks, j, 0) is Semicolon { ExprRead::Parsed(j + 1) } else { ExprRead::Failed },
                other => other,
            },
            TokenKind::Let => let_at(toks, i, false, false),
            TokenKind::Const => const_at(toks, i),
            TokenKind::If => if_at(toks, i),
            TokenKind::Match => ExprRead::Unread,
            TokenKind::While => while_at(toks, i),
            TokenKind::Break | TokenKind::Continue =>
                if kind_at(toks, i, 1) is Semicolon { ExprRead::Parsed(i + 2) } else { ExprRead::Failed },
            TokenKind::LBrace => braced_at(toks, i),
            TokenKind::LParen => ExprRead::Unread,
            TokenKind::SingleLineComment(_) | TokenKind::MultiLineComment(_) => ExprRead::Parsed(i + 1),
            _ => ExprRead::Failed,
        }
    }
}

/// The shape of a statement: a `return` with the shape of its value; a `let` or `const`
/// with its pattern, type annotation and value; an `if` or `while` with its condition and
/// the statements of its branches or body; a block with its statements; `break` and
/// `continue` with their spans; an assignment to a name with the name and the value; a
/// compound assignment with its target, operator and value; any other statement (calls,
/// assignments to fields and elements among them) is `Other`.
pub enum StmtShape {
    Return(Option<ExprShape>),
    Let(PatShape, Option<TypeShape>, Option<ExprShape>, bool),
    If(ExprShape, Seq<StmtShape>, Option<Seq<StmtShape>>),
    While(ExprShape, Seq<StmtShape>),
    Block(Seq<StmtShape>),
    Break(Span),
    Continue(Span),
    Assign(Seq<char>, ExprShape),
    CompoundAssign(ExprShape, CompoundOp, ExprShape),
    Other,
}

/// The shape of a pattern: `_` and a plain name with their spans; any other pattern
/// is `Other`.
pub enum PatShape {
    Wildcard(Span),
    Binding(Seq<char>, Span),
    Other,
}

/// The shape of the pattern `p`.
pub open spec fn pat_shape(p: Pattern) -> PatShape {
    match p {
        Pattern::Wildcard { span } => PatShape::Wildcard(span),
        Pattern::Binding { name, name_span } => PatShape::Binding(name@, name_span),
        _ => PatShape::Other,
    }
}

/// The shape of the pattern read from token `i` (see `pattern_at`).
pub open spec fn pattern_shape_at(toks: Seq<Token>, i: int) -> PatShape {
    let k = kind_at(toks, i, 0);
    if k is Underscore {
        PatShape::Wildcard(toks[i].span)
    } else if k is Identifier && !(kind_at(toks, i, 1) is ColonColon) && !(kind_at(toks, i, 1) is Lt)
        && !(kind_at(toks, i, 1) is LBrace) {
        PatShape::Binding(ident_text(k), toks[i].span)
    } else {
        PatShape::Other
    }
}

/// The shape of the statement `n`.
pub open spec fn stmt_shape(n: AstNode) -> StmtShape
    decreases n, 0nat,
{
    match n {
        AstNode::Return { value, .. } => StmtShape::Return(
            match value {
                Some(v) => Some(expr_shape(*v)),
                None => None,
            },
        ),
        AstNode::Let { pattern, type_annotation, initializer, is_const, .. } => StmtShape::Let(
            pat_shape(pattern),
            opt_type_shape(type_annotation),
            match initializer {
                Some(v) => Some(expr_shape(*v)),
                None => None,
            },
            is_const,
        ),
        AstNode::If { condition, then_body, else_body, .. } => StmtShape::If(
            expr_shape(*condition),
            stmt_shapes(then_body@),
            match else_body {
                Some(b) => Some(stmt_shapes(b@)),
                None => None,
            },
        ),
        AstNode::While { condition, body, .. } => StmtShape::While(expr_shape(*condition), stmt_shapes(body@)),
        AstNode::Block { body, .. } => StmtShape::Block(stmt_shapes(body@)),
        AstNode::Break { span } => StmtShape::Break(span),
        AstNode::Continue { span } => StmtShape::Continue(span),
        AstNode::Assign { pattern: Pattern::Binding { name, .. }, value, .. } =>
            StmtShape::Assign(name@, expr_shape(*value)),
        AstNode::CompoundAssign { lhs, op, rhs, .. } =>
            StmtShape::CompoundAssign(expr_shape(*lhs), op, expr_shape(*rhs)),
        _ => StmtShape::Other,
    }
}

/// The shapes of the statements `v`, in order.
pub open spec fn stmt_shapes(v: Seq<AstNode>) -> Seq<StmtShape>
    decreases v, 1nat,
{
    if v.len() == 0 {
        Seq::empty()
    } else {
        stmt_shapes(v.drop_last()).push(stmt_shape(v.last()))
    }
}

/// The shape of `return;` or `return expr;` at token `i`.
pub open spec fn return_shape(toks: Seq<Token>, i: int) -> StmtShape {
    if kind_at(toks, i, 1) is Semicolon {
        StmtShape::Return(None)
    } else {
        StmtShape::Return(Some(expr_shape_at(toks, i + 1)))
    }
}

/// The shape of the `let` at token `i`: the shape of its initializer, if it has one.
pub open spec fn let_shape(toks: Seq<Token>, i: int) -> StmtShape {
    match pattern_at(toks, i + 1) {
        ExprRead::Parsed(j) => {
            let annotated = kind_at(toks, j, 0) is Colon;
            let ty = if annotated { type_at(toks, j + 1) } else { TypeRead::Parsed(TypeShape::Unit, j) };
            match ty {
                TypeRead::Parsed(sh, k) => StmtShape::Let(
                    pattern_shape_at(toks, i + 1),
                    if annotated { Some(sh) } else { None },
                    if kind_at(toks, k, 0) is Eq { Some(expr_shape_at(toks, k + 1)) } else { None },
                    false,
                ),
                _ => StmtShape::Other,
            }
        },
        _ => StmtShape::Other,
    }
}

/// The shape of the `const` at token `i`: a binding with the shape of its value.
pub open spec fn const_shape(toks: Seq<Token>, i: int) -> StmtShape {
    let pat = PatShape::Binding(ident_text(kind_at(toks, i, 1)), toks[i + 1].span);
    if kind_at(toks, i, 2) is Colon {
        match type_at(toks, i + 3) {
            TypeRead::Parsed(sh, k) => StmtShape::Let(pat, Some(sh), Some(expr_shape_at(toks, k + 1)), true),
            _ => StmtShape::Other,
        }
    } else {
        StmtShape::Let(pat, None, Some(expr_shape_at(toks, i + 3)), true)
    }
}

/// The shapes of the statements of a block read from token `i` up to its `}`.
pub open spec fn block_items_shape(toks: Seq<Token>, i: int) -> Seq<StmtShape>
    decreases toks.len() - i, 5nat,
{
    if i < 0 || i > toks.len() || kind_at(toks, i, 0) is RBrace {
        Seq::empty()
    } else {
        match block_item_at(toks, i) {
            ExprRead::Parsed(j) => if j <= i || j > toks.len() {
                Seq::empty()
            } else {
                seq![block_item_shape(toks, i)] + block_items_shape(toks, j)
            },
            _ => Seq::empty(),
        }
    }
}

/// The shapes of the statements of the block whose `{` is at token `j`.
pub open spec fn braced_items_shape(toks: Seq<Token>, j: int) -> Seq<StmtShape>
    decreases toks.len() - j, 0nat,
{
    if j < 0 || j >= toks.len() {
        Seq::empty()
    } else {
        block_items_shape(toks, j + 1)
    }
}

/// The shape of the `if` at token `i`: its condition, its then branch, and its else
/// branch, where `else if` gives a branch of that one `if`.
#[verifier::opaque]
pub open spec fn if_shape(toks: Seq<Token>, i: int) -> StmtShape
    decreases toks.len() - i, 3nat,
{
    if i < 0 || i >= toks.len() {
        StmtShape::Other
    } else {
        match expr_at(toks, i + 1) {
            ExprRead::Parsed(j) => if j <= i || j > toks.len() {
                StmtShape::Other
            } else {
                let els = match braced_at(toks, j) {
                    ExprRead::Parsed(a) => else_shape(toks, i, a),
                    _ => None,
                };
                StmtShape::If(expr_shape_at(toks, i + 1), braced_items_shape(toks, j), els)
            },
            _ => StmtShape::Other,
        }
    }
}

/// The else branch of the `if` at token `i` whose then block ends before token `a`.
pub open spec fn else_shape(toks: Seq<Token>, i: int, a: int) -> Option<Seq<StmtShape>>
    decreases toks.len() - i, 2nat,
{
    if i < 0 || a <= i || a > toks.len() || !(kind_at(toks, a, 0) is Else) {
        None
    } else if kind_at(toks, a, 1) is If {
        Some(seq![if_shape(toks, a + 1)])
    } else {
        Some(braced_items_shape(toks, a + 1))
    }
}

/// One step of the statements of a block: the statement at `i` ends at `j`.
proof fn lemma_block_items_shape_step(toks: Seq<Token>, i: int, j: int)
    requires
        0 <= i < j <= toks.len(),
        !(kind_at(toks, i, 0) is RBrace),
        block_item_at(toks, i) == ExprRead::Parsed(j),
    ensures
        block_items_shape(toks, i) == seq![block_item_shape(toks, i)] + block_items_shape(toks, j),
{
    reveal(block_item_shape);
    reveal(if_shape);
}

/// The shape of an `if` whose condition ends at `j` and whose then block ends before `a`.
proof fn lemma_if_shape(toks: Seq<Token>, i: int, j: int, a: int)
    requires
        0 <= i < j <= toks.len(),
        expr_at(toks, i + 1) == ExprRead::Parsed(j),
        braced_at(toks, j) == ExprRead::Parsed(a),
    ensures
        if_shape(toks, i) == StmtShape::If(expr_shape_at(toks, i + 1), braced_items_shape(toks, j), else_shape(toks, i, a)),
{
    reveal(if_shape);
}

/// The shape of the statement read from token `i` (see `block_item_at`).
#[verifier::opaque]
pub open spec fn block_item_shape(toks: Seq<Token>, i: int) -> StmtShape
    decreases toks.len() - i, 4nat,
{
    if i < 0 || i > toks.len() {
        StmtShape::Other
    } else {
        match kind_at(toks, i, 0) {
            TokenKind::Identifier(n) => if n@ == "return"@ { return_shape(toks, i) } else { name_stmt_shape(toks, i, n@) },
            TokenKind::Let => let_shape(toks, i),
            TokenKind::Const => const_shape(toks, i),
            TokenKind::If => if_shape(toks, i),
            TokenKind::While => while_shape(toks, i),
            TokenKind::LBrace => StmtShape::Block(braced_items_shape(toks, i)),
            TokenKind::Break => StmtShape::Break(toks[i].span),
            TokenKind::Continue => StmtShape::Continue(toks[i].span),
            _ => StmtShape::Other,
        }
    }
}

/// The shape of the statement that starts with the name `name` at token `i`: an
/// assignment to that name, or a compound assignment to the place reached from it.
pub open spec fn name_stmt_shape(toks: Seq<Token>, i: int, name: Seq<char>) -> StmtShape {
    let k1 = kind_at(toks, i, 1);
    if k1 is LParen || k1 is Lt {
        StmtShape::Other
    } else {
        match suffixes_at(toks, i + 1) {
            ExprRead::Parsed(j) => assign_tail_shape(toks, j, suffix_shape(toks, i + 1, ExprShape::Ident(name, toks[i].span))),
            _ => StmtShape::Other,
        }
    }
}

/// The shape of the `while` at token `i`: its condition and the statements of its body.
pub open spec fn while_shape(toks: Seq<Token>, i: int) -> StmtShape
    decreases toks.len() - i, 3nat,
{
    if i < 0 || i >= toks.len() {
        StmtShape::Other
    } else {
        match expr_at(toks, i + 1) {
            ExprRead::Parsed(j) => if j <= i || j > toks.len() {
                StmtShape::Other
            } else {
                StmtShape::While(expr_shape_at(toks, i + 1), braced_items_shape(toks, j))
            },
            _ => StmtShape::Other,
        }
    }
}

/// What reading the items of a parenthesised list gives: for each item its name (for a
/// `name: value` argument) or `None`, and the index of the closing `)`, which is not
/// consumed; a failure; or `Unread` when an item is an expression this description
/// leaves open.
pub enum ListRead {
    Done(Seq<Option<Seq<char>>>, int),
    Failed,
    Unread,
}

/// The items of a list from token `i` on, after those in `acc`: expressions (or, where
/// `named_allowed`, `name: expr`) separated by `,` up to `)`, with no trailing comma.
pub open spec fn list_items_at(toks: Seq<Token>, i: int, acc: Seq<Option<Seq<char>>>, named_allowed: bool) -> ListRead
    decreases toks.len() - i, 31nat,
{
    if i < 0 || i > toks.len() {
        ListRead::Failed
    } else {
        let named = named_allowed && kind_at(toks, i, 0) is Identifier && kind_at(toks, i, 1) is Colon;
        let start = if named { i + 2 } else { i };
        let item = if named { Some(ident_text(kind_at(toks, i, 0))) } else { None };
        match expr_at(toks, start) {
            ExprRead::Parsed(j) => if j <= i || j >= toks.len() {
                ListRead::Failed
            } else if kind_at(toks, j, 0) is RParen {
                ListRead::Done(acc.push(item), j)
            } else if kind_at(toks, j, 0) is Comma {
                if kind_at(toks, j, 1) is RParen {
                    ListRead::Failed
                } else {
                    list_items_at(toks, j + 1, acc.push(item), named_allowed)
                }
            } else {
                ListRead::Failed
            },
            ExprRead::Failed => ListRead::Failed,
            ExprRead::Unread => ListRead::Unread,
        }
    }
}

/// A parenthesised list read from token `i`, just after its `(`: empty when `)` comes
/// first, else its items.
pub open spec fn list_at(toks: Seq<Token>, i: int, named_allowed: bool) -> ListRead
    decreases toks.len() - i, 32nat,
{
    if kind_at(toks, i, 0) is RParen {
        ListRead::Done(Seq::empty(), i)
    } else {
        list_items_at(toks, i, Seq::empty(), named_allowed)
    }
}

/// The shapes of the items of a list read from token `i` (see `list_items_at`), after
/// those in `acc`.
pub open spec fn list_item_shapes_at(toks: Seq<Token>, i: int, acc: Seq<ExprShape>, named_allowed: bool) -> Seq<ExprShape>
    decreases toks.len() - i, 31nat,
{
    if i < 0 || i > toks.len() {
        acc
    } else {
        let named = named_allowed && kind_at(toks, i, 0) is Identifier && kind_at(toks, i, 1) is Colon;
        let start = if named { i + 2 } else { i };
        match expr_at(toks, start) {
            ExprRead::Parsed(j) => if j <= i || j >= toks.len() {
                acc
            } else if kind_at(toks, j, 0) is Comma && !(kind_at(toks, j, 1) is RParen) {
                list_item_shapes_at(toks, j + 1, acc.push(expr_shape_at(toks, start)), named_allowed)
            } else {
                acc.push(expr_shape_at(toks, start))
            },
            _ => acc,
        }
    }
}

/// The shapes of the items of a parenthesised list read from token `i`, just after its `(`.
pub open spec fn list_shapes_at(toks: Seq<Token>, i: int, named_allowed: bool) -> Seq<ExprShape>
    decreases toks.len() - i, 32nat,
{
    if kind_at(toks, i, 0) is RParen { Seq::empty() } else { list_item_shapes_at(toks, i, Seq::empty(), named_allowed) }
}

/// A list that was read ends at a `)`.
pub proof fn lemma_list_done_at_rparen(toks: Seq<Token>, i: int, named_allowed: bool)
    ensures
        list_at(toks, i, named_allowed) matches ListRead::Done(_, j) ==> kind_at(toks, j, 0) is RParen,
{
    if !(kind_at(toks, i, 0) is RParen) {
        lemma_list_items_done_at_rparen(toks, i, Seq::empty(), named_allowed);
    }
}

proof fn lemma_list_items_done_at_rparen(toks: Seq<Token>, i: int, acc: Seq<Option<Seq<char>>>, named_allowed: bool)
    ensures
        list_items_at(toks, i, acc, named_allowed) matches ListRead::Done(_, j) ==> kind_at(toks, j, 0) is RParen,
    decreases toks.len() - i,
{
    if 0 <= i <= toks.len() {
        let named = named_allowed && kind_at(toks, i, 0) is Identifier && kind_at(toks, i, 1) is Colon;
        let start = if named { i + 2 } else { i };
        let item = if named { Some(ident_text(kind_at(toks, i, 0))) } else { None };
        if let ExprRead::Parsed(j) = expr_at(toks, start) {
            if i < j < toks.len() && kind_at(toks, j, 0) is Comma && !(kind_at(toks, j, 1) is RParen) {
                lemma_list_items_done_at_rparen(toks, j + 1, acc.push(item), named_allowed);
            }
        }
    }
}

/// A comment token.
pub open spec fn comment_token(k: TokenKind) -> bool {
    k is SingleLineComment || k is MultiLineComment
}

/// The first token at or after `i` that is not a comment.
pub open spec fn skip_comments_from(toks: Seq<Token>, i: int) -> int
    decreases toks.len() - i,
{
    if 0 <= i < toks.len() && comment_token(toks[i].kind) { skip_comments_from(toks, i + 1) } else { i }
}

/// What closes a struct literal after its `..base` ending at `e`: `}` or `, }`.
pub open spec fn struct_update_close(toks: Seq<Token>, e: int) -> ExprRead {
    if kind_at(toks, e, 0) is Comma {
        if kind_at(toks, e, 1) is RBrace { ExprRead::Parsed(e + 2) } else { ExprRead::Failed }
    } else if kind_at(toks, e, 0) is RBrace {
        ExprRead::Parsed(e + 1)
    } else {
        ExprRead::Failed
    }
}

/// The fields of a struct literal from token `j0` on: `name: expr` separated by `,` (a
/// trailing comma allowed), up to `}`, optionally ending with `..base`; comments may
/// come before each field.
pub open spec fn struct_literal_fields_at(toks: Seq<Token>, j0: int) -> ExprRead
    decreases toks.len() - j0, 0nat,
{
    let j = skip_comments_from(toks, j0);
    if j0 < 0 || j < j0 || j >= toks.len() {
        ExprRead::Failed
    } else if kind_at(toks, j, 0) is DotDot {
        match expr_at(toks, j + 1) {
            ExprRead::Parsed(e) => struct_update_close(toks, e),
            other => other,
        }
    } else if !(kind_at(toks, j, 0) is Identifier) || !(kind_at(toks, j, 1) is Colon) {
        ExprRead::Failed
    } else {
        match expr_at(toks, j + 2) {
            ExprRead::Parsed(e) => if e <= j0 || e >= toks.len() {
                ExprRead::Failed
            } else if kind_at(toks, e, 0) is Comma {
                let m = skip_comments_from(toks, e + 1);
                if m <= j0 || m > toks.len() {
                    ExprRead::Failed
                } else if kind_at(toks, m, 0) is RBrace {
                    ExprRead::Parsed(m + 1)
                } else {
                    struct_literal_fields_at(toks, m)
                }
            } else if kind_at(toks, e, 0) is RBrace {
                ExprRead::Parsed(e + 1)
            } else {
                ExprRead::Failed
            },
            other => other,
        }
    }
}

/// A struct literal's `{ fields }` read from the `{` at token `i`.
pub open spec fn struct_literal_body_at(toks: Seq<Token>, i: int) -> ExprRead
    decreases toks.len() - i, 0nat,
{
    if !(kind_at(toks, i, 0) is LBrace) {
        ExprRead::Failed
    } else if kind_at(toks, i, 1) is RBrace {
        ExprRead::Parsed(i + 2)
    } else {
        struct_literal_fields_at(toks, i + 1)
    }
}

/// The patterns of a match arm from token `p` on, separated by `|`; gives the index
/// after the last one.
pub open spec fn arm_patterns_at(toks: Seq<Token>, p: int) -> ExprRead
    decreases toks.len() - p,
{
    if p < 0 || p > toks.len() {
        ExprRead::Failed
    } else {
        match pattern_at(toks, p) {
            ExprRead::Parsed(q) => if q <= p || q > toks.len() {
                ExprRead::Failed
            } else if kind_at(toks, q, 0) is Pipe {
                arm_patterns_at(toks, q + 1)
            } else {
                ExprRead::Parsed(q)
            },
            other => other,
        }
    }
}

/// One match arm from token `p`: patterns, an optional `if guard`, `=>`, and a block or
/// an expression; gives the index after the body.
pub open spec fn arm_at(toks: Seq<Token>, p: int) -> ExprRead
    decreases toks.len() - p, 1nat,
{
    match arm_patterns_at(toks, p) {
        ExprRead::Parsed(q) => {
            let g = if kind_at(toks, q, 0) is If { expr_at(toks, q + 1) } else { ExprRead::Parsed(q) };
            match g {
                ExprRead::Parsed(h) => if h < p || !(kind_at(toks, h, 0) is FatArrow) {
                    ExprRead::Failed
                } else if kind_at(toks, h, 1) is LBrace {
                    braced_at(toks, h + 1)
                } else {
                    expr_at(toks, h + 1)
                },
                other => other,
            }
        },
        other => other,
    }
}

/// The arms of a match from token `a` on, separated by `,` (a trailing comma allowed),
/// with comments among them, up to and past `}`.
pub open spec fn match_arms_at(toks: Seq<Token>, a: int) -> ExprRead
    decreases toks.len() - a, 2nat,
{
    if a < 0 || a > toks.len() {
        ExprRead::Failed
    } else if kind_at(toks, a, 0) is RBrace {
        ExprRead::Parsed(a + 1)
    } else if kind_at(toks, a, 0) is Eof {
        ExprRead::Failed
    } else if skip_comments_from(toks, a) < a || skip_comments_from(toks, a) > toks.len() {
        ExprRead::Failed
    } else {
        match arm_at(toks, skip_comments_from(toks, a)) {
            ExprRead::Parsed(b) => {
                let c = skip_comments_from(toks, b);
                if b <= a || c < b || c >= toks.len() {
                    ExprRead::Failed
                } else if kind_at(toks, c, 0) is Comma {
                    let m = skip_comments_from(toks, c + 1);
                    if m <= a || m > toks.len() { ExprRead::Failed } else { match_arms_at(toks, m) }
                } else if kind_at(toks, c, 0) is RBrace {
                    ExprRead::Parsed(c + 1)
                } else {
                    ExprRead::Failed
                }
            },
            other => other,
        }
    }
}

/// `match scrutinee { arms }` read from the `match` at token `i`.
pub open spec fn match_at(toks: Seq<Token>, i: int) -> ExprRead
    decreases toks.len() - i, 3nat,
{
    match expr_at(toks, i + 1) {
        ExprRead::Parsed(j) => if j <= i || j > toks.len() || !(kind_at(toks, j, 0) is LBrace) {
            ExprRead::Failed
        } else {
            match_arms_at(toks, j + 1)
        },
        other => other,
    }
}

/// The expression after a parenthesised list read as `list`: just past its `)`.
pub open spec fn call_rest(list: ListRead) -> ExprRead {
    match list {
        ListRead::Done(_, j) => ExprRead::Parsed(j + 1),
        ListRead::Failed => ExprRead::Failed,
        ListRead::Unread => ExprRead::Unread,
    }
}

/// `Variant` or `Variant(list)` read from token `i` (just after `::`).
pub open spec fn variant_rest(toks: Seq<Token>, i: int, named_allowed: bool) -> ExprRead
    decreases toks.len() - i, 0nat,
{
    if !(kind_at(toks, i, 0) is Identifier) {
        ExprRead::Failed
    } else if kind_at(toks, i, 1) is LParen {
        call_rest(list_at(toks, i + 2, named_allowed))
    } else {
        ExprRead::Parsed(i + 1)
    }
}

/// The `{` at token `i` opens a struct literal: `{}`, `{ ..` or `{ field:`.
pub open spec fn struct_literal_ahead(toks: Seq<Token>, i: int) -> bool {
    kind_at(toks, i, 1) is RBrace || kind_at(toks, i, 1) is DotDot
        || (kind_at(toks, i, 1) is Identifier && kind_at(toks, i, 2) is Colon)
}

/// What follows a name in an expression, read from token `i` just after the name: a call
/// `(args)`, `::Variant`, `::Variant(args)`, generic arguments `<..>` before `::Variant`,
/// `::Variant(..)`, `(args)` or a struct literal, a struct literal, or nothing more (a
/// `<` that does not open generic arguments, or a `{` that does not open a struct
/// literal, is left to the caller). Generic arguments with nothing after them (a type
/// value) are left open.
pub open spec fn after_ident_at(toks: Seq<Token>, i: int) -> ExprRead
    decreases toks.len() - i, 1nat,
{
    let k = kind_at(toks, i, 0);
    if i < 0 || i > toks.len() {
        ExprRead::Failed
    } else if k is LParen {
        call_rest(list_at(toks, i + 1, true))
    } else if k is Lt {
        if !generic_args_ahead(toks, i, 1, 1) {
            ExprRead::Parsed(i)
        } else {
            match args_at(toks, i + 1, Seq::empty()) {
                ArgsRead::Done(_, j) => if j <= i || j > toks.len() {
                    ExprRead::Failed
                } else if kind_at(toks, j, 0) is ColonColon {
                    variant_rest(toks, j + 1, false)
                } else if kind_at(toks, j, 0) is LParen {
                    call_rest(list_at(toks, j + 1, true))
                } else if kind_at(toks, j, 0) is LBrace {
                    struct_literal_body_at(toks, j)
                } else {
                    ExprRead::Unread
                },
                ArgsRead::Failed => ExprRead::Failed,
                ArgsRead::Unread => ExprRead::Unread,
            }
        }
    } else if k is LBrace {
        if struct_literal_ahead(toks, i) { struct_literal_body_at(toks, i) } else { ExprRead::Parsed(i) }
    } else if k is ColonColon {
        variant_rest(toks, i + 1, true)
    } else {
        ExprRead::Parsed(i)
    }
}

/// `(args);` read from token `i`: the end of a call statement after its callee.
pub open spec fn call_tail_at(toks: Seq<Token>, i: int) -> ExprRead {
    if !(kind_at(toks, i, 0) is LParen) {
        ExprRead::Failed
    } else {
        match list_at(toks, i + 1, true) {
            ListRead::Done(_, j) => if kind_at(toks, j + 1, 0) is Semicolon { ExprRead::Parsed(j + 2) } else { ExprRead::Failed },
            ListRead::Failed => ExprRead::Failed,
            ListRead::Unread => ExprRead::Unread,
        }
    }
}

/// A call statement read from token `i`: `name(args);` or `name<T, ..>(args);`.
pub open spec fn call_stmt_at(toks: Seq<Token>, i: int) -> ExprRead {
    if !(kind_at(toks, i, 0) is Identifier) {
        ExprRead::Failed
    } else if kind_at(toks, i, 1) is Lt {
        if !generic_args_ahead(toks, i + 1, 1, 1) {
            ExprRead::Failed
        } else {
            match args_at(toks, i + 2, Seq::empty()) {
                ArgsRead::Done(_, j) => call_tail_at(toks, j),
                ArgsRead::Failed => ExprRead::Failed,
                ArgsRead::Unread => ExprRead::Unread,
            }
        }
    } else {
        call_tail_at(toks, i + 1)
    }
}

/// The name of a named call argument; `None` for a positional one.
pub open spec fn call_arg_name(a: CallArg) -> Option<Seq<char>> {
    match a {
        CallArg::Named { name, .. } => Some(name@),
        CallArg::Positional(_) => None,
    }
}

/// The names of call arguments, in order.
pub open spec fn call_arg_names(v: Seq<CallArg>) -> Seq<Option<Seq<char>>> {
    Seq::new(v.len(), |k: int| call_arg_name(v[k]))
}

/// `n` unnamed items.
pub open spec fn unnamed(n: nat) -> Seq<Option<Seq<char>>> {
    Seq::new(n, |k: int| None::<Seq<char>>)
}

impl Parser {
    fn parse_expression(&mut self) -> (r: Result<AstNode, ParseError>)
        requires
            old(self).wf(),
        ensures
            moved_on(*old(self), *final(self)),
            r is Ok ==> stmt_shape(r->Ok_0) is Other,
            r is Ok ==> old(self).pos() < final(self).pos(),
            read_matches(expr_at(old(self).toks(), old(self).pos()), r is Ok, final(self).pos()),
            expr_at(old(self).toks(), old(self).pos()) is Parsed
                ==> r is Ok && expr_shape(r->Ok_0) == expr_shape_at(old(self).toks(), old(self).pos()),
        decreases old(self).remaining(), 17nat,
    {
        proof { self.lemma_kinds_here(); }
        match self.try_parse_lambda_expression()? {
            Some(lambda) => Ok(lambda),
            None => self.parse_or_expression(),
        }
    }

    /// Parses `x => body` or `(a, b) => body` when one starts here; otherwise leaves the
    /// cursor where it was and gives `None`.
    fn try_parse_lambda_expression(&mut self) -> (r: Result<Option<AstNode>, ParseError>)
        requires
            old(self).wf(),
        ensures
            moved_on(*old(self), *final(self)),
            r matches Ok(Some(_)) ==> old(self).pos() < final(self).pos(),
            r matches Ok(None) ==> final(self).pos() == old(self).pos(),
            lambda_head_at(old(self).toks(), old(self).pos()) is None ==> r matches Ok(None),
            r matches Ok(Some(x)) ==> x is Lambda,
            lambda_head_at(old(self).toks(), old(self).pos()) matches Some(h) ==> (!(r matches Ok(None))
                && old(self).pos() < h <= old(self).toks().len()
                && (!(kind_at(old(self).toks(), h, 0) is LBrace) ==> read_matches(
                expr_at(old(self).toks(), h),
                r is Ok,
                final(self).pos(),
            ))),
        decreases old(self).remaining(), 16nat,
    {
        let ghost toks = self.toks();
        let ghost i0 = self.pos();
        proof { self.lemma_kinds_here(); }
        let saved = self.position;
        let span = self.peek().span;
        let single = match &self.peek().kind {
            TokenKind::Identifier(name) => {
                if matches!(self.peek_n(1).kind, TokenKind::FatArrow) { Some(name.clone()) } else { None }
            },
            _ => None,
        };
        match single {
            Some(name) => {
                self.advance();
                self.advance();
                proof { self.lemma_kinds_here(); }
                let body = if matches!(self.peek().kind, TokenKind::LBrace) {
                    self.advance();
                    let body = self.parse_block_items_until_rbrace()?;
                    self.expect_rbrace()?;
                    LambdaBody::Block(body)
                } else {
                    LambdaBody::Expr(self.parse_expression()?)
                };
                let mut params: Vec<LambdaParam> = Vec::new();
                params.push(LambdaParam { name, name_span: span });
                return Ok(Some(AstNode::Lambda { params, body: Box::new(body), span }));
            },
            None => {},
        }
        if !matches!(self.peek().kind, TokenKind::LParen) {
            return Ok(None);
        }
        self.advance();
        let mut params: Vec<LambdaParam> = Vec::new();
        proof { self.lemma_kinds_here(); }
        let ghost mut q = self.pos();
        if !matches!(self.peek().kind, TokenKind::RParen) {
            loop
                invariant_except_break
                    lambda_head_at(toks, i0) == lambda_params_at(toks, self.pos()),
                invariant
                    self.wf(),
                    self.toks() == old(self).toks(),
                    toks == old(self).toks(),
                    i0 == old(self).pos(),
                    old(self).pos() < self.pos(),
                    saved == old(self).position,
                    kind_at(toks, i0, 0) is LParen,
                    !(kind_at(toks, i0, 1) is RParen),
                ensures
                    kind_at(toks, q, 0) is Identifier,
                    q + 1 == self.pos(),
                    !(kind_at(toks, self.pos(), 0) is Comma),
                    lambda_head_at(toks, i0) == lambda_params_at(toks, q),
                decreases self.remaining(),
            {
                proof { self.lemma_kinds_here(); }
                if !matches!(self.peek().kind, TokenKind::Identifier(_)) {
                    self.position = saved;
                    return Ok(None);
                }
                proof { q = self.pos(); }
                let (name, name_span) = self.take_identifier()?;
                params.push(LambdaParam { name, name_span });
                proof { self.lemma_kinds_here(); }
                if matches!(self.peek().kind, TokenKind::Comma) {
                    self.advance();
                } else {
                    break;
                }
            }
        }
        proof { self.lemma_kinds_here(); }
        if !matches!(self.peek().kind, TokenKind::RParen) {
            self.position = saved;
            return Ok(None);
        }
        self.advance();
        proof { self.lemma_kinds_here(); }
        if !matches!(self.peek().kind, TokenKind::FatArrow) {
            self.position = saved;
            return Ok(None);
        }
        self.advance();
        proof { self.lemma_kinds_here(); }
        let body = if matches!(self.peek().kind, TokenKind::LBrace) {
            self.advance();
            let body = self.parse_block_items_until_rbrace()?;
            self.expect_rbrace()?;
            LambdaBody::Block(body)
        } else {
            LambdaBody::Expr(self.parse_expression()?)
        };
        Ok(Some(AstNode::Lambda { params, body: Box::new(body), span }))
    }

    fn parse_or_expression(&mut self) -> (r: Result<AstNode, ParseError>)
        requires
            old(self).wf(),
        ensures
            moved_on(*old(self), *final(self)),
            r is Ok ==> stmt_shape(r->Ok_0) is Other,
            r is Ok ==> old(self).pos() < final(self).pos(),
            read_matches(level_at(old(self).toks(), old(self).pos(), 10), r is Ok, final(self).pos()),
            level_at(old(self).toks(), old(self).pos(), 10) is Parsed
                ==> r is Ok && expr_shape(r->Ok_0) == level_shape(old(self).toks(), old(self).pos(), 10),
        decreases old(self).remaining(), 15nat,
    {
        let ghost toks = self.toks();
        let ghost i0 = self.pos();
        let ghost spec = level_at(toks, i0, 10);
        let mut left = self.parse_and_expression()?;
        proof { self.lemma_kinds_here(); }
        loop
            invariant
                self.wf(),
                self.toks() == old(self).toks(),
                old(self).pos() < self.pos(),
                toks == self.toks(),
                i0 == old(self).pos(),
                stmt_shape(left) is Other,
                spec == level_at(toks, i0, 10),
                spec is Unread || spec == level_tail(toks, self.pos(), 10),
                spec is Parsed ==> level_shape(toks, i0, 10) == tail_shape(toks, self.pos(), 10, expr_shape(left)),
            ensures
                self.wf(),
                self.toks() == old(self).toks(),
                old(self).pos() < self.pos(),
                spec is Unread || spec == ExprRead::Parsed(self.pos() as int),
                spec is Parsed ==> level_shape(toks, i0, 10) == expr_shape(left),
            decreases self.remaining(),
        {
            proof { self.lemma_kinds_here(); }
            let op = match self.peek().kind {
                TokenKind::OrOr => Some(BinaryOp::Or),
                _ => None,
            };
            match op {
                None => {
                    break;
                },
                Some(op) => {
                    let op_span = self.peek().span;
                    self.advance();
                    let right = self.parse_and_expression()?;
                    proof { self.lemma_kinds_here(); }
                    left = AstNode::BinaryOp { left: Box::new(left), op, right: Box::new(right), span: op_span };
                },
            }
        }
        Ok(left)
    }

    fn parse_and_expression(&mut self) -> (r: Result<AstNode, ParseError>)
        requires
            old(self).wf(),
        ensures
            moved_on(*old(self), *final(self)),
            r is Ok ==> stmt_shape(r->Ok_0) is Other,
            r is Ok ==> old(self).pos() < final(self).pos(),
            read_matches(level_at(old(self).toks(), old(self).pos(), 9), r is Ok, final(self).pos()),
            level_at(old(self).toks(), old(self).pos(), 9) is Parsed
                ==> r is Ok && expr_shape(r->Ok_0) == level_shape(old(self).toks(), old(self).pos(), 9),
        decreases old(self).remaining(), 14nat,
    {
        let ghost toks = self.toks();
        let ghost i0 = self.pos();
        let ghost spec = level_at(toks, i0, 9);
        let mut left = self.parse_bit_or_expression()?;
        proof { self.lemma_kinds_here(); }
        loop
            invariant
                self.wf(),
                self.toks() == old(self).toks(),
                old(self).pos() < self.pos(),
                toks == self.toks(),
                i0 == old(self).pos(),
                stmt_shape(left) is Other,
                spec == level_at(toks, i0, 9),
                spec is Unread || spec == level_tail(toks, self.pos(), 9),
                spec is Parsed ==> level_shape(toks, i0, 9) == tail_shape(toks, self.pos(), 9, expr_shape(left)),
            ensures
                self.wf(),
                self.toks() == old(self).toks(),
                old(self).pos() < self.pos(),
                spec is Unread || spec == ExprRead::Parsed(self.pos() as int),
                spec is Parsed ==> level_shape(toks, i0, 9) == expr_shape(left),
            decreases self.remaining(),
        {
            proof { self.lemma_kinds_here(); }
            let op = match self.peek().kind {
                TokenKind::AndAnd => Some(BinaryOp::And),
                _ => None,
            };
            match op {
                None => {
                    break;
                },
                Some(op) => {
                    let op_span = self.peek().span;
                    self.advance();
                    let right = self.parse_bit_or_expression()?;
                    proof { self.lemma_kinds_here(); }
                    left = AstNode::BinaryOp { left: Box::new(left), op, right: Box::new(right), span: op_span };
                },
            }
        }
        Ok(left)
    }

    fn parse_bit_or_expression(&mut self) -> (r: Result<AstNode, ParseError>)
        requires
            old(self).wf(),
        ensures
            moved_on(*old(self), *final(self)),
            r is Ok ==> stmt_shape(r->Ok_0) is Other,
            r is Ok ==> old(self).pos() < final(self).pos(),
            read_matches(level_at(old(self).toks(), old(self).pos(), 8), r is Ok, final(self).pos()),
            level_at(old(self).toks(), old(self).pos(), 8) is Parsed
                ==> r is Ok && expr_shape(r->Ok_0) == level_shape(old(self).toks(), old(self).pos(), 8),
        decreases old(self).remaining(), 13nat,
    {
        let ghost toks = self.toks();
        let ghost i0 = self.pos();
        let ghost spec = level_at(toks, i0, 8);
        let mut left = self.parse_bit_xor_expression()?;
        proof { self.lemma_kinds_here(); }
        loop
            invariant
                self.wf(),
                self.toks() == old(self).toks(),
                old(self).pos() < self.pos(),
                toks == self.toks(),
                i0 == old(self).pos(),
                stmt_shape(left) is Other,
                spec == level_at(toks, i0, 8),
                spec is Unread || spec == level_tail(toks, self.pos(), 8),
                spec is Parsed ==> level_shape(toks, i0, 8) == tail_shape(toks, self.pos(), 8, expr_shape(left)),
            ensures
                self.wf(),
                self.toks() == old(self).toks(),
                old(self).pos() < self.pos(),
                spec is Unread || spec == ExprRead::Parsed(self.pos() as int),
                spec is Parsed ==> level_shape(toks, i0, 8) == expr_shape(left),
            decreases self.remaining(),
        {
            proof { self.lemma_kinds_here(); }
            let op = match self.peek().kind {
                TokenKind::Pipe => Some(BinaryOp::BitOr),
                _ => None,
            };
            match op {
                None => {
                    break;
                },
                Some(op) => {
                    let op_span = self.peek().span;
                    self.advance();
                    let right = self.parse_bit_xor_expression()?;
                    proof { self.lemma_kinds_here(); }
                    left = AstNode::BinaryOp { left: Box::new(left), op, right: Box::new(right), span: op_span };
                },
            }
        }
        Ok(left)
    }

    fn parse_bit_xor_expression(&mut self) -> (r: Result<AstNode, ParseError>)
        requires
            old(self).wf(),
        ensures
            moved_on(*old(self), *final(self)),
            r is Ok ==> stmt_shape(r->Ok_0) is Other,
            r is Ok ==> old(self).pos() < final(self).pos(),
            read_matches(level_at(old(self).toks(), old(self).pos(), 7), r is Ok, final(self).pos()),
            level_at(old(self).toks(), old(self).pos(), 7) is Parsed
                ==> r is Ok && expr_shape(r->Ok_0) == level_shape(old(self).toks(), old(self).pos(), 7),
        decreases old(self).remaining(), 12nat,
    {
        let ghost toks = self.toks();
        let ghost i0 = self.pos();
        let ghost spec = level_at(toks, i0, 7);
        let mut left = self.parse_bit_and_expression()?;
        proof { self.lemma_kinds_here(); }
        loop
            invariant
                self.wf(),
                self.toks() == old(self).toks(),
                old(self).pos() < self.pos(),
                toks == self.toks(),
                i0 == old(self).pos(),
                stmt_shape(left) is Other,
                spec == level_at(toks, i0, 7),
                spec is Unread || spec == level_tail(toks, self.pos(), 7),
                spec is Parsed ==> level_shape(toks, i0, 7) == tail_shape(toks, self.pos(), 7, expr_shape(left)),
            ensures
                self.wf(),
                self.toks() == old(self).toks(),
                old(self).pos() < self.pos(),
                spec is Unread || spec == ExprRead::Parsed(self.pos() as int),
                spec is Parsed ==> level_shape(toks, i0, 7) == expr_shape(left),
            decreases self.remaining(),
        {
            proof { self.lemma_kinds_here(); }
            let op = match self.peek().kind {
                TokenKind::Caret => Some(BinaryOp::BitXor),
                _ => None,
            };
            match op {
                None => {
                    break;
                },
                Some(op) => {
                    let op_span = self.peek().span;
                    self.advance();
                    let right = self.parse_bit_and_expression()?;
                    proof { self.lemma_kinds_here(); }
                    left = AstNode::BinaryOp { left: Box::new(left), op, right: Box::new(right), span: op_span };
                },
            }
        }
        Ok(left)
    }

    fn parse_bit_and_expression(&mut self) -> (r: Result<AstNode, ParseError>)
        requires
            old(self).wf(),
        ensures
            moved_on(*old(self), *final(self)),
            r is Ok ==> stmt_shape(r->Ok_0) is Other,
            r is Ok ==> old(self).pos() < final(self).pos(),
            read_matches(level_at(old(self).toks(), old(self).pos(), 6), r is Ok, final(self).pos()),
            level_at(old(self).toks(), old(self).pos(), 6) is Parsed
                ==> r is Ok && expr_shape(r->Ok_0) == level_shape(old(self).toks(), old(self).pos(), 6),
        decreases old(self).remaining(), 11nat,
    {
        let ghost toks = self.toks();
        let ghost i0 = self.pos();
        let ghost spec = level_at(toks, i0, 6);
        let mut left = self.parse_equality_expression()?;
        proof { self.lemma_kinds_here(); }
        loop
            invariant
                self.wf(),
                self.toks() == old(self).toks(),
                old(self).pos() < self.pos(),
                toks == self.toks(),
                i0 == old(self).pos(),
                stmt_shape(left) is Other,
                spec == level_at(toks, i0, 6),
                spec is Unread || spec == level_tail(toks, self.pos(), 6),
                spec is Parsed ==> level_shape(toks, i0, 6) == tail_shape(toks, self.pos(), 6, expr_shape(left)),
            ensures
                self.wf(),
                self.toks() == old(self).toks(),
                old(self).pos() < self.pos(),
                spec is Unread || spec == ExprRead::Parsed(self.pos() as int),
                spec is Parsed ==> level_shape(toks, i0, 6) == expr_shape(left),
            decreases self.remaining(),
        {
            proof { self.lemma_kinds_here(); }
            let op = match self.peek().kind {
                TokenKind::Amp => Some(BinaryOp::BitAnd),
                _ => None,
            };
            match op {
                None => {
                    break;
                },
                Some(op) => {
                    let op_span = self.peek().span;
                    self.advance();
                    let right = self.parse_equality_expression()?;
                    proof { self.lemma_kinds_here(); }
                    left = AstNode::BinaryOp { left: Box::new(left), op, right: Box::new(right), span: op_span };
                },
            }
        }
        Ok(left)
    }

    fn parse_equality_expression(&mut self) -> (r: Result<AstNode, ParseError>)
        requires
            old(self).wf(),
        ensures
            moved_on(*old(self), *final(self)),
            r is Ok ==> stmt_shape(r->Ok_0) is Other,
            r is Ok ==> old(self).pos() < final(self).pos(),
            read_matches(level_at(old(self).toks(), old(self).pos(), 5), r is Ok, final(self).pos()),
            level_at(old(self).toks(), old(self).pos(), 5) is Parsed
                ==> r is Ok && expr_shape(r->Ok_0) == level_shape(old(self).toks(), old(self).pos(), 5),
        decreases old(self).remaining(), 10nat,
    {
        let ghost toks = self.toks();
        let ghost i0 = self.pos();
        let ghost spec = level_at(toks, i0, 5);
        let mut left = self.parse_comparison_expression()?;
        proof { self.lemma_kinds_here(); }
        loop
            invariant
                self.wf(),
                self.toks() == old(self).toks(),
                old(self).pos() < self.pos(),
                toks == self.toks(),
                i0 == old(self).pos(),
                stmt_shape(left) is Other,
                spec == level_at(toks, i0, 5),
                spec is Unread || spec == level_tail(toks, self.pos(), 5),
                spec is Parsed ==> level_shape(toks, i0, 5) == tail_shape(toks, self.pos(), 5, expr_shape(left)),
            ensures
                self.wf(),
                self.toks() == old(self).toks(),
                old(self).pos() < self.pos(),
                spec is Unread || spec == ExprRead::Parsed(self.pos() as int),
                spec is Parsed ==> level_shape(toks, i0, 5) == expr_shape(left),
            decreases self.remaining(),
        {
            proof { self.lemma_kinds_here(); }
            let op = match self.peek().kind {
                TokenKind::EqEq => Some(BinaryOp::Eq),
                TokenKind::Ne => Some(BinaryOp::Ne),
                _ => None,
            };
            match op {
                None => {
                    break;
                },
                Some(op) => {
                    let op_span = self.peek().span;
                    self.advance();
                    let right = self.parse_comparison_expression()?;
                    proof { self.lemma_kinds_here(); }
                    left = AstNode::BinaryOp { left: Box::new(left), op, right: Box::new(right), span: op_span };
                },
            }
        }
        Ok(left)
    }

    fn parse_comparison_expression(&mut self) -> (r: Result<AstNode, ParseError>)
        requires
            old(self).wf(),
        ensures
            moved_on(*old(self), *final(self)),
            r is Ok ==> stmt_shape(r->Ok_0) is Other,
            r is Ok ==> old(self).pos() < final(self).pos(),
            read_matches(level_at(old(self).toks(), old(self).pos(), 4), r is Ok, final(self).pos()),
            level_at(old(self).toks(), old(self).pos(), 4) is Parsed
                ==> r is Ok && expr_shape(r->Ok_0) == level_shape(old(self).toks(), old(self).pos(), 4),
        decreases old(self).remaining(), 9nat,
    {
        let ghost toks = self.toks();
        let ghost i0 = self.pos();
        let ghost spec = level_at(toks, i0, 4);
        let mut left = self.parse_shift_expression()?;
        proof { self.lemma_kinds_here(); }
        loop
            invariant
                self.wf(),
                self.toks() == old(self).toks(),
                old(self).pos() < self.pos(),
                toks == self.toks(),
                i0 == old(self).pos(),
                stmt_shape(left) is Other,
                spec == level_at(toks, i0, 4),
                spec is Unread || spec == level_tail(toks, self.pos(), 4),
                spec is Parsed ==> level_shape(toks, i0, 4) == tail_shape(toks, self.pos(), 4, expr_shape(left)),
            ensures
                self.wf(),
                self.toks() == old(self).toks(),
                old(self).pos() < self.pos(),
                spec is Unread || spec == ExprRead::Parsed(self.pos() as int),
                spec is Parsed ==> level_shape(toks, i0, 4) == expr_shape(left),
            decreases self.remaining(),
        {
            proof { self.lemma_kinds_here(); }
            let op = match self.peek().kind {
                TokenKind::Lt => Some(BinaryOp::Lt),
                TokenKind::Gt => Some(BinaryOp::Gt),
                TokenKind::Le => Some(BinaryOp::Le),
                TokenKind::Ge => Some(BinaryOp::Ge),
                _ => None,
            };
            match op {
                None => {
                    break;
                },
                Some(op) => {
                    let op_span = self.peek().span;
                    self.advance();
                    let right = self.parse_shift_expression()?;
                    proof { self.lemma_kinds_here(); }
                    left = AstNode::BinaryOp { left: Box::new(left), op, right: Box::new(right), span: op_span };
                },
            }
        }
        Ok(left)
    }

    fn parse_shift_expression(&mut self) -> (r: Result<AstNode, ParseError>)
        requires
            old(self).wf(),
        ensures
            moved_on(*old(self), *final(self)),
            r is Ok ==> stmt_shape(r->Ok_0) is Other,
            r is Ok ==> old(self).pos() < final(self).pos(),
            read_matches(level_at(old(self).toks(), old(self).pos(), 3), r is Ok, final(self).pos()),
            level_at(old(self).toks(), old(self).pos(), 3) is Parsed
                ==> r is Ok && expr_shape(r->Ok_0) == level_shape(old(self).toks(), old(self).pos(), 3),
        decreases old(self).remaining(), 8nat,
    {
        let ghost toks = self.toks();
        let ghost i0 = self.pos();
        let ghost spec = level_at(toks, i0, 3);
        let mut left = self.parse_additive_expression()?;
        proof { self.lemma_kinds_here(); }
        loop
            invariant
                self.wf(),
                self.toks() == old(self).toks(),
                old(self).pos() < self.pos(),
                toks == self.toks(),
                i0 == old(self).pos(),
                stmt_shape(left) is Other,
                spec == level_at(toks, i0, 3),
                spec is Unread || spec == level_tail(toks, self.pos(), 3),
                spec is Parsed ==> level_shape(toks, i0, 3) == tail_shape(toks, self.pos(), 3, expr_shape(left)),
            ensures
                self.wf(),
                self.toks() == old(self).toks(),
                old(self).pos() < self.pos(),
                spec is Unread || spec == ExprRead::Parsed(self.pos() as int),
                spec is Parsed ==> level_shape(toks, i0, 3) == expr_shape(left),
            decreases self.remaining(),
        {
            proof { self.lemma_kinds_here(); }
            let op = match self.peek().kind {
                TokenKind::ShiftLeft => Some(BinaryOp::ShiftLeft),
                TokenKind::ShiftRight => Some(BinaryOp::ShiftRight),
                _ => None,
            };
            match op {
                None => {
                    break;
                },
                Some(op) => {
                    let op_span = self.peek().span;
                    self.advance();
                    let right = self.parse_additive_expression()?;
                    proof { self.lemma_kinds_here(); }
                    left = AstNode::BinaryOp { left: Box::new(left), op, right: Box::new(right), span: op_span };
                },
            }
        }
        Ok(left)
    }

    fn parse_additive_expression(&mut self) -> (r: Result<AstNode, ParseError>)
        requires
            old(self).wf(),
        ensures
            moved_on(*old(self), *final(self)),
            r is Ok ==> stmt_shape(r->Ok_0) is Other,
            r is Ok ==> old(self).pos() < final(self).pos(),
            read_matches(level_at(old(self).toks(), old(self).pos(), 2), r is Ok, final(self).pos()),
            level_at(old(self).toks(), old(self).pos(), 2) is Parsed
                ==> r is Ok && expr_shape(r->Ok_0) == level_shape(old(self).toks(), old(self).pos(), 2),
        decreases old(self).remaining(), 7nat,
    {
        let ghost toks = self.toks();
        let ghost i0 = self.pos();
        let ghost spec = level_at(toks, i0, 2);
        let mut left = self.parse_multiplicative_expression()?;
        proof { self.lemma_kinds_here(); }
        loop
            invariant
                self.wf(),
                self.toks() == old(self).toks(),
                old(self).pos() < self.pos(),
                toks == self.toks(),
                i0 == old(self).pos(),
                stmt_shape(left) is Other,
                spec == level_at(toks, i0, 2),
                spec is Unread || spec == level_tail(toks, self.pos(), 2),
                spec is Parsed ==> level_shape(toks, i0, 2) == tail_shape(toks, self.pos(), 2, expr_shape(left)),
            ensures
                self.wf(),
                self.toks() == old(self).toks(),
                old(self).pos() < self.pos(),
                spec is Unread || spec == ExprRead::Parsed(self.pos() as int),
                spec is Parsed ==> level_shape(toks, i0, 2) == expr_shape(left),
            decreases self.remaining(),
        {
            proof { self.lemma_kinds_here(); }
            let op = match self.peek().kind {
                TokenKind::Plus => Some(BinaryOp::Add),
                TokenKind::Minus => Some(BinaryOp::Sub),
                _ => None,
            };
            match op {
                None => {
                    break;
                },
                Some(op) => {
                    let op_span = self.peek().span;
                    self.advance();
                    let right = self.parse_multiplicative_expression()?;
                    proof { self.lemma_kinds_here(); }
                    left = AstNode::BinaryOp { left: Box::new(left), op, right: Box::new(right), span: op_span };
                },
            }
        }
        Ok(left)
    }

    fn parse_multiplicative_expression(&mut self) -> (r: Result<AstNode, ParseError>)
        requires
            old(self).wf(),
        ensures
            moved_on(*old(self), *final(self)),
            r is Ok ==> stmt_shape(r->Ok_0) is Other,
            r is Ok ==> old(self).pos() < final(self).pos(),
            read_matches(level_at(old(self).toks(), old(self).pos(), 1), r is Ok, final(self).pos()),
            level_at(old(self).toks(), old(self).pos(), 1) is Parsed
                ==> r is Ok && expr_shape(r->Ok_0) == level_shape(old(self).toks(), old(self).pos(), 1),
        decreases old(self).remaining(), 6nat,
    {
        let ghost toks = self.toks();
        let ghost i0 = self.pos();
        let ghost spec = level_at(toks, i0, 1);
        let mut left = self.parse_unary_expression()?;
        proof { self.lemma_kinds_here(); }
        loop
            invariant
                self.wf(),
                self.toks() == old(self).toks(),
                old(self).pos() < self.pos(),
                toks == self.toks(),
                i0 == old(self).pos(),
                stmt_shape(left) is Other,
                spec == level_at(toks, i0, 1),
                spec is Unread || spec == level_tail(toks, self.pos(), 1),
                spec is Parsed ==> level_shape(toks, i0, 1) == tail_shape(toks, self.pos(), 1, expr_shape(left)),
            ensures
                self.wf(),
                self.toks() == old(self).toks(),
                old(self).pos() < self.pos(),
                spec is Unread || spec == ExprRead::Parsed(self.pos() as int),
                spec is Parsed ==> level_shape(toks, i0, 1) == expr_shape(left),
            decreases self.remaining(),
        {
            proof { self.lemma_kinds_here(); }
            let op = match self.peek().kind {
                TokenKind::Star => Some(BinaryOp::Mul),
                TokenKind::Slash => Some(BinaryOp::Div),
                TokenKind::Percent => Some(BinaryOp::Mod),
                _ => None,
            };
            match op {
                None => {
                    break;
                },
                Some(op) => {
                    let op_span = self.peek().span;
                    self.advance();
                    let right = self.parse_unary_expression()?;
                    proof { self.lemma_kinds_here(); }
                    left = AstNode::BinaryOp { left: Box::new(left), op, right: Box::new(right), span: op_span };
                },
            }
        }
        Ok(left)
    }

    fn parse_unary_expression(&mut self) -> (r: Result<AstNode, ParseError>)
        requires
            old(self).wf(),
        ensures
            moved_on(*old(self), *final(self)),
            r is Ok ==> stmt_shape(r->Ok_0) is Other,
            r is Ok ==> old(self).pos() < final(self).pos(),
            read_matches(level_at(old(self).toks(), old(self).pos(), 0), r is Ok, final(self).pos()),
            level_at(old(self).toks(), old(self).pos(), 0) is Parsed
                ==> r is Ok && expr_shape(r->Ok_0) == level_shape(old(self).toks(), old(self).pos(), 0),
        decreases old(self).remaining(), 5nat,
    {
        proof { self.lemma_kinds_here(); }
        let op = match self.peek().kind {
            TokenKind::Plus => Some(UnaryOp::Plus),
            TokenKind::Minus => Some(UnaryOp::Minus),
            TokenKind::Tilde => Some(UnaryOp::BitNot),
            TokenKind::Bang => Some(UnaryOp::Not),
            _ => None,
        };
        match op {
            Some(op) => {
                let span = self.peek().span;
                self.advance();
                let operand = self.parse_unary_expression()?;
                Ok(AstNode::UnaryOp { op, operand: Box::new(operand), span })
            },
            None => {
                if matches!(self.peek().kind, TokenKind::Await) {
                    let span = self.peek().span;
                    self.advance();
                    let operand = self.parse_unary_expression()?;
                    Ok(AstNode::Await { expr: Box::new(operand), span })
                } else {
                    let e = self.parse_primary_expression()?;
                    proof { self.lemma_kinds_here(); }
                    self.parse_tuple_field_suffix(e)
                }
            },
        }
    }

    /// Applies the `.field`, `.0`, `[index]` and `(args)` suffixes that follow `e`.
    fn parse_tuple_field_suffix(&mut self, e: AstNode) -> (r: Result<AstNode, ParseError>)
        requires
            old(self).wf(),
        ensures
            moved_on(*old(self), *final(self)),
            stmt_shape(e) is Other && r is Ok ==> stmt_shape(r->Ok_0) is Other,
            !suffix_token(old(self).current().kind) ==> r == Ok::<AstNode, ParseError>(e)
                && final(self).pos() == old(self).pos(),
            read_matches(suffixes_at(old(self).toks(), old(self).pos()), r is Ok, final(self).pos()),
            suffixes_at(old(self).toks(), old(self).pos()) is Parsed && r is Ok
                ==> expr_shape(r->Ok_0) == suffix_shape(old(self).toks(), old(self).pos(), expr_shape(e)),
        decreases old(self).remaining(), 1nat,
    {
        let ghost e0 = e;
        let ghost toks = self.toks();
        let ghost sp = suffixes_at(toks, self.pos());
        proof { self.lemma_kinds_here(); }
        let mut e = e;
        while matches!(self.peek().kind, TokenKind::Dot | TokenKind::LBracket | TokenKind::LParen)
            invariant
                self.wf(),
                self.toks() == old(self).toks(),
                toks == old(self).toks(),
                old(self).pos() <= self.pos(),
                kind_at(old(self).toks(), old(self).pos(), 0) == old(self).current().kind,
                !suffix_token(old(self).current().kind) ==> self.pos() == old(self).pos() && e == e0,
                sp == suffixes_at(toks, old(self).pos()),
                sp is Unread || sp == suffixes_at(toks, self.pos()),
                sp is Parsed ==> suffix_shape(toks, old(self).pos(), expr_shape(e0)) == suffix_shape(toks, self.pos(), expr_shape(e)),
                stmt_shape(e0) is Other ==> stmt_shape(e) is Other,
            decreases self.remaining(),
        {
            proof { self.lemma_kinds_here(); }
            if matches!(self.peek().kind, TokenKind::Dot) {
                self.advance();
                proof { self.lemma_kinds_here(); }
                let span = self.peek().span;
                let member = match &self.peek().kind {
                    TokenKind::IntegerLiteral { original, radix, .. } => Some((true, original.clone(), *radix)),
                    TokenKind::Identifier(field_name) => Some((false, field_name.clone(), 0)),
                    _ => None,
                };
                match member {
                    Some((true, original, radix)) => {
                        self.advance();
                        let index = match tuple_index(&original, radix) {
                            Some(i) => i,
                            None => {
                                return Err(ParseError::UnexpectedToken {
                                    message: lit("tuple index after `.` must fit in u32"),
                                    span: Some(span),
                                });
                            },
                        };
                        e = AstNode::TupleField { base: Box::new(e), index, span };
                    },
                    Some((false, field, _)) => {
                        self.advance();
                        e = AstNode::FieldAccess { base: Box::new(e), field, span };
                    },
                    None => {
                        return Err(self.unexpected("expected tuple index after `.`"));
                    },
                }
            } else if matches!(self.peek().kind, TokenKind::LBracket) {
                let open_span = self.peek().span;
                self.advance();
                let idx = self.parse_expression()?;
                proof { self.lemma_kinds_here(); }
                self.expect_rbracket()?;
                e = AstNode::ArrayIndex { base: Box::new(e), index: Box::new(idx), span: open_span };
            } else {
                let call_span = self.peek().span;
                self.advance();
                let arguments = self.parse_call_argument_list()?;
                proof { self.lemma_kinds_here(); }
                self.expect_rparen()?;
                e = match e {
                    AstNode::Identifier { name, .. } =>
                        AstNode::Call { callee: name, type_args: Vec::new(), arguments, span: call_span },
                    AstNode::FieldAccess { base, field, .. } =>
                        AstNode::MethodCall { receiver: base, method: field, arguments, span: call_span },
                    other => AstNode::Invoke { callee: Box::new(other), arguments, span: call_span },
                };
            }
        }
        Ok(e)
    }

    /// Skips comment tokens.
    fn skip_comments(&mut self)
        requires
            old(self).wf(),
        ensures
            moved_on(*old(self), *final(self)),
            !(final(self).current().kind is SingleLineComment || final(self).current().kind is MultiLineComment),
            final(self).pos() == skip_comments_from(old(self).toks(), old(self).pos()),
    {
        while matches!(self.peek().kind, TokenKind::SingleLineComment(_) | TokenKind::MultiLineComment(_))
            invariant
                self.wf(),
                self.toks() == old(self).toks(),
                old(self).pos() <= self.pos(),
                skip_comments_from(self.toks(), self.pos()) == skip_comments_from(old(self).toks(), old(self).pos()),
            decreases self.remaining(),
        {
            self.advance();
        }
    }

    /// Parses generic type arguments after `<`: types separated by `,` up to `>`.
    fn parse_generic_args(&mut self) -> (r: Result<Vec<TypeExpr>, ParseError>)
        requires
            old(self).wf(),
        ensures
            moved_on(*old(self), *final(self)),
            r is Ok ==> old(self).pos() < final(self).pos(),
            match args_at(old(self).toks(), old(self).pos(), Seq::empty()) {
                ArgsRead::Done(a, j) => r matches Ok(v) && shapes_of(v@) == a && final(self).pos() == j,
                ArgsRead::Failed => r is Err,
                ArgsRead::Unread => true,
            },
        decreases old(self).remaining(), 2nat,
    {
        let ghost toks = self.toks();
        let ghost i0 = self.pos();
        let ghost spec_args = args_at(toks, i0, Seq::empty());
        let mut type_args: Vec<TypeExpr> = Vec::new();
        proof { self.lemma_kinds_here(); }
        type_args.push(self.parse_type_expr()?);
        proof {
            lemma_shapes_of_index(type_args@);
            assert(shapes_of(type_args@) =~= seq![shape_of(type_args@[0])]);
            assert(Seq::<TypeShape>::empty().push(shape_of(type_args@[0])) =~= seq![shape_of(type_args@[0])]);
        }
        let ghost mut last = i0;
        loop
            invariant_except_break
                spec_args is Unread
                    || spec_args == args_tail(toks, last, self.pos(), shapes_of(type_args@)),
            invariant
                self.wf(),
                self.toks() == toks,
                toks == old(self).toks(),
                i0 == old(self).pos(),
                i0 <= last < self.pos(),
                spec_args == args_at(toks, i0, Seq::empty()),
            ensures
                spec_args is Unread || spec_args == ArgsRead::Done(shapes_of(type_args@), self.pos()),
            decreases self.remaining(),
        {
            proof { self.lemma_kinds_here(); }
            if matches!(self.peek().kind, TokenKind::Comma) {
                self.advance();
                let ghost q = self.pos();
                let ghost before = type_args@;
                proof { self.lemma_kinds_here(); }
                type_args.push(self.parse_type_expr()?);
                proof {
                    assert(type_args@.drop_last() == before);
                    last = q;
                }
            } else if matches!(self.peek().kind, TokenKind::Gt) {
                self.advance();
                break;
            } else {
                return Err(self.unexpected("expected `,` or `>` in generic type arguments"));
            }
        }
        Ok(type_args)
    }

    #[verifier::rlimit(60)]
    fn parse_primary_expression(&mut self) -> (r: Result<AstNode, ParseError>)
        requires
            old(self).wf(),
        ensures
            moved_on(*old(self), *final(self)),
            r is Ok ==> stmt_shape(r->Ok_0) is Other,
            r is Ok ==> old(self).pos() < final(self).pos(),
            read_matches(primary_at(old(self).toks(), old(self).pos()), r is Ok, final(self).pos()),
            primary_at(old(self).toks(), old(self).pos()) is Parsed
                ==> r is Ok && expr_shape(r->Ok_0) == prim_shape(old(self).toks(), old(self).pos()),
        decreases old(self).remaining(), 4nat,
    {
        proof { self.lemma_kinds_here(); }
        let ghost pspec = primary_at(old(self).toks(), old(self).pos());
        let span = self.peek().span;
        if matches!(self.peek().kind, TokenKind::Match) {
            return self.parse_match_expression();
        }
        if matches!(self.peek().kind, TokenKind::LBrace) {
            self.advance();
            let mut entries: Vec<(AstNode, AstNode)> = Vec::new();
            self.skip_comments();
            proof { self.lemma_kinds_here(); }
            if matches!(self.peek().kind, TokenKind::RBrace) {
                self.advance();
                return Ok(AstNode::DictLiteral { entries, span });
            }
            loop
                invariant_except_break
                    pspec is Unread || pspec == dict_items_at(old(self).toks(), self.pos()),
                invariant
                    self.wf(),
                    self.toks() == old(self).toks(),
                    old(self).pos() < self.pos(),
                    pspec == primary_at(old(self).toks(), old(self).pos()),
                ensures
                    pspec is Unread || pspec == ExprRead::Parsed(self.pos()),
                decreases self.remaining(),
            {
                self.skip_comments();
                let key = self.parse_expression()?;
                proof { self.lemma_kinds_here(); }
                self.expect_colon()?;
                let value = self.parse_expression()?;
                entries.push((key, value));
                self.skip_comments();
                proof { self.lemma_kinds_here(); }
                if matches!(self.peek().kind, TokenKind::Comma) {
                    self.advance();
                    self.skip_comments();
                    proof { self.lemma_kinds_here(); }
                    if matches!(self.peek().kind, TokenKind::RBrace) {
                        self.advance();
                        break;
                    }
                } else if matches!(self.peek().kind, TokenKind::RBrace) {
                    self.advance();
                    break;
                } else {
                    return Err(self.unexpected("expected `,` or `}` in dict literal"));
                }
            }
            return Ok(AstNode::DictLiteral { entries, span });
        }
        let lit_node = match &self.peek().kind {
            TokenKind::StringLiteral { value, original } =>
                Some(AstNode::StringLiteral { value: value.clone(), original: original.clone(), span }),
            TokenKind::IntegerLiteral { value, original, radix } =>
                Some(AstNode::IntegerLiteral { value: *value, original: original.clone(), radix: *radix, span }),
            TokenKind::FloatLiteral { original, cleaned } =>
                Some(AstNode::FloatLiteral { original: original.clone(), cleaned: cleaned.clone(), span }),
            TokenKind::True => Some(AstNode::BoolLiteral { value: true, span }),
            TokenKind::False => Some(AstNode::BoolLiteral { value: false, span }),
            _ => None,
        };
        match lit_node {
            Some(node) => {
                self.advance();
                return Ok(node);
            },
            None => {},
        }
        let ident = match &self.peek().kind {
            TokenKind::Identifier(name) => Some(name.clone()),
            _ => None,
        };
        match ident {
            Some(name) => {
                self.advance();
                return self.parse_after_identifier(name, span);
            },
            None => {},
        }
        if matches!(self.peek().kind, TokenKind::LParen) {
            let open = span;
            self.advance();
            if matches!(self.peek().kind, TokenKind::RParen) {
                self.advance();
                return Ok(AstNode::UnitLiteral { span: open });
            }
            let first = self.parse_expression()?;
            if matches!(self.peek().kind, TokenKind::RParen) {
                self.advance();
                return Ok(first);
            }
            if matches!(self.peek().kind, TokenKind::Comma) {
                self.advance();
                return self.parse_tuple_rest(open, first);
            }
            return Err(self.unexpected("expected `,` or `)` after expression"));
        }
        if matches!(self.peek().kind, TokenKind::LBracket) {
            let open = span;
            self.advance();
            return self.parse_array_rest(open);
        }
        Err(self.unexpected("expected expression"))
    }

    /// The elements of a tuple literal after its first one, `first`, and `,`, up to and
    /// past `)`.
    #[verifier::rlimit(100)]
    fn parse_tuple_rest(&mut self, open: Span, first: AstNode) -> (r: Result<AstNode, ParseError>)
        requires
            old(self).wf(),
        ensures
            moved_on(*old(self), *final(self)),
            r is Ok ==> stmt_shape(r->Ok_0) is Other,
            r is Ok ==> old(self).pos() < final(self).pos(),
            read_matches(tuple_items_at(old(self).toks(), old(self).pos()), r is Ok, final(self).pos()),
            tuple_items_at(old(self).toks(), old(self).pos()) is Parsed ==> r is Ok && expr_shape(r->Ok_0)
                == ExprShape::Tuple(item_shapes_at(old(self).toks(), old(self).pos(), seq![expr_shape(first)], true), open),
        decreases old(self).remaining(), 18nat,
    {
        let ghost pspec = tuple_items_at(old(self).toks(), old(self).pos());
        let mut elements: Vec<AstNode> = Vec::new();
        elements.push(first);
        proof {
            assert(elements@.drop_last() =~= Seq::<AstNode>::empty());
            assert(node_shapes(elements@.drop_last()) == Seq::<ExprShape>::empty());
            assert(elements@.last() == first);
            assert(node_shapes(elements@) == node_shapes(elements@.drop_last()).push(expr_shape(first)));
            assert(node_shapes(elements@) =~= seq![expr_shape(first)]);
        }
        let ghost target = item_shapes_at(old(self).toks(), old(self).pos(), seq![expr_shape(first)], true);
        loop
            invariant_except_break
                pspec is Unread || pspec == tuple_items_at(old(self).toks(), self.pos()),
                pspec is Unread || target == item_shapes_at(old(self).toks(), self.pos(), node_shapes(elements@), true),
            invariant
                self.wf(),
                self.toks() == old(self).toks(),
                old(self).pos() <= self.pos(),
                pspec == tuple_items_at(old(self).toks(), old(self).pos()),
                target == item_shapes_at(old(self).toks(), old(self).pos(), seq![expr_shape(first)], true),
            ensures
                old(self).pos() < self.pos(),
                pspec is Unread || pspec == ExprRead::Parsed(self.pos()),
                pspec is Unread || target == node_shapes(elements@),
            decreases self.remaining(),
        {
            proof { self.lemma_kinds_here(); }
            if matches!(self.peek().kind, TokenKind::RParen) {
                self.advance();
                break;
            }
            let ghost before = elements@;
            elements.push(self.parse_expression()?);
            proof {
                assert(elements@.drop_last() =~= before);
                self.lemma_kinds_here();
            }
            if matches!(self.peek().kind, TokenKind::RParen) {
                self.advance();
                break;
            } else if matches!(self.peek().kind, TokenKind::Comma) {
                self.advance();
                proof { self.lemma_kinds_here(); }
                if matches!(self.peek().kind, TokenKind::RParen) {
                    self.advance();
                    break;
                }
            } else {
                return Err(self.unexpected("expected `,` or `)` in tuple"));
            }
        }
        Ok(AstNode::TupleLiteral { elements, span: open })
    }

    /// The elements of an array literal after its `[`, up to and past `]`.
    #[verifier::rlimit(100)]
    fn parse_array_rest(&mut self, open: Span) -> (r: Result<AstNode, ParseError>)
        requires
            old(self).wf(),
        ensures
            moved_on(*old(self), *final(self)),
            r is Ok ==> stmt_shape(r->Ok_0) is Other,
            r is Ok ==> old(self).pos() < final(self).pos(),
            read_matches(array_items_at(old(self).toks(), old(self).pos()), r is Ok, final(self).pos()),
            array_items_at(old(self).toks(), old(self).pos()) is Parsed ==> r is Ok && expr_shape(r->Ok_0)
                == ExprShape::Array(item_shapes_at(old(self).toks(), old(self).pos(), Seq::empty(), false), open),
        decreases old(self).remaining(), 18nat,
    {
        let ghost pspec = array_items_at(old(self).toks(), old(self).pos());
        let mut elements: Vec<AstNode> = Vec::new();
        proof {
            self.lemma_kinds_here();
            assert(node_shapes(elements@) =~= Seq::<ExprShape>::empty());
        }
        let ghost target = item_shapes_at(old(self).toks(), old(self).pos(), Seq::empty(), false);
        loop
            invariant_except_break
                pspec is Unread || pspec == array_items_at(old(self).toks(), self.pos()),
                pspec is Unread || target == item_shapes_at(old(self).toks(), self.pos(), node_shapes(elements@), false),
            invariant
                self.wf(),
                self.toks() == old(self).toks(),
                old(self).pos() <= self.pos(),
                pspec == array_items_at(old(self).toks(), old(self).pos()),
                target == item_shapes_at(old(self).toks(), old(self).pos(), Seq::empty(), false),
            ensures
                old(self).pos() < self.pos(),
                pspec is Unread || pspec == ExprRead::Parsed(self.pos()),
                pspec is Unread || target == node_shapes(elements@),
            decreases self.remaining(),
        {
            proof { self.lemma_kinds_here(); }
            if matches!(self.peek().kind, TokenKind::RBracket) {
                self.advance();
                break;
            }
            let ghost before = elements@;
            elements.push(self.parse_expression()?);
            proof {
                assert(elements@.drop_last() =~= before);
                self.lemma_kinds_here();
            }
            if matches!(self.peek().kind, TokenKind::Comma) {
                self.advance();
                proof { self.lemma_kinds_here(); }
                if matches!(self.peek().kind, TokenKind::RBracket) {
                    self.advance();
                    break;
                }
            } else if matches!(self.peek().kind, TokenKind::RBracket) {
                self.advance();
                break;
            } else {
                return Err(self.unexpected("expected `,` or `]` in array literal"));
            }
        }
        Ok(AstNode::ArrayLiteral { elements, span: open })
    }

    /// The rest of a primary expression that starts with the identifier `name`
    /// (already consumed): a call, generic call or constructor, struct literal,
    /// enum variant, or the plain identifier.
    #[verifier::rlimit(100)]
    #[verifier::spinoff_prover]
    fn parse_after_identifier(&mut self, name: String, span: Span) -> (r: Result<AstNode, ParseError>)
        requires
            old(self).wf(),
        ensures
            moved_on(*old(self), *final(self)),
            r is Ok ==> stmt_shape(r->Ok_0) is Other,
            read_matches(after_ident_at(old(self).toks(), old(self).pos()), r is Ok, final(self).pos()),
            after_ident_at(old(self).toks(), old(self).pos()) is Parsed && r is Ok
                ==> expr_shape(r->Ok_0) == after_ident_shape(old(self).toks(), old(self).pos(), name@, span),
            after_ident_at(old(self).toks(), old(self).pos()) == ExprRead::Parsed(old(self).pos())
                ==> r == Ok::<AstNode, ParseError>(AstNode::Identifier { name, span }),
            kind_at(old(self).toks(), old(self).pos(), 0) is LParen && r is Ok ==> (r matches Ok(
                AstNode::Call { callee, type_args, arguments, span: sp },
            ) && callee == name && type_args@.len() == 0 && sp == span
                && (list_at(old(self).toks(), old(self).pos() + 1, true) matches ListRead::Done(names, _)
                ==> names == call_arg_names(arguments@))),
        decreases old(self).remaining(), 3nat,
    {
        let ghost toks = self.toks();
        let ghost i0 = self.pos();
        proof { self.lemma_kinds_here(); }
        if matches!(self.peek().kind, TokenKind::LParen) {
            self.expect_lparen()?;
            proof { lemma_list_done_at_rparen(toks, i0 + 1, true); }
            let arguments = self.parse_call_argument_list()?;
            proof { self.lemma_kinds_here(); }
            self.expect_rparen()?;
            return Ok(AstNode::Call { callee: name, type_args: Vec::new(), arguments, span });
        }
        if matches!(self.peek().kind, TokenKind::Lt) {
            if !self.lt_starts_generic_args() {
                return Ok(AstNode::Identifier { name, span });
            }
            self.advance();
            let type_args = self.parse_generic_args()?;
            proof { self.lemma_kinds_here(); }
            if matches!(self.peek().kind, TokenKind::ColonColon) {
                self.advance();
                proof { self.lemma_kinds_here(); }
                let (variant, _) = self.take_identifier()?;
                let mut payloads: Vec<AstNode> = Vec::new();
                proof { self.lemma_kinds_here(); }
                if matches!(self.peek().kind, TokenKind::LParen) {
                    self.expect_lparen()?;
                    proof { lemma_list_done_at_rparen(toks, self.pos(), false); }
                    payloads = self.parse_expression_list()?;
                    proof { self.lemma_kinds_here(); }
                    self.expect_rparen()?;
                }
                return Ok(AstNode::EnumVariantCtor { enum_name: name, type_args, variant, payloads, span });
            } else if matches!(self.peek().kind, TokenKind::LBrace) {
                return self.parse_struct_literal_after_name(name, type_args, span);
            } else if matches!(self.peek().kind, TokenKind::LParen) {
                self.expect_lparen()?;
                proof { lemma_list_done_at_rparen(toks, self.pos(), true); }
                let arguments = self.parse_call_argument_list()?;
                proof { self.lemma_kinds_here(); }
                self.expect_rparen()?;
                return Ok(AstNode::Call { callee: name, type_args, arguments, span });
            } else {
                proof { assert(after_ident_at(toks, i0) is Unread); }
                let mut out: Vec<char> = Vec::new();
                push_str(&mut out, name.as_str());
                out.push('<');
                let mut i: usize = 0;
                while i < type_args.len()
                    invariant
                        i <= type_args@.len(),
                        self.wf(),
                        self.toks() == old(self).toks(),
                        old(self).pos() <= self.pos(),
                        toks == old(self).toks(),
                        i0 == old(self).pos(),
                        after_ident_at(toks, i0) is Unread,
                    decreases type_args@.len() - i,
                {
                    let part = match Self::type_expr_receiver_key(&type_args[i]) {
                        Some(k) => k,
                        None => {
                            return Err(ParseError::UnexpectedToken {
                                message: lit("type value arguments must be concrete compile-time types"),
                                span: Some(span),
                            });
                        },
                    };
                    if i > 0 {
                        push_str(&mut out, ", ");
                    }
                    push_str(&mut out, part.as_str());
                    i += 1;
                }
                out.push('>');
                return Ok(AstNode::TypeValue { ty_name: chars_to_string(out.as_slice()), span });
            }
        }
        if matches!(self.peek().kind, TokenKind::LBrace) {
            proof { self.lemma_kinds_here(); }
            let after_rbrace = matches!(self.peek_n(1).kind, TokenKind::RBrace);
            let after_dotdot = matches!(self.peek_n(1).kind, TokenKind::DotDot);
            let after_field = matches!(self.peek_n(1).kind, TokenKind::Identifier(_))
                && matches!(self.peek_n(2).kind, TokenKind::Colon);
            if after_rbrace || after_dotdot || after_field {
                return self.parse_struct_literal_after_name(name, Vec::new(), span);
            } else {
                return Ok(AstNode::Identifier { name, span });
            }
        }
        if matches!(self.peek().kind, TokenKind::ColonColon) {
            self.advance();
            proof { self.lemma_kinds_here(); }
            let (variant, _) = self.take_identifier()?;
            proof { self.lemma_kinds_here(); }
            if matches!(self.peek().kind, TokenKind::LParen) {
                self.expect_lparen()?;
                proof { lemma_list_done_at_rparen(toks, self.pos(), true); }
                let arguments = self.parse_call_argument_list()?;
                proof { self.lemma_kinds_here(); }
                self.expect_rparen()?;
                return Ok(AstNode::TypeMethodCall { ty_name: name, method: variant, arguments, span });
            }
            return Ok(AstNode::EnumVariantCtor {
                enum_name: name,
                type_args: Vec::new(),
                variant,
                payloads: Vec::new(),
                span,
            });
        }
        Ok(AstNode::Identifier { name, span })
    }

    #[verifier::rlimit(60)]
    fn parse_match_expression(&mut self) -> (r: Result<AstNode, ParseError>)
        requires
            old(self).wf(),
            old(self).current().kind is Match,
        ensures
            moved_on(*old(self), *final(self)),
            r is Ok ==> old(self).pos() < final(self).pos(),
            r is Ok ==> stmt_shape(r->Ok_0) is Other,
            read_matches(match_at(old(self).toks(), old(self).pos()), r is Ok, final(self).pos()),
        decreases old(self).remaining(), 3nat,
    {
        let ghost toks = self.toks();
        let ghost i0 = self.pos();
        let ghost sp = match_at(toks, i0);
        proof { self.lemma_kinds_here(); }
        let span = self.peek().span;
        self.advance();
        let scrutinee = Box::new(self.parse_expression()?);
        proof { self.lemma_kinds_here(); }
        self.expect_lbrace()?;
        let mut arms: Vec<MatchArm> = Vec::new();
        proof { self.lemma_kinds_here(); }
        while !matches!(self.peek().kind, TokenKind::RBrace)
            invariant
                self.wf(),
                self.toks() == toks,
                toks == old(self).toks(),
                i0 == old(self).pos(),
                sp == match_at(toks, i0),
                old(self).pos() < self.pos(),
                sp is Unread || sp == match_arms_at(toks, self.pos()),
            decreases self.remaining(),
        {
            let ghost a = self.pos();
            proof { self.lemma_kinds_here(); }
            if matches!(self.peek().kind, TokenKind::Eof) {
                return Err(ParseError::UnexpectedEof { expected: "match arms `}`" });
            }
            self.skip_comments();
            let arm_span = self.peek().span;
            let mut patterns: Vec<Pattern> = Vec::new();
            let ghost arm_start = self.pos();
            let ghost mut cur = self.pos();
            patterns.push(self.parse_pattern()?);
            proof { self.lemma_kinds_here(); }
            while matches!(self.peek().kind, TokenKind::Pipe)
                invariant
                    self.wf(),
                    self.toks() == toks,
                    toks == old(self).toks(),
                    i0 == old(self).pos(),
                    sp == match_at(toks, i0),
                    old(self).pos() < self.pos(),
                    arm_start < self.pos(),
                    a < arm_start || a == arm_start,
                    arm_start == skip_comments_from(toks, a),
                    0 <= a <= toks.len(),
                    !(kind_at(toks, a, 0) is RBrace),
                    !(kind_at(toks, a, 0) is Eof),
                    sp is Unread || sp == match_arms_at(toks, a),
                    arm_start <= cur < self.pos(),
                    arm_patterns_at(toks, arm_start) is Unread || arm_patterns_at(toks, arm_start) == arm_patterns_at(toks, cur),
                    arm_patterns_at(toks, arm_start) is Unread || pattern_at(toks, cur) == ExprRead::Parsed(self.pos()),
                decreases self.remaining(),
            {
                self.advance();
                proof { cur = self.pos(); self.lemma_kinds_here(); }
                patterns.push(self.parse_pattern()?);
                proof { self.lemma_kinds_here(); }
            }
            proof {
                assert(arm_patterns_at(toks, arm_start) is Unread
                    || arm_patterns_at(toks, arm_start) == ExprRead::Parsed(self.pos()));
            }
            let guard = if matches!(self.peek().kind, TokenKind::If) {
                self.advance();
                Some(Box::new(self.parse_expression()?))
            } else {
                None
            };
            proof { self.lemma_kinds_here(); }
            if matches!(self.peek().kind, TokenKind::FatArrow) {
                self.advance();
            } else {
                return Err(self.unexpected("expected `=>` in match arm"));
            }
            proof { self.lemma_kinds_here(); }
            let body = if matches!(self.peek().kind, TokenKind::LBrace) {
                Box::new(self.parse_block_statement()?)
            } else {
                Box::new(self.parse_expression()?)
            };
            proof { assert(arm_at(toks, arm_start) is Unread || arm_at(toks, arm_start) == ExprRead::Parsed(self.pos())); }
            let ghost b = self.pos();
            self.skip_comments();
            proof { self.lemma_kinds_here(); }
            if matches!(self.peek().kind, TokenKind::Comma) {
                self.advance();
                self.skip_comments();
            } else if !matches!(self.peek().kind, TokenKind::RBrace) {
                return Err(self.unexpected("expected `,` or `}` after match arm"));
            }
            arms.push(MatchArm { patterns, guard, body, span: arm_span });
            proof { self.lemma_kinds_here(); }
        }
        proof { self.lemma_kinds_here(); }
        self.expect_rbrace()?;
        Ok(AstNode::Match { scrutinee, arms, span })
    }

    #[verifier::rlimit(60)]
    fn parse_call_argument_list(&mut self) -> (r: Result<Vec<CallArg>, ParseError>)
        requires
            old(self).wf(),
        ensures
            moved_on(*old(self), *final(self)),
            match list_at(old(self).toks(), old(self).pos(), true) {
                ListRead::Done(names, j) => r matches Ok(v) && call_arg_names(v@) == names && final(self).pos() == j
                    && call_arg_shapes(v@) == list_shapes_at(old(self).toks(), old(self).pos(), true),
                ListRead::Failed => r is Err,
                ListRead::Unread => true,
            },
        decreases old(self).remaining(), 18nat,
    {
        let ghost toks = self.toks();
        let ghost i0 = self.pos();
        let ghost spec_list = list_at(toks, i0, true);
        let ghost spec_shapes = list_shapes_at(toks, i0, true);
        let mut args: Vec<CallArg> = Vec::new();
        proof { self.lemma_kinds_here(); }
        if matches!(self.peek().kind, TokenKind::RParen) {
            proof { assert(call_arg_names(args@) =~= Seq::<Option<Seq<char>>>::empty()); }
            return Ok(args);
        }
        proof { assert(call_arg_names(args@) =~= Seq::<Option<Seq<char>>>::empty()); }
        loop
            invariant_except_break
                spec_list is Unread || spec_list == list_items_at(toks, self.pos(), call_arg_names(args@), true),
                spec_list is Unread || spec_shapes == list_item_shapes_at(toks, self.pos(), call_arg_shapes(args@), true),
            invariant
                self.wf(),
                self.toks() == toks,
                toks == old(self).toks(),
                i0 == old(self).pos(),
                i0 <= self.pos(),
                spec_list == list_at(toks, i0, true),
                spec_shapes == list_shapes_at(toks, i0, true),
            ensures
                spec_list is Unread || spec_list == ListRead::Done(call_arg_names(args@), self.pos()),
                spec_list is Unread || spec_shapes == call_arg_shapes(args@),
            decreases self.remaining(),
        {
            let ghost before = args@;
            let ghost p0 = self.pos();
            proof { self.lemma_kinds_here(); }
            let named = matches!(self.peek().kind, TokenKind::Identifier(_))
                && matches!(self.peek_n(1).kind, TokenKind::Colon);
            if named {
                let (name, name_span) = self.take_identifier()?;
                self.expect_colon()?;
                let value = self.parse_expression()?;
                args.push(CallArg::Named { name, name_span, value });
            } else {
                args.push(CallArg::Positional(self.parse_expression()?));
            }
            proof {
                assert(call_arg_names(args@) =~= call_arg_names(before).push(call_arg_name(args@.last())));
                assert(args@.drop_last() =~= before);
                assert(call_arg_shapes(args@) == call_arg_shapes(before).push(call_arg_shape(args@.last())));
                self.lemma_kinds_here();
            }
            if matches!(self.peek().kind, TokenKind::RParen) {
                break;
            } else if matches!(self.peek().kind, TokenKind::Comma) {
                self.advance();
                proof { self.lemma_kinds_here(); }
                if matches!(self.peek().kind, TokenKind::RParen) {
                    return Err(self.unexpected("trailing comma in argument list"));
                }
            } else {
                return Err(self.unexpected("expected `,` or `)`"));
            }
        }
        Ok(args)
    }

    #[verifier::rlimit(60)]
    fn parse_expression_list(&mut self) -> (r: Result<Vec<AstNode>, ParseError>)
        requires
            old(self).wf(),
        ensures
            moved_on(*old(self), *final(self)),
            match list_at(old(self).toks(), old(self).pos(), false) {
                ListRead::Done(names, j) => r matches Ok(v) && v@.len() == names.len() && final(self).pos() == j,
                ListRead::Failed => r is Err,
                ListRead::Unread => true,
            },
        decreases old(self).remaining(), 18nat,
    {
        let ghost toks = self.toks();
        let ghost i0 = self.pos();
        let ghost spec_list = list_at(toks, i0, false);
        let mut args: Vec<AstNode> = Vec::new();
        proof { self.lemma_kinds_here(); }
        if matches!(self.peek().kind, TokenKind::RParen) {
            return Ok(args);
        }
        proof { assert(unnamed(0) =~= Seq::<Option<Seq<char>>>::empty()); }
        loop
            invariant_except_break
                spec_list is Unread || spec_list == list_items_at(toks, self.pos(), unnamed(args@.len()), false),
            invariant
                self.wf(),
                self.toks() == toks,
                toks == old(self).toks(),
                i0 == old(self).pos(),
                i0 <= self.pos(),
                spec_list == list_at(toks, i0, false),
            ensures
                spec_list is Unread || spec_list == ListRead::Done(unnamed(args@.len()), self.pos()),
            decreases self.remaining(),
        {
            let ghost n0 = args@.len();
            proof { self.lemma_kinds_here(); }
            args.push(self.parse_expression()?);
            proof {
                assert(unnamed(args@.len()) =~= unnamed(n0).push(None));
                self.lemma_kinds_here();
            }
            if matches!(self.peek().kind, TokenKind::RParen) {
                break;
            } else if matches!(self.peek().kind, TokenKind::Comma) {
                self.advance();
                proof { self.lemma_kinds_here(); }
                if matches!(self.peek().kind, TokenKind::RParen) {
                    return Err(self.unexpected("trailing comma in argument list"));
                }
            } else {
                return Err(self.unexpected("expected `,` or `)`"));
            }
        }
        Ok(args)
    }

    #[verifier::rlimit(100)]
    #[verifier::spinoff_prover]
    fn parse_struct_literal_after_name(&mut self, name: String, type_args: Vec<TypeExpr>, span: Span)
        -> (r: Result<AstNode, ParseError>)
        requires
            old(self).wf(),
        ensures
            moved_on(*old(self), *final(self)),
            r is Ok ==> stmt_shape(r->Ok_0) is Other,
            r is Ok ==> old(self).pos() < final(self).pos(),
            read_matches(struct_literal_body_at(old(self).toks(), old(self).pos()), r is Ok, final(self).pos()),
            r matches Ok(n) ==> (n matches AstNode::StructLiteral { name: nm, .. } && nm == name),
        decreases old(self).remaining(), 1nat,
    {
        let ghost toks = self.toks();
        let ghost i0 = self.pos();
        let ghost sp = struct_literal_body_at(toks, i0);
        proof { self.lemma_kinds_here(); }
        self.expect_lbrace()?;
        let mut fields: Vec<(String, AstNode)> = Vec::new();
        let mut update: Option<Box<AstNode>> = None;
        proof { self.lemma_kinds_here(); }
        if matches!(self.peek().kind, TokenKind::RBrace) {
            self.advance();
            return Ok(AstNode::StructLiteral { name, type_args, fields, update, span });
        }
        loop
            invariant_except_break
                sp is Unread || sp == struct_literal_fields_at(toks, self.pos()),
                update is None,
            invariant
                self.wf(),
                self.toks() == toks,
                toks == old(self).toks(),
                i0 == old(self).pos(),
                sp == struct_literal_body_at(toks, i0),
                old(self).pos() < self.pos(),
            ensures
                sp is Unread || sp == ExprRead::Parsed(self.pos()),
            decreases self.remaining(),
        {
            let ghost j0 = self.pos();
            self.skip_comments();
            proof { self.lemma_kinds_here(); }
            if matches!(self.peek().kind, TokenKind::DotDot) {
                if update.is_some() {
                    return Err(self.unexpected("multiple struct update bases (`..`)"));
                }
                self.advance();
                let base = Box::new(self.parse_expression()?);
                update = Some(base);
                proof { self.lemma_kinds_here(); }
                if matches!(self.peek().kind, TokenKind::Comma) {
                    self.advance();
                } else if !matches!(self.peek().kind, TokenKind::RBrace) {
                    return Err(self.unexpected("struct update `..base` must be last"));
                }
                proof { self.lemma_kinds_here(); }
                self.expect_rbrace()?;
                break;
            }
            let (field_name, _) = self.take_identifier()?;
            proof { self.lemma_kinds_here(); }
            self.expect_colon()?;
            let value = self.parse_expression()?;
            fields.push((field_name, value));
            proof { self.lemma_kinds_here(); }
            if matches!(self.peek().kind, TokenKind::Comma) {
                self.advance();
                self.skip_comments();
                proof { self.lemma_kinds_here(); }
                if matches!(self.peek().kind, TokenKind::RBrace) {
                    self.advance();
                    break;
                }
            } else if matches!(self.peek().kind, TokenKind::RBrace) {
                self.advance();
                break;
            } else {
                return Err(self.unexpected("expected `,` or `}` in struct literal"));
            }
        }
        Ok(AstNode::StructLiteral { name, type_args, fields, update, span })
    }
}

/// An "unexpected token" error with the given message at `span`.
fn unexpected_token(msg: &str, span: Span) -> (e: ParseError)
    ensures
        unexpected_at(e, msg@, span),
{
    ParseError::UnexpectedToken { message: lit(msg), span: Some(span) }
}

/// The digits of a tuple index written as an integer literal: the base prefix
/// (for a non-decimal radix) and the underscores removed.
pub open spec fn tuple_index_digits(original: Seq<char>, radix: u32) -> Seq<char> {
    if radix == 10 || original.len() < 2 {
        strip_underscores(original)
    } else {
        strip_underscores(original.subrange(2, original.len() as int))
    }
}

/// The index a tuple-field literal names, when its digits read as a `u32`.
pub open spec fn tuple_index_value(original: Seq<char>, radix: u32) -> Option<u32> {
    let d = tuple_index_digits(original, radix);
    if d.len() > 0 && all_digits(d, radix as nat) && digits_value(d, radix as nat) <= u32::MAX {
        Some(digits_value(d, radix as nat) as u32)
    } else {
        None
    }
}

/// Reads the literal `original` (of base `radix`) after `.` as a tuple index.
fn tuple_index(original: &String, radix: u32) -> (r: Option<u32>)
    requires
        2 <= radix <= 36,
    ensures
        r == tuple_index_value(original@, radix),
{
    let chars = str_chars(original.as_str());
    let start: usize = if radix == 10 || chars.len() < 2 { 0 } else { 2 };
    let mut digits: Vec<char> = Vec::new();
    let mut i: usize = start;
    while i < chars.len()
        invariant
            start <= i <= chars@.len(),
            chars@ == original@,
            start == (if radix == 10 || chars@.len() < 2 { 0int } else { 2int }),
            digits@ == strip_underscores(chars@.subrange(start as int, i as int)),
        decreases chars@.len() - i,
    {
        assert(chars@.subrange(start as int, i + 1).drop_last() == chars@.subrange(start as int, i as int));
        if chars[i] != '_' {
            digits.push(chars[i]);
        }
        i += 1;
    }
    proof {
        assert(chars@.subrange(0, chars@.len() as int) == chars@);
    }
    match parse_digits(digits.as_slice(), radix) {
        Some(v) => {
            if v <= 4294967295u64 {
                Some(v as u32)
            } else {
                None
            }
        },
        None => None,
    }
}

impl Parser {
    #[verifier::rlimit(60)]
    fn parse_block_items_until_rbrace(&mut self) -> (r: Result<Vec<AstNode>, ParseError>)
        requires
            old(self).wf(),
        ensures
            moved_on(*old(self), *final(self)),
            r is Ok ==> final(self).current().kind is RBrace,
            read_matches(block_items_at(old(self).toks(), old(self).pos()), r is Ok, final(self).pos()),
            block_items_at(old(self).toks(), old(self).pos()) is Parsed
                ==> (r matches Ok(v) && stmt_shapes(v@) == block_items_shape(old(self).toks(), old(self).pos())),
        decreases old(self).remaining(), 20nat,
    {
        proof { self.lemma_kinds_here(); }
        let ghost spec = block_items_at(old(self).toks(), old(self).pos());
        let mut items: Vec<AstNode> = Vec::new();
        while !matches!(self.peek().kind, TokenKind::RBrace)
            invariant
                self.wf(),
                self.toks() == old(self).toks(),
                old(self).pos() <= self.pos(),
                spec == block_items_at(old(self).toks(), old(self).pos()),
                spec is Unread || spec == block_items_at(self.toks(), self.pos()),
                spec is Parsed ==> block_items_shape(self.toks(), old(self).pos())
                    == stmt_shapes(items@) + block_items_shape(self.toks(), self.pos()),
            decreases self.remaining(),
        {
            proof { self.lemma_kinds_here(); }
            if matches!(self.peek().kind, TokenKind::Eof) {
                return Err(ParseError::UnexpectedEof { expected: "}" });
            }
            let ghost p0 = self.pos();
            let ghost before = items@;
            assert(!(kind_at(self.toks(), p0, 0) is RBrace));
            let item = self.parse_block_item()?;
            items.push(item);
            proof {
                assert(items@.drop_last() =~= before);
                if spec is Parsed {
                    assert(block_items_at(self.toks(), p0) is Parsed);
                    assert(block_item_at(self.toks(), p0) == ExprRead::Parsed(self.pos()));
                    assert(stmt_shape(item) == block_item_shape(self.toks(), p0));
                    assert(stmt_shapes(items@) =~= stmt_shapes(before).push(stmt_shape(item)));
                    lemma_block_items_shape_step(self.toks(), p0, self.pos());
                    assert(stmt_shapes(before) + block_items_shape(self.toks(), p0)
                        =~= stmt_shapes(items@) + block_items_shape(self.toks(), self.pos()));
                }
            }
        }
        proof {
            self.lemma_kinds_here();
            assert(stmt_shapes(items@) + Seq::<StmtShape>::empty() =~= stmt_shapes(items@));
        }
        Ok(items)
    }

    /// A statement that starts with the name `name` under the cursor: a call or an
    /// assignment.
    #[verifier::rlimit(100)]
    #[verifier::spinoff_prover]
    fn parse_name_statement(&mut self, name: String, span: Span) -> (r: Result<AstNode, ParseError>)
        requires
            old(self).wf(),
            old(self).current().kind == TokenKind::Identifier(name),
            old(self).current().span == span,
        ensures
            moved_on(*old(self), *final(self)),
            r is Ok ==> old(self).pos() < final(self).pos(),
            read_matches(name_statement_at(old(self).toks(), old(self).pos()), r is Ok, final(self).pos()),
            r is Ok && name_statement_at(old(self).toks(), old(self).pos()) is Parsed
                ==> stmt_shape(r->Ok_0) == name_stmt_shape(old(self).toks(), old(self).pos(), name@),
        decreases old(self).remaining(), 18nat,
    {
        let ghost toks = self.toks();
        proof { reveal(name_statement_at); self.lemma_kinds_here(); }
        self.advance();
        proof { self.lemma_kinds_here(); }
        if matches!(self.peek().kind, TokenKind::LParen) {
            return self.finish_call_after_callee(name, span);
        }
        if matches!(self.peek().kind, TokenKind::Lt) {
            if !self.lt_starts_generic_args() {
                return Err(self.unexpected("unexpected `<` after identifier; expected call `(`"));
            }
            self.advance();
            let type_args = self.parse_generic_args()?;
            proof { self.lemma_kinds_here(); }
            self.expect_lparen()?;
            proof { lemma_list_done_at_rparen(toks, self.pos(), true); }
            let arguments = self.parse_call_argument_list()?;
            proof { self.lemma_kinds_here(); }
            self.expect_rparen()?;
            proof { self.lemma_kinds_here(); }
            self.expect_semicolon()?;
            return Ok(AstNode::Call { callee: name, type_args, arguments, span });
        }
        let lhs = self.parse_tuple_field_suffix(AstNode::Identifier { name, span })?;
        proof { self.lemma_kinds_here(); }
        self.finish_assignment(lhs, span)
    }

    /// The rest of an assignment to `lhs` (the cursor is just after the target).
    fn finish_assignment(&mut self, lhs: AstNode, span: Span) -> (r: Result<AstNode, ParseError>)
        requires
            old(self).wf(),
        ensures
            moved_on(*old(self), *final(self)),
            r is Ok ==> old(self).pos() < final(self).pos(),
            read_matches(assign_tail_at(old(self).toks(), old(self).pos()), r is Ok, final(self).pos()),
            r is Ok && assign_tail_at(old(self).toks(), old(self).pos()) is Parsed
                ==> stmt_shape(r->Ok_0) == assign_tail_shape(old(self).toks(), old(self).pos(), expr_shape(lhs)),
        decreases old(self).remaining(), 17nat,
    {
        proof { self.lemma_kinds_here(); }
        match self.compound_op_from_peek() {
            Some(op) => {
                self.advance();
                let rhs = Box::new(self.parse_expression()?);
                proof { self.lemma_kinds_here(); }
                self.expect_semicolon()?;
                return Ok(AstNode::CompoundAssign { lhs: Box::new(lhs), op, rhs, span });
            },
            None => {},
        }
        if matches!(self.peek().kind, TokenKind::Eq) {
            self.advance();
            let rhs = Box::new(self.parse_expression()?);
            proof { self.lemma_kinds_here(); }
            self.expect_semicolon()?;
            return Ok(match lhs {
                AstNode::Identifier { name, span } =>
                    AstNode::Assign { pattern: Pattern::Binding { name, name_span: span }, value: rhs, span },
                other => AstNode::AssignExpr { lhs: Box::new(other), rhs, span },
            });
        }
        return Err(self.unexpected("expected `=`, compound assignment (`+=`, …), or `(` after identifier"));
    }

    #[verifier::rlimit(100)]
    #[verifier::spinoff_prover]
    fn parse_block_item(&mut self) -> (r: Result<AstNode, ParseError>)
        requires
            old(self).wf(),
        ensures
            moved_on(*old(self), *final(self)),
            r is Ok ==> old(self).pos() < final(self).pos(),
            read_matches(block_item_at(old(self).toks(), old(self).pos()), r is Ok, final(self).pos()),
            block_item_at(old(self).toks(), old(self).pos()) is Parsed
                ==> r is Ok && stmt_shape(r->Ok_0) == block_item_shape(old(self).toks(), old(self).pos()),
            old(self).current().kind is Identifier && ident_text(old(self).current().kind) == "internal"@
                ==> (r matches Err(e) && unexpected_at(e,
                "`internal` functions must be declared at the top level and must have no body (use `internal func name(args);`)"@,
                old(self).current().span)),
        decreases old(self).remaining(), 19nat,
    {
        proof { reveal(block_item_shape); }
        proof { self.lemma_kinds_here(); }
        let span = self.peek().span;
        let is_internal = match &self.peek().kind {
            TokenKind::Identifier(s) => str_is(s, "internal"),
            _ => false,
        };
        if is_internal {
            return Err(unexpected_token(
                "`internal` functions must be declared at the top level and must have no body (use `internal func name(args);`)",
                span,
            ));
        }
        assert(!(old(self).current().kind is Identifier && ident_text(old(self).current().kind) == "internal"@));
        let word: Option<String> = match &self.peek().kind {
            TokenKind::Identifier(s) => Some(s.clone()),
            _ => None,
        };
        match word {
            Some(name) => {
                if str_is(&name, "func") {
                    return Err(unexpected_token("function definitions are top-level only", span));
                }
                if str_is(&name, "return") {
                    return self.parse_return_statement();
                }
                return self.parse_name_statement(name, span);
            },
            None => {},
        }
        if matches!(self.peek().kind, TokenKind::Await) {
            let e = self.parse_expression()?;
            self.expect_semicolon()?;
            return Ok(e);
        }
        if matches!(self.peek().kind, TokenKind::Let) {
            return self.parse_let_statement(false, false);
        }
        if matches!(self.peek().kind, TokenKind::Const) {
            return self.parse_const_statement(false);
        }
        if matches!(self.peek().kind, TokenKind::If) {
            return self.parse_if_statement();
        }
        if matches!(self.peek().kind, TokenKind::Match) {
            let m = self.parse_match_expression()?;
            if matches!(self.peek().kind, TokenKind::Semicolon) {
                self.advance();
            }
            return Ok(m);
        }
        if matches!(self.peek().kind, TokenKind::While) {
            return self.parse_while_statement();
        }
        if matches!(self.peek().kind, TokenKind::Break) {
            self.advance();
            self.expect_semicolon()?;
            return Ok(AstNode::Break { span });
        }
        if matches!(self.peek().kind, TokenKind::Continue) {
            self.advance();
            self.expect_semicolon()?;
            return Ok(AstNode::Continue { span });
        }
        if matches!(self.peek().kind, TokenKind::LBrace) {
            return self.parse_block_statement();
        }
        if matches!(self.peek().kind, TokenKind::LParen) {
            let pattern = self.parse_pattern()?;
            self.expect_eq()?;
            let value = Box::new(self.parse_expression()?);
            self.expect_semicolon()?;
            return Ok(AstNode::Assign { pattern, value, span });
        }
        let comment = match &self.peek().kind {
            TokenKind::SingleLineComment(text) => Some(AstNode::SingleLineComment(text.clone())),
            TokenKind::MultiLineComment(text) => Some(AstNode::MultiLineComment(text.clone())),
            _ => None,
        };
        match comment {
            Some(c) => {
                self.advance();
                return Ok(c);
            },
            None => {},
        }
        match self.peek().kind {
            TokenKind::Async => Err(unexpected_token("`async` functions must be declared at the top level", span)),
            TokenKind::Struct => Err(unexpected_token("`struct` declarations are top-level only", span)),
            TokenKind::Enum => Err(unexpected_token("`enum` declarations are top-level only", span)),
            TokenKind::Import | TokenKind::Export => Err(unexpected_token("imports/exports are top-level only", span)),
            TokenKind::FatArrow => Err(unexpected_token("unexpected `=>`", span)),
            TokenKind::IntegerLiteral { .. } | TokenKind::FloatLiteral { .. } | TokenKind::StringLiteral { .. } =>
                Err(unexpected_token("unexpected literal; expected a statement", span)),
            TokenKind::LBracket | TokenKind::RBracket | TokenKind::Underscore | TokenKind::True
            | TokenKind::False | TokenKind::Else | TokenKind::Params | TokenKind::Type =>
                Err(unexpected_token("unexpected token; expected a statement", span)),
            TokenKind::Eof => Err(ParseError::UnexpectedEof { expected: "}" }),
            _ => Err(unexpected_token("unexpected punctuation", span)),
        }
    }

    fn parse_block_statement(&mut self) -> (r: Result<AstNode, ParseError>)
        requires
            old(self).wf(),
            old(self).current().kind is LBrace,
        ensures
            moved_on(*old(self), *final(self)),
            r is Ok ==> old(self).pos() < final(self).pos(),
            read_matches(braced_at(old(self).toks(), old(self).pos()), r is Ok, final(self).pos()),
            r is Ok && braced_at(old(self).toks(), old(self).pos()) is Parsed
                ==> stmt_shape(r->Ok_0) == StmtShape::Block(braced_items_shape(old(self).toks(), old(self).pos())),
        decreases old(self).remaining(), 1nat,
    {
        proof { self.lemma_kinds_here(); }
        self.advance();
        let body = self.parse_block_items_until_rbrace()?;
        let closing_span = self.peek().span;
        self.expect_rbrace()?;
        Ok(AstNode::Block { body, closing_span })
    }

    /// `let pattern (: Type)? (= expr)?;` inside a block, or at the top level
    /// (`top_level`), where only simple patterns are allowed; `require_initializer`
    /// makes `= expr` mandatory.
    fn parse_let_statement(&mut self, require_initializer: bool, top_level: bool) -> (r: Result<AstNode, ParseError>)
        requires
            old(self).wf(),
            old(self).current().kind is Let,
        ensures
            moved_on(*old(self), *final(self)),
            r is Ok ==> old(self).pos() < final(self).pos(),
            r matches Ok(AstNode::Let { is_const, is_exported, .. }) ==> !is_const && !is_exported,
            r matches Ok(AstNode::Let { initializer, .. }) ==> require_initializer ==> initializer is Some,
            r matches Ok(AstNode::Let { pattern, .. }) ==> top_level ==> top_level_pattern_ok(pattern),
            r is Ok ==> r->Ok_0 is Let,
            read_matches(let_at(old(self).toks(), old(self).pos(), require_initializer, top_level), r is Ok, final(self).pos()),
            let_at(old(self).toks(), old(self).pos(), require_initializer, top_level) is Parsed
                ==> r is Ok && stmt_shape(r->Ok_0) == let_shape(old(self).toks(), old(self).pos()),
            require_initializer && let_lacks_initializer(old(self).toks(), old(self).pos(), top_level)
                ==> (r matches Err(e) && unexpected_at(e, "top-level `let` must have an initializer"@, old(self).current().span)),
            r is Ok ==> item_shape(r->Ok_0) == ItemShape::Binding(stmt_shape(r->Ok_0)),
        decreases old(self).remaining(), 1nat,
    {
        proof { reveal(let_lacks_initializer); }
        proof { reveal(item_shape); }
        proof { self.lemma_kinds_here(); }
        let span = self.peek().span;
        self.advance();
        let pattern = self.parse_pattern()?;
        if top_level {
            self.validate_top_level_let_pattern(&pattern)?;
        }
        let type_annotation = if matches!(self.peek().kind, TokenKind::Colon) {
            self.advance();
            Some(self.parse_type_expr()?)
        } else {
            None
        };
        let initializer = if matches!(self.peek().kind, TokenKind::Eq) {
            self.advance();
            Some(Box::new(self.parse_expression()?))
        } else {
            None
        };
        if require_initializer && initializer.is_none() {
            return Err(unexpected_token("top-level `let` must have an initializer", span));
        }
        self.expect_semicolon()?;
        Ok(AstNode::Let { pattern, type_annotation, initializer, is_const: false, is_exported: false, span })
    }

    /// `const name (: Type)? = expr;`
    fn parse_const_statement(&mut self, already_consumed_export: bool) -> (r: Result<AstNode, ParseError>)
        requires
            old(self).wf(),
            old(self).current().kind is Const,
        ensures
            moved_on(*old(self), *final(self)),
            r is Ok ==> old(self).pos() < final(self).pos(),
            r matches Ok(AstNode::Let { is_const, is_exported, initializer, pattern, .. }) ==>
                is_const && is_exported == already_consumed_export && initializer is Some
                && pattern is Binding,
            r is Ok ==> r->Ok_0 is Let,
            read_matches(const_at(old(self).toks(), old(self).pos()), r is Ok, final(self).pos()),
            const_at(old(self).toks(), old(self).pos()) is Parsed
                ==> r is Ok && stmt_shape(r->Ok_0) == const_shape(old(self).toks(), old(self).pos()),
            r is Ok ==> item_shape(r->Ok_0) == ItemShape::Binding(stmt_shape(r->Ok_0)),
        decreases old(self).remaining(), 1nat,
    {
        proof { reveal(item_shape); }
        proof { self.lemma_kinds_here(); }
        let span = self.peek().span;
        self.advance();
        proof { self.lemma_kinds_here(); }
        let (name, name_span) = self.take_identifier()?;
        let pattern = Pattern::Binding { name, name_span };
        proof { self.lemma_kinds_here(); }
        let type_annotation = if matches!(self.peek().kind, TokenKind::Colon) {
            self.advance();
            Some(self.parse_type_expr()?)
        } else {
            None
        };
        proof { self.lemma_kinds_here(); }
        self.expect_eq()?;
        let initializer = Some(Box::new(self.parse_expression()?));
        self.expect_semicolon()?;
        Ok(AstNode::Let {
            pattern,
            type_annotation,
            initializer,
            is_const: true,
            is_exported: already_consumed_export,
            span,
        })
    }

    /// `if cond { ... } (else if ... | else { ... })?` and the `if let` form.
    #[verifier::rlimit(100)]
    #[verifier::spinoff_prover]
    fn parse_if_statement(&mut self) -> (r: Result<AstNode, ParseError>)
        requires
            old(self).wf(),
            old(self).current().kind is If,
        ensures
            moved_on(*old(self), *final(self)),
            r is Ok ==> old(self).pos() < final(self).pos(),
            r is Ok ==> (r->Ok_0 is If || r->Ok_0 is IfLet),
            read_matches(if_at(old(self).toks(), old(self).pos()), r is Ok, final(self).pos()),
            r is Ok && if_at(old(self).toks(), old(self).pos()) is Parsed
                ==> stmt_shape(r->Ok_0) == if_shape(old(self).toks(), old(self).pos()),

        decreases old(self).remaining(), 1nat,
    {
        proof { self.lemma_kinds_here(); }
        let ghost toks = old(self).toks();
        let ghost i0 = old(self).pos();
        let span = self.peek().span;
        self.advance();
        proof { self.lemma_kinds_here(); }
        let is_let = matches!(self.peek().kind, TokenKind::Let);
        let mut pattern: Option<Pattern> = None;
        if is_let {
            self.advance();
            pattern = Some(self.parse_pattern()?);
            self.expect_eq()?;
        }
        let head = Box::new(self.parse_expression()?);
        let ghost j = self.pos();
        proof {
            self.lemma_kinds_here();
            if !is_let {
                assert(if_at(toks, i0) is Unread || if_at(toks, i0) == if_after_cond(toks, i0, self.pos()));
            } else {
                assert(if_at(toks, i0) is Unread);
            }
        }
        self.expect_lbrace()?;
        let then_body = self.parse_block_items_until_rbrace()?;
        self.expect_rbrace()?;
        let ghost a = self.pos();
        proof { self.lemma_kinds_here(); }
        let else_body = if matches!(self.peek().kind, TokenKind::Else) {
            self.advance();
            proof { self.lemma_kinds_here(); }
            if matches!(self.peek().kind, TokenKind::If) {
                let nested = self.parse_if_statement()?;
                let mut v: Vec<AstNode> = Vec::new();
                v.push(nested);
                proof {
                    assert(v@.drop_last() =~= Seq::<AstNode>::empty());
                    assert(stmt_shapes(Seq::<AstNode>::empty()) =~= Seq::<StmtShape>::empty());
                    assert(stmt_shapes(v@) =~= seq![stmt_shape(nested)]);
                }
                Some(v)
            } else {
                self.expect_lbrace()?;
                let b = self.parse_block_items_until_rbrace()?;
                self.expect_rbrace()?;
                Some(b)
            }
        } else {
            None
        };
        proof {
            if !is_let && if_at(toks, i0) is Parsed {
                assert(if_at(toks, i0) == if_after_cond(toks, i0, j));
                assert(braced_at(toks, j) == ExprRead::Parsed(a));
                lemma_if_shape(toks, i0, j, a);
                if kind_at(toks, a, 0) is Else && kind_at(toks, a, 1) is If {
                    assert(if_else_at(toks, i0, a) == if_at(toks, a + 1));
                }
            }
        }
        match pattern {
            Some(pattern) => Ok(AstNode::IfLet { pattern, value: head, then_body, else_body, span }),
            None => Ok(AstNode::If { condition: head, then_body, else_body, span }),
        }
    }

    fn parse_while_statement(&mut self) -> (r: Result<AstNode, ParseError>)
        requires
            old(self).wf(),
            old(self).current().kind is While,
        ensures
            moved_on(*old(self), *final(self)),
            r is Ok ==> old(self).pos() < final(self).pos(),
            r is Ok ==> r->Ok_0 is While,
            read_matches(while_at(old(self).toks(), old(self).pos()), r is Ok, final(self).pos()),
            r is Ok && while_at(old(self).toks(), old(self).pos()) is Parsed
                ==> stmt_shape(r->Ok_0) == while_shape(old(self).toks(), old(self).pos()),
        decreases old(self).remaining(), 1nat,
    {
        proof { self.lemma_kinds_here(); }
        let span = self.peek().span;
        self.advance();
        let condition = Box::new(self.parse_expression()?);
        proof { self.lemma_kinds_here(); }
        self.expect_lbrace()?;
        let body = self.parse_block_items_until_rbrace()?;
        self.expect_rbrace()?;
        Ok(AstNode::While { condition, body, span })
    }

    /// `return;` or `return expr;` (the cursor is on `return`).
    fn parse_return_statement(&mut self) -> (r: Result<AstNode, ParseError>)
        requires
            old(self).wf(),
            !(old(self).current().kind is Eof),
        ensures
            moved_on(*old(self), *final(self)),
            r is Ok ==> old(self).pos() < final(self).pos(),
            r is Ok ==> r->Ok_0 is Return,
            read_matches(return_at(old(self).toks(), old(self).pos()), r is Ok, final(self).pos()),
            return_at(old(self).toks(), old(self).pos()) is Parsed
                ==> r is Ok && stmt_shape(r->Ok_0) == return_shape(old(self).toks(), old(self).pos()),
        decreases old(self).remaining(), 1nat,
    {
        proof { self.lemma_kinds_here(); }
        let span = self.peek().span;
        self.advance();
        proof { self.lemma_kinds_here(); }
        if matches!(self.peek().kind, TokenKind::Semicolon) {
            self.advance();
            return Ok(AstNode::Return { value: None, span });
        }
        let value = self.parse_expression()?;
        self.expect_semicolon()?;
        Ok(AstNode::Return { value: Some(Box::new(value)), span })
    }

    /// `(args);` after the callee's name.
    fn finish_call_after_callee(&mut self, callee: String, span: Span) -> (r: Result<AstNode, ParseError>)
        requires
            old(self).wf(),
        ensures
            moved_on(*old(self), *final(self)),
            r is Ok ==> old(self).pos() < final(self).pos(),
            r matches Ok(AstNode::Call { callee: c, type_args, span: s, .. }) ==>
                c == callee && type_args@.len() == 0 && s == span,
            r is Ok ==> r->Ok_0 is Call,
            read_matches(call_tail_at(old(self).toks(), old(self).pos()), r is Ok, final(self).pos()),
            r matches Ok(AstNode::Call { arguments, .. }) ==> (list_at(old(self).toks(), old(self).pos() + 1, true)
                matches ListRead::Done(names, _) ==> names == call_arg_names(arguments@)),
        decreases old(self).remaining(), 1nat,
    {
        let ghost toks = self.toks();
        proof { self.lemma_kinds_here(); }
        self.expect_lparen()?;
        proof { lemma_list_done_at_rparen(toks, self.pos(), true); }
        let arguments = self.parse_call_argument_list()?;
        proof { self.lemma_kinds_here(); }
        self.expect_rparen()?;
        proof { self.lemma_kinds_here(); }
        self.expect_semicolon()?;
        Ok(AstNode::Call { callee, type_args: Vec::new(), arguments, span })
    }

    /// Patterns after the opening `(` of an enum variant pattern, up to `)`.
    fn parse_pattern_payloads(&mut self) -> (r: Result<Vec<Pattern>, ParseError>)
        requires
            old(self).wf(),
        ensures
            moved_on(*old(self), *final(self)),
            r is Ok ==> old(self).pos() < final(self).pos(),
            read_matches(payloads_at(old(self).toks(), old(self).pos()), r is Ok, final(self).pos()),
        decreases old(self).remaining(), 1nat,
    {
        let ghost toks = self.toks();
        let ghost i0 = self.pos();
        let ghost sp = payloads_at(toks, i0);
        proof { self.lemma_kinds_here(); }
        self.expect_lparen()?;
        let mut payloads: Vec<Pattern> = Vec::new();
        proof { self.lemma_kinds_here(); }
        if !matches!(self.peek().kind, TokenKind::RParen) {
            let ghost mut j = self.pos();
            payloads.push(self.parse_pattern()?);
            proof { self.lemma_kinds_here(); }
            while matches!(self.peek().kind, TokenKind::Comma)
                invariant
                    self.wf(),
                    self.toks() == toks,
                    toks == old(self).toks(),
                    i0 == old(self).pos(),
                    sp == payloads_at(toks, i0),
                    old(self).pos() < j < self.pos(),
                    sp is Unread || sp == payload_items_at(toks, j),
                    sp is Unread || pattern_at(toks, j) == ExprRead::Parsed(self.pos()),
                decreases self.remaining(),
            {
                proof { self.lemma_kinds_here(); }
                self.advance();
                proof { j = self.pos(); self.lemma_kinds_here(); }
                payloads.push(self.parse_pattern()?);
                proof { self.lemma_kinds_here(); }
            }
        }
        proof { self.lemma_kinds_here(); }
        self.expect_rparen()?;
        Ok(payloads)
    }

    fn parse_pattern(&mut self) -> (r: Result<Pattern, ParseError>)
        requires
            old(self).wf(),
        ensures
            moved_on(*old(self), *final(self)),
            r is Ok ==> old(self).pos() < final(self).pos(),
            read_matches(pattern_at(old(self).toks(), old(self).pos()), r is Ok, final(self).pos()),
            pattern_at(old(self).toks(), old(self).pos()) is Parsed ==> (r matches Ok(p)
                && top_level_pattern_ok(p) == pattern_top_ok(old(self).toks(), old(self).pos())
                && pat_shape(p) == pattern_shape_at(old(self).toks(), old(self).pos())),
        decreases old(self).remaining(), 2nat,
    {
        proof { self.lemma_kinds_here(); }
        let span = self.peek().span;
        let simple = match &self.peek().kind {
            TokenKind::IntegerLiteral { value, original, radix } =>
                Some(Pattern::IntLiteral { value: *value, original: original.clone(), radix: *radix, span }),
            TokenKind::StringLiteral { value, .. } => Some(Pattern::StringLiteral { value: value.clone(), span }),
            TokenKind::True => Some(Pattern::BoolLiteral { value: true, span }),
            TokenKind::False => Some(Pattern::BoolLiteral { value: false, span }),
            TokenKind::Underscore => Some(Pattern::Wildcard { span }),
            _ => None,
        };
        match simple {
            Some(p) => {
                self.advance();
                return Ok(p);
            },
            None => {},
        }
        if matches!(self.peek().kind, TokenKind::LParen) {
            return self.parse_tuple_pattern();
        }
        if matches!(self.peek().kind, TokenKind::LBracket) {
            return self.parse_array_pattern();
        }
        if !matches!(self.peek().kind, TokenKind::Identifier(_)) {
            return Err(self.unexpected("expected pattern"));
        }
        let (name, name_span) = self.take_identifier()?;
        proof { self.lemma_kinds_here(); }
        if matches!(self.peek().kind, TokenKind::ColonColon) {
            self.advance();
            let (variant, _) = self.take_identifier()?;
            let payloads = if matches!(self.peek().kind, TokenKind::LParen) {
                self.parse_pattern_payloads()?
            } else {
                Vec::new()
            };
            Ok(Pattern::EnumVariant {
                enum_name: name,
                enum_name_span: name_span,
                type_args: Vec::new(),
                variant,
                payloads,
                span: name_span,
            })
        } else if matches!(self.peek().kind, TokenKind::Lt) {
            self.advance();
            let mut type_args: Vec<TypeExpr> = Vec::new();
            if !matches!(self.peek().kind, TokenKind::Gt) {
                type_args.push(self.parse_type_expr()?);
                while matches!(self.peek().kind, TokenKind::Comma)
                    invariant
                        self.wf(),
                        self.toks() == old(self).toks(),
                        old(self).pos() < self.pos(),
                        pattern_at(old(self).toks(), old(self).pos()) is Unread,
                    decreases self.remaining(),
                {
                    self.advance();
                    type_args.push(self.parse_type_expr()?);
                }
            }
            if matches!(self.peek().kind, TokenKind::Gt) {
                self.advance();
            } else {
                return Err(self.unexpected("expected `>` in enum pattern type argument list"));
            }
            if matches!(self.peek().kind, TokenKind::ColonColon) {
                self.advance();
                let (variant, _) = self.take_identifier()?;
                let payloads = if matches!(self.peek().kind, TokenKind::LParen) {
                    self.parse_pattern_payloads()?
                } else {
                    Vec::new()
                };
                Ok(Pattern::EnumVariant {
                    enum_name: name,
                    enum_name_span: name_span,
                    type_args,
                    variant,
                    payloads,
                    span: name_span,
                })
            } else if matches!(self.peek().kind, TokenKind::LBrace) {
                self.parse_struct_pattern_after_name(name, name_span, type_args)
            } else {
                Ok(Pattern::Struct { name, name_span, type_args, fields: Vec::new(), rest: None, span: name_span })
            }
        } else if matches!(self.peek().kind, TokenKind::LBrace) {
            self.parse_struct_pattern_after_name(name, name_span, Vec::new())
        } else {
            Ok(Pattern::Binding { name, name_span })
        }
    }

    /// `(p1, p2, .., pn)`: bindings, `_`, literals, nested tuples and at most one `..`.
    fn parse_tuple_pattern(&mut self) -> (r: Result<Pattern, ParseError>)
        requires
            old(self).wf(),
        ensures
            moved_on(*old(self), *final(self)),
            r is Ok ==> old(self).pos() < final(self).pos(),
            r is Ok ==> r->Ok_0 is Tuple,
            r is Ok ==> tuple_pattern_at(old(self).toks(), old(self).pos()) == ExprRead::Parsed(final(self).pos()),
            r matches Ok(Pattern::Tuple { elements, .. }) ==> (elements@.len() == 0
                <==> kind_at(old(self).toks(), old(self).pos(), 1) is RParen),
            r is Err ==> tuple_pattern_at(old(self).toks(), old(self).pos()) == ExprRead::Failed,
        decreases old(self).remaining(), 1nat,
    {
        let ghost toks = self.toks();
        let ghost i0 = self.pos();
        let ghost sp = tuple_pattern_at(toks, i0);
        proof { self.lemma_kinds_here(); }
        let span = self.peek().span;
        self.expect_lparen()?;
        let mut elements: Vec<PatternElem> = Vec::new();
        proof { self.lemma_kinds_here(); }
        if matches!(self.peek().kind, TokenKind::RParen) {
            self.advance();
            return Ok(Pattern::Tuple { elements, span });
        }
        let mut rest_seen = false;
        let mut two_rests = false;
        let ghost mut rests: nat = 0;
        loop
            invariant_except_break
                sp == tuple_elems_at(toks, self.pos(), rests),
                rest_seen == (rests >= 1),
            invariant
                self.wf(),
                self.toks() == toks,
                toks == old(self).toks(),
                i0 == old(self).pos(),
                sp == tuple_pattern_at(toks, i0),
                old(self).pos() < self.pos(),
                two_rests == (rests >= 2),
                !(kind_at(toks, i0, 1) is RParen),
            ensures
                sp == close_rests(rests, self.pos()),
                elements@.len() > 0,
            decreases self.remaining(),
        {
            proof { self.lemma_kinds_here(); }
            let ghost j = self.pos();
            let ghost r0 = rests;
            let s = self.peek().span;
            if matches!(self.peek().kind, TokenKind::DotDot) {
                self.advance();
                if rest_seen {
                    two_rests = true;
                }
                rest_seen = true;
                proof { rests = rests + 1; }
                elements.push(PatternElem::Rest(s));
            } else if matches!(self.peek().kind, TokenKind::LParen) {
                elements.push(PatternElem::Pattern(self.parse_tuple_pattern()?));
            } else if matches!(self.peek().kind, TokenKind::Underscore) {
                self.advance();
                elements.push(PatternElem::Pattern(Pattern::Wildcard { span: s }));
            } else if matches!(self.peek().kind,
                TokenKind::IntegerLiteral { .. } | TokenKind::StringLiteral { .. } | TokenKind::True | TokenKind::False)
            {
                elements.push(PatternElem::Pattern(self.parse_pattern()?));
            } else {
                let (name, name_span) = self.take_identifier()?;
                elements.push(PatternElem::Pattern(Pattern::Binding { name, name_span }));
            }
            proof {
                self.lemma_kinds_here();
                assert(tuple_elem_at(toks, j) == ExprRead::Parsed(self.pos()));
                assert(rests == (if kind_at(toks, j, 0) is DotDot { r0 + 1 } else { r0 }));
            }
            if matches!(self.peek().kind, TokenKind::RParen) {
                self.advance();
                break;
            } else if matches!(self.peek().kind, TokenKind::Comma) {
                self.advance();
                proof { self.lemma_kinds_here(); }
                if matches!(self.peek().kind, TokenKind::RParen) {
                    self.advance();
                    break;
                }
            } else {
                return Err(self.unexpected("expected `,` or `)` in tuple pattern"));
            }
        }
        if two_rests {
            return Err(unexpected_token("at most one `..` is allowed in a tuple pattern", span));
        }
        Ok(Pattern::Tuple { elements, span })
    }

    /// `[p1, p2, .., pn]`.
    fn parse_array_pattern(&mut self) -> (r: Result<Pattern, ParseError>)
        requires
            old(self).wf(),
        ensures
            moved_on(*old(self), *final(self)),
            r is Ok ==> old(self).pos() < final(self).pos(),
            r is Ok ==> r->Ok_0 is Array,
            r is Ok ==> array_pattern_at(old(self).toks(), old(self).pos()) == ExprRead::Parsed(final(self).pos()),
            r matches Ok(Pattern::Array { elements, .. }) ==> (elements@.len() == 0
                <==> kind_at(old(self).toks(), old(self).pos(), 1) is RBracket),
            r is Err ==> array_pattern_at(old(self).toks(), old(self).pos()) == ExprRead::Failed,
        decreases old(self).remaining(), 1nat,
    {
        let ghost toks = self.toks();
        let ghost i0 = self.pos();
        let ghost sp = array_pattern_at(toks, i0);
        proof { self.lemma_kinds_here(); }
        let span = self.peek().span;
        self.expect_lbracket()?;
        let mut elements: Vec<PatternElem> = Vec::new();
        proof { self.lemma_kinds_here(); }
        if matches!(self.peek().kind, TokenKind::RBracket) {
            self.advance();
            return Ok(Pattern::Array { elements, span });
        }
        loop
            invariant_except_break
                sp == array_elems_at(toks, self.pos()),
            invariant
                self.wf(),
                self.toks() == toks,
                toks == old(self).toks(),
                i0 == old(self).pos(),
                sp == array_pattern_at(toks, i0),
                old(self).pos() < self.pos(),
                !(kind_at(toks, i0, 1) is RBracket),
            ensures
                sp == ExprRead::Parsed(self.pos()),
                elements@.len() > 0,
            decreases self.remaining(),
        {
            proof { self.lemma_kinds_here(); }
            let ghost j = self.pos();
            let s = self.peek().span;
            if matches!(self.peek().kind, TokenKind::DotDot) {
                self.advance();
                elements.push(PatternElem::Rest(s));
            } else if matches!(self.peek().kind, TokenKind::LBracket) {
                elements.push(PatternElem::Pattern(self.parse_array_pattern()?));
            } else if matches!(self.peek().kind, TokenKind::LParen) {
                elements.push(PatternElem::Pattern(self.parse_tuple_pattern()?));
            } else if matches!(self.peek().kind, TokenKind::Underscore) {
                self.advance();
                elements.push(PatternElem::Pattern(Pattern::Wildcard { span: s }));
            } else if matches!(self.peek().kind,
                TokenKind::IntegerLiteral { .. } | TokenKind::StringLiteral { .. } | TokenKind::True | TokenKind::False)
            {
                elements.push(PatternElem::Pattern(self.parse_pattern()?));
            } else if matches!(self.peek().kind, TokenKind::Identifier(_)) {
                let (name, name_span) = self.take_identifier()?;
                elements.push(PatternElem::Pattern(Pattern::Binding { name, name_span }));
            } else {
                return Err(self.unexpected("expected pattern element in array pattern"));
            }
            proof {
                self.lemma_kinds_here();
                assert(array_elem_at(toks, j) == ExprRead::Parsed(self.pos()));
            }
            if matches!(self.peek().kind, TokenKind::Comma) {
                self.advance();
                proof { self.lemma_kinds_here(); }
                if matches!(self.peek().kind, TokenKind::RBracket) {
                    self.advance();
                    break;
                }
            } else if matches!(self.peek().kind, TokenKind::RBracket) {
                self.advance();
                break;
            } else {
                return Err(self.unexpected("expected `,` or `]` in array pattern"));
            }
        }
        Ok(Pattern::Array { elements, span })
    }

    /// `{ field, field: pattern, .. }` after a struct pattern's name.
    #[verifier::rlimit(100)]
    #[verifier::spinoff_prover]
    fn parse_struct_pattern_after_name(&mut self, name: String, name_span: Span, type_args: Vec<TypeExpr>)
        -> (r: Result<Pattern, ParseError>)
        requires
            old(self).wf(),
        ensures
            moved_on(*old(self), *final(self)),
            r is Ok ==> old(self).pos() < final(self).pos(),
            r is Ok ==> r->Ok_0 is Struct,
            read_matches(struct_pattern_body_at(old(self).toks(), old(self).pos()), r is Ok, final(self).pos()),
        decreases old(self).remaining(), 1nat,
    {
        let ghost toks = self.toks();
        let ghost i0 = self.pos();
        let ghost sp = struct_pattern_body_at(toks, i0);
        proof { self.lemma_kinds_here(); }
        let span = self.peek().span;
        self.expect_lbrace()?;
        let mut fields: Vec<StructPatternField> = Vec::new();
        let mut rest: Option<Span> = None;
        proof { self.lemma_kinds_here(); }
        if matches!(self.peek().kind, TokenKind::RBrace) {
            self.advance();
            return Ok(Pattern::Struct { name, name_span, type_args, fields, rest, span });
        }
        loop
            invariant_except_break
                sp is Unread || sp == struct_fields_pattern_at(toks, self.pos(), rest is Some),
            invariant
                self.wf(),
                self.toks() == toks,
                toks == old(self).toks(),
                i0 == old(self).pos(),
                sp == struct_pattern_body_at(toks, i0),
                old(self).pos() < self.pos(),
            ensures
                sp is Unread || sp == ExprRead::Parsed(self.pos()),
            decreases self.remaining(),
        {
            proof { self.lemma_kinds_here(); }
            let ghost j = self.pos();
            let ghost rs0 = rest is Some;
            if matches!(self.peek().kind, TokenKind::DotDot) {
                if rest.is_some() {
                    return Err(self.unexpected("multiple `..` in struct pattern"));
                }
                rest = Some(self.peek().span);
                self.advance();
            } else if matches!(self.peek().kind, TokenKind::Identifier(_)) {
                let (field_name, field_name_span) = self.take_identifier()?;
                proof { self.lemma_kinds_here(); }
                let pattern = if matches!(self.peek().kind, TokenKind::Colon) {
                    self.advance();
                    proof { self.lemma_kinds_here(); }
                    if matches!(self.peek().kind, TokenKind::Underscore) {
                        let s = self.peek().span;
                        self.advance();
                        Pattern::Wildcard { span: s }
                    } else {
                        self.parse_pattern()?
                    }
                } else {
                    Pattern::Binding { name: field_name.clone(), name_span: field_name_span }
                };
                fields.push(StructPatternField { name: field_name, name_span: field_name_span, pattern });
            } else {
                return Err(self.unexpected("expected struct pattern field or `..`"));
            }
            proof { self.lemma_kinds_here(); }
            if matches!(self.peek().kind, TokenKind::Comma) {
                self.advance();
                proof { self.lemma_kinds_here(); }
                if matches!(self.peek().kind, TokenKind::RBrace) {
                    self.advance();
                    break;
                }
            } else if matches!(self.peek().kind, TokenKind::RBrace) {
                self.advance();
                break;
            } else {
                return Err(self.unexpected("expected `,` or `}` in struct pattern"));
            }
        }
        Ok(Pattern::Struct { name, name_span, type_args, fields, rest, span })
    }
}


/// Parameters with a default value come last; a `params` parameter has an array
/// type and only `params` parameters follow it.
pub open spec fn params_ok(ps: Seq<Param>) -> bool {
    &&& forall|i: int, j: int| 0 <= i < j < ps.len() && (#[trigger] ps[i]).default_value is Some
        ==> (#[trigger] ps[j]).default_value is Some
    &&& forall|i: int| 0 <= i < ps.len() && (#[trigger] ps[i]).is_params ==> ps[i].ty is Array
    &&& forall|i: int, j: int| 0 <= i < j < ps.len() && (#[trigger] ps[i]).is_params ==> (#[trigger] ps[j]).is_params
}

/// Generic parameters with a default come after those without one.
pub open spec fn type_params_ok(gs: Seq<GenericParam>) -> bool {
    forall|i: int, j: int| 0 <= i < j < gs.len() && (#[trigger] gs[i]).default is Some ==> (#[trigger] gs[j]).default is Some
}

/// What a top-level item of a parsed program satisfies: a global `let` has an
/// initializer and a simple pattern, a `const` binds a name; declarations keep the
/// parameter rules, and internal functions have no default values.
pub open spec fn top_level_item_ok(item: AstNode) -> bool {
    match item {
        AstNode::Let { pattern, initializer, is_const, .. } =>
            initializer is Some && (if is_const { pattern is Binding } else { top_level_pattern_ok(pattern) }),
        AstNode::InternalFunction { params, type_params, .. } =>
            params_ok(params@) && !has_default_param(params@) && type_params_ok(type_params@),
        AstNode::Function { params, type_params, .. } => params_ok(params@) && type_params_ok(type_params@),
        AstNode::StructDef { type_params, .. } => type_params_ok(type_params@),
        AstNode::EnumDef { type_params, .. } => type_params_ok(type_params@),
        AstNode::TypeAlias { type_params, .. } => type_params_ok(type_params@),
        _ => true,
    }
}

/// Some parameter has a default value.
pub open spec fn has_default_param(ps: Seq<Param>) -> bool {
    exists|i: int| 0 <= i < ps.len() && (#[trigger] ps[i]).default_value is Some
}

fn any_default_param(ps: &Vec<Param>) -> (r: bool)
    ensures
        r == has_default_param(ps@),
{
    let mut i: usize = 0;
    while i < ps.len()
        invariant
            i <= ps@.len(),
            forall|j: int| 0 <= j < i ==> (#[trigger] ps@[j]).default_value is None,
        decreases ps@.len() - i,
    {
        if ps[i].default_value.is_some() {
            return true;
        }
        i += 1;
    }
    false
}

/// `receiver::method`, the name under which an extension function is registered.
fn qualified_name(receiver: &String, method: &String) -> (r: String)
    ensures
        r@ == receiver@ + "::"@ + method@,
{
    let mut out: Vec<char> = Vec::new();
    push_str(&mut out, receiver.as_str());
    push_str(&mut out, "::");
    push_str(&mut out, method.as_str());
    proof {
        reveal_strlit("::");
    }
    chars_to_string(out.as_slice())
}

impl Parser {
    /// Parses the whole token stream into `AstNode::Program`.
    pub fn parse(&mut self) -> (r: Result<AstNode, ParseError>)
        requires
            old(self).wf(),
        ensures
            final(self).wf(),
            final(self).toks() == old(self).toks(),
            r is Ok ==> final(self).at_end() && r->Ok_0 is Program,
            r matches Ok(AstNode::Program(items)) ==> forall|i: int| 0 <= i < items@.len()
                ==> top_level_item_ok(#[trigger] items@[i]),
            read_matches(program_at(old(self).toks(), old(self).pos()), r is Ok, final(self).pos()),
            program_at(old(self).toks(), old(self).pos()) is Parsed ==> (r matches Ok(AstNode::Program(items))
                && items@.len() == program_len(old(self).toks(), old(self).pos())
                && item_shapes(items@) == program_shape(old(self).toks(), old(self).pos())),
            program_fail_at(old(self).toks(), old(self).pos()) matches Some(f)
                ==> (item_error_at(old(self).toks(), f) matches Some((msg, sp))
                    ==> (r matches Err(e) && unexpected_at(e, msg, sp))),
    {
        let ghost toks = self.toks();
        let ghost sp = program_at(toks, self.pos());
        let mut items: Vec<AstNode> = Vec::new();
        proof {
            reveal_strlit("func");
            reveal_strlit("internal");
            assert("func"@.len() != "internal"@.len());
            assert(item_shapes(items@) + program_shape(toks, self.pos()) =~= program_shape(toks, self.pos()));
        }
        while !self.is_at_end()
            invariant
                self.wf(),
                self.toks() == old(self).toks(),
                toks == old(self).toks(),
                forall|i: int| 0 <= i < items@.len() ==> top_level_item_ok(#[trigger] items@[i]),
                old(self).pos() <= self.pos(),
                sp == program_at(toks, old(self).pos()),
                sp is Unread || sp == program_at(toks, self.pos()),
                sp is Parsed ==> program_len(toks, old(self).pos()) == items@.len() + program_len(toks, self.pos()),
                sp is Parsed ==> program_shape(toks, old(self).pos()) == item_shapes(items@) + program_shape(toks, self.pos()),
                program_fail_at(toks, old(self).pos()) is Some
                    ==> program_fail_at(toks, old(self).pos()) == program_fail_at(toks, self.pos()),
            decreases self.remaining(),
        {
            proof { self.lemma_kinds_here(); }
            let ghost p0 = self.pos();
            let ghost before = items@;
            let item = match self.parse_top_level_item() {
                Ok(it) => it,
                Err(e) => {
                    proof {
                        if program_fail_at(toks, old(self).pos()) is Some {
                            assert(program_fail_at(toks, p0) == Some(p0));
                            reveal_strlit("func");
                            reveal_strlit("internal");
                            assert("func"@.len() != "internal"@.len());
                            assert(p0 < toks.len());
                            assert(old(self).toks() == toks);
                        }
                    }
                    return Err(e);
                },
            };
            items.push(item);
            proof {
                if program_fail_at(toks, old(self).pos()) is Some {
                    assert(program_fail_at(toks, p0) == program_fail_at(toks, self.pos()));
                }
                if sp is Parsed {
                    assert(program_len(toks, p0) == 1 + program_len(toks, self.pos()));
                    assert(program_shape(toks, p0) == seq![top_item_shape(toks, p0)] + program_shape(toks, self.pos()));
                    assert(item_shapes(items@) =~= item_shapes(before).push(item_shape(item)));
                    assert(item_shapes(before) + program_shape(toks, p0)
                        =~= item_shapes(items@) + program_shape(toks, self.pos()));
                }
            }
        }
        proof {
            self.lemma_kinds_here();
            assert(item_shapes(items@) + Seq::<ItemShape>::empty() =~= item_shapes(items@));
        }
        Ok(AstNode::Program(items))
    }

    /// What follows `export` at the top level (the cursor is on `export`).
    #[verifier::rlimit(100)]
    #[verifier::spinoff_prover]
    fn parse_export_item(&mut self) -> (r: Result<AstNode, ParseError>)
        requires
            old(self).wf(),
            old(self).current().kind is Export,
        ensures
            moved_on(*old(self), *final(self)),
            r is Ok ==> old(self).pos() < final(self).pos(),
            r matches Ok(item) ==> top_level_item_ok(item),
            read_matches(export_at(old(self).toks(), old(self).pos()), r is Ok, final(self).pos()),
            r is Ok && export_at(old(self).toks(), old(self).pos()) is Parsed
                ==> item_shape(r->Ok_0) == export_shape(old(self).toks(), old(self).pos()),
    {
        let ghost toks = self.toks();
        proof { self.lemma_kinds_here(); }
        let span = self.peek().span;
        self.advance();
        proof { self.lemma_kinds_here(); }
        let is_name = matches!(self.peek().kind, TokenKind::Identifier(_));
        if is_name && matches!(self.peek_n(1).kind, TokenKind::As) {
            let (from, _) = self.take_identifier()?;
            self.advance();
            proof { self.lemma_kinds_here(); }
            let (to, _) = self.take_identifier()?;
            proof { self.lemma_kinds_here(); }
            self.expect_semicolon()?;
            let node = AstNode::ExportAlias { from, to, span };
            proof { assert(item_shape(node) == ItemShape::ExportAlias) by { reveal(item_shape); } }
            return Ok(node);
        }
        if is_name && matches!(self.peek_n(1).kind, TokenKind::Semicolon) {
            let (name, name_span) = self.take_identifier()?;
            self.expect_semicolon()?;
            let node = AstNode::ExportName { name, name_span, span };
            proof { assert(item_shape(node) == ItemShape::ExportName) by { reveal(item_shape); } }
            return Ok(node);
        }
        let item = self.parse_exportable(span)?;
        proof { lemma_exported_shape(item); }
        self.mark_exported(item)
    }

    /// A declaration after `export` (the cursor is just after it); `span` is that of
    /// `export`.
    #[verifier::rlimit(100)]
    #[verifier::spinoff_prover]
    fn parse_exportable(&mut self, span: Span) -> (r: Result<AstNode, ParseError>)
        requires
            old(self).wf(),
        ensures
            moved_on(*old(self), *final(self)),
            r is Ok ==> old(self).pos() < final(self).pos(),
            r matches Ok(item) ==> top_level_item_ok(item) && exported_item(item) is Some,
            read_matches(exportable_at(old(self).toks(), old(self).pos()), r is Ok, final(self).pos()),
            r is Ok && exportable_at(old(self).toks(), old(self).pos()) is Parsed
                ==> item_shape(r->Ok_0) == exportable_shape(old(self).toks(), old(self).pos()),
    {
        let ghost toks = self.toks();
        proof { self.lemma_kinds_here(); }
        let word: u8 = match &self.peek().kind {
            TokenKind::Identifier(s) => if str_is(s, "internal") { 1 } else if str_is(s, "func") { 2 } else { 0 },
            _ => 0,
        };
        let item = if matches!(self.peek().kind, TokenKind::Struct) {
            self.parse_struct_definition(false)?
        } else if matches!(self.peek().kind, TokenKind::Enum) {
            self.parse_enum_definition(false)?
        } else if matches!(self.peek().kind, TokenKind::Type) {
            self.parse_type_alias_definition()?
        } else if matches!(self.peek().kind, TokenKind::Const) {
            self.parse_const_statement(true)?
        } else if matches!(self.peek().kind, TokenKind::Async) {
            self.advance();
            proof { self.lemma_kinds_here(); }
            self.expect_func_after_async()?;
            self.parse_function_definition(true)?
        } else if word == 1 {
            self.parse_internal_declaration()?
        } else if word == 2 {
            self.parse_function_definition(false)?
        } else {
            return Err(unexpected_token("expected exportable declaration after `export`", span));
        };
        Ok(item)
    }

    /// One top-level item.
    #[verifier::rlimit(100)]
    #[verifier::spinoff_prover]
    fn parse_top_level_item(&mut self) -> (r: Result<AstNode, ParseError>)
        requires
            old(self).wf(),
            !old(self).at_end(),
        ensures
            moved_on(*old(self), *final(self)),
            r is Ok ==> old(self).pos() < final(self).pos(),
            r matches Ok(item) ==> top_level_item_ok(item),
            read_matches(top_item_at(old(self).toks(), old(self).pos()), r is Ok, final(self).pos()),
            r is Ok && top_item_at(old(self).toks(), old(self).pos()) is Parsed
                ==> item_shape(r->Ok_0) == top_item_shape(old(self).toks(), old(self).pos()),
            old(self).current().kind is Let && let_lacks_initializer(old(self).toks(), old(self).pos(), true)
                ==> (r matches Err(e) && unexpected_at(e, "top-level `let` must have an initializer"@, old(self).current().span)),
            is_func_word(old(self).current().kind) && ident_text(old(self).current().kind) != "internal"@
                ==> (fn_params_error(old(self).toks(), old(self).pos() + 1) matches Some(q)
                ==> (r matches Err(e) && unexpected_at(e, "`params` parameter must be the last parameter"@,
                    old(self).toks()[q].span))),
            is_func_word(old(self).current().kind) && ident_text(old(self).current().kind) != "internal"@
                ==> (shorthand_arrow_at(old(self).toks(), old(self).pos() + 1) matches Some(k)
                ==> (r matches Err(e) && unexpected_at(e, "function shorthand now uses `=`; use `func name(args) = expr;`"@,
                    old(self).toks()[k].span))),
    {
        proof {
            self.lemma_kinds_here();
            lemma_top_item_at_let_func(self.toks(), self.pos());
        }
        if matches!(self.peek().kind, TokenKind::Let) {
            return self.parse_let_statement(true, true);
        }
        let word: u8 = match &self.peek().kind {
            TokenKind::Identifier(s) => if str_is(s, "internal") { 1 } else if str_is(s, "func") { 2 } else { 0 },
            _ => 0,
        };
        if word == 2 {
            return self.parse_function_definition(false);
        }
        self.parse_top_level_item_core()
    }

    #[verifier::rlimit(100)]
    #[verifier::spinoff_prover]
    fn parse_top_level_item_core(&mut self) -> (r: Result<AstNode, ParseError>)
        requires
            old(self).wf(),
            !old(self).at_end(),
        ensures
            moved_on(*old(self), *final(self)),
            r is Ok ==> old(self).pos() < final(self).pos(),
            r matches Ok(item) ==> top_level_item_ok(item),
            read_matches(top_item_at(old(self).toks(), old(self).pos()), r is Ok, final(self).pos()),
            r is Ok && top_item_at(old(self).toks(), old(self).pos()) is Parsed
                ==> item_shape(r->Ok_0) == top_item_shape(old(self).toks(), old(self).pos()),
    {
        proof { reveal(top_item_at); reveal(top_item_shape); }
        let ghost toks = self.toks();
        proof { self.lemma_kinds_here(); }
        let span = self.peek().span;
        if matches!(self.peek().kind, TokenKind::Import) {
            return self.parse_import_declaration();
        }
        if matches!(self.peek().kind, TokenKind::Export) {
            return self.parse_export_item();
        }
        if matches!(self.peek().kind, TokenKind::Let) {
            return self.parse_let_statement(true, true);
        }
        if matches!(self.peek().kind, TokenKind::Const) {
            return self.parse_const_statement(false);
        }
        if matches!(self.peek().kind, TokenKind::Struct) {
            return self.parse_struct_definition(false);
        }
        if matches!(self.peek().kind, TokenKind::Enum) {
            return self.parse_enum_definition(false);
        }
        if matches!(self.peek().kind, TokenKind::Type) {
            return self.parse_type_alias_definition();
        }
        if matches!(self.peek().kind, TokenKind::Async) {
            self.advance();
            proof { self.lemma_kinds_here(); }
            self.expect_func_after_async()?;
            return self.parse_function_definition(true);
        }
        let word: u8 = match &self.peek().kind {
            TokenKind::Identifier(s) => if str_is(s, "internal") { 1 } else if str_is(s, "func") { 2 } else { 3 },
            _ => 0,
        };
        if word == 1 {
            return self.parse_internal_declaration();
        }
        if word == 2 {
            return self.parse_function_definition(false);
        }
        if word == 3 {
            return self.parse_call_statement();
        }
        let simple = match &self.peek().kind {
            TokenKind::SingleLineComment(text) => Some(AstNode::SingleLineComment(text.clone())),
            TokenKind::MultiLineComment(text) => Some(AstNode::MultiLineComment(text.clone())),
            TokenKind::IntegerLiteral { value, original, radix } =>
                Some(AstNode::IntegerLiteral { value: *value, original: original.clone(), radix: *radix, span }),
            TokenKind::FloatLiteral { original, cleaned } =>
                Some(AstNode::FloatLiteral { original: original.clone(), cleaned: cleaned.clone(), span }),
            TokenKind::StringLiteral { value, original } =>
                Some(AstNode::StringLiteral { value: value.clone(), original: original.clone(), span }),
            _ => None,
        };
        match simple {
            Some(node) => {
                proof {
                    assert(item_shape(node) == top_item_shape(toks, old(self).pos())) by {
                        reveal(item_shape);
                    }
                }
                self.advance();
                return Ok(node);
            },
            None => {},
        }
        match self.peek().kind {
            TokenKind::Underscore | TokenKind::True | TokenKind::False | TokenKind::If | TokenKind::Else
            | TokenKind::While | TokenKind::Match | TokenKind::Break | TokenKind::Continue
            | TokenKind::Params | TokenKind::Await =>
                Err(unexpected_token("unexpected token at top level", span)),
            _ => Err(unexpected_token("unexpected punctuation", span)),
        }
    }

    /// `import { a, b as c } from "path";`
    fn parse_import_declaration(&mut self) -> (r: Result<AstNode, ParseError>)
        requires
            old(self).wf(),
        ensures
            moved_on(*old(self), *final(self)),
            r is Ok ==> old(self).pos() < final(self).pos(),
            r is Ok ==> r->Ok_0 is Import,
            old(self).pos() < old(self).toks().len() ==> read_matches(
                import_at(old(self).toks(), old(self).pos()),
                r is Ok,
                final(self).pos(),
            ),
            r is Ok ==> item_shape(r->Ok_0) == ItemShape::Import,
    {
        proof { reveal(item_shape); }
        let ghost toks = self.toks();
        let ghost i0 = self.pos();
        let span = self.peek().span;
        self.advance();
        proof { self.lemma_kinds_here(); }
        self.expect_lbrace()?;
        let mut bindings: Vec<ImportBinding> = Vec::new();
        proof { self.lemma_kinds_here(); }
        let ghost b = if kind_at(toks, self.pos(), 0) is RBrace {
            ExprRead::Parsed(self.pos())
        } else {
            import_bindings_at(toks, self.pos())
        };
        if !matches!(self.peek().kind, TokenKind::RBrace) {
            loop
                invariant_except_break
                    b == import_bindings_at(toks, self.pos()),
                invariant
                    self.wf(),
                    self.toks() == old(self).toks(),
                    toks == old(self).toks(),
                    old(self).pos() <= self.pos(),
                    i0 == old(self).pos(),
                    i0 < toks.len() ==> kind_at(toks, i0, 1) is LBrace && b == (if kind_at(toks, i0, 2) is RBrace {
                        ExprRead::Parsed(i0 + 2)
                    } else {
                        import_bindings_at(toks, i0 + 2)
                    }),
                ensures
                    b == ExprRead::Parsed(self.pos()),
                decreases self.remaining(),
            {
                proof { self.lemma_kinds_here(); }
                let (export_name, export_span) = self.take_identifier()?;
                proof { self.lemma_kinds_here(); }
                let (local_name, local_span) = if matches!(self.peek().kind, TokenKind::As) {
                    self.advance();
                    proof { self.lemma_kinds_here(); }
                    self.take_identifier()?
                } else {
                    (export_name.clone(), export_span)
                };
                bindings.push(ImportBinding { export_name, local_name, local_span });
                proof { self.lemma_kinds_here(); }
                if matches!(self.peek().kind, TokenKind::Comma) {
                    self.advance();
                } else {
                    break;
                }
            }
        }
        proof { self.lemma_kinds_here(); }
        self.expect_rbrace()?;
        proof { self.lemma_kinds_here(); }
        if !matches!(self.peek().kind, TokenKind::From) {
            return Err(self.unexpected("expected `from` in import declaration"));
        }
        self.advance();
        proof { self.lemma_kinds_here(); }
        let source_path = match &self.peek().kind {
            TokenKind::StringLiteral { value, .. } => Some(value.clone()),
            _ => None,
        };
        let source_path = match source_path {
            Some(p) => p,
            None => {
                return Err(self.unexpected("expected module path string literal after `from`"));
            },
        };
        self.advance();
        proof { self.lemma_kinds_here(); }
        self.expect_semicolon()?;
        Ok(AstNode::Import { bindings, source_path, span })
    }

    fn expect_func_after_async(&mut self) -> (r: Result<(), ParseError>)
        requires
            old(self).wf(),
        ensures
            moved_on(*old(self), *final(self)),
            r is Ok ==> old(self).pos() < final(self).pos(),
            r is Ok <==> (old(self).current().kind matches TokenKind::Identifier(s) && s@ == "func"@),
            r is Ok ==> final(self).pos() == old(self).pos() + 1,
            r matches Err(e) ==> unexpected_at(e, "expected `func` after `async`"@, old(self).current().span),
    {
        let is_func = match &self.peek().kind {
            TokenKind::Identifier(s) => str_is(s, "func"),
            _ => false,
        };
        if is_func {
            self.advance();
            Ok(())
        } else {
            Err(self.unexpected("expected `func` after `async`"))
        }
    }

    /// `internal func ...` or `internal async func ...` (the cursor is on `internal`).
    fn parse_internal_declaration(&mut self) -> (r: Result<AstNode, ParseError>)
        requires
            old(self).wf(),
        ensures
            moved_on(*old(self), *final(self)),
            r is Ok ==> old(self).pos() < final(self).pos(),
            r is Ok ==> r->Ok_0 is InternalFunction,
            r matches Ok(item) ==> top_level_item_ok(item),
            old(self).pos() < old(self).toks().len() ==> read_matches(
                internal_decl_at(old(self).toks(), old(self).pos()),
                r is Ok,
                final(self).pos(),
            ),
            r is Ok ==> item_shape(r->Ok_0) == ItemShape::Internal,
    {
        proof { reveal(item_shape); }
        let ghost toks = self.toks();
        self.advance();
        proof { self.lemma_kinds_here(); }
        if matches!(self.peek().kind, TokenKind::Export) {
            return Err(self.unexpected(
                "`internal` supports only `func`/`async func` declarations; structs/enums/types must be `export`/non-internal",
            ));
        }
        if matches!(self.peek().kind, TokenKind::Async) {
            self.advance();
            proof { self.lemma_kinds_here(); }
            self.expect_func_after_async()?;
            return self.parse_internal_function_declaration(true, true);
        }
        let is_func = match &self.peek().kind {
            TokenKind::Identifier(s) => str_is(s, "func"),
            _ => false,
        };
        if is_func {
            self.advance();
            return self.parse_internal_function_declaration(true, false);
        }
        Err(self.unexpected("expected `async func` or `func` after `internal`"))
    }

    /// `struct Name<T, ...> { field: Type, ... }` or `struct Name<T, ...>;`; an
    /// internal struct must be a unit struct.
    fn parse_struct_definition(&mut self, is_internal: bool) -> (r: Result<AstNode, ParseError>)
        requires
            old(self).wf(),
        ensures
            moved_on(*old(self), *final(self)),
            r is Ok ==> old(self).pos() < final(self).pos(),
            r matches Ok(AstNode::StructDef { is_unit, is_internal: internal, fields, is_exported, .. }) ==>
                !is_exported && internal == (is_internal && is_unit) && (is_unit ==> fields@.len() == 0),
            r is Ok ==> r->Ok_0 is StructDef,
            r matches Ok(item) ==> top_level_item_ok(item),
            old(self).pos() < old(self).toks().len() ==> read_matches(
                struct_def_at(old(self).toks(), old(self).pos(), is_internal),
                r is Ok,
                final(self).pos(),
            ),
            r is Ok ==> item_shape(r->Ok_0) == ItemShape::Struct,
    {
        proof { reveal(item_shape); }
        let ghost toks = self.toks();
        let ghost i0 = self.pos();
        let ghost sp = struct_def_at(toks, i0, is_internal);
        let span = self.peek().span;
        self.advance();
        proof { self.lemma_kinds_here(); }
        let (name, name_span) = self.take_identifier()?;
        let type_params = self.parse_optional_type_param_list()?;
        proof { self.lemma_kinds_here(); }
        if matches!(self.peek().kind, TokenKind::Semicolon) {
            self.advance();
            return Ok(AstNode::StructDef {
                name,
                type_params,
                fields: Vec::new(),
                is_unit: true,
                is_internal,
                name_span,
                span,
                is_exported: false,
            });
        }
        if is_internal {
            return Err(self.unexpected("`internal struct` must be a unit struct ending with `;`"));
        }
        self.expect_lbrace()?;
        let mut fields: Vec<StructFieldDecl> = Vec::new();
        proof { self.lemma_kinds_here(); }
        while !matches!(self.peek().kind, TokenKind::RBrace)
            invariant
                self.wf(),
                self.toks() == old(self).toks(),
                toks == old(self).toks(),
                i0 == old(self).pos(),
                old(self).pos() < self.pos(),
                i0 < toks.len() ==> sp == struct_def_at(toks, i0, is_internal),
                i0 < toks.len() ==> (sp is Unread || sp == struct_fields_decl_at(toks, self.pos())),
            decreases self.remaining(),
        {
            proof { self.lemma_kinds_here(); }
            if matches!(self.peek().kind, TokenKind::Eof) {
                return Err(ParseError::UnexpectedEof { expected: "}" });
            }
            if matches!(self.peek().kind, TokenKind::SingleLineComment(_) | TokenKind::MultiLineComment(_)) {
                self.advance();
                proof { self.lemma_kinds_here(); }
                continue;
            }
            let (field_name, field_name_span) = self.take_identifier()?;
            proof { self.lemma_kinds_here(); }
            self.expect_colon()?;
            let ty_span = self.peek().span;
            let ty = self.parse_type_expr()?;
            fields.push(StructFieldDecl { name: field_name, name_span: field_name_span, ty, ty_span });
            proof { self.lemma_kinds_here(); }
            if matches!(self.peek().kind, TokenKind::Comma) {
                self.advance();
                self.skip_comments();
            } else if !matches!(self.peek().kind, TokenKind::RBrace) {
                return Err(self.unexpected("expected `,` or `}` in struct definition"));
            }
            proof { self.lemma_kinds_here(); }
        }
        proof { self.lemma_kinds_here(); }
        self.expect_rbrace()?;
        Ok(AstNode::StructDef {
            name,
            type_params,
            fields,
            is_unit: false,
            is_internal: false,
            name_span,
            span,
            is_exported: false,
        })
    }

    /// `enum Name<T, U> { Variant, Other(T), ... }`
    fn parse_enum_definition(&mut self, is_internal: bool) -> (r: Result<AstNode, ParseError>)
        requires
            old(self).wf(),
        ensures
            moved_on(*old(self), *final(self)),
            r is Ok ==> old(self).pos() < final(self).pos(),
            r matches Ok(AstNode::EnumDef { is_internal: internal, is_exported, .. }) ==>
                !is_exported && internal == is_internal,
            r is Ok ==> r->Ok_0 is EnumDef,
            r matches Ok(item) ==> top_level_item_ok(item),
            old(self).pos() < old(self).toks().len() ==> read_matches(
                enum_def_at(old(self).toks(), old(self).pos()),
                r is Ok,
                final(self).pos(),
            ),
            r is Ok ==> item_shape(r->Ok_0) == ItemShape::Enum,
    {
        proof { reveal(item_shape); }
        let ghost toks = self.toks();
        let ghost i0 = self.pos();
        let ghost sp = enum_def_at(toks, i0);
        let span = self.peek().span;
        self.advance();
        proof { self.lemma_kinds_here(); }
        let (name, name_span) = self.take_identifier()?;
        let type_params = self.parse_optional_type_param_list()?;
        proof { self.lemma_kinds_here(); }
        self.expect_lbrace()?;
        let mut variants: Vec<EnumVariantDecl> = Vec::new();
        proof { self.lemma_kinds_here(); }
        while !matches!(self.peek().kind, TokenKind::RBrace)
            invariant_except_break
                i0 < toks.len() ==> (sp is Unread || sp == enum_variants_at(toks, self.pos())),
            invariant
                self.wf(),
                self.toks() == old(self).toks(),
                toks == old(self).toks(),
                i0 == old(self).pos(),
                old(self).pos() < self.pos(),
                i0 < toks.len() ==> sp == enum_def_at(toks, i0),
            ensures
                i0 < toks.len() ==> (sp is Unread || sp == ExprRead::Parsed(self.pos() + 1)),
                kind_at(toks, self.pos(), 0) is RBrace,
            decreases self.remaining(),
        {
            proof { self.lemma_kinds_here(); }
            if matches!(self.peek().kind, TokenKind::Eof) {
                return Err(ParseError::UnexpectedEof { expected: "}" });
            }
            if matches!(self.peek().kind, TokenKind::SingleLineComment(_) | TokenKind::MultiLineComment(_)) {
                self.advance();
                proof { self.lemma_kinds_here(); }
                continue;
            }
            let ghost variant_start = self.pos();
            let (variant_name, variant_name_span) = self.take_identifier()?;
            let mut payload_types: Vec<TypeExpr> = Vec::new();
            proof { self.lemma_kinds_here(); }
            let ghost g = if kind_at(toks, variant_start, 1) is LParen {
                if kind_at(toks, variant_start, 2) is RParen {
                    ExprRead::Parsed(variant_start + 3)
                } else {
                    type_list_at(toks, variant_start + 2)
                }
            } else {
                ExprRead::Parsed(variant_start + 1)
            };
            if matches!(self.peek().kind, TokenKind::LParen) {
                self.advance();
                proof { self.lemma_kinds_here(); }
                if !matches!(self.peek().kind, TokenKind::RParen) {
                    let ghost mut p = self.pos();
                    payload_types.push(self.parse_type_expr()?);
                    proof { self.lemma_kinds_here(); }
                    while matches!(self.peek().kind, TokenKind::Comma)
                        invariant
                            self.wf(),
                            self.toks() == old(self).toks(),
                            toks == old(self).toks(),
                            old(self).pos() < self.pos(),
                            variant_start < p < self.pos(),
                            0 <= variant_start < toks.len(),
                            kind_at(toks, variant_start, 0) is Identifier,
                            kind_at(toks, variant_start, 1) is LParen,
                            !(kind_at(toks, variant_start, 2) is RParen),
                            g == type_list_at(toks, variant_start + 2),
                            i0 == old(self).pos(),
                            i0 < toks.len() ==> sp == enum_def_at(toks, i0),
                            i0 < toks.len() ==> (sp is Unread || sp == enum_variants_at(toks, variant_start)),
                            g is Unread || g == type_list_at(toks, p),
                            g is Unread || (type_at(toks, p) matches TypeRead::Parsed(_, e) && e == self.pos()),
                        decreases self.remaining(),
                    {
                        self.advance();
                        proof { p = self.pos(); self.lemma_kinds_here(); }
                        payload_types.push(self.parse_type_expr()?);
                        proof { self.lemma_kinds_here(); }
                    }
                }
                proof { self.lemma_kinds_here(); }
                self.expect_rparen()?;
            }
            proof { assert(g is Unread || g == ExprRead::Parsed(self.pos())); }
            variants.push(EnumVariantDecl { name: variant_name, name_span: variant_name_span, payload_types });
            self.skip_comments();
            proof { self.lemma_kinds_here(); }
            if matches!(self.peek().kind, TokenKind::Comma) {
                self.advance();
                proof { self.lemma_kinds_here(); }
                if matches!(self.peek().kind, TokenKind::RBrace) {
                    break;
                }
            } else if matches!(self.peek().kind, TokenKind::RBrace) {
                break;
            } else {
                return Err(self.unexpected("expected `,` or `}` in enum variant list"));
            }
        }
        proof { self.lemma_kinds_here(); }
        self.expect_rbrace()?;
        Ok(AstNode::EnumDef { name, type_params, variants, is_internal, name_span, span, is_exported: false })
    }

    /// `type Name<T, ...> = TypeExpr;`
    fn parse_type_alias_definition(&mut self) -> (r: Result<AstNode, ParseError>)
        requires
            old(self).wf(),
        ensures
            moved_on(*old(self), *final(self)),
            r is Ok ==> old(self).pos() < final(self).pos(),
            r matches Ok(AstNode::TypeAlias { is_exported, .. }) ==> !is_exported,
            r is Ok ==> r->Ok_0 is TypeAlias,
            r matches Ok(item) ==> top_level_item_ok(item),
            old(self).pos() < old(self).toks().len() ==> read_matches(
                type_alias_at(old(self).toks(), old(self).pos()),
                r is Ok,
                final(self).pos(),
            ),
            r is Ok ==> item_shape(r->Ok_0) == ItemShape::Alias,
    {
        proof { reveal(item_shape); }
        let ghost toks = self.toks();
        let span = self.peek().span;
        self.advance();
        proof { self.lemma_kinds_here(); }
        let (name, name_span) = self.take_identifier()?;
        let type_params = self.parse_optional_type_param_list()?;
        proof { self.lemma_kinds_here(); }
        self.expect_eq()?;
        let target = self.parse_type_expr()?;
        proof { self.lemma_kinds_here(); }
        self.expect_semicolon()?;
        Ok(AstNode::TypeAlias { name, type_params, target, name_span, span, is_exported: false })
    }

    /// After `internal func` (or `internal async func`): a declaration without a body,
    /// `name<T>(params): Ret;` or `Receiver::method<T>(self, ...): Ret;`.
    fn parse_internal_function_declaration(&mut self, leading_func_already_consumed: bool, is_async: bool)
        -> (r: Result<AstNode, ParseError>)
        requires
            old(self).wf(),
        ensures
            moved_on(*old(self), *final(self)),
            r is Ok ==> old(self).pos() < final(self).pos(),
            r matches Ok(AstNode::InternalFunction { params, is_async: a, is_exported, .. }) ==>
                !has_default_param(params@) && a == is_async && !is_exported,
            r is Ok ==> r->Ok_0 is InternalFunction,
            r matches Ok(item) ==> top_level_item_ok(item),
            read_matches(
                if leading_func_already_consumed {
                    internal_fn_at(old(self).toks(), old(self).pos())
                } else if is_func_word(kind_at(old(self).toks(), old(self).pos(), 0)) {
                    internal_fn_at(old(self).toks(), old(self).pos() + 1)
                } else {
                    ExprRead::Failed
                },
                r is Ok,
                final(self).pos(),
            ),
    {
        let ghost toks = self.toks();
        proof { self.lemma_kinds_here(); }
        if !leading_func_already_consumed {
            let is_func = match &self.peek().kind {
                TokenKind::Identifier(s) => str_is(s, "func"),
                _ => false,
            };
            if !is_func {
                return Err(self.unexpected("expected `func`"));
            }
            self.advance();
        }
        let ghost s0 = self.pos();
        let ghost sp = internal_fn_at(toks, s0);
        proof { reveal(internal_fn_at); }
        let checkpoint = self.position;
        match self.parse_type_expr() {
            Ok(receiver_ty) => {
                proof { self.lemma_kinds_here(); }
                if matches!(self.peek().kind, TokenKind::ColonColon) {
                    proof { assert(receiver_ahead(toks, s0)); }
                    self.advance();
                    let (method_name, method_name_span) = self.take_identifier()?;
                    let type_params = self.parse_optional_type_param_list()?;
                    self.expect_lparen()?;
                    let params = self.parse_parameter_list(Some(&receiver_ty))?;
                    self.expect_rparen()?;
                    if any_default_param(&params) {
                        return Err(unexpected_token(
                            "internal functions cannot have parameters with default values",
                            method_name_span,
                        ));
                    }
                    let return_type = self.parse_optional_return_type_expr()?;
                    self.expect_semicolon()?;
                    let receiver_key = match Self::type_expr_receiver_key(&receiver_ty) {
                        Some(k) => k,
                        None => {
                            return Err(unexpected_token("extension receiver type must be concrete", method_name_span));
                        },
                    };
                    let name = qualified_name(&receiver_key, &method_name);
                    return Ok(AstNode::InternalFunction {
                        name,
                        type_params,
                        params,
                        return_type,
                        name_span: method_name_span,
                        is_exported: false,
                        is_async,
                    });
                }
            },
            Err(_) => {},
        }
        self.position = checkpoint;
        proof { self.lemma_kinds_here(); assert(self.pos() == s0); }
        let (name, name_span) = self.take_identifier()?;
        let type_params = self.parse_optional_type_param_list()?;
        proof { self.lemma_kinds_here(); }
        self.expect_lparen()?;
        let params = self.parse_parameter_list(None)?;
        proof { self.lemma_kinds_here(); }
        self.expect_rparen()?;
        if any_default_param(&params) {
            return Err(unexpected_token("internal functions cannot have parameters with default values", name_span));
        }
        proof { self.lemma_kinds_here(); }
        let return_type = self.parse_optional_return_type_expr()?;
        proof { self.lemma_kinds_here(); }
        self.expect_semicolon()?;
        Ok(AstNode::InternalFunction { name, type_params, params, return_type, name_span, is_exported: false, is_async })
    }

    /// `func name(params) { body }`, `func name(params): Type { body }`, the shorthand
    /// `func name(params) = expr;`, and extension functions `func Type::name(...)`.
    /// With `is_async`, `async func` was already consumed; otherwise the cursor is on `func`.
    fn parse_function_definition(&mut self, is_async: bool) -> (r: Result<AstNode, ParseError>)
        requires
            old(self).wf(),
        ensures
            moved_on(*old(self), *final(self)),
            r is Ok ==> old(self).pos() < final(self).pos(),
            r matches Ok(AstNode::Function { is_async: a, is_exported, .. }) ==> a == is_async && !is_exported,
            r is Ok ==> r->Ok_0 is Function,
            r matches Ok(item) ==> top_level_item_ok(item),
            is_async || old(self).pos() < old(self).toks().len() ==> read_matches(
                fn_def_at(old(self).toks(), if is_async { old(self).pos() } else { old(self).pos() + 1 }),
                r is Ok,
                final(self).pos(),
            ),
            is_async || old(self).pos() < old(self).toks().len() ==> (
                shorthand_arrow_at(old(self).toks(), if is_async { old(self).pos() } else { old(self).pos() + 1 }) matches Some(k)
                ==> (r matches Err(e) && unexpected_at(e, "function shorthand now uses `=`; use `func name(args) = expr;`"@,
                    old(self).toks()[k].span))),
            is_async || old(self).pos() < old(self).toks().len() ==> (
                fn_params_error(old(self).toks(), if is_async { old(self).pos() } else { old(self).pos() + 1 }) matches Some(q)
                ==> (r matches Err(e) && unexpected_at(e, "`params` parameter must be the last parameter"@,
                    old(self).toks()[q].span))),
            is_async || old(self).pos() < old(self).toks().len() ==> (
                r is Ok && fn_def_at(old(self).toks(), if is_async { old(self).pos() } else { old(self).pos() + 1 }) is Parsed
                ==> item_shape(r->Ok_0) == fn_shape(old(self).toks(), if is_async { old(self).pos() } else { old(self).pos() + 1 })),
    {
        proof { reveal(fn_params_error); }
        proof { reveal(shorthand_arrow_at); }
        let ghost toks = self.toks();
        if !is_async {
            self.advance();
        }
        let ghost s0 = self.pos();
        let ghost sp = fn_def_at(toks, s0);
        proof { reveal(fn_def_at); }
        proof { self.lemma_kinds_here(); }
        let checkpoint = self.position;
        let mut receiver: Option<TypeExpr> = None;
        if matches!(self.peek().kind, TokenKind::Identifier(_) | TokenKind::LParen | TokenKind::LBracket) {
            match self.parse_type_expr() {
                Ok(ty) => {
                    proof { self.lemma_kinds_here(); }
                    if matches!(self.peek().kind, TokenKind::ColonColon) {
                        self.advance();
                        receiver = Some(ty);
                    } else {
                        self.position = checkpoint;
                    }
                },
                Err(_) => {
                    self.position = checkpoint;
                },
            }
        }
        proof { self.lemma_kinds_here(); }
        assert(receiver is Some ==> sp is Unread);
        assert(receiver is Some ==> receiver_ahead(toks, s0));
        assert(receiver is None ==> self.pos() == s0);
        let (method_name, name_span) = self.take_identifier()?;
        let mut name = method_name.clone();
        let extension_receiver = match receiver {
            Some(ty) => {
                let rcv = match Self::type_expr_receiver_key(&ty) {
                    Some(k) => k,
                    None => {
                        return Err(unexpected_token(
                            "extension receiver type must be a concrete type usable at compile time",
                            name_span,
                        ));
                    },
                };
                name = qualified_name(&rcv, &method_name);
                Some(ExtensionReceiver { ty, method_name })
            },
            None => None,
        };
        let ghost name_v = name@;
        let type_params = self.parse_optional_type_param_list()?;
        proof { self.lemma_kinds_here(); }
        let ghost j = self.pos();
        self.expect_lparen()?;
        let params = match &extension_receiver {
            Some(ext) => self.parse_parameter_list(Some(&ext.ty))?,
            None => self.parse_parameter_list(None)?,
        };
        proof { self.lemma_kinds_here(); }
        let ghost m = self.pos();
        let ghost pv = params_shapes(params@);
        self.expect_rparen()?;
        proof { self.lemma_kinds_here(); }
        let return_type = self.parse_optional_return_type_expr()?;
        proof { self.lemma_kinds_here(); }
        let ghost k = self.pos();
        let ghost rt = opt_type_shape(return_type);
        proof {
            if self.current().kind is FatArrow {
                assert(self.current() == toks[self.pos()]);
            }
            if sp is Parsed {
                assert(type_params_at(toks, s0 + 1) matches TypeParamsRead::Done(_, jj) && jj == j);
                assert(param_list_at(toks, j + 1, false) matches ParamListRead::Done(mm, _) && mm == m);
                assert(sig_ret_shape(toks, s0) == rt);
                assert(signature_at(toks, s0) matches SigRead::Done(kk, _) && kk == k);
                assert(name_v == ident_text(kind_at(toks, s0, 0)));
                assert(pv == params_shape(toks, j + 1));
            }
        }
        let (body, closing_span) = self.parse_function_body()?;
        let ghost bs = stmt_shapes(body@);
        let node = AstNode::Function {
            name,
            extension_receiver,
            type_params,
            params,
            return_type,
            body,
            name_span,
            closing_span,
            is_exported: false,
            is_async,
        };
        proof {
            assert(item_shape(node) == ItemShape::Function { name: name_v, params: pv, ret: rt, body: bs }) by {
                reveal(item_shape);
            }
        }
        Ok(node)
    }

    /// The body of a function after its signature: `= expr;` or `{ statements }`,
    /// with the span of the token that closes it.
    #[verifier::rlimit(100)]
    #[verifier::spinoff_prover]
    fn parse_function_body(&mut self) -> (r: Result<(Vec<AstNode>, Span), ParseError>)
        requires
            old(self).wf(),
        ensures
            moved_on(*old(self), *final(self)),
            r is Ok ==> old(self).pos() < final(self).pos(),
            read_matches(fn_body_at(old(self).toks(), old(self).pos()), r is Ok, final(self).pos()),
            r is Ok && fn_body_at(old(self).toks(), old(self).pos()) is Parsed
                ==> stmt_shapes(r->Ok_0.0@) == fn_body_shape(old(self).toks(), old(self).pos()),
            old(self).current().kind is FatArrow ==> (r matches Err(e) && unexpected_at(e,
                "function shorthand now uses `=`; use `func name(args) = expr;`"@, old(self).current().span)),
    {
        let ghost toks = self.toks();
        proof { self.lemma_kinds_here(); }
        if matches!(self.peek().kind, TokenKind::Eq) {
            let eq_span = self.peek().span;
            self.advance();
            let expr = self.parse_expression()?;
            proof { self.lemma_kinds_here(); }
            let closing_span = self.peek().span;
            self.expect_semicolon()?;
            let mut body: Vec<AstNode> = Vec::new();
            body.push(AstNode::Return { value: Some(Box::new(expr)), span: eq_span });
            proof {
                assert(body@.drop_last() =~= Seq::<AstNode>::empty());
                assert(stmt_shapes(Seq::<AstNode>::empty()) =~= Seq::<StmtShape>::empty());
                assert(stmt_shape(body@[0]) == StmtShape::Return(Some(expr_shape(expr))));
                assert(stmt_shapes(body@) =~= seq![StmtShape::Return(Some(expr_shape(expr)))]);
            }
            Ok((body, closing_span))
        } else if matches!(self.peek().kind, TokenKind::FatArrow) {
            Err(self.unexpected("function shorthand now uses `=`; use `func name(args) = expr;`"))
        } else {
            self.expect_lbrace()?;
            let body = self.parse_block_items_until_rbrace()?;
            proof { self.lemma_kinds_here(); }
            let closing_span = self.peek().span;
            self.expect_rbrace()?;
            Ok((body, closing_span))
        }
    }

    /// `<T, U = Default, ...>` when the cursor is on `<`, else no parameters.
    /// Parameters without a default must come before those with one.
    fn parse_optional_type_param_list(&mut self) -> (r: Result<Vec<GenericParam>, ParseError>)
        requires
            old(self).wf(),
        ensures
            moved_on(*old(self), *final(self)),
            !(old(self).current().kind is Lt) ==> (r matches Ok(v) && v@.len() == 0 && final(self).pos() == old(self).pos()),
            r matches Ok(v) ==> forall|i: int, j: int| 0 <= i < j < v@.len() && (#[trigger] v@[i]).default is Some
                ==> (#[trigger] v@[j]).default is Some,
            match type_params_at(old(self).toks(), old(self).pos()) {
                TypeParamsRead::Done(ps, j) => r matches Ok(v) && type_param_summaries(v@) == ps && final(self).pos() == j,
                TypeParamsRead::Failed => r is Err,
                TypeParamsRead::Unread => true,
            },
    {
        let ghost toks = self.toks();
        let ghost sp = type_params_at(toks, self.pos());
        proof { self.lemma_kinds_here(); }
        if !matches!(self.peek().kind, TokenKind::Lt) {
            let out: Vec<GenericParam> = Vec::new();
            proof { assert(type_param_summaries(out@) =~= Seq::<(Seq<char>, bool)>::empty()); }
            return Ok(out);
        }
        self.advance();
        let mut out: Vec<GenericParam> = Vec::new();
        let mut saw_default = false;
        proof { assert(type_param_summaries(out@) =~= Seq::<(Seq<char>, bool)>::empty()); }
        loop
            invariant
                self.wf(),
                self.toks() == old(self).toks(),
                toks == old(self).toks(),
                sp == type_params_at(toks, old(self).pos()),
                old(self).pos() < self.pos(),
                old(self).current().kind is Lt,
                !saw_default ==> forall|i: int| 0 <= i < out@.len() ==> (#[trigger] out@[i]).default is None,
                forall|i: int, j: int| 0 <= i < j < out@.len() && (#[trigger] out@[i]).default is Some
                    ==> (#[trigger] out@[j]).default is Some,
                sp is Unread || sp == type_params_from(toks, self.pos(), type_param_summaries(out@), saw_default),
            decreases self.remaining(),
        {
            proof { self.lemma_kinds_here(); }
            let (name, name_span) = self.take_identifier()?;
            proof { self.lemma_kinds_here(); }
            let default = if matches!(self.peek().kind, TokenKind::Eq) {
                saw_default = true;
                self.advance();
                Some(self.parse_type_expr()?)
            } else {
                if saw_default {
                    return Err(self.unexpected(
                        "generic parameters without defaults must come before parameters with defaults",
                    ));
                }
                None
            };
            let ghost before = out@;
            out.push(GenericParam { name, name_span, default });
            proof {
                assert forall|i: int| 0 <= i < out@.len() - 1 implies out@[i] == before[i] by {}
                assert(type_param_summaries(out@) =~= type_param_summaries(before).push(type_param_summary(out@.last())));
                self.lemma_kinds_here();
            }
            if matches!(self.peek().kind, TokenKind::Comma) {
                self.advance();
            } else if matches!(self.peek().kind, TokenKind::Gt) {
                self.advance();
                return Ok(out);
            } else {
                return Err(self.unexpected("expected `,` or `>` in generic parameter list"));
            }
        }
    }

    /// `: Type` when the cursor is on `:`, else nothing.
    fn parse_optional_return_type_expr(&mut self) -> (r: Result<Option<TypeExpr>, ParseError>)
        requires
            old(self).wf(),
        ensures
            moved_on(*old(self), *final(self)),
            !(old(self).current().kind is Colon) ==> r == Ok::<Option<TypeExpr>, ParseError>(None)
                && final(self).pos() == old(self).pos(),
            old(self).current().kind is Colon ==> (r is Ok ==> r->Ok_0 is Some),
            old(self).current().kind is Colon ==> match type_at(old(self).toks(), old(self).pos() + 1) {
                TypeRead::Parsed(sh, k) => r matches Ok(Some(t)) && shape_of(t) == sh && final(self).pos() == k,
                TypeRead::Failed => r is Err,
                TypeRead::Unread => true,
            },
    {
        proof { self.lemma_kinds_here(); }
        if matches!(self.peek().kind, TokenKind::Colon) {
            self.advance();
            Ok(Some(self.parse_type_expr()?))
        } else {
            Ok(None)
        }
    }

    /// Parameters up to (not including) `)`. With an extension receiver type, a
    /// first parameter `self` without a type takes the receiver's type.
    #[verifier::rlimit(100)]
    #[verifier::spinoff_prover]
    fn parse_parameter_list(&mut self, ext_receiver_ty: Option<&TypeExpr>) -> (r: Result<Vec<Param>, ParseError>)
        requires
            old(self).wf(),
        ensures
            moved_on(*old(self), *final(self)),
            r is Ok ==> final(self).current().kind is RParen,
            r matches Ok(ps) ==> forall|i: int| 0 <= i < ps@.len() && (#[trigger] ps@[i]).is_params
                ==> ps@[i].ty is Array,
            r matches Ok(ps) ==> forall|i: int, j: int| 0 <= i < j < ps@.len() && (#[trigger] ps@[i]).is_params
                ==> (#[trigger] ps@[j]).is_params,
            r matches Ok(ps) ==> forall|i: int, j: int| 0 <= i < j < ps@.len() && (#[trigger] ps@[i]).default_value is Some
                ==> (#[trigger] ps@[j]).default_value is Some,
            ext_receiver_ty is None ==> (params_order_error(old(self).toks(), old(self).pos()) matches Some(q)
                ==> (r matches Err(e) && unexpected_at(e, "`params` parameter must be the last parameter"@,
                    old(self).toks()[q].span))),
            ext_receiver_ty is None && param_list_at(old(self).toks(), old(self).pos(), false) is Done
                ==> (r matches Ok(ps) && params_shapes(ps@) == params_shape(old(self).toks(), old(self).pos())),
            match param_list_at(old(self).toks(), old(self).pos(), ext_receiver_ty is Some) {
                ParamListRead::Done(m, d) => r matches Ok(ps) && final(self).pos() == m && has_default_param(ps@) == d,
                ParamListRead::Failed => r is Err,
                ParamListRead::Unread => true,
            },
    {
        let ghost toks = self.toks();
        let ghost sp = param_list_at(toks, self.pos(), ext_receiver_ty is Some);
        let mut params: Vec<Param> = Vec::new();
        let mut seen_default = false;
        let mut seen_params = false;
        proof { self.lemma_kinds_here(); }
        if matches!(self.peek().kind, TokenKind::RParen) {
            proof { assert(params_shapes(params@) =~= Seq::<ParamShape>::empty()); }
            return Ok(params);
        }
        proof { assert(params_shapes(params@) + param_items_shape(toks, self.pos()) =~= param_items_shape(toks, self.pos())); }
        loop
            invariant
                self.wf(),
                self.toks() == old(self).toks(),
                toks == old(self).toks(),
                sp == param_list_at(toks, old(self).pos(), ext_receiver_ty is Some),
                sp is Unread || sp == param_items_at(toks, self.pos(), params@.len() == 0, ext_receiver_ty is Some,
                    seen_default, seen_params),
                params@.len() == 0 ==> !seen_params && !seen_default,
                ext_receiver_ty is None && params_order_error(toks, old(self).pos()) is Some
                    ==> params_order_error(toks, old(self).pos())
                        == params_order_error_at(toks, self.pos(), seen_default, seen_params),
                ext_receiver_ty is None && sp is Done ==> params_shape(toks, old(self).pos())
                    == params_shapes(params@) + param_items_shape(toks, self.pos()),
                seen_default == has_default_param(params@),
                old(self).pos() <= self.pos(),
                !seen_default ==> forall|i: int| 0 <= i < params@.len() ==> (#[trigger] params@[i]).default_value is None,
                !seen_params ==> forall|i: int| 0 <= i < params@.len() ==> !(#[trigger] params@[i]).is_params,
                forall|i: int| 0 <= i < params@.len() && (#[trigger] params@[i]).is_params
                    ==> params@[i].ty is Array,
                forall|i: int, j: int| 0 <= i < j < params@.len() && (#[trigger] params@[i]).is_params
                    ==> (#[trigger] params@[j]).is_params,
                forall|i: int, j: int| 0 <= i < j < params@.len() && (#[trigger] params@[i]).default_value is Some
                    ==> (#[trigger] params@[j]).default_value is Some,
            decreases self.remaining(),
        {
            let ghost i = self.pos();
            proof { self.lemma_kinds_here(); }
            let is_params = matches!(self.peek().kind, TokenKind::Params);
            if is_params {
                self.advance();
            }
            proof { self.lemma_kinds_here(); }
            let name_span = self.peek().span;
            let is_wildcard = matches!(self.peek().kind, TokenKind::Underscore);
            let name = if is_wildcard {
                self.advance();
                lit("_")
            } else if matches!(self.peek().kind, TokenKind::Identifier(_)) {
                let (n, _) = self.take_identifier()?;
                n
            } else {
                return Err(self.unexpected("expected parameter name or `_`"));
            };
            proof { self.lemma_kinds_here(); }
            let implicit_self = params.len() == 0 && !is_wildcard && str_is(&name, "self")
                && !matches!(self.peek().kind, TokenKind::Colon);
            let ty = match ext_receiver_ty {
                Some(t) if implicit_self => t.clone(),
                _ => {
                    self.expect_colon()?;
                    self.parse_type_expr()?
                },
            };
            proof { self.lemma_kinds_here(); }
            if is_params {
                if !matches!(ty, TypeExpr::Array(_)) {
                    return Err(unexpected_token("`params` parameter must have array type `[T]`", name_span));
                }
            } else if seen_params {
                proof {
                    if ext_receiver_ty is None && params_order_error(toks, old(self).pos()) is Some {
                        assert(params_order_error_at(toks, i, seen_default, seen_params) == Some(if is_params { i + 1 } else { i }));
                    }
                }
                return Err(unexpected_token("`params` parameter must be the last parameter", name_span));
            }
            let ghost e = self.pos();
            let ghost sd0 = seen_default;
            let default_value = if matches!(self.peek().kind, TokenKind::Eq) {
                self.advance();
                seen_default = true;
                Some(Box::new(self.parse_expression()?))
            } else {
                if seen_default {
                    return Err(self.unexpected("parameters without default value cannot follow defaulted parameters"));
                }
                None
            };
            proof { self.lemma_kinds_here(); }
            let ghost old_seen_params = seen_params;
            if is_params {
                seen_params = true;
            }
            let ghost before = params@;
            let ghost m = self.pos();
            params.push(Param { name, name_span, is_wildcard, is_params, ty, default_value });
            proof {
                assert(params_shapes(params@) =~= params_shapes(before).push(param_shape_of(params@.last())));
                assert forall|i: int| 0 <= i < params@.len() - 1 implies params@[i] == before[i] by {}
                if has_default_param(params@) && !has_default_param(before) {
                    let w = choose|k: int| 0 <= k < params@.len() && (#[trigger] params@[k]).default_value is Some;
                    assert(w == params@.len() - 1);
                }
                if has_default_param(before) {
                    let w = choose|k: int| 0 <= k < before.len() && (#[trigger] before[k]).default_value is Some;
                    assert(params@[w] == before[w]);
                }
                if params@.last().default_value is Some {
                    assert(params@[params@.len() - 1].default_value is Some);
                }
            }
            if matches!(self.peek().kind, TokenKind::Comma) {
                self.advance();
                proof { self.lemma_kinds_here(); }
                if matches!(self.peek().kind, TokenKind::RParen) {
                    return Err(self.unexpected("trailing comma in parameter list"));
                }
                proof {
                    if ext_receiver_ty is None && params_order_error(toks, old(self).pos()) is Some {
                        assert(params_order_error_at(toks, i, sd0, old_seen_params)
                            == params_order_error_at(toks, self.pos(), seen_default, seen_params));
                    }
                    if ext_receiver_ty is None && sp is Done {
                        assert(param_items_shape(toks, i) == seq![param_shape_of(params@.last())] + param_items_shape(toks, m + 1));
                        assert(params_shapes(before) + param_items_shape(toks, i)
                            =~= params_shapes(params@) + param_items_shape(toks, self.pos()));
                    }
                }
            } else if matches!(self.peek().kind, TokenKind::RParen) {
                proof {
                    if ext_receiver_ty is None && sp is Done {
                        assert(param_items_shape(toks, i) == seq![param_shape_of(params@.last())]);
                        assert(params_shapes(before) + param_items_shape(toks, i) =~= params_shapes(params@));
                    }
                }
                return Ok(params);
            } else {
                return Err(self.unexpected("expected `,` or `)`"));
            }
        }
    }

    /// A top-level call statement `name(args);` or `name<T>(args);`.
    fn parse_call_statement(&mut self) -> (r: Result<AstNode, ParseError>)
        requires
            old(self).wf(),
        ensures
            moved_on(*old(self), *final(self)),
            r is Ok ==> old(self).pos() < final(self).pos(),
            r is Ok ==> r->Ok_0 is Call,
            read_matches(call_stmt_at(old(self).toks(), old(self).pos()), r is Ok, final(self).pos()),
            r matches Ok(AstNode::Call { callee, .. }) ==> kind_at(old(self).toks(), old(self).pos(), 0)
                == TokenKind::Identifier(callee),
            r is Ok ==> item_shape(r->Ok_0) == ItemShape::Call,
    {
        proof { reveal(item_shape); }
        let ghost toks = self.toks();
        proof { self.lemma_kinds_here(); }
        let (callee, span) = self.take_identifier()?;
        proof { self.lemma_kinds_here(); }
        if matches!(self.peek().kind, TokenKind::Lt) {
            if !self.lt_starts_generic_args() {
                return Err(self.unexpected("expected call argument list after generic arguments"));
            }
            self.advance();
            let type_args = self.parse_generic_args()?;
            proof { self.lemma_kinds_here(); }
            self.expect_lparen()?;
            proof { lemma_list_done_at_rparen(toks, self.pos(), true); }
            let arguments = self.parse_call_argument_list()?;
            proof { self.lemma_kinds_here(); }
            self.expect_rparen()?;
            proof { self.lemma_kinds_here(); }
            self.expect_semicolon()?;
            return Ok(AstNode::Call { callee, type_args, arguments, span });
        }
        self.finish_call_after_callee(callee, span)
    }
}


/// `src` reads as a sequence of tokens separated by whitespace.
pub open spec fn source_lexes(src: Seq<char>) -> bool {
    exists|toks: Seq<Token>, starts: Seq<int>, ends: Seq<int>| lexed(src, None, 0, toks, starts, ends, src.len() as int)
}

/// `toks` are a lexing of the whole of `src` followed by an end-of-file token.
pub open spec fn lexes_to(src: Seq<char>, toks: Seq<Token>) -> bool {
    &&& toks.len() >= 1
    &&& toks.last().kind == TokenKind::Eof
    &&& exists|starts: Seq<int>, ends: Seq<int>| lexed(src, None, 0, toks.drop_last(), starts, ends, src.len() as int)
}

/// What parsing a whole fragment as a type gives, by what the type grammar reads from
/// its first token: the type when it ends at the end of the input, else an error.
pub open spec fn whole_type_result(tr: TypeRead, toks: Seq<Token>, r: Result<TypeExpr, ParseError>) -> bool {
    match tr {
        TypeRead::Parsed(sh, j) => if kind_at(toks, j, 0) is Eof {
            r matches Ok(t) && shape_of(t) == sh
        } else {
            r matches Err(e) && unexpected_at(e, "expected end of type expression"@, toks[j].span)
        },
        TypeRead::Failed => r is Err,
        TypeRead::Unread => true,
    }
}

impl Parser {
    /// Parses a single type expression from source text (a whole fragment such as
    /// `Option<Int>`); anything after the type is an error.
    pub fn parse_type_expr_from_source(source: &str) -> (r: Result<TypeExpr, ParseError>)
        ensures
            r is Ok ==> source_lexes(source@),
            !source_lexes(source@) ==> (r matches Err(ParseError::UnexpectedToken { message, span: Some(sp) })
                && lex_failure(source@, None, 0, message@, sp)),
            source_lexes(source@) ==> exists|toks: Seq<Token>| #[trigger] lexes_to(source@, toks)
                && whole_type_result(type_at(toks, 0), toks, r),
    {
        let mut lexer = Lexer::new(source);
        let tokens = match lexer.tokenize() {
            Ok(t) => t,
            Err(e) => {
                proof {
                    lemma_failure_has_no_lexing(source@, None, 0, e.message@, e.span);
                }
                return Err(ParseError::UnexpectedToken { message: e.message, span: Some(e.span) });
            },
        };
        proof {
            assert(source_lexes(source@));
            assert(lexes_to(source@, tokens@));
        }
        let ghost toks = tokens@;
        let mut parser = Parser::new(tokens);
        let ty = parser.parse_type_expr()?;
        proof {
            parser.lemma_kinds_here();
        }
        if !parser.is_at_end() {
            proof { assert(parser.current() == toks[parser.pos()]); }
            return Err(parser.unexpected("expected end of type expression"));
        }
        Ok(ty)
    }
}

} // verus!
