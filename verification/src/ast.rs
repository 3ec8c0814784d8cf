//! The parsed-program tree that the resolver consumes.
//!
//! A program is a sequence of top-level statements per source file: type
//! signatures, tag declarations and function declarations.  Arithmetic,
//! matching and destructuring appear in the grammar but are deliberately not
//! interpreted yet; their shapes are kept so that they can become new
//! dispatch cases later.
//!
//! Each tree type has a spec-level view (`expression_view` and friends) that
//! replaces every string by its characters; contracts about trees that were
//! cloned rather than moved are stated over these views.

use vstd::prelude::*;

verus! {

broadcast use vstd::std_specs::vec::group_vec_axioms;

/// Operator symbols of the surface syntax.
#[derive(Debug, Clone, Copy, PartialEq, Eq, Structural)]
pub enum OpSymbol {
    Plus,
    Minus,
    Star,
    ForwardSlash,
    LAngleBracket,
    RAngleBracket,
    Circumflex,
}

/// Patterns, as used by matching and destructuring.
#[derive(Debug, PartialEq, Eq)]
pub enum Pattern {
    Wildcard,
    Range { start: Option<Box<Pattern>>, end: Option<Box<Pattern>> },
    Integer(i128),
    Identifier(String),
    StringLiteral(String),
}

/// A tag expression: an intersection tree over tag identifiers.  An
/// identifier marked as primary in the source carries its own shape.
#[derive(Debug, PartialEq, Eq)]
pub enum TagExpression {
    OpCall { op: OpSymbol, args: Vec<TagExpression> },
    PrimaryIdentifier(String),
    Identifier(String),
}

/// Types, as they appear in type and tag declarations.
#[derive(Debug, PartialEq, Eq)]
pub enum Type {
    FnSig { args: Vec<Type>, ret: Box<Type> },
    Nat(i128),
    Identifier(String),
    Tag(TagExpression),
}

/// Expressions.  Only integer and string literals, identifiers and calls
/// are interpreted so far.
#[derive(Debug, PartialEq, Eq)]
pub enum Expression {
    OpCall { op: OpSymbol, args: Vec<Expression> },
    FnCall { name: String, args: Vec<Expression> },
    Match { expr: Box<Expression>, args: Vec<Expression> },
    Destructure { pat: Pattern, body: Vec<Expression> },
    ValueDecl { pat: Pattern, expr: Box<Expression> },
    ValueAssign { pat: Pattern, expr: Box<Expression> },
    TypeDecl { ty: Type, expr: Box<Expression> },
    Integer(i128),
    Identifier(String),
    StringLiteral(String),
    List(Vec<Expression>),
}

/// Top-level statements.
#[derive(Debug, PartialEq, Eq)]
pub enum Statement {
    FnDecl { name: String, args: Vec<String>, body: Vec<Expression> },
    TypeDecl { name: String, body: Type },
    ValueDecl { pat: Pattern, expr: Expression },
    Expression(Expression),
}

/// Spec-level [`Pattern`], strings as their characters.
pub enum PatternView {
    Wildcard,
    Range { start: Option<Box<PatternView>>, end: Option<Box<PatternView>> },
    Integer(int),
    Identifier(Seq<char>),
    StringLiteral(Seq<char>),
}

/// Spec-level [`TagExpression`].
pub enum TagExpressionView {
    OpCall { op: OpSymbol, args: Seq<TagExpressionView> },
    PrimaryIdentifier(Seq<char>),
    Identifier(Seq<char>),
}

/// Spec-level [`Type`].
pub enum TypeView {
    FnSig { args: Seq<TypeView>, ret: Box<TypeView> },
    Nat(int),
    Identifier(Seq<char>),
    Tag(TagExpressionView),
}

/// Spec-level [`Expression`].
pub enum ExpressionView {
    OpCall { op: OpSymbol, args: Seq<ExpressionView> },
    FnCall { name: Seq<char>, args: Seq<ExpressionView> },
    Match { expr: Box<ExpressionView>, args: Seq<ExpressionView> },
    Destructure { pat: PatternView, body: Seq<ExpressionView> },
    ValueDecl { pat: PatternView, expr: Box<ExpressionView> },
    ValueAssign { pat: PatternView, expr: Box<ExpressionView> },
    TypeDecl { ty: TypeView, expr: Box<ExpressionView> },
    Integer(int),
    Identifier(Seq<char>),
    StringLiteral(Seq<char>),
    List(Seq<ExpressionView>),
}

pub open spec fn pattern_view(p: Pattern) -> PatternView
    decreases p,
{
    match p {
        Pattern::Wildcard => PatternView::Wildcard,
        Pattern::Range { start, end } => PatternView::Range {
            start: match start {
                Some(b) => Some(Box::new(pattern_view(*b))),
                None => None,
            },
            end: match end {
                Some(b) => Some(Box::new(pattern_view(*b))),
                None => None,
            },
        },
        Pattern::Integer(i) => PatternView::Integer(i as int),
        Pattern::Identifier(s) => PatternView::Identifier(s@),
        Pattern::StringLiteral(s) => PatternView::StringLiteral(s@),
    }
}

pub open spec fn tag_expression_view(t: TagExpression) -> TagExpressionView
    decreases t,
{
    match t {
        TagExpression::OpCall { op, args } => TagExpressionView::OpCall {
            op,
            args: tag_expression_seq_view(args@),
        },
        TagExpression::PrimaryIdentifier(s) => TagExpressionView::PrimaryIdentifier(s@),
        TagExpression::Identifier(s) => TagExpressionView::Identifier(s@),
    }
}

pub open spec fn tag_expression_seq_view(s: Seq<TagExpression>) -> Seq<TagExpressionView>
    decreases s,
{
    if s.len() == 0 {
        Seq::empty()
    } else {
        seq![tag_expression_view(s[0])] + tag_expression_seq_view(s.drop_first())
    }
}

pub open spec fn type_view(t: Type) -> TypeView
    decreases t,
{
    match t {
        Type::FnSig { args, ret } => TypeView::FnSig {
            args: type_seq_view(args@),
            ret: Box::new(type_view(*ret)),
        },
        Type::Nat(i) => TypeView::Nat(i as int),
        Type::Identifier(s) => TypeView::Identifier(s@),
        Type::Tag(te) => TypeView::Tag(tag_expression_view(te)),
    }
}

pub open spec fn type_seq_view(s: Seq<Type>) -> Seq<TypeView>
    decreases s,
{
    if s.len() == 0 {
        Seq::empty()
    } else {
        seq![type_view(s[0])] + type_seq_view(s.drop_first())
    }
}

pub open spec fn expression_view(e: Expression) -> ExpressionView
    decreases e,
{
    match e {
        Expression::OpCall { op, args } => ExpressionView::OpCall {
            op,
            args: expression_seq_view(args@),
        },
        Expression::FnCall { name, args } => ExpressionView::FnCall {
            name: name@,
            args: expression_seq_view(args@),
        },
        Expression::Match { expr, args } => ExpressionView::Match {
            expr: Box::new(expression_view(*expr)),
            args: expression_seq_view(args@),
        },
        Expression::Destructure { pat, body } => ExpressionView::Destructure {
            pat: pattern_view(pat),
            body: expression_seq_view(body@),
        },
        Expression::ValueDecl { pat, expr } => ExpressionView::ValueDecl {
            pat: pattern_view(pat),
            expr: Box::new(expression_view(*expr)),
        },
        Expression::ValueAssign { pat, expr } => ExpressionView::ValueAssign {
            pat: pattern_view(pat),
            expr: Box::new(expression_view(*expr)),
        },
        Expression::TypeDecl { ty, expr } => ExpressionView::TypeDecl {
            ty: type_view(ty),
            expr: Box::new(expression_view(*expr)),
        },
        Expression::Integer(i) => ExpressionView::Integer(i as int),
        Expression::Identifier(s) => ExpressionView::Identifier(s@),
        Expression::StringLiteral(s) => ExpressionView::StringLiteral(s@),
        Expression::List(items) => ExpressionView::List(expression_seq_view(items@)),
    }
}

pub open spec fn expression_seq_view(s: Seq<Expression>) -> Seq<ExpressionView>
    decreases s,
{
    if s.len() == 0 {
        Seq::empty()
    } else {
        seq![expression_view(s[0])] + expression_seq_view(s.drop_first())
    }
}

/// A sequence view acts pointwise: element `i` of the view is the view of
/// element `i`.
pub proof fn lemma_expression_seq_view(s: Seq<Expression>)
    ensures
        expression_seq_view(s).len() == s.len(),
        forall|i: int|
            0 <= i < s.len() ==> #[trigger] expression_seq_view(s)[i] == expression_view(s[i]),
    decreases s,
{
    if s.len() > 0 {
        lemma_expression_seq_view(s.drop_first());
    }
}

/// See [`lemma_expression_seq_view`].
pub proof fn lemma_tag_expression_seq_view(s: Seq<TagExpression>)
    ensures
        tag_expression_seq_view(s).len() == s.len(),
        forall|i: int|
            0 <= i < s.len() ==> #[trigger] tag_expression_seq_view(s)[i]
                == tag_expression_view(s[i]),
    decreases s,
{
    if s.len() > 0 {
        lemma_tag_expression_seq_view(s.drop_first());
    }
}

/// See [`lemma_expression_seq_view`].
pub proof fn lemma_type_seq_view(s: Seq<Type>)
    ensures
        type_seq_view(s).len() == s.len(),
        forall|i: int| 0 <= i < s.len() ==> #[trigger] type_seq_view(s)[i] == type_view(s[i]),
    decreases s,
{
    if s.len() > 0 {
        lemma_type_seq_view(s.drop_first());
    }
}

pub fn clone_pattern(p: &Pattern) -> (res: Pattern)
    ensures
        pattern_view(res) == pattern_view(*p),
    decreases *p,
{
    match p {
        Pattern::Wildcard => Pattern::Wildcard,
        Pattern::Range { start, end } => {
            let s = match start {
                Some(b) => Some(Box::new(clone_pattern(&**b))),
                None => None,
            };
            let e = match end {
                Some(b) => Some(Box::new(clone_pattern(&**b))),
                None => None,
            };
            Pattern::Range { start: s, end: e }
        },
        Pattern::Integer(i) => Pattern::Integer(*i),
        Pattern::Identifier(s) => Pattern::Identifier(s.clone()),
        Pattern::StringLiteral(s) => Pattern::StringLiteral(s.clone()),
    }
}

#[verifier::loop_isolation(false)]
pub fn clone_tag_expression(t: &TagExpression) -> (res: TagExpression)
    ensures
        tag_expression_view(res) == tag_expression_view(*t),
    decreases *t,
{
    match t {
        TagExpression::OpCall { op, args } => {
            let mut cloned_args: Vec<TagExpression> = Vec::new();
            let mut i: usize = 0;
            while i < args.len()
                invariant
                    i <= args@.len(),
                    cloned_args@.len() == i,
                    forall|k: int|
                        0 <= k < i ==> tag_expression_view(#[trigger] cloned_args@[k])
                            == tag_expression_view(args@[k]),
                decreases args@.len() - i,
            {
                cloned_args.push(clone_tag_expression(&args[i]));
                i = i + 1;
            }
            proof {
                lemma_tag_expression_seq_view(cloned_args@);
                lemma_tag_expression_seq_view(args@);
                assert(tag_expression_seq_view(cloned_args@) =~= tag_expression_seq_view(args@));
            }
            TagExpression::OpCall { op: *op, args: cloned_args }
        },
        TagExpression::PrimaryIdentifier(s) => TagExpression::PrimaryIdentifier(s.clone()),
        TagExpression::Identifier(s) => TagExpression::Identifier(s.clone()),
    }
}

#[verifier::loop_isolation(false)]
pub fn clone_type(t: &Type) -> (res: Type)
    ensures
        type_view(res) == type_view(*t),
    decreases *t,
{
    match t {
        Type::FnSig { args, ret } => {
            let mut cloned_args: Vec<Type> = Vec::new();
            let mut i: usize = 0;
            while i < args.len()
                invariant
                    i <= args@.len(),
                    cloned_args@.len() == i,
                    forall|k: int|
                        0 <= k < i ==> type_view(#[trigger] cloned_args@[k]) == type_view(
                            args@[k],
                        ),
                decreases args@.len() - i,
            {
                cloned_args.push(clone_type(&args[i]));
                i = i + 1;
            }
            proof {
                lemma_type_seq_view(cloned_args@);
                lemma_type_seq_view(args@);
                assert(type_seq_view(cloned_args@) =~= type_seq_view(args@));
            }
            Type::FnSig { args: cloned_args, ret: Box::new(clone_type(&**ret)) }
        },
        Type::Nat(i) => Type::Nat(*i),
        Type::Identifier(s) => Type::Identifier(s.clone()),
        Type::Tag(te) => Type::Tag(clone_tag_expression(te)),
    }
}

pub fn clone_expression(e: &Expression) -> (res: Expression)
    ensures
        expression_view(res) == expression_view(*e),
    decreases *e,
{
    match e {
        Expression::OpCall { op, args } => Expression::OpCall {
            op: *op,
            args: clone_expression_vec(args),
        },
        Expression::FnCall { name, args } => Expression::FnCall {
            name: name.clone(),
            args: clone_expression_vec(args),
        },
        Expression::Match { expr, args } => Expression::Match {
            expr: Box::new(clone_expression(&**expr)),
            args: clone_expression_vec(args),
        },
        Expression::Destructure { pat, body } => Expression::Destructure {
            pat: clone_pattern(pat),
            body: clone_expression_vec(body),
        },
        Expression::ValueDecl { pat, expr } => Expression::ValueDecl {
            pat: clone_pattern(pat),
            expr: Box::new(clone_expression(&**expr)),
        },
        Expression::ValueAssign { pat, expr } => Expression::ValueAssign {
            pat: clone_pattern(pat),
            expr: Box::new(clone_expression(&**expr)),
        },
        Expression::TypeDecl { ty, expr } => Expression::TypeDecl {
            ty: clone_type(ty),
            expr: Box::new(clone_expression(&**expr)),
        },
        Expression::Integer(i) => Expression::Integer(*i),
        Expression::Identifier(s) => Expression::Identifier(s.clone()),
        Expression::StringLiteral(s) => Expression::StringLiteral(s.clone()),
        Expression::List(items) => Expression::List(clone_expression_vec(items)),
    }
}

#[verifier::loop_isolation(false)]
pub fn clone_expression_vec(v: &Vec<Expression>) -> (res: Vec<Expression>)
    ensures
        expression_seq_view(res@) == expression_seq_view(v@),
    decreases *v,
{
    let mut cloned: Vec<Expression> = Vec::new();
    let mut i: usize = 0;
    while i < v.len()
        invariant
            i <= v@.len(),
            cloned@.len() == i,
            forall|k: int|
                0 <= k < i ==> expression_view(#[trigger] cloned@[k]) == expression_view(v@[k]),
        decreases v@.len() - i,
    {
        cloned.push(clone_expression(&v[i]));
        i = i + 1;
    }
    proof {
        lemma_expression_seq_view(cloned@);
        lemma_expression_seq_view(v@);
        assert(expression_seq_view(cloned@) =~= expression_seq_view(v@));
    }
    cloned
}

impl Clone for Pattern {
    fn clone(&self) -> (res: Self)
        ensures
            pattern_view(res) == pattern_view(*self),
    {
        clone_pattern(self)
    }
}

impl Clone for TagExpression {
    fn clone(&self) -> (res: Self)
        ensures
            tag_expression_view(res) == tag_expression_view(*self),
    {
        clone_tag_expression(self)
    }
}

impl Clone for Type {
    fn clone(&self) -> (res: Self)
        ensures
            type_view(res) == type_view(*self),
    {
        clone_type(self)
    }
}

impl Clone for Expression {
    fn clone(&self) -> (res: Self)
        ensures
            expression_view(res) == expression_view(*self),
    {
        clone_expression(self)
    }
}

} // verus!
