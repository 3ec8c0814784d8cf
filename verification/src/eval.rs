//! The binding resolver and the evaluator.
//!
//! The resolver walks a parsed program file by file, accumulates each name's
//! type signature, tag list and implementation — the three may arrive in any
//! order and across files — and commits every complete binding into the
//! store under its resolved tags.  The evaluator interprets a committed
//! function binding against an environment built from its arguments; the
//! lines its `println` builtin emits are collected on the evaluator and
//! handed to the caller to write out.

use vstd::prelude::*;
use crate::ast::{
    clone_expression, clone_type, expression_view, type_view, Expression, ExpressionView,
    OpSymbol, Statement, TagExpression, Type,
};
use crate::tag::{TagName, TagNameView};
use crate::universe::{
    insert_model, primary_conflict, Binding, BindingBuilder, TagModel, Universe, UniverseEntry,
    UniverseError, UniverseModel,
};

verus! {

broadcast use vstd::std_specs::vec::group_vec_axioms;

/// The per-session configuration the resolver runs under: the single
/// project-level primary tag, and each file's externally declared secondary
/// tags.
#[derive(Debug, PartialEq, Eq)]
pub struct EvaluatorConfig {
    pub project_tag: TagName,
    pub file_tags: Vec<(String, Vec<TagName>)>,
}

/// The value payload stored per binding.
#[derive(Debug, PartialEq, Eq)]
pub enum UniverseItem {
    /// A resolved function: its signature, parameter names and body.
    FnDecl { sig: Type, args: Vec<String>, body: Vec<Expression> },
    /// Placeholder for a slot that holds no resolved item.
    Empty,
}

impl Default for UniverseItem {
    fn default() -> (r: Self)
        ensures
            r == UniverseItem::Empty,
    {
        UniverseItem::Empty
    }
}

/// The evaluator's runtime representation of every intermediate and final
/// result: a type name together with a raw value.
#[derive(Debug, PartialEq, Eq)]
pub struct TypedExpression(pub Type, pub Expression);

/// Spec-level [`TypedExpression`].
pub struct TypedExpressionView {
    pub ty: crate::ast::TypeView,
    pub expr: ExpressionView,
}

pub open spec fn typed_expression_view(te: TypedExpression) -> TypedExpressionView {
    TypedExpressionView { ty: type_view(te.0), expr: expression_view(te.1) }
}

impl Clone for TypedExpression {
    fn clone(&self) -> (res: Self)
        ensures
            typed_expression_view(res) == typed_expression_view(*self),
    {
        TypedExpression(clone_type(&self.0), clone_expression(&self.1))
    }
}

/// Which of a binding's three pieces was still missing at the end of
/// resolution.
#[derive(Debug, Clone, Copy, PartialEq, Eq, Structural)]
pub enum MissingPart {
    Tags,
    Signature,
    Implementation,
}

/// The failures resolution and evaluation can report.
#[derive(Debug, PartialEq, Eq)]
pub enum FractalError {
    /// The store rejected an insert or a set operation.
    UniverseError(UniverseError),
    /// A type declaration whose body is neither a signature nor a tag.
    UnexpectedTypeShape,
    /// A top-level statement that is neither a type declaration nor a
    /// function declaration.
    UnexpectedStatementShape,
    /// A tag expression combined by anything but intersection.
    UnexpectedTagShape,
    /// A name reached the end of resolution missing one of its pieces.
    IncompleteBinding { name: String, missing: MissingPart },
    /// A free identifier that is not a parameter of the function.
    UnboundIdentifier(String),
    /// A call with the wrong number of arguments.
    ArityMismatch,
    /// A builtin applied to a value of the wrong type, or a call of
    /// something that is not a function.
    TypeMismatch,
    /// A call of a name that is no builtin.
    UnknownBuiltin(String),
    /// An expression shape that is not interpreted yet.
    Unimplemented,
}

/// The views of a list of tag names.
pub open spec fn views_of(s: Seq<TagName>) -> Seq<TagNameView> {
    s.map_values(|t: TagName| t@)
}

/// What the tag-expression flattener produces: `None` is the fatal shape
/// error.  A primary-marked identifier flattens to a primary tag name, a
/// bare identifier to a secondary one; intersection concatenates, in source
/// order; any other operator is refused.
pub open spec fn flatten_spec(t: TagExpression) -> Option<Seq<TagNameView>>
    decreases t,
{
    match t {
        TagExpression::OpCall { op, args } => {
            if op != OpSymbol::Circumflex {
                None
            } else {
                flatten_args_spec(args@)
            }
        },
        TagExpression::PrimaryIdentifier(s) => Some(seq![TagNameView::Primary(s@)]),
        TagExpression::Identifier(s) => Some(seq![TagNameView::Secondary(s@)]),
    }
}

pub open spec fn flatten_args_spec(s: Seq<TagExpression>) -> Option<Seq<TagNameView>>
    decreases s,
{
    if s.len() == 0 {
        Some(Seq::empty())
    } else {
        match (flatten_args_spec(s.drop_last()), flatten_spec(s.last())) {
            (Some(init), Some(last)) => Some(init + last),
            _ => None,
        }
    }
}

/// Once a prefix of the arguments fails to flatten, the whole list fails.
proof fn lemma_flatten_args_none(s: Seq<TagExpression>, k: int)
    requires
        0 <= k <= s.len(),
        flatten_args_spec(s.subrange(0, k)) is None,
    ensures
        flatten_args_spec(s) is None,
    decreases s.len() - k,
{
    if k == s.len() {
        assert(s.subrange(0, k) =~= s);
    } else {
        assert(s.subrange(0, k + 1).drop_last() =~= s.subrange(0, k));
        lemma_flatten_args_none(s, k + 1);
    }
}

/// Flattens a parsed tag expression onto `names`, in source order.
///
/// On the fatal shape error nothing is appended.
pub fn flatten_tag_opcall_to_tagnames(names: &mut Vec<TagName>, tag: &TagExpression) -> (r:
    Result<(), FractalError>)
    ensures
        flatten_spec(*tag) matches Some(ts) ==> r == Ok::<(), FractalError>(()) && views_of(
            final(names)@,
        ) == views_of(old(names)@) + ts,
        flatten_spec(*tag) is None ==> r == Err::<(), FractalError>(
            FractalError::UnexpectedTagShape,
        ) && final(names)@ == old(names)@,
{
    let mut collected: Vec<TagName> = Vec::new();
    match flatten_collect(&mut collected, tag) {
        Ok(()) => {
            proof {
                assert(views_of(collected@) == views_of(Seq::<TagName>::empty()) + views_of(
                    collected@,
                )) by {
                    assert(views_of(Seq::<TagName>::empty()) + views_of(collected@) =~= views_of(
                        collected@,
                    ));
                }
            }
            let ghost names_before = names@;
            names.append(&mut collected);
            proof {
                assert(views_of(names@) =~= views_of(names_before) + views_of(
                    names@.subrange(names_before.len() as int, names@.len() as int),
                ));
            }
            Ok(())
        },
        Err(e) => Err(e),
    }
}

/// Recursive worker for the flattener: appends every identifier of `tag`
/// onto `names` in source order, or stops at the first unsupported shape.
#[verifier::loop_isolation(false)]
fn flatten_collect(names: &mut Vec<TagName>, tag: &TagExpression) -> (r: Result<
    (),
    FractalError,
>)
    ensures
        flatten_spec(*tag) matches Some(ts) ==> r == Ok::<(), FractalError>(()) && views_of(
            final(names)@,
        ) == views_of(old(names)@) + ts,
        flatten_spec(*tag) is None ==> r == Err::<(), FractalError>(
            FractalError::UnexpectedTagShape,
        ),
    decreases *tag,
{
    match tag {
        TagExpression::PrimaryIdentifier(s) => {
            names.push(TagName::Primary(s.clone()));
            proof {
                assert(views_of(names@) =~= views_of(old(names)@) + seq![
                    TagNameView::Primary(s@),
                ]);
            }
            Ok(())
        },
        TagExpression::Identifier(s) => {
            names.push(TagName::Secondary(s.clone()));
            proof {
                assert(views_of(names@) =~= views_of(old(names)@) + seq![
                    TagNameView::Secondary(s@),
                ]);
            }
            Ok(())
        },
        TagExpression::OpCall { op, args } => {
            match op {
                OpSymbol::Circumflex => {
                    let mut i: usize = 0;
                    while i < args.len()
                        invariant
                            i <= args@.len(),
                            flatten_args_spec(args@.subrange(0, i as int)) matches Some(done)
                                && views_of(names@) == views_of(old(names)@) + done,
                        decreases args@.len() - i,
                    {
                        let ghost sub_i = args@.subrange(0, i as int);
                        let ghost sub_i1 = args@.subrange(0, i + 1 as int);
                        proof {
                            assert(sub_i1.drop_last() =~= sub_i);
                            assert(sub_i1.last() == args@[i as int]);
                        }
                        let ghost names_before = names@;
                        match flatten_collect(names, &args[i]) {
                            Ok(()) => {
                                proof {
                                    let done = choose|done: Seq<TagNameView>|
                                        flatten_args_spec(sub_i) == Some(done) && views_of(
                                            names_before,
                                        ) == views_of(old(names)@) + done;
                                    let ts = choose|ts: Seq<TagNameView>|
                                        flatten_spec(args@[i as int]) == Some(ts) && views_of(
                                            names@,
                                        ) == views_of(names_before) + ts;
                                    assert(flatten_args_spec(sub_i1) == Some(done + ts));
                                    assert(views_of(names@) =~= views_of(old(names)@) + (done
                                        + ts));
                                }
                            },
                            Err(e) => {
                                proof {
                                    assert(flatten_args_spec(sub_i1) is None);
                                    lemma_flatten_args_none(args@, i + 1);
                                }
                                return Err(e);
                            },
                        }
                        i = i + 1;
                    }
                    proof {
                        assert(args@.subrange(0, args@.len() as int) =~= args@);
                    }
                    Ok(())
                },
                _ => Err(FractalError::UnexpectedTagShape),
            }
        },
    }
}

/// The environment that a list of bindings describes: later entries win.
pub open spec fn env_map(s: Seq<(String, TypedExpression)>) -> Map<Seq<char>, TypedExpression>
    decreases s.len(),
{
    if s.len() == 0 {
        Map::empty()
    } else {
        env_map(s.drop_last()).insert(s.last().0@, s.last().1)
    }
}

/// The environment built by binding `vals` to `names` positionally; a
/// repeated name keeps its last value.
pub open spec fn env_of_args(names: Seq<String>, vals: Seq<TypedExpression>) -> Map<
    Seq<char>,
    TypedExpression,
>
    decreases names.len(),
{
    if names.len() == 0 || vals.len() == 0 {
        Map::empty()
    } else {
        env_of_args(names.drop_last(), vals.drop_last()).insert(names.last()@, vals.last())
    }
}

/// An environment's map holds exactly the listed names, each at the value
/// of its last entry.
#[verifier::rlimit(60)]
proof fn lemma_env_map(s: Seq<(String, TypedExpression)>)
    ensures
        forall|n: Seq<char>| #[trigger]
            env_map(s).contains_key(n) <==> exists|i: int| 0 <= i < s.len() && s[i].0@ == n,
        forall|i: int|
            (0 <= i < s.len() && (forall|j: int| i < j < s.len() ==> s[j].0@ != s[i].0@))
                ==> env_map(s).contains_key(#[trigger] s[i].0@) && env_map(s)[s[i].0@] == s[i].1,
    decreases s.len(),
{
    if s.len() > 0 {
        lemma_env_map(s.drop_last());
        assert(forall|i: int| 0 <= i < s.len() - 1 ==> s.drop_last()[i] == s[i]);
        assert forall|n: Seq<char>| #[trigger] env_map(s).contains_key(n) implies exists|i: int|
            0 <= i < s.len() && s[i].0@ == n by {
            if n == s.last().0@ {
                assert(s[s.len() - 1].0@ == n);
            } else {
                assert(env_map(s.drop_last()).contains_key(n));
                let i = choose|i: int| 0 <= i < s.drop_last().len() && s.drop_last()[i].0@ == n;
                assert(s.drop_last()[i] == s[i]);
                assert(s[i].0@ == n);
            }
        }
        assert forall|n: Seq<char>| (exists|i: int| 0 <= i < s.len() && s[i].0@ == n) implies #[trigger] env_map(
            s,
        ).contains_key(n) by {
            let i = choose|i: int| 0 <= i < s.len() && s[i].0@ == n;
            if i < s.len() - 1 {
                assert(s.drop_last()[i].0@ == n);
            }
        }
    }
}

/// Looks a name up in an environment: the last binding of that name wins.
fn env_get<'a>(env: &'a Vec<(String, TypedExpression)>, name: &String) -> (r: Option<
    &'a TypedExpression,
>)
    ensures
        env_map(env@).contains_key(name@) ==> (r matches Some(te) && *te == env_map(env@)[
            name@
        ]),
        !env_map(env@).contains_key(name@) ==> r is None,
{
    proof {
        lemma_env_map(env@);
    }
    let mut i: usize = env.len();
    while i > 0
        invariant
            i <= env@.len(),
            forall|j: int| i <= j < env@.len() ==> env@[j].0@ != name@,
        decreases i,
    {
        i = i - 1;
        if env[i].0 == *name {
            proof {
                lemma_env_map(env@);
                assert(env@[i as int].0@ == name@);
            }
            return Some(&env[i].1);
        }
    }
    None
}

/// The result value for an integer literal: tagged `ilarge`, carrying the
/// literal.
pub open spec fn lit_int_value(te: TypedExpression, i: i128) -> bool {
    &&& match te.0 {
        Type::Identifier(s) => s@ == "ilarge"@,
        _ => false,
    }
    &&& te.1 == Expression::Integer(i)
}

/// The result value for a string literal: tagged `string`, carrying the
/// characters.
pub open spec fn lit_str_value(te: TypedExpression, s: Seq<char>) -> bool {
    &&& match te.0 {
        Type::Identifier(t) => t@ == "string"@,
        _ => false,
    }
    &&& match te.1 {
        Expression::StringLiteral(x) => x@ == s,
        _ => false,
    }
}

/// How a `println` call turns the outcome of its first argument into its
/// own outcome: a `string`-tagged string literal is printed and yields no
/// value, anything else is a type mismatch, and an inner failure is passed
/// through; the argument's output happens either way.
pub open spec fn println_step(
    ir: Result<Option<TypedExpression>, FractalError>,
    io: Seq<Seq<char>>,
    r: Result<Option<TypedExpression>, FractalError>,
    out: Seq<Seq<char>>,
) -> bool {
    match ir {
        Ok(inner) => match inner {
            Some(te) => match (te.0, te.1) {
                (Type::Identifier(tn), Expression::StringLiteral(sv)) => {
                    if tn@ == "string"@ {
                        r == Ok::<Option<TypedExpression>, FractalError>(None) && out == io.push(
                            sv@,
                        )
                    } else {
                        r == Err::<Option<TypedExpression>, FractalError>(
                            FractalError::TypeMismatch,
                        ) && out == io
                    }
                },
                _ => r == Err::<Option<TypedExpression>, FractalError>(
                    FractalError::TypeMismatch,
                ) && out == io,
            },
            None => r == Err::<Option<TypedExpression>, FractalError>(
                FractalError::TypeMismatch,
            ) && out == io,
        },
        Err(e2) => r == Err::<Option<TypedExpression>, FractalError>(e2) && out == io,
    }
}

/// What evaluating one expression under `env` may produce: the result `r`
/// and the lines `out` it printed.
///
/// An integer literal is tagged `ilarge`, a string literal `string`; an
/// identifier is taken from the environment unchanged; a call dispatches
/// against the builtin table, where only `println` exists; every other
/// shape is not interpreted yet.
pub open spec fn eval_expr_rel(
    env: Map<Seq<char>, TypedExpression>,
    e: Expression,
    r: Result<Option<TypedExpression>, FractalError>,
    out: Seq<Seq<char>>,
) -> bool
    decreases e,
{
    match e {
        Expression::Integer(i) => out == Seq::<Seq<char>>::empty() && match r {
            Ok(o) => match o {
                Some(te) => lit_int_value(te, i),
                None => false,
            },
            _ => false,
        },
        Expression::StringLiteral(s) => out == Seq::<Seq<char>>::empty() && match r {
            Ok(o) => match o {
                Some(te) => lit_str_value(te, s@),
                None => false,
            },
            _ => false,
        },
        Expression::Identifier(id) => out == Seq::<Seq<char>>::empty() && (if env.contains_key(
            id@,
        ) {
            match r {
                Ok(o) => match o {
                    Some(te) => typed_expression_view(te) == typed_expression_view(env[id@]),
                    None => false,
                },
                _ => false,
            }
        } else {
            match r {
                Err(er) => match er {
                    FractalError::UnboundIdentifier(n) => n@ == id@,
                    _ => false,
                },
                _ => false,
            }
        }),
        Expression::FnCall { name, args } => {
            if name@ == "println"@ {
                if args@.len() == 0 {
                    r == Err::<Option<TypedExpression>, FractalError>(FractalError::ArityMismatch)
                        && out == Seq::<Seq<char>>::empty()
                } else {
                    exists|ir: Result<Option<TypedExpression>, FractalError>, io: Seq<Seq<char>>|
                        eval_expr_rel(env, args@[0], ir, io) && #[trigger] println_step(
                            ir,
                            io,
                            r,
                            out,
                        )
                }
            } else {
                out == Seq::<Seq<char>>::empty() && match r {
                    Err(er) => match er {
                        FractalError::UnknownBuiltin(n) => n@ == name@,
                        _ => false,
                    },
                    _ => false,
                }
            }
        },
        _ => r == Err::<Option<TypedExpression>, FractalError>(FractalError::Unimplemented)
            && out == Seq::<Seq<char>>::empty(),
    }
}

/// What evaluating a straight-line body under `env` may produce: each
/// expression runs in sequence, the first failure stops the run, and the
/// last expression's value is the result; an empty body yields no value.
pub open spec fn eval_body_rel(
    env: Map<Seq<char>, TypedExpression>,
    body: Seq<Expression>,
    r: Result<Option<TypedExpression>, FractalError>,
    out: Seq<Seq<char>>,
) -> bool
    decreases body,
{
    if body.len() == 0 {
        r == Ok::<Option<TypedExpression>, FractalError>(None) && out == Seq::<Seq<char>>::empty()
    } else if body.len() == 1 {
        eval_expr_rel(env, body[0], r, out)
    } else {
        exists|ir: Result<Option<TypedExpression>, FractalError>, io: Seq<Seq<char>>|
            #[trigger] eval_expr_rel(env, body[0], ir, io) && match ir {
                Err(e) => r == Err::<Option<TypedExpression>, FractalError>(e) && out == io,
                Ok(_) => io.len() <= out.len() && out.subrange(0, io.len() as int) == io
                    && eval_body_rel(
                    env,
                    body.drop_first(),
                    r,
                    out.subrange(io.len() as int, out.len() as int),
                ),
            }
    }
}

/// What calling a stored item on `args` may produce: only a function can
/// be called, its parameters are bound positionally, and an argument count
/// that differs from the parameter count is an arity mismatch.
pub open spec fn eval_item_rel(
    item: UniverseItem,
    args: Seq<TypedExpression>,
    r: Result<Option<TypedExpression>, FractalError>,
    out: Seq<Seq<char>>,
) -> bool {
    match item {
        UniverseItem::FnDecl { sig, args: names, body } => {
            if names@.len() != args.len() {
                r == Err::<Option<TypedExpression>, FractalError>(FractalError::ArityMismatch)
                    && out == Seq::<Seq<char>>::empty()
            } else {
                eval_body_rel(env_of_args(names@, args), body@, r, out)
            }
        },
        UniverseItem::Empty => r == Err::<Option<TypedExpression>, FractalError>(
            FractalError::TypeMismatch,
        ) && out == Seq::<Seq<char>>::empty(),
    }
}

/// The views of the printed lines.
pub open spec fn lines_view(s: Seq<String>) -> Seq<Seq<char>> {
    s.map_values(|x: String| x@)
}

/// The lines that `output` gained over `before`.
pub open spec fn output_delta(before: Seq<String>, after: Seq<String>) -> Seq<Seq<char>> {
    lines_view(after.subrange(before.len() as int, after.len() as int))
}

/// `after` extends `before`.
pub open spec fn output_extends(before: Seq<String>, after: Seq<String>) -> bool {
    after.len() >= before.len() && after.subrange(0, before.len() as int) == before
}

/// Evaluates one expression: the computation itself, with printed lines
/// appended to `output`.
#[verifier::loop_isolation(false)]
#[verifier::rlimit(100)]
fn eval_expression_in(
    env: &Vec<(String, TypedExpression)>,
    expr: &Expression,
    output: &mut Vec<String>,
) -> (r: Result<Option<TypedExpression>, FractalError>)
    ensures
        output_extends(old(output)@, final(output)@),
        eval_expr_rel(env_map(env@), *expr, r, output_delta(old(output)@, final(output)@)),
    decreases *expr,
{
    let ghost out0 = output@;
    match expr {
        Expression::Integer(i) => {
            let te = TypedExpression(
                Type::Identifier(String::from_str("ilarge")),
                Expression::Integer(*i),
            );
            proof {
                assert(output_delta(out0, output@) =~= Seq::<Seq<char>>::empty());
                assert(output@.subrange(0, out0.len() as int) =~= out0);
            }
            Ok(Some(te))
        },
        Expression::StringLiteral(s) => {
            let te = TypedExpression(
                Type::Identifier(String::from_str("string")),
                Expression::StringLiteral(s.clone()),
            );
            proof {
                assert(output_delta(out0, output@) =~= Seq::<Seq<char>>::empty());
                assert(output@.subrange(0, out0.len() as int) =~= out0);
            }
            Ok(Some(te))
        },
        Expression::Identifier(id) => {
            proof {
                assert(output_delta(out0, output@) =~= Seq::<Seq<char>>::empty());
                assert(output@.subrange(0, out0.len() as int) =~= out0);
            }
            match env_get(env, id) {
                Some(te) => Ok(Some(te.clone())),
                None => Err(FractalError::UnboundIdentifier(id.clone())),
            }
        },
        Expression::FnCall { name, args } => {
            let println_name = String::from_str("println");
            if *name == println_name {
                if args.len() == 0 {
                    proof {
                        assert(output_delta(out0, output@) =~= Seq::<Seq<char>>::empty());
                        assert(output@.subrange(0, out0.len() as int) =~= out0);
                    }
                    return Err(FractalError::ArityMismatch);
                }
                let inner = eval_expression_in(env, &args[0], output);
                let ghost io = output_delta(out0, output@);
                let ghost ir = inner;
                let ghost out1 = output@;
                let res: Result<Option<TypedExpression>, FractalError> = match inner {
                    Ok(inner_opt) => match inner_opt {
                        Some(te) => {
                            let TypedExpression(ty, ex) = te;
                            match (ty, ex) {
                                (Type::Identifier(tn), Expression::StringLiteral(sv)) => {
                                    let string_name = String::from_str("string");
                                    if tn == string_name {
                                        output.push(sv);
                                        Ok(None)
                                    } else {
                                        Err(FractalError::TypeMismatch)
                                    }
                                },
                                _ => Err(FractalError::TypeMismatch),
                            }
                        },
                        None => Err(FractalError::TypeMismatch),
                    },
                    Err(e) => Err(e),
                };
                proof {
                    assert(output@.subrange(0, out0.len() as int) =~= out0);
                    if output@.len() > out1.len() {
                        assert(output_delta(out0, output@) =~= io.push(output@.last()@));
                    } else {
                        assert(output_delta(out0, output@) =~= io);
                    }
                    assert(println_step(ir, io, res, output_delta(out0, output@)));
                    assert(eval_expr_rel(env_map(env@), args@[0], ir, io));
                    assert(eval_expr_rel(
                        env_map(env@),
                        *expr,
                        res,
                        output_delta(out0, output@),
                    )) by {
                        assert(name@ == "println"@);
                        assert(eval_expr_rel(env_map(env@), args@[0], ir, io) && println_step(
                            ir,
                            io,
                            res,
                            output_delta(out0, output@),
                        ));
                    }
                }
                res
            } else {
                proof {
                    assert(output_delta(out0, output@) =~= Seq::<Seq<char>>::empty());
                    assert(output@.subrange(0, out0.len() as int) =~= out0);
                }
                Err(FractalError::UnknownBuiltin(name.clone()))
            }
        },
        _ => {
            proof {
                assert(output_delta(out0, output@) =~= Seq::<Seq<char>>::empty());
                assert(output@.subrange(0, out0.len() as int) =~= out0);
            }
            Err(FractalError::Unimplemented)
        },
    }
}

/// Evaluates the body expressions from position `k` on, in sequence.
#[verifier::rlimit(60)]
fn eval_body_in(
    env: &Vec<(String, TypedExpression)>,
    body: &Vec<Expression>,
    k: usize,
    output: &mut Vec<String>,
) -> (r: Result<Option<TypedExpression>, FractalError>)
    requires
        k <= body@.len(),
    ensures
        output_extends(old(output)@, final(output)@),
        eval_body_rel(
            env_map(env@),
            body@.skip(k as int),
            r,
            output_delta(old(output)@, final(output)@),
        ),
    decreases body@.len() - k,
{
    let ghost out0 = output@;
    if k == body.len() {
        proof {
            assert(output_delta(out0, output@) =~= Seq::<Seq<char>>::empty());
            assert(output@.subrange(0, out0.len() as int) =~= out0);
        }
        Ok(None)
    } else if k == body.len() - 1 {
        let r = eval_expression_in(env, &body[k], output);
        proof {
            assert(body@.skip(k as int).len() == 1);
            assert(body@.skip(k as int)[0] == body@[k as int]);
        }
        r
    } else {
        let r0 = eval_expression_in(env, &body[k], output);
        let ghost io = output_delta(out0, output@);
        let ghost ir = r0;
        let ghost out1 = output@;
        proof {
            assert(body@.skip(k as int)[0] == body@[k as int]);
            assert(body@.skip(k as int).drop_first() =~= body@.skip(k + 1 as int));
        }
        match r0 {
            Err(e) => {
                proof {
                    let sk = body@.skip(k as int);
                    assert(eval_expr_rel(env_map(env@), sk[0], ir, io));
                    assert(eval_body_rel(
                        env_map(env@),
                        sk,
                        Err::<Option<TypedExpression>, FractalError>(e),
                        io,
                    ));
                }
                Err(e)
            },
            Ok(_) => {
                let rr = eval_body_in(env, body, k + 1, output);
                let ghost ro = output_delta(out1, output@);
                proof {
                    let sk = body@.skip(k as int);
                    let total = output_delta(out0, output@);
                    assert(output@.subrange(0, out0.len() as int) =~= out0);
                    assert(output@.subrange(0, out1.len() as int) =~= out1);
                    assert(total.subrange(0, io.len() as int) =~= io);
                    assert(total.subrange(io.len() as int, total.len() as int) =~= ro);
                    assert(eval_body_rel(env_map(env@), sk.drop_first(), rr, ro));
                    assert(eval_expr_rel(env_map(env@), sk[0], ir, io));
                    assert(eval_body_rel(env_map(env@), sk, rr, total));
                }
                rr
            },
        }
    }
}

/// Calls a stored item on `args`: binds parameters positionally, then runs
/// the body.
fn eval_item_in(
    item: &UniverseItem,
    args: Vec<TypedExpression>,
    output: &mut Vec<String>,
) -> (r: Result<Option<TypedExpression>, FractalError>)
    ensures
        output_extends(old(output)@, final(output)@),
        eval_item_rel(*item, args@, r, output_delta(old(output)@, final(output)@)),
{
    let ghost out0 = output@;
    match item {
        UniverseItem::FnDecl { sig: _, args: arg_names, body } => {
            if arg_names.len() != args.len() {
                proof {
                    assert(output_delta(out0, output@) =~= Seq::<Seq<char>>::empty());
                    assert(output@.subrange(0, out0.len() as int) =~= out0);
                }
                return Err(FractalError::ArityMismatch);
            }
            let ghost args0 = args@;
            let mut env: Vec<(String, TypedExpression)> = Vec::new();
            let mut rest = args;
            let mut i: usize = 0;
            while i < arg_names.len()
                invariant
                    i <= arg_names@.len(),
                    arg_names@.len() == args0.len(),
                    rest@ == args0.skip(i as int),
                    env_map(env@) == env_of_args(
                        arg_names@.subrange(0, i as int),
                        args0.subrange(0, i as int),
                    ),
                decreases arg_names@.len() - i,
            {
                let v = rest.remove(0);
                proof {
                    assert(v == args0[i as int]);
                    assert(rest@ =~= args0.skip(i + 1 as int));
                }
                let ghost env_before = env@;
                env.push((arg_names[i].clone(), v));
                proof {
                    let na = arg_names@.subrange(0, i + 1 as int);
                    let va = args0.subrange(0, i + 1 as int);
                    assert(na.drop_last() =~= arg_names@.subrange(0, i as int));
                    assert(va.drop_last() =~= args0.subrange(0, i as int));
                    assert(na.last() == arg_names@[i as int]);
                    assert(va.last() == args0[i as int]);
                    assert(env@.drop_last() =~= env_before);
                    assert(env@.last().0@ == arg_names@[i as int]@);
                    assert(env@.last().1 == args0[i as int]);
                    assert(env_map(env@) == env_map(env_before).insert(
                        arg_names@[i as int]@,
                        args0[i as int],
                    ));
                    assert(env_map(env@) =~= env_of_args(na, va));
                }
                i = i + 1;
            }
            proof {
                assert(arg_names@.subrange(0, arg_names@.len() as int) =~= arg_names@);
                assert(args0.subrange(0, args0.len() as int) =~= args0);
            }
            let r = eval_body_in(&env, body, 0, output);
            proof {
                assert(body@.skip(0) =~= body@);
            }
            r
        },
        UniverseItem::Empty => {
            proof {
                assert(output_delta(out0, output@) =~= Seq::<Seq<char>>::empty());
                assert(output@.subrange(0, out0.len() as int) =~= out0);
            }
            Err(FractalError::TypeMismatch)
        },
    }
}

/// One name's accumulated pieces during resolution: its tag list, its type
/// signature and its implementation, each optional until seen.
#[derive(Debug)]
pub struct BindingParts {
    pub tags: Option<Vec<TagName>>,
    pub sig: Option<Type>,
    pub imp: Option<(Vec<String>, Vec<Expression>)>,
}

/// Spec-level [`BindingParts`]: the tag list up to its views, the signature
/// and implementation as the moved values themselves.
pub struct BindingPartsView {
    pub tags: Option<Seq<TagNameView>>,
    pub sig: Option<Type>,
    pub imp: Option<(Vec<String>, Vec<Expression>)>,
}

pub open spec fn parts_view(p: BindingParts) -> BindingPartsView {
    BindingPartsView {
        tags: match p.tags {
            Some(v) => Some(views_of(v@)),
            None => None,
        },
        sig: p.sig,
        imp: p.imp,
    }
}

/// The resolver's accumulation cache up to tag-name views, in first-seen
/// order.
pub open spec fn cache_view(c: Seq<(String, BindingParts)>) -> Seq<(Seq<char>, BindingPartsView)> {
    c.map_values(|e: (String, BindingParts)| (e.0@, parts_view(e.1)))
}

/// A record with no piece seen yet.
pub open spec fn empty_parts() -> BindingPartsView {
    BindingPartsView { tags: None, sig: None, imp: None }
}

/// One piece arriving for a name.
pub enum CachePatch {
    SetTags(Seq<TagNameView>),
    SetSig(Type),
    SetImp(Vec<String>, Vec<Expression>),
}

pub open spec fn apply_patch(p: BindingPartsView, patch: CachePatch) -> BindingPartsView {
    match patch {
        CachePatch::SetTags(ts) => BindingPartsView { tags: Some(ts), sig: p.sig, imp: p.imp },
        CachePatch::SetSig(sig) => BindingPartsView { tags: p.tags, sig: Some(sig), imp: p.imp },
        CachePatch::SetImp(args, body) => BindingPartsView {
            tags: p.tags,
            sig: p.sig,
            imp: Some((args, body)),
        },
    }
}

/// Records one piece for `name` in the cache: the first record with that
/// name is patched, or a fresh record is appended.
pub open spec fn cache_apply(
    c: Seq<(Seq<char>, BindingPartsView)>,
    name: Seq<char>,
    patch: CachePatch,
) -> Seq<(Seq<char>, BindingPartsView)>
    decreases c.len(),
{
    if c.len() == 0 {
        seq![(name, apply_patch(empty_parts(), patch))]
    } else if c[0].0 == name {
        seq![(c[0].0, apply_patch(c[0].1, patch))] + c.drop_first()
    } else {
        seq![c[0]] + cache_apply(c.drop_first(), name, patch)
    }
}

/// Patching a name already in the cache updates its first record in place.
proof fn lemma_cache_apply_found(
    c: Seq<(Seq<char>, BindingPartsView)>,
    name: Seq<char>,
    patch: CachePatch,
    j: int,
)
    requires
        0 <= j < c.len(),
        c[j].0 == name,
        forall|k: int| 0 <= k < j ==> c[k].0 != name,
    ensures
        cache_apply(c, name, patch) == c.update(j, (name, apply_patch(c[j].1, patch))),
    decreases c.len(),
{
    if j == 0 {
        assert(cache_apply(c, name, patch) =~= c.update(0, (name, apply_patch(c[0].1, patch))));
    } else {
        lemma_cache_apply_found(c.drop_first(), name, patch, j - 1);
        assert(forall|k: int| 0 <= k < c.len() - 1 ==> c.drop_first()[k] == c[k + 1]);
        assert(cache_apply(c, name, patch) =~= c.update(j, (name, apply_patch(c[j].1, patch))));
    }
}

/// Patching a fresh name appends a fresh record.
proof fn lemma_cache_apply_missing(
    c: Seq<(Seq<char>, BindingPartsView)>,
    name: Seq<char>,
    patch: CachePatch,
)
    requires
        forall|k: int| 0 <= k < c.len() ==> c[k].0 != name,
    ensures
        cache_apply(c, name, patch) == c.push((name, apply_patch(empty_parts(), patch))),
    decreases c.len(),
{
    if c.len() > 0 {
        lemma_cache_apply_missing(c.drop_first(), name, patch);
        assert(forall|k: int| 0 <= k < c.len() - 1 ==> c.drop_first()[k] == c[k + 1]);
        assert(cache_apply(c, name, patch) =~= c.push((name, apply_patch(empty_parts(), patch))));
    }
}

/// The file's secondary tags under the configuration: the first entry for
/// the path, or none.
pub open spec fn config_secs(ft: Seq<(String, Vec<TagName>)>, path: Seq<char>) -> Seq<TagNameView>
    decreases ft.len(),
{
    if ft.len() == 0 {
        Seq::empty()
    } else if ft[0].0@ == path {
        views_of(ft[0].1@)
    } else {
        config_secs(ft.drop_first(), path)
    }
}

/// Whether the configuration lists the file at all.
pub open spec fn config_has_file(ft: Seq<(String, Vec<TagName>)>, path: Seq<char>) -> bool {
    exists|i: int| 0 <= i < ft.len() && ft[i].0@ == path
}

/// What one top-level statement contributes to the cache: a signature, a
/// tag list — the file's secondary tags, then the project tag, then the
/// flattened tag expression — or an implementation; every other shape is a
/// fatal error.
pub open spec fn scan_statement(
    c: Seq<(Seq<char>, BindingPartsView)>,
    fsecs: Seq<TagNameView>,
    proj: TagNameView,
    stmt: Statement,
) -> Result<Seq<(Seq<char>, BindingPartsView)>, FractalError> {
    match stmt {
        Statement::TypeDecl { name, body } => match body {
            Type::FnSig { args, ret } => Ok(
                cache_apply(c, name@, CachePatch::SetSig(Type::FnSig { args, ret })),
            ),
            Type::Tag(te) => match flatten_spec(te) {
                Some(ts) => Ok(
                    cache_apply(c, name@, CachePatch::SetTags(fsecs + seq![proj] + ts)),
                ),
                None => Err(FractalError::UnexpectedTagShape),
            },
            _ => Err(FractalError::UnexpectedTypeShape),
        },
        Statement::FnDecl { name, args, body } => Ok(
            cache_apply(c, name@, CachePatch::SetImp(args, body)),
        ),
        _ => Err(FractalError::UnexpectedStatementShape),
    }
}

/// The cache after scanning a file's statements in order, stopping at the
/// first fatal shape.
pub open spec fn scan_statements(
    c: Seq<(Seq<char>, BindingPartsView)>,
    fsecs: Seq<TagNameView>,
    proj: TagNameView,
    stmts: Seq<Statement>,
) -> Result<Seq<(Seq<char>, BindingPartsView)>, FractalError>
    decreases stmts.len(),
{
    if stmts.len() == 0 {
        Ok(c)
    } else {
        match scan_statements(c, fsecs, proj, stmts.drop_last()) {
            Ok(c2) => scan_statement(c2, fsecs, proj, stmts.last()),
            Err(e) => Err(e),
        }
    }
}

/// The cache after scanning every file in order.
pub open spec fn scan_files(
    c: Seq<(Seq<char>, BindingPartsView)>,
    ft: Seq<(String, Vec<TagName>)>,
    proj: TagNameView,
    files: Seq<(String, Vec<Statement>)>,
) -> Result<Seq<(Seq<char>, BindingPartsView)>, FractalError>
    decreases files.len(),
{
    if files.len() == 0 {
        Ok(c)
    } else {
        match scan_files(c, ft, proj, files.drop_last()) {
            Ok(c2) => scan_statements(
                c2,
                config_secs(ft, files.last().0@),
                proj,
                files.last().1@,
            ),
            Err(e) => Err(e),
        }
    }
}

/// The store, the entries and the error after committing the accumulated
/// records in cache order: a record with all three pieces becomes a
/// function item inserted under its tags; the first record with a missing
/// piece, or a duplicate name in a requested primary tag, stops the commit
/// with the store as it stands.
pub open spec fn commit_cache(
    m: UniverseModel<UniverseItem>,
    entries: Seq<UniverseEntry>,
    c: Seq<(String, BindingParts)>,
) -> (UniverseModel<UniverseItem>, Seq<UniverseEntry>, Option<FractalError>)
    decreases c.len(),
{
    if c.len() == 0 {
        (m, entries, None)
    } else {
        let name = c[0].0;
        let parts = c[0].1;
        match parts.imp {
            Some(ab) => match parts.sig {
                Some(sig) => match parts.tags {
                    Some(tags) => {
                        if primary_conflict(m, tags@, name@) {
                            (
                                m,
                                entries,
                                Some(
                                    FractalError::UniverseError(
                                        UniverseError::DuplicateBindingName,
                                    ),
                                ),
                            )
                        } else {
                            commit_cache(
                                insert_model(
                                    m,
                                    name,
                                    UniverseItem::FnDecl { sig, args: ab.0, body: ab.1 },
                                    tags@,
                                ),
                                entries.push(
                                    UniverseEntry { binding: m.arena.len() as usize, tags },
                                ),
                                c.drop_first(),
                            )
                        }
                    },
                    None => (
                        m,
                        entries,
                        Some(FractalError::IncompleteBinding { name, missing: MissingPart::Tags }),
                    ),
                },
                None => (
                    m,
                    entries,
                    Some(
                        FractalError::IncompleteBinding { name, missing: MissingPart::Signature },
                    ),
                ),
            },
            None => (
                m,
                entries,
                Some(
                    FractalError::IncompleteBinding {
                        name,
                        missing: MissingPart::Implementation,
                    },
                ),
            ),
        }
    }
}

/// Stopping at an error: once a prefix of the statements fails, the whole
/// scan returns that failure.
proof fn lemma_scan_statements_stop(
    c: Seq<(Seq<char>, BindingPartsView)>,
    fsecs: Seq<TagNameView>,
    proj: TagNameView,
    stmts: Seq<Statement>,
    j: int,
)
    requires
        0 <= j <= stmts.len(),
        scan_statements(c, fsecs, proj, stmts.subrange(0, j)) is Err,
    ensures
        scan_statements(c, fsecs, proj, stmts) == scan_statements(
            c,
            fsecs,
            proj,
            stmts.subrange(0, j),
        ),
    decreases stmts.len() - j,
{
    if j == stmts.len() {
        assert(stmts.subrange(0, j) =~= stmts);
    } else {
        assert(stmts.subrange(0, j + 1).drop_last() =~= stmts.subrange(0, j));
        lemma_scan_statements_stop(c, fsecs, proj, stmts, j + 1);
    }
}

/// See [`lemma_scan_statements_stop`], for whole files.
proof fn lemma_scan_files_stop(
    c: Seq<(Seq<char>, BindingPartsView)>,
    ft: Seq<(String, Vec<TagName>)>,
    proj: TagNameView,
    files: Seq<(String, Vec<Statement>)>,
    j: int,
)
    requires
        0 <= j <= files.len(),
        scan_files(c, ft, proj, files.subrange(0, j)) is Err,
    ensures
        scan_files(c, ft, proj, files) == scan_files(c, ft, proj, files.subrange(0, j)),
    decreases files.len() - j,
{
    if j == files.len() {
        assert(files.subrange(0, j) =~= files);
    } else {
        assert(files.subrange(0, j + 1).drop_last() =~= files.subrange(0, j));
        lemma_scan_files_stop(c, ft, proj, files, j + 1);
    }
}

/// Position of the first cache record for this name.
fn cache_find(cache: &Vec<(String, BindingParts)>, name: &String) -> (r: Option<usize>)
    ensures
        r matches Some(j) ==> j < cache@.len() && cache@[j as int].0@ == name@ && (forall|k: int|
            0 <= k < j ==> cache@[k].0@ != name@),
        r is None ==> forall|k: int| 0 <= k < cache@.len() ==> cache@[k].0@ != name@,
{
    let mut i: usize = 0;
    while i < cache.len()
        invariant
            i <= cache@.len(),
            forall|k: int| 0 <= k < i ==> cache@[k].0@ != name@,
        decreases cache@.len() - i,
    {
        if cache[i].0 == *name {
            return Some(i);
        }
        i = i + 1;
    }
    None
}

/// Applies one exec-level cache update and relates it to [`cache_apply`].
proof fn lemma_cache_view_update(
    before: Seq<(String, BindingParts)>,
    after: Seq<(String, BindingParts)>,
    name: Seq<char>,
    patch: CachePatch,
    j: int,
)
    requires
        0 <= j < before.len(),
        before[j].0@ == name,
        forall|k: int| 0 <= k < j ==> before[k].0@ != name,
        after.len() == before.len(),
        forall|k: int| 0 <= k < before.len() && k != j ==> after[k] == before[k],
        after[j].0@ == name,
        parts_view(after[j].1) == apply_patch(parts_view(before[j].1), patch),
    ensures
        cache_view(after) == cache_apply(cache_view(before), name, patch),
{
    lemma_cache_apply_found(cache_view(before), name, patch, j);
    assert(cache_view(after) =~= cache_view(before).update(
        j,
        (name, apply_patch(cache_view(before)[j].1, patch)),
    ));
}

/// See [`lemma_cache_view_update`], for a fresh name.
proof fn lemma_cache_view_push(
    before: Seq<(String, BindingParts)>,
    after: Seq<(String, BindingParts)>,
    name: Seq<char>,
    patch: CachePatch,
)
    requires
        forall|k: int| 0 <= k < before.len() ==> before[k].0@ != name,
        after.len() == before.len() + 1,
        forall|k: int| 0 <= k < before.len() ==> after[k] == before[k],
        after.last().0@ == name,
        parts_view(after.last().1) == apply_patch(empty_parts(), patch),
    ensures
        cache_view(after) == cache_apply(cache_view(before), name, patch),
{
    lemma_cache_apply_missing(cache_view(before), name, patch);
    assert(cache_view(after) =~= cache_view(before).push(
        (name, apply_patch(empty_parts(), patch)),
    ));
}

/// Records a signature for `name`.
fn cache_set_sig(cache: &mut Vec<(String, BindingParts)>, name: String, sig: Type)
    ensures
        cache_view(final(cache)@) == cache_apply(
            cache_view(old(cache)@),
            name@,
            CachePatch::SetSig(sig),
        ),
{
    let ghost before = cache@;
    let ghost patch = CachePatch::SetSig(sig);
    match cache_find(cache, &name) {
        Some(j) => {
            let entry = cache.remove(j);
            let new_parts = BindingParts { tags: entry.1.tags, sig: Some(sig), imp: entry.1.imp };
            cache.insert(j, (entry.0, new_parts));
            proof {
                assert(forall|k: int|
                    0 <= k < before.len() && k != j ==> cache@[k] == before[k]);
                lemma_cache_view_update(before, cache@, name@, patch, j as int);
            }
        },
        None => {
            cache.push((name, BindingParts { tags: None, sig: Some(sig), imp: None }));
            proof {
                lemma_cache_view_push(before, cache@, cache@.last().0@, patch);
            }
        },
    }
}

/// Records a tag list for `name`.
fn cache_set_tags(cache: &mut Vec<(String, BindingParts)>, name: String, tags: Vec<TagName>)
    ensures
        cache_view(final(cache)@) == cache_apply(
            cache_view(old(cache)@),
            name@,
            CachePatch::SetTags(views_of(tags@)),
        ),
{
    let ghost before = cache@;
    let ghost patch = CachePatch::SetTags(views_of(tags@));
    match cache_find(cache, &name) {
        Some(j) => {
            let entry = cache.remove(j);
            let new_parts = BindingParts { tags: Some(tags), sig: entry.1.sig, imp: entry.1.imp };
            cache.insert(j, (entry.0, new_parts));
            proof {
                assert(forall|k: int|
                    0 <= k < before.len() && k != j ==> cache@[k] == before[k]);
                lemma_cache_view_update(before, cache@, name@, patch, j as int);
            }
        },
        None => {
            cache.push((name, BindingParts { tags: Some(tags), sig: None, imp: None }));
            proof {
                lemma_cache_view_push(before, cache@, cache@.last().0@, patch);
            }
        },
    }
}

/// Records an implementation for `name`.
fn cache_set_imp(
    cache: &mut Vec<(String, BindingParts)>,
    name: String,
    args: Vec<String>,
    body: Vec<Expression>,
)
    ensures
        cache_view(final(cache)@) == cache_apply(
            cache_view(old(cache)@),
            name@,
            CachePatch::SetImp(args, body),
        ),
{
    let ghost before = cache@;
    let ghost patch = CachePatch::SetImp(args, body);
    match cache_find(cache, &name) {
        Some(j) => {
            let entry = cache.remove(j);
            let new_parts = BindingParts {
                tags: entry.1.tags,
                sig: entry.1.sig,
                imp: Some((args, body)),
            };
            cache.insert(j, (entry.0, new_parts));
            proof {
                assert(forall|k: int|
                    0 <= k < before.len() && k != j ==> cache@[k] == before[k]);
                lemma_cache_view_update(before, cache@, name@, patch, j as int);
            }
        },
        None => {
            cache.push((name, BindingParts { tags: None, sig: None, imp: Some((args, body)) }));
            proof {
                lemma_cache_view_push(before, cache@, cache@.last().0@, patch);
            }
        },
    }
}

/// The entries of `ft` before position `i` skip `path`, so the lookup
/// continues in the suffix.
proof fn lemma_config_secs_at(ft: Seq<(String, Vec<TagName>)>, path: Seq<char>, i: int)
    requires
        0 <= i < ft.len(),
        ft[i].0@ == path,
        forall|k: int| 0 <= k < i ==> ft[k].0@ != path,
    ensures
        config_secs(ft, path) == views_of(ft[i].1@),
    decreases i,
{
    if i > 0 {
        assert(forall|k: int| 0 <= k < ft.len() - 1 ==> ft.drop_first()[k] == ft[k + 1]);
        lemma_config_secs_at(ft.drop_first(), path, i - 1);
    }
}

/// Looks up a file's externally declared secondary tags.
fn find_file_tags<'a>(ft: &'a Vec<(String, Vec<TagName>)>, path: &String) -> (r: Option<
    &'a Vec<TagName>,
>)
    ensures
        r matches Some(v) ==> config_has_file(ft@, path@) && views_of(v@) == config_secs(
            ft@,
            path@,
        ),
        r is None ==> !config_has_file(ft@, path@),
{
    let mut i: usize = 0;
    while i < ft.len()
        invariant
            i <= ft@.len(),
            forall|k: int| 0 <= k < i ==> ft@[k].0@ != path@,
        decreases ft@.len() - i,
    {
        if ft[i].0 == *path {
            proof {
                lemma_config_secs_at(ft@, path@, i as int);
            }
            return Some(&ft[i].1);
        }
        i = i + 1;
    }
    None
}

/// Clones a list of tag names.
fn clone_tag_names(v: &Vec<TagName>) -> (res: Vec<TagName>)
    ensures
        res@ == v@,
{
    let mut cloned: Vec<TagName> = Vec::new();
    let mut i: usize = 0;
    while i < v.len()
        invariant
            i <= v@.len(),
            cloned@ == v@.subrange(0, i as int),
        decreases v@.len() - i,
    {
        cloned.push(v[i].clone());
        proof {
            assert(cloned@ =~= v@.subrange(0, i + 1 as int));
        }
        i = i + 1;
    }
    proof {
        assert(cloned@ =~= v@);
    }
    cloned
}

/// A function of one parameter whose body returns that parameter hands its
/// argument back unchanged, whatever the argument is, and prints nothing:
/// the environment holds the argument under the parameter's name, and an
/// identifier evaluates to the environment's value.
pub proof fn lemma_identity_function(
    sig: Type,
    names: Vec<String>,
    body: Vec<Expression>,
    arg: TypedExpression,
    args: Seq<TypedExpression>,
    r: Result<Option<TypedExpression>, FractalError>,
    out: Seq<Seq<char>>,
)
    requires
        names@.len() == 1,
        body@.len() == 1,
        body@[0] matches Expression::Identifier(x) && x@ == names@[0]@,
        args == seq![arg],
        eval_item_rel(UniverseItem::FnDecl { sig, args: names, body }, args, r, out),
    ensures
        r matches Ok(v) && v matches Some(te) && typed_expression_view(te)
            == typed_expression_view(arg),
        out == Seq::<Seq<char>>::empty(),
{
    reveal_with_fuel(env_of_args, 2);
    let env = env_of_args(names@, args);
    assert(names@.drop_last() =~= Seq::<String>::empty());
    assert(args.last() == arg);
    assert(names@.last() == names@[0]);
    assert(env =~= Map::<Seq<char>, TypedExpression>::empty().insert(names@[0]@, arg));
    assert(env.contains_key(names@[0]@));
    assert(env[names@[0]@] == arg);
    assert(eval_expr_rel(env, body@[0], r, out));
}

/// Scanning one file that declares a signature, a tag list and an
/// implementation, all for one name, accumulates exactly one record holding
/// all three pieces, with the tag list equal to the file's secondary tags,
/// then the project tag, then the flattened tag expression.
pub proof fn lemma_scan_single_binding(
    ft: Seq<(String, Vec<TagName>)>,
    proj: TagNameView,
    files: Seq<(String, Vec<Statement>)>,
    n: String,
    sig_args: Vec<Type>,
    sig_ret: Box<Type>,
    te: TagExpression,
    ts: Seq<TagNameView>,
    fn_args: Vec<String>,
    fn_body: Vec<Expression>,
)
    requires
        files.len() == 1,
        files[0].1@.len() == 3,
        files[0].1@[0] == (Statement::TypeDecl {
            name: n,
            body: Type::FnSig { args: sig_args, ret: sig_ret },
        }),
        files[0].1@[1] == (Statement::TypeDecl { name: n, body: Type::Tag(te) }),
        files[0].1@[2] == (Statement::FnDecl { name: n, args: fn_args, body: fn_body }),
        flatten_spec(te) == Some(ts),
    ensures
        scan_files(Seq::empty(), ft, proj, files) == Ok::<
            Seq<(Seq<char>, BindingPartsView)>,
            FractalError,
        >(
            seq![
                (
                    n@,
                    BindingPartsView {
                        tags: Some(config_secs(ft, files[0].0@) + seq![proj] + ts),
                        sig: Some(Type::FnSig { args: sig_args, ret: sig_ret }),
                        imp: Some((fn_args, fn_body)),
                    },
                ),
            ],
        ),
{
    let stmts = files[0].1@;
    let fsecs = config_secs(ft, files[0].0@);
    reveal_with_fuel(scan_statements, 4);
    reveal_with_fuel(scan_files, 2);
    assert(files.drop_last() =~= Seq::<(String, Vec<Statement>)>::empty());
    assert(files.last() == files[0]);
    assert(stmts.drop_last() =~= stmts.subrange(0, 2));
    assert(stmts.subrange(0, 2).drop_last() =~= stmts.subrange(0, 1));
    assert(stmts.subrange(0, 1).drop_last() =~= Seq::<Statement>::empty());
    assert(stmts.subrange(0, 1).last() == stmts[0]);
    assert(stmts.subrange(0, 2).last() == stmts[1]);
    assert(stmts.last() == stmts[2]);
    let c0 = Seq::<(Seq<char>, BindingPartsView)>::empty();
    let p1 = BindingPartsView {
        tags: None,
        sig: Some(Type::FnSig { args: sig_args, ret: sig_ret }),
        imp: None,
    };
    let c1 = cache_apply(
        c0,
        n@,
        CachePatch::SetSig(Type::FnSig { args: sig_args, ret: sig_ret }),
    );
    assert(c1 =~= seq![(n@, p1)]);
    let p2 = BindingPartsView {
        tags: Some(fsecs + seq![proj] + ts),
        sig: Some(Type::FnSig { args: sig_args, ret: sig_ret }),
        imp: None,
    };
    let c2 = cache_apply(c1, n@, CachePatch::SetTags(fsecs + seq![proj] + ts));
    assert(c2 =~= seq![(n@, p2)]) by {
        assert(c1.drop_first() =~= Seq::<(Seq<char>, BindingPartsView)>::empty());
        assert(seq![(c1[0].0, apply_patch(c1[0].1, CachePatch::SetTags(fsecs + seq![proj] + ts)))]
            + c1.drop_first() =~= seq![(n@, p2)]);
    }
    let p3 = BindingPartsView {
        tags: Some(fsecs + seq![proj] + ts),
        sig: Some(Type::FnSig { args: sig_args, ret: sig_ret }),
        imp: Some((fn_args, fn_body)),
    };
    let c3 = cache_apply(c2, n@, CachePatch::SetImp(fn_args, fn_body));
    assert(c3 =~= seq![(n@, p3)]) by {
        assert(c2.drop_first() =~= Seq::<(Seq<char>, BindingPartsView)>::empty());
        assert(seq![(c2[0].0, apply_patch(c2[0].1, CachePatch::SetImp(fn_args, fn_body)))]
            + c2.drop_first() =~= seq![(n@, p3)]);
    }
    assert(scan_statements(c0, fsecs, proj, stmts.subrange(0, 1)) == Ok::<
        Seq<(Seq<char>, BindingPartsView)>,
        FractalError,
    >(c1));
    assert(scan_statements(c0, fsecs, proj, stmts.subrange(0, 2)) == Ok::<
        Seq<(Seq<char>, BindingPartsView)>,
        FractalError,
    >(c2));
    assert(scan_statements(c0, fsecs, proj, stmts) == Ok::<
        Seq<(Seq<char>, BindingPartsView)>,
        FractalError,
    >(c3));
}

/// Committing a cache of one record with all three pieces present and no
/// name conflict commits exactly one binding: the store gains it, and the
/// one new entry carries the record's tag list.
pub proof fn lemma_commit_single_complete(
    m: UniverseModel<UniverseItem>,
    entries: Seq<UniverseEntry>,
    c: Seq<(String, BindingParts)>,
    sig: Type,
    fn_args: Vec<String>,
    fn_body: Vec<Expression>,
    tags: Vec<TagName>,
)
    requires
        c.len() == 1,
        c[0].1.tags == Some(tags),
        c[0].1.sig == Some(sig),
        c[0].1.imp == Some((fn_args, fn_body)),
        !primary_conflict(m, tags@, c[0].0@),
    ensures
        commit_cache(m, entries, c) == (
            insert_model(
                m,
                c[0].0,
                UniverseItem::FnDecl { sig, args: fn_args, body: fn_body },
                tags@,
            ),
            entries.push(UniverseEntry { binding: m.arena.len() as usize, tags }),
            None::<FractalError>,
        ),
{
    reveal_with_fuel(commit_cache, 2);
    assert(c.drop_first() =~= Seq::<(String, BindingParts)>::empty());
}

/// Committing a cache of one record with a piece missing changes nothing
/// and reports the missing piece under the record's name.
pub proof fn lemma_commit_single_incomplete(
    m: UniverseModel<UniverseItem>,
    entries: Seq<UniverseEntry>,
    c: Seq<(String, BindingParts)>,
)
    requires
        c.len() == 1,
        c[0].1.tags is None || c[0].1.sig is None || c[0].1.imp is None,
    ensures
        commit_cache(m, entries, c) == (
            m,
            entries,
            Some(
                FractalError::IncompleteBinding {
                    name: c[0].0,
                    missing: if c[0].1.imp is None {
                        MissingPart::Implementation
                    } else if c[0].1.sig is None {
                        MissingPart::Signature
                    } else {
                        MissingPart::Tags
                    },
                },
            ),
        ),
{
}

/// The resolution-and-evaluation session: the store under construction, the
/// configuration it runs under, the entries committed so far, and the lines
/// the builtins printed.
pub struct Evaluator {
    pub universe: Universe<UniverseItem>,
    pub config: EvaluatorConfig,
    pub entries: Vec<UniverseEntry>,
    pub output: Vec<String>,
}

impl Evaluator {
    /// The store's spec contents.
    pub open spec fn universe_model(self) -> UniverseModel<UniverseItem> {
        self.universe.model()
    }

    /// The store's invariant.
    pub open spec fn wf(self) -> bool {
        self.universe.wf()
    }

    /// The configuration the session was created with.
    pub open spec fn spec_config(self) -> EvaluatorConfig {
        self.config
    }

    pub fn new(config: EvaluatorConfig) -> (r: Evaluator)
        ensures
            r.wf(),
            r.universe_model().arena == Seq::<Binding<UniverseItem>>::empty(),
            r.universe_model().index == Map::<TagNameView, TagModel>::empty(),
            r.spec_config() == config,
            r.entries@ == Seq::<UniverseEntry>::empty(),
            r.output@ == Seq::<String>::empty(),
    {
        Evaluator {
            universe: Universe::<UniverseItem>::default(),
            config,
            entries: Vec::new(),
            output: Vec::new(),
        }
    }

    /// Resolves a parsed program: scans every file's statements in order,
    /// accumulating each name's signature, tag list and implementation,
    /// then commits every complete binding into the store, in first-seen
    /// name order, and appends the new entries.
    ///
    /// The first unsupported shape, the first name with a missing piece,
    /// and the first duplicate name in a primary tag each stop resolution
    /// with the corresponding error.
    pub fn populate(&mut self, files: Vec<(String, Vec<Statement>)>) -> (r: Result<
        (),
        FractalError,
    >)
        requires
            old(self).wf(),
            forall|i: int|
                0 <= i < files@.len() ==> config_has_file(
                    old(self).config.file_tags@,
                    #[trigger] files@[i].0@,
                ),
        ensures
            final(self).wf(),
            final(self).config == old(self).config,
            final(self).output == old(self).output,
            match scan_files(
                Seq::empty(),
                old(self).config.file_tags@,
                old(self).config.project_tag@,
                files@,
            ) {
                Err(e) => r == Err::<(), FractalError>(e) && final(self).universe_model() == old(
                    self,
                ).universe_model() && final(self).entries == old(self).entries,
                Ok(cv) => exists|c: Seq<(String, BindingParts)>|
                    {
                        &&& #[trigger] cache_view(c) == cv
                        &&& final(self).universe_model() == commit_cache(
                            old(self).universe_model(),
                            old(self).entries@,
                            c,
                        ).0
                        &&& final(self).entries@ == commit_cache(
                            old(self).universe_model(),
                            old(self).entries@,
                            c,
                        ).1
                        &&& r == (match commit_cache(
                            old(self).universe_model(),
                            old(self).entries@,
                            c,
                        ).2 {
                            Some(e) => Err::<(), FractalError>(e),
                            None => Ok::<(), FractalError>(()),
                        })
                    },
            },
    {
        let ghost files0 = files@;
        let ghost ft0 = self.config.file_tags@;
        let ghost proj0 = self.config.project_tag@;
        let mut cache: Vec<(String, BindingParts)> = Vec::new();
        proof {
            assert(files0.subrange(0, 0) =~= Seq::<(String, Vec<Statement>)>::empty());
            assert(cache_view(cache@) =~= Seq::<(Seq<char>, BindingPartsView)>::empty());
            assert(files0.skip(0) =~= files0);
        }
        let mut remaining = files;
        while remaining.len() > 0
            invariant
                old(self).wf(),
                self.universe == old(self).universe,
                self.config == old(self).config,
                self.entries == old(self).entries,
                self.output == old(self).output,
                ft0 == old(self).config.file_tags@,
                proj0 == old(self).config.project_tag@,
                files0 == files@,
                remaining@.len() <= files0.len(),
                remaining@ == files0.skip((files0.len() - remaining@.len()) as int),
                forall|i: int|
                    0 <= i < files0.len() ==> config_has_file(ft0, #[trigger] files0[i].0@),
                scan_files(
                    Seq::empty(),
                    ft0,
                    proj0,
                    files0.subrange(0, (files0.len() - remaining@.len()) as int),
                ) == Ok::<Seq<(Seq<char>, BindingPartsView)>, FractalError>(cache_view(cache@)),
            decreases remaining@.len(),
        {
            let ghost i = files0.len() - remaining@.len();
            let ghost cache_at_file = cache_view(cache@);
            let (path, stmts) = remaining.remove(0);
            proof {
                assert(remaining@ =~= files0.skip(i + 1));
                assert(files0.skip(i as int)[0] == files0[i as int]);
                assert(path == files0[i as int].0);
                assert(stmts == files0[i as int].1);
            }
            let fsecs_ref = match find_file_tags(&self.config.file_tags, &path) {
                Some(v) => v,
                None => vstd::pervasive::unreached(),
            };
            let ghost stmts0 = stmts@;
            let mut stmts_rem = stmts;
            while stmts_rem.len() > 0
                invariant
                    old(self).wf(),
                    self.universe == old(self).universe,
                    self.config == old(self).config,
                    self.entries == old(self).entries,
                    self.output == old(self).output,
                    ft0 == old(self).config.file_tags@,
                    proj0 == old(self).config.project_tag@,
                    files0 == files@,
                    views_of(fsecs_ref@) == config_secs(ft0, files0[i as int].0@),
                    0 <= i < files0.len(),
                    stmts0 == files0[i as int].1@,
                    stmts_rem@.len() <= stmts0.len(),
                    stmts_rem@ == stmts0.skip((stmts0.len() - stmts_rem@.len()) as int),
                    scan_files(Seq::empty(), ft0, proj0, files0.subrange(0, i as int)) == Ok::<
                        Seq<(Seq<char>, BindingPartsView)>,
                        FractalError,
                    >(cache_at_file),
                    scan_statements(
                        cache_at_file,
                        views_of(fsecs_ref@),
                        proj0,
                        stmts0.subrange(0, (stmts0.len() - stmts_rem@.len()) as int),
                    ) == Ok::<Seq<(Seq<char>, BindingPartsView)>, FractalError>(
                        cache_view(cache@),
                    ),
                decreases stmts_rem@.len(),
            {
                let ghost j = stmts0.len() - stmts_rem@.len();
                let ghost cache_before = cache_view(cache@);
                let stmt = stmts_rem.remove(0);
                let ghost stmt_g = stmt;
                proof {
                    assert(stmts_rem@ =~= stmts0.skip(j + 1));
                    assert(stmts0.skip(j as int)[0] == stmts0[j as int]);
                    assert(stmt_g == stmts0[j as int]);
                    assert(stmts0.subrange(0, j + 1).drop_last() =~= stmts0.subrange(0, j as int));
                    assert(stmts0.subrange(0, j + 1).last() == stmts0[j as int]);
                }
                match stmt {
                    Statement::TypeDecl { name, body } => {
                        match body {
                            Type::FnSig { args, ret } => {
                                cache_set_sig(&mut cache, name, Type::FnSig { args, ret });
                            },
                            Type::Tag(te) => {
                                let mut tags = clone_tag_names(fsecs_ref);
                                tags.push(self.config.project_tag.clone());
                                let ghost base_tags = tags@;
                                match flatten_tag_opcall_to_tagnames(&mut tags, &te) {
                                    Ok(()) => {
                                        proof {
                                            assert(views_of(base_tags) =~= views_of(fsecs_ref@)
                                                + seq![proj0]);
                                        }
                                        cache_set_tags(&mut cache, name, tags);
                                    },
                                    Err(e) => {
                                        proof {
                                            assert(scan_statement(
                                                cache_before,
                                                views_of(fsecs_ref@),
                                                proj0,
                                                stmt_g,
                                            ) == Err::<
                                                Seq<(Seq<char>, BindingPartsView)>,
                                                FractalError,
                                            >(e));
                                            assert(scan_statements(
                                                cache_at_file,
                                                views_of(fsecs_ref@),
                                                proj0,
                                                stmts0.subrange(0, j + 1),
                                            ) is Err);
                                            lemma_scan_statements_stop(
                                                cache_at_file,
                                                views_of(fsecs_ref@),
                                                proj0,
                                                stmts0,
                                                j + 1,
                                            );
                                            assert(files0.subrange(0, i + 1).drop_last()
                                                =~= files0.subrange(0, i as int));
                                            assert(files0.subrange(0, i + 1).last() == files0[
                                                i as int]);
                                            assert(scan_files(
                                                Seq::empty(),
                                                ft0,
                                                proj0,
                                                files0.subrange(0, i + 1),
                                            ) is Err);
                                            lemma_scan_files_stop(
                                                Seq::empty(),
                                                ft0,
                                                proj0,
                                                files0,
                                                i + 1,
                                            );
                                        }
                                        return Err(e);
                                    },
                                }
                            },
                            _ => {
                                proof {
                                    assert(scan_statements(
                                        cache_at_file,
                                        views_of(fsecs_ref@),
                                        proj0,
                                        stmts0.subrange(0, j + 1),
                                    ) is Err);
                                    lemma_scan_statements_stop(
                                        cache_at_file,
                                        views_of(fsecs_ref@),
                                        proj0,
                                        stmts0,
                                        j + 1,
                                    );
                                    assert(files0.subrange(0, i + 1).drop_last()
                                        =~= files0.subrange(0, i as int));
                                    assert(files0.subrange(0, i + 1).last() == files0[i as int]);
                                    assert(scan_files(
                                        Seq::empty(),
                                        ft0,
                                        proj0,
                                        files0.subrange(0, i + 1),
                                    ) is Err);
                                    lemma_scan_files_stop(Seq::empty(), ft0, proj0, files0, i + 1);
                                }
                                return Err(FractalError::UnexpectedTypeShape);
                            },
                        }
                    },
                    Statement::FnDecl { name, args, body } => {
                        cache_set_imp(&mut cache, name, args, body);
                    },
                    _ => {
                        proof {
                            assert(scan_statements(
                                cache_at_file,
                                views_of(fsecs_ref@),
                                proj0,
                                stmts0.subrange(0, j + 1),
                            ) is Err);
                            lemma_scan_statements_stop(
                                cache_at_file,
                                views_of(fsecs_ref@),
                                proj0,
                                stmts0,
                                j + 1,
                            );
                            assert(files0.subrange(0, i + 1).drop_last() =~= files0.subrange(
                                0,
                                i as int,
                            ));
                            assert(files0.subrange(0, i + 1).last() == files0[i as int]);
                            assert(scan_files(
                                Seq::empty(),
                                ft0,
                                proj0,
                                files0.subrange(0, i + 1),
                            ) is Err);
                            lemma_scan_files_stop(Seq::empty(), ft0, proj0, files0, i + 1);
                        }
                        return Err(FractalError::UnexpectedStatementShape);
                    },
                }
            }
            proof {
                assert(stmts0.subrange(0, stmts0.len() as int) =~= stmts0);
                assert(files0.subrange(0, i + 1).drop_last() =~= files0.subrange(0, i as int));
                assert(files0.subrange(0, i + 1).last() == files0[i as int]);
            }
        }
        proof {
            assert(files0.subrange(0, files0.len() as int) =~= files0);
        }
        let ghost cache_full = cache@;
        let ghost m0 = self.universe.model();
        let ghost e0 = self.entries@;
        let mut work = cache;
        while work.len() > 0
            invariant
                self.universe.wf(),
                self.config == old(self).config,
                self.output == old(self).output,
                ft0 == old(self).config.file_tags@,
                proj0 == old(self).config.project_tag@,
                files0 == files@,
                m0 == old(self).universe_model(),
                e0 == old(self).entries@,
                scan_files(Seq::empty(), ft0, proj0, files0) == Ok::<
                    Seq<(Seq<char>, BindingPartsView)>,
                    FractalError,
                >(cache_view(cache_full)),
                commit_cache(m0, e0, cache_full) == commit_cache(
                    self.universe.model(),
                    self.entries@,
                    work@,
                ),
            decreases work@.len(),
        {
            let ghost m_cur = self.universe.model();
            let ghost e_cur = self.entries@;
            let ghost work_before = work@;
            let (name, parts) = work.remove(0);
            proof {
                assert(work@ =~= work_before.drop_first());
                assert(work_before[0] == (name, parts));
            }
            match parts.imp {
                Some(ab) => {
                    match parts.sig {
                        Some(sig) => {
                            match parts.tags {
                                Some(tags) => {
                                    let (fn_args, fn_body) = ab;
                                    let request = BindingBuilder {
                                        name,
                                        value: Some(
                                            UniverseItem::FnDecl {
                                                sig,
                                                args: fn_args,
                                                body: fn_body,
                                            },
                                        ),
                                        tags,
                                    };
                                    match self.universe.insert(request) {
                                        Ok(entry) => {
                                            let UniverseEntry { binding: eb, tags: et } = entry;
                                            self.entries.push(
                                                UniverseEntry { binding: eb, tags: et },
                                            );
                                            proof {
                                                assert(self.entries@ =~= e_cur.push(
                                                    UniverseEntry { binding: eb, tags: et },
                                                ));
                                            }
                                        },
                                        Err(e) => {
                                            proof {
                                                assert(e == UniverseError::DuplicateBindingName);
                                                assert(commit_cache(m_cur, e_cur, work_before).2
                                                    == Some(
                                                    FractalError::UniverseError(
                                                        UniverseError::DuplicateBindingName,
                                                    ),
                                                ));
                                            }
                                            return Err(FractalError::UniverseError(e));
                                        },
                                    }
                                },
                                None => {
                                    return Err(
                                        FractalError::IncompleteBinding {
                                            name,
                                            missing: MissingPart::Tags,
                                        },
                                    );
                                },
                            }
                        },
                        None => {
                            return Err(
                                FractalError::IncompleteBinding {
                                    name,
                                    missing: MissingPart::Signature,
                                },
                            );
                        },
                    }
                },
                None => {
                    return Err(
                        FractalError::IncompleteBinding {
                            name,
                            missing: MissingPart::Implementation,
                        },
                    );
                },
            }
        }
        proof {
            assert(commit_cache(self.universe.model(), self.entries@, work@) == (
                self.universe.model(),
                self.entries@,
                None::<FractalError>,
            ));
            assert(cache_view(cache_full) == cache_view(cache_full));
        }
        Ok(())
    }

    /// Evaluates one expression against the given local bindings; printed
    /// lines are appended to the session's output.
    pub fn eval_expression(
        &mut self,
        local_bindings: &Vec<(String, TypedExpression)>,
        expr: &Expression,
    ) -> (r: Result<Option<TypedExpression>, FractalError>)
        ensures
            final(self).universe_model() == old(self).universe_model(),
            final(self).wf() == old(self).wf(),
            final(self).spec_config() == old(self).spec_config(),
            final(self).entries == old(self).entries,
            output_extends(old(self).output@, final(self).output@),
            eval_expr_rel(
                env_map(local_bindings@),
                *expr,
                r,
                output_delta(old(self).output@, final(self).output@),
            ),
    {
        eval_expression_in(local_bindings, expr, &mut self.output)
    }

    /// Calls an item on `args`: requires it to be a function, binds the
    /// arguments positionally and evaluates the body in sequence.
    pub fn eval_fn(&mut self, item: UniverseItem, args: Vec<TypedExpression>) -> (r: Result<
        Option<TypedExpression>,
        FractalError,
    >)
        ensures
            final(self).universe_model() == old(self).universe_model(),
            final(self).wf() == old(self).wf(),
            final(self).spec_config() == old(self).spec_config(),
            final(self).entries == old(self).entries,
            output_extends(old(self).output@, final(self).output@),
            eval_item_rel(item, args@, r, output_delta(old(self).output@, final(self).output@)),
    {
        eval_item_in(&item, args, &mut self.output)
    }

    /// Evaluates a committed entry on `args`.
    pub fn eval(&mut self, entry: &UniverseEntry, args: Vec<TypedExpression>) -> (r: Result<
        Option<TypedExpression>,
        FractalError,
    >)
        requires
            entry.binding < old(self).universe_model().arena.len(),
        ensures
            final(self).universe_model() == old(self).universe_model(),
            final(self).wf() == old(self).wf(),
            final(self).spec_config() == old(self).spec_config(),
            final(self).entries == old(self).entries,
            output_extends(old(self).output@, final(self).output@),
            eval_item_rel(
                old(self).universe_model().arena[entry.binding as int].value,
                args@,
                r,
                output_delta(old(self).output@, final(self).output@),
            ),
    {
        let item = match self.universe.get(entry.binding) {
            Some(b) => &b.value,
            None => vstd::pervasive::unreached(),
        };
        eval_item_in(item, args, &mut self.output)
    }
}

} // verus!
