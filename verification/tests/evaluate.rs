use snowflake::ast::{Expression, OpSymbol, Statement, TagExpression, Type};
use snowflake::eval::{
    Evaluator, EvaluatorConfig, FractalError, TypedExpression, UniverseItem,
};
use snowflake::script;
use snowflake::tag::TagName;
use snowflake::universe::UniverseEntry;

fn config() -> EvaluatorConfig {
    EvaluatorConfig {
        project_tag: TagName::Primary(String::from("proj")),
        file_tags: vec![(String::from("main.sn"), vec![])],
    }
}

fn function_program(name: &str, params: Vec<&str>, body: Vec<Expression>) -> Vec<(String, Vec<Statement>)> {
    vec![(
        String::from("main.sn"),
        vec![
            Statement::TypeDecl {
                name: String::from(name),
                body: Type::FnSig {
                    args: vec![Type::Identifier(String::from("int"))],
                    ret: Box::new(Type::Identifier(String::from("int"))),
                },
            },
            Statement::TypeDecl {
                name: String::from(name),
                body: Type::Tag(TagExpression::Identifier(String::from("lib"))),
            },
            Statement::FnDecl {
                name: String::from(name),
                args: params.into_iter().map(String::from).collect(),
                body,
            },
        ],
    )]
}

fn resolved(name: &str, params: Vec<&str>, body: Vec<Expression>) -> (Evaluator, UniverseEntry) {
    let mut evaluator = Evaluator::new(config());
    evaluator.populate(function_program(name, params, body)).unwrap();
    assert_eq!(evaluator.entries.len(), 1);
    let entry = UniverseEntry {
        binding: evaluator.entries[0].binding,
        tags: Vec::new(),
    };
    (evaluator, entry)
}

fn ilarge(i: i128) -> TypedExpression {
    TypedExpression(Type::Identifier(String::from("ilarge")), Expression::Integer(i))
}

#[test]
fn println_writes_line_and_yields_no_value() {
    let (mut evaluator, entry) = resolved(
        "main",
        vec![],
        vec![Expression::FnCall {
            name: String::from("println"),
            args: vec![Expression::StringLiteral(String::from("hi"))],
        }],
    );
    let result = evaluator.eval(&entry, Vec::new());
    assert_eq!(result, Ok(None));
    assert_eq!(evaluator.output, vec![String::from("hi")]);
}

#[test]
fn identity_returns_argument_unchanged() {
    let (mut evaluator, entry) = resolved(
        "id",
        vec!["x"],
        vec![Expression::Identifier(String::from("x"))],
    );
    let result = evaluator.eval(&entry, vec![ilarge(69)]);
    assert_eq!(result, Ok(Some(ilarge(69))));
    assert!(evaluator.output.is_empty());
}

#[test]
fn arity_mismatch_is_an_error_not_an_abort() {
    let (mut evaluator, entry) = resolved(
        "two",
        vec!["a", "b"],
        vec![Expression::Identifier(String::from("a"))],
    );
    let result = evaluator.eval(&entry, vec![ilarge(1)]);
    assert_eq!(result, Err(FractalError::ArityMismatch));
}

#[test]
fn integer_literal_is_tagged_ilarge() {
    let (mut evaluator, entry) = resolved("f", vec![], vec![Expression::Integer(42)]);
    assert_eq!(evaluator.eval(&entry, Vec::new()), Ok(Some(ilarge(42))));
}

#[test]
fn string_literal_is_tagged_string() {
    let (mut evaluator, entry) =
        resolved("f", vec![], vec![Expression::StringLiteral(String::from("s"))]);
    assert_eq!(
        evaluator.eval(&entry, Vec::new()),
        Ok(Some(TypedExpression(
            Type::Identifier(String::from("string")),
            Expression::StringLiteral(String::from("s")),
        )))
    );
}

#[test]
fn last_expression_value_wins() {
    let (mut evaluator, entry) = resolved(
        "f",
        vec![],
        vec![Expression::Integer(1), Expression::Integer(2)],
    );
    assert_eq!(evaluator.eval(&entry, Vec::new()), Ok(Some(ilarge(2))));
}

#[test]
fn unbound_identifier_is_reported_with_its_name() {
    let (mut evaluator, entry) = resolved(
        "f",
        vec![],
        vec![Expression::Identifier(String::from("nope"))],
    );
    assert_eq!(
        evaluator.eval(&entry, Vec::new()),
        Err(FractalError::UnboundIdentifier(String::from("nope")))
    );
}

#[test]
fn println_requires_a_string_value() {
    let (mut evaluator, entry) = resolved(
        "f",
        vec![],
        vec![Expression::FnCall {
            name: String::from("println"),
            args: vec![Expression::Integer(3)],
        }],
    );
    assert_eq!(evaluator.eval(&entry, Vec::new()), Err(FractalError::TypeMismatch));
    assert!(evaluator.output.is_empty());
}

#[test]
fn println_without_arguments_is_an_arity_mismatch() {
    let (mut evaluator, entry) = resolved(
        "f",
        vec![],
        vec![Expression::FnCall { name: String::from("println"), args: vec![] }],
    );
    assert_eq!(evaluator.eval(&entry, Vec::new()), Err(FractalError::ArityMismatch));
}

#[test]
fn unknown_call_name_is_reported() {
    let (mut evaluator, entry) = resolved(
        "f",
        vec![],
        vec![Expression::FnCall { name: String::from("frobnicate"), args: vec![] }],
    );
    assert_eq!(
        evaluator.eval(&entry, Vec::new()),
        Err(FractalError::UnknownBuiltin(String::from("frobnicate")))
    );
}

#[test]
fn arithmetic_is_not_interpreted_yet() {
    let (mut evaluator, entry) = resolved(
        "f",
        vec![],
        vec![Expression::OpCall {
            op: OpSymbol::Plus,
            args: vec![Expression::Integer(1), Expression::Integer(2)],
        }],
    );
    assert_eq!(evaluator.eval(&entry, Vec::new()), Err(FractalError::Unimplemented));
}

#[test]
fn eval_fn_rejects_the_placeholder_item() {
    let mut evaluator = Evaluator::new(config());
    assert_eq!(
        evaluator.eval_fn(UniverseItem::Empty, Vec::new()),
        Err(FractalError::TypeMismatch)
    );
}

#[test]
fn eval_expression_reads_local_bindings() {
    let mut evaluator = Evaluator::new(config());
    let locals = vec![(String::from("x"), ilarge(7))];
    let result = evaluator.eval_expression(&locals, &Expression::Identifier(String::from("x")));
    assert_eq!(result, Ok(Some(ilarge(7))));
}

#[test]
fn empty_body_yields_no_value() {
    let (mut evaluator, entry) = resolved("f", vec![], vec![]);
    assert_eq!(evaluator.eval(&entry, Vec::new()), Ok(None));
}

#[test]
fn script_eval_commits_a_function_declaration() {
    let statement = Statement::FnDecl {
        name: String::from("add"),
        args: vec![String::from("a"), String::from("b")],
        body: vec![Expression::Identifier(String::from("a"))],
    };
    let universe = script::eval(statement).unwrap();
    let binding = universe.get(0).unwrap();
    assert_eq!(binding.name, String::from("add"));
}

#[test]
fn script_eval_ignores_other_statements() {
    let statement = Statement::Expression(Expression::Integer(1));
    let universe = script::eval(statement).unwrap();
    assert!(universe.get(0).is_none());
}
