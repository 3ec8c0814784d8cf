use snowflake::ast::{Expression, OpSymbol, Statement, TagExpression, Type};
use snowflake::eval::{
    flatten_tag_opcall_to_tagnames, Evaluator, EvaluatorConfig, FractalError, MissingPart,
    UniverseItem,
};
use snowflake::tag::TagName;
use snowflake::universe::UniverseError;

fn primary(name: &str) -> TagName {
    TagName::Primary(String::from(name))
}

fn secondary(name: &str) -> TagName {
    TagName::Secondary(String::from(name))
}

#[test]
fn flatten_intersection_in_source_order() {
    // the tag expression written *a^b^c
    let expr = TagExpression::OpCall {
        op: OpSymbol::Circumflex,
        args: vec![
            TagExpression::PrimaryIdentifier(String::from("a")),
            TagExpression::Identifier(String::from("b")),
            TagExpression::Identifier(String::from("c")),
        ],
    };
    let mut names: Vec<TagName> = Vec::new();
    assert_eq!(flatten_tag_opcall_to_tagnames(&mut names, &expr), Ok(()));
    assert_eq!(names, vec![primary("a"), secondary("b"), secondary("c")]);
}

#[test]
fn flatten_nested_intersections() {
    let expr = TagExpression::OpCall {
        op: OpSymbol::Circumflex,
        args: vec![
            TagExpression::OpCall {
                op: OpSymbol::Circumflex,
                args: vec![
                    TagExpression::PrimaryIdentifier(String::from("a")),
                    TagExpression::Identifier(String::from("b")),
                ],
            },
            TagExpression::Identifier(String::from("c")),
        ],
    };
    let mut names: Vec<TagName> = Vec::new();
    assert_eq!(flatten_tag_opcall_to_tagnames(&mut names, &expr), Ok(()));
    assert_eq!(names, vec![primary("a"), secondary("b"), secondary("c")]);
}

#[test]
fn flatten_rejects_other_operators() {
    let expr = TagExpression::OpCall {
        op: OpSymbol::Plus,
        args: vec![
            TagExpression::Identifier(String::from("a")),
            TagExpression::Identifier(String::from("b")),
        ],
    };
    let mut names: Vec<TagName> = Vec::new();
    assert_eq!(
        flatten_tag_opcall_to_tagnames(&mut names, &expr),
        Err(FractalError::UnexpectedTagShape)
    );
    assert!(names.is_empty());
}

fn int_identifier(name: &str) -> Type {
    Type::Identifier(String::from(name))
}

fn add_signature() -> Type {
    Type::FnSig {
        args: vec![int_identifier("int"), int_identifier("int")],
        ret: Box::new(int_identifier("int")),
    }
}

fn add_tag_declaration() -> Statement {
    Statement::TypeDecl {
        name: String::from("add"),
        body: Type::Tag(TagExpression::OpCall {
            op: OpSymbol::Circumflex,
            args: vec![
                TagExpression::PrimaryIdentifier(String::from("a")),
                TagExpression::Identifier(String::from("b")),
            ],
        }),
    }
}

fn add_implementation() -> Statement {
    Statement::FnDecl {
        name: String::from("add"),
        args: vec![String::from("a"), String::from("b")],
        body: vec![Expression::Integer(0)],
    }
}

fn add_type_declaration() -> Statement {
    Statement::TypeDecl { name: String::from("add"), body: add_signature() }
}

fn config_for(path: &str) -> EvaluatorConfig {
    EvaluatorConfig {
        project_tag: primary("proj"),
        file_tags: vec![(String::from(path), vec![secondary("ext")])],
    }
}

#[test]
fn populate_complete_binding() {
    let mut evaluator = Evaluator::new(config_for("main.sn"));
    let files = vec![(
        String::from("main.sn"),
        vec![add_type_declaration(), add_tag_declaration(), add_implementation()],
    )];
    assert_eq!(evaluator.populate(files), Ok(()));
    assert_eq!(evaluator.entries.len(), 1);
    let entry = &evaluator.entries[0];
    assert_eq!(
        entry.tags,
        vec![secondary("ext"), primary("proj"), primary("a"), secondary("b")]
    );
    let binding = evaluator.universe.get(entry.binding).unwrap();
    assert_eq!(binding.name, String::from("add"));
    match &binding.value {
        UniverseItem::FnDecl { sig, args, body } => {
            assert_eq!(*sig, add_signature());
            assert_eq!(*args, vec![String::from("a"), String::from("b")]);
            assert_eq!(*body, vec![Expression::Integer(0)]);
        },
        UniverseItem::Empty => panic!("expected a function item"),
    }
}

#[test]
fn populate_missing_signature() {
    let mut evaluator = Evaluator::new(config_for("main.sn"));
    let files = vec![(
        String::from("main.sn"),
        vec![add_tag_declaration(), add_implementation()],
    )];
    assert_eq!(
        evaluator.populate(files),
        Err(FractalError::IncompleteBinding {
            name: String::from("add"),
            missing: MissingPart::Signature,
        })
    );
}

#[test]
fn populate_missing_tags() {
    let mut evaluator = Evaluator::new(config_for("main.sn"));
    let files = vec![(
        String::from("main.sn"),
        vec![add_type_declaration(), add_implementation()],
    )];
    assert_eq!(
        evaluator.populate(files),
        Err(FractalError::IncompleteBinding {
            name: String::from("add"),
            missing: MissingPart::Tags,
        })
    );
}

#[test]
fn populate_missing_implementation() {
    let mut evaluator = Evaluator::new(config_for("main.sn"));
    let files = vec![(
        String::from("main.sn"),
        vec![add_type_declaration(), add_tag_declaration()],
    )];
    assert_eq!(
        evaluator.populate(files),
        Err(FractalError::IncompleteBinding {
            name: String::from("add"),
            missing: MissingPart::Implementation,
        })
    );
}

#[test]
fn populate_rejects_unexpected_type_shape() {
    let mut evaluator = Evaluator::new(config_for("main.sn"));
    let files = vec![(
        String::from("main.sn"),
        vec![Statement::TypeDecl { name: String::from("add"), body: Type::Nat(3) }],
    )];
    assert_eq!(evaluator.populate(files), Err(FractalError::UnexpectedTypeShape));
}

#[test]
fn populate_rejects_unexpected_statement_shape() {
    let mut evaluator = Evaluator::new(config_for("main.sn"));
    let files = vec![(
        String::from("main.sn"),
        vec![Statement::Expression(Expression::Integer(1))],
    )];
    assert_eq!(evaluator.populate(files), Err(FractalError::UnexpectedStatementShape));
}

#[test]
fn populate_rejects_bad_tag_expression() {
    let mut evaluator = Evaluator::new(config_for("main.sn"));
    let files = vec![(
        String::from("main.sn"),
        vec![Statement::TypeDecl {
            name: String::from("add"),
            body: Type::Tag(TagExpression::OpCall {
                op: OpSymbol::Star,
                args: vec![TagExpression::Identifier(String::from("a"))],
            }),
        }],
    )];
    assert_eq!(evaluator.populate(files), Err(FractalError::UnexpectedTagShape));
}

#[test]
fn populate_twice_duplicates_project_binding() {
    let mut evaluator = Evaluator::new(config_for("main.sn"));
    let program = || {
        vec![(
            String::from("main.sn"),
            vec![add_type_declaration(), add_tag_declaration(), add_implementation()],
        )]
    };
    assert_eq!(evaluator.populate(program()), Ok(()));
    assert_eq!(
        evaluator.populate(program()),
        Err(FractalError::UniverseError(UniverseError::DuplicateBindingName))
    );
}

#[test]
fn populate_accumulates_across_files() {
    let config = EvaluatorConfig {
        project_tag: primary("proj"),
        file_tags: vec![
            (String::from("a.sn"), vec![]),
            (String::from("b.sn"), vec![]),
        ],
    };
    let mut evaluator = Evaluator::new(config);
    // the signature arrives in one file, tags and body in the other:
    // forward references across files are legal
    let files = vec![
        (String::from("a.sn"), vec![add_type_declaration()]),
        (String::from("b.sn"), vec![add_tag_declaration(), add_implementation()]),
    ];
    assert_eq!(evaluator.populate(files), Ok(()));
    assert_eq!(evaluator.entries.len(), 1);
    assert_eq!(
        evaluator.entries[0].tags,
        vec![primary("proj"), primary("a"), secondary("b")]
    );
}
