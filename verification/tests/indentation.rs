use snowflake::indentation::{Indentation, IndentationLevel};

#[test]
fn test_indentation() {
    let mut indentation = IndentationLevel::new();
    assert_eq!(indentation.update(1), Ok(Indentation::Indent));
    assert_eq!(indentation.level(), 1);
    assert_eq!(indentation.update(0), Ok(Indentation::Dedent(1)));
    assert_eq!(indentation.level(), 0);
    assert_eq!(indentation.update(1), Ok(Indentation::Indent));
    assert_eq!(indentation.level(), 1);
    assert_eq!(indentation.update(3), Ok(Indentation::Indent));
    assert_eq!(indentation.level(), 3);
    assert_eq!(
        indentation.update(2),
        Err("indentation level while dedenting does not match any previously indented level.")
    );
    assert_eq!(indentation.level(), 3);
    assert_eq!(indentation.update(0), Ok(Indentation::Dedent(2)));
    assert_eq!(indentation.level(), 0);
}

#[test]
fn test_indentation_stack_size() {
    let mut indentation = IndentationLevel::new();
    assert_eq!(indentation.update(1), Ok(Indentation::Indent));
    assert_eq!(indentation.level(), 1);
    assert_eq!(indentation.update(2), Ok(Indentation::Indent));
    assert_eq!(indentation.level(), 2);
    assert_eq!(indentation.update(3), Ok(Indentation::Indent));
    assert_eq!(indentation.level(), 3);
    assert_eq!(indentation.stack.len(), 3);
    assert_eq!(indentation.update(2), Ok(Indentation::Dedent(1)));
    assert_eq!(indentation.stack.len(), 2)
}

#[test]
fn indentation_ondent_keeps_stack() {
    let mut indentation = IndentationLevel::new();
    assert_eq!(indentation.update(2), Ok(Indentation::Indent));
    assert_eq!(indentation.update(2), Ok(Indentation::Ondent));
    assert_eq!(indentation.level(), 2);
    assert_eq!(indentation.stack.len(), 1);
}
