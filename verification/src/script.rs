//! Direct execution of a single parsed statement against a fresh store.
//!
//! An early, minimal front end to the binding store: a function declaration
//! is committed under no tags; every other statement shape has no
//! interpreted effect yet.

use vstd::prelude::*;
use crate::ast::Statement;
use crate::tag::TagName;
use crate::universe::{insert_model, BindingBuilder, Universe, UniverseError};

verus! {

/// Commits a function declaration into the store; other statements leave
/// it untouched.
fn eval_statement(universe: &mut Universe<Statement>, statement: Statement) -> (r: Result<
    (),
    UniverseError,
>)
    requires
        old(universe).wf(),
    ensures
        final(universe).wf(),
        r is Ok,
        statement matches Statement::FnDecl { name, args, body } ==> final(universe).model()
            == insert_model(
            old(universe).model(),
            name,
            Statement::FnDecl { name, args, body },
            Seq::<TagName>::empty(),
        ),
        !(statement is FnDecl) ==> final(universe).model() == old(universe).model(),
{
    match statement {
        Statement::FnDecl { name, args, body } => {
            let request = BindingBuilder {
                name: name.clone(),
                value: Some(Statement::FnDecl { name, args, body }),
                tags: Vec::new(),
            };
            match universe.insert(request) {
                Ok(_entry) => Ok(()),
                Err(err) => Err(err),
            }
        },
        _ => Ok(()),
    }
}

/// Executes one statement of a parsed program against a fresh store and
/// returns the store: a function declaration becomes its only binding,
/// committed under no tags.
pub fn eval(statement: Statement) -> (r: Result<Universe<Statement>, UniverseError>)
    ensures
        r matches Ok(u) && u.wf(),
        r matches Ok(u) ==> (statement matches Statement::FnDecl { name, args, body }
            ==> u.model() == insert_model(
            Universe::<Statement>::empty_model(),
            name,
            Statement::FnDecl { name, args, body },
            Seq::<TagName>::empty(),
        )),
        r matches Ok(u) ==> (!(statement is FnDecl) ==> u.model()
            == Universe::<Statement>::empty_model()),
{
    let mut universe = Universe::<Statement>::default();
    match eval_statement(&mut universe, statement) {
        Ok(()) => Ok(universe),
        Err(err) => Err(err),
    }
}

} // verus!
