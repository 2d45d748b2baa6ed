//! A front end for risk orchestration rules: a parser from the text of a
//! rule document to a typed model, and an analyzer that checks the model.

use vstd::prelude::*;

pub mod analyzer;
pub mod decimal;
pub mod diagnostics;
pub mod error;
pub mod expression;
pub mod grammar;
pub mod graph;
pub mod guarantees;
pub mod insights;
pub mod parser;
pub mod schema;
pub mod search;
pub mod text;
pub mod types;
pub mod validator;

pub use error::{ParserError, ParserResult};
pub use parser::{LrolModel, LrolParser};
pub use types::{Action, Evaluation, EvaluationType, Value};

verus! {

/// Parses the text of a rule document. The evaluations of the model that it
/// returns have what their kinds ask for.
pub fn parse_str(content: &str) -> (r: ParserResult<LrolModel>)
    ensures
        match r {
            Ok(model) => parser::parsed(content@) == Ok::<
                parser::ModelView,
                error::ParserErrorView,
            >(model@) && parser::all_well_formed(model@.evaluations),
            Err(e) => parser::parsed(content@) == Err::<
                parser::ModelView,
                error::ParserErrorView,
            >(e@),
        },
{
    LrolParser::parse(content)
}

} // verus!
