//! An actor orchestration library: a textual actor specification is parsed
//! into a keyword-to-content mapping, resolved into a typed actor definition,
//! and executed by a deterministic run-loop model whose scheduling decisions
//! (message draining, tick cadence, stop handshake) are verified.

pub mod canon;
pub mod definition;
pub mod keywords;
pub mod laws;
pub mod mapping;
pub mod parser;
pub mod runtime;
pub mod text;

use vstd::prelude::*;

use crate::definition::ActorDefinition;
use crate::definition::definition_of;
use crate::definition::tick_wf;
use crate::parser::ParseError;
use crate::parser::mapping_of;
use crate::parser::parse;
use crate::parser::parse_error_of;

verus! {

/// Translates one actor specification text into its typed definition: the
/// whole build-time pipeline. Fails exactly when the text has no leading
/// name token, when a required section (`input`, `on_message`) resolves to
/// empty content, or when the tick-interval section is not a non-negative
/// millisecond count.
pub fn actor(text: &[char]) -> (r: Result<ActorDefinition, ParseError>)
    ensures
        r is Ok <==> (parse_error_of(text@) is None && tick_wf(mapping_of(text@).tick_interval)),
        r matches Ok(d) ==> d@ == definition_of(mapping_of(text@)),
        r matches Err(e) ==> match parse_error_of(text@) {
            Some(pe) => e == pe,
            None => e == ParseError::InvalidTickInterval && !tick_wf(
                mapping_of(text@).tick_interval,
            ),
        },
{
    match parse(text) {
        Err(e) => Err(e),
        Ok(m) => ActorDefinition::from_mapping(m),
    }
}

} // verus!
