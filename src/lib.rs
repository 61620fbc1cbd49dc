//! Renders documentation for annotated type declarations into prose
//! documents that embed `<% path %>` directives.
use vstd::prelude::*;

pub mod text;
pub mod modpath;
pub mod model;
pub mod resolver;
pub mod source;
pub mod renderer;
pub mod markdown;
pub mod replacer;
pub mod rename_rule;

verus! {

} // verus!
