//! A document remarshaller's core: a format-neutral document value with a
//! depth-bounded, order-keeping merge; the bridge that writes values as
//! script source and reads them back from the script runtime; a template
//! compiler that turns `<% %>` markup into a script; and the pipeline that
//! reads documents, runs commands over a queue of values, and hands the
//! results out to be written.
use vstd::prelude::*;

pub mod document;
pub mod flagged_option;
pub mod lua;
pub mod pipeline;
pub mod template;
pub mod text;
pub mod unit;
pub mod value;
pub mod yaml;

verus! {

} // verus!
