use vstd::prelude::*;

verus! {

/// The conditions a caller of the planning pipeline may need to report: a
/// definition file that cannot be read, content that cannot be parsed, or a
/// request for an item no recipe produces. The engine itself never raises
/// these — a missing recipe degrades to an unresolved node — they exist for
/// the loading and presentation layers around it.
#[derive(Debug)]
pub enum ProductionError {
    FileNotFound(String),
    ParseError(String),
    RecipeNotFound(String),
}

} // verus!
