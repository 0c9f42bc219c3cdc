use vstd::prelude::*;

pub mod closure;
pub mod codec;
pub mod doc;
pub mod locate;
pub mod registry;
pub mod search;
pub mod sidecar;
pub mod util;

verus! {

/// Everything that can go wrong in the tag store and its operations.
#[derive(Debug)]
pub enum TagError {
    /// No registry is discoverable from the start directory.
    NotFound,
    /// Initialization would shadow a registry that already governs the target.
    AlreadyExists,
    /// A document could not be parsed at all.
    Decode,
    /// A document parsed, but a consulted field had the wrong shape.
    Schema,
    /// References to tag names the registry does not define, in the order met.
    UnknownTags(Vec<String>),
    /// A filesystem failure, described by the front end.
    Io(String),
}

/// Semantic version of the tool, written into every document it produces.
pub fn tool_version() -> (r: String)
    ensures
        r@ == "1.0.0"@,
{
    "1.0.0".to_owned()
}

} // verus!
