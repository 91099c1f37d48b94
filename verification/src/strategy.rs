use vstd::prelude::*;

pub mod ellipsis;
pub mod fish;
pub mod hybrid;
pub mod unique;

verus! {

/// Shortening strategy.
#[derive(Debug, Clone, Copy, PartialEq, Eq, Structural)]
pub enum Strategy {
    /// Replace middle segments with `...`: `/Users/john/.../file.txt`
    Ellipsis,
    /// Abbreviate intermediate dirs to first char: `/U/j/p/r/file.txt`
    Fish,
    /// Graduated approach: fish expendable segments first, then ellipsis, then fish identity.
    Hybrid,
    /// Shortest prefix that tells each segment apart from the others in the path.
    Unique,
}

} // verus!
