//! The fixed-width tokens that compose the tree-format output style.
//!
//! Each token is four characters wide. `TEE` and `ELL` sit directly before
//! an entry's name; `BAR` and `TAB` are appended to the prefix inherited by
//! a directory's children, continuing (or ending) the vertical guide lines
//! of the enclosing sibling groups.

use vstd::prelude::*;

verus! {

/// Continuation under a non-last entry's name: nothing to draw.
pub const TAB: &'static str = "    ";

/// Continuation under a non-last sibling: the guide line goes on.
pub const BAR: &'static str = "│   ";

/// Separator before a sibling that is followed by further siblings.
pub const TEE: &'static str = "├── ";

/// Separator before the last sibling of its group.
pub const ELL: &'static str = "└── ";

/// The characters of the tee separator.
pub open spec fn spec_tee() -> Seq<char> {
    "├── "@
}

/// The characters of the elbow separator.
pub open spec fn spec_ell() -> Seq<char> {
    "└── "@
}

/// The characters of the bar continuation token.
pub open spec fn spec_bar() -> Seq<char> {
    "│   "@
}

/// The characters of the blank continuation token.
pub open spec fn spec_tab() -> Seq<char> {
    "    "@
}

} // verus!
