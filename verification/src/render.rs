//! The prefix/line renderer: two pure functions that alone define the
//! visual shape of the tree.
//!
//! `render_line` produces the text printed for one entry; `child_prefix`
//! produces the prefix inherited by that entry's children. Both return
//! exactly the character sequence stated by their spec-level counterparts,
//! so equal inputs always yield equal output strings.

use vstd::prelude::*;
use vstd::string::StringExecFns;

use crate::constants::BAR;
use crate::constants::ELL;
use crate::constants::TAB;
use crate::constants::TEE;
use crate::constants::spec_bar;
use crate::constants::spec_ell;
use crate::constants::spec_tab;
use crate::constants::spec_tee;

verus! {

/// The separator drawn directly before an entry's name: the elbow for the
/// last sibling of its (filtered) group, the tee for every other sibling.
pub open spec fn spec_sep(is_last: bool) -> Seq<char> {
    if is_last {
        spec_ell()
    } else {
        spec_tee()
    }
}

/// The token appended to the prefix handed to an entry's children: a bar
/// while further siblings follow (the guide line continues), blanks after
/// the last sibling.
pub open spec fn spec_cont(is_last: bool) -> Seq<char> {
    if is_last {
        spec_tab()
    } else {
        spec_bar()
    }
}

/// The text printed for one entry.
pub open spec fn spec_render_line(prefix: Seq<char>, is_last: bool, name: Seq<char>) -> Seq<char> {
    prefix + spec_sep(is_last) + name
}

/// The prefix inherited by an entry's children.
pub open spec fn spec_child_prefix(prefix: Seq<char>, is_last: bool) -> Seq<char> {
    prefix + spec_cont(is_last)
}

/// Renders the line for one entry: the parent's prefix, then the separator
/// chosen by the entry's position in its filtered sibling group, then the
/// entry's display name.
pub fn render_line(prefix: &str, is_last: bool, name: &str) -> (r: String)
    ensures
        r@ == spec_render_line(prefix@, is_last, name@),
{
    let mut s = String::from_str(prefix);
    if is_last {
        s.append(ELL);
    } else {
        s.append(TEE);
    }
    s.append(name);
    s
}

/// Computes the prefix for the children of an entry rendered with `prefix`
/// and the given position in its filtered sibling group.
pub fn child_prefix(prefix: &str, is_last: bool) -> (r: String)
    ensures
        r@ == spec_child_prefix(prefix@, is_last),
{
    let mut s = String::from_str(prefix);
    if is_last {
        s.append(TAB);
    } else {
        s.append(BAR);
    }
    s
}

} // verus!
