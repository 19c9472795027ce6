//! The tree walker: a depth-first traversal of a directory snapshot that
//! renders one line per accepted entry and tallies what it visited.
//!
//! The traversal is specified by `walk_entry` and `walk_group`, which give
//! the exact lines and counts for a subtree and for a sibling group, and
//! implemented by [`walk`], whose contract says it produces exactly that.

use vstd::prelude::*;

use crate::config::FilterPolicy;
use crate::config::spec_accepts;
use crate::counter::Counter;
use crate::render::child_prefix;
use crate::render::render_line;
use crate::render::spec_child_prefix;
use crate::render::spec_render_line;
use crate::util::is_hidden;
use crate::util::spec_is_hidden;

verus! {

broadcast use {
    vstd::seq_lib::lemma_seq_skip_len,
    vstd::seq_lib::lemma_seq_skip_index,
    vstd::seq_lib::lemma_seq_skip_index2,
};

/// One entry of a directory snapshot: its names, whether it is a
/// directory, and — for directories — its immediate children, in the order
/// the filesystem driver returned them (this library does not sort; that
/// is an explicit policy choice). The children of a non-directory are
/// never read.
pub struct Entry {
    /// The entry's own name, the final component of its path. The hidden
    /// filter judges this name, whatever is displayed.
    pub name: String,
    /// The name rendered for this entry: the bare name, or the full path
    /// string when full paths were asked for. A renderer-input choice
    /// only — it never changes what is visited or counted.
    pub display: String,
    /// Whether the entry is a directory; anything else counts as a file.
    pub is_dir: bool,
    /// The immediate children, for a directory.
    pub children: Vec<Entry>,
}

/// Everything one traversal produces: the rendered lines, in order, and
/// the two tallies.
pub ghost struct WalkOut {
    /// One line per accepted entry, in traversal order.
    pub lines: Seq<Seq<char>>,
    /// How many accepted entries were directories.
    pub dirs: nat,
    /// How many accepted entries were files.
    pub files: nat,
}

/// The output of a traversal that accepted nothing.
pub open spec fn empty_out() -> WalkOut {
    WalkOut { lines: Seq::empty(), dirs: 0, files: 0 }
}

/// Whether the policy accepts `e` when it is listed `depth` levels below
/// the root.
pub open spec fn entry_ok(pol: FilterPolicy, e: Entry, depth: nat) -> bool {
    spec_accepts(pol, spec_is_hidden(e.name@), e.is_dir, depth)
}

/// Whether any entry of `s`, listed at `depth`, passes the filter.
pub open spec fn any_ok(s: Seq<Entry>, pol: FilterPolicy, depth: nat) -> bool {
    exists|i: int| 0 <= i < s.len() && #[trigger] entry_ok(pol, s[i], depth)
}

/// The lines and counts for the subtree below `e`, an entry already listed
/// `depth` levels below the root with the given child prefix. A
/// non-directory has no subtree; `e` itself is not rendered or counted
/// here — that happened in its parent's group.
pub open spec fn walk_entry(e: Entry, prefix: Seq<char>, depth: nat, pol: FilterPolicy) -> WalkOut
    decreases e, 0int,
{
    if e.is_dir {
        walk_group(e.children@, prefix, depth + 1, pol)
    } else {
        empty_out()
    }
}

/// The lines and counts for the sibling group `s`, listed at `depth` with
/// the given prefix. Entries failing the filter are dropped entirely
/// before positions are computed: an accepted entry is last — and drawn
/// with the elbow — exactly when no later sibling is also accepted.
pub open spec fn walk_group(s: Seq<Entry>, prefix: Seq<char>, depth: nat, pol: FilterPolicy) -> WalkOut
    decreases s, 1int,
{
    if s.len() == 0 {
        empty_out()
    } else if !entry_ok(pol, s[0], depth) {
        walk_group(s.drop_first(), prefix, depth, pol)
    } else {
        let is_last = !any_ok(s.drop_first(), pol, depth);
        let sub = walk_entry(s[0], spec_child_prefix(prefix, is_last), depth, pol);
        let rest = walk_group(s.drop_first(), prefix, depth, pol);
        WalkOut {
            lines: seq![spec_render_line(prefix, is_last, s[0].display@)] + sub.lines + rest.lines,
            dirs: (if s[0].is_dir { 1nat } else { 0nat }) + sub.dirs + rest.dirs,
            files: (if s[0].is_dir { 0nat } else { 1nat }) + sub.files + rest.files,
        }
    }
}

/// The number of entries below `e` that pass the filter, at any depth.
pub open spec fn count_entry(e: Entry, depth: nat, pol: FilterPolicy) -> nat
    decreases e, 0int,
{
    if e.is_dir {
        count_group(e.children@, depth + 1, pol)
    } else {
        0
    }
}

/// The number of entries of the sibling group `s`, or below it, that pass
/// the filter.
pub open spec fn count_group(s: Seq<Entry>, depth: nat, pol: FilterPolicy) -> nat
    decreases s, 1int,
{
    if s.len() == 0 {
        0
    } else if !entry_ok(pol, s[0], depth) {
        count_group(s.drop_first(), depth, pol)
    } else {
        1 + count_entry(s[0], depth, pol) + count_group(s.drop_first(), depth, pol)
    }
}

/// The walker does not carry the current depth itself: it carries the
/// remaining descent budget, `level - depth`, which needs no arithmetic
/// that could overflow. This relates the two.
pub open spec fn budget_matches(pol: FilterPolicy, budget: Option<usize>, depth: nat) -> bool {
    match (pol.level, budget) {
        (Some(level), Some(b)) => depth <= level && b == level - depth,
        (None, None) => true,
        _ => false,
    }
}

/// Whether the policy accepts a child entry, one level below a parent
/// whose descent budget is `budget`.
fn child_accepted(
    pol: &FilterPolicy,
    hidden: bool,
    is_dir: bool,
    budget: Option<usize>,
    Ghost(depth): Ghost<nat>,
) -> (r: bool)
    requires
        budget_matches(*pol, budget, depth),
    ensures
        r == spec_accepts(*pol, hidden, is_dir, depth + 1),
{
    if !pol.all_files && hidden {
        return false;
    }
    if pol.dirs_only && !is_dir {
        return false;
    }
    match budget {
        Some(b) => b >= 1,
        None => true,
    }
}

/// Whether any entry of `children` at index `start` or later passes the
/// filter, one level below a parent whose descent budget is `budget`. The
/// walker uses this lookahead to know which accepted sibling is the last.
fn more_accepted(
    children: &Vec<Entry>,
    start: usize,
    pol: &FilterPolicy,
    budget: Option<usize>,
    Ghost(depth): Ghost<nat>,
) -> (r: bool)
    requires
        budget_matches(*pol, budget, depth),
        start <= children@.len(),
    ensures
        r == any_ok(children@.skip(start as int), *pol, depth + 1),
{
    let n = children.len();
    let mut j = start;
    while j < n
        invariant
            start <= j <= n,
            n == children@.len(),
            budget_matches(*pol, budget, depth),
            forall|k: int| start <= k < j ==> !#[trigger] entry_ok(*pol, children@[k], depth + 1),
        decreases n - j,
    {
        let hidden = is_hidden(children[j].name.as_str());
        if child_accepted(pol, hidden, children[j].is_dir, budget, Ghost(depth)) {
            proof {
                assert(entry_ok(*pol, children@[j as int], depth + 1));
                assert(children@.skip(start as int)[j - start] == children@[j as int]);
            }
            return true;
        }
        j = j + 1;
    }
    proof {
        assert forall|i: int|
            0 <= i < children@.skip(start as int).len() implies !#[trigger] entry_ok(
            *pol,
            children@.skip(start as int)[i],
            depth + 1,
        ) by {
            assert(children@.skip(start as int)[i] == children@[start + i]);
        }
    }
    false
}

/// Traverses the subtree below `e`, an entry `depth` levels below the
/// root whose children inherit `prefix`: appends one rendered line per
/// accepted entry to `out` and records each in `counter`, exactly as
/// `walk_entry` states.
fn walk_rec(
    e: &Entry,
    prefix: &str,
    budget: Option<usize>,
    Ghost(depth): Ghost<nat>,
    pol: &FilterPolicy,
    counter: &mut Counter,
    out: &mut Vec<String>,
)
    requires
        budget_matches(*pol, budget, depth),
        old(counter).dirs + walk_entry(*e, prefix@, depth, *pol).dirs <= usize::MAX,
        old(counter).files + walk_entry(*e, prefix@, depth, *pol).files <= usize::MAX,
    ensures
        final(counter).dirs == old(counter).dirs + walk_entry(*e, prefix@, depth, *pol).dirs,
        final(counter).files == old(counter).files + walk_entry(*e, prefix@, depth, *pol).files,
        final(out).deep_view() == old(out).deep_view() + walk_entry(*e, prefix@, depth, *pol).lines,
    decreases *e,
{
    let ghost w = walk_entry(*e, prefix@, depth, *pol);
    if !e.is_dir {
        proof {
            assert(out.deep_view() =~= out.deep_view() + w.lines);
        }
        return;
    }
    let ghost dirs0 = counter.dirs as int;
    let ghost files0 = counter.files as int;
    let ghost out0 = out.deep_view();
    let n = e.children.len();
    proof {
        assert(e.children@.skip(0) =~= e.children@);
    }
    let mut i: usize = 0;
    while i < n
        invariant
            i <= n,
            n == e.children@.len(),
            e.is_dir,
            budget_matches(*pol, budget, depth),
            w == walk_entry(*e, prefix@, depth, *pol),
            dirs0 + w.dirs <= usize::MAX,
            files0 + w.files <= usize::MAX,
            counter.dirs + walk_group(e.children@.skip(i as int), prefix@, depth + 1, *pol).dirs
                == dirs0 + w.dirs,
            counter.files + walk_group(e.children@.skip(i as int), prefix@, depth + 1, *pol).files
                == files0 + w.files,
            out.deep_view() + walk_group(e.children@.skip(i as int), prefix@, depth + 1, *pol).lines
                =~= out0 + w.lines,
        decreases n - i,
    {
        let ghost suffix = e.children@.skip(i as int);
        let ghost g = walk_group(suffix, prefix@, depth + 1, *pol);
        let ghost rest = walk_group(e.children@.skip(i as int + 1), prefix@, depth + 1, *pol);
        proof {
            assert(suffix[0] == e.children@[i as int]);
            assert(suffix.drop_first() =~= e.children@.skip(i as int + 1));
        }
        let c = &e.children[i];
        let hidden = is_hidden(c.name.as_str());
        if child_accepted(pol, hidden, c.is_dir, budget, Ghost(depth)) {
            let is_last = !more_accepted(&e.children, i + 1, pol, budget, Ghost(depth));
            let ghost sub = walk_entry(
                e.children@[i as int],
                spec_child_prefix(prefix@, is_last),
                depth + 1,
                *pol,
            );
            proof {
                assert(entry_ok(*pol, suffix[0], depth + 1));
                assert(is_last == !any_ok(suffix.drop_first(), *pol, depth + 1));
                assert(g.lines =~= seq![
                    spec_render_line(prefix@, is_last, c.display@),
                ] + sub.lines + rest.lines);
                assert(g.dirs == (if c.is_dir { 1nat } else { 0nat }) + sub.dirs + rest.dirs);
                assert(g.files == (if c.is_dir { 0nat } else { 1nat }) + sub.files + rest.files);
            }
            let line = render_line(prefix, is_last, c.display.as_str());
            let ghost out_before = out.deep_view();
            out.push(line);
            proof {
                assert(out.deep_view() =~= out_before.push(line@));
            }
            counter.accept(c.is_dir);
            if c.is_dir {
                let child_pre = child_prefix(prefix, is_last);
                let next_budget = match budget {
                    Some(b) => Some(b - 1),
                    None => None,
                };
                walk_rec(
                    c,
                    child_pre.as_str(),
                    next_budget,
                    Ghost(depth + 1),
                    pol,
                    counter,
                    out,
                );
            }
            proof {
                assert(out.deep_view() =~= out_before.push(line@) + sub.lines);
                assert(out.deep_view() + rest.lines =~= out_before + g.lines);
            }
        } else {
            proof {
                assert(!entry_ok(*pol, suffix[0], depth + 1));
                assert(g == rest);
            }
        }
        i = i + 1;
    }
    proof {
        assert(e.children@.skip(n as int) =~= Seq::<Entry>::empty());
        assert(out.deep_view() =~= out0 + w.lines);
    }
}

/// Traverses the directory snapshot rooted at `e`, the root of the
/// listing. One line per accepted entry is appended to `out`, in
/// traversal order, and every accepted entry is recorded in `counter`;
/// the result is exactly what `walk_entry` states for depth zero. If the
/// root is not a directory nothing is printed or counted — the root
/// itself is never counted, only its descendants are.
pub fn walk(
    e: &Entry,
    prefix: &str,
    pol: &FilterPolicy,
    counter: &mut Counter,
    out: &mut Vec<String>,
)
    requires
        old(counter).dirs + walk_entry(*e, prefix@, 0, *pol).dirs <= usize::MAX,
        old(counter).files + walk_entry(*e, prefix@, 0, *pol).files <= usize::MAX,
    ensures
        final(counter).dirs == old(counter).dirs + walk_entry(*e, prefix@, 0, *pol).dirs,
        final(counter).files == old(counter).files + walk_entry(*e, prefix@, 0, *pol).files,
        final(out).deep_view() == old(out).deep_view() + walk_entry(*e, prefix@, 0, *pol).lines,
{
    walk_rec(e, prefix, pol.level, Ghost(0nat), pol, counter, out);
}

} // verus!
