//! Laws of the traversal, proved over the specification functions that
//! [`crate::walk::walk`]'s contract is stated with: the tallies match the
//! accepted entries, filters reject totally, and the tree glyphs are drawn
//! exactly where they belong.

use vstd::prelude::*;

use crate::config::FilterPolicy;
use crate::constants::spec_bar;
use crate::constants::spec_ell;
use crate::constants::spec_tab;
use crate::constants::spec_tee;
use crate::render::spec_child_prefix;
use crate::render::spec_cont;
use crate::render::spec_render_line;
use crate::util::spec_is_hidden;
use crate::walk::Entry;
use crate::walk::any_ok;
use crate::walk::count_entry;
use crate::walk::count_group;
use crate::walk::entry_ok;
use crate::walk::walk_entry;
use crate::walk::walk_group;

verus! {

broadcast use {
    vstd::seq_lib::lemma_seq_skip_len,
    vstd::seq_lib::lemma_seq_skip_index,
    vstd::seq_lib::lemma_seq_skip_index2,
};

/// A sibling group accepts some entry exactly when one of its members
/// passes the filter; the recursion below often needs this split into the
/// head's own fate and the rest of the group.
pub proof fn lemma_any_ok_split(s: Seq<Entry>, pol: FilterPolicy, depth: nat)
    requires
        s.len() > 0,
    ensures
        any_ok(s, pol, depth) == (entry_ok(pol, s[0], depth) || any_ok(
            s.drop_first(),
            pol,
            depth,
        )),
{
    if any_ok(s, pol, depth) {
        let i = choose|i: int| 0 <= i < s.len() && #[trigger] entry_ok(pol, s[i], depth);
        if i > 0 {
            assert(s.drop_first()[i - 1] == s[i]);
            assert(entry_ok(pol, s.drop_first()[i - 1], depth));
        }
    }
    if any_ok(s.drop_first(), pol, depth) {
        let i = choose|i: int|
            0 <= i < s.drop_first().len() && #[trigger] entry_ok(pol, s.drop_first()[i], depth);
        assert(entry_ok(pol, s[i + 1], depth));
    }
    if entry_ok(pol, s[0], depth) {
        assert(any_ok(s, pol, depth));
    }
}

/// Every traversal tallies exactly the accepted entries: below any entry,
/// the directory and file counts sum to the number of accepted entries
/// encountered at any depth, which is also the number of lines rendered.
pub proof fn lemma_counts_entry(e: Entry, prefix: Seq<char>, depth: nat, pol: FilterPolicy)
    ensures
        walk_entry(e, prefix, depth, pol).dirs + walk_entry(e, prefix, depth, pol).files
            == count_entry(e, depth, pol),
        walk_entry(e, prefix, depth, pol).lines.len() == count_entry(e, depth, pol),
    decreases e, 0int,
{
    if e.is_dir {
        lemma_counts_group(e.children@, prefix, depth + 1, pol);
    }
}

/// The form of [`lemma_counts_entry`] for one sibling group.
pub proof fn lemma_counts_group(s: Seq<Entry>, prefix: Seq<char>, depth: nat, pol: FilterPolicy)
    ensures
        walk_group(s, prefix, depth, pol).dirs + walk_group(s, prefix, depth, pol).files
            == count_group(s, depth, pol),
        walk_group(s, prefix, depth, pol).lines.len() == count_group(s, depth, pol),
    decreases s, 1int,
{
    if s.len() == 0 {
    } else if !entry_ok(pol, s[0], depth) {
        lemma_counts_group(s.drop_first(), prefix, depth, pol);
    } else {
        let is_last = !any_ok(s.drop_first(), pol, depth);
        lemma_counts_entry(s[0], spec_child_prefix(prefix, is_last), depth, pol);
        lemma_counts_group(s.drop_first(), prefix, depth, pol);
    }
}

/// Depth limiting is total: a sibling group that would be listed past the
/// configured maximum depth is neither rendered nor counted, at any depth.
pub proof fn lemma_depth_cutoff_group(s: Seq<Entry>, prefix: Seq<char>, depth: nat, pol: FilterPolicy)
    requires
        match pol.level {
            Some(level) => depth > level,
            None => false,
        },
    ensures
        walk_group(s, prefix, depth, pol).lines =~= Seq::<Seq<char>>::empty(),
        walk_group(s, prefix, depth, pol).dirs == 0,
        walk_group(s, prefix, depth, pol).files == 0,
        count_group(s, depth, pol) == 0,
    decreases s,
{
    if s.len() > 0 {
        assert(!entry_ok(pol, s[0], depth));
        lemma_depth_cutoff_group(s.drop_first(), prefix, depth, pol);
    }
}

/// With max depth `level`, an entry listed at the limit depth is itself
/// shown, but nothing below it is ever visited, printed, or counted.
pub proof fn lemma_depth_cutoff_entry(e: Entry, prefix: Seq<char>, depth: nat, pol: FilterPolicy)
    requires
        match pol.level {
            Some(level) => depth >= level,
            None => false,
        },
    ensures
        walk_entry(e, prefix, depth, pol).lines =~= Seq::<Seq<char>>::empty(),
        walk_entry(e, prefix, depth, pol).dirs == 0,
        walk_entry(e, prefix, depth, pol).files == 0,
        count_entry(e, depth, pol) == 0,
{
    if e.is_dir {
        lemma_depth_cutoff_group(e.children@, prefix, depth + 1, pol);
    }
}

/// In directories-only mode a plain file never appears in the tally: the
/// file count of any traversal is zero, at every depth.
pub proof fn lemma_dirs_only_entry(e: Entry, prefix: Seq<char>, depth: nat, pol: FilterPolicy)
    requires
        pol.dirs_only,
    ensures
        walk_entry(e, prefix, depth, pol).files == 0,
    decreases e, 0int,
{
    if e.is_dir {
        lemma_dirs_only_group(e.children@, prefix, depth + 1, pol);
    }
}

/// The form of [`lemma_dirs_only_entry`] for one sibling group.
pub proof fn lemma_dirs_only_group(s: Seq<Entry>, prefix: Seq<char>, depth: nat, pol: FilterPolicy)
    requires
        pol.dirs_only,
    ensures
        walk_group(s, prefix, depth, pol).files == 0,
    decreases s, 1int,
{
    if s.len() == 0 {
    } else if !entry_ok(pol, s[0], depth) {
        lemma_dirs_only_group(s.drop_first(), prefix, depth, pol);
    } else {
        let is_last = !any_ok(s.drop_first(), pol, depth);
        assert(s[0].is_dir);
        lemma_dirs_only_entry(s[0], spec_child_prefix(prefix, is_last), depth, pol);
        lemma_dirs_only_group(s.drop_first(), prefix, depth, pol);
    }
}

/// A hidden entry fails the filter whenever hidden entries were not asked
/// for: it is excluded from printing, from counting, and from recursion.
pub proof fn lemma_hidden_rejected(pol: FilterPolicy, e: Entry, depth: nat)
    requires
        !pol.all_files,
        spec_is_hidden(e.name@),
    ensures
        !entry_ok(pol, e, depth),
{
}

/// The members of a sibling group that are not hidden, in order.
pub open spec fn drop_hidden(s: Seq<Entry>) -> Seq<Entry>
    decreases s,
{
    if s.len() == 0 {
        Seq::empty()
    } else if spec_is_hidden(s[0].name@) {
        drop_hidden(s.drop_first())
    } else {
        seq![s[0]] + drop_hidden(s.drop_first())
    }
}

/// Hidden members never make a group acceptable when hidden entries were
/// not asked for.
proof fn lemma_any_ok_drop_hidden(s: Seq<Entry>, pol: FilterPolicy, depth: nat)
    requires
        !pol.all_files,
    ensures
        any_ok(s, pol, depth) == any_ok(drop_hidden(s), pol, depth),
    decreases s,
{
    if s.len() > 0 {
        lemma_any_ok_split(s, pol, depth);
        lemma_any_ok_drop_hidden(s.drop_first(), pol, depth);
        if spec_is_hidden(s[0].name@) {
            assert(!entry_ok(pol, s[0], depth));
        } else {
            let t = seq![s[0]] + drop_hidden(s.drop_first());
            assert(t[0] == s[0]);
            assert(t.drop_first() =~= drop_hidden(s.drop_first()));
            lemma_any_ok_split(t, pol, depth);
        }
    }
}

/// Hidden-entry filtering is total when hidden entries were not asked
/// for: a sibling group produces exactly the lines and counts that the
/// same group with its hidden members removed produces. Since this holds
/// of an arbitrary group, it holds of the sibling group listed at every
/// depth of a traversal.
pub proof fn lemma_hidden_removed_group(s: Seq<Entry>, prefix: Seq<char>, depth: nat, pol: FilterPolicy)
    requires
        !pol.all_files,
    ensures
        walk_group(s, prefix, depth, pol) == walk_group(drop_hidden(s), prefix, depth, pol),
        count_group(s, depth, pol) == count_group(drop_hidden(s), depth, pol),
    decreases s,
{
    if s.len() == 0 {
        assert(drop_hidden(s) =~= Seq::<Entry>::empty());
    } else if spec_is_hidden(s[0].name@) {
        assert(!entry_ok(pol, s[0], depth));
        lemma_hidden_removed_group(s.drop_first(), prefix, depth, pol);
    } else {
        let t = seq![s[0]] + drop_hidden(s.drop_first());
        assert(drop_hidden(s) == t);
        assert(t.len() > 0);
        assert(t[0] == s[0]);
        assert(t.drop_first() =~= drop_hidden(s.drop_first()));
        lemma_hidden_removed_group(s.drop_first(), prefix, depth, pol);
        if entry_ok(pol, s[0], depth) {
            lemma_any_ok_drop_hidden(s.drop_first(), pol, depth);
        }
    }
}

/// The lengths and first characters of the four box-drawing tokens.
proof fn lemma_token_facts()
    ensures
        spec_tee().len() == 4,
        spec_tee()[0] == '├',
        spec_ell().len() == 4,
        spec_ell()[0] == '└',
        spec_bar().len() == 4,
        spec_bar()[0] == '│',
        spec_tab().len() == 4,
        spec_tab()[0] == ' ',
{
    reveal_strlit("├── ");
    reveal_strlit("└── ");
    reveal_strlit("│   ");
    reveal_strlit("    ");
}

/// Every line a sibling group rendered at `prefix` produces — its own
/// lines and every nested one — begins with `prefix`, and the character
/// right after it is one of the four glyphs: tee or elbow on the group's
/// own lines, bar or blank on nested ones.
pub open spec fn line_shape_ok(l: Seq<char>, prefix: Seq<char>) -> bool {
    &&& l.len() > prefix.len() + 3
    &&& l.subrange(0, prefix.len() as int) == prefix
    &&& (l[prefix.len() as int] == '├' || l[prefix.len() as int] == '└' || l[prefix.len() as int]
        == '│' || l[prefix.len() as int] == ' ')
}

/// Every line below an already-listed entry has the shape stated by
/// [`line_shape_ok`] for the prefix its children inherit.
pub proof fn lemma_lines_shape_entry(e: Entry, prefix: Seq<char>, depth: nat, pol: FilterPolicy)
    ensures
        forall|k: int|
            0 <= k < walk_entry(e, prefix, depth, pol).lines.len() ==> #[trigger] line_shape_ok(
                walk_entry(e, prefix, depth, pol).lines[k],
                prefix,
            ),
    decreases e, 0int,
{
    if e.is_dir {
        lemma_lines_shape_group(e.children@, prefix, depth + 1, pol);
        assert(walk_entry(e, prefix, depth, pol).lines == walk_group(
            e.children@,
            prefix,
            depth + 1,
            pol,
        ).lines);
    } else {
        assert(walk_entry(e, prefix, depth, pol).lines.len() == 0);
    }
}

/// The form of [`lemma_lines_shape_entry`] for one sibling group.
pub proof fn lemma_lines_shape_group(s: Seq<Entry>, prefix: Seq<char>, depth: nat, pol: FilterPolicy)
    ensures
        forall|k: int|
            0 <= k < walk_group(s, prefix, depth, pol).lines.len() ==> #[trigger] line_shape_ok(
                walk_group(s, prefix, depth, pol).lines[k],
                prefix,
            ),
    decreases s, 1int,
{
    if s.len() == 0 {
        assert(walk_group(s, prefix, depth, pol).lines.len() == 0);
    } else if !entry_ok(pol, s[0], depth) {
        lemma_lines_shape_group(s.drop_first(), prefix, depth, pol);
        assert(walk_group(s, prefix, depth, pol).lines == walk_group(
            s.drop_first(),
            prefix,
            depth,
            pol,
        ).lines);
    } else {
        lemma_token_facts();
        let is_last = !any_ok(s.drop_first(), pol, depth);
        let child_pre = spec_child_prefix(prefix, is_last);
        let own = spec_render_line(prefix, is_last, s[0].display@);
        let sub = walk_entry(s[0], child_pre, depth, pol);
        let rest = walk_group(s.drop_first(), prefix, depth, pol);
        lemma_lines_shape_entry(s[0], child_pre, depth, pol);
        lemma_lines_shape_group(s.drop_first(), prefix, depth, pol);
        assert(line_shape_ok(own, prefix)) by {
            assert(own.subrange(0, prefix.len() as int) =~= prefix);
        }
        assert forall|k: int| 0 <= k < sub.lines.len() implies line_shape_ok(
            sub.lines[k],
            prefix,
        ) by {
            let l = sub.lines[k];
            assert(line_shape_ok(l, child_pre));
            assert(l.subrange(0, child_pre.len() as int) == child_pre);
            assert forall|j: int| 0 <= j < child_pre.len() implies l[j] == child_pre[j] by {
                assert(l.subrange(0, child_pre.len() as int)[j] == l[j]);
            }
            assert(l.subrange(0, prefix.len() as int) =~= prefix);
            assert(l[prefix.len() as int] == spec_cont(is_last)[0]);
        }
        assert(walk_group(s, prefix, depth, pol).lines =~= seq![own] + sub.lines + rest.lines);
        assert forall|k: int| 0 <= k < walk_group(s, prefix, depth, pol).lines.len() implies line_shape_ok(
            walk_group(s, prefix, depth, pol).lines[k],
            prefix,
        ) by {
            let lines = walk_group(s, prefix, depth, pol).lines;
            if k == 0 {
                assert(lines[k] == own);
            } else if k <= sub.lines.len() {
                assert(lines[k] == sub.lines[k - 1]);
            } else {
                assert(lines[k] == rest.lines[k - 1 - sub.lines.len()]);
            }
        }
    }
}

/// How many of `lines` are long enough to have a character at column
/// `pos` and carry the glyph `g` there.
pub open spec fn count_glyph(lines: Seq<Seq<char>>, pos: int, g: char) -> nat
    decreases lines,
{
    if lines.len() == 0 {
        0
    } else {
        (if 0 <= pos < lines[0].len() && lines[0][pos] == g {
            1nat
        } else {
            0nat
        }) + count_glyph(lines.drop_first(), pos, g)
    }
}

/// Glyph counting distributes over concatenation.
proof fn lemma_count_glyph_add(a: Seq<Seq<char>>, b: Seq<Seq<char>>, pos: int, g: char)
    ensures
        count_glyph(a + b, pos, g) == count_glyph(a, pos, g) + count_glyph(b, pos, g),
    decreases a,
{
    if a.len() == 0 {
        assert(a + b =~= b);
    } else {
        assert((a + b)[0] == a[0]);
        assert((a + b).drop_first() =~= a.drop_first() + b);
        lemma_count_glyph_add(a.drop_first(), b, pos, g);
    }
}

/// No line carries `g` at column `pos`, so none is counted.
proof fn lemma_count_glyph_zero(lines: Seq<Seq<char>>, pos: int, g: char)
    requires
        forall|k: int|
            0 <= k < lines.len() ==> !(0 <= pos < #[trigger] lines[k].len() && lines[k][pos] == g),
    ensures
        count_glyph(lines, pos, g) == 0,
    decreases lines,
{
    if lines.len() > 0 {
        assert forall|k: int| 0 <= k < lines.drop_first().len() implies !(0 <= pos
            < #[trigger] lines.drop_first()[k].len() && lines.drop_first()[k][pos] == g) by {
            assert(lines.drop_first()[k] == lines[k + 1]);
        }
        lemma_count_glyph_zero(lines.drop_first(), pos, g);
    }
}

/// How many members of the sibling group `s` itself — not of the
/// subtrees below them — pass the filter at `depth`.
pub open spec fn count_ok(s: Seq<Entry>, depth: nat, pol: FilterPolicy) -> nat
    decreases s,
{
    if s.len() == 0 {
        0
    } else {
        (if entry_ok(pol, s[0], depth) {
            1nat
        } else {
            0nat
        }) + count_ok(s.drop_first(), depth, pol)
    }
}

/// A group accepts something exactly when it accepts at least one member.
pub proof fn lemma_any_ok_count(s: Seq<Entry>, depth: nat, pol: FilterPolicy)
    ensures
        any_ok(s, pol, depth) <==> count_ok(s, depth, pol) > 0,
    decreases s,
{
    if s.len() > 0 {
        lemma_any_ok_split(s, pol, depth);
        lemma_any_ok_count(s.drop_first(), depth, pol);
    }
}

/// The glyphs of one filtered sibling group, rendered at `prefix`, sit
/// exactly where they belong: among all lines the group produces — its
/// own and every nested one — exactly one carries the elbow at the
/// column right after `prefix` when the group accepts anything (none
/// otherwise), and exactly the group's other accepted members carry the
/// tee there. Nested lines show a bar or a blank in that column, so they
/// never disturb either count.
pub proof fn lemma_one_elbow_group(s: Seq<Entry>, prefix: Seq<char>, depth: nat, pol: FilterPolicy)
    ensures
        count_glyph(walk_group(s, prefix, depth, pol).lines, prefix.len() as int, '└') == (
        if any_ok(s, pol, depth) {
            1nat
        } else {
            0nat
        }),
        count_glyph(walk_group(s, prefix, depth, pol).lines, prefix.len() as int, '├') == (
        if any_ok(s, pol, depth) {
            (count_ok(s, depth, pol) - 1) as nat
        } else {
            0nat
        }),
    decreases s,
{
    let pos = prefix.len() as int;
    if s.len() == 0 {
        assert(walk_group(s, prefix, depth, pol).lines.len() == 0);
        lemma_any_ok_count(s, depth, pol);
    } else if !entry_ok(pol, s[0], depth) {
        lemma_one_elbow_group(s.drop_first(), prefix, depth, pol);
        lemma_any_ok_split(s, pol, depth);
        assert(walk_group(s, prefix, depth, pol) == walk_group(s.drop_first(), prefix, depth, pol));
    } else {
        lemma_token_facts();
        lemma_any_ok_split(s, pol, depth);
        lemma_any_ok_count(s.drop_first(), depth, pol);
        lemma_one_elbow_group(s.drop_first(), prefix, depth, pol);
        let is_last = !any_ok(s.drop_first(), pol, depth);
        let child_pre = spec_child_prefix(prefix, is_last);
        let own = spec_render_line(prefix, is_last, s[0].display@);
        let sub = walk_entry(s[0], child_pre, depth, pol);
        let rest = walk_group(s.drop_first(), prefix, depth, pol);
        assert(walk_group(s, prefix, depth, pol).lines =~= seq![own] + (sub.lines + rest.lines));
        lemma_lines_shape_entry(s[0], child_pre, depth, pol);
        assert forall|k: int| 0 <= k < sub.lines.len() implies !(0 <= pos
            < #[trigger] sub.lines[k].len() && (sub.lines[k][pos] == '└' || sub.lines[k][pos]
            == '├')) by {
            let l = sub.lines[k];
            assert(line_shape_ok(l, child_pre));
            assert(l.subrange(0, child_pre.len() as int)[pos] == l[pos]);
            assert(l[pos] == spec_cont(is_last)[0]);
        }
        lemma_count_glyph_zero(sub.lines, pos, '└');
        lemma_count_glyph_zero(sub.lines, pos, '├');
        lemma_count_glyph_add(sub.lines, rest.lines, pos, '└');
        lemma_count_glyph_add(sub.lines, rest.lines, pos, '├');
        lemma_count_glyph_add(seq![own], sub.lines + rest.lines, pos, '└');
        lemma_count_glyph_add(seq![own], sub.lines + rest.lines, pos, '├');
        assert(seq![own].drop_first() =~= Seq::<Seq<char>>::empty());
        assert(count_glyph(Seq::<Seq<char>>::empty(), pos, '└') == 0);
        assert(count_glyph(Seq::<Seq<char>>::empty(), pos, '├') == 0);
        assert(own.len() > pos + 3);
        assert(own[pos] == (if is_last {
            '└'
        } else {
            '├'
        }));
        assert(count_glyph(seq![own], pos, '└') == (if is_last {
            1nat
        } else {
            0nat
        }));
        assert(count_glyph(seq![own], pos, '├') == (if is_last {
            0nat
        } else {
            1nat
        }));
    }
}

/// Within one sibling group the separator of every accepted member is
/// decided by its position among the accepted members alone: its rendered
/// line appears in the output, drawn with the elbow exactly when no later
/// sibling also passed the filter, and with the tee otherwise.
pub proof fn lemma_separators_group(s: Seq<Entry>, prefix: Seq<char>, depth: nat, pol: FilterPolicy)
    ensures
        forall|i: int|
            0 <= i < s.len() && #[trigger] entry_ok(pol, s[i], depth) ==> walk_group(
                s,
                prefix,
                depth,
                pol,
            ).lines.contains(
                spec_render_line(prefix, !any_ok(s.skip(i + 1), pol, depth), s[i].display@),
            ),
    decreases s,
{
    if s.len() == 0 {
    } else {
        lemma_separators_group(s.drop_first(), prefix, depth, pol);
        let lines = walk_group(s, prefix, depth, pol).lines;
        let rest = walk_group(s.drop_first(), prefix, depth, pol);
        assert forall|i: int| 0 <= i < s.len() && #[trigger] entry_ok(pol, s[i], depth) implies lines.contains(
            spec_render_line(prefix, !any_ok(s.skip(i + 1), pol, depth), s[i].display@),
        ) by {
            if entry_ok(pol, s[0], depth) {
                let is_last = !any_ok(s.drop_first(), pol, depth);
                let own = spec_render_line(prefix, is_last, s[0].display@);
                let sub = walk_entry(s[0], spec_child_prefix(prefix, is_last), depth, pol);
                assert(lines =~= seq![own] + sub.lines + rest.lines);
                if i == 0 {
                    assert(s.skip(1) =~= s.drop_first());
                    assert(lines[0] == own);
                } else {
                    assert(s.drop_first()[i - 1] == s[i]);
                    assert(s.drop_first().skip(i) =~= s.skip(i + 1));
                    let target = spec_render_line(
                        prefix,
                        !any_ok(s.skip(i + 1), pol, depth),
                        s[i].display@,
                    );
                    assert(rest.lines.contains(target) ==> lines.contains(target)) by {
                        if rest.lines.contains(target) {
                            let j = choose|j: int|
                                0 <= j < rest.lines.len() && rest.lines[j] == target;
                            assert(lines[1 + sub.lines.len() + j] == target);
                        }
                    }
                }
            } else {
                assert(walk_group(s, prefix, depth, pol) == walk_group(
                    s.drop_first(),
                    prefix,
                    depth,
                    pol,
                ));
                assert(i > 0);
                assert(s.drop_first()[i - 1] == s[i]);
                assert(s.drop_first().skip(i) =~= s.skip(i + 1));
            }
        }
    }
}

} // verus!
