//! The visit counter: an accumulator of directory and file counts with a
//! display format, plus the verified decimal rendering it is built on.

use vstd::prelude::*;
use vstd::string::StringExecFns;

verus! {

/// The character for one decimal digit value.
pub open spec fn spec_digit(d: nat) -> char {
    if d == 0 {
        '0'
    } else if d == 1 {
        '1'
    } else if d == 2 {
        '2'
    } else if d == 3 {
        '3'
    } else if d == 4 {
        '4'
    } else if d == 5 {
        '5'
    } else if d == 6 {
        '6'
    } else if d == 7 {
        '7'
    } else if d == 8 {
        '8'
    } else {
        '9'
    }
}

/// The decimal digit characters of a number, most significant first, with
/// no leading zeros (a lone `'0'` for zero).
pub open spec fn spec_decimal(n: nat) -> Seq<char>
    decreases n,
{
    if n < 10 {
        seq![spec_digit(n)]
    } else {
        spec_decimal(n / 10).push(spec_digit(n % 10))
    }
}

/// The summary line for a finished traversal. The word `files` is
/// deliberately not pluralized: `1 files` is the expected output for the
/// singular case.
pub open spec fn spec_summary(dirs: nat, files: nat) -> Seq<char> {
    spec_decimal(dirs) + " directories, "@ + spec_decimal(files) + " files"@
}

/// Appends the decimal digits of `n` to `s`.
fn push_decimal(n: usize, s: &mut String)
    ensures
        final(s)@ == old(s)@ + spec_decimal(n as nat),
    decreases n,
{
    if n >= 10 {
        push_decimal(n / 10, s);
    }
    let digit = match n % 10 {
        0 => "0",
        1 => "1",
        2 => "2",
        3 => "3",
        4 => "4",
        5 => "5",
        6 => "6",
        7 => "7",
        8 => "8",
        _ => "9",
    };
    proof {
        reveal_strlit("0");
        reveal_strlit("1");
        reveal_strlit("2");
        reveal_strlit("3");
        reveal_strlit("4");
        reveal_strlit("5");
        reveal_strlit("6");
        reveal_strlit("7");
        reveal_strlit("8");
        reveal_strlit("9");
        assert(digit@ =~= seq![spec_digit((n % 10) as nat)]);
        if n < 10 {
            assert(spec_decimal(n as nat) =~= seq![spec_digit(n as nat)]);
        } else {
            assert(spec_decimal(n as nat) =~= spec_decimal((n / 10) as nat).push(
                spec_digit((n % 10) as nat),
            ));
        }
    }
    s.append(digit);
}

/// Maintains a count of how many files and directories have been seen.
/// Both fields only ever grow, one step at a time, during a traversal.
pub struct Counter {
    /// The number of directories traversed thus far.
    pub dirs: usize,
    /// The number of files traversed thus far.
    pub files: usize,
}

impl Counter {
    /// Creates a new `Counter`, with both tallies at zero.
    pub fn new() -> (c: Counter)
        ensures
            c.dirs == 0,
            c.files == 0,
    {
        Counter { dirs: 0, files: 0 }
    }

    /// Records one visited entry, classified by the caller: a directory
    /// bumps the directory tally, anything else counts as a file.
    pub fn accept(&mut self, is_dir: bool)
        requires
            is_dir ==> old(self).dirs < usize::MAX,
            !is_dir ==> old(self).files < usize::MAX,
        ensures
            final(self).dirs == old(self).dirs + (if is_dir { 1int } else { 0int }),
            final(self).files == old(self).files + (if is_dir { 0int } else { 1int }),
    {
        if is_dir {
            self.dirs = self.dirs + 1;
        } else {
            self.files = self.files + 1;
        }
    }

    /// Renders the counter's state as the traversal summary line,
    /// `<dirs> directories, <files> files`.
    pub fn render(&self) -> (r: String)
        ensures
            r@ == spec_summary(self.dirs as nat, self.files as nat),
    {
        let mut s = String::new();
        push_decimal(self.dirs, &mut s);
        s.append(" directories, ");
        push_decimal(self.files, &mut s);
        s.append(" files");
        proof {
            assert(s@ =~= spec_summary(self.dirs as nat, self.files as nat));
        }
        s
    }
}

} // verus!
