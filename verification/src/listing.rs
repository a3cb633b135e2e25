//! A directory as it was found on disk, and the names of its files.

use vstd::prelude::*;
use vstd::string::*;

verus! {

/// One entry of a directory, as it was found on disk.
#[derive(Debug, PartialEq, Eq)]
pub enum Entry {
    /// A regular file, with its name and the absolute path it resolves to.
    File { name: String, resolved: String },
    /// A directory, with its name and its own entries in the order in which
    /// they were read.
    Directory { name: String, entries: Vec<Entry> },
    /// Anything else.
    Other { name: String },
}

/// An [`Entry`] with its texts as sequences of characters.
pub ghost enum EntryView {
    File { name: Seq<char>, resolved: Seq<char> },
    Directory { name: Seq<char>, entries: Seq<EntryView> },
    Other { name: Seq<char> },
}

impl Entry {
    pub open spec fn view(&self) -> EntryView
        decreases self,
    {
        match self {
            Entry::File { name, resolved } => EntryView::File { name: name@, resolved: resolved@ },
            Entry::Directory { name, entries } => EntryView::Directory {
                name: name@,
                entries: Seq::new(
                    entries.len() as nat,
                    |i: int|
                        if 0 <= i < entries.len() {
                            entries[i]@
                        } else {
                            arbitrary()
                        },
                ),
            },
            Entry::Other { name } => EntryView::Other { name: name@ },
        }
    }
}

/// The entries of a row, each as its view.
pub open spec fn entry_views(row: Seq<Entry>) -> Seq<EntryView> {
    Seq::new(row.len(), |i: int| row[i]@)
}

/// Where the last dot of `name` stands, or -1 where it has none.
pub open spec fn last_dot(name: Seq<char>) -> int
    decreases name.len(),
{
    if name.len() == 0 {
        -1
    } else if name.last() == '.' {
        name.len() - 1
    } else {
        last_dot(name.drop_last())
    }
}

/// A file name without its extension: what stands before its last dot. A
/// name without a dot, or with its only dot in front, is its own stem.
pub open spec fn stem(name: Seq<char>) -> Seq<char> {
    if last_dot(name) <= 0 {
        name
    } else {
        name.take(last_dot(name))
    }
}

/// The last dot stands inside the name.
pub proof fn last_dot_bounds(name: Seq<char>)
    ensures
        -1 <= last_dot(name) < name.len(),
        last_dot(name) >= 0 ==> name[last_dot(name)] == '.',
    decreases name.len(),
{
    if name.len() > 0 && name.last() != '.' {
        last_dot_bounds(name.drop_last());
    }
}

/// Strips the extension from a file name.
pub fn file_stem(name: &str) -> (result: String)
    ensures
        result@ == stem(name@),
{
    let n = name.unicode_len();
    let mut dot: usize = 0;
    let mut i: usize = 0;
    for c in it: name.chars()
        invariant
            it.seq() == name@,
            n == name@.len(),
            i == it.index(),
            i <= n,
            dot == if last_dot(name@.take(i as int)) <= 0 {
                0
            } else {
                last_dot(name@.take(i as int))
            },
    {
        proof {
            assert(name@.take(i + 1).drop_last() == name@.take(i as int));
            assert(name@.take(i + 1).last() == c);
        }
        if c == '.' {
            dot = i;
        }
        i += 1;
    }
    proof {
        assert(name@.take(n as int) == name@);
        last_dot_bounds(name@);
    }
    if dot == 0 {
        String::from_str(name)
    } else {
        String::from_str(name.substring_char(0, dot))
    }
}

} // verus!
