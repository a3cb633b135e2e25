//! The tree of test files below a root directory.

use crate::error::{Error, ErrorView};
use crate::listing::{entry_views, file_stem, stem, Entry, EntryView};
use crate::text::{contains_text, text_pairs, texts};
use vstd::prelude::*;
use vstd::string::*;

verus! {

/// The test files of a directory and, by name, the trees of its
/// subdirectories.
#[derive(Debug, PartialEq, Eq)]
pub struct Tree {
    /// The subdirectories by name, no name twice, in the order in which
    /// they were found.
    pub children: Vec<(String, Tree)>,
    /// What the tests of this directory are made from, each once, in the
    /// order in which they were found: the names of its files or, where
    /// files are grouped by extension, their stems.
    pub here: Vec<String>,
    /// The regular files of this directory, each with its name and the
    /// absolute path it resolves to.
    pub files: Vec<(String, String)>,
}

/// A [`Tree`] with its texts as sequences of characters.
pub ghost struct TreeView {
    pub children: Seq<(Seq<char>, TreeView)>,
    pub here: Seq<Seq<char>>,
    pub files: Seq<(Seq<char>, Seq<char>)>,
}

/// The named trees of a row, each as its view.
pub open spec fn child_views(row: Seq<(String, Tree)>) -> Seq<(Seq<char>, TreeView)> {
    Seq::new(row.len(), |i: int| (row[i].0@, row[i].1@))
}

/// The tree of an empty directory.
pub open spec fn empty_tree() -> TreeView {
    TreeView { children: Seq::empty(), here: Seq::empty(), files: Seq::empty() }
}

/// What a file of the given name is filed under: its name where no
/// extensions are asked for, else its stem.
pub open spec fn leaf_key(name: Seq<char>, extensions: Seq<Seq<char>>) -> Seq<char> {
    if extensions.len() == 0 {
        name
    } else {
        stem(name)
    }
}

/// `here` with `key` added at the end, unless it is there already.
pub open spec fn with_leaf(here: Seq<Seq<char>>, key: Seq<char>) -> Seq<Seq<char>> {
    if here.contains(key) {
        here
    } else {
        here.push(key)
    }
}

/// `at` is where the first of the first `n` children that is named
/// `name` stands, or `n` where none of them has that name.
pub open spec fn first_named(
    children: Seq<(Seq<char>, TreeView)>,
    name: Seq<char>,
    n: int,
    at: int,
) -> bool {
    &&& 0 <= at <= n
    &&& forall|j: int| 0 <= j < at ==> (#[trigger] children[j]).0 != name
    &&& at < n ==> children[at].0 == name
}

/// `at` is where the first child named `name` stands, or the number of
/// children where none has that name.
pub open spec fn child_position(
    children: Seq<(Seq<char>, TreeView)>,
    name: Seq<char>,
    at: int,
) -> bool {
    first_named(children, name, children.len() as int, at)
}

/// `children` with `child` under `name`: in the place of the child that had
/// that name, or at the end where none had it.
pub open spec fn with_child(
    children: Seq<(Seq<char>, TreeView)>,
    name: Seq<char>,
    child: TreeView,
) -> Seq<(Seq<char>, TreeView)> {
    let at = choose|at: int| child_position(children, name, at);
    if at < children.len() {
        children.update(at, (name, child))
    } else {
        children.push((name, child))
    }
}

/// A name has one position among the children.
pub proof fn child_position_unique(
    children: Seq<(Seq<char>, TreeView)>,
    name: Seq<char>,
    a: int,
    b: int,
)
    requires
        child_position(children, name, a),
        child_position(children, name, b),
    ensures
        a == b,
{
    if a < b {
        assert(children[a].0 != name);
    }
    if b < a {
        assert(children[b].0 != name);
    }
}

/// The tree of the first `n` of `entries`, or the first failure among them:
/// a file is filed under its key and listed among the files, a directory
/// becomes a child by its name, and anything else is refused.
pub open spec fn scanned_first(entries: Seq<EntryView>, extensions: Seq<Seq<char>>, n: nat) -> Result<
    TreeView,
    ErrorView,
>
    decreases entries, n,
{
    if n == 0 || n > entries.len() {
        Ok(empty_tree())
    } else {
        match scanned_first(entries, extensions, (n - 1) as nat) {
            Err(e) => Err(e),
            Ok(tree) => match entries[n - 1] {
                EntryView::File { name, resolved } => Ok(
                    TreeView {
                        children: tree.children,
                        here: with_leaf(tree.here, leaf_key(name, extensions)),
                        files: tree.files.push((name, resolved)),
                    },
                ),
                EntryView::Directory { name, entries: inner } => match scanned_first(
                    inner,
                    extensions,
                    inner.len(),
                ) {
                    Err(e) => Err(e),
                    Ok(child) => Ok(
                        TreeView {
                            children: with_child(tree.children, name, child),
                            here: tree.here,
                            files: tree.files,
                        },
                    ),
                },
                EntryView::Other { name } => Err(ErrorView::UnsupportedEntry { name }),
            },
        }
    }
}

/// The tree of a directory with the given entries, or the first entry, in
/// the order of reading and directories gone into as they are met, that is
/// neither a file nor a directory.
pub open spec fn scanned(entries: Seq<EntryView>, extensions: Seq<Seq<char>>) -> Result<
    TreeView,
    ErrorView,
> {
    scanned_first(entries, extensions, entries.len())
}

/// The names under which the children stand.
pub open spec fn child_names(children: Seq<(Seq<char>, TreeView)>) -> Seq<Seq<char>> {
    children.map_values(|child: (Seq<char>, TreeView)| child.0)
}

/// What holds of every tree that was built from a directory: no key
/// stands twice among the tests, no name twice among the children, and
/// the same holds of every tree below.
pub open spec fn well_formed(tree: TreeView) -> bool
    decreases tree,
{
    &&& tree.here.no_duplicates()
    &&& child_names(tree.children).no_duplicates()
    &&& forall|i: int|
        0 <= i < tree.children.len() ==> well_formed((#[trigger] tree.children[i]).1)
}

/// Putting a child under a name keeps the names of the children distinct.
pub proof fn with_child_keeps_names_distinct(
    children: Seq<(Seq<char>, TreeView)>,
    name: Seq<char>,
    child: TreeView,
)
    requires
        child_names(children).no_duplicates(),
    ensures
        child_names(with_child(children, name, child)).no_duplicates(),
        with_child(children, name, child).len() >= children.len(),
        forall|i: int|
            0 <= i < with_child(children, name, child).len() ==> {
                let put = #[trigger] with_child(children, name, child)[i];
                put == (name, child) || (i < children.len() && put == children[i])
            },
{
    let names = child_names(children);
    let at = choose|at: int| child_position(children, name, at);
    assert(child_position(children, name, at)) by {
        child_position_exists(children, name, children.len() as int);
        let n = children.len() as int;
        let p = choose|p: int| first_named(children, name, n, p);
        assert(child_position(children, name, p));
    }
    let after = with_child(children, name, child);
    assert forall|i: int, j: int|
        0 <= i < after.len() && 0 <= j < after.len() && i != j implies child_names(after)[i]
        != child_names(after)[j] by {
        if at < children.len() {
            assert(names[i] == children[i].0);
            assert(names[j] == children[j].0);
            assert(names[at] == children[at].0);
        } else {
            if i < children.len() {
                assert(names[i] == children[i].0);
            }
            if j < children.len() {
                assert(names[j] == children[j].0);
            }
        }
    }
}

/// Every name has a position among the children.
pub proof fn child_position_exists(children: Seq<(Seq<char>, TreeView)>, name: Seq<char>, n: int)
    requires
        0 <= n <= children.len(),
    ensures
        exists|at: int| first_named(children, name, n, at),
    decreases n,
{
    if n == 0 {
        assert(first_named(children, name, n, 0));
    } else {
        let m = n - 1;
        child_position_exists(children, name, m);
        let at = choose|at: int| first_named(children, name, m, at);
        if at < m || children[m].0 == name {
            assert(first_named(children, name, n, at));
        } else {
            assert(first_named(children, name, n, n));
        }
    }
}

/// A tree that was built from a directory is well formed.
pub proof fn scanned_is_well_formed(entries: Seq<EntryView>, extensions: Seq<Seq<char>>, n: nat)
    requires
        n <= entries.len(),
    ensures
        scanned_first(entries, extensions, n) matches Ok(tree) ==> well_formed(tree),
    decreases entries, n,
{
    if n > 0 {
        scanned_is_well_formed(entries, extensions, (n - 1) as nat);
        match scanned_first(entries, extensions, (n - 1) as nat) {
            Err(e) => {},
            Ok(tree) => match entries[n - 1] {
                EntryView::File { name, resolved } => {},
                EntryView::Directory { name, entries: inner } => {
                    scanned_is_well_formed(inner, extensions, inner.len());
                    match scanned_first(inner, extensions, inner.len()) {
                        Err(e) => {},
                        Ok(child) => {
                            with_child_keeps_names_distinct(tree.children, name, child);
                        },
                    }
                },
                EntryView::Other { name } => {},
            },
        }
    } else {
        assert(child_names(empty_tree().children) =~= Seq::empty());
    }
}

/// Whether a file named `name` is among `files`.
pub open spec fn listed(files: Seq<(Seq<char>, Seq<char>)>, name: Seq<char>) -> bool {
    exists|i: int| 0 <= i < files.len() && (#[trigger] files[i]).0 == name
}

/// Every key of the tree, at any depth, is the name of a file of its
/// directory.
pub open spec fn keys_are_files(tree: TreeView) -> bool
    decreases tree,
{
    &&& forall|j: int| 0 <= j < tree.here.len() ==> listed(tree.files, #[trigger] tree.here[j])
    &&& forall|i: int|
        0 <= i < tree.children.len() ==> keys_are_files((#[trigger] tree.children[i]).1)
}

/// In a tree that was built without extensions every key is the name of a
/// file that was found.
pub proof fn scanned_keys_are_files(entries: Seq<EntryView>, extensions: Seq<Seq<char>>, n: nat)
    requires
        n <= entries.len(),
        extensions.len() == 0,
    ensures
        scanned_first(entries, extensions, n) matches Ok(tree) ==> keys_are_files(tree),
    decreases entries, n,
{
    if n > 0 {
        scanned_is_well_formed(entries, extensions, (n - 1) as nat);
        scanned_keys_are_files(entries, extensions, (n - 1) as nat);
        match scanned_first(entries, extensions, (n - 1) as nat) {
            Err(e) => {},
            Ok(tree) => match entries[n - 1] {
                EntryView::File { name, resolved } => {
                    let files = tree.files.push((name, resolved));
                    let here = with_leaf(tree.here, name);
                    assert(files[tree.files.len() as int].0 == name);
                    assert forall|j: int| 0 <= j < here.len() implies listed(
                        files,
                        #[trigger] here[j],
                    ) by {
                        if j < tree.here.len() {
                            let at = choose|at: int|
                                0 <= at < tree.files.len() && (#[trigger] tree.files[at]).0
                                    == tree.here[j];
                            assert(files[at].0 == here[j]);
                        }
                    }
                },
                EntryView::Directory { name, entries: inner } => {
                    scanned_keys_are_files(inner, extensions, inner.len());
                    match scanned_first(inner, extensions, inner.len()) {
                        Err(e) => {},
                        Ok(child) => {
                            with_child_keeps_names_distinct(tree.children, name, child);
                        },
                    }
                },
                EntryView::Other { name } => {},
            },
        }
    }
}

/// Every one of the first `n` entries, and every entry below them, is a
/// file or a directory.
pub open spec fn supported(entries: Seq<EntryView>, n: nat) -> bool
    decreases entries, n,
{
    if n == 0 || n > entries.len() {
        true
    } else {
        &&& supported(entries, (n - 1) as nat)
        &&& match entries[n - 1] {
            EntryView::File { .. } => true,
            EntryView::Directory { entries: inner, .. } => supported(inner, inner.len()),
            EntryView::Other { .. } => false,
        }
    }
}

/// A tree is built exactly where every entry, at any depth, is a file or
/// a directory.
pub proof fn scan_succeeds_where_supported(
    entries: Seq<EntryView>,
    extensions: Seq<Seq<char>>,
    n: nat,
)
    ensures
        scanned_first(entries, extensions, n) is Ok <==> supported(entries, n),
    decreases entries, n,
{
    if n > 0 && n <= entries.len() {
        scan_succeeds_where_supported(entries, extensions, (n - 1) as nat);
        if let EntryView::Directory { name, entries: inner } = entries[n - 1] {
            scan_succeeds_where_supported(inner, extensions, inner.len());
        }
    }
}

/// Building a tree fails only by an entry that is neither a file nor a
/// directory.
pub proof fn scan_fails_by_unsupported_entry(
    entries: Seq<EntryView>,
    extensions: Seq<Seq<char>>,
    n: nat,
)
    ensures
        scanned_first(entries, extensions, n) matches Err(e) ==> e is UnsupportedEntry,
    decreases entries, n,
{
    if n > 0 && n <= entries.len() {
        scan_fails_by_unsupported_entry(entries, extensions, (n - 1) as nat);
        if let EntryView::Directory { name, entries: inner } = entries[n - 1] {
            scan_fails_by_unsupported_entry(inner, extensions, inner.len());
        }
    }
}

/// A failure among the first `k` entries is the failure of any longer run.
pub proof fn scan_failure_stays(
    entries: Seq<EntryView>,
    extensions: Seq<Seq<char>>,
    k: nat,
    n: nat,
)
    requires
        k <= n <= entries.len(),
        scanned_first(entries, extensions, k) is Err,
    ensures
        scanned_first(entries, extensions, n) == scanned_first(entries, extensions, k),
    decreases n,
{
    if k < n {
        scan_failure_stays(entries, extensions, k, (n - 1) as nat);
    }
}

impl Tree {
    pub open spec fn view(&self) -> TreeView
        decreases self,
    {
        TreeView {
            children: Seq::new(
                self.children.len() as nat,
                |i: int|
                    if 0 <= i < self.children.len() {
                        (self.children[i].0@, self.children[i].1@)
                    } else {
                        arbitrary()
                    },
            ),
            here: texts(self.here@),
            files: text_pairs(self.files@),
        }
    }

    /// Builds the tree of a directory from its entries. With no extensions
    /// every file is a test of its own; with extensions the files are
    /// grouped by their stems, whatever their extensions are.
    pub fn new(base: &Vec<Entry>, extensions: &Vec<String>) -> (result: Result<Tree, Error>)
        ensures
            match result {
                Ok(tree) => scanned(entry_views(base@), texts(extensions@)) == Ok::<
                    TreeView,
                    ErrorView,
                >(tree@) && well_formed(tree@),
                Err(e) => scanned(entry_views(base@), texts(extensions@)) == Err::<
                    TreeView,
                    ErrorView,
                >(e@),
            },
        decreases base,
    {
        let mut children: Vec<(String, Tree)> = Vec::new();
        let mut here: Vec<String> = Vec::new();
        let mut files: Vec<(String, String)> = Vec::new();
        let ghost entries = entry_views(base@);
        let ghost wanted = texts(extensions@);
        let mut i: usize = 0;
        proof {
            assert(child_views(children@) =~= Seq::empty());
            assert(texts(here@) =~= Seq::empty());
            assert(text_pairs(files@) =~= Seq::empty());
        }
        while i < base.len()
            invariant
                i <= base.len(),
                entries == entry_views(base@),
                wanted == texts(extensions@),
                scanned_first(entries, wanted, i as nat) == Ok::<TreeView, ErrorView>(
                    TreeView {
                        children: child_views(children@),
                        here: texts(here@),
                        files: text_pairs(files@),
                    },
                ),
            decreases base.len() - i,
        {
            assert(entries[i as int] == base@[i as int]@);
            match &base[i] {
                Entry::File { name, resolved } => {
                    let key = if extensions.len() == 0 {
                        name.clone()
                    } else {
                        file_stem(name.as_str())
                    };
                    assert(key@ == leaf_key(name@, wanted));
                    let ghost here_before = here@;
                    let ghost files_before = files@;
                    if !contains_text(&here, &key) {
                        here.push(key);
                    }
                    assert(texts(here@) =~= with_leaf(texts(here_before), key@));
                    let name = name.clone();
                    let resolved = resolved.clone();
                    files.push((name, resolved));
                    assert(text_pairs(files@) =~= text_pairs(files_before).push(
                        (name@, resolved@),
                    ));
                },
                Entry::Directory { name, entries: inner } => {
                    assert(entries[i as int]->Directory_entries =~= entry_views(inner@));
                    let child = match Tree::new(inner, extensions) {
                        Ok(child) => child,
                        Err(e) => {
                            proof {
                                scan_failure_stays(
                                    entries,
                                    wanted,
                                    (i + 1) as nat,
                                    entries.len(),
                                );
                            }
                            return Err(e);
                        },
                    };
                    let ghost before = child_views(children@);
                    let mut at: usize = 0;
                    while at < children.len() && !(children[at].0 == *name)
                        invariant
                            at <= children.len(),
                            before == child_views(children@),
                            forall|j: int| 0 <= j < at ==> (#[trigger] before[j]).0 != name@,
                        decreases children.len() - at,
                    {
                        at += 1;
                    }
                    proof {
                        assert(at < children.len() ==> before[at as int].0 == name@);
                        assert(child_position(before, name@, at as int));
                        let chosen = choose|p: int| child_position(before, name@, p);
                        child_position_unique(before, name@, at as int, chosen);
                    }
                    let name = name.clone();
                    if at < children.len() {
                        children.set(at, (name, child));
                    } else {
                        children.push((name, child));
                    }
                    assert(child_views(children@) =~= with_child(before, name@, child@));
                },
                Entry::Other { name } => {
                    proof {
                        scan_failure_stays(entries, wanted, (i + 1) as nat, entries.len());
                    }
                    return Err(Error::UnsupportedEntry { name: name.clone() });
                },
            }
            i += 1;
        }
        let tree = Tree { children, here, files };
        proof {
            assert(tree@.children =~= child_views(tree.children@));
            scanned_is_well_formed(entries, wanted, entries.len());
        }
        Ok(tree)
    }
}

} // verus!
