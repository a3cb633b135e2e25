//! Strings and rows of strings, seen as sequences of characters.

use vstd::prelude::*;
use vstd::std_specs::iter::IteratorSpec;
use vstd::string::*;

verus! {

/// `String::push` appends one character.
pub assume_specification[ String::push ](s: &mut String, c: char)
    ensures
        final(s)@ == old(s)@.push(c),
;

/// The strings of a row, each as its sequence of characters.
pub open spec fn texts(row: Seq<String>) -> Seq<Seq<char>> {
    row.map_values(|s: String| s@)
}

/// The pairs of a row, each string as its sequence of characters.
pub open spec fn text_pairs(row: Seq<(String, String)>) -> Seq<(Seq<char>, Seq<char>)> {
    row.map_values(|p: (String, String)| (p.0@, p.1@))
}

/// Whether two strings hold the same text.
pub fn same_text(left: &str, right: &str) -> (same: bool)
    ensures
        same == (left@ == right@),
{
    let mut ours = left.chars();
    let mut theirs = right.chars();
    let ghost mut i: int = 0;
    loop
        invariant
            0 <= i <= left@.len(),
            i <= right@.len(),
            ours.remaining() == left@.skip(i),
            theirs.remaining() == right@.skip(i),
            left@.take(i) == right@.take(i),
        decreases left@.len() - i,
    {
        broadcast use group_string_axioms;

        match ours.next() {
            Some(x) => match theirs.next() {
                Some(y) => {
                    if x != y {
                        assert(left@[i] != right@[i]);
                        return false;
                    }
                    proof {
                        assert(left@.take(i + 1) == left@.take(i).push(x));
                        assert(right@.take(i + 1) == right@.take(i).push(y));
                        assert(left@.skip(i).drop_first() == left@.skip(i + 1));
                        assert(right@.skip(i).drop_first() == right@.skip(i + 1));
                        i = i + 1;
                    }
                },
                None => {
                    return false;
                },
            },
            None => {
                let rest = theirs.next();
                proof {
                    assert(left@.take(i) == left@);
                    assert(rest is None ==> right@.take(i) == right@);
                }
                return rest.is_none();
            },
        }
    }
}

/// Whether `item` is the text of one of the strings of `row`.
pub fn contains_text(row: &Vec<String>, item: &String) -> (found: bool)
    ensures
        found == texts(row@).contains(item@),
{
    let mut i: usize = 0;
    while i < row.len()
        invariant
            i <= row.len(),
            forall|j: int| 0 <= j < i ==> texts(row@)[j] != item@,
        decreases row.len() - i,
    {
        if row[i] == *item {
            assert(texts(row@)[i as int] == item@);
            return true;
        }
        i += 1;
    }
    false
}

/// A copy of a row of strings.
pub fn clone_texts(row: &Vec<String>) -> (copy: Vec<String>)
    ensures
        texts(copy@) == texts(row@),
{
    let mut copy: Vec<String> = Vec::new();
    let mut i: usize = 0;
    while i < row.len()
        invariant
            i <= row.len(),
            texts(copy@) == texts(row@).take(i as int),
        decreases row.len() - i,
    {
        let ghost before = copy@;
        let item = row[i].clone();
        assert(item@ == row@[i as int]@);
        copy.push(item);
        assert(copy@ == before.push(item));
        assert(texts(copy@) =~= texts(before).push(item@));
        assert(texts(row@).take(i + 1) =~= texts(row@).take(i as int).push(item@));
        i += 1;
    }
    assert(texts(row@).take(row.len() as int) == texts(row@));
    copy
}

} // verus!
