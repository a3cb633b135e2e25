//! Names that are unique among siblings.

use crate::decimal::{decimal, decimal_injective, decimal_string};
use crate::ident::sanitized;
use vstd::hash_set::StringHashSet;
use vstd::prelude::*;
use vstd::set_lib::{lemma_int_range, lemma_len_subset, lemma_map_size, set_int_range};
use vstd::string::*;

verus! {

/// The name tried at probe `i`: the starting name, an underscore and `i` in
/// decimal.
pub open spec fn candidate(start: Seq<char>, i: nat) -> Seq<char> {
    start + seq!['_'] + decimal(i)
}

/// Every candidate of `start` from the second up to, and not including,
/// the `i`-th is taken.
pub open spec fn taken_below(start: Seq<char>, taken: Set<Seq<char>>, i: nat) -> bool {
    forall|j: nat| 2 <= j < i ==> taken.contains(#[trigger] candidate(start, j))
}

/// `i` is the first probe, counting from 2, whose candidate is free.
pub open spec fn first_free(start: Seq<char>, taken: Set<Seq<char>>, i: nat) -> bool {
    &&& i >= 2
    &&& !taken.contains(candidate(start, i))
    &&& taken_below(start, taken, i)
}

/// The name that `start` gets beside the names in `taken`: itself where it
/// is free, else its first free candidate.
pub open spec fn fresh_name(start: Seq<char>, taken: Set<Seq<char>>) -> Seq<char> {
    if !taken.contains(start) {
        start
    } else {
        candidate(start, choose|i: nat| first_free(start, taken, i))
    }
}

/// The names that a row of siblings gets, each made unique against those
/// before it.
pub open spec fn unique_names(fragments: Seq<Seq<char>>) -> Seq<Seq<char>>
    decreases fragments.len(),
{
    if fragments.len() == 0 {
        Seq::empty()
    } else {
        let before = unique_names(fragments.drop_last());
        before.push(fresh_name(fragments.last(), before.to_set()))
    }
}

/// The identifiers that siblings with the raw names `raw` get: each raw
/// name is sanitized, and the result made unique against the identifiers
/// of the siblings before it.
pub open spec fn identifiers(raw: Seq<Seq<char>>) -> Seq<Seq<char>> {
    unique_names(raw.map_values(|name: Seq<char>| sanitized(name)))
}

/// Two probes with the same candidate are the same probe.
pub proof fn candidate_injective(start: Seq<char>, i: nat, j: nat)
    requires
        candidate(start, i) == candidate(start, j),
    ensures
        i == j,
{
    let head = start + seq!['_'];
    assert(candidate(start, i).skip(head.len() as int) =~= decimal(i));
    assert(candidate(start, j).skip(head.len() as int) =~= decimal(j));
    decimal_injective(i, j);
}

/// At most one probe is the first free one.
pub proof fn first_free_unique(start: Seq<char>, taken: Set<Seq<char>>, i: nat, j: nat)
    requires
        first_free(start, taken, i),
        first_free(start, taken, j),
    ensures
        i == j,
{
    if i < j {
        assert(taken.contains(candidate(start, i)));
    }
    if j < i {
        assert(taken.contains(candidate(start, j)));
    }
}

/// A finite set holds no more candidates than it has members.
pub proof fn probes_bounded(start: Seq<char>, taken: Set<Seq<char>>, i: nat)
    requires
        taken.finite(),
        i >= 2,
        taken_below(start, taken, i),
    ensures
        i - 2 <= taken.len(),
{
    let probes = set_int_range(2, i as int);
    let name = |j: int| candidate(start, j as nat);
    let names = probes.map(name);
    lemma_int_range(2, i as int);
    assert forall|a: int, b: int|
        probes.contains(a) && probes.contains(b) && #[trigger] name(a) == #[trigger] name(
            b,
        ) implies a == b by {
        candidate_injective(start, a as nat, b as nat);
    }
    lemma_map_size(probes, names, name);
    assert forall|s: Seq<char>| names.contains(s) implies taken.contains(s) by {
        let j = choose|j: int| probes.contains(j) && s == name(j);
        assert(taken.contains(candidate(start, j as nat)));
    }
    lemma_len_subset(names, taken);
}

/// Beside a finite set of names some probe at or after `i` is free.
proof fn free_probe_exists(start: Seq<char>, taken: Set<Seq<char>>, i: nat)
    requires
        taken.finite(),
        i >= 2,
        taken_below(start, taken, i),
    ensures
        exists|k: nat| first_free(start, taken, k),
    decreases taken.len() + 2 - i,
{
    probes_bounded(start, taken, i);
    if taken.contains(candidate(start, i)) {
        assert(taken_below(start, taken, i + 1));
        probes_bounded(start, taken, i + 1);
        free_probe_exists(start, taken, i + 1);
    } else {
        assert(first_free(start, taken, i));
    }
}

/// The fresh name is none of the names taken before.
pub proof fn fresh_name_is_free(start: Seq<char>, taken: Set<Seq<char>>)
    requires
        taken.finite(),
    ensures
        !taken.contains(fresh_name(start, taken)),
{
    if taken.contains(start) {
        free_probe_exists(start, taken, 2);
    }
}

/// Siblings get as many names as they are, and no name twice, however many
/// of them start from the same name.
pub proof fn unique_names_distinct(fragments: Seq<Seq<char>>)
    ensures
        unique_names(fragments).len() == fragments.len(),
        unique_names(fragments).no_duplicates(),
    decreases fragments.len(),
{
    if fragments.len() > 0 {
        let before = unique_names(fragments.drop_last());
        unique_names_distinct(fragments.drop_last());
        vstd::seq_lib::seq_to_set_is_finite(before);
        fresh_name_is_free(fragments.last(), before.to_set());
        let name = fresh_name(fragments.last(), before.to_set());
        assert forall|k: int| 0 <= k < before.len() implies before[k] != name by {
            assert(before.to_set().contains(before[k]));
        }
    }
}

/// Siblings get as many identifiers as they are, and no identifier
/// twice, however many of their raw names sanitize to the same name.
pub proof fn identifiers_distinct(raw: Seq<Seq<char>>)
    ensures
        identifiers(raw).len() == raw.len(),
        identifiers(raw).no_duplicates(),
{
    unique_names_distinct(raw.map_values(|name: Seq<char>| sanitized(name)));
}

/// The names of the first `k` siblings do not depend on the siblings that
/// follow.
pub proof fn unique_names_prefix(fragments: Seq<Seq<char>>, k: int)
    requires
        0 <= k <= fragments.len(),
    ensures
        unique_names(fragments.take(k)) == unique_names(fragments).take(k),
    decreases fragments.len(),
{
    unique_names_distinct(fragments);
    if k == fragments.len() {
        assert(fragments.take(k) == fragments);
        assert(unique_names(fragments).take(k) == unique_names(fragments));
    } else {
        unique_names_distinct(fragments.drop_last());
        unique_names_prefix(fragments.drop_last(), k);
        assert(fragments.drop_last().take(k) == fragments.take(k));
        assert(unique_names(fragments).take(k) == unique_names(fragments.drop_last()).take(k));
    }
}

/// The name of the sibling at `k` is the fresh name of its fragment beside
/// the names of the siblings before it.
pub proof fn unique_names_step(fragments: Seq<Seq<char>>, k: int)
    requires
        0 <= k < fragments.len(),
    ensures
        unique_names(fragments)[k] == fresh_name(
            fragments[k],
            unique_names(fragments.take(k)).to_set(),
        ),
        unique_names(fragments.take(k + 1)).to_set() == unique_names(
            fragments.take(k),
        ).to_set().insert(unique_names(fragments)[k]),
{
    let upto = fragments.take(k + 1);
    unique_names_prefix(fragments, k + 1);
    unique_names_distinct(fragments);
    assert(upto.drop_last() == fragments.take(k));
    assert(upto.last() == fragments[k]);
    let before = unique_names(fragments.take(k));
    let name = unique_names(fragments)[k];
    unique_names_distinct(fragments.take(k));
    assert(upto.len() == k + 1);
    assert(unique_names(upto) == before.push(fresh_name(fragments[k], before.to_set())));
    assert(unique_names(upto) == unique_names(fragments).take(k + 1));
    assert(unique_names(upto)[k] == name);
    assert(name == fresh_name(fragments[k], before.to_set()));
    assert(unique_names(upto) == before.push(name));
    assert(before.push(name).to_set() =~= before.to_set().insert(name)) by {
        assert forall|x: Seq<char>| before.to_set().insert(name).contains(x) implies before.push(
            name,
        ).to_set().contains(x) by {
            if x == name {
                assert(before.push(name)[before.len() as int] == name);
            } else {
                let at = choose|at: int| 0 <= at < before.len() && before[at] == x;
                assert(before.push(name)[at] == x);
            }
        }
    }
}

fn candidate_string(start: &String, i: u128) -> (name: String)
    ensures
        name@ == candidate(start@, i as nat),
{
    let mut name = start.clone();
    name.push('_');
    name.append(decimal_string(i).as_str());
    name
}

/// Given a starting name and a set of taken names, generates a name that is
/// not in the set, and adds it to the set: the starting name where it is
/// free, else the first free one of `name_2`, `name_3`, and so on.
pub fn generate_name(starting_name: String, taken_names: &mut StringHashSet) -> (name: String)
    requires
        old(taken_names)@.finite(),
    ensures
        name@ == fresh_name(starting_name@, old(taken_names)@),
        !old(taken_names)@.contains(name@),
        final(taken_names)@ == old(taken_names)@.insert(name@),
        final(taken_names)@.finite(),
{
    if taken_names.insert(starting_name.clone()) {
        return starting_name;
    }
    assert(taken_names@ == old(taken_names)@);
    let mut i: u128 = 2;
    loop
        invariant
            taken_names@ == old(taken_names)@,
            taken_names@.finite(),
            taken_names@.contains(starting_name@),
            i >= 2,
            taken_below(starting_name@, taken_names@, i as nat),
        decreases taken_names@.len() + 2 - i,
    {
        let new_name = candidate_string(&starting_name, i);
        let ghost before = taken_names@;
        proof {
            broadcast use vstd::hash_set::group_hash_set_axioms;

            probes_bounded(starting_name@, before, i as nat);
            assert(before.len() == taken_names.spec_len());
        }
        if taken_names.insert(new_name.clone()) {
            proof {
                assert(first_free(starting_name@, before, i as nat));
                let k = choose|k: nat| first_free(starting_name@, before, k);
                first_free_unique(starting_name@, before, i as nat, k);
            }
            return new_name;
        }
        proof {
            assert(taken_names@ == before);
            assert(taken_below(starting_name@, before, (i + 1) as nat));
            probes_bounded(starting_name@, before, (i + 1) as nat);
        }
        i += 1;
    }
}

} // verus!
