//! Taking a ledger apart and putting it together again. A contract keeps
//! nothing in memory between two calls, so whoever hosts the ledger stores
//! its parts and reads them back. What is read back is checked before it is
//! trusted: this module holds the checks, each of them exact.

use vstd::prelude::*;
use crate::animal::{
    animal_views, count_slots, find_animal, find_count, find_name, find_voter, holds_name,
    names_view, vote_slots, Animal, AnimalVotes, UserVotes,
};
use crate::host::{address_id, name_bytes, name_len};
use crate::model::{names_distinct, voters_of, Ledger, MAX_NAME_LEN};
use crate::slots::{as_map, distinct_keys, has_key, lemma_dom_len, lemma_lookup, lemma_push, place_of_key};

verus! {

/// The value of the model that five parts stand for.
pub open spec fn ledger_of(
    admin: Option<soroban_sdk::Address>,
    total_animals: u64,
    animals: Seq<Animal>,
    animal_votes: Seq<AnimalVotes>,
    user_votes: Seq<UserVotes>,
) -> Ledger {
    Ledger {
        admin: match admin {
            Some(a) => Some(address_id(a)),
            None => None,
        },
        total_animals: total_animals as nat,
        animals: animal_views(animals),
        animal_votes: as_map(count_slots(animal_votes)),
        user_votes: as_map(vote_slots(user_votes)),
    }
}

/// Whether the parts make a ledger: no count and no list of votes is kept
/// twice, and the value they stand for is well formed. The administrator has
/// no part in this: any identity, or none, may be the administrator.
pub open spec fn consistent(
    total_animals: u64,
    animals: Seq<Animal>,
    animal_votes: Seq<AnimalVotes>,
    user_votes: Seq<UserVotes>,
) -> bool {
    &&& distinct_keys(count_slots(animal_votes))
    &&& distinct_keys(vote_slots(user_votes))
    &&& ledger_of(None, total_animals, animals, animal_votes, user_votes).wf()
}

/// Whether every name has between one and [`MAX_NAME_LEN`] bytes.
pub fn names_in_bounds(animals: &Vec<Animal>) -> (ok: bool)
    ensures
        ok == forall|i: int|
            0 <= i < animals.len() ==> 0 < (#[trigger] animal_views(animals@)[i]).name.len()
                <= MAX_NAME_LEN,
{
    let mut i: usize = 0;
    while i < animals.len()
        invariant
            i <= animals.len(),
            forall|j: int|
                0 <= j < i ==> 0 < (#[trigger] animal_views(animals@)[j]).name.len() <= MAX_NAME_LEN,
        decreases animals.len() - i,
    {
        let len: u32 = name_len(&animals[i].name);
        if len == 0 || len > MAX_NAME_LEN {
            assert(!(0 < animal_views(animals@)[i as int].name.len() <= MAX_NAME_LEN));
            return false;
        }
        i += 1;
    }
    true
}

/// Whether no two animals share a name.
pub fn names_unique(animals: &Vec<Animal>) -> (ok: bool)
    ensures
        ok == names_distinct(animal_views(animals@)),
{
    let ghost views = animal_views(animals@);
    let mut i: usize = 0;
    while i < animals.len()
        invariant
            i <= animals.len(),
            views == animal_views(animals@),
            forall|a: int, b: int|
                0 <= a < b < i ==> (#[trigger] views[a]).name != (#[trigger] views[b]).name,
        decreases animals.len() - i,
    {
        assert(views[i as int].name == animals[i as int]@.name);
        match find_animal(animals, &animals[i].name) {
            Some(first) => {
                if first != i {
                    assert(first < i) by {
                        if first > i {
                            assert(animals[i as int]@.name != animals[i as int]@.name);
                        }
                    }
                    assert(views[first as int].name == views[i as int].name);
                    return false;
                }
                assert forall|a: int| 0 <= a < i implies (#[trigger] views[a]).name != views[i as int].name by {
                    assert(animals[a]@.name != animals[i as int]@.name);
                }
            },
            None => {
                return false;
            },
        }
        i += 1;
    }
    true
}

/// Whether no name has two counts.
pub fn counts_unique(counts: &Vec<AnimalVotes>) -> (ok: bool)
    ensures
        ok == distinct_keys(count_slots(counts@)),
{
    let ghost slots = count_slots(counts@);
    let mut i: usize = 0;
    while i < counts.len()
        invariant
            i <= counts.len(),
            slots == count_slots(counts@),
            forall|a: int, b: int| 0 <= a < b < i ==> (#[trigger] slots[a]).0 != (#[trigger] slots[b]).0,
        decreases counts.len() - i,
    {
        assert(slots[i as int].0 == counts[i as int]@.0);
        match find_count(counts, &counts[i].name) {
            Some(first) => {
                if first != i {
                    assert(first < i) by {
                        if first > i {
                            assert(counts[i as int]@.0 != counts[i as int]@.0);
                        }
                    }
                    assert(slots[first as int].0 == slots[i as int].0);
                    return false;
                }
                assert forall|a: int| 0 <= a < i implies (#[trigger] slots[a]).0 != slots[i as int].0 by {
                    assert(counts[a]@.0 != counts[i as int]@.0);
                }
            },
            None => {
                return false;
            },
        }
        i += 1;
    }
    true
}

/// Whether no identity has two lists of votes.
pub fn voters_unique(votes: &Vec<UserVotes>) -> (ok: bool)
    ensures
        ok == distinct_keys(vote_slots(votes@)),
{
    let ghost slots = vote_slots(votes@);
    let mut i: usize = 0;
    while i < votes.len()
        invariant
            i <= votes.len(),
            slots == vote_slots(votes@),
            forall|a: int, b: int| 0 <= a < b < i ==> (#[trigger] slots[a]).0 != (#[trigger] slots[b]).0,
        decreases votes.len() - i,
    {
        assert(slots[i as int].0 == votes[i as int]@.0);
        match find_voter(votes, &votes[i].user) {
            Some(first) => {
                if first != i {
                    assert(first < i) by {
                        if first > i {
                            assert(votes[i as int]@.0 != votes[i as int]@.0);
                        }
                    }
                    assert(slots[first as int].0 == slots[i as int].0);
                    return false;
                }
                assert forall|a: int| 0 <= a < i implies (#[trigger] slots[a]).0 != slots[i as int].0 by {
                    assert(votes[a]@.0 != votes[i as int]@.0);
                }
            },
            None => {
                return false;
            },
        }
        i += 1;
    }
    true
}

/// Whether no name stands twice in `names`.
pub fn no_repeats(names: &Vec<soroban_sdk::String>) -> (ok: bool)
    ensures
        ok == names_view(names@).no_duplicates(),
{
    let ghost view = names_view(names@);
    let mut i: usize = 0;
    while i < names.len()
        invariant
            i <= names.len(),
            view == names_view(names@),
            forall|a: int, b: int| 0 <= a < b < i ==> view[a] != view[b],
        decreases names.len() - i,
    {
        match find_name(names, &names[i]) {
            Some(first) => {
                if first != i {
                    assert(first < i) by {
                        if first > i {
                            assert(view[i as int] != view[i as int]);
                        }
                    }
                    assert(view[first as int] == view[i as int]);
                    return false;
                }
                assert forall|a: int| 0 <= a < i implies view[a] != view[i as int] by {
                    assert(view[a] == name_bytes(names[a]));
                }
            },
            None => {
                assert(view[i as int] == name_bytes(names[i as int]));
                return false;
            },
        }
        i += 1;
    }
    true
}

/// Whether nobody's votes hold a name twice.
pub fn lists_unique(votes: &Vec<UserVotes>) -> (ok: bool)
    requires
        distinct_keys(vote_slots(votes@)),
    ensures
        ok == forall|user: Seq<u8>| #[trigger]
            as_map(vote_slots(votes@)).contains_key(user) ==> as_map(
                vote_slots(votes@),
            )[user].no_duplicates(),
{
    let ghost slots = vote_slots(votes@);
    let mut i: usize = 0;
    while i < votes.len()
        invariant
            i <= votes.len(),
            slots == vote_slots(votes@),
            distinct_keys(slots),
            forall|j: int| 0 <= j < i ==> (#[trigger] slots[j]).1.no_duplicates(),
        decreases votes.len() - i,
    {
        if !no_repeats(&votes[i].names) {
            proof {
                lemma_lookup(slots, i as int);
                assert(as_map(slots).contains_key(slots[i as int].0));
            }
            return false;
        }
        assert(slots[i as int].1 == names_view(votes[i as int].names@));
        i += 1;
    }
    assert forall|user: Seq<u8>| #[trigger] as_map(slots).contains_key(user) implies as_map(
        slots,
    )[user].no_duplicates() by {
        let j = place_of_key(slots, user);
        lemma_lookup(slots, j);
    }
    true
}

/// Whether the count kept under the name of each animal is the count in the
/// animal.
pub fn counts_agree(animals: &Vec<Animal>, counts: &Vec<AnimalVotes>) -> (ok: bool)
    requires
        distinct_keys(count_slots(counts@)),
    ensures
        ok == forall|i: int|
            0 <= i < animals.len() ==> as_map(count_slots(counts@)).contains_key(
                (#[trigger] animal_views(animals@)[i]).name,
            ) && as_map(count_slots(counts@))[animal_views(animals@)[i].name] == animal_views(
                animals@,
            )[i].votes,
{
    let ghost views = animal_views(animals@);
    let ghost kept = as_map(count_slots(counts@));
    let mut i: usize = 0;
    while i < animals.len()
        invariant
            i <= animals.len(),
            views == animal_views(animals@),
            kept == as_map(count_slots(counts@)),
            distinct_keys(count_slots(counts@)),
            forall|j: int|
                0 <= j < i ==> kept.contains_key((#[trigger] views[j]).name) && kept[views[j].name]
                    == views[j].votes,
        decreases animals.len() - i,
    {
        assert(views[i as int] == animals[i as int]@);
        match find_count(counts, &animals[i].name) {
            Some(c) => {
                proof {
                    lemma_lookup(count_slots(counts@), c as int);
                }
                if counts[c].votes != animals[i].votes {
                    return false;
                }
            },
            None => {
                assert(!kept.contains_key(views[i as int].name));
                return false;
            },
        }
        i += 1;
    }
    true
}

/// A list of votes under a new identity adds that identity to the voters of
/// the names in the list and to the voters of no other name.
pub proof fn lemma_voters_with(
    kept: Map<Seq<u8>, Seq<Seq<u8>>>,
    user: Seq<u8>,
    names: Seq<Seq<u8>>,
    name: Seq<u8>,
)
    requires
        !kept.contains_key(user),
    ensures
        voters_of(kept.insert(user, names), name) == if names.contains(name) {
            voters_of(kept, name).insert(user)
        } else {
            voters_of(kept, name)
        },
        !voters_of(kept, name).contains(user),
{
    if names.contains(name) {
        assert(voters_of(kept.insert(user, names), name) =~= voters_of(kept, name).insert(user));
    } else {
        assert(voters_of(kept.insert(user, names), name) =~= voters_of(kept, name));
    }
}

/// The number of identities that have voted for `name`.
pub fn count_voters(votes: &Vec<UserVotes>, name: &soroban_sdk::String) -> (count: usize)
    requires
        distinct_keys(vote_slots(votes@)),
    ensures
        voters_of(as_map(vote_slots(votes@)), name_bytes(*name)).finite(),
        count == voters_of(as_map(vote_slots(votes@)), name_bytes(*name)).len(),
{
    let ghost slots = vote_slots(votes@);
    let ghost wanted = name_bytes(*name);
    let mut count: usize = 0;
    let mut i: usize = 0;
    proof {
        assert(voters_of(as_map(slots.take(0)), wanted) =~= Set::empty());
    }
    while i < votes.len()
        invariant
            i <= votes.len(),
            count <= i,
            slots == vote_slots(votes@),
            wanted == name_bytes(*name),
            distinct_keys(slots),
            voters_of(as_map(slots.take(i as int)), wanted).finite(),
            count == voters_of(as_map(slots.take(i as int)), wanted).len(),
        decreases votes.len() - i,
    {
        proof {
            let seen = slots.take(i as int);
            let next = slots[i as int];
            assert(distinct_keys(seen)) by {
                assert forall|a: int, b: int| 0 <= a < b < seen.len() implies (#[trigger] seen[a]).0 != (
                #[trigger] seen[b]).0 by {
                    assert(slots[a].0 != slots[b].0);
                }
            }
            assert(!has_key(seen, next.0)) by {
                if has_key(seen, next.0) {
                    let j = place_of_key(seen, next.0);
                    assert(slots[j].0 != slots[i as int].0);
                }
            }
            lemma_push(seen, next.0, next.1);
            assert(seen.push((next.0, next.1)) =~= slots.take(i + 1));
            lemma_voters_with(as_map(seen), next.0, next.1, wanted);
            assert(next.1 == names_view(votes[i as int].names@));
        }
        if holds_name(&votes[i].names, name) {
            count += 1;
        }
        i += 1;
    }
    assert(slots.take(i as int) =~= slots);
    count
}

/// Whether no animal has more votes than there are identities that voted for
/// its name.
pub fn votes_covered(animals: &Vec<Animal>, votes: &Vec<UserVotes>) -> (ok: bool)
    requires
        distinct_keys(vote_slots(votes@)),
    ensures
        ok == forall|i: int|
            0 <= i < animals.len() ==> (#[trigger] animal_views(animals@)[i]).votes <= voters_of(
                as_map(vote_slots(votes@)),
                animal_views(animals@)[i].name,
            ).len(),
{
    let ghost views = animal_views(animals@);
    let ghost kept = as_map(vote_slots(votes@));
    let mut i: usize = 0;
    while i < animals.len()
        invariant
            i <= animals.len(),
            views == animal_views(animals@),
            kept == as_map(vote_slots(votes@)),
            distinct_keys(vote_slots(votes@)),
            forall|j: int|
                0 <= j < i ==> (#[trigger] views[j]).votes <= voters_of(kept, views[j].name).len(),
        decreases animals.len() - i,
    {
        assert(views[i as int] == animals[i as int]@);
        let voters: usize = count_voters(votes, &animals[i].name);
        if animals[i].votes > voters as u64 {
            return false;
        }
        i += 1;
    }
    true
}

/// Whether the parts make a ledger.
pub fn check_parts(
    total_animals: u64,
    animals: &Vec<Animal>,
    animal_votes: &Vec<AnimalVotes>,
    user_votes: &Vec<UserVotes>,
) -> (ok: bool)
    ensures
        ok == consistent(total_animals, animals@, animal_votes@, user_votes@),
{
    let ok = animals.len() as u64 == total_animals && counts_unique(animal_votes) && voters_unique(
        user_votes,
    ) && names_unique(animals) && names_in_bounds(animals) && counts_agree(animals, animal_votes)
        && lists_unique(user_votes) && votes_covered(animals, user_votes);
    proof {
        if distinct_keys(vote_slots(user_votes@)) {
            lemma_dom_len(vote_slots(user_votes@));
        }
    }
    ok
}

} // verus!
