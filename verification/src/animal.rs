//! The records that the ledger keeps, and how each is read as a value of the
//! model.

use vstd::prelude::*;
use crate::host::{address_id, clone_address, clone_name, name_bytes, same_address, same_name};
use crate::model::{names_contain, AnimalView};
use crate::slots::has_key;

verus! {

/// A registered animal.
#[derive(Debug)]
pub struct Animal {
    /// The name it was registered under.
    pub name: soroban_sdk::String,
    /// The votes it has received.
    pub votes: u64,
    /// The identity that registered it.
    pub creator: soroban_sdk::Address,
}

/// The count kept under one name.
#[derive(Debug)]
pub struct AnimalVotes {
    pub name: soroban_sdk::String,
    pub votes: u64,
}

/// The names that one identity has voted for, oldest first.
#[derive(Debug)]
pub struct UserVotes {
    pub user: soroban_sdk::Address,
    pub names: Vec<soroban_sdk::String>,
}

impl View for Animal {
    type V = AnimalView;

    open spec fn view(&self) -> AnimalView {
        AnimalView {
            name: name_bytes(self.name),
            votes: self.votes as nat,
            creator: address_id(self.creator),
        }
    }
}

impl View for AnimalVotes {
    type V = (Seq<u8>, nat);

    open spec fn view(&self) -> (Seq<u8>, nat) {
        (name_bytes(self.name), self.votes as nat)
    }
}

impl View for UserVotes {
    type V = (Seq<u8>, Seq<Seq<u8>>);

    open spec fn view(&self) -> (Seq<u8>, Seq<Seq<u8>>) {
        (address_id(self.user), names_view(self.names@))
    }
}

/// The bytes of each name of a list, in the order of the list.
pub open spec fn names_view(s: Seq<soroban_sdk::String>) -> Seq<Seq<u8>> {
    Seq::new(s.len(), |i: int| name_bytes(s[i]))
}

/// The animals of a list as the model sees them, in the order of the list.
pub open spec fn animal_views(s: Seq<Animal>) -> Seq<AnimalView> {
    Seq::new(s.len(), |i: int| s[i]@)
}

/// The counts of a list as pairs of a name and a count.
pub open spec fn count_slots(s: Seq<AnimalVotes>) -> Seq<(Seq<u8>, nat)> {
    Seq::new(s.len(), |i: int| s[i]@)
}

/// The votes of a list as pairs of an identity and the names it voted for.
pub open spec fn vote_slots(s: Seq<UserVotes>) -> Seq<(Seq<u8>, Seq<Seq<u8>>)> {
    Seq::new(s.len(), |i: int| s[i]@)
}

impl Clone for Animal {
    fn clone(&self) -> (copy: Animal)
        ensures
            copy@ == self@,
    {
        Animal {
            name: clone_name(&self.name),
            votes: self.votes,
            creator: clone_address(&self.creator),
        }
    }
}

/// A list of second handles to the same names, in the same order.
pub fn clone_names(names: &Vec<soroban_sdk::String>) -> (copy: Vec<soroban_sdk::String>)
    ensures
        names_view(copy@) == names_view(names@),
{
    let mut copy: Vec<soroban_sdk::String> = Vec::new();
    let mut i: usize = 0;
    while i < names.len()
        invariant
            i <= names.len(),
            copy.len() == i,
            forall|j: int| 0 <= j < i ==> name_bytes(#[trigger] copy[j]) == name_bytes(names[j]),
        decreases names.len() - i,
    {
        copy.push(clone_name(&names[i]));
        i += 1;
    }
    assert(names_view(copy@) =~= names_view(names@));
    copy
}

/// A list of copies of the same animals, in the same order.
pub fn clone_animals(animals: &Vec<Animal>) -> (copy: Vec<Animal>)
    ensures
        animal_views(copy@) == animal_views(animals@),
{
    let mut copy: Vec<Animal> = Vec::new();
    let mut i: usize = 0;
    while i < animals.len()
        invariant
            i <= animals.len(),
            copy.len() == i,
            forall|j: int| 0 <= j < i ==> (#[trigger] copy[j])@ == animals[j]@,
        decreases animals.len() - i,
    {
        copy.push(animals[i].clone());
        i += 1;
    }
    assert(animal_views(copy@) =~= animal_views(animals@));
    copy
}

/// The first place at which `name` stands in `names`; `None` where it does
/// not stand there.
pub fn find_name(names: &Vec<soroban_sdk::String>, name: &soroban_sdk::String) -> (place: Option<usize>)
    ensures
        place is Some <==> names_view(names@).contains(name_bytes(*name)),
        place matches Some(i) ==> i < names.len() && name_bytes(names[i as int]) == name_bytes(*name)
            && forall|j: int| 0 <= j < i ==> name_bytes(#[trigger] names[j]) != name_bytes(*name),
{
    let mut i: usize = 0;
    while i < names.len()
        invariant
            i <= names.len(),
            forall|j: int| 0 <= j < i ==> name_bytes(#[trigger] names[j]) != name_bytes(*name),
        decreases names.len() - i,
    {
        if same_name(&names[i], name) {
            assert(names_view(names@)[i as int] == name_bytes(*name));
            return Some(i);
        }
        i += 1;
    }
    assert forall|j: int| 0 <= j < names_view(names@).len() implies #[trigger] names_view(
        names@,
    )[j] != name_bytes(*name) by {
        assert(name_bytes(names[j]) != name_bytes(*name));
    }
    None
}

/// Whether `name` stands in `names`.
pub fn holds_name(names: &Vec<soroban_sdk::String>, name: &soroban_sdk::String) -> (found: bool)
    ensures
        found == names_view(names@).contains(name_bytes(*name)),
{
    find_name(names, name).is_some()
}

/// The place of the first animal that bears `name`; `None` where no animal
/// does.
pub fn find_animal(animals: &Vec<Animal>, name: &soroban_sdk::String) -> (place: Option<usize>)
    ensures
        place is Some <==> names_contain(animal_views(animals@), name_bytes(*name)),
        place matches Some(i) ==> i < animals.len() && animals[i as int]@.name == name_bytes(*name)
            && forall|j: int| 0 <= j < i ==> (#[trigger] animals[j])@.name != name_bytes(*name),
{
    let mut i: usize = 0;
    while i < animals.len()
        invariant
            i <= animals.len(),
            forall|j: int| 0 <= j < i ==> (#[trigger] animals[j])@.name != name_bytes(*name),
        decreases animals.len() - i,
    {
        if same_name(&animals[i].name, name) {
            assert(animal_views(animals@)[i as int].name == name_bytes(*name));
            return Some(i);
        }
        i += 1;
    }
    assert forall|j: int| 0 <= j < animal_views(animals@).len() implies (#[trigger] animal_views(
        animals@,
    )[j]).name != name_bytes(*name) by {
        assert(animals[j]@.name != name_bytes(*name));
    }
    None
}

/// The place of the first count kept under `name`; `None` where none is kept.
pub fn find_count(counts: &Vec<AnimalVotes>, name: &soroban_sdk::String) -> (place: Option<usize>)
    ensures
        place is Some <==> has_key(count_slots(counts@), name_bytes(*name)),
        place matches Some(i) ==> i < counts.len() && counts[i as int]@.0 == name_bytes(*name)
            && forall|j: int| 0 <= j < i ==> (#[trigger] counts[j])@.0 != name_bytes(*name),
{
    let mut i: usize = 0;
    while i < counts.len()
        invariant
            i <= counts.len(),
            forall|j: int| 0 <= j < i ==> (#[trigger] counts[j])@.0 != name_bytes(*name),
        decreases counts.len() - i,
    {
        if same_name(&counts[i].name, name) {
            assert(count_slots(counts@)[i as int].0 == name_bytes(*name));
            return Some(i);
        }
        i += 1;
    }
    assert forall|j: int| 0 <= j < count_slots(counts@).len() implies (#[trigger] count_slots(
        counts@,
    )[j]).0 != name_bytes(*name) by {
        assert(counts[j]@.0 != name_bytes(*name));
    }
    None
}

/// The place of the first list of votes kept for `user`; `None` where none is
/// kept.
pub fn find_voter(votes: &Vec<UserVotes>, user: &soroban_sdk::Address) -> (place: Option<usize>)
    ensures
        place is Some <==> has_key(vote_slots(votes@), address_id(*user)),
        place matches Some(i) ==> i < votes.len() && votes[i as int]@.0 == address_id(*user)
            && forall|j: int| 0 <= j < i ==> (#[trigger] votes[j])@.0 != address_id(*user),
{
    let mut i: usize = 0;
    while i < votes.len()
        invariant
            i <= votes.len(),
            forall|j: int| 0 <= j < i ==> (#[trigger] votes[j])@.0 != address_id(*user),
        decreases votes.len() - i,
    {
        if same_address(&votes[i].user, user) {
            assert(vote_slots(votes@)[i as int].0 == address_id(*user));
            return Some(i);
        }
        i += 1;
    }
    assert forall|j: int| 0 <= j < vote_slots(votes@).len() implies (#[trigger] vote_slots(
        votes@,
    )[j]).0 != address_id(*user) by {
        assert(votes[j]@.0 != address_id(*user));
    }
    None
}

} // verus!
