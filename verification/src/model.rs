//! The ledger as a mathematical value: what is registered, what has been
//! counted and who has voted, with the steps that lead from one such value to
//! the next. The executable ledger is specified against this model.

use vstd::prelude::*;
use vstd::string::StringSliceAdditionalSpecFns;
use vstd::utf8::{is_ascii_chars, is_ascii_chars_encode_utf8};
use crate::error::Error;

verus! {

/// The longest name, in bytes, that an animal may be registered under.
pub const MAX_NAME_LEN: u32 = 30;

/// An animal as the model sees it: its name as bytes, its count, and the
/// identity that registered it.
pub struct AnimalView {
    pub name: Seq<u8>,
    pub votes: nat,
    pub creator: Seq<u8>,
}

/// The whole state of a ledger. The five fields are the five slots that the
/// ledger keeps: the administrator, the number of animals, the animals in the
/// order of registration, the count kept under each name, and under each
/// identity the names it has voted for, oldest first.
pub struct Ledger {
    pub admin: Option<Seq<u8>>,
    pub total_animals: nat,
    pub animals: Seq<AnimalView>,
    pub animal_votes: Map<Seq<u8>, nat>,
    pub user_votes: Map<Seq<u8>, Seq<Seq<u8>>>,
}

/// The sum of the counts of `animals`.
pub open spec fn sum_votes(animals: Seq<AnimalView>) -> nat
    decreases animals.len(),
{
    if animals.len() == 0 {
        0
    } else {
        sum_votes(animals.drop_last()) + animals.last().votes
    }
}

/// The sum of the counts grows with each animal that is taken in.
pub proof fn lemma_sum_votes_step(animals: Seq<AnimalView>, i: int)
    requires
        0 <= i < animals.len(),
    ensures
        sum_votes(animals.take(i + 1)) == sum_votes(animals.take(i)) + animals[i].votes,
{
    assert(animals.take(i + 1).drop_last() =~= animals.take(i));
}

/// The counts of the first `i` animals sum to no more than the counts of all.
pub proof fn lemma_sum_votes_prefix(animals: Seq<AnimalView>, i: int)
    requires
        0 <= i <= animals.len(),
    ensures
        sum_votes(animals.take(i)) <= sum_votes(animals),
    decreases animals.len() - i,
{
    if i == animals.len() {
        assert(animals.take(i) =~= animals);
    } else {
        lemma_sum_votes_step(animals, i);
        lemma_sum_votes_prefix(animals, i + 1);
    }
}

/// The highest count among `animals`; zero where there is no animal.
pub open spec fn max_votes(animals: Seq<AnimalView>) -> nat
    decreases animals.len(),
{
    if animals.len() == 0 {
        0
    } else {
        let rest = max_votes(animals.drop_last());
        if animals.last().votes > rest {
            animals.last().votes
        } else {
            rest
        }
    }
}

/// No animal has more votes than the highest count, and where there is an
/// animal, one of them has exactly that many.
pub proof fn lemma_max_votes(animals: Seq<AnimalView>)
    ensures
        forall|i: int| 0 <= i < animals.len() ==> (#[trigger] animals[i]).votes <= max_votes(animals),
        animals.len() > 0 ==> exists|i: int|
            0 <= i < animals.len() && (#[trigger] animals[i]).votes == max_votes(animals),
    decreases animals.len(),
{
    if animals.len() > 0 {
        let rest = animals.drop_last();
        lemma_max_votes(rest);
        assert forall|i: int| 0 <= i < animals.len() implies (#[trigger] animals[i]).votes
            <= max_votes(animals) by {
            if i < rest.len() {
                assert(rest[i].votes <= max_votes(rest));
            }
        }
        if animals.last().votes > max_votes(rest) || rest.len() == 0 {
            assert(animals[animals.len() - 1].votes == max_votes(animals));
        } else {
            let i = choose|i: int| 0 <= i < rest.len() && (#[trigger] rest[i]).votes == max_votes(rest);
            assert(animals[i].votes == max_votes(animals));
        }
    }
}

/// Whether some animal in `animals` bears `name`.
pub open spec fn names_contain(animals: Seq<AnimalView>, name: Seq<u8>) -> bool {
    exists|i: int| 0 <= i < animals.len() && #[trigger] animals[i].name == name
}

/// The place in `animals` of the animal that bears `name`, where there is one.
pub open spec fn place_of(animals: Seq<AnimalView>, name: Seq<u8>) -> int {
    choose|i: int| 0 <= i < animals.len() && #[trigger] animals[i].name == name
}

/// No two animals in `animals` bear the same name.
pub open spec fn names_distinct(animals: Seq<AnimalView>) -> bool {
    forall|i: int, j: int|
        0 <= i < j < animals.len() ==> #[trigger] animals[i].name != #[trigger] animals[j].name
}

/// In a list without repeated names, the animal at place `i` is the one that
/// its name leads to.
pub proof fn lemma_place_of(animals: Seq<AnimalView>, i: int)
    requires
        names_distinct(animals),
        0 <= i < animals.len(),
    ensures
        names_contain(animals, animals[i].name),
        place_of(animals, animals[i].name) == i,
{
    let name = animals[i].name;
    assert(names_contain(animals, name));
    let j = place_of(animals, name);
    assert(0 <= j < animals.len() && animals[j].name == name);
    if j < i {
        assert(animals[j].name != animals[i].name);
    } else if i < j {
        assert(animals[i].name != animals[j].name);
    }
}

/// Whether `a` stands before `b` when the animals of `src` are ranked: the
/// one with more votes comes first, and of two with equal votes the one that
/// was registered earlier.
pub open spec fn ranks_before(src: Seq<AnimalView>, a: AnimalView, b: AnimalView) -> bool {
    a.votes > b.votes || (a.votes == b.votes && place_of(src, a.name) < place_of(src, b.name))
}

/// Whether `out` is the ranking of `src`: it holds the same animals, and each
/// stands before all that follow it. Where no name stands twice in `src`,
/// there is exactly one such list.
pub open spec fn is_ranking(out: Seq<AnimalView>, src: Seq<AnimalView>) -> bool {
    &&& out.len() == src.len()
    &&& forall|i: int| 0 <= i < out.len() ==> src.contains(#[trigger] out[i])
    &&& forall|i: int| 0 <= i < src.len() ==> out.contains(#[trigger] src[i])
    &&& forall|i: int, j: int|
        0 <= i < j < out.len() ==> ranks_before(src, #[trigger] out[i], #[trigger] out[j])
}

/// Whether `a` is the winner among `src`: it is one of them and stands before
/// every other.
pub open spec fn is_winner(src: Seq<AnimalView>, a: AnimalView) -> bool {
    &&& src.contains(a)
    &&& forall|i: int|
        0 <= i < src.len() ==> (#[trigger] src[i]) == a || ranks_before(src, a, src[i])
}

/// The winner has the highest count.
pub proof fn lemma_winner_has_most(src: Seq<AnimalView>, a: AnimalView)
    requires
        is_winner(src, a),
    ensures
        a.votes == max_votes(src),
{
    lemma_max_votes(src);
    let at = choose|at: int| 0 <= at < src.len() && src[at] == a;
    assert(src[at].votes <= max_votes(src));
    let top = choose|i: int| 0 <= i < src.len() && (#[trigger] src[i]).votes == max_votes(src);
    assert(src[top] == a || ranks_before(src, a, src[top]));
}

/// The first animal of a ranking is the winner.
pub proof fn lemma_first_is_winner(out: Seq<AnimalView>, src: Seq<AnimalView>)
    requires
        is_ranking(out, src),
        out.len() > 0,
    ensures
        is_winner(src, out[0]),
{
    assert(src.contains(out[0]));
    assert forall|i: int| 0 <= i < src.len() implies (#[trigger] src[i]) == out[0] || ranks_before(
        src,
        out[0],
        src[i],
    ) by {
        assert(out.contains(src[i]));
        let k = choose|k: int| 0 <= k < out.len() && out[k] == src[i];
        if k > 0 {
            assert(ranks_before(src, out[0], out[k]));
        }
    }
}

/// The key under which the statistics hold the number of animals.
pub open spec fn key_total_animals() -> Seq<u8> {
    "total_animals".spec_bytes()
}

/// The key under which the statistics hold the sum of all votes.
pub open spec fn key_total_votes() -> Seq<u8> {
    "total_votes".spec_bytes()
}

/// The key under which the statistics hold the highest count.
pub open spec fn key_highest_votes() -> Seq<u8> {
    "highest_votes".spec_bytes()
}

/// The three keys of the statistics differ from one another, and none is
/// longer than thirteen bytes.
pub proof fn lemma_stats_keys_differ()
    ensures
        key_total_animals() != key_total_votes(),
        key_total_animals() != key_highest_votes(),
        key_total_votes() != key_highest_votes(),
        key_total_animals().len() == 13,
        key_total_votes().len() == 11,
        key_highest_votes().len() == 13,
{
    reveal_strlit("total_animals");
    reveal_strlit("total_votes");
    reveal_strlit("highest_votes");
    assert(is_ascii_chars("total_animals"@));
    assert(is_ascii_chars("total_votes"@));
    assert(is_ascii_chars("highest_votes"@));
    is_ascii_chars_encode_utf8("total_animals"@);
    is_ascii_chars_encode_utf8("total_votes"@);
    is_ascii_chars_encode_utf8("highest_votes"@);
    assert(key_total_animals().len() == 13);
    assert(key_total_votes().len() == 11);
    assert(key_highest_votes().len() == 13);
    assert("total_animals"@[0] == 't');
    assert("highest_votes"@[0] == 'h');
    assert(key_total_animals()[0] != key_highest_votes()[0]);
}

/// The identities under which `user_votes` holds `name`.
pub open spec fn voters_of(user_votes: Map<Seq<u8>, Seq<Seq<u8>>>, name: Seq<u8>) -> Set<Seq<u8>> {
    Set::new(|user: Seq<u8>| user_votes.contains_key(user) && user_votes[user].contains(name))
}

/// One operation that changes the ledger, with what it is given.
pub enum Step {
    Initialize { admin: Seq<u8> },
    AddAnimal { user: Seq<u8>, name: Seq<u8> },
    Vote { user: Seq<u8>, name: Seq<u8> },
    Remove { caller: Seq<u8>, name: Seq<u8> },
}

impl Ledger {
    /// The ledger before anything has happened: no administrator, no animal,
    /// no count, no vote.
    pub open spec fn empty() -> Ledger {
        Ledger {
            admin: None,
            total_animals: 0,
            animals: Seq::empty(),
            animal_votes: Map::empty(),
            user_votes: Map::empty(),
        }
    }

    /// Whether an animal of that name is registered.
    pub open spec fn has_animal(self, name: Seq<u8>) -> bool {
        names_contain(self.animals, name)
    }

    /// The count kept under `name`; zero where none is kept.
    pub open spec fn counter(self, name: Seq<u8>) -> nat {
        if self.animal_votes.contains_key(name) {
            self.animal_votes[name]
        } else {
            0
        }
    }

    /// The names that `user` has voted for, oldest first.
    pub open spec fn votes_cast(self, user: Seq<u8>) -> Seq<Seq<u8>> {
        if self.user_votes.contains_key(user) {
            self.user_votes[user]
        } else {
            Seq::empty()
        }
    }

    /// Whether `user` has voted for `name`, now or at any time before.
    pub open spec fn has_voted(self, user: Seq<u8>, name: Seq<u8>) -> bool {
        self.votes_cast(user).contains(name)
    }

    /// The identities that have voted for `name`.
    pub open spec fn voters(self, name: Seq<u8>) -> Set<Seq<u8>> {
        voters_of(self.user_votes, name)
    }

    /// The sum of the counts of all registered animals.
    pub open spec fn total_votes(self) -> nat {
        sum_votes(self.animals)
    }

    /// The highest count of a registered animal; zero where none is
    /// registered.
    pub open spec fn highest_votes(self) -> nat {
        max_votes(self.animals)
    }

    /// The statistics of the ledger: the number of animals, the sum of all
    /// votes and the highest count, each under its key.
    pub open spec fn stats(self) -> Map<Seq<u8>, nat> {
        Map::empty().insert(key_total_animals(), self.total_animals).insert(
            key_total_votes(),
            self.total_votes(),
        ).insert(key_highest_votes(), self.highest_votes())
    }

    /// What holds of every ledger that the operations can reach:
    /// the number of animals is the length of the list; no name is registered
    /// twice; every name has between one and [`MAX_NAME_LEN`] bytes; the count
    /// kept under a registered name is the count in its animal; nobody's votes
    /// hold a name twice; and no animal has more votes than there are
    /// identities that voted for its name.
    pub open spec fn wf(self) -> bool {
        &&& self.total_animals == self.animals.len()
        &&& names_distinct(self.animals)
        &&& forall|i: int|
            0 <= i < self.animals.len() ==> 0 < (#[trigger] self.animals[i]).name.len()
                <= MAX_NAME_LEN
        &&& forall|i: int|
            0 <= i < self.animals.len() ==> self.animal_votes.contains_key(
                (#[trigger] self.animals[i]).name,
            ) && self.animal_votes[self.animals[i].name] == self.animals[i].votes
        &&& self.user_votes.dom().finite()
        &&& forall|user: Seq<u8>| #[trigger]
            self.user_votes.contains_key(user) ==> self.user_votes[user].no_duplicates()
        &&& forall|i: int|
            0 <= i < self.animals.len() ==> (#[trigger] self.animals[i]).votes <= self.voters(
                self.animals[i].name,
            ).len()
    }

    /// The ledger after `initialize`: `admin` is the administrator and no
    /// animal is registered. Counts and votes that were kept stay.
    pub open spec fn initialize(self, admin: Seq<u8>) -> Ledger {
        Ledger { admin: Some(admin), total_animals: 0, animals: Seq::empty(), ..self }
    }

    /// What `add_animal` answers.
    pub open spec fn add_animal_result(self, name: Seq<u8>) -> Result<(), Error> {
        if name.len() == 0 {
            Err(Error::AnimalNameEmpty)
        } else if name.len() > MAX_NAME_LEN {
            Err(Error::AnimalNameTooLong)
        } else if self.has_animal(name) {
            Err(Error::AnimalAlreadyExists)
        } else {
            Ok(())
        }
    }

    /// The ledger after `add_animal`: where the answer is `Ok`, the animal
    /// stands last in the list with no votes, the count under its name is
    /// zero, and there is one animal more; otherwise nothing has changed.
    pub open spec fn add_animal(self, user: Seq<u8>, name: Seq<u8>) -> Ledger {
        if self.add_animal_result(name) is Ok {
            Ledger {
                total_animals: self.total_animals + 1,
                animals: self.animals.push(AnimalView { name, votes: 0, creator: user }),
                animal_votes: self.animal_votes.insert(name, 0),
                ..self
            }
        } else {
            self
        }
    }

    /// What `vote_for_animal` answers.
    pub open spec fn vote_result(self, user: Seq<u8>, name: Seq<u8>) -> Result<(), Error> {
        if !self.has_animal(name) {
            Err(Error::AnimalNotFound)
        } else if self.has_voted(user, name) {
            Err(Error::AlreadyVoted)
        } else {
            Ok(())
        }
    }

    /// The ledger after `vote_for_animal`: where the answer is `Ok`, the count
    /// under the name has gone up by one, the animal's own count is that new
    /// count, and the name stands last among the voter's votes; otherwise
    /// nothing has changed.
    pub open spec fn vote(self, user: Seq<u8>, name: Seq<u8>) -> Ledger {
        if self.vote_result(user, name) is Ok {
            let at = place_of(self.animals, name);
            let count = self.counter(name) + 1;
            Ledger {
                animals: self.animals.update(
                    at,
                    AnimalView { votes: count, ..self.animals[at] },
                ),
                animal_votes: self.animal_votes.insert(name, count),
                user_votes: self.user_votes.insert(user, self.votes_cast(user).push(name)),
                ..self
            }
        } else {
            self
        }
    }

    /// What `get_animal_votes` answers.
    pub open spec fn animal_votes_result(self, name: Seq<u8>) -> Result<nat, Error> {
        if self.has_animal(name) {
            Ok(self.counter(name))
        } else {
            Err(Error::AnimalNotFound)
        }
    }

    /// What `remove_animal` answers.
    pub open spec fn remove_result(self, caller: Seq<u8>, name: Seq<u8>) -> Result<(), Error> {
        if self.admin != Some(caller) {
            Err(Error::Unauthorized)
        } else if !self.has_animal(name) {
            Err(Error::AnimalNotFound)
        } else {
            Ok(())
        }
    }

    /// The ledger after `remove_animal`: where the answer is `Ok`, the animal
    /// has left the list, no count is kept under its name, and there is one
    /// animal less (never fewer than none); otherwise nothing has changed.
    /// Nobody's votes change: a vote for a removed animal stays on record.
    pub open spec fn remove(self, caller: Seq<u8>, name: Seq<u8>) -> Ledger {
        if self.remove_result(caller, name) is Ok {
            Ledger {
                total_animals: if self.total_animals > 0 {
                    (self.total_animals - 1) as nat
                } else {
                    0
                },
                animals: self.animals.remove(place_of(self.animals, name)),
                animal_votes: self.animal_votes.remove(name),
                ..self
            }
        } else {
            self
        }
    }

    /// The ledger after one operation, whether it was accepted or refused.
    pub open spec fn step(self, step: Step) -> Ledger {
        match step {
            Step::Initialize { admin } => self.initialize(admin),
            Step::AddAnimal { user, name } => self.add_animal(user, name),
            Step::Vote { user, name } => self.vote(user, name),
            Step::Remove { caller, name } => self.remove(caller, name),
        }
    }

    /// The ledger after a sequence of operations, the first of them first.
    pub open spec fn run(self, steps: Seq<Step>) -> Ledger
        decreases steps.len(),
    {
        if steps.len() == 0 {
            self
        } else {
            self.run(steps.drop_last()).step(steps.last())
        }
    }
}

} // verus!
