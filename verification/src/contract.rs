//! The ledger itself: the state that it owns and the operations on it.

use vstd::prelude::*;
use vstd::string::StringSliceAdditionalSpecFns;
use crate::animal::{
    animal_views, clone_animals, clone_names, count_slots, find_animal, find_count, find_voter,
    holds_name, names_view, vote_slots, Animal, AnimalVotes, UserVotes,
};
use crate::error::Error;
use crate::host::{
    address_id, clone_address, clone_name, name_bytes, name_len, same_address, stats_entries,
    stats_new, stats_set,
};
use crate::model::{
    is_ranking, is_winner, lemma_first_is_winner, lemma_place_of, lemma_sum_votes_prefix,
    lemma_stats_keys_differ, lemma_sum_votes_step, lemma_winner_has_most, sum_votes, AnimalView,
    Ledger, MAX_NAME_LEN,
};
use crate::preserved::{
    lemma_add_animal_wf, lemma_empty_wf, lemma_initialize_wf, lemma_remove_wf, lemma_vote_wf,
    lemma_voters_after_vote, lemma_voters_bounded,
};
use crate::ranking::rank;
use crate::slots::{
    as_map, distinct_keys, lemma_dom_len, lemma_lookup, lemma_push, lemma_remove, lemma_update,
};
use crate::stored::{check_parts, consistent, ledger_of};

verus! {

/// A voting ledger. It owns the administrator, the registered animals in the
/// order of registration, the count kept under each name, and the votes of
/// each identity.
pub struct AnimalVotingContract {
    admin: Option<soroban_sdk::Address>,
    total_animals: u64,
    animals: Vec<Animal>,
    animal_votes: Vec<AnimalVotes>,
    user_votes: Vec<UserVotes>,
}

impl View for AnimalVotingContract {
    type V = Ledger;

    closed spec fn view(&self) -> Ledger {
        ledger_of(
            self.admin,
            self.total_animals,
            self.animals@,
            self.animal_votes@,
            self.user_votes@,
        )
    }
}

/// Keeps `votes` as the count under `name`: in place of the count that was
/// kept there, or as a new one.
fn set_count(counts: &mut Vec<AnimalVotes>, name: soroban_sdk::String, votes: u64)
    requires
        distinct_keys(count_slots(old(counts)@)),
    ensures
        distinct_keys(count_slots(final(counts)@)),
        as_map(count_slots(final(counts)@)) == as_map(count_slots(old(counts)@)).insert(
            name_bytes(name),
            votes as nat,
        ),
{
    let ghost before = count_slots(counts@);
    match find_count(counts, &name) {
        Some(at) => {
            counts[at].votes = votes;
            proof {
                lemma_update(before, at as int, votes as nat);
                assert(count_slots(counts@) =~= before.update(
                    at as int,
                    (before[at as int].0, votes as nat),
                ));
            }
        },
        None => {
            let ghost key = name_bytes(name);
            counts.push(AnimalVotes { name, votes });
            proof {
                lemma_push(before, key, votes as nat);
                assert(count_slots(counts@) =~= before.push((key, votes as nat)));
            }
        },
    }
}

/// Forgets the count kept under `name`, where one is kept.
fn drop_count(counts: &mut Vec<AnimalVotes>, name: &soroban_sdk::String)
    requires
        distinct_keys(count_slots(old(counts)@)),
    ensures
        distinct_keys(count_slots(final(counts)@)),
        as_map(count_slots(final(counts)@)) == as_map(count_slots(old(counts)@)).remove(
            name_bytes(*name),
        ),
{
    let ghost before = count_slots(counts@);
    match find_count(counts, name) {
        Some(at) => {
            counts.remove(at);
            proof {
                lemma_remove(before, at as int);
                assert(count_slots(counts@) =~= before.remove(at as int));
            }
        },
        None => {
            assert(as_map(before) =~= as_map(before).remove(name_bytes(*name)));
        },
    }
}

impl AnimalVotingContract {
    /// What every operation expects of the ledger and leaves true of it: no
    /// count and no list of votes is kept twice, and the ledger is a
    /// well-formed value of the model.
    pub closed spec fn wf(&self) -> bool {
        consistent(self.total_animals, self.animals@, self.animal_votes@, self.user_votes@)
    }

    /// A well-formed ledger is a well-formed value of the model.
    pub proof fn lemma_wf(&self)
        requires
            self.wf(),
        ensures
            self@.wf(),
    {
    }

    /// A ledger in which nothing has happened yet.
    pub fn new() -> (ledger: AnimalVotingContract)
        ensures
            ledger.wf(),
            ledger@ == Ledger::empty(),
    {
        let ledger = AnimalVotingContract {
            admin: None,
            total_animals: 0,
            animals: Vec::new(),
            animal_votes: Vec::new(),
            user_votes: Vec::new(),
        };
        proof {
            lemma_empty_wf();
            assert(ledger@.animals =~= Seq::empty());
            assert(ledger@.animal_votes =~= Map::empty());
            assert(ledger@.user_votes =~= Map::empty());
        }
        ledger
    }

    /// Puts a ledger together from its five parts, as [`Self::into_parts`]
    /// gave them out; `None` where the parts do not make a ledger.
    pub fn restore(
        admin: Option<soroban_sdk::Address>,
        total_animals: u64,
        animals: Vec<Animal>,
        animal_votes: Vec<AnimalVotes>,
        user_votes: Vec<UserVotes>,
    ) -> (ledger: Option<AnimalVotingContract>)
        ensures
            ledger is Some <==> consistent(total_animals, animals@, animal_votes@, user_votes@),
            ledger matches Some(l) ==> l.wf() && l@ == ledger_of(
                admin,
                total_animals,
                animals@,
                animal_votes@,
                user_votes@,
            ),
    {
        if check_parts(total_animals, &animals, &animal_votes, &user_votes) {
            Some(AnimalVotingContract { admin, total_animals, animals, animal_votes, user_votes })
        } else {
            None
        }
    }

    /// Takes the ledger apart: the administrator, the number of animals, the
    /// animals in the order of registration, the counts, and the votes.
    pub fn into_parts(self) -> (parts: (
        Option<soroban_sdk::Address>,
        u64,
        Vec<Animal>,
        Vec<AnimalVotes>,
        Vec<UserVotes>,
    ))
        ensures
            ledger_of(parts.0, parts.1, parts.2@, parts.3@, parts.4@) == self@,
            self.wf() ==> consistent(parts.1, parts.2@, parts.3@, parts.4@),
    {
        (self.admin, self.total_animals, self.animals, self.animal_votes, self.user_votes)
    }

    /// Makes `admin` the administrator and starts with no animals. Counts and
    /// votes that the ledger kept stay on record.
    pub fn initialize(&mut self, admin: soroban_sdk::Address)
        requires
            old(self).wf(),
        ensures
            final(self).wf(),
            final(self)@ == old(self)@.initialize(address_id(admin)),
    {
        proof {
            lemma_initialize_wf(self@, address_id(admin));
        }
        self.admin = Some(admin);
        self.total_animals = 0;
        self.animals = Vec::new();
        proof {
            assert(self@.animals =~= Seq::empty());
        }
    }

    /// Registers an animal under `animal_name` for `user`.
    pub fn add_animal(&mut self, user: soroban_sdk::Address, animal_name: soroban_sdk::String) -> (result:
        Result<(), Error>)
        requires
            old(self).wf(),
        ensures
            final(self).wf(),
            result == old(self)@.add_animal_result(name_bytes(animal_name)),
            final(self)@ == old(self)@.add_animal(address_id(user), name_bytes(animal_name)),
    {
        let len: u32 = name_len(&animal_name);
        if len == 0 {
            return Err(Error::AnimalNameEmpty);
        }
        if len > MAX_NAME_LEN {
            return Err(Error::AnimalNameTooLong);
        }
        if find_animal(&self.animals, &animal_name).is_some() {
            return Err(Error::AnimalAlreadyExists);
        }
        proof {
            lemma_add_animal_wf(self@, address_id(user), name_bytes(animal_name));
        }
        let ghost before = self@;
        let animal = Animal { name: clone_name(&animal_name), votes: 0, creator: user };
        let ghost added = animal@;
        self.animals.push(animal);
        set_count(&mut self.animal_votes, animal_name, 0);
        assert(self.total_animals < self.animals.len()) by {
            assert(before.total_animals == before.animals.len());
            assert(self.animals@.len() == before.animals.len() + 1);
        }
        self.total_animals = self.total_animals + 1;
        proof {
            assert(self@.animals =~= before.animals.push(added));
        }
        Ok(())
    }

    /// Casts the vote of `user` for the animal registered under `animal_name`.
    pub fn vote_for_animal(&mut self, user: soroban_sdk::Address, animal_name: soroban_sdk::String) -> (result:
        Result<(), Error>)
        requires
            old(self).wf(),
        ensures
            final(self).wf(),
            result == old(self)@.vote_result(address_id(user), name_bytes(animal_name)),
            final(self)@ == old(self)@.vote(address_id(user), name_bytes(animal_name)),
    {
        let ghost before = self@;
        let ghost voter_id = address_id(user);
        let ghost name = name_bytes(animal_name);
        let ghost lists = vote_slots(self.user_votes@);
        let at = match find_animal(&self.animals, &animal_name) {
            Some(at) => at,
            None => {
                return Err(Error::AnimalNotFound);
            },
        };
        let voter = find_voter(&self.user_votes, &user);
        match voter {
            Some(v) => {
                proof {
                    lemma_lookup(lists, v as int);
                }
                if holds_name(&self.user_votes[v].names, &animal_name) {
                    return Err(Error::AlreadyVoted);
                }
            },
            None => {},
        }
        proof {
            lemma_vote_wf(before, voter_id, name);
        }
        match voter {
            Some(v) => {
                self.user_votes[v].names.push(clone_name(&animal_name));
                proof {
                    let cast = before.votes_cast(voter_id).push(name);
                    lemma_update(lists, v as int, cast);
                    assert(names_view(self.user_votes[v as int].names@) =~= cast);
                    assert(vote_slots(self.user_votes@) =~= lists.update(
                        v as int,
                        (lists[v as int].0, cast),
                    ));
                }
            },
            None => {
                let mut names: Vec<soroban_sdk::String> = Vec::new();
                names.push(clone_name(&animal_name));
                self.user_votes.push(UserVotes { user, names });
                proof {
                    let cast = before.votes_cast(voter_id).push(name);
                    lemma_push(lists, voter_id, cast);
                    assert(names_view(self.user_votes[lists.len() as int].names@) =~= cast);
                    assert(vote_slots(self.user_votes@) =~= lists.push((voter_id, cast)));
                }
            },
        }
        let current: u64 = match find_count(&self.animal_votes, &animal_name) {
            Some(c) => {
                proof {
                    lemma_lookup(count_slots(self.animal_votes@), c as int);
                }
                self.animal_votes[c].votes
            },
            None => 0,
        };
        proof {
            lemma_place_of(before.animals, at as int);
            assert(current == before.counter(name));
            assert(before.animals[at as int].votes <= before.voters(name).len());
            lemma_voters_after_vote(before, self@, voter_id, name);
            lemma_voters_bounded(self@, name);
            lemma_dom_len(vote_slots(self.user_votes@));
            assert(vote_slots(self.user_votes@).len() == self.user_votes.len());
        }
        let count: u64 = current + 1;
        set_count(&mut self.animal_votes, animal_name, count);
        self.animals[at].votes = count;
        proof {
            assert(self@.animals =~= before.animals.update(
                at as int,
                AnimalView { votes: count as nat, ..before.animals[at as int] },
            ));
        }
        Ok(())
    }

    /// Takes the animal registered under `animal_name` off the ledger, if
    /// `admin` is the administrator.
    pub fn remove_animal(&mut self, admin: soroban_sdk::Address, animal_name: soroban_sdk::String) -> (result:
        Result<(), Error>)
        requires
            old(self).wf(),
        ensures
            final(self).wf(),
            result == old(self)@.remove_result(address_id(admin), name_bytes(animal_name)),
            final(self)@ == old(self)@.remove(address_id(admin), name_bytes(animal_name)),
    {
        let ghost before = self@;
        let allowed = match &self.admin {
            Some(a) => same_address(a, &admin),
            None => false,
        };
        if !allowed {
            return Err(Error::Unauthorized);
        }
        let at = match find_animal(&self.animals, &animal_name) {
            Some(at) => at,
            None => {
                return Err(Error::AnimalNotFound);
            },
        };
        proof {
            lemma_remove_wf(before, address_id(admin), name_bytes(animal_name));
            lemma_place_of(before.animals, at as int);
        }
        self.animals.remove(at);
        drop_count(&mut self.animal_votes, &animal_name);
        if self.total_animals > 0 {
            self.total_animals = self.total_animals - 1;
        }
        proof {
            assert(self@.animals =~= before.animals.remove(at as int));
        }
        Ok(())
    }

    /// All registered animals, ranked: the one with the most votes first, and
    /// of two with equal votes the one that was registered earlier.
    pub fn get_animals(&self) -> (ranked: Vec<Animal>)
        requires
            self.wf(),
        ensures
            is_ranking(animal_views(ranked@), self@.animals),
    {
        let mut ranked = clone_animals(&self.animals);
        rank(&mut ranked);
        ranked
    }

    /// The count kept under `animal_name`, where an animal of that name is
    /// registered.
    pub fn get_animal_votes(&self, animal_name: soroban_sdk::String) -> (result: Result<u64, Error>)
        requires
            self.wf(),
        ensures
            match result {
                Ok(votes) => self@.animal_votes_result(name_bytes(animal_name)) == Ok::<nat, Error>(
                    votes as nat,
                ),
                Err(e) => self@.animal_votes_result(name_bytes(animal_name)) == Err::<nat, Error>(e),
            },
    {
        if find_animal(&self.animals, &animal_name).is_none() {
            return Err(Error::AnimalNotFound);
        }
        match find_count(&self.animal_votes, &animal_name) {
            Some(c) => {
                proof {
                    lemma_lookup(count_slots(self.animal_votes@), c as int);
                }
                Ok(self.animal_votes[c].votes)
            },
            None => Ok(0),
        }
    }

    /// The names that `user` has voted for, oldest first. Names of animals
    /// that were removed since stay among them.
    pub fn get_user_votes(&self, user: soroban_sdk::Address) -> (names: Vec<soroban_sdk::String>)
        requires
            self.wf(),
        ensures
            names_view(names@) == self@.votes_cast(address_id(user)),
    {
        match find_voter(&self.user_votes, &user) {
            Some(v) => {
                proof {
                    lemma_lookup(vote_slots(self.user_votes@), v as int);
                }
                clone_names(&self.user_votes[v].names)
            },
            None => {
                let names: Vec<soroban_sdk::String> = Vec::new();
                assert(names_view(names@) =~= Seq::empty());
                names
            },
        }
    }

    /// Whether `user` has voted for `animal_name`, now or at any time before.
    pub fn has_user_voted(&self, user: soroban_sdk::Address, animal_name: soroban_sdk::String) -> (voted:
        bool)
        requires
            self.wf(),
        ensures
            voted == self@.has_voted(address_id(user), name_bytes(animal_name)),
    {
        match find_voter(&self.user_votes, &user) {
            Some(v) => {
                proof {
                    lemma_lookup(vote_slots(self.user_votes@), v as int);
                }
                holds_name(&self.user_votes[v].names, &animal_name)
            },
            None => false,
        }
    }

    /// The sum of the votes of all registered animals, where it fits the
    /// result; `None` where it does not.
    pub fn checked_total_votes(&self) -> (total: Option<u64>)
        ensures
            match total {
                Some(sum) => sum == self@.total_votes(),
                None => self@.total_votes() > u64::MAX,
            },
    {
        let ghost all = animal_views(self.animals@);
        let mut sum: u64 = 0;
        let mut i: usize = 0;
        while i < self.animals.len()
            invariant
                i <= self.animals.len(),
                all == animal_views(self.animals@),
                sum == sum_votes(all.take(i as int)),
            decreases self.animals.len() - i,
        {
            proof {
                lemma_sum_votes_step(all, i as int);
                lemma_sum_votes_prefix(all, i + 1);
            }
            match sum.checked_add(self.animals[i].votes) {
                Some(next) => {
                    sum = next;
                },
                None => {
                    return None;
                },
            }
            i += 1;
        }
        assert(all.take(i as int) =~= all);
        Some(sum)
    }

    /// The sum of the votes of all registered animals.
    pub fn get_total_votes(&self) -> (total: u64)
        requires
            self@.total_votes() <= u64::MAX,
        ensures
            total == self@.total_votes(),
    {
        match self.checked_total_votes() {
            Some(sum) => sum,
            None => unreached(),
        }
    }

    /// The animal that stands first in the ranking; `None` where no animal is
    /// registered.
    pub fn get_winner(&self) -> (winner: Option<Animal>)
        requires
            self.wf(),
        ensures
            match winner {
                Some(animal) => is_winner(self@.animals, animal@),
                None => self@.animals.len() == 0,
            },
    {
        let ranked = self.get_animals();
        if ranked.len() == 0 {
            None
        } else {
            proof {
                lemma_first_is_winner(animal_views(ranked@), self@.animals);
            }
            Some(ranked[0].clone())
        }
    }

    /// The statistics of the ledger as a host map: the number of animals under
    /// `total_animals`, the sum of all votes under `total_votes`, and the
    /// winner's votes under `highest_votes` (zero where there is no animal).
    pub fn get_stats(&self, env: &soroban_sdk::Env) -> (stats: soroban_sdk::Map<soroban_sdk::String, u64>)
        requires
            self.wf(),
            self@.total_votes() <= u64::MAX,
        ensures
            stats_entries(stats).map_values(|v: u64| v as nat) == self@.stats(),
    {
        proof {
            lemma_stats_keys_differ();
        }
        let mut stats = stats_new(env);
        stats_set(&mut stats, "total_animals", self.get_total_animals());
        stats_set(&mut stats, "total_votes", self.get_total_votes());
        let highest: u64 = match self.get_winner() {
            Some(winner) => {
                proof {
                    lemma_winner_has_most(self@.animals, winner@);
                }
                winner.votes
            },
            None => 0,
        };
        stats_set(&mut stats, "highest_votes", highest);
        proof {
            assert(stats_entries(stats).map_values(|v: u64| v as nat) =~= self@.stats());
        }
        stats
    }

    /// The administrator, once `initialize` has run.
    pub fn get_admin(&self) -> (admin: Option<soroban_sdk::Address>)
        ensures
            admin matches Some(a) ==> self@.admin == Some(address_id(a)),
            admin is None ==> self@.admin is None,
    {
        match &self.admin {
            Some(a) => Some(clone_address(a)),
            None => None,
        }
    }

    /// The number of registered animals.
    pub fn get_total_animals(&self) -> (total: u64)
        ensures
            total == self@.total_animals,
    {
        self.total_animals
    }
}

} // verus!
