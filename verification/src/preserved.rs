//! Every step keeps the ledger well formed. Each lemma here takes a ledger of
//! which [`Ledger::wf`] holds and shows that it holds of the ledger after one
//! operation, whatever the operation was given and whatever it answered.

use vstd::prelude::*;
use vstd::set_lib::lemma_len_subset;
use crate::model::{lemma_place_of, place_of, Ledger, MAX_NAME_LEN};

verus! {

/// The identities that voted for a name are finitely many, and no more than
/// the identities that have voted at all.
pub proof fn lemma_voters_bounded(s: Ledger, name: Seq<u8>)
    requires
        s.user_votes.dom().finite(),
    ensures
        s.voters(name).finite(),
        s.voters(name).len() <= s.user_votes.dom().len(),
{
    assert(s.voters(name).subset_of(s.user_votes.dom()));
    lemma_len_subset(s.voters(name), s.user_votes.dom());
}

/// A vote by `user` for `name` that was not cast before adds `user` to the
/// voters of `name` and changes the voters of no other name.
pub proof fn lemma_voters_after_vote(s: Ledger, t: Ledger, user: Seq<u8>, name: Seq<u8>)
    requires
        s.user_votes.dom().finite(),
        !s.has_voted(user, name),
        t.user_votes == s.user_votes.insert(user, s.votes_cast(user).push(name)),
    ensures
        t.voters(name) == s.voters(name).insert(user),
        !s.voters(name).contains(user),
        t.voters(name).len() == s.voters(name).len() + 1,
        forall|other: Seq<u8>| other != name ==> #[trigger] t.voters(other) == s.voters(other),
{
    let cast = s.votes_cast(user).push(name);
    assert(cast[cast.len() - 1] == name);
    assert forall|u: Seq<u8>| t.voters(name).contains(u) <==> s.voters(name).insert(user).contains(
        u,
    ) by {
        if u != user && s.user_votes.contains_key(u) {
            assert(t.votes_cast(u) == s.votes_cast(u));
        }
    }
    assert(t.voters(name) =~= s.voters(name).insert(user));
    lemma_voters_bounded(s, name);
    assert forall|other: Seq<u8>| other != name implies #[trigger] t.voters(other) == s.voters(
        other,
    ) by {
        assert forall|u: Seq<u8>| t.voters(other).contains(u) <==> s.voters(other).contains(u) by {
            if u == user {
                if cast.contains(other) {
                    let k = choose|k: int| 0 <= k < cast.len() && cast[k] == other;
                    assert(k < cast.len() - 1);
                    assert(s.votes_cast(user)[k] == other);
                }
                if s.votes_cast(user).contains(other) {
                    let k = choose|k: int|
                        0 <= k < s.votes_cast(user).len() && s.votes_cast(user)[k] == other;
                    assert(cast[k] == other);
                }
            } else if s.user_votes.contains_key(u) {
                assert(t.votes_cast(u) == s.votes_cast(u));
            }
        }
        assert(t.voters(other) =~= s.voters(other));
    }
}

/// The empty ledger is well formed.
pub proof fn lemma_empty_wf()
    ensures
        Ledger::empty().wf(),
{
}

/// `initialize` keeps the ledger well formed.
pub proof fn lemma_initialize_wf(s: Ledger, admin: Seq<u8>)
    requires
        s.wf(),
    ensures
        s.initialize(admin).wf(),
{
}

/// `add_animal` keeps the ledger well formed.
pub proof fn lemma_add_animal_wf(s: Ledger, user: Seq<u8>, name: Seq<u8>)
    requires
        s.wf(),
    ensures
        s.add_animal(user, name).wf(),
{
    let t = s.add_animal(user, name);
    if s.add_animal_result(name) is Ok {
        let n = s.animals.len() as int;
        assert(t.animals[n].name == name);
        assert forall|i: int, j: int| 0 <= i < j < t.animals.len() implies (
        #[trigger] t.animals[i]).name != (#[trigger] t.animals[j]).name by {
            if j == n {
                assert(s.animals[i].name != name);
            } else {
                assert(s.animals[i].name != s.animals[j].name);
            }
        }
        assert forall|i: int| 0 <= i < t.animals.len() implies t.animal_votes.contains_key(
            (#[trigger] t.animals[i]).name,
        ) && t.animal_votes[t.animals[i].name] == t.animals[i].votes by {
            if i < n {
                assert(s.animals[i].name != name);
            }
        }
        assert forall|i: int| 0 <= i < t.animals.len() implies (#[trigger] t.animals[i]).votes
            <= t.voters(t.animals[i].name).len() by {
            if i < n {
                assert(s.animals[i].votes <= s.voters(s.animals[i].name).len());
            }
        }
    }
}

/// `vote_for_animal` keeps the ledger well formed.
pub proof fn lemma_vote_wf(s: Ledger, user: Seq<u8>, name: Seq<u8>)
    requires
        s.wf(),
    ensures
        s.vote(user, name).wf(),
{
    let t = s.vote(user, name);
    if s.vote_result(user, name) is Ok {
        let at = place_of(s.animals, name);
        assert(0 <= at < s.animals.len() && s.animals[at].name == name);
        assert forall|i: int| 0 <= i < t.animals.len() implies (#[trigger] t.animals[i]).name
            == s.animals[i].name by {}
        assert forall|i: int, j: int| 0 <= i < j < t.animals.len() implies (
        #[trigger] t.animals[i]).name != (#[trigger] t.animals[j]).name by {
            assert(s.animals[i].name != s.animals[j].name);
        }
        assert forall|i: int| 0 <= i < t.animals.len() implies 0 < (#[trigger] t.animals[i]).name.len()
            <= MAX_NAME_LEN by {
            assert(0 < s.animals[i].name.len() <= MAX_NAME_LEN);
        }
        assert(s.counter(name) == s.animals[at].votes);
        assert forall|i: int| 0 <= i < t.animals.len() implies t.animal_votes.contains_key(
            (#[trigger] t.animals[i]).name,
        ) && t.animal_votes[t.animals[i].name] == t.animals[i].votes by {
            assert(s.animal_votes.contains_key(s.animals[i].name));
            if i != at {
                lemma_place_of(s.animals, i);
            }
        }
        assert forall|u: Seq<u8>| #[trigger]
            t.user_votes.contains_key(u) implies t.user_votes[u].no_duplicates() by {
            if u == user {
                let cast = s.votes_cast(user);
                assert(cast.no_duplicates());
                assert(!cast.contains(name));
                let next = cast.push(name);
                assert forall|i: int, j: int|
                    0 <= i < next.len() && 0 <= j < next.len() && i != j implies next[i]
                    != next[j] by {
                    if i < cast.len() && j < cast.len() {
                        assert(cast[i] != cast[j]);
                    } else if i < cast.len() {
                        assert(cast.contains(cast[i]));
                    } else {
                        assert(cast.contains(cast[j]));
                    }
                }
            } else {
                assert(s.user_votes.contains_key(u));
            }
        }
        lemma_voters_after_vote(s, t, user, name);
        assert forall|i: int| 0 <= i < t.animals.len() implies (#[trigger] t.animals[i]).votes
            <= t.voters(t.animals[i].name).len() by {
            assert(s.animals[i].votes <= s.voters(s.animals[i].name).len());
            if i != at {
                lemma_place_of(s.animals, i);
                assert(t.animals[i].name != name);
            }
        }
    }
}

/// `remove_animal` keeps the ledger well formed.
pub proof fn lemma_remove_wf(s: Ledger, caller: Seq<u8>, name: Seq<u8>)
    requires
        s.wf(),
    ensures
        s.remove(caller, name).wf(),
{
    let t = s.remove(caller, name);
    if s.remove_result(caller, name) is Ok {
        let at = place_of(s.animals, name);
        assert(0 <= at < s.animals.len() && s.animals[at].name == name);
        assert forall|i: int| 0 <= i < t.animals.len() implies #[trigger] t.animals[i]
            == s.animals[if i < at { i } else { i + 1 }] by {}
        assert forall|i: int, j: int| 0 <= i < j < t.animals.len() implies (
        #[trigger] t.animals[i]).name != (#[trigger] t.animals[j]).name by {
            let i0 = if i < at { i } else { i + 1 };
            let j0 = if j < at { j } else { j + 1 };
            assert(s.animals[i0].name != s.animals[j0].name);
        }
        assert forall|i: int| 0 <= i < t.animals.len() implies 0 < (#[trigger] t.animals[i]).name.len()
            <= MAX_NAME_LEN by {
            let i0 = if i < at { i } else { i + 1 };
            assert(0 < s.animals[i0].name.len() <= MAX_NAME_LEN);
        }
        assert forall|i: int| 0 <= i < t.animals.len() implies t.animal_votes.contains_key(
            (#[trigger] t.animals[i]).name,
        ) && t.animal_votes[t.animals[i].name] == t.animals[i].votes by {
            let i0 = if i < at { i } else { i + 1 };
            lemma_place_of(s.animals, i0);
            assert(s.animal_votes.contains_key(s.animals[i0].name));
        }
        assert forall|i: int| 0 <= i < t.animals.len() implies (#[trigger] t.animals[i]).votes
            <= t.voters(t.animals[i].name).len() by {
            let i0 = if i < at { i } else { i + 1 };
            assert(s.animals[i0].votes <= s.voters(s.animals[i0].name).len());
        }
    }
}

} // verus!
