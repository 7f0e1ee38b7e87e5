//! What holds of the ledger whatever is done with it. Each law is stated over
//! the model and proved from its definitions; the operations of
//! [`crate::contract::AnimalVotingContract`] are specified by the same model,
//! so each law holds of them.

use vstd::prelude::*;
use crate::error::Error;
use crate::model::{
    is_ranking, key_highest_votes, key_total_animals, key_total_votes, lemma_place_of,
    lemma_stats_keys_differ, names_distinct, place_of, ranks_before, AnimalView, Ledger, Step,
};
use crate::preserved::{
    lemma_add_animal_wf, lemma_empty_wf, lemma_initialize_wf, lemma_remove_wf, lemma_vote_wf,
};

verus! {

/// One operation, accepted or refused, keeps a well-formed ledger well
/// formed.
pub proof fn law_step_keeps_wf(s: Ledger, step: Step)
    requires
        s.wf(),
    ensures
        s.step(step).wf(),
{
    match step {
        Step::Initialize { admin } => lemma_initialize_wf(s, admin),
        Step::AddAnimal { user, name } => lemma_add_animal_wf(s, user, name),
        Step::Vote { user, name } => lemma_vote_wf(s, user, name),
        Step::Remove { caller, name } => lemma_remove_wf(s, caller, name),
    }
}

/// Whatever sequence of operations a well-formed ledger goes through, it
/// stays well formed.
pub proof fn law_run_keeps_wf(s: Ledger, steps: Seq<Step>)
    requires
        s.wf(),
    ensures
        s.run(steps).wf(),
    decreases steps.len(),
{
    if steps.len() > 0 {
        law_run_keeps_wf(s, steps.drop_last());
        law_step_keeps_wf(s.run(steps.drop_last()), steps.last());
    }
}

/// After any sequence of operations on a new ledger, no two registered
/// animals share a name, the number of animals is the length of the list, and
/// the count kept under each registered name is the count in its animal.
pub proof fn law_after_any_steps(steps: Seq<Step>)
    ensures
        names_distinct(Ledger::empty().run(steps).animals),
        Ledger::empty().run(steps).total_animals == Ledger::empty().run(steps).animals.len(),
        forall|i: int|
            #![trigger Ledger::empty().run(steps).animals[i]]
            0 <= i < Ledger::empty().run(steps).animals.len() ==> Ledger::empty().run(
                steps,
            ).animal_votes_result(Ledger::empty().run(steps).animals[i].name) == Ok::<nat, Error>(
                Ledger::empty().run(steps).animals[i].votes,
            ),
{
    lemma_empty_wf();
    law_run_keeps_wf(Ledger::empty(), steps);
    let t = Ledger::empty().run(steps);
    assert forall|i: int| #![trigger t.animals[i]] 0 <= i < t.animals.len() implies t.animal_votes_result(
        t.animals[i].name,
    ) == Ok::<nat, Error>(t.animals[i].votes) by {
        lemma_place_of(t.animals, i);
    }
}

/// Once a name is registered, registering it again is refused with
/// `AnimalAlreadyExists`, whoever asks, and changes nothing.
pub proof fn law_second_registration_fails(s: Ledger, first: Seq<u8>, second: Seq<u8>, name: Seq<u8>)
    requires
        s.add_animal_result(name) is Ok,
    ensures
        s.add_animal(first, name).add_animal_result(name) == Err::<(), Error>(
            Error::AnimalAlreadyExists,
        ),
        s.add_animal(first, name).add_animal(second, name) == s.add_animal(first, name),
{
    let t = s.add_animal(first, name);
    assert(t.animals[s.animals.len() as int].name == name);
}

/// After a vote was accepted, the same voter's next vote for the same name is
/// refused with `AlreadyVoted` and changes nothing.
pub proof fn law_second_vote_fails(s: Ledger, user: Seq<u8>, name: Seq<u8>)
    requires
        s.wf(),
        s.vote_result(user, name) is Ok,
    ensures
        s.vote(user, name).has_voted(user, name),
        s.vote(user, name).vote_result(user, name) == Err::<(), Error>(Error::AlreadyVoted),
        s.vote(user, name).vote(user, name) == s.vote(user, name),
{
    let t = s.vote(user, name);
    let at = place_of(s.animals, name);
    assert(t.animals[at].name == name);
    let cast = s.votes_cast(user).push(name);
    assert(cast[cast.len() - 1] == name);
}

/// A vote by one identity does not change what another identity's vote for
/// the same name is answered: after `user` has voted for `name`, any other
/// identity that had not voted for it is still accepted.
pub proof fn law_other_voter_is_accepted(s: Ledger, user: Seq<u8>, other: Seq<u8>, name: Seq<u8>)
    requires
        s.wf(),
        s.vote_result(user, name) is Ok,
        other != user,
        !s.has_voted(other, name),
    ensures
        s.vote(user, name).vote_result(other, name) is Ok,
        s.vote(user, name).vote(other, name).counter(name) == s.counter(name) + 2,
{
    let t = s.vote(user, name);
    let at = place_of(s.animals, name);
    assert(t.animals[at].name == name);
    assert(t.votes_cast(other) == s.votes_cast(other));
}

/// A vote, once on record, stays on record whatever happens afterwards.
pub proof fn law_votes_stay_on_record(s: Ledger, step: Step, user: Seq<u8>, name: Seq<u8>)
    requires
        s.has_voted(user, name),
    ensures
        s.step(step).has_voted(user, name),
{
    match step {
        Step::Vote { user: voter, name: voted } => {
            if s.vote_result(voter, voted) is Ok && voter == user {
                let k = choose|k: int|
                    0 <= k < s.votes_cast(user).len() && s.votes_cast(user)[k] == name;
                assert(s.votes_cast(user).push(voted)[k] == name);
            }
        },
        _ => {},
    }
}

/// No operation but `initialize` changes the administrator.
pub proof fn law_admin_stays(s: Ledger, step: Step)
    requires
        !(step is Initialize),
    ensures
        s.step(step).admin == s.admin,
{
}

/// The votes that the ranking shows for an animal are the count that is kept
/// under its name.
pub proof fn law_ranking_shows_the_counts(s: Ledger, ranked: Seq<AnimalView>, i: int)
    requires
        s.wf(),
        is_ranking(ranked, s.animals),
        0 <= i < ranked.len(),
    ensures
        s.animal_votes_result(ranked[i].name) == Ok::<nat, Error>(ranked[i].votes),
{
    assert(s.animals.contains(ranked[i]));
    let at = choose|at: int| 0 <= at < s.animals.len() && s.animals[at] == ranked[i];
    lemma_place_of(s.animals, at);
}

/// The ranking holds as many animals as the ledger counts.
pub proof fn law_ranking_holds_all(s: Ledger, ranked: Seq<AnimalView>)
    requires
        s.wf(),
        is_ranking(ranked, s.animals),
    ensures
        ranked.len() == s.total_animals,
{
}

/// An accepted removal makes the number of animals one less, and a refused
/// one leaves it as it was.
pub proof fn law_removal_counts_down(s: Ledger, caller: Seq<u8>, name: Seq<u8>)
    requires
        s.wf(),
    ensures
        s.remove_result(caller, name) is Ok ==> s.total_animals >= 1 && s.remove(
            caller,
            name,
        ).total_animals == s.total_animals - 1,
        s.remove_result(caller, name) is Err ==> s.remove(caller, name).total_animals
            == s.total_animals,
        !s.remove(caller, name).has_animal(name) || s.remove_result(caller, name) is Err,
{
    if s.remove_result(caller, name) is Ok {
        let at = place_of(s.animals, name);
        assert(0 <= at < s.animals.len() && s.animals[at].name == name);
        let t = s.remove(caller, name);
        if t.has_animal(name) {
            let k = choose|k: int| 0 <= k < t.animals.len() && (#[trigger] t.animals[k]).name == name;
            let k0 = if k < at { k } else { k + 1 };
            assert(s.animals[k0].name == name);
            lemma_place_of(s.animals, k0);
        }
    }
}

/// In a ranking no animal has fewer votes than one that follows it.
pub proof fn law_ranking_is_sorted(ranked: Seq<AnimalView>, src: Seq<AnimalView>)
    requires
        is_ranking(ranked, src),
    ensures
        forall|i: int, j: int|
            0 <= i <= j < ranked.len() ==> (#[trigger] ranked[i]).votes >= (#[trigger] ranked[j]).votes,
        forall|i: int| 0 <= i && i + 1 < ranked.len() ==> (#[trigger] ranked[i]).votes >= ranked[i + 1].votes,
{
    assert forall|i: int, j: int| 0 <= i <= j < ranked.len() implies (#[trigger] ranked[i]).votes >= (
    #[trigger] ranked[j]).votes by {
        if i < j {
            assert(ranks_before(src, ranked[i], ranked[j]));
        }
    }
}

/// A list of animals without repeated names has one ranking only.
pub proof fn law_ranking_is_unique(a: Seq<AnimalView>, b: Seq<AnimalView>, src: Seq<AnimalView>)
    requires
        names_distinct(src),
        is_ranking(a, src),
        is_ranking(b, src),
    ensures
        a == b,
{
    assert forall|i: int| 0 <= i < a.len() implies a[i] == b[i] by {
        lemma_ranking_agree(a, b, src, i);
    }
    assert(a =~= b);
}

/// Two rankings of the same animals agree at every place.
proof fn lemma_ranking_agree(a: Seq<AnimalView>, b: Seq<AnimalView>, src: Seq<AnimalView>, i: int)
    requires
        names_distinct(src),
        is_ranking(a, src),
        is_ranking(b, src),
        0 <= i < a.len(),
    ensures
        a[i] == b[i],
    decreases i,
{
    assert forall|k: int| 0 <= k < i implies a[k] == b[k] by {
        lemma_ranking_agree(a, b, src, k);
    }
    // where a[i] stands in b, and where b[i] stands in a
    assert(src.contains(a[i]));
    let sa = choose|sa: int| 0 <= sa < src.len() && src[sa] == a[i];
    assert(b.contains(src[sa]));
    let k = choose|k: int| 0 <= k < b.len() && b[k] == a[i];
    assert(src.contains(b[i]));
    let sb = choose|sb: int| 0 <= sb < src.len() && src[sb] == b[i];
    assert(a.contains(src[sb]));
    let m = choose|m: int| 0 <= m < a.len() && a[m] == b[i];
    if k < i {
        assert(a[k] == b[k]);
        assert(ranks_before(src, a[k], a[i]));
    } else if k > i {
        assert(ranks_before(src, b[i], b[k]));
        if m < i {
            assert(a[m] == b[m]);
            assert(ranks_before(src, b[m], b[i]));
        } else if m > i {
            assert(ranks_before(src, a[i], a[m]));
        }
    }
}

/// A removal asked for by anyone but the administrator is refused with
/// `Unauthorized` and changes nothing.
pub proof fn law_removal_needs_admin(s: Ledger, caller: Seq<u8>, name: Seq<u8>)
    requires
        s.admin != Some(caller),
    ensures
        s.remove_result(caller, name) == Err::<(), Error>(Error::Unauthorized),
        s.remove(caller, name) == s,
{
}

/// The statistics hold exactly three entries, and each holds what its key
/// says.
pub proof fn law_stats_hold_three_entries(s: Ledger)
    ensures
        s.stats().dom() == set![key_total_animals(), key_total_votes(), key_highest_votes()],
        s.stats()[key_total_animals()] == s.total_animals,
        s.stats()[key_total_votes()] == s.total_votes(),
        s.stats()[key_highest_votes()] == s.highest_votes(),
{
    lemma_stats_keys_differ();
    assert(s.stats().dom() =~= set![key_total_animals(), key_total_votes(), key_highest_votes()]);
}

/// A refused operation changes nothing.
pub proof fn law_refusal_changes_nothing(s: Ledger, step: Step)
    ensures
        match step {
            Step::Initialize { admin } => true,
            Step::AddAnimal { user, name } => s.add_animal_result(name) is Err ==> s.step(step) == s,
            Step::Vote { user, name } => s.vote_result(user, name) is Err ==> s.step(step) == s,
            Step::Remove { caller, name } => s.remove_result(caller, name) is Err ==> s.step(step)
                == s,
        },
{
}

} // verus!
