use animal_voting::{Animal, AnimalVotes, AnimalVotingContract, Error, UserVotes};
use soroban_sdk::testutils::Address as _;
use soroban_sdk::{Address, Env, String};

fn name(env: &Env, text: &str) -> String {
    String::from_str(env, text)
}

fn animal(env: &Env, text: &str, votes: u64, creator: &Address) -> Animal {
    Animal { name: name(env, text), votes, creator: creator.clone() }
}

fn count(env: &Env, text: &str, votes: u64) -> AnimalVotes {
    AnimalVotes { name: name(env, text), votes }
}

fn votes(env: &Env, user: &Address, names: &[&str]) -> UserVotes {
    UserVotes { user: user.clone(), names: names.iter().map(|n| name(env, n)).collect() }
}

#[test]
fn parts_round_trip() {
    let env = Env::default();
    let a = Address::generate(&env);
    let u1 = Address::generate(&env);
    let u2 = Address::generate(&env);
    let mut contract = AnimalVotingContract::new();
    contract.initialize(a.clone());
    contract.add_animal(u1.clone(), name(&env, "Lion")).unwrap();
    contract.add_animal(u2.clone(), name(&env, "Tiger")).unwrap();
    contract.vote_for_animal(u1.clone(), name(&env, "Tiger")).unwrap();
    contract.vote_for_animal(u2.clone(), name(&env, "Tiger")).unwrap();
    contract.vote_for_animal(u2.clone(), name(&env, "Lion")).unwrap();

    let (admin, total, animals, counts, cast) = contract.into_parts();
    assert_eq!(admin, Some(a.clone()));
    assert_eq!(total, 2);
    assert_eq!(animals.len(), 2);
    assert_eq!(animals[0].name, name(&env, "Lion"));
    assert_eq!(animals[0].votes, 1);
    assert_eq!(animals[0].creator, u1);
    assert_eq!(animals[1].name, name(&env, "Tiger"));
    assert_eq!(animals[1].votes, 2);
    assert_eq!(animals[1].creator, u2);
    assert_eq!(counts.len(), 2);
    assert_eq!(cast.len(), 2);
    assert_eq!(cast[0].user, u1);
    assert_eq!(cast[0].names, vec![name(&env, "Tiger")]);
    assert_eq!(cast[1].user, u2);
    assert_eq!(cast[1].names, vec![name(&env, "Tiger"), name(&env, "Lion")]);

    let mut back = AnimalVotingContract::restore(admin, total, animals, counts, cast).unwrap();
    assert_eq!(back.get_admin(), Some(a));
    assert_eq!(back.get_total_animals(), 2);
    assert_eq!(back.get_animal_votes(name(&env, "Tiger")), Ok(2));
    assert_eq!(back.get_animal_votes(name(&env, "Lion")), Ok(1));
    assert!(back.has_user_voted(u1.clone(), name(&env, "Tiger")));
    assert_eq!(back.vote_for_animal(u1.clone(), name(&env, "Tiger")), Err(Error::AlreadyVoted));
    assert_eq!(back.vote_for_animal(u1, name(&env, "Lion")), Ok(()));
    assert_eq!(back.get_winner().unwrap().name, name(&env, "Lion"));
}

#[test]
fn empty_parts_make_the_empty_ledger() {
    let contract = AnimalVotingContract::restore(None, 0, vec![], vec![], vec![]).unwrap();
    assert_eq!(contract.get_admin(), None);
    assert_eq!(contract.get_total_animals(), 0);
}

#[test]
fn restore_accepts_what_stays_on_record() {
    let env = Env::default();
    let u = Address::generate(&env);
    let contract = AnimalVotingContract::restore(
        Some(u.clone()),
        1,
        vec![animal(&env, "Lion", 0, &u)],
        vec![count(&env, "Lion", 0), count(&env, "Dodo", 7)],
        vec![votes(&env, &u, &["Lion", "Dodo"])],
    )
    .unwrap();
    assert!(contract.has_user_voted(u.clone(), name(&env, "Dodo")));
    assert_eq!(contract.get_animal_votes(name(&env, "Dodo")), Err(Error::AnimalNotFound));
    assert_eq!(contract.get_animal_votes(name(&env, "Lion")), Ok(0));
}

#[test]
fn restore_refuses_a_wrong_total() {
    let env = Env::default();
    let u = Address::generate(&env);
    let made = AnimalVotingContract::restore(
        None,
        2,
        vec![animal(&env, "Lion", 0, &u)],
        vec![count(&env, "Lion", 0)],
        vec![],
    );
    assert!(made.is_none());
    let made = AnimalVotingContract::restore(None, 1, vec![], vec![], vec![]);
    assert!(made.is_none());
}

#[test]
fn restore_refuses_a_name_twice() {
    let env = Env::default();
    let u = Address::generate(&env);
    let made = AnimalVotingContract::restore(
        None,
        2,
        vec![animal(&env, "Lion", 0, &u), animal(&env, "Lion", 0, &u)],
        vec![count(&env, "Lion", 0)],
        vec![],
    );
    assert!(made.is_none());
}

#[test]
fn restore_refuses_names_out_of_bounds() {
    let env = Env::default();
    let u = Address::generate(&env);
    let made = AnimalVotingContract::restore(
        None,
        1,
        vec![animal(&env, "", 0, &u)],
        vec![count(&env, "", 0)],
        vec![],
    );
    assert!(made.is_none());
    let long = "L".repeat(31);
    let made = AnimalVotingContract::restore(
        None,
        1,
        vec![animal(&env, &long, 0, &u)],
        vec![count(&env, &long, 0)],
        vec![],
    );
    assert!(made.is_none());
    let longest = "L".repeat(30);
    let made = AnimalVotingContract::restore(
        None,
        1,
        vec![animal(&env, &longest, 0, &u)],
        vec![count(&env, &longest, 0)],
        vec![],
    );
    assert!(made.is_some());
}

#[test]
fn restore_refuses_counts_that_disagree() {
    let env = Env::default();
    let u = Address::generate(&env);
    let made = AnimalVotingContract::restore(
        None,
        1,
        vec![animal(&env, "Lion", 1, &u)],
        vec![count(&env, "Lion", 0)],
        vec![votes(&env, &u, &["Lion"])],
    );
    assert!(made.is_none());
    let made = AnimalVotingContract::restore(
        None,
        1,
        vec![animal(&env, "Lion", 0, &u)],
        vec![],
        vec![],
    );
    assert!(made.is_none());
    let made = AnimalVotingContract::restore(
        None,
        1,
        vec![animal(&env, "Lion", 1, &u)],
        vec![count(&env, "Lion", 1)],
        vec![votes(&env, &u, &["Lion"])],
    );
    assert!(made.is_some());
}

#[test]
fn restore_refuses_a_count_twice() {
    let env = Env::default();
    let u = Address::generate(&env);
    let made = AnimalVotingContract::restore(
        None,
        1,
        vec![animal(&env, "Lion", 0, &u)],
        vec![count(&env, "Lion", 0), count(&env, "Lion", 0)],
        vec![],
    );
    assert!(made.is_none());
}

#[test]
fn restore_refuses_a_voter_twice() {
    let env = Env::default();
    let u = Address::generate(&env);
    let made = AnimalVotingContract::restore(
        None,
        0,
        vec![],
        vec![],
        vec![votes(&env, &u, &["Lion"]), votes(&env, &u, &["Tiger"])],
    );
    assert!(made.is_none());
}

#[test]
fn restore_refuses_a_vote_twice() {
    let env = Env::default();
    let u = Address::generate(&env);
    let made = AnimalVotingContract::restore(
        None,
        0,
        vec![],
        vec![],
        vec![votes(&env, &u, &["Lion", "Tiger", "Lion"])],
    );
    assert!(made.is_none());
    let made = AnimalVotingContract::restore(
        None,
        0,
        vec![],
        vec![],
        vec![votes(&env, &u, &["Lion", "Tiger"])],
    );
    assert!(made.is_some());
}

#[test]
fn restore_refuses_more_votes_than_voters() {
    let env = Env::default();
    let u1 = Address::generate(&env);
    let u2 = Address::generate(&env);
    let made = AnimalVotingContract::restore(
        None,
        1,
        vec![animal(&env, "Lion", 2, &u1)],
        vec![count(&env, "Lion", 2)],
        vec![votes(&env, &u1, &["Lion"]), votes(&env, &u2, &["Tiger"])],
    );
    assert!(made.is_none());
    let made = AnimalVotingContract::restore(
        None,
        1,
        vec![animal(&env, "Lion", 2, &u1)],
        vec![count(&env, "Lion", 2)],
        vec![votes(&env, &u1, &["Lion"]), votes(&env, &u2, &["Tiger", "Lion"])],
    );
    assert!(made.is_some());
}
