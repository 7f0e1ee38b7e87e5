use animal_voting::{AnimalVotingContract, Error};
use soroban_sdk::testutils::Address as _;
use soroban_sdk::{Address, Env, String};

fn name(env: &Env, text: &str) -> String {
    String::from_str(env, text)
}

#[test]
fn a_new_ledger_is_empty() {
    let contract = AnimalVotingContract::new();
    assert_eq!(contract.get_admin(), None);
    assert_eq!(contract.get_total_animals(), 0);
    assert_eq!(contract.get_animals().len(), 0);
    assert!(contract.get_winner().is_none());
    assert_eq!(contract.get_total_votes(), 0);
}

#[test]
fn initialize_sets_admin_and_no_animals() {
    let env = Env::default();
    let a = Address::generate(&env);
    let mut contract = AnimalVotingContract::new();
    contract.initialize(a.clone());
    assert_eq!(contract.get_total_animals(), 0);
    assert_eq!(contract.get_admin(), Some(a));
}

#[test]
fn second_registration_of_a_name_is_refused() {
    let env = Env::default();
    let u1 = Address::generate(&env);
    let u2 = Address::generate(&env);
    let mut contract = AnimalVotingContract::new();
    contract.initialize(Address::generate(&env));
    assert_eq!(contract.add_animal(u1, name(&env, "Lion")), Ok(()));
    assert_eq!(contract.add_animal(u2, name(&env, "Lion")), Err(Error::AnimalAlreadyExists));
    assert_eq!(contract.get_total_animals(), 1);
    assert_eq!(contract.get_animals().len(), 1);
}

#[test]
fn names_differ_by_case() {
    let env = Env::default();
    let u1 = Address::generate(&env);
    let mut contract = AnimalVotingContract::new();
    assert_eq!(contract.add_animal(u1.clone(), name(&env, "Lion")), Ok(()));
    assert_eq!(contract.add_animal(u1, name(&env, "lion")), Ok(()));
    assert_eq!(contract.get_total_animals(), 2);
}

#[test]
fn one_vote_for_each_voter_and_name() {
    let env = Env::default();
    let u1 = Address::generate(&env);
    let u2 = Address::generate(&env);
    let mut contract = AnimalVotingContract::new();
    contract.initialize(Address::generate(&env));
    contract.add_animal(u1, name(&env, "Lion")).unwrap();
    assert_eq!(contract.vote_for_animal(u2.clone(), name(&env, "Lion")), Ok(()));
    assert_eq!(contract.get_animal_votes(name(&env, "Lion")), Ok(1));
    assert_eq!(contract.vote_for_animal(u2, name(&env, "Lion")), Err(Error::AlreadyVoted));
    assert_eq!(contract.get_animal_votes(name(&env, "Lion")), Ok(1));
}

#[test]
fn another_voter_may_vote_for_the_same_name() {
    let env = Env::default();
    let u1 = Address::generate(&env);
    let u2 = Address::generate(&env);
    let u3 = Address::generate(&env);
    let mut contract = AnimalVotingContract::new();
    contract.add_animal(u1, name(&env, "Lion")).unwrap();
    assert_eq!(contract.vote_for_animal(u2, name(&env, "Lion")), Ok(()));
    assert_eq!(contract.vote_for_animal(u3, name(&env, "Lion")), Ok(()));
    assert_eq!(contract.get_animal_votes(name(&env, "Lion")), Ok(2));
}

#[test]
fn voting_for_an_unknown_name_is_refused() {
    let env = Env::default();
    let u1 = Address::generate(&env);
    let mut contract = AnimalVotingContract::new();
    assert_eq!(contract.vote_for_animal(u1.clone(), name(&env, "Ghost")), Err(Error::AnimalNotFound));
    assert!(!contract.has_user_voted(u1.clone(), name(&env, "Ghost")));
    assert_eq!(contract.get_user_votes(u1).len(), 0);
    assert_eq!(contract.get_animal_votes(name(&env, "Ghost")), Err(Error::AnimalNotFound));
}

#[test]
fn winner_has_the_most_votes() {
    let env = Env::default();
    let u1 = Address::generate(&env);
    let u2 = Address::generate(&env);
    let u3 = Address::generate(&env);
    let mut contract = AnimalVotingContract::new();
    contract.initialize(Address::generate(&env));
    contract.add_animal(u1.clone(), name(&env, "Lion")).unwrap();
    contract.add_animal(u1.clone(), name(&env, "Tiger")).unwrap();
    contract.vote_for_animal(u2, name(&env, "Tiger")).unwrap();
    contract.vote_for_animal(u3, name(&env, "Tiger")).unwrap();
    let winner = contract.get_winner().unwrap();
    assert_eq!(winner.name, name(&env, "Tiger"));
    assert_eq!(winner.votes, 2);
    assert_eq!(winner.creator, u1);
}

#[test]
fn removal_is_for_the_admin_alone() {
    let env = Env::default();
    let a = Address::generate(&env);
    let b = Address::generate(&env);
    let u1 = Address::generate(&env);
    let mut contract = AnimalVotingContract::new();
    contract.initialize(a.clone());
    contract.add_animal(u1, name(&env, "Lion")).unwrap();
    assert_eq!(contract.remove_animal(b, name(&env, "Lion")), Err(Error::Unauthorized));
    assert_eq!(contract.get_total_animals(), 1);
    assert_eq!(contract.get_animals().len(), 1);
    assert_eq!(contract.remove_animal(a.clone(), name(&env, "Ghost")), Err(Error::AnimalNotFound));
    assert_eq!(contract.get_total_animals(), 1);
    assert_eq!(contract.remove_animal(a, name(&env, "Lion")), Ok(()));
    assert_eq!(contract.get_total_animals(), 0);
    assert_eq!(contract.get_animals().len(), 0);
    assert_eq!(contract.get_animal_votes(name(&env, "Lion")), Err(Error::AnimalNotFound));
}

#[test]
fn nobody_removes_before_initialize() {
    let env = Env::default();
    let u1 = Address::generate(&env);
    let mut contract = AnimalVotingContract::new();
    contract.add_animal(u1.clone(), name(&env, "Lion")).unwrap();
    assert_eq!(contract.remove_animal(u1, name(&env, "Lion")), Err(Error::Unauthorized));
    assert_eq!(contract.get_total_animals(), 1);
}

#[test]
fn unauthorized_comes_before_not_found() {
    let env = Env::default();
    let a = Address::generate(&env);
    let b = Address::generate(&env);
    let mut contract = AnimalVotingContract::new();
    contract.initialize(a);
    assert_eq!(contract.remove_animal(b, name(&env, "Ghost")), Err(Error::Unauthorized));
}

#[test]
fn names_have_one_to_thirty_bytes() {
    let env = Env::default();
    let u = Address::generate(&env);
    let mut contract = AnimalVotingContract::new();
    assert_eq!(contract.add_animal(u.clone(), name(&env, "")), Err(Error::AnimalNameEmpty));
    let long = "X".repeat(31);
    assert_eq!(contract.add_animal(u.clone(), name(&env, &long)), Err(Error::AnimalNameTooLong));
    let longest = "X".repeat(30);
    assert_eq!(contract.add_animal(u.clone(), name(&env, &longest)), Ok(()));
    assert_eq!(contract.add_animal(u, name(&env, "Y")), Ok(()));
    assert_eq!(contract.get_total_animals(), 2);
}

#[test]
fn a_long_name_is_refused_even_if_registered_names_are_checked_later() {
    let env = Env::default();
    let u = Address::generate(&env);
    let mut contract = AnimalVotingContract::new();
    let long = "Z".repeat(40);
    assert_eq!(contract.add_animal(u.clone(), name(&env, &long)), Err(Error::AnimalNameTooLong));
    assert_eq!(contract.add_animal(u, name(&env, &long)), Err(Error::AnimalNameTooLong));
    assert_eq!(contract.get_total_animals(), 0);
}

#[test]
fn ranking_is_by_votes_then_by_registration() {
    let env = Env::default();
    let u1 = Address::generate(&env);
    let u2 = Address::generate(&env);
    let u3 = Address::generate(&env);
    let mut contract = AnimalVotingContract::new();
    for n in ["Ant", "Bee", "Cat", "Dog", "Eel"] {
        contract.add_animal(u1.clone(), name(&env, n)).unwrap();
    }
    contract.vote_for_animal(u1.clone(), name(&env, "Dog")).unwrap();
    contract.vote_for_animal(u2.clone(), name(&env, "Dog")).unwrap();
    contract.vote_for_animal(u3.clone(), name(&env, "Dog")).unwrap();
    contract.vote_for_animal(u1.clone(), name(&env, "Bee")).unwrap();
    contract.vote_for_animal(u2.clone(), name(&env, "Eel")).unwrap();
    let ranked = contract.get_animals();
    let names: Vec<String> = ranked.iter().map(|a| a.name.clone()).collect();
    let votes: Vec<u64> = ranked.iter().map(|a| a.votes).collect();
    assert_eq!(
        names,
        vec![
            name(&env, "Dog"),
            name(&env, "Bee"),
            name(&env, "Eel"),
            name(&env, "Ant"),
            name(&env, "Cat"),
        ]
    );
    assert_eq!(votes, vec![3, 1, 1, 0, 0]);
    assert_eq!(contract.get_total_votes(), 5);
    assert_eq!(contract.checked_total_votes(), Some(5));
    assert_eq!(contract.get_total_animals(), 5);
}

#[test]
fn ties_go_to_the_earlier_registration() {
    let env = Env::default();
    let u1 = Address::generate(&env);
    let u2 = Address::generate(&env);
    let mut contract = AnimalVotingContract::new();
    contract.add_animal(u1.clone(), name(&env, "Lion")).unwrap();
    contract.add_animal(u1.clone(), name(&env, "Tiger")).unwrap();
    assert_eq!(contract.get_winner().unwrap().name, name(&env, "Lion"));
    contract.vote_for_animal(u1, name(&env, "Tiger")).unwrap();
    assert_eq!(contract.get_winner().unwrap().name, name(&env, "Tiger"));
    contract.vote_for_animal(u2, name(&env, "Lion")).unwrap();
    assert_eq!(contract.get_winner().unwrap().name, name(&env, "Lion"));
}

#[test]
fn listed_votes_agree_with_the_counts() {
    let env = Env::default();
    let u1 = Address::generate(&env);
    let u2 = Address::generate(&env);
    let mut contract = AnimalVotingContract::new();
    contract.add_animal(u1.clone(), name(&env, "Lion")).unwrap();
    contract.add_animal(u1.clone(), name(&env, "Tiger")).unwrap();
    contract.add_animal(u1.clone(), name(&env, "Bear")).unwrap();
    contract.vote_for_animal(u1.clone(), name(&env, "Bear")).unwrap();
    contract.vote_for_animal(u2.clone(), name(&env, "Bear")).unwrap();
    contract.vote_for_animal(u2, name(&env, "Lion")).unwrap();
    let ranked = contract.get_animals();
    assert_eq!(ranked.len() as u64, contract.get_total_animals());
    for animal in ranked.iter() {
        assert_eq!(contract.get_animal_votes(animal.name.clone()), Ok(animal.votes));
    }
    for pair in ranked.windows(2) {
        assert!(pair[0].votes >= pair[1].votes);
    }
}

#[test]
fn votes_are_remembered_after_removal() {
    let env = Env::default();
    let a = Address::generate(&env);
    let u = Address::generate(&env);
    let mut contract = AnimalVotingContract::new();
    contract.initialize(a.clone());
    contract.add_animal(u.clone(), name(&env, "Lion")).unwrap();
    contract.add_animal(u.clone(), name(&env, "Tiger")).unwrap();
    contract.vote_for_animal(u.clone(), name(&env, "Lion")).unwrap();
    contract.vote_for_animal(u.clone(), name(&env, "Tiger")).unwrap();
    contract.remove_animal(a, name(&env, "Lion")).unwrap();
    assert!(contract.has_user_voted(u.clone(), name(&env, "Lion")));
    assert_eq!(
        contract.get_user_votes(u.clone()),
        vec![name(&env, "Lion"), name(&env, "Tiger")]
    );
    contract.add_animal(u.clone(), name(&env, "Lion")).unwrap();
    assert_eq!(contract.get_animal_votes(name(&env, "Lion")), Ok(0));
    assert_eq!(contract.vote_for_animal(u, name(&env, "Lion")), Err(Error::AlreadyVoted));
    assert_eq!(contract.get_animal_votes(name(&env, "Lion")), Ok(0));
    assert_eq!(contract.get_total_votes(), 1);
}

#[test]
fn has_user_voted_tells_voters_and_names_apart() {
    let env = Env::default();
    let u1 = Address::generate(&env);
    let u2 = Address::generate(&env);
    let mut contract = AnimalVotingContract::new();
    contract.add_animal(u1.clone(), name(&env, "Lion")).unwrap();
    contract.add_animal(u1.clone(), name(&env, "Tiger")).unwrap();
    contract.vote_for_animal(u1.clone(), name(&env, "Lion")).unwrap();
    assert!(contract.has_user_voted(u1.clone(), name(&env, "Lion")));
    assert!(!contract.has_user_voted(u1.clone(), name(&env, "Tiger")));
    assert!(!contract.has_user_voted(u2.clone(), name(&env, "Lion")));
    assert_eq!(contract.get_user_votes(u1), vec![name(&env, "Lion")]);
    assert_eq!(contract.get_user_votes(u2).len(), 0);
}

#[test]
fn initialize_again_keeps_the_votes_on_record() {
    let env = Env::default();
    let a = Address::generate(&env);
    let b = Address::generate(&env);
    let u = Address::generate(&env);
    let mut contract = AnimalVotingContract::new();
    contract.initialize(a);
    contract.add_animal(u.clone(), name(&env, "Lion")).unwrap();
    contract.vote_for_animal(u.clone(), name(&env, "Lion")).unwrap();
    contract.initialize(b.clone());
    assert_eq!(contract.get_admin(), Some(b));
    assert_eq!(contract.get_total_animals(), 0);
    assert_eq!(contract.get_animals().len(), 0);
    assert!(contract.has_user_voted(u.clone(), name(&env, "Lion")));
    contract.add_animal(u, name(&env, "Lion")).unwrap();
    assert_eq!(contract.get_animal_votes(name(&env, "Lion")), Ok(0));
}

#[test]
fn stats_hold_three_entries() {
    let env = Env::default();
    let u1 = Address::generate(&env);
    let u2 = Address::generate(&env);
    let mut contract = AnimalVotingContract::new();
    let empty = contract.get_stats(&env);
    assert_eq!(empty.len(), 3);
    assert_eq!(empty.get(name(&env, "total_animals")), Some(0));
    assert_eq!(empty.get(name(&env, "total_votes")), Some(0));
    assert_eq!(empty.get(name(&env, "highest_votes")), Some(0));
    contract.add_animal(u1.clone(), name(&env, "Lion")).unwrap();
    contract.add_animal(u1.clone(), name(&env, "Tiger")).unwrap();
    contract.add_animal(u1.clone(), name(&env, "Bear")).unwrap();
    contract.vote_for_animal(u1.clone(), name(&env, "Tiger")).unwrap();
    contract.vote_for_animal(u2.clone(), name(&env, "Tiger")).unwrap();
    contract.vote_for_animal(u2, name(&env, "Bear")).unwrap();
    let stats = contract.get_stats(&env);
    assert_eq!(stats.len(), 3);
    assert_eq!(stats.get(name(&env, "total_animals")), Some(3));
    assert_eq!(stats.get(name(&env, "total_votes")), Some(3));
    assert_eq!(stats.get(name(&env, "highest_votes")), Some(2));
    assert_eq!(stats.get(name(&env, "Tiger")), None);
}

#[test]
fn errors_have_their_numbers() {
    assert_eq!(Error::AnimalAlreadyExists.code(), 1);
    assert_eq!(Error::AnimalNotFound.code(), 2);
    assert_eq!(Error::AlreadyVoted.code(), 3);
    assert_eq!(Error::InvalidAnimalName.code(), 4);
    assert_eq!(Error::Unauthorized.code(), 5);
    assert_eq!(Error::AnimalNameTooLong.code(), 6);
    assert_eq!(Error::AnimalNameEmpty.code(), 7);
    assert!(Error::AnimalAlreadyExists < Error::AnimalNameEmpty);
}

#[test]
fn a_copy_of_an_animal_is_the_same_animal() {
    let env = Env::default();
    let u = Address::generate(&env);
    let mut contract = AnimalVotingContract::new();
    contract.add_animal(u.clone(), name(&env, "Lion")).unwrap();
    let first = contract.get_winner().unwrap();
    let copy = first.clone();
    assert_eq!(copy.name, name(&env, "Lion"));
    assert_eq!(copy.votes, 0);
    assert_eq!(copy.creator, u);
}

#[test]
fn the_length_of_a_name_is_counted_in_bytes() {
    let env = Env::default();
    let u = Address::generate(&env);
    let mut contract = AnimalVotingContract::new();
    let fifteen = "\u{e9}".repeat(15);
    let sixteen = "\u{e9}".repeat(16);
    assert_eq!(contract.add_animal(u.clone(), name(&env, &sixteen)), Err(Error::AnimalNameTooLong));
    assert_eq!(contract.add_animal(u, name(&env, &fifteen)), Ok(()));
}

#[test]
fn total_votes_that_do_not_fit_are_told() {
    let env = Env::default();
    let u1 = Address::generate(&env);
    let u2 = Address::generate(&env);
    let mut contract = AnimalVotingContract::new();
    contract.add_animal(u1.clone(), name(&env, "Lion")).unwrap();
    contract.add_animal(u1.clone(), name(&env, "Tiger")).unwrap();
    assert_eq!(contract.checked_total_votes(), Some(0));
    contract.vote_for_animal(u1, name(&env, "Lion")).unwrap();
    contract.vote_for_animal(u2, name(&env, "Tiger")).unwrap();
    assert_eq!(contract.checked_total_votes(), Some(2));
    assert_eq!(contract.get_total_votes(), 2);
}
