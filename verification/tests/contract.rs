use animal_voting::{AnimalVotingContract, Error};
use soroban_sdk::testutils::Address as _;
use soroban_sdk::{Address, Env, String};

#[test]
fn test_initialize() {
    let env = Env::default();
    let admin = Address::generate(&env);

    let mut contract = AnimalVotingContract::new();
    contract.initialize(admin.clone());

    assert_eq!(contract.get_admin(), Some(admin));
    assert_eq!(contract.get_total_animals(), 0);
}

#[test]
fn test_add_animal() {
    let env = Env::default();
    let admin = Address::generate(&env);
    let user = Address::generate(&env);

    let mut contract = AnimalVotingContract::new();
    contract.initialize(admin);

    let result = contract.add_animal(user, String::from_str(&env, "Aslan"));

    assert!(result.is_ok());
    assert_eq!(contract.get_total_animals(), 1);

    let animals = contract.get_animals();
    assert_eq!(animals.len(), 1);
    assert_eq!(animals.first().unwrap().name, String::from_str(&env, "Aslan"));
}

#[test]
fn test_vote_for_animal() {
    let env = Env::default();
    let admin = Address::generate(&env);
    let user1 = Address::generate(&env);
    let user2 = Address::generate(&env);

    let mut contract = AnimalVotingContract::new();
    contract.initialize(admin);

    contract.add_animal(user1.clone(), String::from_str(&env, "Aslan")).unwrap();

    let result = contract.vote_for_animal(user2, String::from_str(&env, "Aslan"));

    assert!(result.is_ok());

    let votes = contract.get_animal_votes(String::from_str(&env, "Aslan")).unwrap();

    assert_eq!(votes, 1);
}

#[test]
fn test_duplicate_vote() {
    let env = Env::default();
    let admin = Address::generate(&env);
    let user1 = Address::generate(&env);
    let user2 = Address::generate(&env);

    let mut contract = AnimalVotingContract::new();
    contract.initialize(admin);

    contract.add_animal(user1, String::from_str(&env, "Aslan")).unwrap();

    contract.vote_for_animal(user2.clone(), String::from_str(&env, "Aslan")).unwrap();

    let result = contract.vote_for_animal(user2, String::from_str(&env, "Aslan"));

    assert_eq!(result, Err(Error::AlreadyVoted));
}
