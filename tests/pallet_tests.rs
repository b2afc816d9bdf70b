use popi::{Config, Error, ExperienceType, Pallet};

fn new_pallet() -> Pallet {
    Pallet::new(Config::new(100, 2, 10))
}

#[test]
fn i_know_how_to_work_with_vectors() {}

#[test]
fn interactions_should_be_unique() {
    let mut popi = new_pallet();
    assert!(popi.interact(1, 2, 1, 1, 0, 0, 0).is_ok());
    assert_eq!(popi.interact(1, 2, 1, 1, 0, 0, 0), Err(Error::InteractionAlreadyExisting));
}

#[test]
fn create_user_experiences() {
    let mut popi = new_pallet();
    let account_id = 42;
    let exp_type = ExperienceType::Backend;

    // No record yet.
    assert!(popi.get_user_experience(account_id, exp_type).is_err());
    assert!(popi.create_user_experience(account_id, exp_type.clone()).is_ok());
    // A second creation of the same pair is refused.
    assert_eq!(
        popi.create_user_experience(account_id, exp_type),
        Err(Error::UserAlreadyHasExperience)
    );
    assert!(popi.get_user_experience(account_id, exp_type).is_ok());
    // Another category of the same account still has no record.
    assert!(popi.get_user_experience(account_id, ExperienceType::Frontend).is_err());
}

#[test]
fn update_user_experiences() {
    let mut popi = new_pallet();
    let account_id = 42;
    let exp_type = ExperienceType::Backend;

    let _ = popi.create_user_experience(account_id, exp_type.clone());
    assert!(popi.get_user_experience(account_id, exp_type).is_ok());

    let mut user_exp = popi.get_user_experience(account_id, exp_type).unwrap();
    user_exp.experience = 100;

    assert!(popi.update_user_experience(account_id, exp_type, user_exp).is_ok());
    let new_exp = popi.get_user_experience(account_id, exp_type).unwrap();
    assert_eq!(new_exp.experience, 100);
}

#[test]
fn level_up_user_twice() {
    let mut popi = new_pallet();
    let account_id = 42;
    let exp_type = ExperienceType::Marketing;

    let _ = popi.create_user_experience(account_id, exp_type.clone());
    assert!(popi.get_user_experience(account_id, exp_type).is_ok());

    let mut user_exp = popi.get_user_experience(account_id, exp_type).unwrap();
    user_exp.experience = 100;

    assert!(popi.update_user_experience(account_id, exp_type, user_exp).is_ok());
    let mut new_exp = popi.get_user_experience(account_id, exp_type).unwrap();
    assert_eq!(new_exp.experience, 100);
    assert_eq!(new_exp.level, 1);

    new_exp.experience = 400;
    let _ = popi.update_user_experience(account_id, exp_type, new_exp);
    let updated_exp = popi.get_user_experience(account_id, exp_type);
    assert_eq!(updated_exp.unwrap().level, 2);
}

#[test]
fn level_up_three_times_at_once() {
    let mut popi = new_pallet();
    let account_id = 42;
    let exp_type = ExperienceType::Marketing;

    let _ = popi.create_user_experience(account_id, exp_type.clone());
    assert!(popi.get_user_experience(account_id, exp_type).is_ok());

    let mut user_exp = popi.get_user_experience(account_id, exp_type).unwrap();
    user_exp.experience = 1400;

    assert!(popi.update_user_experience(account_id, exp_type, user_exp).is_ok());
    let new_exp = popi.get_user_experience(account_id, exp_type).unwrap();
    println!("new_exp: {:?}", new_exp);
    assert_eq!(new_exp.experience, 1400);
    assert_eq!(new_exp.level, 3);
    assert_eq!(new_exp.experience_to_next_level, 200);
}

// Reaching level 31 from level 0 takes more advances than the budget of ten
// allows: the update fails instead of stopping at a capped level, and the
// stored record stays as it was.
#[test]
fn capped_at_max_level() {
    let mut popi = new_pallet();
    let account_id = 42;
    let exp_type = ExperienceType::Marketing;

    let _ = popi.create_user_experience(account_id, exp_type.clone());
    assert!(popi.get_user_experience(account_id, exp_type).is_ok());

    let mut user_exp = popi.get_user_experience(account_id, exp_type).unwrap();
    user_exp.experience = 100_000;

    println!("user_exp: {:?}", user_exp);

    let xp = popi.config().calculate_exp_level(user_exp.experience, user_exp.level);
    println!("xp: {:?}", xp);
    assert_eq!(xp, Err(Error::LevelAdvanceBudgetExceeded));
    assert_eq!(
        popi.update_user_experience(account_id, exp_type, user_exp),
        Err(Error::LevelAdvanceBudgetExceeded)
    );
    let new_exp = popi.get_user_experience(account_id, exp_type).unwrap();
    println!("new_exp: {:?}", new_exp);
    assert_eq!(new_exp.experience, 0);
    assert_eq!(new_exp.level, 0);
    assert_eq!(new_exp.experience_to_next_level, 100);
}
