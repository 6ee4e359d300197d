//! Tests of `Person` and `NameString`.

use email_address::EmailAddress;
use phonenumber::PhoneNumber;
use planter_core::person::{NameString, NameStringError, Person};
use std::str::FromStr;

fn margherita() -> Person {
    Person::new("Margherita".to_owned(), "Hack".to_owned()).unwrap()
}

#[test]
fn person_new_keeps_names() {
    let person = margherita();
    assert_eq!(person.first_name(), "Margherita");
    assert_eq!(person.last_name(), "Hack");
    assert_eq!(person.full_name(), "Margherita Hack");
    assert!(person.email().is_none());
    assert!(person.phone().is_none());
}

#[test]
fn person_new_trims_names() {
    let person = Person::new("  Margherita\t".to_owned(), "\n Hack \u{a0}".to_owned()).unwrap();
    assert_eq!(person.first_name(), "Margherita");
    assert_eq!(person.last_name(), "Hack");
    assert_eq!(person.full_name(), "Margherita Hack");
}

#[test]
fn person_new_rejects_bad_names() {
    assert!(Person::new("".to_owned(), "Hack".to_owned()).is_none());
    assert!(Person::new("Margherita".to_owned(), "   ".to_owned()).is_none());
    assert!(Person::new("x".repeat(51), "Hack".to_owned()).is_none());
    assert!(Person::new("Margherita".to_owned(), "y".repeat(51)).is_none());
    assert!(Person::new("x".repeat(50), "y".repeat(50)).is_some());
}

#[test]
fn name_string_try_new() {
    assert_eq!(NameString::try_new("Ada".to_owned()).unwrap().as_str(), "Ada");
    assert_eq!(NameString::try_new(" Ada Lovelace ".to_owned()).unwrap().as_str(), "Ada Lovelace");
    assert_eq!(
        NameString::try_new("\u{2003}\u{3000}Ada\u{85}\u{2028}".to_owned()).unwrap().into_inner(),
        "Ada"
    );
    assert_eq!(NameString::try_new("".to_owned()), Err(NameStringError::NotEmptyViolated));
    assert_eq!(NameString::try_new(" \t\r\n".to_owned()), Err(NameStringError::NotEmptyViolated));
    assert_eq!(NameString::try_new("a".repeat(51)), Err(NameStringError::LenCharMaxViolated));
    // The limit counts characters, not bytes, and counts them after trimming.
    assert!(NameString::try_new("é".repeat(50)).is_ok());
    assert_eq!(NameString::try_new("é".repeat(51)), Err(NameStringError::LenCharMaxViolated));
    assert!(NameString::try_new(format!("  {}  ", "a".repeat(50))).is_ok());
    // A zero-width space is no white space.
    assert_eq!(NameString::try_new("\u{200b}".to_owned()).unwrap().as_str(), "\u{200b}");
    let name = NameString::try_new("Ada".to_owned()).unwrap();
    assert_eq!(name.clone(), name);
}

#[test]
fn update_email_sets_email() {
    let mut person = margherita();
    let email = EmailAddress::from_str("margherita.hack@example.com").unwrap();
    person.update_email(email.clone());
    assert_eq!(person.email(), &Some(email));
    assert_eq!(person.first_name(), "Margherita");
}

#[test]
fn rm_email_removes_email() {
    let mut person = margherita();
    let email = EmailAddress::from_str("margherita.hack@example.com").unwrap();
    person.update_email(email.clone());
    assert_eq!(person.email(), &Some(email));
    person.rm_email();
    assert!(person.email().is_none());
}

#[test]
fn update_phone_sets_phone() {
    let mut person = margherita();
    let phone = PhoneNumber::from_str("+1234567890").unwrap();
    person.update_phone(phone.clone());
    assert_eq!(person.phone(), &Some(phone));
    assert!(person.email().is_none());
}

#[test]
fn rm_phone_removes_phone() {
    let mut person = margherita();
    let phone = PhoneNumber::from_str("+1234567890").unwrap();
    person.update_phone(phone.clone());
    assert_eq!(person.phone(), &Some(phone));
    person.rm_phone();
    assert!(person.phone().is_none());
}

#[test]
fn update_first_name_replaces_first_name() {
    let mut person = Person::new("Margaret".to_owned(), "Hack".to_owned()).unwrap();
    person.update_first_name("Margherita".to_owned()).unwrap();
    assert_eq!(person.first_name(), "Margherita");
    assert_eq!(person.last_name(), "Hack");
    assert_eq!(person.update_first_name(" ".to_owned()), Err(NameStringError::NotEmptyViolated));
    assert_eq!(person.first_name(), "Margherita");
}

#[test]
fn update_last_name_replaces_last_name() {
    let mut person = Person::new("Margherita".to_owned(), "Hacker".to_owned()).unwrap();
    person.update_last_name(" Hack ".to_owned()).unwrap();
    assert_eq!(person.last_name(), "Hack");
    assert_eq!(person.update_last_name("h".repeat(51)), Err(NameStringError::LenCharMaxViolated));
    assert_eq!(person.last_name(), "Hack");
    assert_eq!(person.full_name(), "Margherita Hack");
}

#[test]
fn name_errors_have_messages() {
    assert_eq!(NameStringError::NotEmptyViolated.message(), "A name cannot be empty");
    assert_eq!(
        NameStringError::LenCharMaxViolated.message(),
        "A name cannot have more than 50 characters"
    );
}
