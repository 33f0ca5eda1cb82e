//! Tests of the subscription set: construction, set algebra, serialization.

use shortbot::{ClientError, Subscriptions};

#[test]
fn subscription_creation() {
    // TC 1: Create from a list of &str
    let tickers = vec!["SAN", "REP", "IAG", "SAN"];
    let tickers_check = vec!["SAN", "REP", "IAG"];

    let test = Subscriptions::from_tickers(tickers.as_slice())
        .expect("Failed to build a Subscritpions map");

    assert_eq!(
        tickers_check.len(),
        test.tickers()
            .iter()
            .filter(|e| tickers_check.contains(&e.as_str()))
            .collect::<Vec<&String>>()
            .len()
    );
}

#[test]
fn subscription_add() {
    let tickers_check = vec!["SAN", "SAB", "ACX"];
    let mut test = Subscriptions::default();

    test.add_subscriptions(&["SAN"]);
    assert_eq!(
        &["SAN"],
        test.tickers()
            .iter()
            .map(|e| e.as_str())
            .collect::<Vec<&str>>()
            .as_slice()
    );
    test.add_subscriptions(&["SAN"]);
    assert_eq!(
        &["SAN"],
        test.tickers()
            .iter()
            .map(|e| e.as_str())
            .collect::<Vec<&str>>()
            .as_slice()
    );
    test.add_subscriptions(&["SAB", "ACX"]);

    assert_eq!(
        test.tickers()
            .iter()
            .filter(|e| tickers_check.contains(&e.as_str()))
            .collect::<Vec<&String>>()
            .len(),
        tickers_check.len()
    );
}

#[test]
fn subscription_remove() {
    let tickers = vec!["SAN", "REP", "IAG"];

    let mut test = Subscriptions::from_tickers(tickers.as_slice())
        .expect("Failed to build a Subscritpions map");

    test.remove_subscriptions(&["SAN"]);
    test.remove_subscriptions(&["SAN", "IAG"]);
    assert_eq!(
        &["REP"],
        test.tickers()
            .iter()
            .map(|e| e.as_str())
            .collect::<Vec<&str>>()
            .as_slice()
    );
}

#[test]
fn to_string() {
    let tickers = vec!["SAN", "REP"];

    let test = Subscriptions::from_tickers(tickers.as_slice())
        .expect("Failed to build a Subscritpions map");

    // The set promises no order of the elements, so with 2 elements there
    // are two possible strings.
    assert!(
        (test.to_string() == "SAN;REP".to_owned()) || (test.to_string() == "REP;SAN".to_owned())
    );
}

#[test]
fn is_subscribed() {
    let tickers = vec!["SAN", "REP", "IAG"];

    let test = Subscriptions::from_tickers(tickers.as_slice())
        .expect("Failed to build a Subscritpions map");

    assert!(test.is_subscribed(tickers.as_slice()));
}

#[test]
fn union_from_empty() {
    // Starting from {}, add ["SAN"], then add ["BBVA","SAB"]: the result is
    // exactly {"SAN","BBVA","SAB"}, in any order.
    let mut test = Subscriptions::new();
    test.add_subscriptions(&["SAN"]);
    test.add_subscriptions(&["BBVA", "SAB"]);

    let mut names = test.tickers();
    names.sort();
    assert_eq!(names, vec!["BBVA".to_owned(), "SAB".to_owned(), "SAN".to_owned()]);
}

#[test]
fn difference_and_noop_removal() {
    // From {"SAN","ENG","REP","IAG"}, removing ["ENG"] leaves
    // {"SAN","REP","IAG"}; removing ["ENG"] again changes nothing.
    let mut test = Subscriptions::from_tickers(&["SAN", "ENG", "REP", "IAG"])
        .expect("Failed to build a Subscritpions map");

    test.remove_subscriptions(&["ENG"]);
    let mut names = test.tickers();
    names.sort();
    assert_eq!(names, vec!["IAG".to_owned(), "REP".to_owned(), "SAN".to_owned()]);

    test.remove_subscriptions(&["ENG"]);
    let mut names = test.tickers();
    names.sort();
    assert_eq!(names, vec!["IAG".to_owned(), "REP".to_owned(), "SAN".to_owned()]);
}

#[test]
fn parse_round_trip() {
    // parse(serialize(set)) reproduces the identical set.
    let test = Subscriptions::from_tickers(&["SAN", "REP", "IAG"])
        .expect("Failed to build a Subscritpions map");
    let text = test.to_string();
    let reparsed = Subscriptions::parse(text.as_str()).expect("Failed to reparse");
    assert!(reparsed == test);
    assert!(test == reparsed);
}

#[test]
fn parse_semicolon_text() {
    let test = Subscriptions::parse("SAN;REP;IAG").expect("Failed to parse");
    assert!(test.is_subscribed(&["SAN", "REP", "IAG"]));
    assert_eq!(test.tickers().len(), 3);

    // duplicates collapse
    let test = Subscriptions::parse("SAN;SAN").expect("Failed to parse");
    assert_eq!(test.tickers().len(), 1);
}

#[test]
fn format_rejection() {
    // A token longer than 4 characters fails with a format error and
    // constructs nothing.
    let r = Subscriptions::from_tickers(&["TOOLONG"]);
    assert!(matches!(r, Err(ClientError::WrongSubscriptionString(_))));
    match r {
        Err(ClientError::WrongSubscriptionString(t)) => assert_eq!(t, "TOOLONG"),
        _ => panic!("expected a format error"),
    }

    let r = Subscriptions::parse("SAN;TOOLONG");
    assert!(matches!(r, Err(ClientError::WrongSubscriptionString(_))));

    // Four characters are still fine.
    assert!(Subscriptions::from_tickers(&["BBVA"]).is_ok());
}

#[test]
fn set_equality_ignores_order() {
    let a = Subscriptions::from_tickers(&["SAN", "REP"]).expect("Failed to build");
    let b = Subscriptions::from_tickers(&["REP", "SAN"]).expect("Failed to build");
    assert!(a == b);
    let c = Subscriptions::from_tickers(&["REP"]).expect("Failed to build");
    assert!(a != c);
}

#[test]
fn emptiness() {
    let mut s = Subscriptions::from_tickers(&["SAN"]).expect("Failed to build");
    assert!(!s.is_empty());
    s.remove_subscriptions(&["SAN"]);
    assert!(s.is_empty());
    assert!(Subscriptions::new().is_empty());
}
