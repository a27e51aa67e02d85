use webwatch::commands::{self, failure_message, render_table};
use webwatch::conduit::{self, AlertStore, RepoError};
use webwatch::error::CommandError;
use webwatch::models::Alert;

fn args(items: &[&str]) -> Vec<String> {
    items.iter().map(|s| s.to_string()).collect()
}

const ADDED: &str = "Successfully added alert! Use ~list to see your current alerts";
const DELETED: &str = "Successfully deleted alert! Use ~list to see your current alerts";

#[test]
fn add_then_list_shows_the_alert() {
    let mut store = AlertStore::new();
    let reply = commands::add(&mut store, &args(&["https://example.com/p", "foo"]), 42).unwrap();
    assert_eq!(reply, ADDED);
    let rows = conduit::all(&store);
    assert_eq!(rows.len(), 1);
    assert_eq!(rows[0].user_id, 42);
    assert_eq!(rows[0].url, "https://example.com/p");
    assert_eq!(rows[0].matching_text, "foo");
    assert!(!rows[0].invert);
    assert_eq!(rows[0].ordinal, 1);
    let replies = commands::list(&store, 42);
    assert_eq!(replies.len(), 1);
    assert!(replies[0].contains("1. | https://example.com/p | foo"));
    assert_eq!(
        replies[0],
        "# | URL | Matching Text\n1. | https://example.com/p | foo\n"
    );
}

#[test]
fn add_two_then_delete_first() {
    let mut store = AlertStore::new();
    commands::add(&mut store, &args(&["https://example.com/p", "foo"]), 42).unwrap();
    commands::add(&mut store, &args(&["https://example.com/q", "bar", "-n"]), 42).unwrap();
    let rows = conduit::list(&store, 42);
    assert_eq!(rows.iter().map(|a| a.ordinal).collect::<Vec<_>>(), vec![1, 2]);
    assert!(rows[1].invert);
    assert_eq!(commands::delete(&mut store, &args(&["1"]), 42), Ok(DELETED.to_string()));
    let rows = conduit::list(&store, 42);
    assert_eq!(rows.len(), 1);
    assert_eq!(rows[0].url, "https://example.com/q");
    assert_eq!(rows[0].ordinal, 1);
}

#[test]
fn add_with_bad_pattern_writes_nothing() {
    let mut store = AlertStore::new();
    let r = commands::add(&mut store, &args(&["https://example.com/p", "(["]), 42);
    assert!(matches!(r, Err(CommandError::InvalidPattern(_))));
    assert_eq!(conduit::count(&store, 42), 0);
}

#[test]
fn add_reports_argument_errors() {
    let mut store = AlertStore::new();
    assert_eq!(commands::add(&mut store, &args(&[]), 1), Err(CommandError::MissingUrl));
    assert_eq!(
        commands::add(&mut store, &args(&["not a url", "x"]), 1),
        Err(CommandError::InvalidUrl)
    );
    assert_eq!(
        commands::add(&mut store, &args(&["https://example.com/p"]), 1),
        Err(CommandError::MissingMatchingText)
    );
    assert_eq!(conduit::count(&store, 1), 0);
}

#[test]
fn add_same_alert_twice_is_refused() {
    let mut store = AlertStore::new();
    commands::add(&mut store, &args(&["https://example.com/p", "foo"]), 42).unwrap();
    assert_eq!(
        commands::add(&mut store, &args(&["https://example.com/p", "foo"]), 42),
        Err(CommandError::Store(RepoError::Duplicate))
    );
    assert_eq!(conduit::count(&store, 42), 1);
}

#[test]
fn list_with_no_alerts() {
    let store = AlertStore::new();
    assert_eq!(commands::list(&store, 42), vec!["You currently have 0 alerts."]);
}

#[test]
fn list_splits_long_replies() {
    let mut store = AlertStore::new();
    for i in 0..60 {
        let url = format!("https://example.com/page/{}", i);
        commands::add(&mut store, &args(&[&url, "some matching text"]), 7).unwrap();
    }
    let table = render_table(&conduit::list(&store, 7));
    assert!(table.chars().count() > 1900);
    let replies = commands::list(&store, 7);
    assert!(replies.len() > 1);
    for r in &replies[..replies.len() - 1] {
        assert_eq!(r.chars().count(), 1900);
    }
    let last = replies.last().unwrap().chars().count();
    assert!(last > 0 && last <= 1900);
    assert_eq!(replies.concat(), table);
}

#[test]
fn list_wraps_long_urls() {
    let long = format!("https://example.com/{}", "a".repeat(150));
    let alert = Alert::new(&long, "x", false, 3, 1);
    let table = render_table(&vec![alert]);
    let expected = format!(
        "# | URL | Matching Text\n1. | {} | x\n   | {} |\n",
        &long[..100],
        &long[100..]
    );
    assert_eq!(table, expected);
}

#[test]
fn delete_reports_errors() {
    let mut store = AlertStore::new();
    commands::add(&mut store, &args(&["https://example.com/p", "foo"]), 42).unwrap();
    assert_eq!(commands::delete(&mut store, &args(&[]), 42), Err(CommandError::MissingOrdinal));
    assert_eq!(
        commands::delete(&mut store, &args(&["one"]), 42),
        Err(CommandError::InvalidOrdinal)
    );
    assert_eq!(
        commands::delete(&mut store, &args(&["5"]), 42),
        Err(CommandError::Store(RepoError::NotFound))
    );
    assert_eq!(conduit::count(&store, 42), 1);
    assert_eq!(commands::delete(&mut store, &args(&["+1"]), 42), Ok(DELETED.to_string()));
    assert_eq!(conduit::count(&store, 42), 0);
}

#[test]
fn high_bit_user_ids_round_trip() {
    let mut store = AlertStore::new();
    let platform_id = u64::MAX - 5;
    commands::add(&mut store, &args(&["https://example.com/p", "foo"]), platform_id).unwrap();
    assert_eq!(conduit::count(&store, -6), 1);
    assert_eq!(commands::list(&store, platform_id).len(), 1);
    assert_eq!(commands::delete(&mut store, &args(&["1"]), platform_id), Ok(DELETED.to_string()));
}

#[test]
fn failure_message_text() {
    assert_eq!(
        failure_message("delete", "Could not find this alert to delete"),
        "Failed to run command \"~delete\" due to error: Could not find this alert to delete"
    );
}

#[test]
fn command_error_messages() {
    assert_eq!(CommandError::MissingUrl.message(), "Missing URL.");
    assert_eq!(CommandError::InvalidUrl.message(), "Please enter a valid URL.");
    assert_eq!(CommandError::MissingMatchingText.message(), "Missing matching text.");
    assert_eq!(CommandError::MissingOrdinal.message(), "Missing alert number.");
    assert_eq!(CommandError::InvalidOrdinal.message(), "Please enter a valid alert number.");
    assert_eq!(CommandError::TooManyAlerts.message(), "You have too many alerts.");
    assert_eq!(
        CommandError::InvalidPattern("bad".to_string()).message(),
        "bad"
    );
    assert_eq!(
        CommandError::Store(RepoError::NotFound).message(),
        "Could not find this alert to delete"
    );
}
