use webwatch::matcher::{self, should_notify};
use webwatch::models::Alert;
use webwatch::worker::{check_alert, group_by_url, notification, select_fired};

#[test]
fn grouping_keeps_every_alert_once() {
    let alerts = vec![
        Alert::new("https://u/", "foo", false, 1, 1),
        Alert::new("https://v/", "x", false, 1, 2),
        Alert::new("https://u/", "baz", false, 2, 1),
        Alert::new("https://w/", "y", true, 3, 1),
        Alert::new("https://v/", "z", false, 2, 2),
    ];
    let groups = group_by_url(&alerts);
    assert_eq!(groups.len(), 3);
    assert_eq!(groups[0].url, "https://u/");
    assert_eq!(groups[1].url, "https://v/");
    assert_eq!(groups[2].url, "https://w/");
    let texts = |i: usize| groups[i].alerts.iter().map(|a| a.matching_text.clone()).collect::<Vec<_>>();
    assert_eq!(texts(0), vec!["foo", "baz"]);
    assert_eq!(texts(1), vec!["x", "z"]);
    assert_eq!(texts(2), vec!["y"]);
    let total: usize = groups.iter().map(|g| g.alerts.len()).sum();
    assert_eq!(total, alerts.len());
}

#[test]
fn grouping_of_nothing() {
    assert!(group_by_url(&Vec::new()).is_empty());
}

#[test]
fn shared_url_fires_only_matching_alert() {
    let alerts = vec![
        Alert::new("https://example.com/u", "foo", false, 1, 1),
        Alert::new("https://example.com/u", "baz", false, 2, 1),
    ];
    let groups = group_by_url(&alerts);
    assert_eq!(groups.len(), 1);
    let fired = check_alert(&groups[0].alerts, "<html>some foo here</html>");
    assert_eq!(fired, vec![0]);
    let msg = notification(&groups[0].alerts[0]);
    assert_eq!(msg.user_id, 1);
    assert_eq!(msg.message, "Found matching text: [foo] at URL: https://example.com/u");
}

#[test]
fn inverted_alert_fires_when_text_is_missing() {
    let alerts = vec![Alert::new("https://shop/", "unavailable", true, 9, 1)];
    assert_eq!(check_alert(&alerts, "In stock now"), vec![0]);
    assert!(check_alert(&alerts, "Currently UNAVAILABLE").is_empty());
}

#[test]
fn bad_pattern_is_skipped_without_hiding_others() {
    let alerts = vec![
        Alert::new("https://x/", "([", false, 1, 1),
        Alert::new("https://x/", "hello", false, 2, 1),
    ];
    assert_eq!(check_alert(&alerts, "hello world"), vec![1]);
}

#[test]
fn select_fired_from_outcomes() {
    let alerts = vec![
        Alert::new("https://x/", "a", false, 1, 1),
        Alert::new("https://x/", "b", true, 2, 1),
        Alert::new("https://x/", "c", false, 3, 1),
        Alert::new("https://x/", "d", true, 4, 1),
        Alert::new("https://x/", "e", false, 5, 1),
    ];
    let outcomes = vec![Some(true), Some(false), Some(false), Some(true), None];
    assert_eq!(select_fired(&alerts, &outcomes), vec![0, 1]);
}

#[test]
fn notify_rule() {
    assert!(should_notify(true, false));
    assert!(!should_notify(false, false));
    assert!(should_notify(false, true));
    assert!(!should_notify(true, true));
}

#[test]
fn matching_ignores_case() {
    assert_eq!(matcher::matches("FOO", "a foo b"), Ok(true));
    assert_eq!(matcher::matches("f.o", "FxO"), Ok(true));
    assert_eq!(matcher::matches("bar", "foo"), Ok(false));
    assert!(matcher::matches("([", "foo").is_err());
    assert!(matcher::compile("a+b").is_ok());
    assert!(matcher::compile("(").is_err());
}
