use webwatch::conduit::{self, AlertStore, RepoError};
use webwatch::models::Alert;

fn alert(url: &str, text: &str, user: i64, ordinal: u64) -> Alert {
    Alert::new(url, text, false, user, ordinal)
}

fn ordinals(store: &AlertStore, user: i64) -> Vec<u64> {
    conduit::list(store, user).iter().map(|a| a.ordinal).collect()
}

fn urls(store: &AlertStore, user: i64) -> Vec<String> {
    conduit::list(store, user).iter().map(|a| a.url.clone()).collect()
}

#[test]
fn insert_then_count_and_list() {
    let mut store = AlertStore::new();
    assert_eq!(conduit::count(&store, 42), 0);
    assert_eq!(conduit::insert(&mut store, alert("https://a/", "x", 42, 1)), Ok(()));
    assert_eq!(conduit::insert(&mut store, alert("https://b/", "y", 7, 1)), Ok(()));
    assert_eq!(conduit::insert(&mut store, alert("https://c/", "z", 42, 2)), Ok(()));
    assert_eq!(conduit::count(&store, 42), 2);
    assert_eq!(conduit::count(&store, 7), 1);
    assert_eq!(urls(&store, 42), vec!["https://a/", "https://c/"]);
    assert_eq!(ordinals(&store, 42), vec![1, 2]);
    assert_eq!(conduit::all(&store).len(), 3);
}

#[test]
fn insert_refuses_duplicate() {
    let mut store = AlertStore::new();
    assert_eq!(conduit::insert(&mut store, alert("https://a/", "x", 42, 1)), Ok(()));
    assert_eq!(
        conduit::insert(&mut store, alert("https://a/", "x", 42, 2)),
        Err(RepoError::Duplicate)
    );
    assert_eq!(conduit::count(&store, 42), 1);
    // The same alert for another user is a different alert.
    assert_eq!(conduit::insert(&mut store, alert("https://a/", "x", 43, 1)), Ok(()));
}

#[test]
fn insert_refuses_out_of_sequence_ordinal() {
    let mut store = AlertStore::new();
    assert_eq!(
        conduit::insert(&mut store, alert("https://a/", "x", 42, 2)),
        Err(RepoError::OrdinalOutOfSequence)
    );
    assert_eq!(
        conduit::insert(&mut store, alert("https://a/", "x", 42, 0)),
        Err(RepoError::OrdinalOutOfSequence)
    );
    assert_eq!(conduit::count(&store, 42), 0);
}

#[test]
fn delete_only_alert() {
    let mut store = AlertStore::new();
    conduit::insert(&mut store, alert("https://a/", "x", 42, 1)).unwrap();
    assert_eq!(conduit::delete(&mut store, 42, 1), Ok(()));
    assert_eq!(conduit::count(&store, 42), 0);
    assert!(conduit::list(&store, 42).is_empty());
}

#[test]
fn delete_last_ordinal_shifts_nothing() {
    let mut store = AlertStore::new();
    for (i, u) in ["https://a/", "https://b/", "https://c/"].iter().enumerate() {
        conduit::insert(&mut store, alert(u, "x", 42, i as u64 + 1)).unwrap();
    }
    assert_eq!(conduit::delete(&mut store, 42, 3), Ok(()));
    assert_eq!(ordinals(&store, 42), vec![1, 2]);
    assert_eq!(urls(&store, 42), vec!["https://a/", "https://b/"]);
}

#[test]
fn delete_middle_ordinal_shifts_later_ones() {
    let mut store = AlertStore::new();
    for (i, u) in ["https://a/", "https://b/", "https://c/", "https://d/"].iter().enumerate() {
        conduit::insert(&mut store, alert(u, "x", 42, i as u64 + 1)).unwrap();
    }
    conduit::insert(&mut store, alert("https://e/", "x", 9, 1)).unwrap();
    assert_eq!(conduit::delete(&mut store, 42, 2), Ok(()));
    assert_eq!(ordinals(&store, 42), vec![1, 2, 3]);
    assert_eq!(urls(&store, 42), vec!["https://a/", "https://c/", "https://d/"]);
    assert_eq!(ordinals(&store, 9), vec![1]);
}

#[test]
fn delete_unknown_ordinal_is_not_found() {
    let mut store = AlertStore::new();
    conduit::insert(&mut store, alert("https://a/", "x", 42, 1)).unwrap();
    assert_eq!(conduit::delete(&mut store, 42, 2), Err(RepoError::NotFound));
    assert_eq!(conduit::delete(&mut store, 42, 0), Err(RepoError::NotFound));
    assert_eq!(conduit::delete(&mut store, 41, 1), Err(RepoError::NotFound));
    assert_eq!(conduit::count(&store, 42), 1);
}

#[test]
fn ordinals_stay_contiguous_after_mixed_operations() {
    let mut store = AlertStore::new();
    let next = |store: &mut AlertStore, url: &str| {
        let n = conduit::count(store, 5);
        conduit::insert(store, alert(url, "p", 5, n + 1)).unwrap();
    };
    next(&mut store, "https://1/");
    next(&mut store, "https://2/");
    next(&mut store, "https://3/");
    conduit::delete(&mut store, 5, 1).unwrap();
    next(&mut store, "https://4/");
    conduit::delete(&mut store, 5, 2).unwrap();
    next(&mut store, "https://5/");
    next(&mut store, "https://6/");
    let n = conduit::count(&store, 5);
    assert_eq!(ordinals(&store, 5), (1..=n).collect::<Vec<u64>>());
    assert_eq!(urls(&store, 5), vec!["https://2/", "https://4/", "https://5/", "https://6/"]);
}

#[test]
fn insert_then_delete_restores_list() {
    let mut store = AlertStore::new();
    conduit::insert(&mut store, alert("https://a/", "x", 42, 1)).unwrap();
    conduit::insert(&mut store, alert("https://b/", "y", 42, 2)).unwrap();
    let before_urls = urls(&store, 42);
    let before_count = conduit::count(&store, 42);
    conduit::insert(&mut store, alert("https://c/", "z", 42, 3)).unwrap();
    conduit::delete(&mut store, 42, 3).unwrap();
    assert_eq!(conduit::count(&store, 42), before_count);
    assert_eq!(urls(&store, 42), before_urls);
    assert_eq!(ordinals(&store, 42), vec![1, 2]);
}

#[test]
fn retire_by_identifier() {
    let mut store = AlertStore::new();
    let first = alert("https://a/", "x", 42, 1);
    let second = alert("https://b/", "y", 42, 2);
    let second_id = second.alert_id.clone();
    conduit::insert(&mut store, first).unwrap();
    conduit::insert(&mut store, second).unwrap();
    conduit::insert(&mut store, alert("https://c/", "z", 42, 3)).unwrap();
    assert_eq!(conduit::retire(&mut store, 42, &second_id), Ok(()));
    assert_eq!(urls(&store, 42), vec!["https://a/", "https://c/"]);
    assert_eq!(ordinals(&store, 42), vec![1, 2]);
    assert_eq!(conduit::retire(&mut store, 42, &second_id), Err(RepoError::NotFound));
    assert_eq!(conduit::retire(&mut store, 41, "nothing"), Err(RepoError::NotFound));
}

#[test]
fn repo_error_messages() {
    assert_eq!(RepoError::NotFound.message(), "Could not find this alert to delete");
    assert_eq!(RepoError::Duplicate.message(), "This alert already exists");
    assert_eq!(
        RepoError::OrdinalOutOfSequence.message(),
        "The alert number is out of sequence"
    );
}
