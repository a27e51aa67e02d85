//! The alert store: the persisted alert set with its consistency rules.
//!
//! Rows are kept in insertion order. For every user the rows of that user,
//! taken in that order, carry the ordinals `1, 2, ..., N`, and no user holds
//! two rows with the same `alert_id`.

use vstd::prelude::*;
use crate::models::{Alert, AlertView, views};

verus! {

/// The rows of user `u`, in store order.
pub open spec fn of_user(rows: Seq<AlertView>, u: i64) -> Seq<AlertView>
    decreases rows.len(),
{
    if rows.len() == 0 {
        Seq::empty()
    } else {
        let rest = of_user(rows.drop_last(), u);
        if rows.last().user_id == u {
            rest.push(rows.last())
        } else {
            rest
        }
    }
}

/// The rows of one user carry the ordinals `1..=N` in order.
pub open spec fn ordinals_contiguous(s: Seq<AlertView>) -> bool {
    forall|k: int| 0 <= k < s.len() ==> #[trigger] s[k].ordinal == k + 1
}

/// No two rows of one user share an `alert_id`.
pub open spec fn ids_distinct(s: Seq<AlertView>) -> bool {
    forall|j: int, k: int|
        0 <= j < k < s.len() ==> #[trigger] s[j].alert_id != #[trigger] s[k].alert_id
}

/// The store's invariant, stated per user.
pub open spec fn store_wf(rows: Seq<AlertView>) -> bool {
    forall|u: i64|
        ordinals_contiguous(#[trigger] of_user(rows, u)) && ids_distinct(of_user(rows, u))
}

/// The rows after removing the row `(u, o)` and moving every later row of
/// `u` (those with a greater ordinal) down by one.
pub open spec fn without(rows: Seq<AlertView>, u: i64, o: u64) -> Seq<AlertView>
    decreases rows.len(),
{
    if rows.len() == 0 {
        Seq::empty()
    } else {
        let rest = without(rows.drop_last(), u, o);
        let a = rows.last();
        if a.user_id == u && a.ordinal == o {
            rest
        } else if a.user_id == u && a.ordinal > o {
            rest.push(shifted_down(a))
        } else {
            rest.push(a)
        }
    }
}

/// Whether user `u` already holds an alert with identifier `id`.
pub open spec fn holds_id(rows: Seq<AlertView>, u: i64, id: Seq<char>) -> bool {
    exists|k: int| 0 <= k < of_user(rows, u).len() && #[trigger] of_user(rows, u)[k].alert_id == id
}

/// Whether user `u` holds an alert with ordinal `o`.
pub open spec fn holds_ordinal(rows: Seq<AlertView>, u: i64, o: u64) -> bool {
    exists|k: int| 0 <= k < of_user(rows, u).len() && #[trigger] of_user(rows, u)[k].ordinal == o
}

/// `a` with its ordinal moved down by one.
pub open spec fn shifted_down(a: AlertView) -> AlertView {
    AlertView { ordinal: (a.ordinal - 1) as u64, ..a }
}

/// What the store can refuse.
#[derive(Debug, Clone, Copy, PartialEq, Eq)]
pub enum RepoError {
    /// The user already holds an alert with the same identifier.
    Duplicate,
    /// The alert's ordinal is not the user's next one.
    OrdinalOutOfSequence,
    /// No alert of the user has the given ordinal or identifier.
    NotFound,
}

impl RepoError {
    /// The text shown to a user.
    pub fn message(&self) -> (r: String)
        ensures
            r@ == repo_error_text(*self),
    {
        match self {
            RepoError::Duplicate => String::from_str("This alert already exists"),
            RepoError::OrdinalOutOfSequence => String::from_str("The alert number is out of sequence"),
            RepoError::NotFound => String::from_str("Could not find this alert to delete"),
        }
    }
}

/// The text shown to a user for `e`.
pub open spec fn repo_error_text(e: RepoError) -> Seq<char> {
    match e {
        RepoError::Duplicate => "This alert already exists"@,
        RepoError::OrdinalOutOfSequence => "The alert number is out of sequence"@,
        RepoError::NotFound => "Could not find this alert to delete"@,
    }
}

/// The alert set.
pub struct AlertStore {
    rows: Vec<Alert>,
}

impl View for AlertStore {
    type V = Seq<AlertView>;

    closed spec fn view(&self) -> Seq<AlertView> {
        views(self.rows@)
    }
}

impl AlertStore {
    /// The store's invariant: per user, ordinals `1..=N` and distinct
    /// identifiers.
    pub open spec fn wf(&self) -> bool {
        store_wf(self@)
    }

    /// An empty store.
    pub fn new() -> (r: AlertStore)
        ensures
            r@ == Seq::<AlertView>::empty(),
            r.wf(),
    {
        let r = AlertStore { rows: Vec::new() };
        assert(views(r.rows@) =~= Seq::<AlertView>::empty());
        r
    }
}

proof fn lemma_views_push(s: Seq<Alert>, a: Alert)
    ensures
        views(s.push(a)) == views(s).push(a@),
{
    assert(views(s.push(a)) =~= views(s).push(a@));
}

proof fn lemma_take_step(s: Seq<AlertView>, i: int)
    requires
        0 <= i < s.len(),
    ensures
        s.take(i + 1).drop_last() == s.take(i),
        s.take(i + 1).last() == s[i],
        s.take(i + 1) == s.take(i).push(s[i]),
{
    assert(s.take(i + 1).drop_last() =~= s.take(i));
    assert(s.take(i + 1) =~= s.take(i).push(s[i]));
}

/// A user's rows after a new row is appended.
pub proof fn lemma_of_user_push(rows: Seq<AlertView>, a: AlertView, u: i64)
    ensures
        of_user(rows.push(a), u) == if a.user_id == u {
            of_user(rows, u).push(a)
        } else {
            of_user(rows, u)
        },
{
    assert(rows.push(a).drop_last() =~= rows);
}

/// Every stored alert.
pub fn all(store: &AlertStore) -> (r: Vec<Alert>)
    ensures
        views(r@) == store@,
{
    let mut out: Vec<Alert> = Vec::new();
    let mut i: usize = 0;
    while i < store.rows.len()
        invariant
            i <= store.rows@.len(),
            views(out@) == views(store.rows@.take(i as int)),
        decreases store.rows@.len() - i,
    {
        let a = store.rows[i].copy();
        proof {
            lemma_views_push(out@, a);
            assert(store.rows@.take(i + 1) =~= store.rows@.take(i as int).push(a));
            lemma_views_push(store.rows@.take(i as int), a);
        }
        out.push(a);
        i = i + 1;
    }
    assert(store.rows@.take(i as int) =~= store.rows@);
    out
}

/// A user's identifiers after a new row is appended.
proof fn lemma_holds_id_push(rows: Seq<AlertView>, a: AlertView, u: i64, id: Seq<char>)
    ensures
        holds_id(rows.push(a), u, id) == (holds_id(rows, u, id) || (a.user_id == u
            && a.alert_id == id)),
{
    lemma_of_user_push(rows, a, u);
    let s = of_user(rows, u);
    if a.user_id == u {
        if holds_id(rows, u, id) {
            let k = choose|k: int| 0 <= k < s.len() && #[trigger] s[k].alert_id == id;
            assert(s.push(a)[k].alert_id == id);
        }
        if a.alert_id == id {
            assert(s.push(a)[s.len() as int].alert_id == id);
        }
        if holds_id(rows.push(a), u, id) {
            let k = choose|k: int|
                0 <= k < s.push(a).len() && #[trigger] s.push(a)[k].alert_id == id;
            if k < s.len() {
                assert(s[k].alert_id == id);
            }
        }
    }
}

/// The number of alerts of user `u`.
pub fn count(store: &AlertStore, u: i64) -> (r: u64)
    ensures
        r == of_user(store@, u).len(),
{
    let mut n: u64 = 0;
    let mut i: usize = 0;
    while i < store.rows.len()
        invariant
            i <= store.rows@.len(),
            n == of_user(store@.take(i as int), u).len(),
            n <= i,
        decreases store.rows@.len() - i,
    {
        proof {
            lemma_take_step(store@, i as int);
        }
        if store.rows[i].user_id == u {
            n = n + 1;
        }
        i = i + 1;
    }
    assert(store@.take(i as int) =~= store@);
    n
}

/// The alerts of user `u`, in ordinal order.
pub fn list(store: &AlertStore, u: i64) -> (r: Vec<Alert>)
    requires
        store.wf(),
    ensures
        views(r@) == of_user(store@, u),
        forall|k: int| 0 <= k < r@.len() ==> #[trigger] r@[k].ordinal == k + 1,
{
    let mut out: Vec<Alert> = Vec::new();
    let mut i: usize = 0;
    while i < store.rows.len()
        invariant
            i <= store.rows@.len(),
            views(out@) == of_user(store@.take(i as int), u),
        decreases store.rows@.len() - i,
    {
        proof {
            lemma_take_step(store@, i as int);
        }
        if store.rows[i].user_id == u {
            let a = store.rows[i].copy();
            proof {
                lemma_views_push(out@, a);
            }
            out.push(a);
        }
        i = i + 1;
    }
    assert(store@.take(i as int) =~= store@);
    assert forall|k: int| 0 <= k < out@.len() implies #[trigger] out@[k].ordinal == k + 1 by {
        assert(views(out@).len() == out@.len());
        assert(views(out@)[k] == out@[k]@);
        assert(ordinals_contiguous(of_user(store@, u)));
        assert(of_user(store@, u)[k].ordinal == k + 1);
    }
    out
}

/// Adds `alert` as the next alert of its user.
///
/// Refused when the user already holds an alert with the same identifier,
/// or when the alert's ordinal is not the user's count plus one.
pub fn insert(store: &mut AlertStore, alert: Alert) -> (r: Result<(), RepoError>)
    requires
        old(store).wf(),
    ensures
        final(store).wf(),
        (r == Err::<(), RepoError>(RepoError::Duplicate)) <==> holds_id(
            old(store)@,
            alert.user_id,
            alert.alert_id@,
        ),
        (r == Err::<(), RepoError>(RepoError::OrdinalOutOfSequence)) <==> (!holds_id(
            old(store)@,
            alert.user_id,
            alert.alert_id@,
        ) && alert.ordinal != of_user(old(store)@, alert.user_id).len() + 1),
        r is Ok <==> (!holds_id(old(store)@, alert.user_id, alert.alert_id@) && alert.ordinal
            == of_user(old(store)@, alert.user_id).len() + 1),
        r is Ok ==> final(store)@ == old(store)@.push(alert@),
        r is Err ==> final(store)@ == old(store)@,
{
    let u = alert.user_id;
    let mut n: u64 = 0;
    let mut found = false;
    let mut i: usize = 0;
    while i < store.rows.len()
        invariant
            i <= store.rows@.len(),
            n == of_user(store@.take(i as int), u).len(),
            n <= i,
            found == holds_id(store@.take(i as int), u, alert.alert_id@),
        decreases store.rows@.len() - i,
    {
        proof {
            lemma_take_step(store@, i as int);
            lemma_holds_id_push(store@.take(i as int), store@[i as int], u, alert.alert_id@);
            assert(store@[i as int] == store.rows@[i as int]@);
        }
        if store.rows[i].user_id == u {
            n = n + 1;
            if store.rows[i].alert_id == alert.alert_id {
                found = true;
            }
        }
        i = i + 1;
    }
    assert(store@.take(i as int) =~= store@);
    if found {
        return Err(RepoError::Duplicate);
    }
    if alert.ordinal == 0 || alert.ordinal - 1 != n {
        return Err(RepoError::OrdinalOutOfSequence);
    }
    let ghost before = store@;
    proof {
        lemma_views_push(store.rows@, alert);
    }
    store.rows.push(alert);
    proof {
        assert forall|v: i64|
            ordinals_contiguous(#[trigger] of_user(store@, v)) && ids_distinct(
                of_user(store@, v),
            ) by {
            lemma_of_user_push(before, alert@, v);
            assert(ordinals_contiguous(of_user(before, v)));
            assert(ids_distinct(of_user(before, v)));
            if v == u {
                let s = of_user(before, v);
                assert forall|j: int| 0 <= j < s.len() implies s[j].alert_id
                    != alert.alert_id@ by {
                    if s[j].alert_id == alert.alert_id@ {
                        assert(holds_id(before, u, alert.alert_id@));
                    }
                }
            }
        }
    }
    Ok(())
}

proof fn lemma_holds_ordinal_push(rows: Seq<AlertView>, a: AlertView, u: i64, o: u64)
    ensures
        holds_ordinal(rows.push(a), u, o) == (holds_ordinal(rows, u, o) || (a.user_id == u
            && a.ordinal == o)),
{
    lemma_of_user_push(rows, a, u);
    let s = of_user(rows, u);
    if a.user_id == u {
        if holds_ordinal(rows, u, o) {
            let k = choose|k: int| 0 <= k < s.len() && #[trigger] s[k].ordinal == o;
            assert(s.push(a)[k].ordinal == o);
        }
        if a.ordinal == o {
            assert(s.push(a)[s.len() as int].ordinal == o);
        }
        if holds_ordinal(rows.push(a), u, o) {
            let k = choose|k: int| 0 <= k < s.push(a).len() && #[trigger] s.push(a)[k].ordinal == o;
            if k < s.len() {
                assert(s[k].ordinal == o);
            }
        }
    }
}

/// The rows of user `u` all belong to `u`.
proof fn lemma_of_user_owner(rows: Seq<AlertView>, u: i64)
    ensures
        forall|k: int|
            0 <= k < of_user(rows, u).len() ==> #[trigger] of_user(rows, u)[k].user_id == u,
    decreases rows.len(),
{
    if rows.len() > 0 {
        lemma_of_user_owner(rows.drop_last(), u);
        let rest = of_user(rows.drop_last(), u);
        if rows.last().user_id == u {
            assert forall|k: int| 0 <= k < rest.len() + 1 implies #[trigger] rest.push(
                rows.last(),
            )[k].user_id == u by {
                if k < rest.len() {
                    assert(rest.push(rows.last())[k] == rest[k]);
                }
            }
        }
    }
}

/// Removing `(u, o)` touches no row when no row of `u` has an ordinal of `o`
/// or more.
proof fn lemma_without_untouched(rows: Seq<AlertView>, u: i64, o: u64)
    requires
        forall|k: int|
            0 <= k < rows.len() && #[trigger] rows[k].user_id == u ==> rows[k].ordinal < o,
    ensures
        without(rows, u, o) == rows,
    decreases rows.len(),
{
    if rows.len() > 0 {
        lemma_without_untouched(rows.drop_last(), u, o);
        assert(rows.drop_last().push(rows.last()) =~= rows);
    }
}

/// Removing `(u, o)` acts on the rows of `u` alone.
proof fn lemma_of_user_without(rows: Seq<AlertView>, u: i64, o: u64, v: i64)
    ensures
        of_user(without(rows, u, o), v) == if v == u {
            without(of_user(rows, u), u, o)
        } else {
            of_user(rows, v)
        },
    decreases rows.len(),
{
    if rows.len() > 0 {
        let a = rows.last();
        let rest = without(rows.drop_last(), u, o);
        lemma_of_user_without(rows.drop_last(), u, o, v);
        lemma_of_user_push(rest, a, v);
        lemma_of_user_push(rest, shifted_down(a), v);
        if v == u {
            let s = of_user(rows.drop_last(), u);
            if a.user_id == u {
                assert(of_user(rows, u) == s.push(a));
                assert(s.push(a).drop_last() =~= s);
            }
        }
    }
}

/// Removing ordinal `o` from one user's rows `s`, whose ordinals are `1..=N`:
/// the rows before it stay, the rows after it move one place and one ordinal
/// down.
proof fn lemma_without_contiguous(s: Seq<AlertView>, u: i64, o: u64)
    requires
        forall|k: int| 0 <= k < s.len() ==> #[trigger] s[k].user_id == u,
        ordinals_contiguous(s),
        1 <= o <= s.len(),
    ensures
        without(s, u, o).len() == s.len() - 1,
        forall|k: int|
            0 <= k < s.len() - 1 ==> #[trigger] without(s, u, o)[k] == if k < o - 1 {
                s[k]
            } else {
                shifted_down(s[k + 1])
            },
    decreases s.len(),
{
    let n = s.len();
    let t = s.drop_last();
    assert(s[n - 1].ordinal == n);
    assert(forall|k: int| 0 <= k < t.len() ==> t[k] == s[k]);
    if o == n {
        assert forall|k: int| 0 <= k < t.len() && #[trigger] t[k].user_id == u implies t[k].ordinal
            < o by {
            assert(s[k].ordinal == k + 1);
        }
        lemma_without_untouched(t, u, o);
    } else {
        assert(ordinals_contiguous(t)) by {
            assert forall|k: int| 0 <= k < t.len() implies #[trigger] t[k].ordinal == k + 1 by {
                assert(s[k].ordinal == k + 1);
            }
        }
        lemma_without_contiguous(t, u, o);
        assert forall|k: int| 0 <= k < s.len() - 1 implies #[trigger] without(s, u, o)[k]
            == if k < o - 1 {
            s[k]
        } else {
            shifted_down(s[k + 1])
        } by {
            if k < n - 2 {
                assert(without(t, u, o)[k] == if k < o - 1 {
                    t[k]
                } else {
                    shifted_down(t[k + 1])
                });
            }
        }
    }
}

/// The invariant after a removal of an existing ordinal.
proof fn lemma_without_wf(rows: Seq<AlertView>, u: i64, o: u64)
    requires
        store_wf(rows),
        1 <= o <= of_user(rows, u).len(),
    ensures
        store_wf(without(rows, u, o)),
{
    let after = without(rows, u, o);
    assert forall|v: i64|
        ordinals_contiguous(#[trigger] of_user(after, v)) && ids_distinct(of_user(after, v)) by {
        lemma_of_user_without(rows, u, o, v);
        assert(ordinals_contiguous(of_user(rows, v)));
        assert(ids_distinct(of_user(rows, v)));
        if v == u {
            let s = of_user(rows, u);
            lemma_of_user_owner(rows, u);
            lemma_without_contiguous(s, u, o);
            let t = without(s, u, o);
            assert forall|k: int| 0 <= k < t.len() implies #[trigger] t[k].ordinal == k + 1 by {
                if k < o - 1 {
                    assert(s[k].ordinal == k + 1);
                } else {
                    assert(s[k + 1].ordinal == k + 2);
                }
            }
            assert forall|j: int, k: int| 0 <= j < k < t.len() implies #[trigger] t[j].alert_id
                != #[trigger] t[k].alert_id by {
                let jj = if j < o - 1 { j } else { j + 1 };
                let kk = if k < o - 1 { k } else { k + 1 };
                assert(t[j].alert_id == s[jj].alert_id);
                assert(t[k].alert_id == s[kk].alert_id);
            }
        }
    }
}

/// In a well-formed store, user `u` holds ordinal `o` exactly when
/// `1 <= o <= N`.
proof fn lemma_holds_ordinal_range(rows: Seq<AlertView>, u: i64, o: u64)
    requires
        store_wf(rows),
    ensures
        holds_ordinal(rows, u, o) <==> 1 <= o <= of_user(rows, u).len(),
{
    let s = of_user(rows, u);
    assert(ordinals_contiguous(s));
    if 1 <= o <= s.len() {
        assert(s[o - 1].ordinal == o);
    }
}

/// Removes the alert of user `u` with ordinal `o`, and moves every later
/// alert of that user down by one ordinal, as one step.
///
/// Refused with `NotFound`, the store unchanged, when `o` is not one of the
/// user's ordinals `1..=N`.
pub fn delete(store: &mut AlertStore, u: i64, o: u64) -> (r: Result<(), RepoError>)
    requires
        old(store).wf(),
    ensures
        final(store).wf(),
        r is Ok <==> 1 <= o <= of_user(old(store)@, u).len(),
        r is Err ==> r == Err::<(), RepoError>(RepoError::NotFound) && final(store)@ == old(
            store,
        )@,
        r is Ok ==> final(store)@ == without(old(store)@, u, o),
{
    let mut out: Vec<Alert> = Vec::new();
    let mut found = false;
    let mut i: usize = 0;
    while i < store.rows.len()
        invariant
            i <= store.rows@.len(),
            views(out@) == without(store@.take(i as int), u, o),
            found == holds_ordinal(store@.take(i as int), u, o),
        decreases store.rows@.len() - i,
    {
        proof {
            lemma_take_step(store@, i as int);
            lemma_holds_ordinal_push(store@.take(i as int), store@[i as int], u, o);
            assert(store@[i as int] == store.rows@[i as int]@);
        }
        let row = &store.rows[i];
        if row.user_id == u && row.ordinal == o {
            found = true;
        } else if row.user_id == u && row.ordinal > o {
            let mut a = row.copy();
            a.ordinal = a.ordinal - 1;
            proof {
                lemma_views_push(out@, a);
            }
            out.push(a);
        } else {
            let a = row.copy();
            proof {
                lemma_views_push(out@, a);
            }
            out.push(a);
        }
        i = i + 1;
    }
    assert(store@.take(i as int) =~= store@);
    proof {
        lemma_holds_ordinal_range(store@, u, o);
    }
    if !found {
        return Err(RepoError::NotFound);
    }
    proof {
        lemma_without_wf(store@, u, o);
    }
    store.rows = out;
    Ok(())
}

/// The rows of `u` among the first `j` rows begin the rows of `u`.
proof fn lemma_of_user_prefix(rows: Seq<AlertView>, u: i64, j: int)
    requires
        0 <= j <= rows.len(),
    ensures
        of_user(rows.take(j), u).len() <= of_user(rows, u).len(),
        forall|k: int|
            0 <= k < of_user(rows.take(j), u).len() ==> #[trigger] of_user(rows.take(j), u)[k]
                == of_user(rows, u)[k],
    decreases rows.len(),
{
    if j == rows.len() {
        assert(rows.take(j) =~= rows);
    } else {
        let t = rows.drop_last();
        assert(rows.take(j) =~= t.take(j));
        lemma_of_user_prefix(t, u, j);
        lemma_of_user_push(t, rows.last(), u);
        assert(t.push(rows.last()) =~= rows);
    }
}

/// A row of `u` sits in the rows of `u` at the place of its rank.
proof fn lemma_of_user_member(rows: Seq<AlertView>, u: i64, i: int)
    requires
        0 <= i < rows.len(),
        rows[i].user_id == u,
    ensures
        of_user(rows.take(i), u).len() < of_user(rows, u).len(),
        of_user(rows, u)[of_user(rows.take(i), u).len() as int] == rows[i],
{
    lemma_take_step(rows, i);
    lemma_of_user_push(rows.take(i), rows[i], u);
    lemma_of_user_prefix(rows, u, i + 1);
    let k = of_user(rows.take(i), u).len() as int;
    assert(of_user(rows.take(i + 1), u)[k] == rows[i]);
}

/// Removes the alert of user `u` whose identifier is `alert_id`, moving the
/// user's later alerts down by one ordinal.
///
/// Refused with `NotFound`, the store unchanged, when the user holds no such
/// alert.
pub fn retire(store: &mut AlertStore, u: i64, alert_id: &str) -> (r: Result<(), RepoError>)
    requires
        old(store).wf(),
    ensures
        final(store).wf(),
        r is Ok <==> holds_id(old(store)@, u, alert_id@),
        r is Err ==> r == Err::<(), RepoError>(RepoError::NotFound) && final(store)@ == old(
            store,
        )@,
        r is Ok ==> exists|k: int|
            0 <= k < of_user(old(store)@, u).len() && #[trigger] of_user(old(store)@, u)[k].alert_id
                == alert_id@ && final(store)@ == without(
                old(store)@,
                u,
                of_user(old(store)@, u)[k].ordinal,
            ),
{
    let wanted = String::from_str(alert_id);
    let mut i: usize = 0;
    while i < store.rows.len()
        invariant
            i <= store.rows@.len(),
            !holds_id(store@.take(i as int), u, alert_id@),
            *store == *old(store),
            store.wf(),
            wanted@ == alert_id@,
        decreases store.rows@.len() - i,
    {
        proof {
            lemma_take_step(store@, i as int);
            lemma_holds_id_push(store@.take(i as int), store@[i as int], u, alert_id@);
            assert(store@[i as int] == store.rows@[i as int]@);
        }
        if store.rows[i].user_id == u && store.rows[i].alert_id == wanted {
            let o = store.rows[i].ordinal;
            let ghost before = store@;
            proof {
                lemma_of_user_member(before, u, i as int);
                let k = of_user(before.take(i as int), u).len() as int;
                assert(of_user(before, u)[k].alert_id == alert_id@);
                assert(of_user(before, u)[k].ordinal == o);
                assert(ordinals_contiguous(of_user(before, u)));
            }
            let r = delete(store, u, o);
            return r;
        }
        i = i + 1;
    }
    assert(store@.take(i as int) =~= store@);
    Err(RepoError::NotFound)
}

/// For every user the ordinals are exactly `1..=N`, where `N` is the
/// user's alert count. `AlertStore::new` establishes this and `insert`,
/// `delete` and `retire` keep it, so it holds after any sequence of them.
pub proof fn ordinals_are_contiguous(store: &AlertStore, u: i64)
    requires
        store.wf(),
    ensures
        of_user(store@, u).map_values(|a: AlertView| a.ordinal as int) == Seq::new(
            of_user(store@, u).len(),
            |k: int| k + 1,
        ),
        of_user(store@, u).map_values(|a: AlertView| a.ordinal as int).to_multiset() == Seq::new(
            of_user(store@, u).len(),
            |k: int| k + 1,
        ).to_multiset(),
{
    let s = of_user(store@, u);
    assert(ordinals_contiguous(s));
    assert(s.map_values(|a: AlertView| a.ordinal as int) =~= Seq::new(s.len(), |k: int| k + 1));
}

/// A successful `insert` of `a` followed by `delete` of `a`'s user and
/// ordinal gives back the store as it was, so the user's count and list are
/// restored as well.
pub proof fn insert_then_delete_restores(rows: Seq<AlertView>, a: AlertView)
    requires
        store_wf(rows),
        !holds_id(rows, a.user_id, a.alert_id),
        a.ordinal == of_user(rows, a.user_id).len() + 1,
    ensures
        without(rows.push(a), a.user_id, a.ordinal) == rows,
        of_user(without(rows.push(a), a.user_id, a.ordinal), a.user_id).len() == of_user(
            rows,
            a.user_id,
        ).len(),
        of_user(without(rows.push(a), a.user_id, a.ordinal), a.user_id) == of_user(
            rows,
            a.user_id,
        ),
{
    let u = a.user_id;
    assert(rows.push(a).drop_last() =~= rows);
    assert forall|k: int| 0 <= k < rows.len() && #[trigger] rows[k].user_id == u implies rows[k].ordinal
        < a.ordinal by {
        lemma_of_user_member(rows, u, k);
        assert(ordinals_contiguous(of_user(rows, u)));
    }
    lemma_without_untouched(rows, u, a.ordinal);
}

/// Deleting ordinal `o` of user `u`, one of `1..=N`: the user keeps `N - 1`
/// alerts; those with a lower ordinal are unchanged, and every one with a
/// higher ordinal moves down by exactly one (so deleting ordinal `N` changes
/// no other alert). Other users' alerts are unchanged.
pub proof fn delete_shifts_later_ordinals(rows: Seq<AlertView>, u: i64, o: u64)
    requires
        store_wf(rows),
        1 <= o <= of_user(rows, u).len(),
    ensures
        of_user(without(rows, u, o), u).len() == of_user(rows, u).len() - 1,
        forall|k: int|
            0 <= k < of_user(rows, u).len() - 1 ==> #[trigger] of_user(without(rows, u, o), u)[k]
                == if k < o - 1 {
                of_user(rows, u)[k]
            } else {
                shifted_down(of_user(rows, u)[k + 1])
            },
        forall|k: int|
            o - 1 <= k < of_user(rows, u).len() - 1 ==> #[trigger] of_user(
                without(rows, u, o),
                u,
            )[k].ordinal == of_user(rows, u)[k + 1].ordinal - 1,
        o == of_user(rows, u).len() ==> of_user(without(rows, u, o), u) == of_user(rows, u).take(
            o - 1,
        ),
        forall|v: i64| v != u ==> #[trigger] of_user(without(rows, u, o), v) == of_user(rows, v),
{
    lemma_of_user_without(rows, u, o, u);
    lemma_of_user_owner(rows, u);
    assert(ordinals_contiguous(of_user(rows, u)));
    lemma_without_contiguous(of_user(rows, u), u, o);
    assert forall|v: i64| v != u implies #[trigger] of_user(without(rows, u, o), v) == of_user(
        rows,
        v,
    ) by {
        lemma_of_user_without(rows, u, o, v);
    }
    assert forall|k: int| o - 1 <= k < of_user(rows, u).len() - 1 implies #[trigger] of_user(
        without(rows, u, o),
        u,
    )[k].ordinal == of_user(rows, u)[k + 1].ordinal - 1 by {
        assert(of_user(rows, u)[k + 1].ordinal == k + 2);
    }
    if o == of_user(rows, u).len() {
        assert(of_user(without(rows, u, o), u) =~= of_user(rows, u).take(o - 1));
    }
}

} // verus!
