//! The decisions of the polling worker: alerts are grouped by URL so that
//! each page is fetched once per cycle, each group's alerts are matched
//! against the fetched body, and every alert that fires yields one
//! notification before it is retired.

use vstd::prelude::*;
use vstd::multiset::Multiset;
use crate::matcher::{fires, pattern_compiles, pattern_found, should_notify};
use crate::models::{Alert, AlertView, ResponseMessage, views};

verus! {

broadcast use vstd::seq_lib::group_to_multiset_ensures;

/// The alerts that watch one URL.
pub struct UrlGroup {
    pub url: String,
    pub alerts: Vec<Alert>,
}

/// The mathematical value of a [`UrlGroup`].
pub struct GroupView {
    pub url: Seq<char>,
    pub alerts: Seq<AlertView>,
}

impl View for UrlGroup {
    type V = GroupView;

    open spec fn view(&self) -> GroupView {
        GroupView { url: self.url@, alerts: views(self.alerts@) }
    }
}

/// The views of a sequence of groups.
pub open spec fn group_views(gs: Seq<UrlGroup>) -> Seq<GroupView> {
    gs.map_values(|g: UrlGroup| g@)
}

/// Every alert of every group, counted with multiplicity.
pub open spec fn members(gs: Seq<GroupView>) -> Multiset<AlertView>
    decreases gs.len(),
{
    if gs.len() == 0 {
        Multiset::empty()
    } else {
        members(gs.drop_last()).add(gs.last().alerts.to_multiset())
    }
}

/// `gs` groups `alerts` by URL: together the groups hold exactly the
/// alerts, each group is non-empty and holds only alerts of its URL, and no
/// two groups share a URL.
pub open spec fn groups_by_url(alerts: Seq<AlertView>, gs: Seq<GroupView>) -> bool {
    &&& members(gs) == alerts.to_multiset()
    &&& forall|i: int| 0 <= i < gs.len() ==> #[trigger] gs[i].alerts.len() > 0
    &&& forall|i: int, k: int|
        0 <= i < gs.len() && 0 <= k < gs[i].alerts.len() ==> #[trigger] gs[i].alerts[k].url
            == gs[i].url
    &&& forall|i: int, j: int|
        0 <= i < j < gs.len() ==> #[trigger] gs[i].url != #[trigger] gs[j].url
}

proof fn lemma_members_update(gs: Seq<GroupView>, g: int, a: AlertView)
    requires
        0 <= g < gs.len(),
    ensures
        members(gs.update(g, GroupView { url: gs[g].url, alerts: gs[g].alerts.push(a) }))
            == members(gs).insert(a),
    decreases gs.len(),
{
    let grown = GroupView { url: gs[g].url, alerts: gs[g].alerts.push(a) };
    let hs = gs.update(g, grown);
    assert(hs.drop_last() == if g == gs.len() - 1 {
        gs.drop_last()
    } else {
        gs.drop_last().update(g, grown)
    }) by {
        if g == gs.len() - 1 {
            assert(hs.drop_last() =~= gs.drop_last());
        } else {
            assert(hs.drop_last() =~= gs.drop_last().update(g, grown));
        }
    }
    if g < gs.len() - 1 {
        lemma_members_update(gs.drop_last(), g, a);
    }
    assert(members(hs) =~= members(gs).insert(a));
}

proof fn lemma_members_push(gs: Seq<GroupView>, h: GroupView)
    ensures
        members(gs.push(h)) == members(gs).add(h.alerts.to_multiset()),
{
    assert(gs.push(h).drop_last() =~= gs);
}

/// Groups `alerts` by URL, groups in order of first appearance and alerts
/// in their given order.
pub fn group_by_url(alerts: &Vec<Alert>) -> (r: Vec<UrlGroup>)
    ensures
        groups_by_url(views(alerts@), group_views(r@)),
{
    let mut groups: Vec<UrlGroup> = Vec::new();
    let mut i: usize = 0;
    assert(views(alerts@).take(0) =~= Seq::<AlertView>::empty());
    assert(group_views(groups@) =~= Seq::<GroupView>::empty());
    assert(Seq::<AlertView>::empty().to_multiset() =~= Multiset::<AlertView>::empty());
    while i < alerts.len()
        invariant
            i <= alerts@.len(),
            groups_by_url(views(alerts@).take(i as int), group_views(groups@)),
        decreases alerts@.len() - i,
    {
        let a = alerts[i].copy();
        let ghost before = group_views(groups@);
        let ghost seen = views(alerts@).take(i as int);
        assert(views(alerts@).take(i + 1) =~= seen.push(a@));
        let mut j: usize = 0;
        let mut at: Option<usize> = None;
        while j < groups.len()
            invariant
                j <= groups@.len(),
                before == group_views(groups@),
                i < alerts@.len(),
                a@ == alerts@[i as int]@,
                at matches Some(g) ==> g < groups@.len() && groups@[g as int].url@ == a.url@,
                at is None ==> forall|k: int| 0 <= k < j ==> #[trigger] before[k].url != a.url@,
            decreases groups@.len() - j,
        {
            if at.is_none() && groups[j].url == a.url {
                at = Some(j);
            }
            j = j + 1;
        }
        match at {
            Some(g) => {
                let ghost grown = GroupView { url: before[g as int].url, alerts: before[g as int].alerts.push(a@) };
                let mut group = groups.remove(g);
                proof {
                    assert(views(group.alerts@.push(a)) =~= views(group.alerts@).push(a@));
                }
                group.alerts.push(a);
                groups.insert(g, group);
                proof {
                    assert(group_views(groups@) =~= before.update(g as int, grown));
                    lemma_members_update(before, g as int, a@);
                    assert(members(group_views(groups@)) == seen.push(a@).to_multiset());
                    let after = group_views(groups@);
                    assert forall|x: int, k: int|
                        0 <= x < after.len() && 0 <= k < after[x].alerts.len() implies #[trigger] after[x].alerts[k].url
                        == after[x].url by {
                        if x == g {
                            if k < before[x].alerts.len() {
                                assert(after[x].alerts[k] == before[x].alerts[k]);
                            }
                        } else {
                            assert(after[x] == before[x]);
                        }
                    }
                    assert forall|x: int, y: int|
                        0 <= x < y < after.len() implies #[trigger] after[x].url != #[trigger] after[y].url by {
                        assert(after[x].url == before[x].url);
                        assert(after[y].url == before[y].url);
                    }
                    assert forall|x: int| 0 <= x < after.len() implies #[trigger] after[x].alerts.len() > 0 by {
                        assert(before[x].alerts.len() > 0);
                    }
                }
            },
            None => {
                let url = a.url.clone();
                let mut members_vec: Vec<Alert> = Vec::new();
                members_vec.push(a);
                let group = UrlGroup { url, alerts: members_vec };
                proof {
                    assert(views(group.alerts@) =~= seq![a@]);
                    assert(seq![a@] =~= Seq::<AlertView>::empty().push(a@));
                    assert(group_views(groups@.push(group)) =~= before.push(group@));
                    lemma_members_push(before, group@);
                    assert(Seq::<AlertView>::empty().to_multiset() =~= Multiset::<AlertView>::empty());
                    assert(seq![a@].to_multiset() =~= Multiset::<AlertView>::empty().insert(a@));
                    assert(members(before).add(Multiset::<AlertView>::empty().insert(a@)) =~= members(before).insert(a@));
                }
                groups.push(group);
                proof {
                    let after = group_views(groups@);
                    assert(after.len() == before.len() + 1);
                    assert forall|x: int| 0 <= x < before.len() implies #[trigger] after[x] == before[x] by {}
                    assert forall|x: int, k: int|
                        0 <= x < after.len() && 0 <= k < after[x].alerts.len() implies #[trigger] after[x].alerts[k].url
                        == after[x].url by {
                        if x < before.len() {
                            assert(after[x] == before[x]);
                        }
                    }
                    assert forall|x: int, y: int|
                        0 <= x < y < after.len() implies #[trigger] after[x].url != #[trigger] after[y].url by {
                        assert(after[x] == before[x]);
                        if y < before.len() {
                            assert(after[y] == before[y]);
                        }
                    }
                    assert forall|x: int| 0 <= x < after.len() implies #[trigger] after[x].alerts.len() > 0 by {
                        if x < before.len() {
                            assert(after[x] == before[x]);
                        }
                    }
                }
            },
        }
        i = i + 1;
    }
    assert(views(alerts@).take(i as int) =~= views(alerts@));
    groups
}

/// Grouping by URL is lossless: together the groups hold exactly the
/// alerts (as a multiset), and no alert value lies in two groups.
pub proof fn grouping_is_lossless(alerts: Seq<AlertView>, gs: Seq<GroupView>)
    requires
        groups_by_url(alerts, gs),
    ensures
        members(gs) == alerts.to_multiset(),
        forall|i: int, j: int, a: AlertView|
            0 <= i < j < gs.len() && #[trigger] gs[i].alerts.contains(a) ==> !#[trigger] gs[j].alerts.contains(
                a,
            ),
{
    assert forall|i: int, j: int, a: AlertView|
        0 <= i < j < gs.len() && #[trigger] gs[i].alerts.contains(a) implies !#[trigger] gs[j].alerts.contains(
        a,
    ) by {
        let k = choose|k: int| 0 <= k < gs[i].alerts.len() && gs[i].alerts[k] == a;
        assert(gs[i].alerts[k].url == gs[i].url);
        if gs[j].alerts.contains(a) {
            let m = choose|m: int| 0 <= m < gs[j].alerts.len() && gs[j].alerts[m] == a;
            assert(gs[j].alerts[m].url == gs[j].url);
        }
    }
}

/// The text of the notification for an alert that fired.
pub open spec fn notification_text(a: AlertView) -> Seq<char> {
    "Found matching text: ["@ + a.matching_text + "] at URL: "@ + a.url
}

/// The notification sent to the owner of an alert that fired.
pub fn notification(alert: &Alert) -> (r: ResponseMessage)
    ensures
        r.user_id == alert.user_id,
        r.message@ == notification_text(alert@),
{
    let mut message = String::from_str("Found matching text: [");
    message.append(alert.matching_text.as_str());
    message.append("] at URL: ");
    message.append(alert.url.as_str());
    ResponseMessage { user_id: alert.user_id, message }
}

/// What matching gave for one alert: `Some(found)`, or `None` when its
/// pattern did not compile.
pub open spec fn outcome_of(a: AlertView, body: Seq<char>) -> Option<bool> {
    if pattern_compiles(a.matching_text) {
        Some(pattern_found(a.matching_text, body))
    } else {
        None
    }
}

/// The positions among the first `n` alerts whose outcome makes them fire,
/// in increasing order.
pub open spec fn fired_upto(alerts: Seq<AlertView>, outcomes: Seq<Option<bool>>, n: int) -> Seq<
    usize,
>
    decreases n,
{
    if n <= 0 {
        Seq::empty()
    } else {
        let rest = fired_upto(alerts, outcomes, n - 1);
        if outcomes[n - 1] matches Some(found) && fires(found, alerts[n - 1].invert) {
            rest.push((n - 1) as usize)
        } else {
            rest
        }
    }
}

/// Picks the alerts that fire, given each one's matching outcome (`None`
/// for a pattern that did not compile, which is skipped).
pub fn select_fired(alerts: &Vec<Alert>, outcomes: &Vec<Option<bool>>) -> (r: Vec<usize>)
    requires
        outcomes@.len() == alerts@.len(),
    ensures
        r@ == fired_upto(views(alerts@), outcomes@, alerts@.len() as int),
{
    let mut out: Vec<usize> = Vec::new();
    let mut i: usize = 0;
    while i < alerts.len()
        invariant
            i <= alerts@.len(),
            outcomes@.len() == alerts@.len(),
            out@ == fired_upto(views(alerts@), outcomes@, i as int),
        decreases alerts@.len() - i,
    {
        assert(views(alerts@)[i as int] == alerts@[i as int]@);
        match outcomes[i] {
            Some(found) => {
                if should_notify(found, alerts[i].invert) {
                    out.push(i);
                }
            },
            None => {},
        }
        i = i + 1;
    }
    out
}

/// Matches every alert of one URL's group against the page body and
/// returns the positions of those that fire, in order. An alert whose
/// pattern does not compile is skipped and does not hide the others.
pub fn check_alert(alerts: &Vec<Alert>, body: &str) -> (r: Vec<usize>)
    ensures
        r@ == fired_upto(
            views(alerts@),
            Seq::new(alerts@.len(), |i: int| outcome_of(alerts@[i]@, body@)),
            alerts@.len() as int,
        ),
{
    let mut outcomes: Vec<Option<bool>> = Vec::new();
    let mut i: usize = 0;
    while i < alerts.len()
        invariant
            i <= alerts@.len(),
            outcomes@ == Seq::new(i as nat, |k: int| outcome_of(alerts@[k]@, body@)),
        decreases alerts@.len() - i,
    {
        let outcome = match crate::matcher::matches(alerts[i].matching_text.as_str(), body) {
            Ok(found) => Some(found),
            Err(_) => None,
        };
        outcomes.push(outcome);
        i = i + 1;
        assert(outcomes@ =~= Seq::new(i as nat, |k: int| outcome_of(alerts@[k]@, body@)));
    }
    select_fired(alerts, &outcomes)
}

} // verus!
