use vstd::prelude::*;
use crate::model::{RouteError, Scheduler, SchedulerEntry};
use crate::store::{MemoryStore, MAX_RECORDS, has_url, routes_kept, store_grows, lemma_routes_kept};

verus! {

/// `s` with the routing flags of entry `e`.
pub open spec fn with_flags(s: Scheduler, e: SchedulerEntry) -> Scheduler {
    Scheduler {
        row_id: s.row_id,
        url: s.url,
        process_count: s.process_count,
        no_route: e.no_route,
        wallets_to_route: e.wallets_to_route,
        wallets_only: e.wallets_only,
    }
}

/// A new scheduler at position `n`, made from entry `e`.
pub open spec fn fresh(n: int, e: SchedulerEntry) -> Scheduler {
    Scheduler {
        row_id: Some((n + 1) as i32),
        url: e.url,
        process_count: 0,
        no_route: e.no_route,
        wallets_to_route: e.wallets_to_route,
        wallets_only: e.wallets_only,
    }
}

/// The position of the scheduler of `ss` with url `url`.
pub open spec fn url_index(ss: Seq<Scheduler>, url: Seq<char>) -> int {
    choose|i: int| 0 <= i < ss.len() && #[trigger] ss[i].url@ == url
}

/// The registry `ss` after entry `e`: the scheduler with the entry's url
/// takes its flags, or a new one is added; `None` where the registry is full.
pub open spec fn apply_entry(ss: Seq<Scheduler>, e: SchedulerEntry) -> Option<Seq<Scheduler>> {
    if has_url(ss, e.url@) {
        let i = url_index(ss, e.url@);
        Some(ss.update(i, with_flags(ss[i], e)))
    } else if ss.len() < MAX_RECORDS {
        Some(ss.push(fresh(ss.len() as int, e)))
    } else {
        None
    }
}

/// The registry `ss` after the entries `es`, in order.
pub open spec fn reconciled(ss: Seq<Scheduler>, es: Seq<SchedulerEntry>) -> Option<Seq<Scheduler>>
    decreases es.len(),
{
    if es.len() == 0 {
        Some(ss)
    } else {
        match reconciled(ss, es.drop_last()) {
            Some(t) => apply_entry(t, es.last()),
            None => None,
        }
    }
}

proof fn lemma_reconciled_stays_none(ss: Seq<Scheduler>, es: Seq<SchedulerEntry>, k: int)
    requires
        0 <= k <= es.len(),
        reconciled(ss, es.subrange(0, k)) is None,
    ensures
        reconciled(ss, es) is None,
    decreases es.len() - k,
{
    if k < es.len() {
        let next = es.subrange(0, k + 1);
        assert(next.drop_last() =~= es.subrange(0, k));
        lemma_reconciled_stays_none(ss, es, k + 1);
    } else {
        assert(es.subrange(0, k) =~= es);
    }
}

fn clone_text(t: &Option<String>) -> (r: Option<String>)
    ensures
        r == *t,
{
    match t {
        Some(w) => Some(w.clone()),
        None => None,
    }
}

/// Brings the registry in line with the declared scheduler list `entries`:
/// each url not yet known gets a scheduler with no load, and every listed
/// scheduler takes the entry's routing flags. Loads and assignments stay.
pub fn init_schedulers(store: &mut MemoryStore, entries: &Vec<SchedulerEntry>) -> (r: Result<
    String,
    RouteError,
>)
    requires
        old(store).wf(),
    ensures
        final(store).wf(),
        final(store).assignments@ == old(store).assignments@,
        routes_kept(old(store), final(store)),
        store_grows(old(store), final(store)),
        old(store).schedulers@.len() <= final(store).schedulers@.len(),
        forall|i: int|
            0 <= i < old(store).schedulers@.len() ==> (#[trigger] final(store).schedulers@[i]).url
                == old(store).schedulers@[i].url && final(store).schedulers@[i].row_id == old(store).schedulers@[i].row_id && final(store).schedulers@[i].process_count == old(store).schedulers@[i].process_count,
        match reconciled(old(store).schedulers@, entries@) {
            Some(ss) => (r matches Ok(m) && m@ == "schedulers initialized"@) && final(store).schedulers@ == ss,
            None => (r matches Err(RouteError::StoreFailure(_))) && exists|k: int|
                0 <= k < entries@.len() && reconciled(
                    old(store).schedulers@,
                    #[trigger] entries@.subrange(0, k),
                ) == Some(final(store).schedulers@) && reconciled(
                    old(store).schedulers@,
                    entries@.subrange(0, k + 1),
                ) is None,
        },
{
    let ghost ss0 = store.schedulers@;
    let mut k: usize = 0;
    assert(entries@.subrange(0, 0) =~= Seq::<SchedulerEntry>::empty());
    while k < entries.len()
        invariant
            old(store).wf(),
            store.wf(),
            ss0 == old(store).schedulers@,
            k <= entries@.len(),
            store.assignments@ == old(store).assignments@,
            ss0.len() <= store.schedulers@.len(),
            forall|i: int|
                0 <= i < ss0.len() ==> (#[trigger] store.schedulers@[i]).url == ss0[i].url
                    && store.schedulers@[i].row_id == ss0[i].row_id
                    && store.schedulers@[i].process_count == ss0[i].process_count,
            reconciled(ss0, entries@.subrange(0, k as int)) == Some(store.schedulers@),
        decreases entries@.len() - k,
    {
        let e = &entries[k];
        let ghost pre = store.schedulers@;
        assert(entries@.subrange(0, k + 1).drop_last() =~= entries@.subrange(0, k as int));
        match store.get_scheduler_by_url(e.url.as_str()) {
            Some(i) => {
                proof {
                    let c = url_index(pre, e.url@);
                    if c != i as int {
                        assert(pre[c].url@ != pre[i as int].url@);
                    }
                }
                store.schedulers[i].no_route = e.no_route;
                store.schedulers[i].wallets_to_route = clone_text(&e.wallets_to_route);
                store.schedulers[i].wallets_only = e.wallets_only;
                assert(store.schedulers@ =~= pre.update(i as int, with_flags(pre[i as int], *e)));
                assert forall|j: int| 0 <= j < store.schedulers@.len() implies #[trigger] store.schedulers@[j].url@
                    == pre[j].url@ && store.schedulers@[j].row_id == pre[j].row_id
                    && store.schedulers@[j].process_count == pre[j].process_count by {}
            },
            None => {
                if store.schedulers.len() >= MAX_RECORDS {
                    proof {
                        lemma_reconciled_stays_none(ss0, entries@, k + 1);
                        assert(reconciled(ss0, entries@.subrange(0, k as int)) == Some(
                            store.schedulers@,
                        ));
                    }
                    return Err(RouteError::StoreFailure("scheduler registry is full".to_string()));
                }
                let n = store.schedulers.len();
                store.schedulers.push(
                    Scheduler {
                        row_id: Some((n + 1) as i32),
                        url: e.url.clone(),
                        process_count: 0,
                        no_route: e.no_route,
                        wallets_to_route: clone_text(&e.wallets_to_route),
                        wallets_only: e.wallets_only,
                    },
                );
                assert(store.schedulers@ =~= pre.push(fresh(n as int, *e)));
                assert forall|a: int, b: int|
                    0 <= a < store.schedulers@.len() && 0 <= b < store.schedulers@.len() && a != b
                        implies #[trigger] store.schedulers@[a].url@ != #[trigger] store.schedulers@[b].url@ by {
                    if a < n && b < n {
                        assert(pre[a] == store.schedulers@[a]);
                        assert(pre[b] == store.schedulers@[b]);
                    } else if a < n {
                        assert(pre[a] == store.schedulers@[a]);
                    } else {
                        assert(pre[b] == store.schedulers@[b]);
                    }
                }
                assert forall|j: int| 0 <= j < n implies #[trigger] store.schedulers@[j] == pre[j] by {}
            },
        }
        k += 1;
    }
    assert(entries@.subrange(0, k as int) =~= entries@);
    proof {
        lemma_routes_kept(old(store), store);
    }
    Ok("schedulers initialized".to_string())
}

/// No two schedulers of `ss` share a url.
pub open spec fn urls_unique(ss: Seq<Scheduler>) -> bool {
    forall|i: int, j: int|
        0 <= i < ss.len() && 0 <= j < ss.len() && i != j ==> #[trigger] ss[i].url@
            != #[trigger] ss[j].url@
}

/// The last of the entries `es` with url `url`.
pub open spec fn latest_entry(es: Seq<SchedulerEntry>, url: Seq<char>) -> Option<SchedulerEntry>
    decreases es.len(),
{
    if es.len() == 0 {
        None
    } else if es.last().url@ == url {
        Some(es.last())
    } else {
        latest_entry(es.drop_last(), url)
    }
}

/// `s` carries the routing flags of entry `e`.
pub open spec fn same_flags(s: Scheduler, e: SchedulerEntry) -> bool {
    &&& s.no_route == e.no_route
    &&& s.wallets_to_route == e.wallets_to_route
    &&& s.wallets_only == e.wallets_only
}

/// What reconciliation leaves: known schedulers keep url, identifier and
/// load; every listed url is present; a listed scheduler carries the flags
/// of the last entry with its url, and an unlisted one is untouched.
proof fn lemma_reconciled_shape(ss: Seq<Scheduler>, es: Seq<SchedulerEntry>)
    requires
        urls_unique(ss),
        reconciled(ss, es) is Some,
    ensures
        ({
            let t = reconciled(ss, es)->0;
            &&& urls_unique(t)
            &&& ss.len() <= t.len()
            &&& forall|i: int|
                0 <= i < ss.len() ==> (#[trigger] t[i]).url == ss[i].url && t[i].row_id
                    == ss[i].row_id && t[i].process_count == ss[i].process_count
            &&& forall|k: int| 0 <= k < es.len() ==> has_url(t, (#[trigger] es[k]).url@)
            &&& forall|i: int|
                0 <= i < t.len() ==> match latest_entry(es, (#[trigger] t[i]).url@) {
                    Some(e) => same_flags(t[i], e),
                    None => i < ss.len() && t[i] == ss[i],
                }
        }),
    decreases es.len(),
{
    if es.len() > 0 {
        let es1 = es.drop_last();
        let e = es.last();
        lemma_reconciled_shape(ss, es1);
        let t1 = reconciled(ss, es1)->0;
        let t = reconciled(ss, es)->0;
        if has_url(t1, e.url@) {
            let c = url_index(t1, e.url@);
            assert(t == t1.update(c, with_flags(t1[c], e)));
            assert forall|k: int| 0 <= k < es.len() implies has_url(t, (#[trigger] es[k]).url@) by {
                if k < es.len() - 1 {
                    assert(es1[k] == es[k]);
                    assert(has_url(t1, es1[k].url@));
                    let j = choose|j: int| 0 <= j < t1.len() && #[trigger] t1[j].url@ == es1[k].url@;
                    assert(t[j].url@ == t1[j].url@);
                } else {
                    assert(t[c].url@ == e.url@);
                }
            }
            assert forall|i: int| 0 <= i < t.len() implies match latest_entry(es, (#[trigger] t[i]).url@) {
                Some(x) => same_flags(t[i], x),
                None => i < ss.len() && t[i] == ss[i],
            } by {
                if i != c {
                    assert(t1[i].url@ != t1[c].url@);
                    assert(latest_entry(es, t[i].url@) == latest_entry(es1, t1[i].url@));
                }
            }
        } else {
            assert(t == t1.push(fresh(t1.len() as int, e)));
            assert forall|k: int| 0 <= k < es.len() implies has_url(t, (#[trigger] es[k]).url@) by {
                if k < es.len() - 1 {
                    assert(es1[k] == es[k]);
                    assert(has_url(t1, es1[k].url@));
                    let j = choose|j: int| 0 <= j < t1.len() && #[trigger] t1[j].url@ == es1[k].url@;
                    assert(t[j].url@ == t1[j].url@);
                } else {
                    assert(t[t1.len() as int].url@ == e.url@);
                }
            }
            assert forall|i: int| 0 <= i < t.len() implies match latest_entry(es, (#[trigger] t[i]).url@) {
                Some(x) => same_flags(t[i], x),
                None => i < ss.len() && t[i] == ss[i],
            } by {
                if i < t1.len() {
                    assert(t[i] == t1[i]);
                    assert(t1[i].url@ != e.url@);
                    assert(latest_entry(es, t[i].url@) == latest_entry(es1, t1[i].url@));
                }
            }
            assert forall|a: int, b: int|
                0 <= a < t.len() && 0 <= b < t.len() && a != b implies #[trigger] t[a].url@
                != #[trigger] t[b].url@ by {
                if a < t1.len() && b < t1.len() {
                    assert(t[a] == t1[a] && t[b] == t1[b]);
                } else if a < t1.len() {
                    assert(t[a] == t1[a]);
                } else {
                    assert(t[b] == t1[b]);
                }
            }
        }
    }
}

/// Where every listed url is already known, reconciliation adds nothing and
/// keeps every url.
proof fn lemma_reconciled_no_growth(ss: Seq<Scheduler>, es: Seq<SchedulerEntry>)
    requires
        forall|k: int| 0 <= k < es.len() ==> has_url(ss, (#[trigger] es[k]).url@),
    ensures
        reconciled(ss, es) is Some,
        reconciled(ss, es)->0.len() == ss.len(),
        forall|i: int| 0 <= i < ss.len() ==> (#[trigger] reconciled(ss, es)->0[i]).url == ss[i].url,
    decreases es.len(),
{
    if es.len() > 0 {
        let es1 = es.drop_last();
        let e = es.last();
        assert forall|k: int| 0 <= k < es1.len() implies has_url(ss, (#[trigger] es1[k]).url@) by {
            assert(es1[k] == es[k]);
        }
        lemma_reconciled_no_growth(ss, es1);
        let t1 = reconciled(ss, es1)->0;
        assert(has_url(ss, es[es.len() - 1].url@));
        let j = choose|j: int| 0 <= j < ss.len() && #[trigger] ss[j].url@ == e.url@;
        assert(t1[j].url@ == e.url@);
        assert(has_url(t1, e.url@));
        let c = url_index(t1, e.url@);
        let t = reconciled(ss, es)->0;
        assert(t == t1.update(c, with_flags(t1[c], e)));
        assert forall|i: int| 0 <= i < ss.len() implies (#[trigger] t[i]).url == ss[i].url by {
            assert(t1[i].url == ss[i].url);
        }
    }
}

/// Running the reconciliation a second time with the same list changes
/// nothing: no scheduler is added, flags stay, and loads are untouched.
pub proof fn lemma_bootstrap_idempotent(ss: Seq<Scheduler>, es: Seq<SchedulerEntry>)
    requires
        urls_unique(ss),
        reconciled(ss, es) is Some,
    ensures
        reconciled(reconciled(ss, es)->0, es) == reconciled(ss, es),
{
    lemma_reconciled_shape(ss, es);
    let t = reconciled(ss, es)->0;
    lemma_reconciled_no_growth(t, es);
    lemma_reconciled_shape(t, es);
    let t2 = reconciled(t, es)->0;
    assert forall|i: int| 0 <= i < t.len() implies #[trigger] t2[i] == t[i] by {
        assert(t2[i].url == t[i].url);
        match latest_entry(es, t[i].url@) {
            Some(x) => {
                assert(same_flags(t2[i], x));
                assert(same_flags(t[i], x));
            },
            None => {},
        }
    }
    assert(t2 =~= t);
}

} // verus!
