use vstd::prelude::*;
use crate::model::{ProcessScheduler, RouteError, Scheduler};
use crate::store::{MemoryStore, MAX_RECORDS, one_more, routes_kept, store_grows, lemma_routes_kept};
use crate::text::{lists_address, list_contains_address};

verus! {

/// `s` takes new work and lists the owner address `addr` among its affinity owners.
pub open spec fn affinity_match(s: Scheduler, addr: Seq<char>) -> bool {
    s.routable() && match s.wallets_to_route {
        Some(w) => lists_address(w@, addr),
        None => false,
    }
}

/// `ss[i]` is the first scheduler, in registry order, with affinity for `addr`.
pub open spec fn first_affinity(ss: Seq<Scheduler>, addr: Seq<char>, i: int) -> bool {
    &&& 0 <= i < ss.len()
    &&& affinity_match(ss[i], addr)
    &&& forall|j: int| 0 <= j < i ==> !affinity_match(#[trigger] ss[j], addr)
}

/// No scheduler has affinity for `addr`.
pub open spec fn no_affinity(ss: Seq<Scheduler>, addr: Seq<char>) -> bool {
    forall|j: int| 0 <= j < ss.len() ==> !affinity_match(#[trigger] ss[j], addr)
}

/// `s` may take new work through least-load selection.
pub open spec fn candidate(s: Scheduler) -> bool {
    s.routable() && !s.affinity_only()
}

/// Some scheduler may take new work through least-load selection.
pub open spec fn any_candidate(ss: Seq<Scheduler>) -> bool {
    exists|j: int| 0 <= j < ss.len() && candidate(#[trigger] ss[j])
}

/// `ss[i]` is the first candidate with the smallest load.
pub open spec fn least_loaded(ss: Seq<Scheduler>, i: int) -> bool {
    &&& 0 <= i < ss.len()
    &&& candidate(ss[i])
    &&& forall|j: int|
        0 <= j < ss.len() && candidate(#[trigger] ss[j]) ==> ss[i].process_count
            <= ss[j].process_count
    &&& forall|j: int|
        0 <= j < i && candidate(#[trigger] ss[j]) ==> ss[i].process_count < ss[j].process_count
}

/// `ss[i]` is where a new work unit of owner `addr` goes: the first affinity
/// scheduler, or failing one the least-loaded candidate.
pub open spec fn selected(ss: Seq<Scheduler>, addr: Seq<char>, i: int) -> bool {
    first_affinity(ss, addr, i) || (no_affinity(ss, addr) && least_loaded(ss, i))
}

/// The position of the scheduler a new work unit of owner `addr` goes to.
pub open spec fn selection(ss: Seq<Scheduler>, addr: Seq<char>) -> Option<int> {
    if exists|i: int| selected(ss, addr, i) {
        Some(choose|i: int| selected(ss, addr, i))
    } else {
        None
    }
}

/// At most one scheduler is selected.
pub proof fn lemma_selected_unique(ss: Seq<Scheduler>, addr: Seq<char>, i: int, k: int)
    requires
        selected(ss, addr, i),
        selected(ss, addr, k),
    ensures
        i == k,
{
    if i < k {
        assert(!affinity_match(ss[i], addr) || !first_affinity(ss, addr, k));
        if least_loaded(ss, k) {
            assert(candidate(ss[i]));
        }
    } else if k < i {
        assert(!affinity_match(ss[k], addr) || !first_affinity(ss, addr, i));
        if least_loaded(ss, i) {
            assert(candidate(ss[k]));
        }
    }
}

/// The selection is the one selected scheduler.
pub proof fn lemma_selection_is(ss: Seq<Scheduler>, addr: Seq<char>, i: int)
    requires
        selected(ss, addr, i),
    ensures
        selection(ss, addr) == Some(i),
{
    let c = choose|c: int| selected(ss, addr, c);
    lemma_selected_unique(ss, addr, i, c);
}

/// Binding work unit `id` to the scheduler at position `i` can be recorded.
pub open spec fn can_record(store: &MemoryStore, id: Seq<char>, i: int) -> bool {
    &&& !store.has_assignment(id)
    &&& store.assignments@.len() < MAX_RECORDS
    &&& store.schedulers@[i].process_count < i32::MAX
}

/// `post` is `pre` with the load of scheduler `i` raised by one and work unit
/// `id` assigned to it.
pub open spec fn assigned_to(pre: &MemoryStore, post: &MemoryStore, id: String, i: int) -> bool {
    &&& post.schedulers@ == pre.schedulers@.update(i, one_more(pre.schedulers@[i]))
    &&& post.assignments@ == pre.assignments@.push(
        ProcessScheduler {
            row_id: Some((pre.assignments@.len() + 1) as i32),
            process_id: id,
            scheduler_row_id: (i + 1) as i32,
        },
    )
}

/// The outcome `r` of placing new work unit `id` of owner `addr`, which turned
/// store `pre` into `post`: nothing changes where no scheduler is selected or
/// the assignment cannot be recorded; otherwise the selected scheduler takes
/// one more unit, `id` is bound to it, and its url comes back.
pub open spec fn placed(
    pre: &MemoryStore,
    post: &MemoryStore,
    id: String,
    addr: Seq<char>,
    r: Result<String, RouteError>,
) -> bool {
    &&& post.wf()
    &&& routes_kept(pre, post)
    &&& store_grows(pre, post)
    &&& (r matches Err(RouteError::NoSchedulerAvailable(_))) <==> (no_affinity(pre.schedulers@, addr)
        && !any_candidate(pre.schedulers@))
    &&& match selection(pre.schedulers@, addr) {
        None => (r matches Err(RouteError::NoSchedulerAvailable(_))) && *post == *pre,
        Some(i) => if can_record(pre, id@, i) {
            r == Ok::<String, RouteError>(pre.schedulers@[i].url) && assigned_to(pre, post, id, i)
        } else {
            (r matches Err(RouteError::StoreFailure(_))) && *post == *pre
        },
    }
}

/// Assigns work unit `id` to the scheduler at position `i` and returns its url.
fn record_assignment(store: &mut MemoryStore, i: usize, id: String) -> (r: Result<String, RouteError>)
    requires
        old(store).wf(),
        i < old(store).schedulers@.len(),
    ensures
        final(store).wf(),
        routes_kept(old(store), final(store)),
        store_grows(old(store), final(store)),
        can_record(old(store), id@, i as int) ==> r == Ok::<String, RouteError>(
            old(store).schedulers@[i as int].url,
        ) && assigned_to(old(store), final(store), id, i as int),
        !can_record(old(store), id@, i as int) ==> (r matches Err(RouteError::StoreFailure(_)))
            && *final(store) == *old(store),
{
    if store.get_process_scheduler(id.as_str()).is_some() {
        return Err(RouteError::StoreFailure("work unit is already assigned".to_string()));
    }
    if store.assignments.len() >= MAX_RECORDS {
        return Err(RouteError::StoreFailure("assignment table is full".to_string()));
    }
    let ghost pre = *store;
    match store.bump_load(i) {
        Ok(()) => {},
        Err(e) => {
            return Err(e);
        },
    }
    let row_id = match store.schedulers[i].row_id {
        Some(r) => r,
        None => {
            return Err(RouteError::StoreFailure("missing id on scheduler".to_string()));
        },
    };
    let ghost mid = *store;
    assert(!mid.has_assignment(id@)) by {
        assert(mid.assignments@ == pre.assignments@);
    }
    let saved = store.save_process_scheduler(id, row_id);
    assert(saved is Ok);
    proof {
        lemma_routes_kept(&pre, store);
    }
    Ok(store.schedulers[i].url.clone())
}

/// Whether `s` takes new work and lists `addr` among its affinity owners.
fn has_affinity(s: &Scheduler, addr: &str) -> (r: bool)
    ensures
        r == affinity_match(*s, addr@),
{
    let routable = match s.no_route {
        Some(b) => !b,
        None => true,
    };
    if !routable {
        return false;
    }
    match &s.wallets_to_route {
        Some(w) => list_contains_address(w.as_str(), addr),
        None => false,
    }
}

/// Whether `s` may take new work through least-load selection.
fn is_candidate(s: &Scheduler) -> (r: bool)
    ensures
        r == candidate(*s),
{
    let routable = match s.no_route {
        Some(b) => !b,
        None => true,
    };
    let only = match s.wallets_only {
        Some(b) => b,
        None => false,
    };
    routable && !only
}

/// Assigns the new work unit `id`, whose owner address is `owner_address`,
/// to a scheduler: the first that lists the owner among its affinity owners,
/// or else the least-loaded scheduler that is neither disabled nor reserved
/// for affinity. Returns the url of that scheduler.
pub fn route_new_process(store: &mut MemoryStore, id: String, owner_address: &str) -> (r: Result<
    String,
    RouteError,
>)
    requires
        old(store).wf(),
    ensures
        placed(old(store), final(store), id, owner_address@, r),
{
    let ghost ss = store.schedulers@;
    let ghost addr = owner_address@;
    let n = store.schedulers.len();
    let mut i: usize = 0;
    while i < n
        invariant
            store.wf(),
            *store == *old(store),
            ss == store.schedulers@,
            addr == owner_address@,
            n == ss.len(),
            i <= n,
            forall|j: int| 0 <= j < i ==> !affinity_match(#[trigger] ss[j], addr),
        decreases n - i,
    {
        if has_affinity(&store.schedulers[i], owner_address) {
            proof {
                assert(first_affinity(ss, addr, i as int));
                assert(!no_affinity(ss, addr));
                lemma_selection_is(ss, addr, i as int);
            }
            return record_assignment(store, i, id);
        }
        i += 1;
    }
    assert(no_affinity(ss, addr));
    let mut best: usize = 0;
    let mut found = false;
    let mut k: usize = 0;
    while k < n
        invariant
            store.wf(),
            *store == *old(store),
            ss == store.schedulers@,
            n == ss.len(),
            k <= n,
            found ==> best < k && candidate(ss[best as int]) && (forall|j: int|
                0 <= j < k && candidate(#[trigger] ss[j]) ==> ss[best as int].process_count
                    <= ss[j].process_count) && (forall|j: int|
                0 <= j < best && candidate(#[trigger] ss[j]) ==> ss[best as int].process_count
                    < ss[j].process_count),
            !found ==> forall|j: int| 0 <= j < k ==> !candidate(#[trigger] ss[j]),
        decreases n - k,
    {
        if is_candidate(&store.schedulers[k]) {
            if !found || store.schedulers[k].process_count < store.schedulers[best].process_count {
                best = k;
                found = true;
            }
        }
        k += 1;
    }
    if !found {
        proof {
            if exists|c: int| selected(ss, addr, c) {
                let c = choose|c: int| selected(ss, addr, c);
                if first_affinity(ss, addr, c) {
                    assert(!affinity_match(ss[c], addr));
                } else {
                    assert(candidate(ss[c]));
                }
            }
            assert(selection(ss, addr) is None);
            assert(routes_kept(old(store), store));
            assert(store_grows(old(store), store));
        }
        return Err(RouteError::NoSchedulerAvailable("could not find a scheduler to assign".to_string()));
    }
    proof {
        assert(least_loaded(ss, best as int));
        lemma_selection_is(ss, addr, best as int);
    }
    record_assignment(store, best, id)
}

/// A scheduler that alone has affinity for an owner gets that owner's new
/// work units, whatever the loads.
pub proof fn lemma_affinity_precedence(ss: Seq<Scheduler>, addr: Seq<char>, i: int)
    requires
        0 <= i < ss.len(),
        affinity_match(ss[i], addr),
        forall|j: int| 0 <= j < ss.len() && j != i ==> !affinity_match(#[trigger] ss[j], addr),
    ensures
        selection(ss, addr) == Some(i),
{
    assert(first_affinity(ss, addr, i));
    lemma_selection_is(ss, addr, i);
}

/// A scheduler reserved for affinity never gets a work unit of an owner it
/// does not list, whatever the loads.
pub proof fn lemma_affinity_only_excluded(ss: Seq<Scheduler>, addr: Seq<char>, i: int)
    requires
        0 <= i < ss.len(),
        ss[i].affinity_only(),
        !affinity_match(ss[i], addr),
    ensures
        selection(ss, addr) != Some(i),
{
    if selection(ss, addr) == Some(i) {
        assert(selected(ss, addr, i));
    }
}

/// A work unit that was just placed routes to the scheduler it was placed
/// on, through exactly one new assignment.
pub proof fn lemma_placed_then_routed(
    pre: &MemoryStore,
    post: &MemoryStore,
    id: String,
    addr: Seq<char>,
    u: String,
)
    requires
        pre.wf(),
        placed(pre, post, id, addr, Ok(u)),
    ensures
        post.route_of(id@) == Some(u@),
        post.assignments@.len() == pre.assignments@.len() + 1,
{
    let i = selection(pre.schedulers@, addr)->0;
    assert(selected(pre.schedulers@, addr, i));
    let k = pre.assignments@.len() as int;
    assert(post.assignments@[k].process_id@ == id@);
    let c = post.assignment_index(id@);
    if c != k {
        assert(post.assignments@[c].process_id@ != post.assignments@[k].process_id@);
    }
    assert(post.schedulers@[i].url == pre.schedulers@[i].url);
}

/// A new work unit of an owner whom one scheduler alone lists goes to that
/// scheduler, whatever the loads, where the store can record it; it then
/// routes there.
pub proof fn lemma_affinity_round_trip(
    pre: &MemoryStore,
    post: &MemoryStore,
    id: String,
    addr: Seq<char>,
    r: Result<String, RouteError>,
    i: int,
)
    requires
        pre.wf(),
        placed(pre, post, id, addr, r),
        0 <= i < pre.schedulers@.len(),
        affinity_match(pre.schedulers@[i], addr),
        forall|j: int|
            0 <= j < pre.schedulers@.len() && j != i ==> !affinity_match(
                #[trigger] pre.schedulers@[j],
                addr,
            ),
        can_record(pre, id@, i),
    ensures
        r == Ok::<String, RouteError>(pre.schedulers@[i].url),
        post.schedulers@[i].process_count == pre.schedulers@[i].process_count + 1,
        post.assignments@.len() == pre.assignments@.len() + 1,
        post.assignments@.last().process_id == id,
        post.assignments@.last().scheduler_row_id == i + 1,
        post.route_of(id@) == Some(pre.schedulers@[i].url@),
{
    lemma_affinity_precedence(pre.schedulers@, addr, i);
    lemma_placed_then_routed(pre, post, id, addr, pre.schedulers@[i].url);
}

/// A scheduler reserved for affinity, which does not list the owner, gains
/// neither load nor the work unit.
pub proof fn lemma_affinity_only_untouched(
    pre: &MemoryStore,
    post: &MemoryStore,
    id: String,
    addr: Seq<char>,
    r: Result<String, RouteError>,
    i: int,
)
    requires
        pre.wf(),
        placed(pre, post, id, addr, r),
        0 <= i < pre.schedulers@.len(),
        pre.schedulers@[i].affinity_only(),
        !affinity_match(pre.schedulers@[i], addr),
    ensures
        r != Ok::<String, RouteError>(pre.schedulers@[i].url),
        post.schedulers@[i] == pre.schedulers@[i],
        forall|k: int|
            pre.assignments@.len() <= k < post.assignments@.len() ==> (#[trigger] post.assignments@[k]).scheduler_row_id
                != i + 1,
{
    lemma_affinity_only_excluded(pre.schedulers@, addr, i);
    match selection(pre.schedulers@, addr) {
        Some(c) => {
            assert(selected(pre.schedulers@, addr, c));
            if can_record(pre, id@, c) {
                assert(pre.schedulers@[c].url@ != pre.schedulers@[i].url@);
            }
        },
        None => {},
    }
}

} // verus!
