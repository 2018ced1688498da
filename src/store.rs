use vstd::prelude::*;
use crate::model::{ProcessScheduler, RouteError, Scheduler};

verus! {

/// The largest number of records of one kind the store holds, so that every
/// identifier fits an `i32`.
pub const MAX_RECORDS: usize = 2147483646;

/// The scheduler registry and the assignment table, held in memory.
///
/// A scheduler at position `i` has identifier `i + 1`, and so does an
/// assignment.
pub struct MemoryStore {
    pub schedulers: Vec<Scheduler>,
    pub assignments: Vec<ProcessScheduler>,
}

/// Some scheduler of `ss` has url `url`.
pub open spec fn has_url(ss: Seq<Scheduler>, url: Seq<char>) -> bool {
    exists|i: int| 0 <= i < ss.len() && #[trigger] ss[i].url@ == url
}

/// `s` with its load counter one higher.
pub open spec fn one_more(s: Scheduler) -> Scheduler {
    Scheduler {
        row_id: s.row_id,
        url: s.url,
        process_count: (s.process_count + 1) as i32,
        no_route: s.no_route,
        wallets_to_route: s.wallets_to_route,
        wallets_only: s.wallets_only,
    }
}

/// Every work unit that had a route in `pre` has the same route in `post`.
pub open spec fn routes_kept(pre: &MemoryStore, post: &MemoryStore) -> bool {
    forall|pid: Seq<char>| #[trigger] pre.route_of(pid) is Some ==> post.route_of(pid) == pre.route_of(pid)
}

/// `post` keeps everything `pre` held: no scheduler is removed or changes
/// url or identifier, no load goes down, and every assignment stays.
pub open spec fn store_grows(pre: &MemoryStore, post: &MemoryStore) -> bool {
    &&& pre.schedulers@.len() <= post.schedulers@.len()
    &&& forall|i: int|
        0 <= i < pre.schedulers@.len() ==> (#[trigger] post.schedulers@[i]).url == pre.schedulers@[i].url
            && post.schedulers@[i].row_id == pre.schedulers@[i].row_id
            && post.schedulers@[i].process_count >= pre.schedulers@[i].process_count
    &&& pre.assignments@.len() <= post.assignments@.len()
    &&& forall|k: int| 0 <= k < pre.assignments@.len() ==> #[trigger] post.assignments@[k] == pre.assignments@[k]
}

/// Sticky routing: across any change that keeps what the store held, every
/// work unit that had a route keeps it.
pub proof fn lemma_sticky_routing(pre: &MemoryStore, post: &MemoryStore)
    requires
        pre.wf(),
        post.wf(),
        store_grows(pre, post),
    ensures
        routes_kept(pre, post),
{
    lemma_routes_kept(pre, post);
}

/// Keeping what the store held carries over a chain of changes.
pub proof fn lemma_store_grows_chain(a: &MemoryStore, b: &MemoryStore, c: &MemoryStore)
    requires
        store_grows(a, b),
        store_grows(b, c),
    ensures
        store_grows(a, c),
{
    assert forall|i: int| 0 <= i < a.schedulers@.len() implies (#[trigger] c.schedulers@[i]).url
        == a.schedulers@[i].url && c.schedulers@[i].row_id == a.schedulers@[i].row_id
        && c.schedulers@[i].process_count >= a.schedulers@[i].process_count by {
        assert(b.schedulers@[i].url == a.schedulers@[i].url);
    }
    assert forall|k: int| 0 <= k < a.assignments@.len() implies #[trigger] c.assignments@[k] == a.assignments@[k] by {
        assert(b.assignments@[k] == a.assignments@[k]);
    }
}

/// Routes once given stay: keeping routes carries over a chain of changes.
pub proof fn lemma_routes_kept_chain(a: &MemoryStore, b: &MemoryStore, c: &MemoryStore)
    requires
        routes_kept(a, b),
        routes_kept(b, c),
    ensures
        routes_kept(a, c),
{
    assert forall|pid: Seq<char>| #[trigger] a.route_of(pid) is Some implies c.route_of(pid) == a.route_of(pid) by {
        assert(b.route_of(pid) == a.route_of(pid));
    }
}

/// Routes survive any change that appends assignments and keeps the urls of
/// existing schedulers.
pub proof fn lemma_routes_kept(pre: &MemoryStore, post: &MemoryStore)
    requires
        pre.wf(),
        post.wf(),
        pre.assignments@.len() <= post.assignments@.len(),
        forall|k: int| 0 <= k < pre.assignments@.len() ==> #[trigger] post.assignments@[k] == pre.assignments@[k],
        pre.schedulers@.len() <= post.schedulers@.len(),
        forall|i: int| 0 <= i < pre.schedulers@.len() ==> #[trigger] post.schedulers@[i].url@ == pre.schedulers@[i].url@,
    ensures
        routes_kept(pre, post),
{
    assert forall|pid: Seq<char>| #[trigger] pre.route_of(pid) is Some implies post.route_of(pid) == pre.route_of(pid) by {
        let k = pre.assignment_index(pid);
        assert(post.assignments@[k] == pre.assignments@[k]);
        assert(post.assignments@[k].process_id@ == pid);
        let k2 = post.assignment_index(pid);
        if k2 != k {
            assert(post.assignments@[k2].process_id@ != post.assignments@[k].process_id@);
        }
        let row = pre.assignments@[k].scheduler_row_id;
        assert(post.schedulers@[row - 1].url@ == pre.schedulers@[row - 1].url@);
    }
}

impl MemoryStore {
    pub open spec fn wf(&self) -> bool {
        &&& self.schedulers@.len() <= MAX_RECORDS
        &&& self.assignments@.len() <= MAX_RECORDS
        &&& forall|i: int|
            0 <= i < self.schedulers@.len() ==> #[trigger] self.schedulers@[i].row_id == Some(
                (i + 1) as i32,
            )
        &&& forall|i: int|
            0 <= i < self.schedulers@.len() ==> #[trigger] self.schedulers@[i].process_count >= 0
        &&& forall|i: int, j: int|
            0 <= i < self.schedulers@.len() && 0 <= j < self.schedulers@.len() && i != j
                ==> #[trigger] self.schedulers@[i].url@ != #[trigger] self.schedulers@[j].url@
        &&& forall|k: int|
            0 <= k < self.assignments@.len() ==> #[trigger] self.assignments@[k].row_id == Some(
                (k + 1) as i32,
            )
        &&& forall|k: int|
            0 <= k < self.assignments@.len() ==> 1 <= #[trigger] self.assignments@[k].scheduler_row_id
                <= self.schedulers@.len()
        &&& forall|k: int, l: int|
            0 <= k < self.assignments@.len() && 0 <= l < self.assignments@.len() && k != l
                ==> #[trigger] self.assignments@[k].process_id@
                != #[trigger] self.assignments@[l].process_id@
    }

    /// Whether work unit `pid` has an assignment.
    pub open spec fn has_assignment(&self, pid: Seq<char>) -> bool {
        exists|k: int|
            0 <= k < self.assignments@.len() && #[trigger] self.assignments@[k].process_id@ == pid
    }

    /// The position of the assignment of `pid`, where there is one.
    pub open spec fn assignment_index(&self, pid: Seq<char>) -> int {
        choose|k: int|
            0 <= k < self.assignments@.len() && #[trigger] self.assignments@[k].process_id@ == pid
    }

    /// The url of the scheduler that work unit `pid` is assigned to.
    pub open spec fn route_of(&self, pid: Seq<char>) -> Option<Seq<char>> {
        if self.has_assignment(pid) {
            let k = self.assignment_index(pid);
            Some(self.schedulers@[self.assignments@[k].scheduler_row_id - 1].url@)
        } else {
            None
        }
    }

    /// An empty registry and assignment table.
    pub fn new() -> (r: MemoryStore)
        ensures
            r.wf(),
            r.schedulers@.len() == 0,
            r.assignments@.len() == 0,
    {
        MemoryStore { schedulers: Vec::new(), assignments: Vec::new() }
    }

    /// The position of the assignment of `pid`.
    pub fn get_process_scheduler(&self, pid: &str) -> (r: Option<usize>)
        requires
            self.wf(),
        ensures
            r is Some <==> self.has_assignment(pid@),
            r matches Some(k) ==> k < self.assignments@.len() && k == self.assignment_index(
                pid@,
            ) && self.assignments@[k as int].process_id@ == pid@,
    {
        let mut k: usize = 0;
        while k < self.assignments.len()
            invariant
                self.wf(),
                k <= self.assignments@.len(),
                forall|l: int| 0 <= l < k ==> #[trigger] self.assignments@[l].process_id@ != pid@,
            decreases self.assignments@.len() - k,
        {
            if crate::text::str_eq(self.assignments[k].process_id.as_str(), pid) {
                assert(self.assignments@[k as int].process_id@ == pid@);
                let ghost c = self.assignment_index(pid@);
                assert(self.assignments@[c].process_id@ == pid@);
                proof {
                    if c != k as int {
                        assert(self.assignments@[c].process_id@
                            != self.assignments@[k as int].process_id@);
                    }
                }
                return Some(k);
            }
            k += 1;
        }
        None
    }

    /// The url of the scheduler that work unit `pid` is assigned to.
    pub fn lookup_route(&self, pid: &str) -> (r: Option<String>)
        requires
            self.wf(),
        ensures
            r matches Some(u) ==> self.route_of(pid@) == Some(u@),
            r is None ==> self.route_of(pid@) is None,
    {
        match self.get_process_scheduler(pid) {
            Some(k) => {
                let row = self.assignments[k].scheduler_row_id;
                let i = (row - 1) as usize;
                Some(self.schedulers[i].url.clone())
            },
            None => None,
        }
    }

    /// The position of the scheduler whose url is `url`.
    pub fn get_scheduler_by_url(&self, url: &str) -> (r: Option<usize>)
        requires
            self.wf(),
        ensures
            r is Some <==> has_url(self.schedulers@, url@),
            r matches Some(i) ==> i < self.schedulers@.len() && self.schedulers@[i as int].url@
                == url@,
    {
        let mut i: usize = 0;
        while i < self.schedulers.len()
            invariant
                i <= self.schedulers@.len(),
                forall|l: int| 0 <= l < i ==> #[trigger] self.schedulers@[l].url@ != url@,
            decreases self.schedulers@.len() - i,
        {
            if crate::text::str_eq(self.schedulers[i].url.as_str(), url) {
                return Some(i);
            }
            i += 1;
        }
        None
    }

    /// Adds one to the load counter of the scheduler at position `i`.
    pub fn bump_load(&mut self, i: usize) -> (r: Result<(), RouteError>)
        requires
            old(self).wf(),
            i < old(self).schedulers@.len(),
        ensures
            final(self).wf(),
            final(self).assignments@ == old(self).assignments@,
            r is Ok <==> old(self).schedulers@[i as int].process_count < i32::MAX,
            r is Ok ==> final(self).schedulers@ == old(self).schedulers@.update(
                i as int,
                one_more(old(self).schedulers@[i as int]),
            ),
            r is Err ==> (r matches Err(RouteError::StoreFailure(_))) && *final(self) == *old(self),
    {
        let c = self.schedulers[i].process_count;
        if c == i32::MAX {
            return Err(RouteError::StoreFailure("load counter is at its limit".to_string()));
        }
        self.schedulers[i].process_count = c + 1;
        assert(self.schedulers@ =~= old(self).schedulers@.update(
            i as int,
            one_more(old(self).schedulers@[i as int]),
        ));
        assert forall|j: int| 0 <= j < self.schedulers@.len() implies #[trigger] self.schedulers@[j].url@
            == old(self).schedulers@[j].url@ && self.schedulers@[j].row_id == old(
            self,
        ).schedulers@[j].row_id && self.schedulers@[j].process_count >= 0 by {
            assert(old(self).schedulers@[j].process_count >= 0);
        }
        Ok(())
    }

    /// Records that work unit `pid` belongs to the scheduler with identifier `row`.
    pub fn save_process_scheduler(&mut self, pid: String, row: i32) -> (r: Result<(), RouteError>)
        requires
            old(self).wf(),
            1 <= row <= old(self).schedulers@.len(),
        ensures
            final(self).wf(),
            final(self).schedulers@ == old(self).schedulers@,
            r is Ok <==> !old(self).has_assignment(pid@) && old(self).assignments@.len()
                < MAX_RECORDS,
            r is Ok ==> final(self).assignments@ == old(self).assignments@.push(
                ProcessScheduler {
                    row_id: Some((old(self).assignments@.len() + 1) as i32),
                    process_id: pid,
                    scheduler_row_id: row,
                },
            ),
            r is Err ==> (r matches Err(RouteError::StoreFailure(_))) && *final(self) == *old(self),
    {
        if self.get_process_scheduler(pid.as_str()).is_some() {
            return Err(RouteError::StoreFailure("work unit is already assigned".to_string()));
        }
        if self.assignments.len() >= MAX_RECORDS {
            return Err(RouteError::StoreFailure("assignment table is full".to_string()));
        }
        let id = (self.assignments.len() + 1) as i32;
        let ghost pre = self.assignments@;
        self.assignments.push(ProcessScheduler { row_id: Some(id), process_id: pid, scheduler_row_id: row });
        assert forall|k: int, l: int|
            0 <= k < self.assignments@.len() && 0 <= l < self.assignments@.len() && k != l
                implies #[trigger] self.assignments@[k].process_id@
                != #[trigger] self.assignments@[l].process_id@ by {
            if k < pre.len() && l < pre.len() {
                assert(pre[k] == self.assignments@[k]);
                assert(pre[l] == self.assignments@[l]);
            } else if k < pre.len() {
                assert(pre[k] == self.assignments@[k]);
            } else {
                assert(pre[l] == self.assignments@[l]);
            }
        }
        Ok(())
    }
}

} // verus!
