use vstd::prelude::*;

verus! {

/// A scheduler node known to the registry.
#[derive(Debug)]
pub struct Scheduler {
    /// Store identifier; `None` until the record is first saved.
    pub row_id: Option<i32>,
    /// Address of the scheduler; unique across the registry.
    pub url: String,
    /// Number of work units assigned to this scheduler.
    pub process_count: i32,
    /// When `Some(true)`, the scheduler takes no new work units.
    pub no_route: Option<bool>,
    /// Comma-separated owner addresses routed to this scheduler first.
    pub wallets_to_route: Option<String>,
    /// When `Some(true)`, the scheduler takes new work only by owner affinity.
    pub wallets_only: Option<bool>,
}

/// The binding of a work unit to the scheduler that owns it.
#[derive(Debug)]
pub struct ProcessScheduler {
    pub row_id: Option<i32>,
    pub process_id: String,
    pub scheduler_row_id: i32,
}

/// One entry of the declared scheduler list.
#[derive(Debug)]
pub struct SchedulerEntry {
    pub url: String,
    pub no_route: Option<bool>,
    pub wallets_to_route: Option<String>,
    pub wallets_only: Option<bool>,
}

/// A name/value tag carried by a payload.
#[derive(Debug)]
pub struct Tag {
    pub name: String,
    pub value: String,
}

/// The fields of a parsed payload that routing reads.
#[derive(Debug)]
pub struct DataItem {
    pub id: String,
    pub target: String,
    pub owner: String,
    pub tags: Vec<Tag>,
}

/// Why a routing call failed.
#[derive(Debug)]
pub enum RouteError {
    /// A required routing parameter is absent.
    MissingParameter(String),
    /// Malformed payload, bad `Type` tag, bad owner encoding or mismatched pin parameters.
    BadRequest(String),
    /// No assignment or scheduler exists for the given key.
    NotFound(String),
    /// No scheduler is left to take a new work unit.
    NoSchedulerAvailable(String),
    /// The store could not complete an operation.
    StoreFailure(String),
}

impl Scheduler {
    /// Whether new work units may be assigned to this scheduler at all.
    pub open spec fn routable(&self) -> bool {
        self.no_route != Some(true)
    }

    /// Whether this scheduler is reserved for owners it lists.
    pub open spec fn affinity_only(&self) -> bool {
        self.wallets_only == Some(true)
    }
}

} // verus!
