use vstd::prelude::*;
use crate::address::{owner_address, owner_address_of};
use crate::model::{DataItem, RouteError, Tag};
use crate::select::{placed, route_new_process};
use crate::store::{MemoryStore, routes_kept, store_grows};
use crate::text::str_eq;

verus! {

/// The operating mode in which routing is active.
pub open spec fn is_router(mode: Seq<char>) -> bool {
    mode == seq!['r', 'o', 'u', 't', 'e', 'r']
}

/// A tag name that marks the payload's type.
pub open spec fn is_type_name(name: Seq<char>) -> bool {
    name == seq!['T', 'y', 'p', 'e'] || name == seq!['t', 'y', 'p', 'e']
}

/// The payload type that asks for a new work unit.
pub open spec fn is_process_type(value: Seq<char>) -> bool {
    value == seq!['P', 'r', 'o', 'c', 'e', 's', 's']
}

/// The payload type addressed to an existing work unit.
pub open spec fn is_message_type(value: Seq<char>) -> bool {
    value == seq!['M', 'e', 's', 's', 'a', 'g', 'e']
}

/// `tags[i]` is the first tag that names the payload's type.
pub open spec fn first_type_tag(tags: Seq<Tag>, i: int) -> bool {
    &&& 0 <= i < tags.len()
    &&& is_type_name(tags[i].name@)
    &&& forall|j: int| 0 <= j < i ==> !is_type_name(#[trigger] tags[j].name@)
}

/// The value of the first tag that names the payload's type.
pub open spec fn type_tag(tags: Seq<Tag>) -> Option<Seq<char>> {
    if exists|i: int| first_type_tag(tags, i) {
        Some(tags[choose|i: int| first_type_tag(tags, i)].value@)
    } else {
        None
    }
}

/// The answer of a lookup of work unit `pid`: its scheduler's url, or
/// `NotFound`.
pub open spec fn lookup_answer(store: &MemoryStore, pid: Seq<char>, r: Result<Option<String>, RouteError>) -> bool {
    match store.route_of(pid) {
        Some(u) => r matches Ok(Some(s)) && s@ == u,
        None => r matches Err(RouteError::NotFound(_)),
    }
}

/// The same outcome, with a url wrapped as a redirect.
pub open spec fn as_redirect(r: Result<String, RouteError>) -> Result<Option<String>, RouteError> {
    match r {
        Ok(u) => Ok(Some(u)),
        Err(e) => Err(e),
    }
}

fn router_mode(mode: &str) -> (r: bool)
    ensures
        r == is_router(mode@),
{
    proof {
        reveal_strlit("router");
        assert("router"@ =~= seq!['r', 'o', 'u', 't', 'e', 'r']);
    }
    str_eq(mode, "router")
}

fn is_type_tag_name(name: &str) -> (r: bool)
    ensures
        r == is_type_name(name@),
{
    proof {
        reveal_strlit("Type");
        reveal_strlit("type");
        assert("Type"@ =~= seq!['T', 'y', 'p', 'e']);
        assert("type"@ =~= seq!['t', 'y', 'p', 'e']);
    }
    str_eq(name, "Type") || str_eq(name, "type")
}

/// The position of the first tag that names the payload's type.
pub fn find_type_tag(tags: &Vec<Tag>) -> (r: Option<usize>)
    ensures
        match r {
            Some(i) => first_type_tag(tags@, i as int) && type_tag(tags@) == Some(
                tags@[i as int].value@,
            ),
            None => type_tag(tags@) is None,
        },
{
    let mut i: usize = 0;
    while i < tags.len()
        invariant
            i <= tags@.len(),
            forall|j: int| 0 <= j < i ==> !is_type_name(#[trigger] tags@[j].name@),
        decreases tags@.len() - i,
    {
        if is_type_tag_name(tags[i].name.as_str()) {
            proof {
                assert(first_type_tag(tags@, i as int));
                let c = choose|c: int| first_type_tag(tags@, c);
                if c < i {
                    assert(!is_type_name(tags@[c].name@));
                } else if c > i {
                    assert(!is_type_name(tags@[i as int].name@));
                }
            }
            return Some(i);
        }
        i += 1;
    }
    None
}

/// The url of the scheduler that work unit `pid` is assigned to, as a redirect.
fn lookup(store: &MemoryStore, pid: &str) -> (r: Result<Option<String>, RouteError>)
    requires
        store.wf(),
    ensures
        lookup_answer(store, pid@, r),
{
    match store.lookup_route(pid) {
        Some(u) => Ok(Some(u)),
        None => Err(RouteError::NotFound("unable to locate scheduler for process-id".to_string())),
    }
}

/// Where requests about work unit `process_id` go: nowhere outside router
/// mode, else the scheduler the unit is assigned to.
pub fn redirect_process_id(store: &MemoryStore, mode: &str, process_id: Option<String>) -> (r:
    Result<Option<String>, RouteError>)
    requires
        store.wf(),
    ensures
        !is_router(mode@) ==> r == Ok::<Option<String>, RouteError>(None),
        is_router(mode@) ==> match process_id {
            None => r matches Err(RouteError::MissingParameter(_)),
            Some(p) => lookup_answer(store, p@, r),
        },
{
    if !router_mode(mode) {
        return Ok(None);
    }
    match process_id {
        None => Err(RouteError::MissingParameter("no process-id query parameter provided".to_string())),
        Some(p) => lookup(store, p.as_str()),
    }
}

/// Where requests about transaction `tx_id` go: nowhere outside router mode,
/// else the scheduler of work unit `tx_id` where it is one, and otherwise the
/// scheduler of `process_id`.
pub fn redirect_tx_id(store: &MemoryStore, mode: &str, tx_id: String, process_id: Option<String>) -> (r:
    Result<Option<String>, RouteError>)
    requires
        store.wf(),
    ensures
        !is_router(mode@) ==> r == Ok::<Option<String>, RouteError>(None),
        is_router(mode@) ==> if store.has_assignment(tx_id@) {
            lookup_answer(store, tx_id@, r)
        } else {
            match process_id {
                None => r matches Err(RouteError::MissingParameter(m)) && m@
                    == "Unable to locate process, if this is a message id query be sure to pass the process-id query parameter"@,
                Some(p) => lookup_answer(store, p@, r),
            }
        },
{
    if !router_mode(mode) {
        return Ok(None);
    }
    if store.get_process_scheduler(tx_id.as_str()).is_some() {
        return lookup(store, tx_id.as_str());
    }
    match process_id {
        None => Err(
            RouteError::MissingParameter(
                "Unable to locate process, if this is a message id query be sure to pass the process-id query parameter".to_string(),
            ),
        ),
        Some(p) => lookup(store, p.as_str()),
    }
}

/// `placed`, for an outcome given as a redirect.
pub open spec fn placed_redirect(
    pre: &MemoryStore,
    post: &MemoryStore,
    id: String,
    addr: Seq<char>,
    r: Result<Option<String>, RouteError>,
) -> bool {
    match r {
        Ok(Some(u)) => placed(pre, post, id, addr, Ok(u)),
        Ok(None) => false,
        Err(e) => placed(pre, post, id, addr, Err(e)),
    }
}

/// The outcome `r` of routing a payload of type `kind` with identifier `id`,
/// target `target` and owner address `addr`, which turned `pre` into `post`.
pub open spec fn typed_outcome(
    pre: &MemoryStore,
    post: &MemoryStore,
    kind: Seq<char>,
    id: String,
    target: Seq<char>,
    addr: Seq<char>,
    r: Result<Option<String>, RouteError>,
) -> bool {
    if is_process_type(kind) {
        placed_redirect(pre, post, id, addr, r)
    } else if is_message_type(kind) {
        *post == *pre && match pre.route_of(target) {
            Some(u) => r matches Ok(Some(s)) && s@ == u,
            None => r matches Err(RouteError::NotFound(_)),
        }
    } else {
        *post == *pre && (r matches Err(RouteError::BadRequest(_)))
    }
}

/// Routes a payload of type `kind`: a new work unit `id` of the owner with
/// address `owner_address` is placed on a scheduler, a message goes to the
/// scheduler of its `target`, and any other type is refused.
pub fn route_typed_item(
    store: &mut MemoryStore,
    kind: &str,
    id: String,
    target: &str,
    owner_address: &str,
) -> (r: Result<Option<String>, RouteError>)
    requires
        old(store).wf(),
    ensures
        final(store).wf(),
        routes_kept(old(store), final(store)),
        store_grows(old(store), final(store)),
        typed_outcome(old(store), final(store), kind@, id, target@, owner_address@, r),
{
    proof {
        reveal_strlit("Process");
        reveal_strlit("Message");
        assert("Process"@ =~= seq!['P', 'r', 'o', 'c', 'e', 's', 's']);
        assert("Message"@ =~= seq!['M', 'e', 's', 's', 'a', 'g', 'e']);
    }
    assert(routes_kept(old(store), store));
    assert(store_grows(old(store), store));
    if str_eq(kind, "Process") {
        match route_new_process(store, id, owner_address) {
            Ok(u) => Ok(Some(u)),
            Err(e) => Err(e),
        }
    } else if str_eq(kind, "Message") {
        match store.lookup_route(target) {
            Some(u) => Ok(Some(u)),
            None => Err(RouteError::NotFound("unable to locate scheduler for message target".to_string())),
        }
    } else {
        Err(RouteError::BadRequest("cannot redirect data item, invalid Type Tag".to_string()))
    }
}

/// Where a payload goes: nowhere outside router mode; for a pinned request
/// (`process_id` and `assign` both given) the scheduler of `process_id`;
/// otherwise by the payload's `Type` tag, given the parsed `item`.
pub fn redirect_data_item(
    store: &mut MemoryStore,
    mode: &str,
    item: Result<DataItem, String>,
    process_id: Option<String>,
    assign: Option<String>,
) -> (r: Result<Option<String>, RouteError>)
    requires
        old(store).wf(),
    ensures
        final(store).wf(),
        routes_kept(old(store), final(store)),
        store_grows(old(store), final(store)),
        !is_router(mode@) ==> r == Ok::<Option<String>, RouteError>(None) && *final(store) == *old(
            store,
        ),
        is_router(mode@) && (process_id is Some) != (assign is Some) ==> (r matches Err(
            RouteError::BadRequest(_),
        )) && *final(store) == *old(store),
        is_router(mode@) && process_id is Some && assign is Some ==> *final(store) == *old(store)
            && lookup_answer(old(store), process_id->0@, r),
        is_router(mode@) && process_id is None && assign is None ==> match item {
            Err(_) => (r matches Err(RouteError::BadRequest(_))) && *final(store) == *old(store),
            Ok(it) => match type_tag(it.tags@) {
                None => (r matches Err(RouteError::BadRequest(_))) && *final(store) == *old(store),
                Some(kind) => match owner_address_of(it.owner@) {
                    None => (r matches Err(RouteError::BadRequest(_))) && *final(store) == *old(
                        store,
                    ),
                    Some(addr) => typed_outcome(
                        old(store),
                        final(store),
                        kind,
                        it.id,
                        it.target@,
                        addr,
                        r,
                    ),
                },
            },
        },
{
    assert(routes_kept(old(store), store));
    assert(store_grows(old(store), store));
    if !router_mode(mode) {
        return Ok(None);
    }
    if process_id.is_some() != assign.is_some() {
        return Err(
            RouteError::BadRequest(
                "if sending assign or process-id, you must send both".to_string(),
            ),
        );
    }
    if let Some(p) = process_id {
        return lookup(store, p.as_str());
    }
    let it = match item {
        Ok(it) => it,
        Err(msg) => {
            return Err(RouteError::BadRequest(msg));
        },
    };
    let t = match find_type_tag(&it.tags) {
        Some(t) => t,
        None => {
            return Err(RouteError::BadRequest("cannot redirect data item, invalid Type Tag".to_string()));
        },
    };
    let addr = match owner_address(it.owner.as_str()) {
        Ok(a) => a,
        Err(e) => {
            return Err(e);
        },
    };
    route_typed_item(store, it.tags[t].value.as_str(), it.id, it.target.as_str(), addr.as_str())
}

} // verus!
