use su_router::address::{hash, owner_address};
use su_router::bootstrap::init_schedulers;
use su_router::model::{DataItem, RouteError, SchedulerEntry, Tag};
use su_router::router::{redirect_data_item, redirect_process_id, redirect_tx_id, route_typed_item};
use su_router::select::route_new_process;
use su_router::store::MemoryStore;
use su_router::text::list_contains_address;

const OWNER_ONE: &str = "b3duZXIta2V5LW9uZQ";
const ADDRESS_ONE: &str = "fl026QXsyvh0RveZgFPtu0VmeKmPjL44rNBBZLHBPc8";
const OWNER_TWO: &str = "b3duZXIta2V5LXR3bw";
const ADDRESS_TWO: &str = "P6pBB3ySqt1rb35bIOqN1nfQEQ8v28Y0KMzta4G854k";

fn entry(url: &str) -> SchedulerEntry {
    SchedulerEntry { url: url.to_string(), no_route: None, wallets_to_route: None, wallets_only: None }
}

fn store_with(entries: Vec<SchedulerEntry>) -> MemoryStore {
    let mut store = MemoryStore::new();
    init_schedulers(&mut store, &entries).unwrap();
    store
}

fn item(id: &str, target: &str, owner: &str, kind: &str) -> DataItem {
    DataItem {
        id: id.to_string(),
        target: target.to_string(),
        owner: owner.to_string(),
        tags: vec![
            Tag { name: "Data-Protocol".to_string(), value: "ao".to_string() },
            Tag { name: "Type".to_string(), value: kind.to_string() },
        ],
    }
}

fn loads(store: &MemoryStore) -> Vec<i32> {
    store.schedulers.iter().map(|s| s.process_count).collect()
}

#[test]
fn hash_is_sha256() {
    let h = hash(b"abc");
    let hex: String = h.iter().map(|b| format!("{:02x}", b)).collect();
    assert_eq!(hex, "ba7816bf8f01cfea414140de5dae2223b00361a396177a9cb410ff61f20015ad");
}

#[test]
fn owner_address_hashes_decoded_key() {
    assert_eq!(owner_address(OWNER_ONE).unwrap(), ADDRESS_ONE);
    assert_eq!(owner_address(OWNER_TWO).unwrap(), ADDRESS_TWO);
    assert!(matches!(owner_address("not base64!"), Err(RouteError::BadRequest(_))));
}

#[test]
fn wallet_list_matches_trimmed_fields() {
    assert!(list_contains_address(" a1 ,  b2\t", "b2"));
    assert!(list_contains_address("a1", "a1"));
    assert!(!list_contains_address("a1,b2", "a"));
    assert!(!list_contains_address("a1 b2", "b2"));
    assert!(list_contains_address("x, ,y", ""));
}

#[test]
fn other_modes_do_not_route() {
    let mut store = store_with(vec![entry("https://s1")]);
    assert!(matches!(redirect_process_id(&store, "su", Some("p".to_string())), Ok(None)));
    assert!(matches!(redirect_tx_id(&store, "su", "t".to_string(), None), Ok(None)));
    let r = redirect_data_item(&mut store, "su", Ok(item("p1", "", OWNER_ONE, "Process")), None, None);
    assert!(matches!(r, Ok(None)));
    assert_eq!(store.assignments.len(), 0);
    assert_eq!(loads(&store), vec![0]);
}

#[test]
fn process_id_route_needs_parameter_and_assignment() {
    let store = store_with(vec![entry("https://s1")]);
    assert!(matches!(redirect_process_id(&store, "router", None), Err(RouteError::MissingParameter(_))));
    assert!(matches!(
        redirect_process_id(&store, "router", Some("unknown".to_string())),
        Err(RouteError::NotFound(_))
    ));
}

#[test]
fn least_load_tie_break_takes_first_minimum() {
    let mut store = store_with(vec![entry("https://s1"), entry("https://s2"), entry("https://s3")]);
    store.schedulers[0].process_count = 3;
    store.schedulers[1].process_count = 1;
    store.schedulers[2].process_count = 1;
    let r = redirect_data_item(&mut store, "router", Ok(item("p1", "", OWNER_ONE, "Process")), None, None);
    assert_eq!(r.unwrap(), Some("https://s2".to_string()));
    assert_eq!(loads(&store), vec![3, 2, 1]);
    assert_eq!(store.assignments.len(), 1);
    assert_eq!(store.assignments[0].process_id, "p1");
    assert_eq!(store.assignments[0].scheduler_row_id, 2);
}

#[test]
fn affinity_wins_over_load() {
    let mut store = store_with(vec![
        entry("https://s1"),
        SchedulerEntry {
            url: "https://s2".to_string(),
            no_route: None,
            wallets_to_route: Some(format!("{} , {}", ADDRESS_TWO, ADDRESS_ONE)),
            wallets_only: None,
        },
    ]);
    store.schedulers[1].process_count = 10;
    let r = redirect_data_item(&mut store, "router", Ok(item("p1", "", OWNER_ONE, "Process")), None, None);
    assert_eq!(r.unwrap(), Some("https://s2".to_string()));
    assert_eq!(loads(&store), vec![0, 11]);
}

#[test]
fn affinity_only_scheduler_is_skipped_without_match() {
    let mut store = store_with(vec![
        SchedulerEntry {
            url: "https://s1".to_string(),
            no_route: None,
            wallets_to_route: Some(ADDRESS_TWO.to_string()),
            wallets_only: Some(true),
        },
        entry("https://s2"),
    ]);
    store.schedulers[1].process_count = 7;
    let r = redirect_data_item(&mut store, "router", Ok(item("p1", "", OWNER_ONE, "Process")), None, None);
    assert_eq!(r.unwrap(), Some("https://s2".to_string()));
    assert_eq!(loads(&store), vec![0, 8]);
}

#[test]
fn disabled_schedulers_leave_none_available() {
    let mut store = store_with(vec![
        SchedulerEntry { url: "https://s1".to_string(), no_route: Some(true), wallets_to_route: Some(ADDRESS_ONE.to_string()), wallets_only: None },
        SchedulerEntry { url: "https://s2".to_string(), no_route: None, wallets_to_route: None, wallets_only: Some(true) },
    ]);
    let r = redirect_data_item(&mut store, "router", Ok(item("p1", "", OWNER_ONE, "Process")), None, None);
    assert!(matches!(r, Err(RouteError::NoSchedulerAvailable(_))));
    assert_eq!(store.assignments.len(), 0);
    assert_eq!(loads(&store), vec![0, 0]);
}

#[test]
fn pin_parameters_must_come_together() {
    let mut store = store_with(vec![entry("https://s1")]);
    let r = redirect_data_item(&mut store, "router", Err("unused".to_string()), Some("p1".to_string()), None);
    assert!(matches!(r, Err(RouteError::BadRequest(_))));
    let r = redirect_data_item(&mut store, "router", Err("unused".to_string()), None, Some("s".to_string()));
    assert!(matches!(r, Err(RouteError::BadRequest(_))));
    let r = redirect_data_item(&mut store, "router", Err("unused".to_string()), Some("p1".to_string()), Some("s".to_string()));
    assert!(matches!(r, Err(RouteError::NotFound(_))));
    route_new_process(&mut store, "p1".to_string(), ADDRESS_ONE).unwrap();
    let r = redirect_data_item(&mut store, "router", Err("unused".to_string()), Some("p1".to_string()), Some("s".to_string()));
    assert_eq!(r.unwrap(), Some("https://s1".to_string()));
}

#[test]
fn process_then_every_route_agrees() {
    let mut store = store_with(vec![
        entry("https://s1"),
        SchedulerEntry {
            url: "https://s2".to_string(),
            no_route: None,
            wallets_to_route: Some(ADDRESS_ONE.to_string()),
            wallets_only: Some(true),
        },
    ]);
    let r = redirect_data_item(&mut store, "router", Ok(item("p1", "", OWNER_ONE, "Process")), None, None);
    assert_eq!(r.unwrap(), Some("https://s2".to_string()));
    assert_eq!(store.assignments.len(), 1);
    assert_eq!(store.assignments[0].process_id, "p1");
    assert_eq!(store.assignments[0].scheduler_row_id, 2);
    // Later registry changes do not move the work unit.
    store.schedulers[0].process_count = 0;
    init_schedulers(&mut store, &vec![entry("https://s1"), entry("https://s2"), entry("https://s3")]).unwrap();
    let url = Some("https://s2".to_string());
    assert_eq!(redirect_process_id(&store, "router", Some("p1".to_string())).unwrap(), url);
    assert_eq!(redirect_tx_id(&store, "router", "p1".to_string(), None).unwrap(), url);
    assert_eq!(redirect_tx_id(&store, "router", "m9".to_string(), Some("p1".to_string())).unwrap(), url);
    let m = redirect_data_item(&mut store, "router", Ok(item("m1", "p1", OWNER_TWO, "Message")), None, None);
    assert_eq!(m.unwrap(), url);
    assert_eq!(store.assignments.len(), 1);
}

#[test]
fn tx_id_without_fallback_is_missing_parameter() {
    let store = store_with(vec![entry("https://s1")]);
    match redirect_tx_id(&store, "router", "m1".to_string(), None) {
        Err(RouteError::MissingParameter(m)) => assert_eq!(
            m,
            "Unable to locate process, if this is a message id query be sure to pass the process-id query parameter"
        ),
        other => panic!("unexpected {:?}", other),
    }
    assert!(matches!(
        redirect_tx_id(&store, "router", "m1".to_string(), Some("p9".to_string())),
        Err(RouteError::NotFound(_))
    ));
}

#[test]
fn message_to_unknown_target_is_not_found() {
    let mut store = store_with(vec![entry("https://s1")]);
    let r = redirect_data_item(&mut store, "router", Ok(item("m1", "nobody", OWNER_ONE, "Message")), None, None);
    assert!(matches!(r, Err(RouteError::NotFound(_))));
    assert_eq!(store.assignments.len(), 0);
    assert_eq!(store.schedulers.len(), 1);
    assert_eq!(loads(&store), vec![0]);
}

#[test]
fn bad_payloads_are_bad_requests() {
    let mut store = store_with(vec![entry("https://s1")]);
    let r = redirect_data_item(&mut store, "router", Err("truncated".to_string()), None, None);
    assert!(matches!(r, Err(RouteError::BadRequest(m)) if m == "truncated"));
    let mut no_type = item("p1", "", OWNER_ONE, "Process");
    no_type.tags.pop();
    let r = redirect_data_item(&mut store, "router", Ok(no_type), None, None);
    assert!(matches!(r, Err(RouteError::BadRequest(_))));
    let r = redirect_data_item(&mut store, "router", Ok(item("p1", "", OWNER_ONE, "Assignment")), None, None);
    assert!(matches!(r, Err(RouteError::BadRequest(_))));
    let r = redirect_data_item(&mut store, "router", Ok(item("p1", "", "%%%", "Process")), None, None);
    assert!(matches!(r, Err(RouteError::BadRequest(_))));
    assert_eq!(store.assignments.len(), 0);
}

#[test]
fn lowercase_type_tag_is_read() {
    let mut store = store_with(vec![entry("https://s1")]);
    let mut it = item("p1", "", OWNER_ONE, "Process");
    it.tags[1].name = "type".to_string();
    let r = redirect_data_item(&mut store, "router", Ok(it), None, None);
    assert_eq!(r.unwrap(), Some("https://s1".to_string()));
}

#[test]
fn typed_item_refuses_unknown_kind_and_duplicates() {
    let mut store = store_with(vec![entry("https://s1")]);
    assert!(matches!(
        route_typed_item(&mut store, "Other", "p1".to_string(), "", ADDRESS_ONE),
        Err(RouteError::BadRequest(_))
    ));
    route_typed_item(&mut store, "Process", "p1".to_string(), "", ADDRESS_ONE).unwrap();
    assert!(matches!(
        route_typed_item(&mut store, "Process", "p1".to_string(), "", ADDRESS_ONE),
        Err(RouteError::StoreFailure(_))
    ));
    assert_eq!(store.assignments.len(), 1);
    assert_eq!(loads(&store), vec![1]);
}

#[test]
fn bootstrap_twice_gives_same_registry() {
    let list = vec![
        entry("https://s1"),
        SchedulerEntry { url: "https://s2".to_string(), no_route: Some(true), wallets_to_route: Some("w".to_string()), wallets_only: Some(false) },
        entry("https://s1"),
    ];
    let mut store = MemoryStore::new();
    init_schedulers(&mut store, &list).unwrap();
    store.schedulers[0].process_count = 5;
    let first = format!("{:?}", store.schedulers);
    assert_eq!(init_schedulers(&mut store, &list).unwrap(), "schedulers initialized");
    assert_eq!(format!("{:?}", store.schedulers), first);
    assert_eq!(store.schedulers.len(), 2);
    assert_eq!(store.schedulers[1].row_id, Some(2));
}

#[test]
fn bootstrap_refreshes_flags_and_keeps_load() {
    let mut store = store_with(vec![entry("https://s1")]);
    store.schedulers[0].process_count = 4;
    init_schedulers(&mut store, &vec![SchedulerEntry {
        url: "https://s1".to_string(),
        no_route: Some(true),
        wallets_to_route: None,
        wallets_only: None,
    }])
    .unwrap();
    assert_eq!(store.schedulers[0].no_route, Some(true));
    assert_eq!(store.schedulers[0].process_count, 4);
}

#[test]
fn bootstrap_with_empty_list_changes_nothing() {
    let mut store = store_with(vec![entry("https://s1")]);
    store.schedulers[0].process_count = 2;
    let before = format!("{:?}", store.schedulers);
    assert_eq!(init_schedulers(&mut store, &Vec::new()).unwrap(), "schedulers initialized");
    assert_eq!(format!("{:?}", store.schedulers), before);
    assert_eq!(store.assignments.len(), 0);
}
