use flatnet::ipam::{
    allocate_with_host_id, get_all_allocations, get_allocation, get_host_id, has_allocation,
    init_state, release, IpamState, DEFAULT_HOST_ID, DEFAULT_RANGE_END, DEFAULT_RANGE_START,
    DEFAULT_SUBNET,
};

#[test]
fn test_default_state() {
    let state = IpamState::default();
    assert_eq!(state.subnet, DEFAULT_SUBNET);
    assert_eq!(state.range_start, DEFAULT_RANGE_START);
    assert_eq!(state.range_end, DEFAULT_RANGE_END);
    assert_eq!(state.host_id, DEFAULT_HOST_ID);
    assert!(!state.multihost);
    assert!(state.allocations.is_empty());
}

#[test]
fn test_multihost_state() {
    let state = IpamState::new_multihost(5);
    assert_eq!(state.subnet, "10.100.5.0/24");
    assert_eq!(state.gateway, "10.100.5.1");
    assert_eq!(state.range_start, "10.100.5.10");
    assert_eq!(state.range_end, "10.100.5.254");
    assert_eq!(state.host_id, 5);
    assert!(state.multihost);
    assert!(state.allocations.is_empty());
}

#[test]
fn test_multihost_state_host_boundaries() {
    let state1 = IpamState::new_multihost(1);
    assert_eq!(state1.subnet, "10.100.1.0/24");
    assert_eq!(state1.gateway, "10.100.1.1");

    let state254 = IpamState::new_multihost(254);
    assert_eq!(state254.subnet, "10.100.254.0/24");
    assert_eq!(state254.gateway, "10.100.254.1");
}

#[test]
fn test_parse_prefix_len() {
    assert_eq!(flatnet::ipam::parse_prefix_len("10.87.1.0/24").unwrap(), 24);
    assert_eq!(flatnet::ipam::parse_prefix_len("10.0.0.0/8").unwrap(), 8);
    assert_eq!(flatnet::ipam::parse_prefix_len("10.100.1.0/24").unwrap(), 24);
    assert!(flatnet::ipam::parse_prefix_len("invalid").is_err());
}

#[test]
fn allocate_is_idempotent() {
    let mut state = IpamState::new_multihost(7);
    let first = allocate_with_host_id(&mut state, "abc123").unwrap();
    let len_after_first = state.allocations.len();
    let second = allocate_with_host_id(&mut state, "abc123").unwrap();
    assert_eq!(first.ip, second.ip);
    assert_eq!(first.ip, "10.100.7.10");
    assert_eq!(state.allocations.len(), len_after_first);
}

#[test]
fn allocate_grants_distinct_addresses_in_range() {
    let mut state = IpamState::new_multihost(3);
    let a = allocate_with_host_id(&mut state, "one").unwrap();
    let b = allocate_with_host_id(&mut state, "two").unwrap();
    let c = allocate_with_host_id(&mut state, "three").unwrap();
    assert_eq!(a.ip, "10.100.3.10");
    assert_eq!(b.ip, "10.100.3.11");
    assert_eq!(c.ip, "10.100.3.12");
    assert_ne!(a.ip, b.ip);
    assert_ne!(b.ip, c.ip);
    assert_eq!(a.prefix_len, 24);
    assert_eq!(a.gateway, "10.100.3.1");
    assert_eq!(a.host_id, 3);
    for (_, ip) in &state.allocations {
        let last: u8 = ip.rsplit('.').next().unwrap().parse().unwrap();
        assert!((10..=254).contains(&last));
        assert!(ip.starts_with("10.100.3."));
    }
}

#[test]
fn release_without_allocation_changes_nothing() {
    let mut state = IpamState::new_multihost(2);
    allocate_with_host_id(&mut state, "kept").unwrap();
    let before = state.allocations.clone();
    release(&mut state, "absent").unwrap();
    assert_eq!(state.allocations, before);
}

#[test]
fn release_twice_succeeds_both_times() {
    let mut state = IpamState::new_multihost(2);
    allocate_with_host_id(&mut state, "gone").unwrap();
    assert!(has_allocation(&state, "gone"));
    release(&mut state, "gone").unwrap();
    assert!(!has_allocation(&state, "gone"));
    release(&mut state, "gone").unwrap();
    assert!(!has_allocation(&state, "gone"));
}

#[test]
fn allocation_reuses_released_address() {
    let mut state = IpamState::new_multihost(9);
    let a = allocate_with_host_id(&mut state, "first").unwrap();
    allocate_with_host_id(&mut state, "second").unwrap();
    release(&mut state, "first").unwrap();
    let again = allocate_with_host_id(&mut state, "third").unwrap();
    assert_eq!(a.ip, again.ip);
}

#[test]
fn allocation_exhaustion_is_an_error() {
    let mut state = IpamState::new_multihost(4);
    state.range_start = "10.100.4.10".to_string();
    state.range_end = "10.100.4.11".to_string();
    allocate_with_host_id(&mut state, "a").unwrap();
    allocate_with_host_id(&mut state, "b").unwrap();
    let err = allocate_with_host_id(&mut state, "c").unwrap_err();
    assert_eq!(err.code(), flatnet::error::CniErrorCode::IpamFailure);
    assert_eq!(state.allocations.len(), 2);
}

#[test]
fn corrupt_range_is_an_error() {
    let mut state = IpamState::default();
    state.range_start = "not an ip".to_string();
    let err = allocate_with_host_id(&mut state, "x").unwrap_err();
    assert_eq!(err.code(), flatnet::error::CniErrorCode::IpamFailure);
    assert!(state.allocations.is_empty());
}

#[test]
fn init_state_picks_scheme_by_host_id() {
    let mh = init_state(Some(12));
    assert!(mh.multihost);
    assert_eq!(mh.subnet, "10.100.12.0/24");
    assert_eq!(get_host_id(&mh), 12);
    let single = init_state(None);
    assert!(!single.multihost);
    assert_eq!(single.subnet, "10.87.1.0/24");
    assert_eq!(get_host_id(&single), 1);
}

#[test]
fn all_allocations_are_listed_in_order() {
    let mut state = IpamState::new_multihost(8);
    allocate_with_host_id(&mut state, "one").unwrap();
    allocate_with_host_id(&mut state, "two").unwrap();
    let all = get_all_allocations(&state).unwrap();
    assert_eq!(all.len(), 2);
    assert_eq!(all[0].0, "one");
    assert_eq!(all[0].1.ip, "10.100.8.10");
    assert_eq!(all[1].0, "two");
    assert_eq!(all[1].1.ip, "10.100.8.11");
    assert_eq!(all[1].1.prefix_len, 24);
}

#[test]
fn get_allocation_reads_without_change() {
    let mut state = IpamState::new_multihost(6);
    allocate_with_host_id(&mut state, "held").unwrap();
    let found = get_allocation(&state, "held").unwrap().unwrap();
    assert_eq!(found.ip, "10.100.6.10");
    assert_eq!(found.prefix_len, 24);
    assert_eq!(found.gateway, "10.100.6.1");
    let missing = get_allocation(&state, "other").unwrap();
    assert!(missing.is_none());
}
