use xhod::address_pool::{pool_key, AddressPools};
use xhod::connections::{
    Checkout, ConnectionStage, ManagedPool, ManagedSingleton, PoolLease, RetryDecision,
};
use xhod::retry::{after_checkout, after_operation, after_shared, retries_creation};
use xhod::retry::{Attempt, HandleStep, OperationStep, SharedStep};
use xhod::gateway::{ErrorCause, ErrorKind, GatewayError, StatusCode};
use xhod::session_cache::SessionCache;

const MINUTE: u64 = 60_000;

fn checkout_or_create(
    pool: &mut ManagedPool<String, usize>,
    key: &str,
    resource: usize,
    creates: &mut usize,
) -> PoolLease<String, usize> {
    match pool.begin_checkout(&key.to_string()) {
        Checkout::Reuse(lease) => lease,
        Checkout::Create => {
            *creates += 1;
            pool.complete_create(key.to_string(), resource)
        }
        Checkout::Wait => panic!("the pool is full"),
    }
}

#[test]
fn singleton_generation_invalidation_does_not_clear_newer_entry() {
    let mut manager = ManagedSingleton::new();
    assert_eq!(manager.checkout(0), None);
    let first = manager.insert(1usize, 0);
    assert!(manager.invalidate_generation(first));

    assert_eq!(manager.checkout(0), None);
    let second = manager.insert(2usize, 0);
    assert!(!manager.invalidate_generation(first));
    assert_eq!(manager.current_generation(), Some(second));
    assert!(manager.checkout_generation(second, 1));
    assert_eq!(manager.resource(), Some(&2));
    assert!(!manager.checkout_generation(first, 1));
    assert_eq!(manager.resource(), Some(&2));
}

#[test]
fn singleton_prune_keeps_active_lease() {
    let mut manager = ManagedSingleton::new();
    let lease = manager.insert(1usize, 0);

    assert!(!manager.prune_idle(1, 1, 0));
    assert_eq!(manager.current_generation(), Some(lease));

    assert!(manager.prune_idle(0, 1, 0));
    assert_eq!(manager.current_generation(), None);
}

#[test]
fn singleton_snapshot_counts_users() {
    let mut manager = ManagedSingleton::new();
    let empty = manager.status_snapshot("hub".to_string(), 0);
    assert_eq!((empty.active, empty.idle), (0, 0));
    let generation = manager.insert(1usize, 0);
    let idle = manager.status_snapshot("hub".to_string(), 0);
    assert_eq!(idle.generation, generation);
    assert_eq!((idle.active, idle.idle), (0, 1));
    let busy = manager.status_snapshot("hub".to_string(), 2);
    assert_eq!(busy.key, "hub");
    assert_eq!((busy.active, busy.idle), (2, 1));
}

#[test]
fn managed_pool_reuses_idle_entries() {
    let mut manager = ManagedPool::new(2, MINUTE);
    let mut creates = 0;
    let lease = checkout_or_create(&mut manager, "a", 10, &mut creates);
    manager.return_healthy(lease, 0);

    let lease = checkout_or_create(&mut manager, "a", 20, &mut creates);
    assert_eq!(lease.resource, 10);
    assert_eq!(creates, 1);
}

#[test]
fn managed_pool_counts_active_and_idle_capacity() {
    let mut manager = ManagedPool::new(1, MINUTE);
    let lease = checkout_or_create(&mut manager, "a", 10, &mut 0);
    let snapshot = manager.status_snapshot_with(|key: &String| key.to_string());
    assert_eq!(snapshot[0].active, 1);
    assert_eq!(snapshot[0].idle, 0);
    assert_eq!(snapshot[0].capacity, 1);

    manager.return_healthy(lease, 0);
    let snapshot = manager.status_snapshot_with(|key: &String| key.to_string());
    assert_eq!(snapshot[0].active, 0);
    assert_eq!(snapshot[0].idle, 1);
}

#[test]
fn managed_pool_drop_active_lease_discards_and_decrements_active() {
    let mut manager = ManagedPool::new(1, MINUTE);
    let lease = checkout_or_create(&mut manager, "a", 10, &mut 0);

    manager.discard(lease);

    let snapshot = manager.status_snapshot_with(|key: &String| key.to_string());
    assert!(snapshot.is_empty());
}

#[test]
fn managed_pool_drop_active_lease_wakes_waiter_at_capacity() {
    let mut manager = ManagedPool::new(1, MINUTE);
    let lease = checkout_or_create(&mut manager, "a", 10, &mut 0);

    let mut creates = 0;
    assert!(matches!(manager.begin_checkout(&"a".to_string()), Checkout::Wait));

    manager.discard(lease);

    let lease = checkout_or_create(&mut manager, "a", 20, &mut creates);
    assert_eq!(lease.resource, 20);
    assert_eq!(creates, 1);
}

#[test]
fn managed_pool_returned_lease_drop_is_noop() {
    let mut manager = ManagedPool::new(1, MINUTE);
    let lease = checkout_or_create(&mut manager, "a", 10, &mut 0);

    manager.return_healthy(lease, 0);

    let snapshot = manager.status_snapshot_with(|key: &String| key.to_string());
    assert_eq!(snapshot[0].active, 0);
    assert_eq!(snapshot[0].idle, 1);
}

#[test]
fn managed_pool_discarded_lease_drop_is_noop() {
    let mut manager = ManagedPool::new(1, MINUTE);
    let lease = checkout_or_create(&mut manager, "a", 10, &mut 0);

    manager.discard(lease);

    let snapshot = manager.status_snapshot_with(|key: &String| key.to_string());
    assert!(snapshot.is_empty());
}

#[test]
fn managed_pool_waiter_reuses_returned_idle_entry_at_capacity() {
    let mut manager = ManagedPool::new(1, MINUTE);
    let lease = checkout_or_create(&mut manager, "a", 10, &mut 0);

    assert!(matches!(manager.begin_checkout(&"a".to_string()), Checkout::Wait));

    manager.return_healthy(lease, 0);
    let lease = checkout_or_create(&mut manager, "a", 20, &mut 0);
    assert_eq!(lease.resource, 10);
}

#[test]
fn managed_pool_discards_idle_entries_by_predicate() {
    let mut manager = ManagedPool::new(2, MINUTE);
    let keep = checkout_or_create(&mut manager, "a", 10, &mut 0);
    let discard = checkout_or_create(&mut manager, "b", 20, &mut 0);
    manager.return_healthy(keep, 0);
    manager.return_healthy(discard, 0);

    assert_eq!(manager.total_entries(), 2);
    assert_eq!(manager.discard_idle_where(|value: &usize| *value == 20), 1);
    assert_eq!(manager.total_entries(), 1);

    let snapshot = manager.status_snapshot_with(|key: &String| key.to_string());
    assert_eq!(snapshot.len(), 1);
    assert_eq!(snapshot[0].key, "a");
}

#[test]
fn retry_decision_tracks_started_boundary() {
    assert_eq!(ConnectionStage::Connect.retry_decision(), RetryDecision::Retry);
    assert_eq!(ConnectionStage::Prepare.retry_decision(), RetryDecision::Retry);
    assert_eq!(ConnectionStage::Started.retry_decision(), RetryDecision::DoNotRetry);
}

#[test]
fn failed_creation_frees_its_place() {
    let mut manager: ManagedPool<String, usize> = ManagedPool::new(1, MINUTE);
    assert!(matches!(manager.begin_checkout(&"a".to_string()), Checkout::Create));
    manager.abort_create(&"a".to_string());
    assert!(matches!(manager.begin_checkout(&"a".to_string()), Checkout::Create));
}

#[test]
fn invalidation_spares_other_generations() {
    let mut manager = ManagedPool::new(2, MINUTE);
    let one = checkout_or_create(&mut manager, "a", 10, &mut 0);
    let two = checkout_or_create(&mut manager, "a", 20, &mut 0);
    let gone = one.generation;
    assert_ne!(one.generation, two.generation);
    manager.return_healthy(one, 0);
    manager.return_healthy(two, 0);
    assert!(manager.invalidate_generation(&"a".to_string(), gone));
    assert!(!manager.invalidate_generation(&"a".to_string(), gone));
    assert_eq!(manager.total_entries(), 1);
    assert_eq!(checkout_or_create(&mut manager, "a", 30, &mut 0).resource, 20);
}

#[test]
fn pruning_drops_stale_and_dead_entries() {
    let mut manager = ManagedPool::new(3, 100);
    let stale = checkout_or_create(&mut manager, "a", 1, &mut 0);
    let dead = checkout_or_create(&mut manager, "a", 2, &mut 0);
    let fresh = checkout_or_create(&mut manager, "a", 3, &mut 0);
    manager.return_healthy(stale, 0);
    manager.return_healthy(dead, 150);
    manager.return_healthy(fresh, 150);
    manager.prune_idle_with(200, |value: &usize| *value != 2);
    assert_eq!(manager.total_entries(), 1);
    assert_eq!(checkout_or_create(&mut manager, "a", 9, &mut 0).resource, 3);
}

#[test]
fn a_returned_connection_leaves_the_number_as_it_was() {
    let mut manager = ManagedPool::new(2, 100);
    assert_eq!(manager.total_entries(), 0);
    let a = checkout_or_create(&mut manager, "a", 1, &mut 0);
    let b = checkout_or_create(&mut manager, "b", 2, &mut 0);
    assert_eq!(manager.total_entries(), 2);
    manager.return_healthy(a, 0);
    assert_eq!(manager.total_entries(), 2);
    let again = checkout_or_create(&mut manager, "a", 3, &mut 0);
    assert_eq!((again.resource, manager.total_entries()), (1, 2));
    let mut keys: Vec<String> =
        manager.status_snapshot_with(|k: &String| k.clone()).into_iter().map(|s| s.key).collect();
    keys.sort();
    assert_eq!(keys, ["a", "b"]);
    manager.discard(b);
    assert_eq!(manager.total_entries(), 1);
    manager.return_healthy(again, 0);
    assert_eq!(manager.discard_idle_where(|value: &usize| *value == 1), 1);
    assert_eq!(manager.total_entries(), 0);
}

#[test]
fn cached_shells_are_handed_out_and_aged() {
    let mut cache = SessionCache::new(Some(2));
    cache.insert("10.0.0.1".to_string(), "one", 10);
    cache.insert("10.0.0.2".to_string(), "two", 20);
    cache.insert("10.0.0.1".to_string(), "three", 30);
    assert_eq!(cache.len(), 2);
    assert_eq!(cache.checkout("10.0.0.9"), None);
    assert_eq!(cache.checkout("10.0.0.1"), Some("three"));
    assert_eq!(cache.checkout("10.0.0.1"), None);
    cache.insert("10.0.0.4".to_string(), "late", 5);
    assert_eq!(cache.len(), 2);
    cache.prune(70, 50);
    assert_eq!(cache.checkout("10.0.0.4"), Some("late"));
    cache.prune(100, 50);
    assert_eq!(cache.len(), 0);
    cache.insert("10.0.0.3".to_string(), "four", 100);
    cache.clear();
    assert_eq!(cache.len(), 0);
}

#[test]
fn addresses_have_pools_of_their_own() {
    let mut pools = AddressPools::new(1, 100);
    let key = pool_key("10.0.0.1", 22);
    assert_eq!(key, "10.0.0.1:22");
    assert!(pools.acquire_connection(&key, |_: &u8| true).is_none());
    pools.return_connection(&key, 1, 7, 0);
    assert!(pools.acquire_connection("10.0.0.2:22", |_: &u8| true).is_none());
    let slot = pools.acquire_connection(&key, |_: &u8| true).unwrap();
    assert_eq!((slot.id, slot.conn), (1, 7));
    pools.return_connection(&key, slot.id, slot.conn, 0);
    pools.prune_idle(1000);
    assert!(pools.acquire_connection(&key, |_: &u8| true).is_none());
}

#[test]
fn operations_are_tried_again_once_over_a_broken_transport() {
    let broken = || (ErrorCause::Status(StatusCode::Unavailable), "gone".to_string());
    assert!(matches!(after_operation(Attempt::First, Ok(5)), OperationStep::Done(5)));
    assert!(matches!(
        after_operation::<i32>(Attempt::First, Err(broken())),
        OperationStep::Retry
    ));
    assert!(matches!(
        after_operation::<i32>(Attempt::Second, Err(broken())),
        OperationStep::Fail { error, discard: true } if error.kind == ErrorKind::Transport
    ));
    assert!(matches!(
        after_operation::<i32>(
            Attempt::First,
            Err((ErrorCause::Message("bad".to_string()), "bad".to_string()))
        ),
        OperationStep::Fail { error, discard: false } if error.kind == ErrorKind::Execution
    ));
    let transport = || GatewayError::transport("closed".to_string());
    assert!(retries_creation(Attempt::First, &transport()));
    assert!(!retries_creation(Attempt::Second, &transport()));
    assert!(!retries_creation(Attempt::First, &GatewayError::execution("x".to_string())));
    assert!(matches!(
        after_shared::<i32>(Attempt::First, Err(transport())),
        SharedStep::InvalidateAndRetry
    ));
    assert!(matches!(after_shared(Attempt::Second, Ok(1)), SharedStep::Done(1)));
    assert!(matches!(after_checkout(Attempt::First, Ok(true), "k"), HandleStep::Use));
    assert!(matches!(
        after_checkout(Attempt::First, Ok(false), "k"),
        HandleStep::DiscardAndRetry
    ));
}
