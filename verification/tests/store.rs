use ble::BulbState;
use ble::BulbStates;
use ble::UNIT;

fn state(rgb: [u32; 3], brightness: u32) -> BulbState {
    BulbState { rgb, brightness }
}

#[test]
fn discover_creates_entry_with_desired_defaulting_to_observed() {
    let mut store = BulbStates::new();
    store.discover("lamp".to_string(), state([1, 2, 3], 4));
    assert_eq!(store.len(), 1);
    assert_eq!(store.get_observed("lamp"), Some(&state([1, 2, 3], 4)));
    assert_eq!(store.get_desired("lamp"), Some(&state([1, 2, 3], 4)));
}

#[test]
fn rediscovery_refreshes_observed_and_keeps_desired() {
    let mut store = BulbStates::new();
    store.discover("lamp".to_string(), state([0, 0, 0], 0));
    assert!(store.set_desired("lamp", state([0, 0, 0], UNIT)));
    store.discover("lamp".to_string(), state([5, 5, 5], 5));
    assert_eq!(store.len(), 1);
    assert_eq!(store.get_observed("lamp"), Some(&state([5, 5, 5], 5)));
    assert_eq!(store.get_desired("lamp"), Some(&state([0, 0, 0], UNIT)));
}

#[test]
fn set_desired_on_unknown_id_is_a_no_op() {
    let mut store = BulbStates::new();
    store.discover("a".to_string(), state([0, 0, 0], 0));
    assert!(!store.set_desired("ghost", state([0, 0, 0], UNIT)));
    // Nothing was created and nothing changed.
    assert_eq!(store.len(), 1);
    assert_eq!(store.get_desired("ghost"), None);
    assert_eq!(store.get_observed("ghost"), None);
    assert_eq!(store.get_desired("a"), Some(&state([0, 0, 0], 0)));
}

#[test]
fn set_observed_updates_only_the_named_bulb() {
    let mut store = BulbStates::new();
    store.discover("a".to_string(), state([0, 0, 0], 0));
    store.discover("b".to_string(), state([1, 1, 1], 1));
    assert!(store.set_observed("b", state([2, 2, 2], 2)));
    assert_eq!(store.get_observed("a"), Some(&state([0, 0, 0], 0)));
    assert_eq!(store.get_observed("b"), Some(&state([2, 2, 2], 2)));
}

#[test]
fn snapshot_lists_observed_state_in_discovery_order() {
    let mut store = BulbStates::new();
    store.discover("first".to_string(), state([1, 0, 0], 1));
    store.discover("second".to_string(), state([0, 1, 0], 2));
    let snap = store.snapshot();
    assert_eq!(snap.len(), 2);
    assert_eq!(snap[0], ("first".to_string(), state([1, 0, 0], 1)));
    assert_eq!(snap[1], ("second".to_string(), state([0, 1, 0], 2)));
}
