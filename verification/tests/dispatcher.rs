use ble::BulbCmd;
use ble::BulbCmdType;
use ble::BulbState;
use ble::BulbStates;
use ble::UNIT;
use ble::dispatch::DeviceOutcome;
use ble::dispatch::poll_commands;
use ble::dispatch::record_outcome;

fn state(rgb: [u32; 3], brightness: u32) -> BulbState {
    BulbState { rgb, brightness }
}

fn cmd(id: &str, kind: BulbCmdType) -> BulbCmd {
    BulbCmd { bulb_id: id.to_string(), cmd: kind }
}

#[test]
fn completed_write_updates_observed_optimistically() {
    let mut store = BulbStates::new();
    store.discover("A".to_string(), state([0, 0, 0], 0));
    record_outcome(
        &mut store,
        &cmd("A", BulbCmdType::SetBrightness(UNIT)),
        &DeviceOutcome::WriteOk,
    );
    assert_eq!(store.get_observed("A"), Some(&state([0, 0, 0], UNIT)));
    record_outcome(
        &mut store,
        &cmd("A", BulbCmdType::SetHue([0, UNIT, 0])),
        &DeviceOutcome::WriteOk,
    );
    assert_eq!(store.get_observed("A"), Some(&state([0, UNIT, 0], UNIT)));
    // Desired state is never the dispatcher's to change.
    assert_eq!(store.get_desired("A"), Some(&state([0, 0, 0], 0)));
}

#[test]
fn completed_read_stores_the_reported_state() {
    let mut store = BulbStates::new();
    store.discover("A".to_string(), state([0, 0, 0], 0));
    record_outcome(
        &mut store,
        &cmd("A", BulbCmdType::GetState),
        &DeviceOutcome::ReadOk(state([1, 2, 3], 4)),
    );
    assert_eq!(store.get_observed("A"), Some(&state([1, 2, 3], 4)));
}

#[test]
fn failed_round_trip_is_dropped_and_changes_nothing() {
    let mut store = BulbStates::new();
    store.discover("A".to_string(), state([5, 5, 5], 5));
    let before = store.snapshot();
    record_outcome(
        &mut store,
        &cmd("A", BulbCmdType::SetBrightness(UNIT)),
        &DeviceOutcome::Failed,
    );
    assert_eq!(store.snapshot(), before);
}

#[test]
fn outcome_for_unknown_bulb_changes_nothing() {
    let mut store = BulbStates::new();
    store.discover("A".to_string(), state([5, 5, 5], 5));
    let before = store.snapshot();
    record_outcome(
        &mut store,
        &cmd("ghost", BulbCmdType::SetBrightness(UNIT)),
        &DeviceOutcome::WriteOk,
    );
    assert_eq!(store.snapshot(), before);
    assert_eq!(store.len(), 1);
}

#[test]
fn poller_issues_one_read_per_discovered_bulb() {
    let mut store = BulbStates::new();
    store.discover("A".to_string(), state([0, 0, 0], 0));
    store.discover("B".to_string(), state([0, 0, 0], 0));
    let cmds = poll_commands(&store);
    assert_eq!(cmds.len(), 2);
    assert_eq!(cmds[0].bulb_id, "A");
    assert!(matches!(cmds[0].cmd, BulbCmdType::GetState));
    assert_eq!(cmds[1].bulb_id, "B");
    assert!(matches!(cmds[1].cmd, BulbCmdType::GetState));
}

#[test]
fn dispatching_a_post_diff_converges_the_store() {
    // End to end over the engine: a write request's commands, executed by a
    // healthy device, drive the observed state to the desired one, and the
    // next diff is empty.
    let mut store = BulbStates::new();
    store.discover("A".to_string(), state([0, 0, 0], 0));
    let body = vec![("A".to_string(), state([UNIT, 0, UNIT / 2], UNIT))];
    let outcome = ble::api::handle_post(&mut store, Some(body));
    assert!(outcome.accepted);
    for c in &outcome.cmds {
        record_outcome(&mut store, c, &DeviceOutcome::WriteOk);
    }
    let observed = *store.get_observed("A").unwrap();
    let desired = *store.get_desired("A").unwrap();
    assert_eq!(observed, desired);
    assert!(observed.diff(&desired).is_empty());
}
