use ble::UNIT;
use ble::hue::BridgeBulb;
use ble::hue::BulbState;
use ble::hue::BulbWrite;
use ble::hue::ConnMode;
use ble::hue::bulb_reads_of;
use ble::hue::has_delta;
use ble::hue::lights_url;
use ble::hue::reads_network;
use ble::hue::state_url;
use ble::hue::write_body;
use ble::hue::writes_enabled;

fn bridge_bulb(id: &str, uniqueid: &str, on: bool, bri: u8, hue: Option<u16>) -> BridgeBulb {
    BridgeBulb {
        id: id.to_string(),
        uniqueid: uniqueid.to_string(),
        on,
        bri,
        hue,
    }
}

#[test]
fn decoding_skips_bulbs_without_hue_and_rescales_channels() {
    let entries = vec![
        bridge_bulb("1", "aa:bb", true, 255, Some(65535)),
        bridge_bulb("2", "cc:dd", false, 0, None),
        bridge_bulb("3", "ee:ff", true, 0, Some(0)),
    ];
    let reads = bulb_reads_of(&entries);
    assert_eq!(reads.len(), 2);
    assert_eq!(reads[0].idx, 1);
    assert_eq!(reads[0].brightness, UNIT);
    assert_eq!(reads[0].hue, UNIT);
    assert_eq!(reads[0].uuid, "aa:bb");
    assert!(reads[0].on);
    assert_eq!(reads[1].idx, 3);
    assert_eq!(reads[1].brightness, 0);
    assert_eq!(reads[1].hue, 0);
}

#[test]
fn decoding_maps_unparsable_keys_to_index_zero() {
    let entries = vec![bridge_bulb("lamp", "aa", true, 128, Some(32768))];
    let reads = bulb_reads_of(&entries);
    assert_eq!(reads.len(), 1);
    assert_eq!(reads[0].idx, 0);
    // 128/255 and 32768/65535, rounded down in fixed point.
    assert_eq!(reads[0].brightness, 128 * UNIT / 255);
    assert_eq!(reads[0].hue, (32768u64 * UNIT as u64 / 65535) as u32);
}

#[test]
fn discovery_starts_converged_and_sends_nothing() {
    let entries = vec![
        bridge_bulb("1", "aa", true, 10, Some(1000)),
        bridge_bulb("2", "bb", true, 200, Some(60000)),
    ];
    let state = BulbState::from_discovery(bulb_reads_of(&entries));
    assert!(state.ready());
    assert_eq!(state.reads().len(), 2);
    assert!(state.compute_updates().is_empty());
}

#[test]
fn desired_change_produces_one_update_for_that_bulb() {
    let entries = vec![
        bridge_bulb("1", "aa", true, 0, Some(0)),
        bridge_bulb("2", "bb", true, 0, Some(0)),
    ];
    let mut state = BulbState::from_discovery(bulb_reads_of(&entries));
    state.set_brightness(2, UNIT);
    let updates = state.compute_updates();
    assert_eq!(updates.len(), 1);
    assert_eq!(updates[0].0, 2);
    assert_eq!(updates[0].1, BulbWrite { idx: 2, brightness: UNIT, hue: 0 });
}

#[test]
fn reconcile_suppresses_an_unchanged_update_set() {
    // Cycle N computing the same set as cycle N-1 dispatches nothing.
    let entries = vec![bridge_bulb("1", "aa", true, 0, Some(0))];
    let mut state = BulbState::from_discovery(bulb_reads_of(&entries));
    state.set_brightness(1, UNIT);
    let first = state.reconcile(&None);
    assert!(first.is_some());
    assert_eq!(first.as_ref().unwrap().len(), 1);
    let second = state.reconcile(&first);
    assert!(second.is_none());
    // A further desired change differs from the last sent set and goes out.
    state.set_brightness(1, UNIT / 2);
    let third = state.reconcile(&first);
    assert!(third.is_some());
    assert_eq!(third.unwrap()[0].1.brightness, UNIT / 2);
}

#[test]
fn epsilon_close_bridge_pair_has_no_delta() {
    let entries = vec![bridge_bulb("1", "aa", true, 0, Some(0))];
    let state = BulbState::from_discovery(bulb_reads_of(&entries));
    let read = &state.reads()[0];
    let near = BulbWrite { idx: 1, brightness: read.brightness + 1, hue: read.hue };
    assert!(!has_delta(read, &near));
    let far = BulbWrite { idx: 1, brightness: read.brightness + 2, hue: read.hue };
    assert!(has_delta(read, &far));
}

#[test]
fn connection_modes_gate_reads_and_writes() {
    assert!(writes_enabled(&ConnMode::ReadWrite));
    assert!(!writes_enabled(&ConnMode::ReadOnly));
    assert!(!writes_enabled(&ConnMode::LogOnly));
    assert!(reads_network(&ConnMode::ReadWrite));
    assert!(reads_network(&ConnMode::ReadOnly));
    assert!(!reads_network(&ConnMode::LogOnly));
}

#[test]
fn bridge_write_body_uses_device_units() {
    assert_eq!(write_body(UNIT, 0), "{\"bri\": 255, \"hue\": 0}");
    assert_eq!(write_body(UNIT / 2, UNIT), "{\"bri\": 127, \"hue\": 65535}");
    assert_eq!(write_body(0, UNIT / 4), "{\"bri\": 0, \"hue\": 16383}");
}

#[test]
fn bridge_urls_address_lights_and_state() {
    assert_eq!(lights_url("http://bridge/v1"), "http://bridge/v1/lights");
    assert_eq!(state_url("http://bridge/v1", 7), "http://bridge/v1/lights/7/state");
    assert_eq!(state_url("", 250), "/lights/250/state");
}
