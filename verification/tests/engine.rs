use ble::BulbCmdType;
use ble::BulbState;
use ble::EPSILON;
use ble::UNIT;
use ble::brightness_wire_byte;

fn state(rgb: [u32; 3], brightness: u32) -> BulbState {
    BulbState { rgb, brightness }
}

#[test]
fn diff_emits_only_brightness_when_hue_matches() {
    // Desired brightness 1.0, hue unchanged: exactly one brightness command.
    let observed = state([UNIT / 2, UNIT / 2, UNIT / 2], 0);
    let desired = state([UNIT / 2, UNIT / 2, UNIT / 2], UNIT);
    let cmds = observed.diff(&desired);
    assert_eq!(cmds.len(), 1);
    assert_eq!(cmds[0], BulbCmdType::SetBrightness(UNIT));
}

#[test]
fn diff_emits_only_hue_when_brightness_matches() {
    let observed = state([0, 0, 0], UNIT);
    let desired = state([UNIT, 0, 0], UNIT);
    let cmds = observed.diff(&desired);
    assert_eq!(cmds.len(), 1);
    assert_eq!(cmds[0], BulbCmdType::SetHue([UNIT, 0, 0]));
}

#[test]
fn diff_emits_both_when_both_differ() {
    let observed = state([0, 0, 0], 0);
    let desired = state([UNIT, 0, 0], UNIT);
    let cmds = observed.diff(&desired);
    assert_eq!(cmds.len(), 2);
    assert_eq!(cmds[0], BulbCmdType::SetHue([UNIT, 0, 0]));
    assert_eq!(cmds[1], BulbCmdType::SetBrightness(UNIT));
}

#[test]
fn diff_of_converged_pair_is_empty() {
    let observed = state([1, 2, 3], 4);
    let desired = state([1, 2, 3], 4);
    assert!(observed.diff(&desired).is_empty());
}

#[test]
fn diff_is_idempotent_on_unchanged_pair() {
    let observed = state([0, UNIT, 0], UNIT / 4);
    let desired = state([UNIT, 0, 0], UNIT);
    let first = observed.diff(&desired);
    let second = observed.diff(&desired);
    assert_eq!(first, second);
}

#[test]
fn diff_tolerates_epsilon_differences() {
    // Differing by at most EPSILON in every channel counts as equal.
    let observed = state([100, 200, 300], 400);
    let desired = state(
        [100 + EPSILON, 200 - EPSILON, 300 + EPSILON],
        400 + EPSILON,
    );
    assert!(observed.diff(&desired).is_empty());
    // One more unit in brightness is a real delta.
    let desired_far = state([100, 200, 300], 400 + EPSILON + 1);
    assert_eq!(
        observed.diff(&desired_far),
        vec![BulbCmdType::SetBrightness(400 + EPSILON + 1)]
    );
}

#[test]
fn applying_the_diff_converges_in_one_cycle() {
    // A healthy device executes each command exactly; afterwards the diff is
    // empty.
    let mut observed = state([0, 0, 0], 0);
    let desired = state([UNIT, UNIT / 2, 0], UNIT);
    for cmd in observed.diff(&desired) {
        match cmd {
            BulbCmdType::SetBrightness(v) => observed.brightness = v,
            BulbCmdType::SetHue(rgb) => observed.rgb = rgb,
            BulbCmdType::GetState => {}
        }
    }
    assert!(observed.diff(&desired).is_empty());
}

#[test]
fn brightness_wire_byte_spans_device_range() {
    assert_eq!(brightness_wire_byte(0), 1);
    assert_eq!(brightness_wire_byte(UNIT), 247);
    assert_eq!(brightness_wire_byte(UNIT / 2), 124);
}
