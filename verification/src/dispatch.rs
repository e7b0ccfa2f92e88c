//! Decisions of the command dispatcher and the state poller.  The serving
//! layer drains the command queue one command at a time, in arrival order,
//! performs the device round-trip, and reports what happened; this module
//! decides what each report does to the store.  The poller periodically
//! enqueues one read command per discovered bulb to keep observed state
//! fresh.

use vstd::prelude::*;
use crate::BulbCmd;
use crate::BulbCmdType;
use crate::BulbState;
use crate::BulbStates;
use crate::channel_valid;
use crate::state_valid;

verus! {

/// What one device round-trip reported back: a completed write, a completed
/// read with the state it returned, or an I/O failure.
pub enum DeviceOutcome {
    WriteOk,
    ReadOk(BulbState),
    Failed,
}

/// A command's payload channels are inside the device range.
pub open spec fn cmd_valid(c: BulbCmd) -> bool {
    match c.cmd {
        BulbCmdType::SetBrightness(v) => channel_valid(v),
        BulbCmdType::SetHue(rgb) => channel_valid(rgb[0]) && channel_valid(rgb[1]) && channel_valid(
            rgb[2],
        ),
        BulbCmdType::GetState => true,
    }
}

/// The observed state of the addressed bulb after one executed command: a
/// completed write is recorded optimistically on the channel it set, a
/// completed read is recorded verbatim, and anything else leaves the old
/// observation standing.
pub open spec fn spec_outcome_observation(
    before: BulbState,
    cmd: BulbCmdType,
    outcome: DeviceOutcome,
) -> BulbState {
    match (outcome, cmd) {
        (DeviceOutcome::WriteOk, BulbCmdType::SetBrightness(v)) => BulbState {
            brightness: v,
            ..before
        },
        (DeviceOutcome::WriteOk, BulbCmdType::SetHue(rgb)) => BulbState { rgb, ..before },
        (DeviceOutcome::ReadOk(s), BulbCmdType::GetState) => s,
        _ => before,
    }
}

/// Record the outcome of one dispatched command.  A failed round-trip is
/// dropped — the store is untouched and the next reconciliation cycle
/// retries the delta.  A completed write updates the observed channel it
/// set, so convergence shows before the next poll; a completed read stores
/// what the device reported.  Desired state is never touched, no entry is
/// created, and a command naming an unknown bulb changes nothing.
pub fn record_outcome(store: &mut BulbStates, cmd: &BulbCmd, outcome: &DeviceOutcome)
    requires
        old(store).wf(),
        cmd_valid(*cmd),
        *outcome matches DeviceOutcome::ReadOk(s) ==> state_valid(s),
    ensures
        final(store).wf(),
        final(store).ids == old(store).ids,
        final(store).desired == old(store).desired,
        !old(store).spec_contains(cmd.bulb_id@) ==> *final(store) == *old(store),
        *outcome is Failed ==> *final(store) == *old(store),
        old(store).spec_contains(cmd.bulb_id@) && !(*outcome is Failed) ==> final(store).observed@
            == old(store).observed@.update(
            old(store).spec_index_of(cmd.bulb_id@),
            spec_outcome_observation(
                old(store).observed@[old(store).spec_index_of(cmd.bulb_id@)],
                cmd.cmd,
                *outcome,
            ),
        ),
{
    if let DeviceOutcome::Failed = outcome {
        return ;
    }
    let before: BulbState = match store.get_observed(cmd.bulb_id.as_str()) {
        Some(s) => *s,
        None => {
            return ;
        },
    };
    let after: BulbState = match (outcome, &cmd.cmd) {
        (DeviceOutcome::WriteOk, BulbCmdType::SetBrightness(v)) => BulbState {
            rgb: before.rgb,
            brightness: *v,
        },
        (DeviceOutcome::WriteOk, BulbCmdType::SetHue(rgb)) => BulbState {
            rgb: *rgb,
            brightness: before.brightness,
        },
        (DeviceOutcome::ReadOk(s), BulbCmdType::GetState) => *s,
        _ => before,
    };
    proof {
        assert(state_valid(after));
    }
    let applied = store.set_observed(cmd.bulb_id.as_str(), after);
    proof {
        assert(applied);
    }
}

/// The refresh commands of one poll cycle: one read per discovered bulb, in
/// discovery order.
pub fn poll_commands(store: &BulbStates) -> (r: Vec<BulbCmd>)
    ensures
        r@.len() == store.ids@.len(),
        forall|i: int|
            0 <= i < r@.len() ==> (#[trigger] r@[i]).cmd is GetState && r@[i].bulb_id
                == store.ids@[i],
{
    let n = store.ids.len();
    let mut out: Vec<BulbCmd> = Vec::new();
    let mut i: usize = 0;
    while i < n
        invariant
            n == store.ids@.len(),
            0 <= i <= n,
            out@.len() == i,
            forall|j: int|
                0 <= j < i ==> (#[trigger] out@[j]).cmd is GetState && out@[j].bulb_id
                    == store.ids@[j],
        decreases n - i,
    {
        let id: &String = &store.ids[i];
        out.push(BulbCmd { bulb_id: id.clone(), cmd: BulbCmdType::GetState });
        i = i + 1;
    }
    out
}

} // verus!
