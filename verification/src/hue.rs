//! The HTTP-bridge side of the engine: the shared desired/observed state for
//! bridge bulbs, the per-cycle update computation, and the change-suppressed
//! reconcile step that the background loop runs.  The loop itself and the
//! HTTP round-trips live in the serving layer; everything they decide is
//! here, as functions from plain values to plain values.

use vstd::prelude::*;
use vstd::string::StringExecFns;
use crate::EPSILON;
use crate::UNIT;
use crate::close;
use crate::util::rescale;
use crate::util::spec_decimal_digits;
use crate::util::spec_parse_u8;
use crate::util::u32_to_string;
use crate::util::parse_u8;

verus! {

/// Desired appearance of one bridge bulb: channels in `0 ..= UNIT`.
#[derive(Clone, Copy, Debug, PartialEq)]
pub struct BulbWrite {
    pub idx: u8,
    pub brightness: u32,
    pub hue: u32,
}

/// Last state read back from one bridge bulb, with the transport metadata
/// that discovery needs.
#[derive(Debug)]
pub struct BulbRead {
    pub brightness: u32,
    pub hue: u32,
    pub idx: u8,
    pub uuid: String,
    pub on: bool,
}

impl Clone for BulbRead {
    fn clone(&self) -> (r: Self)
        ensures
            r == *self,
    {
        BulbRead {
            brightness: self.brightness,
            hue: self.hue,
            idx: self.idx,
            uuid: self.uuid.clone(),
            on: self.on,
        }
    }
}

/// The write's channels are inside the device range.
pub open spec fn write_valid(w: BulbWrite) -> bool {
    w.brightness <= UNIT && w.hue <= UNIT
}

/// The read's channels are inside the device range.
pub open spec fn read_valid(r: BulbRead) -> bool {
    r.brightness <= UNIT && r.hue <= UNIT
}

/// The read differs from the desired write beyond [`EPSILON`] in hue or in
/// brightness, so the bulb needs a device write.
pub open spec fn spec_has_delta(r: BulbRead, w: BulbWrite) -> bool {
    !close(r.hue, w.hue) || !close(r.brightness, w.brightness)
}

/// Whether the observed read and the desired write differ beyond tolerance.
pub fn has_delta(r: &BulbRead, w: &BulbWrite) -> (out: bool)
    ensures
        out == spec_has_delta(*r, *w),
{
    let dh: u32 = if r.hue >= w.hue {
        r.hue - w.hue
    } else {
        w.hue - r.hue
    };
    let db: u32 = if r.brightness >= w.brightness {
        r.brightness - w.brightness
    } else {
        w.brightness - r.brightness
    };
    dh > EPSILON || db > EPSILON
}

/// The updates that one cycle would send, for the first `i` read/write
/// pairs: the index and desired write of every pair that differs beyond
/// tolerance, in position order.
pub open spec fn spec_updates_upto(
    reads: Seq<BulbRead>,
    writes: Seq<BulbWrite>,
    i: int,
) -> Seq<(u8, BulbWrite)>
    decreases i,
{
    if i <= 0 {
        Seq::<(u8, BulbWrite)>::empty()
    } else {
        spec_updates_upto(reads, writes, i - 1) + (if spec_has_delta(reads[i - 1], writes[i - 1]) {
            seq![(reads[i - 1].idx, writes[i - 1])]
        } else {
            Seq::<(u8, BulbWrite)>::empty()
        })
    }
}

/// The updates that one cycle would send for all pairs.
pub open spec fn spec_updates(reads: Seq<BulbRead>, writes: Seq<BulbWrite>) -> Seq<(u8, BulbWrite)> {
    spec_updates_upto(reads, writes, reads.len() as int)
}

/// The decision of one reconcile cycle: the update set, unless it equals
/// the set of the previous cycle, in which case nothing is dispatched.
pub open spec fn spec_reconcile(
    reads: Seq<BulbRead>,
    writes: Seq<BulbWrite>,
    last_sent: Option<Seq<(u8, BulbWrite)>>,
) -> Option<Seq<(u8, BulbWrite)>> {
    let updates = spec_updates(reads, writes);
    if last_sent == Some(updates) {
        None
    } else {
        Some(updates)
    }
}

/// The abstract value of an optional update list.
pub open spec fn view_updates(o: Option<Vec<(u8, BulbWrite)>>) -> Option<Seq<(u8, BulbWrite)>> {
    match o {
        None => None,
        Some(v) => Some(v@),
    }
}

/// Shared state of the bridge pipeline: `writes` is the desired state per
/// bulb, `reads` the last observed one, in parallel position order; `ready`
/// flips once discovery has filled both.  Readers and the reconcile loop
/// share one value of this type behind the serving layer's lock.
pub struct BulbState {
    pub ready: bool,
    pub writes: Vec<BulbWrite>,
    pub reads: Vec<BulbRead>,
}

impl BulbState {
    /// Well-formedness: desired and observed run in parallel — every bulb
    /// with a desired state has an observed one at the same position with
    /// the same index — and all channels are inside the device range.
    pub open spec fn wf(self) -> bool {
        &&& self.writes@.len() == self.reads@.len()
        &&& forall|i: int|
            0 <= i < self.writes@.len() ==> (#[trigger] self.writes@[i]).idx == self.reads@[i].idx
        &&& forall|i: int| 0 <= i < self.writes@.len() ==> write_valid(#[trigger] self.writes@[i])
        &&& forall|i: int| 0 <= i < self.reads@.len() ==> read_valid(#[trigger] self.reads@[i])
    }

    /// The store before discovery: no bulbs, not ready.
    pub fn empty() -> (r: Self)
        ensures
            r.wf(),
            !r.ready,
            r.writes@.len() == 0,
            r.reads@.len() == 0,
    {
        BulbState { ready: false, writes: Vec::new(), reads: Vec::new() }
    }

    /// Fill the store from the discovery read: every discovered bulb's
    /// observed state is recorded, and its desired state defaults to the
    /// observed one, so a fresh store is converged and sends nothing.
    pub fn from_discovery(bulbs: Vec<BulbRead>) -> (r: Self)
        requires
            forall|i: int| 0 <= i < bulbs@.len() ==> read_valid(#[trigger] bulbs@[i]),
        ensures
            r.wf(),
            r.ready,
            r.reads@ == bulbs@,
            r.writes@.len() == bulbs@.len(),
            forall|i: int|
                0 <= i < bulbs@.len() ==> #[trigger] r.writes@[i] == (BulbWrite {
                    idx: bulbs@[i].idx,
                    brightness: bulbs@[i].brightness,
                    hue: bulbs@[i].hue,
                }),
    {
        let n = bulbs.len();
        let mut writes: Vec<BulbWrite> = Vec::new();
        let mut i: usize = 0;
        while i < n
            invariant
                n == bulbs@.len(),
                0 <= i <= n,
                forall|j: int| 0 <= j < n ==> read_valid(#[trigger] bulbs@[j]),
                writes@.len() == i,
                forall|j: int|
                    0 <= j < i ==> #[trigger] writes@[j] == (BulbWrite {
                        idx: bulbs@[j].idx,
                        brightness: bulbs@[j].brightness,
                        hue: bulbs@[j].hue,
                    }),
            decreases n - i,
        {
            let b: &BulbRead = &bulbs[i];
            writes.push(BulbWrite { idx: b.idx, brightness: b.brightness, hue: b.hue });
            i = i + 1;
        }
        BulbState { ready: true, writes, reads: bulbs }
    }

    /// Whether discovery has completed.
    pub fn ready(&self) -> (r: bool)
        ensures
            r == self.ready,
    {
        self.ready
    }

    /// A copy of the observed state of every bulb.
    pub fn reads(&self) -> (r: Vec<BulbRead>)
        ensures
            r@ == self.reads@,
    {
        let r = self.reads.clone();
        proof {
            assert forall|i: int| 0 <= i < r@.len() implies r@[i] == self.reads@[i] by {
                assert(vstd::pervasive::cloned::<BulbRead>(self.reads@[i], r@[i]));
            }
            assert(r@ =~= self.reads@);
        }
        r
    }

    /// Update the desired brightness of the first bulb carrying `idx`; a
    /// store that knows no such bulb is left unchanged.  Observed state and
    /// readiness are never touched by desired-state writes.
    pub fn set_brightness(&mut self, idx: u8, brightness: u32)
        requires
            old(self).wf(),
            brightness <= UNIT,
        ensures
            final(self).wf(),
            final(self).ready == old(self).ready,
            final(self).reads == old(self).reads,
            (exists|i: int|
                0 <= i < old(self).writes@.len() && (#[trigger] old(self).writes@[i]).idx
                    == idx) ==> {
                let i = spec_first_write(old(self).writes@, idx);
                final(self).writes@ == old(self).writes@.update(
                    i,
                    BulbWrite { brightness, ..old(self).writes@[i] },
                )
            },
            !(exists|i: int|
                0 <= i < old(self).writes@.len() && (#[trigger] old(self).writes@[i]).idx
                    == idx) ==> *final(self) == *old(self),
    {
        let n = self.writes.len();
        let mut i: usize = 0;
        while i < n
            invariant
                *self == *old(self),
                old(self).wf(),
                brightness <= UNIT,
                n == self.writes@.len(),
                0 <= i <= n,
                forall|j: int| 0 <= j < i ==> (#[trigger] self.writes@[j]).idx != idx,
            decreases n - i,
        {
            if self.writes[i].idx == idx {
                proof {
                    lemma_first_write(self.writes@, idx, i as int);
                }
                let base = self.writes[i];
                let updated = BulbWrite { idx: base.idx, brightness, hue: base.hue };
                proof {
                    assert(write_valid(old(self).writes@[i as int]));
                    assert(write_valid(updated));
                }
                self.writes.set(i, updated);
                proof {
                    assert forall|k: int| 0 <= k < self.writes@.len() implies write_valid(
                        #[trigger] self.writes@[k],
                    ) by {
                        if k != i as int {
                            assert(self.writes@[k] == old(self).writes@[k]);
                            assert(write_valid(old(self).writes@[k]));
                        }
                    }
                    assert forall|k: int|
                        0 <= k < self.writes@.len() implies (#[trigger] self.writes@[k]).idx
                            == self.reads@[k].idx by {
                        assert(old(self).writes@[k].idx == old(self).reads@[k].idx);
                    }
                }
                return ;
            }
            i = i + 1;
        }
    }

    /// The update set of the current cycle: one entry per bulb whose
    /// observed state differs from its desired state beyond tolerance.
    pub fn compute_updates(&self) -> (r: Vec<(u8, BulbWrite)>)
        requires
            self.wf(),
        ensures
            r@ == spec_updates(self.reads@, self.writes@),
    {
        let n = self.reads.len();
        let mut out: Vec<(u8, BulbWrite)> = Vec::new();
        let mut i: usize = 0;
        while i < n
            invariant
                self.wf(),
                n == self.reads@.len(),
                0 <= i <= n,
                out@ == spec_updates_upto(self.reads@, self.writes@, i as int),
            decreases n - i,
        {
            if has_delta(&self.reads[i], &self.writes[i]) {
                out.push((self.reads[i].idx, self.writes[i]));
            }
            proof {
                assert(out@ =~= spec_updates_upto(self.reads@, self.writes@, i + 1));
            }
            i = i + 1;
        }
        out
    }

    /// One reconcile cycle: compute the update set and decide whether to
    /// dispatch it.  A set equal to the one dispatched on the previous cycle
    /// is suppressed, so an unchanged delta is never re-sent and the
    /// transport is not flooded with identical commands.
    pub fn reconcile(&self, last_sent: &Option<Vec<(u8, BulbWrite)>>) -> (r: Option<
        Vec<(u8, BulbWrite)>,
    >)
        requires
            self.wf(),
        ensures
            view_updates(r) == spec_reconcile(self.reads@, self.writes@, view_updates(*last_sent)),
    {
        let updates = self.compute_updates();
        match last_sent {
            Some(prev) => {
                if updates_eq(prev, &updates) {
                    None
                } else {
                    Some(updates)
                }
            },
            None => Some(updates),
        }
    }
}

/// The position of the first write carrying `idx`, or the length if none
/// does.
pub open spec fn spec_first_write(ws: Seq<BulbWrite>, idx: u8) -> int
    decreases ws.len(),
{
    if ws.len() == 0 {
        0
    } else if ws[0].idx == idx {
        0
    } else {
        1 + spec_first_write(ws.drop_first(), idx)
    }
}

proof fn lemma_first_write(ws: Seq<BulbWrite>, idx: u8, i: int)
    requires
        0 <= i <= ws.len(),
        forall|j: int| 0 <= j < i ==> (#[trigger] ws[j]).idx != idx,
        i < ws.len() ==> ws[i].idx == idx,
    ensures
        spec_first_write(ws, idx) == i,
    decreases i,
{
    if ws.len() == 0 {
    } else if i == 0 {
    } else {
        assert(ws[0].idx != idx);
        let tail = ws.drop_first();
        assert forall|j: int| 0 <= j < i - 1 implies (#[trigger] tail[j]).idx != idx by {
            assert(tail[j] == ws[j + 1]);
        }
        assert(i - 1 < tail.len() ==> tail[i - 1].idx == idx);
        lemma_first_write(tail, idx, i - 1);
    }
}

/// Element-wise equality of two update lists.
fn updates_eq(a: &Vec<(u8, BulbWrite)>, b: &Vec<(u8, BulbWrite)>) -> (r: bool)
    ensures
        r == (a@ == b@),
{
    if a.len() != b.len() {
        return false;
    }
    let n = a.len();
    let mut i: usize = 0;
    while i < n
        invariant
            n == a@.len(),
            n == b@.len(),
            0 <= i <= n,
            forall|j: int| 0 <= j < i ==> a@[j] == b@[j],
        decreases n - i,
    {
        let (ai, aw) = a[i];
        let (bi, bw) = b[i];
        if ai != bi || aw.idx != bw.idx || aw.brightness != bw.brightness || aw.hue != bw.hue {
            assert(a@[i as int] != b@[i as int]);
            return false;
        }
        assert(a@[i as int] == b@[i as int]);
        i = i + 1;
    }
    proof {
        assert(a@ =~= b@);
    }
    true
}

/// One bulb as the bridge reports it, already decoded from the wire: the
/// map key it was listed under, its unique hardware id, and the raw device
/// channels (brightness as a byte, hue as a sixteen-bit value, absent for
/// fixtures without colour control).
pub struct BridgeBulb {
    pub id: String,
    pub uniqueid: String,
    pub on: bool,
    pub bri: u8,
    pub hue: Option<u16>,
}

/// The observed-state record for one reported bulb with hue `h`: channels
/// rescaled to fixed point, the map key parsed as the bulb index (an
/// unparsable key counts as index zero), the hardware id carried along.
pub open spec fn spec_read_of(b: BridgeBulb, h: u16) -> BulbRead {
    BulbRead {
        brightness: (b.bri as int * UNIT as int / 255) as u32,
        hue: (h as int * UNIT as int / 65535) as u32,
        idx: match spec_parse_u8(b.id@) {
            Some(v) => v,
            None => 0,
        },
        uuid: b.uniqueid,
        on: b.on,
    }
}

/// The observed-state records of the first `i` reported bulbs: one per bulb
/// that reports a hue, in report order.
pub open spec fn spec_bulb_reads(entries: Seq<BridgeBulb>, i: int) -> Seq<BulbRead>
    decreases i,
{
    if i <= 0 {
        Seq::<BulbRead>::empty()
    } else {
        spec_bulb_reads(entries, i - 1) + (match entries[i - 1].hue {
            Some(h) => seq![spec_read_of(entries[i - 1], h)],
            None => Seq::<BulbRead>::empty(),
        })
    }
}

/// Decode a bridge report into observed-state records: every bulb that
/// reports a hue becomes one record with channels rescaled into
/// `0 ..= UNIT`; bulbs without hue control are skipped.
pub fn bulb_reads_of(entries: &Vec<BridgeBulb>) -> (r: Vec<BulbRead>)
    ensures
        r@ == spec_bulb_reads(entries@, entries@.len() as int),
        forall|i: int| 0 <= i < r@.len() ==> read_valid(#[trigger] r@[i]),
{
    let n = entries.len();
    let mut out: Vec<BulbRead> = Vec::new();
    let mut i: usize = 0;
    while i < n
        invariant
            n == entries@.len(),
            0 <= i <= n,
            out@ == spec_bulb_reads(entries@, i as int),
            forall|j: int| 0 <= j < out@.len() ==> read_valid(#[trigger] out@[j]),
        decreases n - i,
    {
        let e: &BridgeBulb = &entries[i];
        match e.hue {
            Some(h) => {
                let idx: u8 = match parse_u8(e.id.as_str()) {
                    Some(v) => v,
                    None => 0,
                };
                let record = BulbRead {
                    brightness: rescale(e.bri as u32, 255, UNIT),
                    hue: rescale(h as u32, 65535, UNIT),
                    idx,
                    uuid: e.uniqueid.clone(),
                    on: e.on,
                };
                proof {
                    assert(record == spec_read_of(entries@[i as int], h));
                }
                out.push(record);
            },
            None => {},
        }
        proof {
            assert(out@ =~= spec_bulb_reads(entries@, i + 1));
        }
        i = i + 1;
    }
    out
}

/// Operating mode of the bridge connection: `LogOnly` reads a canned sample
/// and logs writes, `ReadOnly` polls the bridge but logs writes, and
/// `ReadWrite` is normal operation.  The dry-run modes are configuration
/// options, not test stubs, and stay selectable.
pub enum ConnMode {
    LogOnly,
    ReadOnly,
    ReadWrite,
}

/// Whether the mode sends state-changing requests to the bridge; in every
/// other mode the serving layer logs the request body instead.
pub fn writes_enabled(mode: &ConnMode) -> (r: bool)
    ensures
        r == (mode is ReadWrite),
{
    match mode {
        ConnMode::ReadWrite => true,
        _ => false,
    }
}

/// Whether the mode polls the live bridge for state; `LogOnly` serves reads
/// from the canned sample instead.
pub fn reads_network(mode: &ConnMode) -> (r: bool)
    ensures
        r == !(mode is LogOnly),
{
    match mode {
        ConnMode::LogOnly => false,
        _ => true,
    }
}

/// The body of one bridge state write: the fixed-point channels rescaled to
/// the device's byte brightness and sixteen-bit hue.
pub open spec fn spec_write_body(brightness: int, hue: int) -> Seq<char> {
    "{\"bri\": "@ + spec_decimal_digits(brightness * 255 / UNIT as int) + ", \"hue\": "@
        + spec_decimal_digits(hue * 65535 / UNIT as int) + "}"@
}

/// Render the JSON body that sets one bulb's state on the bridge.
pub fn write_body(brightness: u32, hue: u32) -> (r: String)
    requires
        brightness <= UNIT,
        hue <= UNIT,
    ensures
        r@ == spec_write_body(brightness as int, hue as int),
{
    let bri_byte = rescale(brightness, UNIT, 255);
    let hue_word = rescale(hue, UNIT, 65535);
    let mut out = String::new();
    out.append("{\"bri\": ");
    let d = u32_to_string(bri_byte);
    out.append(d.as_str());
    out.append(", \"hue\": ");
    let d = u32_to_string(hue_word);
    out.append(d.as_str());
    out.append("}");
    proof {
        assert(out@ =~= spec_write_body(brightness as int, hue as int));
    }
    out
}

/// The URL path of one bulb's state resource under the bridge base URL.
pub open spec fn spec_state_url(base: Seq<char>, idx: int) -> Seq<char> {
    base + "/lights/"@ + spec_decimal_digits(idx) + "/state"@
}

/// Render the URL that addresses one bulb's state on the bridge.
pub fn state_url(base: &str, idx: u8) -> (r: String)
    ensures
        r@ == spec_state_url(base@, idx as int),
{
    let mut out = base.to_owned();
    out.append("/lights/");
    let d = u32_to_string(idx as u32);
    out.append(d.as_str());
    out.append("/state");
    proof {
        assert(out@ =~= spec_state_url(base@, idx as int));
    }
    out
}

/// Render the URL that lists every light on the bridge.
pub fn lights_url(base: &str) -> (r: String)
    ensures
        r@ == base@ + "/lights"@,
{
    let mut out = base.to_owned();
    out.append("/lights");
    out
}

/// The observed state after a healthy bridge executes one update set and the
/// next poll reads it back: every bulb with a delta now shows exactly its
/// desired channels, every other bulb is unchanged.
pub open spec fn spec_apply_updates(reads: Seq<BulbRead>, writes: Seq<BulbWrite>) -> Seq<BulbRead> {
    Seq::new(
        reads.len(),
        |i: int|
            if spec_has_delta(reads[i], writes[i]) {
                BulbRead { brightness: writes[i].brightness, hue: writes[i].hue, ..reads[i] }
            } else {
                reads[i]
            },
    )
}

proof fn lemma_updates_upto_empty(reads: Seq<BulbRead>, writes: Seq<BulbWrite>, i: int)
    requires
        0 <= i <= reads.len(),
        forall|j: int| 0 <= j < reads.len() ==> !spec_has_delta(#[trigger] reads[j], writes[j]),
    ensures
        spec_updates_upto(reads, writes, i).len() == 0,
    decreases i,
{
    if i > 0 {
        lemma_updates_upto_empty(reads, writes, i - 1);
    }
}

/// Convergence of the bridge pipeline: after a healthy device executes the
/// update set of one cycle and the poller reads the result back, the next
/// cycle computes an empty update set — one cycle suffices.
pub proof fn lemma_reconcile_converges(reads: Seq<BulbRead>, writes: Seq<BulbWrite>)
    requires
        reads.len() == writes.len(),
    ensures
        spec_updates(spec_apply_updates(reads, writes), writes).len() == 0,
{
    let applied = spec_apply_updates(reads, writes);
    assert forall|j: int| 0 <= j < applied.len() implies !spec_has_delta(
        #[trigger] applied[j],
        writes[j],
    ) by {
        if spec_has_delta(reads[j], writes[j]) {
            assert(applied[j].hue == writes[j].hue);
            assert(applied[j].brightness == writes[j].brightness);
        }
    }
    lemma_updates_upto_empty(applied, writes, applied.len() as int);
}

/// Change suppression: when the update set of this cycle equals the set
/// dispatched on the previous one, the reconcile step dispatches nothing.
pub proof fn lemma_change_suppression(
    reads: Seq<BulbRead>,
    writes: Seq<BulbWrite>,
    last: Seq<(u8, BulbWrite)>,
)
    requires
        last == spec_updates(reads, writes),
    ensures
        spec_reconcile(reads, writes, Some(last)) is None,
{
}

/// Idempotence of the update computation: the set is a function of the
/// observed and desired state alone, and a converged store computes the
/// empty set, so dispatching a converged store writes no hardware.
pub proof fn lemma_updates_idempotent(
    reads: Seq<BulbRead>,
    writes: Seq<BulbWrite>,
    first: Seq<(u8, BulbWrite)>,
    second: Seq<(u8, BulbWrite)>,
)
    requires
        reads.len() == writes.len(),
        first == spec_updates(reads, writes),
        second == spec_updates(reads, writes),
    ensures
        first == second,
        (forall|j: int|
            0 <= j < reads.len() ==> !spec_has_delta(#[trigger] reads[j], writes[j]))
            ==> first.len() == 0,
{
    if forall|j: int| 0 <= j < reads.len() ==> !spec_has_delta(#[trigger] reads[j], writes[j]) {
        lemma_updates_upto_empty(reads, writes, reads.len() as int);
    }
}

} // verus!
