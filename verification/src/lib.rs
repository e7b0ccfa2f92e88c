//! Reconciliation engine for a small fleet of smart light bulbs.
//!
//! The engine tracks a desired and an observed appearance for every bulb,
//! computes the minimal set of device commands that moves the observed state
//! toward the desired one, and decides what a dispatcher and a poller do on
//! each cycle.  Transports (a low-energy peripheral link and an HTTP bridge)
//! perform the actual I/O outside of this crate; they exchange plain values
//! with the functions here.
//!
//! Colour channels and brightness are fixed-point numbers: a channel value of
//! [`UNIT`] stands for 1.0, the full device range.

use vstd::prelude::*;

pub mod api;
pub mod dispatch;
pub mod hue;
pub mod util;

verus! {

/// Fixed-point denominator: a channel value of `UNIT` stands for 1.0.
pub const UNIT: u32 = 1_000_000;

/// Tolerance, in fixed-point units, below which two channel values count as
/// equal.  Differences this small are quantization noise, not real deltas, so
/// they must not produce device writes.
pub const EPSILON: u32 = 1;

/// Target or last-known appearance of one bulb: a colour and a brightness,
/// each channel in `0 ..= UNIT`.
#[derive(Clone, Copy, Debug, PartialEq)]
pub struct BulbState {
    pub rgb: [u32; 3],
    pub brightness: u32,
}

/// One intent to mutate or read one physical bulb.
#[derive(Clone, Copy, Debug, PartialEq)]
pub enum BulbCmdType {
    SetBrightness(u32),
    SetHue([u32; 3]),
    GetState,
}

/// A command addressed to a bulb; consumed exactly once by the dispatcher.
#[derive(Debug)]
pub struct BulbCmd {
    pub bulb_id: String,
    pub cmd: BulbCmdType,
}

/// Two channel values agree up to [`EPSILON`].
pub open spec fn close(a: u32, b: u32) -> bool {
    -(EPSILON as int) <= a - b <= EPSILON as int
}

/// Two colours agree componentwise up to [`EPSILON`].
pub open spec fn rgb_close(a: [u32; 3], b: [u32; 3]) -> bool {
    close(a[0], b[0]) && close(a[1], b[1]) && close(a[2], b[2])
}

/// A channel value is inside the device range.
pub open spec fn channel_valid(v: u32) -> bool {
    v <= UNIT
}

/// Every channel of the state is inside the device range.
pub open spec fn state_valid(s: BulbState) -> bool {
    channel_valid(s.rgb[0]) && channel_valid(s.rgb[1]) && channel_valid(s.rgb[2])
        && channel_valid(s.brightness)
}

/// An observed state needs no correction toward the desired one.
pub open spec fn converged(observed: BulbState, desired: BulbState) -> bool {
    rgb_close(observed.rgb, desired.rgb) && close(observed.brightness, desired.brightness)
}

/// The effect of one successful write command on the device, as reported by a
/// healthy transport: the addressed channel takes exactly the commanded value,
/// a read changes nothing.
pub open spec fn apply_cmd(s: BulbState, c: BulbCmdType) -> BulbState {
    match c {
        BulbCmdType::SetBrightness(v) => BulbState { brightness: v, ..s },
        BulbCmdType::SetHue(rgb) => BulbState { rgb, ..s },
        BulbCmdType::GetState => s,
    }
}

/// The effect of a whole command sequence, executed in order.
pub open spec fn apply_cmds(s: BulbState, cmds: Seq<BulbCmdType>) -> BulbState
    decreases cmds.len(),
{
    if cmds.len() == 0 {
        s
    } else {
        apply_cmds(apply_cmd(s, cmds[0]), cmds.drop_first())
    }
}

/// `|a - b| <= EPSILON`, computed on unsigned values.
fn close_exec(a: u32, b: u32) -> (r: bool)
    ensures
        r == close(a, b),
{
    let delta: u32 = if a >= b { a - b } else { b - a };
    delta <= EPSILON
}

impl BulbState {
    /// The commands that [`BulbState::diff`] returns: a hue command when the
    /// colours differ beyond tolerance, then a brightness command when the
    /// brightness does; nothing for a converged pair.
    pub open spec fn spec_diff(observed: BulbState, desired: BulbState) -> Seq<BulbCmdType> {
        (if !rgb_close(observed.rgb, desired.rgb) {
            seq![BulbCmdType::SetHue(desired.rgb)]
        } else {
            Seq::<BulbCmdType>::empty()
        }) + (if !close(observed.brightness, desired.brightness) {
            seq![BulbCmdType::SetBrightness(desired.brightness)]
        } else {
            Seq::<BulbCmdType>::empty()
        })
    }

    /// The minimal delta that moves `self` (the observed state) toward
    /// `other` (the desired state): one command per channel group that
    /// differs beyond [`EPSILON`], none when the pair is converged.
    pub fn diff(&self, other: &BulbState) -> (r: Vec<BulbCmdType>)
        ensures
            r@ == Self::spec_diff(*self, *other),
    {
        let mut out: Vec<BulbCmdType> = Vec::new();

        let hue_same = close_exec(self.rgb[0], other.rgb[0])
            && close_exec(self.rgb[1], other.rgb[1])
            && close_exec(self.rgb[2], other.rgb[2]);
        if !hue_same {
            out.push(BulbCmdType::SetHue(other.rgb));
        }

        if !close_exec(self.brightness, other.brightness) {
            out.push(BulbCmdType::SetBrightness(other.brightness));
        }

        proof {
            assert(out@ =~= Self::spec_diff(*self, *other));
        }
        out
    }
}

/// An identifier column holds `id`.
pub open spec fn ids_contain(ids: Seq<String>, id: Seq<char>) -> bool {
    exists|i: int| 0 <= i < ids.len() && (#[trigger] ids[i])@ == id
}

/// The position of `id` in an identifier column that holds it.
pub open spec fn ids_index_of(ids: Seq<String>, id: Seq<char>) -> int {
    choose|i: int| 0 <= i < ids.len() && (#[trigger] ids[i])@ == id
}

/// The mutex-guarded store of per-bulb state: for every discovered bulb one
/// identifier, one observed state and one desired state, kept in parallel at
/// the same position.  Entries are created by discovery only and never
/// removed, so an identifier with a desired state always has an observed one,
/// and a bulb starts out with its desired state equal to its observed state.
/// The serving layer wraps one value of this type in its lock and calls the
/// atomic operations below inside the critical section.
pub struct BulbStates {
    pub ids: Vec<String>,
    pub observed: Vec<BulbState>,
    pub desired: Vec<BulbState>,
}

impl BulbStates {
    /// Well-formedness: the three columns run in parallel, identifiers are
    /// unique, and every stored channel value is inside the device range.
    pub open spec fn wf(self) -> bool {
        &&& self.observed@.len() == self.ids@.len()
        &&& self.desired@.len() == self.ids@.len()
        &&& forall|i: int, j: int|
            0 <= i < j < self.ids@.len() ==> (#[trigger] self.ids@[i])@ != (
            #[trigger] self.ids@[j])@
        &&& forall|i: int| 0 <= i < self.ids@.len() ==> state_valid(#[trigger] self.observed@[i])
        &&& forall|i: int| 0 <= i < self.ids@.len() ==> state_valid(#[trigger] self.desired@[i])
    }

    /// The identifier is known to the store.
    pub open spec fn spec_contains(self, id: Seq<char>) -> bool {
        ids_contain(self.ids@, id)
    }

    /// The position of a known identifier.
    pub open spec fn spec_index_of(self, id: Seq<char>) -> int {
        ids_index_of(self.ids@, id)
    }

    /// In a well-formed store an identifier occurs at one position only, so
    /// any position holding it is the position of the identifier.
    pub proof fn lemma_index_of_unique(self, id: Seq<char>, i: int)
        requires
            self.wf(),
            0 <= i < self.ids@.len(),
            self.ids@[i]@ == id,
        ensures
            self.spec_contains(id),
            self.spec_index_of(id) == i,
    {
        assert(self.spec_contains(id));
        let j = self.spec_index_of(id);
        if i < j {
            assert(self.ids@[i]@ != self.ids@[j]@);
        } else if j < i {
            assert(self.ids@[j]@ != self.ids@[i]@);
        }
    }

    proof fn lemma_wf_after_column_update(pre: Self, post: Self, i: int, v: BulbState)
        requires
            pre.wf(),
            0 <= i < pre.ids@.len(),
            state_valid(v),
            post.ids@ == pre.ids@,
            (post.observed@ == pre.observed@.update(i, v) && post.desired@ == pre.desired@)
                || (post.desired@ == pre.desired@.update(i, v) && post.observed@ == pre.observed@),
        ensures
            post.wf(),
    {
        assert forall|k: int, l: int| 0 <= k < l < post.ids@.len() implies (
        #[trigger] post.ids@[k])@ != (#[trigger] post.ids@[l])@ by {
            assert(pre.ids@[k]@ != pre.ids@[l]@);
        }
        assert forall|k: int| 0 <= k < post.ids@.len() implies state_valid(
            #[trigger] post.observed@[k],
        ) by {
            assert(state_valid(pre.observed@[k]));
        }
        assert forall|k: int| 0 <= k < post.ids@.len() implies state_valid(
            #[trigger] post.desired@[k],
        ) by {
            assert(state_valid(pre.desired@[k]));
        }
    }

    proof fn lemma_wf_after_push(pre: Self, post: Self, id: String, v: BulbState)
        requires
            pre.wf(),
            !pre.spec_contains(id@),
            state_valid(v),
            post.ids@ == pre.ids@.push(id),
            post.observed@ == pre.observed@.push(v),
            post.desired@ == pre.desired@.push(v),
        ensures
            post.wf(),
    {
        assert forall|k: int, l: int| 0 <= k < l < post.ids@.len() implies (
        #[trigger] post.ids@[k])@ != (#[trigger] post.ids@[l])@ by {
            if l == pre.ids@.len() as int {
                assert(post.ids@[k] == pre.ids@[k]);
                assert(!(pre.ids@[k]@ == id@));
            } else {
                assert(pre.ids@[k]@ != pre.ids@[l]@);
            }
        }
        assert forall|k: int| 0 <= k < post.ids@.len() implies state_valid(
            #[trigger] post.observed@[k],
        ) by {
            if k < pre.ids@.len() as int {
                assert(state_valid(pre.observed@[k]));
            }
        }
        assert forall|k: int| 0 <= k < post.ids@.len() implies state_valid(
            #[trigger] post.desired@[k],
        ) by {
            if k < pre.ids@.len() as int {
                assert(state_valid(pre.desired@[k]));
            }
        }
    }

    /// An empty store.
    pub fn new() -> (r: Self)
        ensures
            r.wf(),
            r.ids@.len() == 0,
    {
        BulbStates { ids: Vec::new(), observed: Vec::new(), desired: Vec::new() }
    }

    /// The number of discovered bulbs.
    pub fn len(&self) -> (r: usize)
        ensures
            r == self.ids@.len(),
    {
        self.ids.len()
    }

    /// The position of `id`, if the store knows it.
    fn find(&self, id: &str) -> (r: Option<usize>)
        ensures
            match r {
                Some(i) => i < self.ids@.len() && self.ids@[i as int]@ == id@,
                None => !self.spec_contains(id@),
            },
    {
        let n = self.ids.len();
        let mut i: usize = 0;
        while i < n
            invariant
                n == self.ids@.len(),
                0 <= i <= n,
                forall|j: int| 0 <= j < i ==> (#[trigger] self.ids@[j])@ != id@,
            decreases n - i,
        {
            let candidate: &String = &self.ids[i];
            if crate::util::str_eq(candidate.as_str(), id) {
                return Some(i);
            }
            i = i + 1;
        }
        None
    }

    /// Record one discovered bulb: a new identifier is appended with its
    /// observed state, and its desired state defaults to the observed one; a
    /// known identifier only has its observed state refreshed.  This is the
    /// only operation that creates entries.
    pub fn discover(&mut self, id: String, observed: BulbState)
        requires
            old(self).wf(),
            state_valid(observed),
        ensures
            final(self).wf(),
            old(self).spec_contains(id@) ==> {
                &&& final(self).ids == old(self).ids
                &&& final(self).desired == old(self).desired
                &&& final(self).observed@ == old(self).observed@.update(
                    old(self).spec_index_of(id@),
                    observed,
                )
            },
            !old(self).spec_contains(id@) ==> {
                &&& final(self).ids@ == old(self).ids@.push(id)
                &&& final(self).observed@ == old(self).observed@.push(observed)
                &&& final(self).desired@ == old(self).desired@.push(observed)
            },
    {
        match self.find(&id) {
            Some(i) => {
                proof {
                    old(self).lemma_index_of_unique(id@, i as int);
                }
                self.observed.set(i, observed);
                proof {
                    Self::lemma_wf_after_column_update(*old(self), *self, i as int, observed);
                }
            },
            None => {
                let ghost pre = *self;
                self.ids.push(id);
                self.observed.push(observed);
                self.desired.push(observed);
                proof {
                    Self::lemma_wf_after_push(pre, *self, self.ids@.last(), observed);
                    assert(self.ids@.last() == self.ids@[self.ids@.len() - 1]);
                }
            },
        }
    }

    /// The desired state of `id`, if the bulb is known.
    pub fn get_desired(&self, id: &str) -> (r: Option<&BulbState>)
        requires
            self.wf(),
        ensures
            match r {
                Some(s) => self.spec_contains(id@) && *s == self.desired@[self.spec_index_of(id@)],
                None => !self.spec_contains(id@),
            },
    {
        match self.find(id) {
            Some(i) => {
                proof {
                    self.lemma_index_of_unique(id@, i as int);
                }
                Some(&self.desired[i])
            },
            None => None,
        }
    }

    /// The observed state of `id`, if the bulb is known.
    pub fn get_observed(&self, id: &str) -> (r: Option<&BulbState>)
        requires
            self.wf(),
        ensures
            match r {
                Some(s) => self.spec_contains(id@) && *s == self.observed@[self.spec_index_of(id@)],
                None => !self.spec_contains(id@),
            },
    {
        match self.find(id) {
            Some(i) => {
                proof {
                    self.lemma_index_of_unique(id@, i as int);
                }
                Some(&self.observed[i])
            },
            None => None,
        }
    }

    /// Overwrite the desired state of a known bulb; a write naming an unknown
    /// identifier changes nothing — in particular it never creates an
    /// observed entry.  Returns whether the write applied.
    pub fn set_desired(&mut self, id: &str, v: BulbState) -> (applied: bool)
        requires
            old(self).wf(),
            state_valid(v),
        ensures
            final(self).wf(),
            applied == old(self).spec_contains(id@),
            final(self).ids == old(self).ids,
            final(self).observed == old(self).observed,
            applied ==> final(self).desired@ == old(self).desired@.update(
                old(self).spec_index_of(id@),
                v,
            ),
            !applied ==> *final(self) == *old(self),
    {
        match self.find(id) {
            Some(i) => {
                proof {
                    old(self).lemma_index_of_unique(id@, i as int);
                }
                self.desired.set(i, v);
                proof {
                    Self::lemma_wf_after_column_update(*old(self), *self, i as int, v);
                }
                true
            },
            None => false,
        }
    }

    /// Overwrite the observed state of a known bulb; unknown identifiers
    /// change nothing.  Returns whether the write applied.
    pub fn set_observed(&mut self, id: &str, v: BulbState) -> (applied: bool)
        requires
            old(self).wf(),
            state_valid(v),
        ensures
            final(self).wf(),
            applied == old(self).spec_contains(id@),
            final(self).ids == old(self).ids,
            final(self).desired == old(self).desired,
            applied ==> final(self).observed@ == old(self).observed@.update(
                old(self).spec_index_of(id@),
                v,
            ),
            !applied ==> *final(self) == *old(self),
    {
        match self.find(id) {
            Some(i) => {
                proof {
                    old(self).lemma_index_of_unique(id@, i as int);
                }
                self.observed.set(i, v);
                proof {
                    Self::lemma_wf_after_column_update(*old(self), *self, i as int, v);
                }
                true
            },
            None => false,
        }
    }

    /// A point-in-time copy of the observed state of every bulb, in
    /// discovery order.
    pub fn snapshot(&self) -> (r: Vec<(String, BulbState)>)
        requires
            self.wf(),
        ensures
            r@.len() == self.ids@.len(),
            forall|i: int|
                0 <= i < r@.len() ==> (#[trigger] r@[i]).0 == self.ids@[i] && r@[i].1
                    == self.observed@[i],
    {
        let n = self.ids.len();
        let mut r: Vec<(String, BulbState)> = Vec::new();
        let mut i: usize = 0;
        while i < n
            invariant
                n == self.ids@.len(),
                n == self.observed@.len(),
                0 <= i <= n,
                r@.len() == i,
                forall|j: int|
                    0 <= j < i ==> (#[trigger] r@[j]).0 == self.ids@[j] && r@[j].1
                        == self.observed@[j],
            decreases n - i,
        {
            let id: &String = &self.ids[i];
            r.push((id.clone(), self.observed[i]));
            i = i + 1;
        }
        r
    }
}

/// The JSON fragment for one snapshot entry: the identifier, taken verbatim,
/// mapping to the bulb's colour and brightness as decimal fractions.
/// Identifiers are emitted as they are stored; discovery assigns plain
/// names, so no escaping is applied, and the contract states the exact
/// concatenation either way.
pub open spec fn spec_entry_json(id: Seq<char>, s: BulbState) -> Seq<char> {
    "\""@ + id + "\":{\"rgb\":["@ + crate::util::spec_unit_decimal(s.rgb[0] as int) + ","@
        + crate::util::spec_unit_decimal(s.rgb[1] as int) + ","@ + crate::util::spec_unit_decimal(
        s.rgb[2] as int,
    ) + "],\"brightness\":"@ + crate::util::spec_unit_decimal(s.brightness as int) + "}"@
}

/// The comma-joined JSON fragments of the first `i` snapshot entries.
pub open spec fn spec_entries_json(ids: Seq<String>, observed: Seq<BulbState>, i: int) -> Seq<char>
    decreases i,
{
    if i <= 0 {
        Seq::<char>::empty()
    } else if i == 1 {
        spec_entry_json(ids[0]@, observed[0])
    } else {
        spec_entries_json(ids, observed, i - 1) + ","@ + spec_entry_json(ids[i - 1]@, observed[i - 1])
    }
}

/// The JSON document for a whole snapshot: every discovered bulb's observed
/// state, in discovery order, inside one object.
pub open spec fn spec_snapshot_json(st: BulbStates) -> Seq<char> {
    "{"@ + spec_entries_json(st.ids@, st.observed@, st.ids@.len() as int) + "}"@
}

fn append_entry_json(out: &mut String, id: &str, s: &BulbState)
    requires
        state_valid(*s),
    ensures
        final(out)@ == old(out)@ + spec_entry_json(id@, *s),
{
    out.append("\"");
    out.append(id);
    out.append("\":{\"rgb\":[");
    let d = crate::util::unit_to_decimal(s.rgb[0]);
    out.append(d.as_str());
    out.append(",");
    let d = crate::util::unit_to_decimal(s.rgb[1]);
    out.append(d.as_str());
    out.append(",");
    let d = crate::util::unit_to_decimal(s.rgb[2]);
    out.append(d.as_str());
    out.append("],\"brightness\":");
    let d = crate::util::unit_to_decimal(s.brightness);
    out.append(d.as_str());
    out.append("}");
    proof {
        assert(out@ =~= old(out)@ + spec_entry_json(id@, *s));
    }
}

/// The snapshot of the store as one JSON document, the same shape that the
/// write endpoint accepts: each identifier mapped to its observed colour and
/// brightness.
pub fn serialize_bulb_states(bulb_states: &BulbStates) -> (r: String)
    requires
        bulb_states.wf(),
    ensures
        r@ == spec_snapshot_json(*bulb_states),
{
    let mut out = String::new();
    out.append("{");
    let n = bulb_states.ids.len();
    let mut i: usize = 0;
    while i < n
        invariant
            bulb_states.wf(),
            n == bulb_states.ids@.len(),
            0 <= i <= n,
            out@ == "{"@ + spec_entries_json(bulb_states.ids@, bulb_states.observed@, i as int),
        decreases n - i,
    {
        if i > 0 {
            out.append(",");
        }
        let id: &String = &bulb_states.ids[i];
        let s = bulb_states.observed[i];
        append_entry_json(&mut out, id.as_str(), &s);
        proof {
            assert(out@ =~= "{"@ + spec_entries_json(
                bulb_states.ids@,
                bulb_states.observed@,
                i + 1,
            ));
        }
        i = i + 1;
    }
    out.append("}");
    proof {
        assert(out@ =~= spec_snapshot_json(*bulb_states));
    }
    out
}

/// The wire byte of a brightness write on the low-energy peripheral link:
/// the fixed-point value mapped linearly onto the device's `1 ..= 247`
/// brightness range.  The transport writes this byte to the brightness
/// characteristic.
pub fn brightness_wire_byte(units: u32) -> (r: u8)
    requires
        units <= UNIT,
    ensures
        r == 1 + units as int * 246 / UNIT as int,
        1 <= r <= 247,
{
    let scaled = crate::util::rescale(units, UNIT, 246);
    (scaled as u8) + 1
}

/// The diff of a pair is empty exactly when the pair is converged: no command
/// is emitted for a bulb that needs none, and a bulb that needs one gets one.
pub proof fn lemma_diff_empty_iff_converged(observed: BulbState, desired: BulbState)
    ensures
        BulbState::spec_diff(observed, desired).len() == 0 <==> converged(observed, desired),
{
}

/// Epsilon tolerance: two states that differ by at most [`EPSILON`] in
/// brightness and in every colour channel are treated as equal — the diff is
/// empty and no device write happens.
pub proof fn lemma_epsilon_tolerance(observed: BulbState, desired: BulbState)
    requires
        close(observed.brightness, desired.brightness),
        close(observed.rgb[0], desired.rgb[0]),
        close(observed.rgb[1], desired.rgb[1]),
        close(observed.rgb[2], desired.rgb[2]),
    ensures
        BulbState::spec_diff(observed, desired) =~= Seq::<BulbCmdType>::empty(),
{
}

/// Idempotence: the diff of an unchanged pair is one fixed command sequence —
/// two computations of it agree — and a converged pair yields no commands, so
/// re-dispatching an already-converged bulb performs no hardware write.
pub proof fn lemma_diff_idempotent(
    observed: BulbState,
    desired: BulbState,
    first: Seq<BulbCmdType>,
    second: Seq<BulbCmdType>,
)
    requires
        first == BulbState::spec_diff(observed, desired),
        second == BulbState::spec_diff(observed, desired),
    ensures
        first == second,
        converged(observed, desired) ==> first.len() == 0,
{
}

/// Convergence: executing the diff of a pair on a healthy device leaves an
/// observed state whose diff against the same desired state is empty.  One
/// reconciliation cycle therefore suffices whenever the transport is healthy.
pub proof fn lemma_diff_converges(observed: BulbState, desired: BulbState)
    ensures
        converged(apply_cmds(observed, BulbState::spec_diff(observed, desired)), desired),
        BulbState::spec_diff(
            apply_cmds(observed, BulbState::spec_diff(observed, desired)),
            desired,
        ).len() == 0,
{
    let cmds = BulbState::spec_diff(observed, desired);
    let hue_off = !rgb_close(observed.rgb, desired.rgb);
    let bri_off = !close(observed.brightness, desired.brightness);
    let c_hue = BulbCmdType::SetHue(desired.rgb);
    let c_bri = BulbCmdType::SetBrightness(desired.brightness);
    let empty = Seq::<BulbCmdType>::empty();
    if hue_off && bri_off {
        assert(cmds =~= seq![c_hue, c_bri]);
        let s1 = apply_cmd(observed, c_hue);
        let s2 = apply_cmd(s1, c_bri);
        assert(cmds.drop_first() =~= seq![c_bri]);
        assert(seq![c_bri].drop_first() =~= empty);
        assert(apply_cmds(observed, cmds) == apply_cmds(s1, seq![c_bri]));
        assert(apply_cmds(s1, seq![c_bri]) == apply_cmds(s2, empty));
        assert(apply_cmds(s2, empty) == s2);
    } else if hue_off {
        assert(cmds =~= seq![c_hue]);
        let s1 = apply_cmd(observed, c_hue);
        assert(cmds.drop_first() =~= empty);
        assert(apply_cmds(observed, cmds) == apply_cmds(s1, empty));
    } else if bri_off {
        assert(cmds =~= seq![c_bri]);
        let s1 = apply_cmd(observed, c_bri);
        assert(cmds.drop_first() =~= empty);
        assert(apply_cmds(observed, cmds) == apply_cmds(s1, empty));
    } else {
        assert(cmds =~= empty);
    }
    assert(converged(apply_cmds(observed, cmds), desired));
}

} // verus!
