//! Decisions of the inbound control API.  The serving layer owns the HTTP
//! socket and the JSON wire format; it hands this module the decoded
//! request — the desired-state entries of a write, or the fact that the body
//! did not decode — and performs whatever these functions decide.  On every
//! accepted write the API updates the desired state and immediately computes
//! and dispatches the diff against the latest observed snapshot; the poller
//! keeps the observed side fresh with read commands.

use vstd::prelude::*;
use crate::BulbCmd;
use crate::BulbCmdType;
use crate::BulbState;
use crate::BulbStates;
use crate::ids_contain;
use crate::ids_index_of;
use crate::state_valid;
use vstd::string::StrSliceExecFns;

verus! {

/// The answer to one write request: whether the body was accepted (an
/// unreadable body is refused with a client error and changes nothing), the
/// device commands the write triggers, and the identifiers that were skipped
/// because no discovered bulb carries them.
pub struct PostOutcome {
    pub accepted: bool,
    pub cmds: Vec<BulbCmd>,
    pub skipped: Vec<String>,
}

/// The commands for one entry: each needed state change of the addressed
/// bulb, wrapped with its identifier.
pub open spec fn wrap_cmds(id: String, kinds: Seq<BulbCmdType>) -> Seq<BulbCmd> {
    kinds.map_values(|k: BulbCmdType| BulbCmd { bulb_id: id, cmd: k })
}

/// The desired-state column after applying the first `i` entries in order:
/// an entry naming a known bulb overwrites that bulb's desired state, an
/// entry naming an unknown one changes nothing.
pub open spec fn spec_apply_writes(
    ids: Seq<String>,
    desired: Seq<BulbState>,
    entries: Seq<(String, BulbState)>,
    i: int,
) -> Seq<BulbState>
    decreases i,
{
    if i <= 0 {
        desired
    } else {
        let prev = spec_apply_writes(ids, desired, entries, i - 1);
        if ids_contain(ids, entries[i - 1].0@) {
            prev.update(ids_index_of(ids, entries[i - 1].0@), entries[i - 1].1)
        } else {
            prev
        }
    }
}

/// The commands that the first `i` entries trigger: for each entry naming a
/// known bulb, the diff of that bulb's observed state against the entry's
/// desired state, in entry order.
pub open spec fn spec_post_cmds(
    st: BulbStates,
    entries: Seq<(String, BulbState)>,
    i: int,
) -> Seq<BulbCmd>
    decreases i,
{
    if i <= 0 {
        Seq::<BulbCmd>::empty()
    } else {
        spec_post_cmds(st, entries, i - 1) + (if st.spec_contains(entries[i - 1].0@) {
            wrap_cmds(
                entries[i - 1].0,
                BulbState::spec_diff(
                    st.observed@[st.spec_index_of(entries[i - 1].0@)],
                    entries[i - 1].1,
                ),
            )
        } else {
            Seq::<BulbCmd>::empty()
        })
    }
}

/// The identifiers among the first `i` entries that name no discovered bulb,
/// in entry order.
pub open spec fn spec_skipped(st: BulbStates, entries: Seq<(String, BulbState)>, i: int) -> Seq<
    String,
>
    decreases i,
{
    if i <= 0 {
        Seq::<String>::empty()
    } else {
        spec_skipped(st, entries, i - 1) + (if st.spec_contains(entries[i - 1].0@) {
            Seq::<String>::empty()
        } else {
            seq![entries[i - 1].0]
        })
    }
}

/// Serve one write request whose body decoded into `entries` (or did not
/// decode, `None`).  An undecodable body is refused and leaves the store
/// untouched.  An accepted body is applied entry by entry: a known
/// identifier has its desired state stored and the commands that move the
/// bulb there emitted; an unknown identifier is skipped and reported,
/// without failing the rest of the request.  Observed state is never
/// touched, and no entry is ever created.
pub fn handle_post(store: &mut BulbStates, body: Option<Vec<(String, BulbState)>>) -> (r:
    PostOutcome)
    requires
        old(store).wf(),
        body matches Some(entries) ==> forall|i: int|
            0 <= i < entries@.len() ==> state_valid((#[trigger] entries@[i]).1),
    ensures
        final(store).wf(),
        final(store).ids == old(store).ids,
        final(store).observed == old(store).observed,
        match body {
            None => {
                &&& !r.accepted
                &&& *final(store) == *old(store)
                &&& r.cmds@.len() == 0
                &&& r.skipped@.len() == 0
            },
            Some(entries) => {
                &&& r.accepted
                &&& final(store).desired@ == spec_apply_writes(
                    old(store).ids@,
                    old(store).desired@,
                    entries@,
                    entries@.len() as int,
                )
                &&& r.cmds@ == spec_post_cmds(*old(store), entries@, entries@.len() as int)
                &&& r.skipped@ == spec_skipped(*old(store), entries@, entries@.len() as int)
            },
        },
{
    let entries = match body {
        None => {
            return PostOutcome { accepted: false, cmds: Vec::new(), skipped: Vec::new() };
        },
        Some(entries) => entries,
    };
    let ghost pre = *store;
    let mut cmds: Vec<BulbCmd> = Vec::new();
    let mut skipped: Vec<String> = Vec::new();
    let n = entries.len();
    let mut i: usize = 0;
    while i < n
        invariant
            store.wf(),
            pre.wf(),
            store.ids == pre.ids,
            store.observed == pre.observed,
            n == entries@.len(),
            forall|j: int| 0 <= j < n ==> state_valid((#[trigger] entries@[j]).1),
            0 <= i <= n,
            store.desired@ == spec_apply_writes(pre.ids@, pre.desired@, entries@, i as int),
            cmds@ == spec_post_cmds(pre, entries@, i as int),
            skipped@ == spec_skipped(pre, entries@, i as int),
        decreases n - i,
    {
        let entry: &(String, BulbState) = &entries[i];
        let id: &String = &entry.0;
        let desired_state = entry.1;
        let observed_here: Option<BulbState> = match store.get_observed(id.as_str()) {
            Some(s) => Some(*s),
            None => None,
        };
        match observed_here {
            Some(obs) => {
                proof {
                    assert(store.spec_contains(id@) == pre.spec_contains(id@));
                    assert(store.spec_index_of(id@) == pre.spec_index_of(id@));
                }
                let applied = store.set_desired(id.as_str(), desired_state);
                let kinds = obs.diff(&desired_state);
                let ghost cmds_before = cmds@;
                let m = kinds.len();
                let mut j: usize = 0;
                while j < m
                    invariant
                        m == kinds@.len(),
                        0 <= j <= m,
                        cmds@ == cmds_before + wrap_cmds(*id, kinds@).take(j as int),
                    decreases m - j,
                {
                    cmds.push(BulbCmd { bulb_id: id.clone(), cmd: kinds[j] });
                    proof {
                        assert(cmds@ =~= cmds_before + wrap_cmds(*id, kinds@).take(j + 1));
                    }
                    j = j + 1;
                }
                proof {
                    assert(wrap_cmds(*id, kinds@).take(m as int) =~= wrap_cmds(*id, kinds@));
                    assert(obs == pre.observed@[pre.spec_index_of(id@)]);
                    assert(cmds@ =~= spec_post_cmds(pre, entries@, i + 1));
                    assert(skipped@ =~= spec_skipped(pre, entries@, i + 1));
                    assert(store.desired@ =~= spec_apply_writes(
                        pre.ids@,
                        pre.desired@,
                        entries@,
                        i + 1,
                    ));
                }
            },
            None => {
                skipped.push(id.clone());
                proof {
                    assert(cmds@ =~= spec_post_cmds(pre, entries@, i + 1));
                    assert(skipped@ =~= spec_skipped(pre, entries@, i + 1));
                    assert(store.desired@ =~= spec_apply_writes(
                        pre.ids@,
                        pre.desired@,
                        entries@,
                        i + 1,
                    ));
                }
            },
        }
        i = i + 1;
    }
    PostOutcome { accepted: true, cmds, skipped }
}

/// The request path addresses the control API: it ends in the API suffix.
pub fn path_is_api(path: &str) -> (r: bool)
    ensures
        r == (path@.len() >= 4 && path@.subrange(path@.len() - 4, path@.len() as int) == "/api"@),
{
    proof {
        reveal_strlit("/api");
    }
    let n = path.unicode_len();
    if n < 4 {
        return false;
    }
    let matched = path.get_char(n - 4) == '/' && path.get_char(n - 3) == 'a' && path.get_char(
        n - 2,
    ) == 'p' && path.get_char(n - 1) == 'i';
    proof {
        if matched {
            assert(path@.subrange(path@.len() - 4, path@.len() as int) =~= "/api"@);
        } else {
            assert(path@.subrange(path@.len() - 4, path@.len() as int) != "/api"@) by {
                if path@.subrange(path@.len() - 4, path@.len() as int) == "/api"@ {
                    assert(path@[path@.len() - 4] == "/api"@[0]);
                    assert(path@[path@.len() - 3] == "/api"@[1]);
                    assert(path@[path@.len() - 2] == "/api"@[2]);
                    assert(path@[path@.len() - 1] == "/api"@[3]);
                }
            }
        }
    }
    matched
}

/// A held identifier's position is in range and holds it.
pub proof fn lemma_ids_index_of(ids: Seq<String>, id: Seq<char>)
    requires
        ids_contain(ids, id),
    ensures
        0 <= ids_index_of(ids, id) < ids.len(),
        ids[ids_index_of(ids, id)]@ == id,
{
}

/// Applying a write request never grows or shrinks the desired column: an
/// entry overwrites an existing slot or is skipped, and nothing is created.
pub proof fn lemma_apply_writes_len(
    ids: Seq<String>,
    desired: Seq<BulbState>,
    entries: Seq<(String, BulbState)>,
    i: int,
)
    requires
        ids.len() == desired.len(),
        0 <= i,
    ensures
        spec_apply_writes(ids, desired, entries, i).len() == desired.len(),
    decreases i,
{
    if i > 0 {
        lemma_apply_writes_len(ids, desired, entries, i - 1);
        if ids_contain(ids, entries[i - 1].0@) {
            lemma_ids_index_of(ids, entries[i - 1].0@);
        }
    }
}

/// Isolation, applied side: an entry that names a known bulb, and is not
/// overridden by a later entry with the same identifier, ends up stored as
/// that bulb's desired state after the first `m` entries are applied — the
/// presence of unknown identifiers elsewhere in the request cannot prevent
/// it.
pub proof fn lemma_write_isolation_applied(
    ids: Seq<String>,
    desired: Seq<BulbState>,
    entries: Seq<(String, BulbState)>,
    i: int,
    m: int,
)
    requires
        ids.len() == desired.len(),
        0 <= i < m <= entries.len(),
        ids_contain(ids, entries[i].0@),
        forall|j: int| i < j < m ==> (#[trigger] entries[j]).0@ != entries[i].0@,
    ensures
        spec_apply_writes(ids, desired, entries, m)[ids_index_of(ids, entries[i].0@)]
            == entries[i].1,
    decreases m,
{
    let at = ids_index_of(ids, entries[i].0@);
    lemma_ids_index_of(ids, entries[i].0@);
    lemma_apply_writes_len(ids, desired, entries, m - 1);
    if m == i + 1 {
    } else {
        lemma_write_isolation_applied(ids, desired, entries, i, m - 1);
        if ids_contain(ids, entries[m - 1].0@) {
            lemma_ids_index_of(ids, entries[m - 1].0@);
            let other = ids_index_of(ids, entries[m - 1].0@);
            assert(other != at) by {
                if other == at {
                    assert(ids[at]@ == entries[i].0@);
                    assert(ids[other]@ == entries[m - 1].0@);
                }
            }
        }
    }
}

/// Isolation, skipped side: an entry that names an unknown bulb appears in
/// the skipped report of the request.
pub proof fn lemma_write_isolation_skipped(
    st: BulbStates,
    entries: Seq<(String, BulbState)>,
    i: int,
    m: int,
)
    requires
        0 <= i < m <= entries.len(),
        !st.spec_contains(entries[i].0@),
    ensures
        spec_skipped(st, entries, m).contains(entries[i].0),
    decreases m,
{
    if m == i + 1 {
        let s = spec_skipped(st, entries, m);
        assert(s[s.len() - 1] == entries[i].0);
    } else {
        lemma_write_isolation_skipped(st, entries, i, m - 1);
        let prev = spec_skipped(st, entries, m - 1);
        let w = choose|k: int| 0 <= k < prev.len() && prev[k] == entries[i].0;
        assert(spec_skipped(st, entries, m)[w] == entries[i].0);
    }
}

} // verus!
