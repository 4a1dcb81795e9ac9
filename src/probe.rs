use vstd::prelude::*;
use std::collections::HashMap;

verus! {

broadcast use vstd::std_specs::hash::group_hash_axioms;

/// Seconds that one echo request waits for its reply.
pub const PROBE_TIMEOUT_SECS: u64 = 2;

/// An IP address as plain values.
#[derive(Debug, Clone, Copy)]
pub enum IpAddress {
    V4([u8; 4]),
    V6([u16; 8]),
}

/// A registry record as the probe sees it: its identifier, and its IP address
/// when the record has IP text that reads as one.
#[derive(Debug, Clone, Copy)]
pub struct ProbeCandidate {
    pub id: Option<i32>,
    pub ip: Option<IpAddress>,
}

/// One echo request to schedule: the device it is for, the address to probe,
/// and the echo identifier that matches its reply to the device.
#[derive(Debug, Clone, Copy)]
pub struct ProbeTarget {
    pub id: i32,
    pub ip: IpAddress,
    pub token: u16,
}

/// What became of one scheduled probe.
#[derive(Debug, Clone, Copy)]
pub enum ProbeOutcome {
    /// The probe ran: `online` tells whether the host answered.
    Finished { id: i32, online: bool },
    /// The unit of work ended without a result.
    Crashed,
}

/// Why a liveness probe of the whole registry failed.
#[derive(Debug, Clone, Copy)]
pub enum StatusError {
    /// Reading the registry failed.
    Query,
    /// The echo client could not be set up.
    Io,
    /// A scheduled probe produced no result.
    JoinSet,
}

impl StatusError {
    /// A one-line description for the operator.
    pub fn message(&self) -> (r: String) {
        match self {
            StatusError::Query => String::from_str("DB error"),
            StatusError::Io => String::from_str("IO error"),
            StatusError::JoinSet => String::from_str("joinset error"),
        }
    }
}

/// The echo identifier for a device: its identifier's low 16 bits.
pub open spec fn token_of(id: i32) -> u16 {
    id as u16
}

/// The probes to schedule for `devs`, in order: one for each record with an
/// identifier and an IP address.
pub open spec fn targets_of(devs: Seq<ProbeCandidate>) -> Seq<ProbeTarget>
    decreases devs.len(),
{
    if devs.len() == 0 {
        Seq::empty()
    } else {
        let rest = targets_of(devs.drop_last());
        let d = devs.last();
        if d.ip is Some && d.id is Some {
            rest.push(ProbeTarget { id: d.id->0, ip: d.ip->0, token: token_of(d.id->0) })
        } else {
            rest
        }
    }
}

/// Some record has an IP address but no identifier, so its probe result could
/// not be reported.
pub open spec fn lacks_id(devs: Seq<ProbeCandidate>) -> bool {
    exists|i: int| 0 <= i < devs.len() && (#[trigger] devs[i]).ip is Some && devs[i].id is None
}

/// The identifiers of the records that have an IP address.
pub open spec fn probed_ids(devs: Seq<ProbeCandidate>) -> Set<i32> {
    Set::new(
        |id: i32|
            exists|i: int|
                0 <= i < devs.len() && (#[trigger] devs[i]).ip is Some && devs[i].id == Some(id),
    )
}

/// The identifiers of some probe targets.
pub open spec fn target_ids(t: Seq<ProbeTarget>) -> Set<i32> {
    Set::new(|id: i32| exists|k: int| 0 <= k < t.len() && (#[trigger] t[k]).id == id)
}

/// The device a finished probe reports on.
pub open spec fn finished_id(o: ProbeOutcome) -> Option<i32> {
    match o {
        ProbeOutcome::Finished { id, online: _ } => Some(id),
        ProbeOutcome::Crashed => None,
    }
}

/// The identifiers reported by finished probes.
pub open spec fn outcome_ids(o: Seq<ProbeOutcome>) -> Set<i32> {
    Set::new(|id: i32| exists|k: int| 0 <= k < o.len() && finished_id(#[trigger] o[k]) == Some(id))
}

pub open spec fn any_crashed(o: Seq<ProbeOutcome>) -> bool {
    exists|k: int| 0 <= k < o.len() && (#[trigger] o[k]) is Crashed
}

/// The reachability of each device that finished probes report on, a later
/// report on a device replacing an earlier one.
pub open spec fn statuses_of(o: Seq<ProbeOutcome>) -> Map<i32, bool>
    decreases o.len(),
{
    if o.len() == 0 {
        Map::empty()
    } else {
        let rest = statuses_of(o.drop_last());
        match o.last() {
            ProbeOutcome::Finished { id, online } => rest.insert(id, online),
            ProbeOutcome::Crashed => rest,
        }
    }
}

proof fn lemma_target_ids(devs: Seq<ProbeCandidate>)
    ensures
        target_ids(targets_of(devs)) == probed_ids(devs),
    decreases devs.len(),
{
    if devs.len() > 0 {
        let p = devs.drop_last();
        lemma_target_ids(p);
        let t = targets_of(devs);
        let tp = targets_of(p);
        assert forall|id: i32| target_ids(t).contains(id) <==> probed_ids(devs).contains(id) by {
            if target_ids(t).contains(id) {
                let k = choose|k: int| 0 <= k < t.len() && (#[trigger] t[k]).id == id;
                if k < tp.len() {
                    assert(t[k] == tp[k]);
                    assert(target_ids(tp).contains(id));
                    let i = choose|i: int|
                        0 <= i < p.len() && (#[trigger] p[i]).ip is Some && p[i].id == Some(id);
                    assert(devs[i] == p[i]);
                } else {
                    assert(devs[devs.len() - 1] == devs.last());
                }
            }
            if probed_ids(devs).contains(id) {
                let i = choose|i: int|
                    0 <= i < devs.len() && (#[trigger] devs[i]).ip is Some && devs[i].id == Some(id);
                if i < p.len() {
                    assert(p[i] == devs[i]);
                    assert(probed_ids(p).contains(id));
                    let k = choose|k: int| 0 <= k < tp.len() && (#[trigger] tp[k]).id == id;
                    assert(t[k] == tp[k]);
                } else {
                    assert(t[t.len() - 1].id == id);
                }
            }
        }
        assert(target_ids(t) =~= probed_ids(devs));
    } else {
        assert(target_ids(targets_of(devs)) =~= probed_ids(devs));
    }
}

proof fn lemma_statuses_dom(o: Seq<ProbeOutcome>)
    ensures
        statuses_of(o).dom() == outcome_ids(o),
    decreases o.len(),
{
    if o.len() > 0 {
        let p = o.drop_last();
        lemma_statuses_dom(p);
        assert forall|id: i32| statuses_of(o).dom().contains(id) <==> outcome_ids(o).contains(id) by {
            if outcome_ids(o).contains(id) {
                let k = choose|k: int| 0 <= k < o.len() && finished_id(#[trigger] o[k]) == Some(id);
                if k < p.len() {
                    assert(p[k] == o[k]);
                    assert(outcome_ids(p).contains(id));
                } else {
                    assert(o[k] == o.last());
                }
            }
            if statuses_of(o).dom().contains(id) {
                if outcome_ids(p).contains(id) {
                    let k = choose|k: int| 0 <= k < p.len() && finished_id(#[trigger] p[k]) == Some(id);
                    assert(o[k] == p[k]);
                } else {
                    assert(finished_id(o[o.len() - 1]) == Some(id));
                }
            }
        }
        assert(statuses_of(o).dom() =~= outcome_ids(o));
    } else {
        assert(statuses_of(o).dom() =~= outcome_ids(o));
    }
}

proof fn lemma_statuses_values(o: Seq<ProbeOutcome>, k: int)
    requires
        0 <= k < o.len(),
        o[k] is Finished,
        forall|j: int| 0 <= j < o.len() && j != k ==> finished_id(#[trigger] o[j]) != Some(o[k]->Finished_id),
    ensures
        statuses_of(o).contains_key(o[k]->Finished_id),
        statuses_of(o)[o[k]->Finished_id] == o[k]->Finished_online,
    decreases o.len(),
{
    let p = o.drop_last();
    if k < o.len() - 1 {
        assert forall|j: int| 0 <= j < p.len() && j != k implies finished_id(#[trigger] p[j]) != Some(p[k]->Finished_id) by {
            assert(p[j] == o[j]);
        }
        lemma_statuses_values(p, k);
        assert(finished_id(o[o.len() - 1]) != Some(o[k]->Finished_id));
    }
}

/// What a probe of the registry reports when every scheduled probe finishes,
/// in order: exactly the records with an IP address have an entry, whether or
/// not their hosts answered; and, with distinct identifiers, each entry is the
/// outcome of that record's own probe, unaffected by the other probes.
pub proof fn lemma_probe_report(devs: Seq<ProbeCandidate>, outcomes: Seq<ProbeOutcome>)
    requires
        outcomes.len() == targets_of(devs).len(),
        forall|k: int|
            0 <= k < outcomes.len() ==> finished_id(#[trigger] outcomes[k]) == Some(
                targets_of(devs)[k].id,
            ),
    ensures
        !any_crashed(outcomes),
        statuses_of(outcomes).dom() == probed_ids(devs),
        (forall|j: int, k: int|
            0 <= j < k < targets_of(devs).len() ==> targets_of(devs)[j].id != targets_of(devs)[k].id)
            ==> forall|k: int|
            0 <= k < outcomes.len() ==> statuses_of(outcomes)[targets_of(devs)[k].id]
                == (#[trigger] outcomes[k])->Finished_online,
{
    let t = targets_of(devs);
    lemma_target_ids(devs);
    lemma_statuses_dom(outcomes);
    assert(!any_crashed(outcomes)) by {
        if any_crashed(outcomes) {
            let k = choose|k: int| 0 <= k < outcomes.len() && (#[trigger] outcomes[k]) is Crashed;
            assert(finished_id(outcomes[k]) == Some(t[k].id));
        }
    }
    assert forall|id: i32| outcome_ids(outcomes).contains(id) <==> target_ids(t).contains(id) by {
        if outcome_ids(outcomes).contains(id) {
            let k = choose|k: int| 0 <= k < outcomes.len() && finished_id(#[trigger] outcomes[k]) == Some(id);
            assert(t[k].id == id);
        }
        if target_ids(t).contains(id) {
            let k = choose|k: int| 0 <= k < t.len() && (#[trigger] t[k]).id == id;
            assert(finished_id(outcomes[k]) == Some(id));
        }
    }
    assert(outcome_ids(outcomes) =~= target_ids(t));
    if forall|j: int, k: int| 0 <= j < k < t.len() ==> t[j].id != t[k].id {
        assert forall|k: int| 0 <= k < outcomes.len() implies statuses_of(outcomes)[t[k].id]
            == (#[trigger] outcomes[k])->Finished_online by {
            assert(finished_id(outcomes[k]) == Some(t[k].id));
            assert forall|j: int| 0 <= j < outcomes.len() && j != k implies finished_id(
                #[trigger] outcomes[j],
            ) != Some(outcomes[k]->Finished_id) by {
                assert(finished_id(outcomes[j]) == Some(t[j].id));
                if j < k {
                    assert(t[j].id != t[k].id);
                } else {
                    assert(t[k].id != t[j].id);
                }
            }
            lemma_statuses_values(outcomes, k);
        }
    }
}

/// Picks the probes to schedule: one per record with an IP address, tagged
/// with the record's identifier. A record with an IP address but no
/// identifier fails the whole probe; records without an IP address are
/// skipped.
pub fn probe_targets(devices: &Vec<ProbeCandidate>) -> (r: Result<Vec<ProbeTarget>, StatusError>)
    ensures
        r is Err <==> lacks_id(devices@),
        r is Err ==> r->Err_0 is JoinSet,
        r is Ok ==> r->Ok_0@ == targets_of(devices@),
{
    let mut targets: Vec<ProbeTarget> = Vec::new();
    let mut i: usize = 0;
    while i < devices.len()
        invariant
            i <= devices@.len(),
            targets@ == targets_of(devices@.subrange(0, i as int)),
            !lacks_id(devices@.subrange(0, i as int)),
        decreases devices@.len() - i,
    {
        let d = devices[i];
        let ghost before = devices@.subrange(0, i as int);
        let ghost after = devices@.subrange(0, i + 1);
        assert(after.drop_last() =~= before);
        if let Some(ip) = d.ip {
            match d.id {
                Some(id) => {
                    targets.push(ProbeTarget { id, ip, token: id as u16 });
                },
                None => {
                    assert(devices@[i as int].ip is Some && devices@[i as int].id is None);
                    return Err(StatusError::JoinSet);
                },
            }
        }
        assert(!lacks_id(after)) by {
            if lacks_id(after) {
                let k = choose|k: int| 0 <= k < after.len() && (#[trigger] after[k]).ip is Some
                    && after[k].id is None;
                assert(k < i ==> before[k] == after[k]);
            }
        }
        i = i + 1;
    }
    assert(devices@.subrange(0, i as int) =~= devices@);
    Ok(targets)
}

/// Gathers the results of all scheduled probes into a map from device to
/// reachability. A host that did not answer is recorded as unreachable; only a
/// probe that produced no result at all fails the batch.
pub fn collect_statuses(outcomes: &Vec<ProbeOutcome>) -> (r: Result<
    HashMap<i32, bool>,
    StatusError,
>)
    ensures
        r is Err <==> any_crashed(outcomes@),
        r is Err ==> r->Err_0 is JoinSet,
        r is Ok ==> r->Ok_0@ == statuses_of(outcomes@),
{
    let mut statuses: HashMap<i32, bool> = HashMap::new();
    let mut i: usize = 0;
    while i < outcomes.len()
        invariant
            i <= outcomes@.len(),
            statuses@ == statuses_of(outcomes@.subrange(0, i as int)),
            !any_crashed(outcomes@.subrange(0, i as int)),
        decreases outcomes@.len() - i,
    {
        let ghost before = outcomes@.subrange(0, i as int);
        let ghost after = outcomes@.subrange(0, i + 1);
        assert(after.drop_last() =~= before);
        match outcomes[i] {
            ProbeOutcome::Finished { id, online } => {
                statuses.insert(id, online);
            },
            ProbeOutcome::Crashed => {
                assert(outcomes@[i as int] is Crashed);
                return Err(StatusError::JoinSet);
            },
        }
        assert(!any_crashed(after)) by {
            if any_crashed(after) {
                let k = choose|k: int| 0 <= k < after.len() && (#[trigger] after[k]) is Crashed;
                assert(k < i ==> before[k] == after[k]);
            }
        }
        i = i + 1;
    }
    assert(outcomes@.subrange(0, i as int) =~= outcomes@);
    Ok(statuses)
}

} // verus!
