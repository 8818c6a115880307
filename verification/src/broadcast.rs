//! Fan-out of change notifications to connected listeners, and the server's
//! process-wide status cell.
//!
//! Listeners are modeled by handles in a registry; the transport that
//! carries a notification to each handle lives outside the library. A send
//! failure is reported back as one flag per listener, and the registry is
//! pruned eagerly on those flags, so it never grows with dead listeners.

use vstd::prelude::*;
use crate::service::{BatchGradeRequest, GradeUpdate};

verus! {

/// Where the LAN service is reachable, and whether it is running.
pub struct ServerInfo {
    pub ip: String,
    pub port: u16,
    pub running: bool,
}

/// The process-wide server status cell: starts as "not running", is set once
/// on a successful bind, and is read by status queries.
pub struct ServerState {
    info: Option<ServerInfo>,
}

impl ServerState {
    /// What the cell currently holds.
    pub closed spec fn info_spec(&self) -> Option<ServerInfo> {
        self.info
    }

    /// A cell in the initial, not-running state.
    pub fn new() -> (s: ServerState)
        ensures
            s.info_spec() is None,
    {
        ServerState { info: None }
    }

    /// Records a successful bind. The cell is written only when no running
    /// server is recorded yet; a second start finds the first and changes
    /// nothing.
    pub fn try_mark_running(&mut self, ip: String, port: u16) -> (started: bool)
        ensures
            started == !(old(self).info_spec() matches Some(i) && i.running),
            started ==> final(self).info_spec() == Some(ServerInfo { ip, port, running: true }),
            !started ==> final(self).info_spec() == old(self).info_spec(),
    {
        let already = match &self.info {
            Some(i) => i.running,
            None => false,
        };
        if already {
            false
        } else {
            self.info = Some(ServerInfo { ip, port, running: true });
            true
        }
    }
}

/// Reads the server status cell.
pub fn get_server_info(state: &ServerState) -> (r: Option<ServerInfo>)
    ensures
        r == state.info_spec(),
{
    match &state.info {
        Some(i) => Some(
            ServerInfo { ip: i.ip.clone(), port: i.port, running: i.running },
        ),
        None => None,
    }
}

/// The registry of connected listeners: their handles, and the counter for
/// fresh handles.
pub struct ListenerRegistry {
    pub listeners: Vec<u64>,
    pub next_listener: u64,
}

/// Registry well-formedness: handles unique and below the counter.
pub open spec fn wf_registry(r: ListenerRegistry) -> bool {
    &&& forall|i: int, j: int|
        0 <= i < j < r.listeners@.len() ==> r.listeners@[i] != r.listeners@[j]
    &&& forall|i: int| 0 <= i < r.listeners@.len() ==> #[trigger] r.listeners@[i] < r.next_listener
}

impl ListenerRegistry {
    /// An empty registry.
    pub fn new() -> (r: ListenerRegistry)
        ensures
            wf_registry(r),
            r.listeners@.len() == 0,
            r.next_listener == 0,
    {
        ListenerRegistry { listeners: Vec::new(), next_listener: 0 }
    }

    /// Connects a listener: a fresh handle joins the fan-out set.
    pub fn register(&mut self) -> (id: u64)
        requires
            wf_registry(*old(self)),
            old(self).next_listener < u64::MAX,
        ensures
            wf_registry(*final(self)),
            id == old(self).next_listener,
            final(self).listeners@ == old(self).listeners@.push(id),
            final(self).next_listener == id + 1,
    {
        let id = self.next_listener;
        self.listeners.push(id);
        self.next_listener = id + 1;
        proof {
            assert forall|i: int, j: int|
                0 <= i < j < self.listeners@.len() implies self.listeners@[i]
                != self.listeners@[j] by {
                if j == self.listeners@.len() - 1 {
                    assert(old(self).listeners@[i] < id);
                }
            }
        }
        id
    }

    /// The fan-out targets of one broadcast: every connected listener, once,
    /// in registration order.
    pub fn fanout_targets(&self) -> (t: Vec<u64>)
        ensures
            t@ == self.listeners@,
    {
        let mut t: Vec<u64> = Vec::new();
        let mut i: usize = 0;
        while i < self.listeners.len()
            invariant
                i <= self.listeners@.len(),
                t@ == self.listeners@.take(i as int),
            decreases self.listeners@.len() - i,
        {
            t.push(self.listeners[i]);
            proof {
                assert(t@ =~= self.listeners@.take(i + 1));
            }
            i = i + 1;
        }
        proof {
            assert(self.listeners@.take(self.listeners@.len() as int) =~= self.listeners@);
        }
        t
    }
}

/// The listeners that survive a broadcast: those whose send succeeded, in
/// order. The rest are dropped from the fan-out set with no retry.
pub open spec fn spec_prune(ls: Seq<u64>, ok: Seq<bool>) -> Seq<u64>
    decreases ls.len(),
{
    if ls.len() == 0 {
        Seq::empty()
    } else {
        let p = spec_prune(ls.drop_last(), ok.drop_last());
        if ok.last() {
            p.push(ls.last())
        } else {
            p
        }
    }
}

/// Prunes the registry on a broadcast's outcome: the listeners whose send
/// failed leave the fan-out set; the counter is untouched, so their handles
/// are never reused.
pub fn prune_listeners(reg: &mut ListenerRegistry, ok: &Vec<bool>)
    requires
        wf_registry(*old(reg)),
        ok@.len() == old(reg).listeners@.len(),
    ensures
        wf_registry(*final(reg)),
        final(reg).listeners@ == spec_prune(old(reg).listeners@, ok@),
        final(reg).next_listener == old(reg).next_listener,
{
    let ghost orig = reg.listeners@;
    let mut kept: Vec<u64> = Vec::new();
    let mut i: usize = 0;
    while i < reg.listeners.len()
        invariant
            i <= reg.listeners@.len(),
            reg.listeners@ == orig,
            wf_registry(*old(reg)),
            reg.next_listener == old(reg).next_listener,
            ok@.len() == orig.len(),
            kept@ == spec_prune(orig.take(i as int), ok@.take(i as int)),
            forall|p: int|
                0 <= p < kept@.len() ==> exists|j: int|
                    0 <= j < i && #[trigger] kept@[p] == orig[j],
            forall|p: int, q: int| 0 <= p < q < kept@.len() ==> kept@[p] != kept@[q],
            forall|p: int| 0 <= p < kept@.len() ==> #[trigger] kept@[p] < reg.next_listener,
        decreases reg.listeners@.len() - i,
    {
        proof {
            assert(orig.take(i + 1).drop_last() =~= orig.take(i as int));
            assert(ok@.take(i + 1).drop_last() =~= ok@.take(i as int));
            assert(orig.take(i + 1).last() == orig[i as int]);
            assert(ok@.take(i + 1).last() == ok@[i as int]);
        }
        if ok[i] {
            let ghost prev = kept@;
            kept.push(reg.listeners[i]);
            proof {
                assert forall|p: int| 0 <= p < kept@.len() implies exists|j: int|
                    0 <= j < i + 1 && #[trigger] kept@[p] == orig[j] by {
                    if p == kept@.len() - 1 {
                        assert(kept@[p] == orig[i as int]);
                    } else {
                        let j = choose|j: int| 0 <= j < i && #[trigger] prev[p] == orig[j];
                        assert(kept@[p] == orig[j]);
                    }
                }
                assert forall|p: int, q: int| 0 <= p < q < kept@.len() implies kept@[p]
                    != kept@[q] by {
                    if q == kept@.len() - 1 {
                        let j = choose|j: int| 0 <= j < i && #[trigger] prev[p] == orig[j];
                        assert(orig[j] != orig[i as int]);
                        assert(kept@[q] == orig[i as int]);
                    }
                }
                assert forall|p: int| 0 <= p < kept@.len() implies #[trigger] kept@[p]
                    < reg.next_listener by {
                    if p == kept@.len() - 1 {
                        assert(kept@[p] == orig[i as int]);
                        assert(orig[i as int] < old(reg).next_listener);
                    }
                }
            }
        }
        i = i + 1;
    }
    proof {
        assert(orig.take(orig.len() as int) =~= orig);
        assert(ok@.take(ok@.len() as int) =~= ok@);
    }
    let mut kept = kept;
    core::mem::swap(&mut reg.listeners, &mut kept);
}

/// A change notification as broadcast to every listener: what changed, and
/// which sender originated it, so listeners can skip re-applying their own
/// writes.
pub struct ChangeEvent {
    pub event: String,
    pub sender_id: Option<String>,
    pub change_type: String,
    pub updates: Vec<GradeUpdate>,
}

/// Builds the notification for a committed grade batch: tagged with the
/// batch's own sender and carrying its updates verbatim.
pub fn batch_notification(req: &BatchGradeRequest) -> (n: ChangeEvent)
    ensures
        n.event@ == "db:changed"@,
        n.change_type@ == "grade_update"@,
        n.sender_id == req.sender_id,
        n.updates@ == req.updates@,
{
    let mut updates: Vec<GradeUpdate> = Vec::new();
    let mut i: usize = 0;
    while i < req.updates.len()
        invariant
            i <= req.updates@.len(),
            updates@ == req.updates@.take(i as int),
        decreases req.updates@.len() - i,
    {
        let u = &req.updates[i];
        updates.push(
            GradeUpdate {
                student_id: u.student_id,
                subject_id: u.subject_id,
                period: u.period.clone(),
                value: u.value,
            },
        );
        proof {
            assert(updates@ =~= req.updates@.take(i + 1));
        }
        i = i + 1;
    }
    proof {
        assert(req.updates@.take(req.updates@.len() as int) =~= req.updates@);
    }
    ChangeEvent {
        event: "db:changed".to_owned(),
        sender_id: crate::model::clone_opt_string(&req.sender_id),
        change_type: "grade_update".to_owned(),
        updates,
    }
}

/// The fixed notification broadcast when the primary application process
/// reports a database change of its own.
pub fn desktop_change_event() -> (n: ChangeEvent)
    ensures
        n.event@ == "db:changed"@,
        n.sender_id matches Some(s) && s@ == "desktop"@,
        n.updates@.len() == 0,
{
    ChangeEvent {
        event: "db:changed".to_owned(),
        sender_id: Some("desktop".to_owned()),
        change_type: "db".to_owned(),
        updates: Vec::new(),
    }
}

} // verus!
