//! The source manager's control plane: a pure state machine from control
//! message to next state and actions.
//!
//! The surrounding task owns the channels, the connector and the `Source`
//! implementation; it feeds every control-plane message through
//! [`handle_control_plane_msg`] and performs the returned [`SourceAction`]s
//! in order. `Paused` covers both an operator pause and a closed circuit
//! breaker; `Pause`/`Resume` and circuit-breaker `Close`/`Open` are
//! idempotent no-ops in states where they do not apply.
//!
//! Drain is a two-phase handshake: once the source reports idle while
//! `Draining`, the manager emits the drain signal downstream and expects one
//! drain acknowledgment per connected pipeline; only when the last expected
//! acknowledgment (tagged with this manager's own connector id) arrives does
//! it transition to `Drained` and notify its connector. Fewer acknowledgments
//! leave it parked in `Draining`; an external timeout out of this
//! component's scope bounds that wait.

use vstd::prelude::*;

verus! {

/// A routing port of the source.
#[derive(Debug, PartialEq)]
pub enum Port {
    Out,
    Error,
    Other(String),
}

/// Spec-level model of a port.
#[verifier::ext_equal]
pub enum PortV {
    Out,
    Error,
    Other(Seq<char>),
}

impl View for Port {
    type V = PortV;

    open spec fn view(&self) -> PortV {
        match self {
            Port::Out => PortV::Out,
            Port::Error => PortV::Error,
            Port::Other(s) => PortV::Other(s@),
        }
    }
}

/// The lifecycle state of a source.
#[derive(Clone, Copy, Debug, PartialEq, Eq, Structural)]
pub enum SourceState {
    Initialized,
    Running,
    Paused,
    Draining,
    Drained,
    Stopped,
}

impl SourceState {
    /// Data is pulled only while running or draining.
    pub fn should_pull_data(&self) -> (r: bool)
        ensures
            r == (*self == SourceState::Running || *self == SourceState::Draining),
    {
        matches!(self, SourceState::Running | SourceState::Draining)
    }
}

/// Whether the manager's event loop keeps going.
#[derive(Clone, Copy, Debug, PartialEq, Eq, Structural)]
pub enum Control {
    Continue,
    Terminate,
}

/// Circuit-breaker contraflow actions.
#[derive(Clone, Copy, Debug, PartialEq, Eq, Structural)]
pub enum CbAction {
    Noop,
    Open,
    Close,
    Ack,
    Fail,
    Drained(u64),
}

/// One stream-scoped id an event id keeps track of.
#[derive(Clone, Copy, Debug, PartialEq, Eq, Structural)]
pub struct TrackedId {
    pub source_id: u64,
    pub stream_id: u64,
    pub pull_id: u64,
}

/// Identity of an event: the id the generator assigned, plus every
/// stream-scoped id merged into it along the way (batched acknowledgments
/// carry many).
#[derive(Debug, PartialEq)]
pub struct EventId {
    pub source_id: u64,
    pub stream_id: u64,
    pub event_id: u64,
    pub pull_id: u64,
    pub carried: Vec<TrackedId>,
}

/// Spec-level model of an event id.
#[verifier::ext_equal]
pub struct EventIdV {
    pub source_id: u64,
    pub stream_id: u64,
    pub event_id: u64,
    pub pull_id: u64,
    pub carried: Seq<TrackedId>,
}

impl View for EventId {
    type V = EventIdV;

    open spec fn view(&self) -> EventIdV {
        EventIdV {
            source_id: self.source_id,
            stream_id: self.stream_id,
            event_id: self.event_id,
            pull_id: self.pull_id,
            carried: self.carried@,
        }
    }
}

/// The candidates an id contributes for the given source: its own pair and
/// every tracked pair of that source.
pub open spec fn id_candidates(id: EventIdV, uid: u64) -> Set<(u64, u64)> {
    Set::new(
        |c: (u64, u64)|
            {
                ||| (id.source_id == uid && c == (id.stream_id, id.pull_id))
                ||| exists|i: int|
                    0 <= i < id.carried.len() && id.carried[i].source_id == uid && c == (
                    (#[trigger] id.carried[i]).stream_id,
                    id.carried[i].pull_id,
                )
            },
    )
}

impl EventId {
    /// The stream-scoped id with the greatest pull id among this event's ids
    /// of the given source (acknowledgments resolve to the maximum).
    pub fn get_max_by_source(&self, uid: u64) -> (r: Option<(u64, u64)>)
        ensures
            match r {
                Some(c) => id_candidates(self@, uid).contains(c) && forall|o: (u64, u64)|
                    id_candidates(self@, uid).contains(o) ==> o.1 <= c.1,
                None => id_candidates(self@, uid) =~= Set::empty(),
            },
    {
        let mut best: Option<(u64, u64)> = if self.source_id == uid {
            Some((self.stream_id, self.pull_id))
        } else {
            None
        };
        let mut i: usize = 0;
        while i < self.carried.len()
            invariant
                i <= self.carried@.len(),
                match best {
                    Some(c) => {
                        &&& id_candidates(self@, uid).contains(c)
                        &&& (self.source_id == uid ==> self.pull_id <= c.1)
                        &&& forall|j: int|
                            0 <= j < i as int && (#[trigger] self.carried@[j]).source_id == uid
                                ==> self.carried@[j].pull_id <= c.1
                    },
                    None => {
                        &&& self.source_id != uid
                        &&& forall|j: int|
                            0 <= j < i as int ==> (#[trigger] self.carried@[j]).source_id != uid
                    },
                },
            decreases self.carried@.len() - i,
        {
            let t = self.carried[i];
            if t.source_id == uid {
                match best {
                    Some(c) => if t.pull_id > c.1 {
                        best = Some((t.stream_id, t.pull_id));
                    },
                    None => {
                        best = Some((t.stream_id, t.pull_id));
                    }
                }
            }
            i = i + 1;
        }
        proof {
            match best {
                Some(c) => {
                    assert forall|o: (u64, u64)|
                        id_candidates(self@, uid).contains(o) implies o.1 <= c.1 by {}
                }
                None => {
                    assert forall|o: (u64, u64)|
                        !id_candidates(self@, uid).contains(o) by {}
                }
            }
        }
        best
    }

    /// The stream-scoped id with the least pull id among this event's ids of
    /// the given source (failures resolve to the minimum).
    pub fn get_min_by_source(&self, uid: u64) -> (r: Option<(u64, u64)>)
        ensures
            match r {
                Some(c) => id_candidates(self@, uid).contains(c) && forall|o: (u64, u64)|
                    id_candidates(self@, uid).contains(o) ==> o.1 >= c.1,
                None => id_candidates(self@, uid) =~= Set::empty(),
            },
    {
        let mut best: Option<(u64, u64)> = if self.source_id == uid {
            Some((self.stream_id, self.pull_id))
        } else {
            None
        };
        let mut i: usize = 0;
        while i < self.carried.len()
            invariant
                i <= self.carried@.len(),
                match best {
                    Some(c) => {
                        &&& id_candidates(self@, uid).contains(c)
                        &&& (self.source_id == uid ==> self.pull_id >= c.1)
                        &&& forall|j: int|
                            0 <= j < i as int && (#[trigger] self.carried@[j]).source_id == uid
                                ==> self.carried@[j].pull_id >= c.1
                    },
                    None => {
                        &&& self.source_id != uid
                        &&& forall|j: int|
                            0 <= j < i as int ==> (#[trigger] self.carried@[j]).source_id != uid
                    },
                },
            decreases self.carried@.len() - i,
        {
            let t = self.carried[i];
            if t.source_id == uid {
                match best {
                    Some(c) => if t.pull_id < c.1 {
                        best = Some((t.stream_id, t.pull_id));
                    },
                    None => {
                        best = Some((t.stream_id, t.pull_id));
                    }
                }
            }
            i = i + 1;
        }
        proof {
            match best {
                Some(c) => {
                    assert forall|o: (u64, u64)|
                        id_candidates(self@, uid).contains(o) implies o.1 >= c.1 by {}
                }
                None => {
                    assert forall|o: (u64, u64)|
                        !id_candidates(self@, uid).contains(o) by {}
                }
            }
        }
        best
    }
}

/// What the surrounding task must do after a transition, in order.
#[derive(Clone, Copy, Debug, PartialEq, Eq, Structural)]
pub enum SourceAction {
    /// Call the source's `on_start` hook, then send the start signal.
    CallOnStart,
    CallOnPause,
    CallOnResume,
    CallOnStop,
    CallOnCbClose,
    CallOnCbOpen,
    CallOnConnectionLost,
    CallOnConnectionEstablished,
    /// Call `ack(stream_id, pull_id)` on the source.
    CallAck { stream_id: u64, pull_id: u64 },
    /// Call `fail(stream_id, pull_id)` on the source.
    CallFail { stream_id: u64, pull_id: u64 },
    /// Send the start signal to all connected pipelines.
    SendSignalStart,
    /// Send the drain signal to all connected pipelines.
    SendSignalDrain,
    /// Tell the owning connector that this source is fully drained.
    NotifyDrained,
    /// Answer the stop request on its reply channel.
    ReplyStop,
    /// Send `ConnectInput` to a newly linked pipeline.
    ConnectInput { pipeline: u64 },
}

/// A control-plane message to the manager.
#[derive(Debug, PartialEq)]
pub enum SourceMsg {
    /// Connect pipelines to a port.
    Link { port: Port, pipelines: Vec<u64> },
    /// Disconnect a pipeline from a port.
    Unlink { port: Port, id: u64 },
    ConnectionLost,
    ConnectionEstablished,
    /// Circuit-breaker contraflow.
    Cb(CbAction, EventId),
    Start,
    Pause,
    Resume,
    /// Stop; the reply channel stays with the caller.
    Stop,
    /// Drain; the status channel stays with the caller.
    Drain,
}

/// Spec-level model of a control-plane message.
#[verifier::ext_equal]
pub enum SourceMsgV {
    Link { port: PortV, pipelines: Seq<u64> },
    Unlink { port: PortV, id: u64 },
    ConnectionLost,
    ConnectionEstablished,
    Cb(CbAction, EventIdV),
    Start,
    Pause,
    Resume,
    Stop,
    Drain,
}

impl View for SourceMsg {
    type V = SourceMsgV;

    open spec fn view(&self) -> SourceMsgV {
        match self {
            SourceMsg::Link { port, pipelines } => SourceMsgV::Link {
                port: port@,
                pipelines: pipelines@,
            },
            SourceMsg::Unlink { port, id } => SourceMsgV::Unlink { port: port@, id: *id },
            SourceMsg::ConnectionLost => SourceMsgV::ConnectionLost,
            SourceMsg::ConnectionEstablished => SourceMsgV::ConnectionEstablished,
            SourceMsg::Cb(a, id) => SourceMsgV::Cb(*a, id@),
            SourceMsg::Start => SourceMsgV::Start,
            SourceMsg::Pause => SourceMsgV::Pause,
            SourceMsg::Resume => SourceMsgV::Resume,
            SourceMsg::Stop => SourceMsgV::Stop,
            SourceMsg::Drain => SourceMsgV::Drain,
        }
    }
}

/// The decision state of a source manager. Channels, the connector and the
/// `Source` implementation live with the surrounding task.
#[derive(Debug)]
pub struct SourceManager {
    pub state: SourceState,
    pub pipelines_out: Vec<u64>,
    pub pipelines_err: Vec<u64>,
    pub is_transactional: bool,
    /// Whether a drain status channel has been stored for later notification.
    pub has_connector_channel: bool,
    /// Whether the drain signal has already gone downstream: phase one of
    /// the drain handshake runs once, however often the source reports empty.
    pub drain_signal_sent: bool,
    /// Drain acknowledgments still expected, one per connected pipeline.
    pub expected_drained: usize,
    /// Counts pulls from the source; one source transport unit per pull.
    pub pull_counter: u64,
    /// The owning connector's unique id.
    pub uid: u64,
}

/// Spec-level model of the manager's decision state.
#[verifier::ext_equal]
pub struct MgrV {
    pub state: SourceState,
    pub pipelines_out: Seq<u64>,
    pub pipelines_err: Seq<u64>,
    pub is_transactional: bool,
    pub has_connector_channel: bool,
    pub drain_signal_sent: bool,
    pub expected_drained: int,
    pub pull_counter: u64,
    pub uid: u64,
}

impl View for SourceManager {
    type V = MgrV;

    open spec fn view(&self) -> MgrV {
        MgrV {
            state: self.state,
            pipelines_out: self.pipelines_out@,
            pipelines_err: self.pipelines_err@,
            is_transactional: self.is_transactional,
            has_connector_channel: self.has_connector_channel,
            drain_signal_sent: self.drain_signal_sent,
            expected_drained: self.expected_drained as int,
            pull_counter: self.pull_counter,
            uid: self.uid,
        }
    }
}

/// Control-plane messages take priority over data whenever any is pending,
/// while paused or initializing, or while no downstream pipeline is
/// connected.
pub fn needs_control_plane_msg(m: &SourceManager, rx_has_pending: bool) -> (r: bool)
    ensures
        r == (m.state == SourceState::Paused || m.state == SourceState::Initialized
            || rx_has_pending || m@.pipelines_out.len() == 0),
{
    matches!(m.state, SourceState::Paused | SourceState::Initialized) || rx_has_pending
        || m.pipelines_out.len() == 0
}

/// The transition function of the control plane: from state and message to
/// next state, loop control and the actions the task performs, in order.
pub open spec fn ctrl_step(m: MgrV, msg: SourceMsgV) -> (MgrV, Control, Seq<SourceAction>) {
    match msg {
        SourceMsgV::Link { port, pipelines } => {
            let connects = Seq::new(
                pipelines.len(),
                |i: int| SourceAction::ConnectInput { pipeline: pipelines[i] },
            );
            if port is Out {
                (
                    MgrV { pipelines_out: m.pipelines_out + pipelines, ..m },
                    Control::Continue,
                    connects,
                )
            } else if port is Error {
                (
                    MgrV { pipelines_err: m.pipelines_err + pipelines, ..m },
                    Control::Continue,
                    connects,
                )
            } else {
                (m, Control::Continue, Seq::empty())
            }
        },
        SourceMsgV::Unlink { port, id } => {
            if port is Out || port is Error {
                let m1 = if port is Out {
                    MgrV { pipelines_out: m.pipelines_out.filter(|p: u64| p != id), ..m }
                } else {
                    MgrV { pipelines_err: m.pipelines_err.filter(|p: u64| p != id), ..m }
                };
                if m1.pipelines_out.len() == 0 && m1.pipelines_err.len() == 0 {
                    (m1, Control::Terminate, seq![SourceAction::CallOnStop])
                } else {
                    (m1, Control::Continue, Seq::empty())
                }
            } else {
                (m, Control::Continue, Seq::empty())
            }
        },
        SourceMsgV::Start => {
            if m.state == SourceState::Initialized {
                (
                    MgrV { state: SourceState::Running, ..m },
                    Control::Continue,
                    seq![SourceAction::CallOnStart, SourceAction::SendSignalStart],
                )
            } else {
                (m, Control::Continue, Seq::empty())
            }
        },
        SourceMsgV::Resume => {
            if m.state == SourceState::Paused {
                (
                    MgrV { state: SourceState::Running, ..m },
                    Control::Continue,
                    seq![SourceAction::CallOnResume],
                )
            } else {
                (m, Control::Continue, Seq::empty())
            }
        },
        SourceMsgV::Pause => {
            if m.state == SourceState::Running {
                (
                    MgrV { state: SourceState::Paused, ..m },
                    Control::Continue,
                    seq![SourceAction::CallOnPause],
                )
            } else {
                (m, Control::Continue, Seq::empty())
            }
        },
        SourceMsgV::Stop => (
            MgrV { state: SourceState::Stopped, ..m },
            Control::Terminate,
            seq![SourceAction::CallOnStop, SourceAction::ReplyStop],
        ),
        SourceMsgV::Drain => {
            if m.state == SourceState::Draining {
                (m, Control::Continue, Seq::empty())
            } else if m.state == SourceState::Drained {
                (m, Control::Continue, seq![SourceAction::NotifyDrained])
            } else if m.pipelines_out.len() == 0 && m.pipelines_err.len() == 0 {
                (
                    MgrV { state: SourceState::Drained, ..m },
                    Control::Continue,
                    seq![SourceAction::NotifyDrained],
                )
            } else {
                (
                    MgrV {
                        state: SourceState::Draining,
                        has_connector_channel: true,
                        drain_signal_sent: false,
                        ..m
                    },
                    Control::Continue,
                    Seq::empty(),
                )
            }
        },
        SourceMsgV::ConnectionLost => (
            m,
            Control::Continue,
            seq![SourceAction::CallOnConnectionLost],
        ),
        SourceMsgV::ConnectionEstablished => (
            m,
            Control::Continue,
            seq![SourceAction::CallOnConnectionEstablished],
        ),
        SourceMsgV::Cb(CbAction::Fail, id) => {
            if id_candidates(id, m.uid) =~= Set::<(u64, u64)>::empty() {
                (m, Control::Continue, Seq::empty())
            } else {
                (m, Control::Continue, Seq::new(1, |i: int| fail_action_of(id, m.uid)))
            }
        },
        SourceMsgV::Cb(CbAction::Ack, id) => {
            if id_candidates(id, m.uid) =~= Set::<(u64, u64)>::empty() {
                (m, Control::Continue, Seq::empty())
            } else {
                (m, Control::Continue, Seq::new(1, |i: int| ack_action_of(id, m.uid)))
            }
        },
        SourceMsgV::Cb(CbAction::Close, _) => (
            MgrV { state: SourceState::Paused, ..m },
            Control::Continue,
            seq![SourceAction::CallOnCbClose],
        ),
        SourceMsgV::Cb(CbAction::Open, _) => (
            MgrV { state: SourceState::Running, ..m },
            Control::Continue,
            seq![SourceAction::CallOnCbOpen],
        ),
        SourceMsgV::Cb(CbAction::Drained(cuid), _) => {
            if cuid == m.uid && m.state == SourceState::Draining && m.expected_drained > 0 {
                let left = m.expected_drained - 1;
                if left == 0 {
                    (
                        MgrV { state: SourceState::Drained, expected_drained: 0, ..m },
                        Control::Continue,
                        if m.has_connector_channel {
                            seq![SourceAction::NotifyDrained]
                        } else {
                            Seq::empty()
                        },
                    )
                } else {
                    (MgrV { expected_drained: left, ..m }, Control::Continue, Seq::empty())
                }
            } else {
                (m, Control::Continue, Seq::empty())
            }
        },
        SourceMsgV::Cb(CbAction::Noop, _) => (m, Control::Continue, Seq::empty()),
    }
}

/// The failure callback a `Fail` contraflow message resolves to: the least
/// pull id of this source seen in the message.
pub open spec fn fail_action_of(id: EventIdV, uid: u64) -> SourceAction {
    let c = choose|c: (u64, u64)|
        id_candidates(id, uid).contains(c) && forall|o: (u64, u64)|
            id_candidates(id, uid).contains(o) ==> o.1 >= c.1;
    SourceAction::CallFail { stream_id: c.0, pull_id: c.1 }
}

/// The acknowledgment callback an `Ack` contraflow message resolves to: the
/// greatest pull id of this source seen in the message.
pub open spec fn ack_action_of(id: EventIdV, uid: u64) -> SourceAction {
    let c = choose|c: (u64, u64)|
        id_candidates(id, uid).contains(c) && forall|o: (u64, u64)|
            id_candidates(id, uid).contains(o) ==> o.1 <= c.1;
    SourceAction::CallAck { stream_id: c.0, pull_id: c.1 }
}

/// Folding a sequence of control messages through the transition function.
pub open spec fn run_msgs(m: MgrV, msgs: Seq<SourceMsgV>) -> MgrV
    decreases msgs.len(),
{
    if msgs.len() == 0 {
        m
    } else {
        run_msgs(ctrl_step(m, msgs[0]).0, msgs.drop_first())
    }
}

/// `k` drain acknowledgments tagged with this manager's own connector id.
pub open spec fn drained_msgs(uid: u64, id: EventIdV, k: nat) -> Seq<SourceMsgV> {
    Seq::new(k, |i: int| SourceMsgV::Cb(CbAction::Drained(uid), id))
}

/// A `Pause` while already `Paused` is a no-op: the state is unchanged and no
/// `on_pause` callback is issued.
pub proof fn lemma_pause_while_paused_is_noop(m: MgrV)
    requires
        m.state == SourceState::Paused,
    ensures
        ctrl_step(m, SourceMsgV::Pause).0 == m,
        ctrl_step(m, SourceMsgV::Pause).2 =~= Seq::<SourceAction>::empty(),
{
}

/// A `Resume` while not `Paused` is likewise ignored, never an error.
pub proof fn lemma_resume_while_not_paused_is_noop(m: MgrV)
    requires
        m.state != SourceState::Paused,
    ensures
        ctrl_step(m, SourceMsgV::Resume).0 == m,
        ctrl_step(m, SourceMsgV::Resume).2 =~= Seq::<SourceAction>::empty(),
{
}

/// A drain acknowledgment tagged with a foreign connector id changes nothing.
pub proof fn lemma_foreign_drained_ignored(m: MgrV, id: EventIdV, other: u64)
    requires
        other != m.uid,
    ensures
        ctrl_step(m, SourceMsgV::Cb(CbAction::Drained(other), id)).0 == m,
        ctrl_step(m, SourceMsgV::Cb(CbAction::Drained(other), id)).2
            =~= Seq::<SourceAction>::empty(),
{
}

/// Once `Drained`, further own-id drain acknowledgments change nothing.
pub proof fn lemma_drained_is_stable(m: MgrV, id: EventIdV, k: nat)
    requires
        m.state == SourceState::Drained,
    ensures
        run_msgs(m, drained_msgs(m.uid, id, k)) == m,
    decreases k,
{
    if k > 0 {
        let msgs = drained_msgs(m.uid, id, k);
        assert(ctrl_step(m, msgs[0]).0 == m);
        assert(msgs.drop_first() =~= drained_msgs(m.uid, id, (k - 1) as nat));
        lemma_drained_is_stable(m, id, (k - 1) as nat);
    }
}

/// The drain handshake: a manager parked in `Draining` that expects `n`
/// acknowledgments transitions to `Drained` only after exactly `n`
/// `Drained` messages tagged with its own connector id; fewer leave it in
/// `Draining` with the remainder still expected (forever, but for an external
/// timeout outside this component).
pub proof fn lemma_drain_handshake(m: MgrV, id: EventIdV, k: nat)
    requires
        m.state == SourceState::Draining,
        0 < m.expected_drained,
        k <= m.expected_drained,
    ensures
        ({
            let m2 = run_msgs(m, drained_msgs(m.uid, id, k));
            &&& (k < m.expected_drained ==> m2.state == SourceState::Draining
                && m2.expected_drained == m.expected_drained - k)
            &&& (k == m.expected_drained ==> m2.state == SourceState::Drained
                && m2.expected_drained == 0)
        }),
    decreases k,
{
    if k > 0 {
        let msgs = drained_msgs(m.uid, id, k);
        let m1 = ctrl_step(m, msgs[0]).0;
        assert(msgs.drop_first() =~= drained_msgs(m.uid, id, (k - 1) as nat));
        if m.expected_drained == 1 {
            assert(m1.state == SourceState::Drained);
            lemma_drained_is_stable(m1, id, (k - 1) as nat);
        } else {
            assert(m1.state == SourceState::Draining);
            assert(m1.uid == m.uid);
            lemma_drain_handshake(m1, id, (k - 1) as nat);
        }
    }
}

/// Removes all occurrences of a pipeline id.
#[verifier::loop_isolation(false)]
fn retain_except(pipes: &mut Vec<u64>, id: u64)
    ensures
        final(pipes)@ == old(pipes)@.filter(|p: u64| p != id),
{
    let ghost pre = pipes@;
    let mut out: Vec<u64> = Vec::new();
    let mut i: usize = 0;
    proof {
        reveal_with_fuel(Seq::filter, 2);
        assert(pre.take(0) =~= Seq::<u64>::empty());
    }
    while i < pipes.len()
        invariant
            i <= pipes@.len(),
            pipes@ == pre,
            out@ == pre.take(i as int).filter(|p: u64| p != id),
        decreases pipes@.len() - i,
    {
        let p = pipes[i];
        proof {
            reveal_with_fuel(Seq::filter, 2);
            assert(pre.take(i as int + 1).drop_last() =~= pre.take(i as int));
            assert(pre.take(i as int + 1).last() == p);
        }
        if p != id {
            out.push(p);
        }
        i = i + 1;
    }
    proof {
        assert(pre.take(pre.len() as int) =~= pre);
    }
    *pipes = out;
}

/// One step of the manager's control plane; performs the transition
/// [`ctrl_step`] describes and returns the loop control with the actions the
/// task must perform, in order. For `Ack`/`Fail` contraflow the resolved
/// callback is pinned by its minimum/maximum property instead (when several
/// streams share the extreme pull id, which of them is named is unspecified).
pub fn handle_control_plane_msg(m: &mut SourceManager, msg: SourceMsg) -> (r: (
    Control,
    Vec<SourceAction>,
))
    ensures
        ({
            let (m2, c2, a2) = ctrl_step(old(m)@, msg@);
            match msg@ {
                SourceMsgV::Cb(CbAction::Fail, id) => {
                    &&& final(m)@ == old(m)@
                    &&& r.0 == Control::Continue
                    &&& if id_candidates(id, old(m)@.uid) =~= Set::<(u64, u64)>::empty() {
                        r.1@.len() == 0
                    } else {
                        r.1@.len() == 1 && match r.1@[0] {
                            SourceAction::CallFail { stream_id, pull_id } => id_candidates(
                                id,
                                old(m)@.uid,
                            ).contains((stream_id, pull_id)) && forall|o: (u64, u64)|
                                id_candidates(id, old(m)@.uid).contains(o) ==> o.1 >= pull_id,
                            _ => false,
                        }
                    }
                },
                SourceMsgV::Cb(CbAction::Ack, id) => {
                    &&& final(m)@ == old(m)@
                    &&& r.0 == Control::Continue
                    &&& if id_candidates(id, old(m)@.uid) =~= Set::<(u64, u64)>::empty() {
                        r.1@.len() == 0
                    } else {
                        r.1@.len() == 1 && match r.1@[0] {
                            SourceAction::CallAck { stream_id, pull_id } => id_candidates(
                                id,
                                old(m)@.uid,
                            ).contains((stream_id, pull_id)) && forall|o: (u64, u64)|
                                id_candidates(id, old(m)@.uid).contains(o) ==> o.1 <= pull_id,
                            _ => false,
                        }
                    }
                },
                _ => final(m)@ == m2 && r.0 == c2 && r.1@ == a2,
            }
        }),
{
    let mut acts: Vec<SourceAction> = Vec::new();
    match msg {
        SourceMsg::Link { port, pipelines } => {
            match port {
                Port::Out | Port::Error => {
                    let mut i: usize = 0;
                    #[verifier::loop_isolation(false)]
                    while i < pipelines.len()
                        invariant
                            i <= pipelines@.len(),
                            acts@ =~= Seq::new(
                                i as nat,
                                |k: int| SourceAction::ConnectInput { pipeline: pipelines@[k] },
                            ),
                        decreases pipelines@.len() - i,
                    {
                        acts.push(SourceAction::ConnectInput { pipeline: pipelines[i] });
                        i = i + 1;
                    }
                    proof {
                        assert(acts@ =~= Seq::new(
                            pipelines@.len(),
                            |k: int| SourceAction::ConnectInput { pipeline: pipelines@[k] },
                        ));
                    }
                    let mut pipelines = pipelines;
                    if matches!(port, Port::Out) {
                        m.pipelines_out.append(&mut pipelines);
                    } else {
                        m.pipelines_err.append(&mut pipelines);
                    }
                    (Control::Continue, acts)
                }
                Port::Other(_) => (Control::Continue, acts),
            }
        }
        SourceMsg::Unlink { port, id } => {
            match port {
                Port::Out => retain_except(&mut m.pipelines_out, id),
                Port::Error => retain_except(&mut m.pipelines_err, id),
                Port::Other(_) => {
                    return (Control::Continue, acts);
                }
            }
            if m.pipelines_out.len() == 0 && m.pipelines_err.len() == 0 {
                acts.push(SourceAction::CallOnStop);
                proof {
                    assert(acts@ =~= seq![SourceAction::CallOnStop]);
                }
                (Control::Terminate, acts)
            } else {
                (Control::Continue, acts)
            }
        }
        SourceMsg::Start => {
            if matches!(m.state, SourceState::Initialized) {
                m.state = SourceState::Running;
                acts.push(SourceAction::CallOnStart);
                acts.push(SourceAction::SendSignalStart);
                proof {
                    assert(acts@ =~= seq![
                        SourceAction::CallOnStart,
                        SourceAction::SendSignalStart,
                    ]);
                }
            }
            (Control::Continue, acts)
        }
        SourceMsg::Resume => {
            if matches!(m.state, SourceState::Paused) {
                m.state = SourceState::Running;
                acts.push(SourceAction::CallOnResume);
                proof {
                    assert(acts@ =~= seq![SourceAction::CallOnResume]);
                }
            }
            (Control::Continue, acts)
        }
        SourceMsg::Pause => {
            if matches!(m.state, SourceState::Running) {
                m.state = SourceState::Paused;
                acts.push(SourceAction::CallOnPause);
                proof {
                    assert(acts@ =~= seq![SourceAction::CallOnPause]);
                }
            }
            (Control::Continue, acts)
        }
        SourceMsg::Stop => {
            m.state = SourceState::Stopped;
            acts.push(SourceAction::CallOnStop);
            acts.push(SourceAction::ReplyStop);
            proof {
                assert(acts@ =~= seq![SourceAction::CallOnStop, SourceAction::ReplyStop]);
            }
            (Control::Terminate, acts)
        }
        SourceMsg::Drain => {
            if matches!(m.state, SourceState::Draining) {
                (Control::Continue, acts)
            } else if matches!(m.state, SourceState::Drained) {
                acts.push(SourceAction::NotifyDrained);
                proof {
                    assert(acts@ =~= seq![SourceAction::NotifyDrained]);
                }
                (Control::Continue, acts)
            } else if m.pipelines_out.len() == 0 && m.pipelines_err.len() == 0 {
                m.state = SourceState::Drained;
                acts.push(SourceAction::NotifyDrained);
                proof {
                    assert(acts@ =~= seq![SourceAction::NotifyDrained]);
                }
                (Control::Continue, acts)
            } else {
                m.state = SourceState::Draining;
                m.has_connector_channel = true;
                m.drain_signal_sent = false;
                (Control::Continue, acts)
            }
        }
        SourceMsg::ConnectionLost => {
            acts.push(SourceAction::CallOnConnectionLost);
            proof {
                assert(acts@ =~= seq![SourceAction::CallOnConnectionLost]);
            }
            (Control::Continue, acts)
        }
        SourceMsg::ConnectionEstablished => {
            acts.push(SourceAction::CallOnConnectionEstablished);
            proof {
                assert(acts@ =~= seq![SourceAction::CallOnConnectionEstablished]);
            }
            (Control::Continue, acts)
        }
        SourceMsg::Cb(CbAction::Fail, id) => {
            if let Some((stream_id, pull_id)) = id.get_min_by_source(m.uid) {
                acts.push(SourceAction::CallFail { stream_id, pull_id });
            }
            (Control::Continue, acts)
        }
        SourceMsg::Cb(CbAction::Ack, id) => {
            if let Some((stream_id, pull_id)) = id.get_max_by_source(m.uid) {
                acts.push(SourceAction::CallAck { stream_id, pull_id });
            }
            (Control::Continue, acts)
        }
        SourceMsg::Cb(CbAction::Close, _) => {
            m.state = SourceState::Paused;
            acts.push(SourceAction::CallOnCbClose);
            proof {
                assert(acts@ =~= seq![SourceAction::CallOnCbClose]);
            }
            (Control::Continue, acts)
        }
        SourceMsg::Cb(CbAction::Open, _) => {
            m.state = SourceState::Running;
            acts.push(SourceAction::CallOnCbOpen);
            proof {
                assert(acts@ =~= seq![SourceAction::CallOnCbOpen]);
            }
            (Control::Continue, acts)
        }
        SourceMsg::Cb(CbAction::Drained(cuid), _) => {
            if cuid == m.uid && matches!(m.state, SourceState::Draining) && m.expected_drained
                > 0 {
                m.expected_drained = m.expected_drained - 1;
                if m.expected_drained == 0 {
                    m.state = SourceState::Drained;
                    if m.has_connector_channel {
                        acts.push(SourceAction::NotifyDrained);
                        proof {
                            assert(acts@ =~= seq![SourceAction::NotifyDrained]);
                        }
                    }
                }
            }
            (Control::Continue, acts)
        }
        SourceMsg::Cb(CbAction::Noop, _) => (Control::Continue, acts),
    }
}

/// What an `Empty` pull reply means: the first time the source runs dry
/// while `Draining`, phase one of the handshake runs — the drain signal goes
/// downstream and one acknowledgment per connected pipeline is awaited (none
/// connected: drained immediately). Later `Empty` replies while parked in
/// `Draining` are no-ops: the signal is never re-sent and the expected count
/// never reset. Outside `Draining` the task just waits the given
/// milliseconds before the next pull.
pub fn handle_empty_reply(m: &mut SourceManager, wait_ms: u64) -> (r: (
    Vec<SourceAction>,
    Option<u64>,
))
    requires
        old(m)@.pipelines_out.len() + old(m)@.pipelines_err.len() <= usize::MAX,
    ensures
        ({
            let pre = old(m)@;
            if pre.state == SourceState::Draining && !pre.drain_signal_sent {
                let n = pre.pipelines_out.len() + pre.pipelines_err.len();
                &&& r.1 is None
                &&& if n == 0 {
                    &&& final(m)@ == MgrV {
                        state: SourceState::Drained,
                        drain_signal_sent: true,
                        expected_drained: 0,
                        ..pre
                    }
                    &&& r.0@ == if pre.has_connector_channel {
                        seq![SourceAction::NotifyDrained]
                    } else {
                        Seq::<SourceAction>::empty()
                    }
                } else {
                    &&& final(m)@ == MgrV {
                        drain_signal_sent: true,
                        expected_drained: n as int,
                        ..pre
                    }
                    &&& r.0@ == seq![SourceAction::SendSignalDrain]
                }
            } else {
                final(m)@ == pre && r.0@ == Seq::<SourceAction>::empty() && r.1 == Some(wait_ms)
            }
        }),
{
    let mut acts: Vec<SourceAction> = Vec::new();
    if matches!(m.state, SourceState::Draining) && !m.drain_signal_sent {
        m.drain_signal_sent = true;
        let n = m.pipelines_out.len() + m.pipelines_err.len();
        if n == 0 {
            m.state = SourceState::Drained;
            m.expected_drained = 0;
            if m.has_connector_channel {
                acts.push(SourceAction::NotifyDrained);
                proof {
                    assert(acts@ =~= seq![SourceAction::NotifyDrained]);
                }
            }
        } else {
            m.expected_drained = n;
            acts.push(SourceAction::SendSignalDrain);
            proof {
                assert(acts@ =~= seq![SourceAction::SendSignalDrain]);
            }
        }
        (acts, None)
    } else {
        (acts, Some(wait_ms))
    }
}

} // verus!
