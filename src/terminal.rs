//! The terminal: connection state, the choice between a pending log record
//! and a heartbeat, and the pacing of cycles.
//!
//! The terminal makes decisions only. It tells its driver what to do next
//! (an [`Action`]) and learns what came of it (an [`Event`]); the driver
//! owns the transport, the log buffer and the timer.
use vstd::prelude::*;
use crate::frame::{decimal, frame, frame_packets, kind_tag, length_fits, packets_view, CommKind};

verus! {

/// Where the terminal stands in its cycle.
#[derive(Clone, Copy, Debug, PartialEq, Eq, Structural)]
pub enum Stage {
    /// Waiting for a host to attach.
    Connecting,
    /// Waiting for the log buffer to offer its oldest record, or nothing.
    Taking,
    /// Waiting for the transport to confirm the packet in flight.
    Writing,
    /// Waiting for the delivered record to be released.
    Releasing,
    /// Waiting for the delay before the next cycle to run out.
    Sleeping,
}

/// What one cycle did.
#[derive(Clone, Copy, Debug, PartialEq, Eq, Structural)]
pub enum CycleOutcome {
    /// A log record was taken and its frame attempted.
    LogDelivered,
    /// No record was pending; a heartbeat frame was attempted.
    HeartbeatSent,
}

/// A packet could not be written.
#[derive(Clone, Copy, Debug, PartialEq, Eq, Structural)]
pub struct TransportError;

/// What the driver reports back.
pub enum Event {
    /// A host attached.
    Connected,
    /// The log buffer's oldest unread record, or `None` when it is empty.
    Taken(Option<Vec<u8>>),
    /// The result of writing the packet in flight.
    Written(Result<(), TransportError>),
    /// The record was released.
    Released,
    /// The delay ran out.
    Woke,
}

/// What the driver is asked to do.
pub enum Action {
    /// Wait until a host attaches.
    AwaitConnection,
    /// Try to take the oldest unread record, without waiting.
    TakeRecord,
    /// Write one packet.
    WritePacket(Vec<u8>),
    /// Release the record taken in this cycle, which has this many bytes.
    Release(usize),
    /// Wait this many milliseconds.
    Sleep(u64),
}

/// The heartbeat payload: the ASCII text `heartbeat message: <3`.
pub open spec fn heartbeat_bytes() -> Seq<u8> {
    seq![
        0x68, 0x65, 0x61, 0x72, 0x74, 0x62, 0x65, 0x61, 0x74, 0x20, 0x6d,
        0x65, 0x73, 0x73, 0x61, 0x67, 0x65, 0x3a, 0x20, 0x3c, 0x33,
    ]
}

proof fn lemma_heartbeat_fits()
    ensures
        heartbeat_bytes().len() == 21,
        length_fits(heartbeat_bytes().len()),
{
    reveal_with_fuel(decimal, 3);
    assert(decimal(21).len() == 2);
}

/// The heartbeat payload, built afresh.
pub fn heartbeat_message() -> (r: Vec<u8>)
    ensures
        r@ == heartbeat_bytes(),
{
    let r: Vec<u8> = vec![
        0x68, 0x65, 0x61, 0x72, 0x74, 0x62, 0x65, 0x61, 0x74, 0x20, 0x6d,
        0x65, 0x73, 0x73, 0x61, 0x67, 0x65, 0x3a, 0x20, 0x3c, 0x33,
    ];
    assert(r@ =~= heartbeat_bytes());
    r
}

/// The state of a terminal, as mathematical values.
pub struct TerminalModel {
    pub connected: bool,
    pub stage: Stage,
    pub max_packet_size: nat,
    pub short_delay: nat,
    pub long_delay: nat,
    /// Packets of the frame of this cycle.
    pub packets: Seq<Seq<u8>>,
    /// Index of the packet in flight.
    pub next: nat,
    /// Length of the record this cycle's frame carries, if it carries one.
    pub record_len: Option<nat>,
    pub outcome: CycleOutcome,
    /// Frames in a row that the transport failed.
    pub failures: nat,
    /// Failed frames in a row taken as the host having gone; zero never
    /// gives up on the connection.
    pub failure_limit: nat,
}

/// The invariant of a terminal's state.
pub open spec fn model_wf(m: TerminalModel) -> bool {
    &&& m.max_packet_size > 0
    &&& m.stage == Stage::Writing ==> m.next < m.packets.len()
    &&& m.stage == Stage::Releasing ==> m.record_len is Some
    &&& m.failure_limit == 0 ==> m.failures == 0
    &&& m.failure_limit > 0 ==> m.failures < m.failure_limit
}

/// How long to wait after a cycle with this outcome.
pub open spec fn delay_after(m: TerminalModel, outcome: CycleOutcome) -> nat {
    match outcome {
        CycleOutcome::LogDelivered => m.short_delay,
        CycleOutcome::HeartbeatSent => m.long_delay,
    }
}

/// The state after a cycle ends, whatever its frame came to.
pub open spec fn end_cycle(m: TerminalModel) -> TerminalModel {
    TerminalModel { stage: Stage::Sleeping, ..m }
}

/// The state after a frame failed on the transport: the cycle ends, and
/// when failures in a row reach the limit the connection counts as lost.
pub open spec fn after_failure(m: TerminalModel) -> TerminalModel {
    if m.failure_limit == 0 {
        end_cycle(m)
    } else if m.failures + 1 >= m.failure_limit {
        TerminalModel { connected: false, failures: 0, stage: Stage::Sleeping, ..m }
    } else {
        TerminalModel { failures: m.failures + 1, stage: Stage::Sleeping, ..m }
    }
}

/// The state after the oldest record (or none) was offered.
pub open spec fn after_take(m: TerminalModel, record: Option<Seq<u8>>) -> TerminalModel {
    match record {
        None => TerminalModel {
            stage: Stage::Writing,
            packets: frame(CommKind::Heartbeat, heartbeat_bytes(), m.max_packet_size),
            next: 0,
            record_len: None,
            outcome: CycleOutcome::HeartbeatSent,
            ..m
        },
        Some(r) => if length_fits(r.len()) {
            TerminalModel {
                stage: Stage::Writing,
                packets: frame(CommKind::Log, r, m.max_packet_size),
                next: 0,
                record_len: Some(r.len()),
                outcome: CycleOutcome::LogDelivered,
                ..m
            }
        } else {
            TerminalModel {
                stage: Stage::Sleeping,
                packets: Seq::empty(),
                next: 0,
                record_len: None,
                outcome: CycleOutcome::LogDelivered,
                ..m
            }
        },
    }
}

/// The record an event offers, as bytes.
pub open spec fn offered(e: Event) -> Option<Seq<u8>> {
    match e {
        Event::Taken(Some(r)) => Some(r@),
        _ => None,
    }
}

/// The state after an event. An event the stage does not wait for leaves
/// the state as it is.
pub open spec fn step_model(m: TerminalModel, e: Event) -> TerminalModel {
    match m.stage {
        Stage::Connecting => match e {
            Event::Connected => TerminalModel { connected: true, stage: Stage::Taking, ..m },
            _ => m,
        },
        Stage::Taking => match e {
            Event::Taken(_) => after_take(m, offered(e)),
            _ => m,
        },
        Stage::Writing => match e {
            Event::Written(Ok(_)) => if m.next + 1 < m.packets.len() {
                TerminalModel { next: m.next + 1, ..m }
            } else if m.record_len is Some {
                TerminalModel { stage: Stage::Releasing, failures: 0, ..m }
            } else {
                TerminalModel { stage: Stage::Sleeping, failures: 0, ..m }
            },
            Event::Written(Err(_)) => after_failure(m),
            _ => m,
        },
        Stage::Releasing => match e {
            Event::Released => end_cycle(m),
            _ => m,
        },
        Stage::Sleeping => match e {
            Event::Woke => TerminalModel {
                stage: if m.connected {
                    Stage::Taking
                } else {
                    Stage::Connecting
                },
                ..m
            },
            _ => m,
        },
    }
}

/// Whether an action is the one a state asks for.
pub open spec fn is_pending(a: Action, m: TerminalModel) -> bool {
    match m.stage {
        Stage::Connecting => a is AwaitConnection,
        Stage::Taking => a is TakeRecord,
        Stage::Writing => a matches Action::WritePacket(p) && p@ == m.packets[m.next as int],
        Stage::Releasing => a matches Action::Release(n) && Some(n as nat) == m.record_len,
        Stage::Sleeping => a matches Action::Sleep(d) && d == delay_after(m, m.outcome),
    }
}

/// Drives the diagnostic channel: one frame per cycle, a log record when
/// one is pending and a heartbeat otherwise.
pub struct Terminal {
    /// Whether a host has attached.
    pub is_connected: bool,
    stage: Stage,
    max_packet_size: usize,
    short_delay_ms: u64,
    long_delay_ms: u64,
    packets: Vec<Vec<u8>>,
    next: usize,
    record_len: Option<usize>,
    outcome: CycleOutcome,
    failures: u64,
    failure_limit: u64,
}

impl View for Terminal {
    type V = TerminalModel;

    closed spec fn view(&self) -> TerminalModel {
        TerminalModel {
            connected: self.is_connected,
            stage: self.stage,
            max_packet_size: self.max_packet_size as nat,
            short_delay: self.short_delay_ms as nat,
            long_delay: self.long_delay_ms as nat,
            packets: packets_view(self.packets@),
            next: self.next as nat,
            record_len: match self.record_len {
                Some(n) => Some(n as nat),
                None => None,
            },
            outcome: self.outcome,
            failures: self.failures as nat,
            failure_limit: self.failure_limit as nat,
        }
    }
}

impl Terminal {
    /// The invariant of a terminal.
    pub closed spec fn wf(&self) -> bool {
        model_wf(self@)
    }

    /// A terminal that is not connected yet. It writes payload packets of at
    /// most `max_packet_size` bytes and waits `short_delay_ms` after a cycle
    /// that took a record, `long_delay_ms` after one that sent a heartbeat.
    /// After `failure_limit` frames in a row fail on the transport it takes
    /// the host as gone and waits for a connection again; with a limit of
    /// zero it never does.
    pub fn new(
        max_packet_size: usize,
        short_delay_ms: u64,
        long_delay_ms: u64,
        failure_limit: u64,
    ) -> (t: Terminal)
        requires
            max_packet_size > 0,
        ensures
            t.wf(),
            t@.connected == false,
            t@.stage == Stage::Connecting,
            t@.max_packet_size == max_packet_size,
            t@.short_delay == short_delay_ms,
            t@.long_delay == long_delay_ms,
            t@.failures == 0,
            t@.failure_limit == failure_limit,
    {
        Terminal {
            is_connected: false,
            stage: Stage::Connecting,
            max_packet_size,
            short_delay_ms,
            long_delay_ms,
            packets: Vec::new(),
            next: 0,
            record_len: None,
            outcome: CycleOutcome::HeartbeatSent,
            failures: 0,
            failure_limit,
        }
    }

    /// Forgets any connection: the next action waits for a host.
    pub fn init(&mut self)
        requires
            old(self).wf(),
        ensures
            final(self).wf(),
            final(self)@ == (TerminalModel {
                connected: false,
                stage: Stage::Connecting,
                ..old(self)@
            }),
    {
        self.is_connected = false;
        self.stage = Stage::Connecting;
    }

    /// The action the current state waits on.
    pub fn pending_action(&self) -> (a: Action)
        requires
            self.wf(),
        ensures
            is_pending(a, self@),
    {
        match self.stage {
            Stage::Connecting => Action::AwaitConnection,
            Stage::Taking => Action::TakeRecord,
            Stage::Writing => {
                let p = self.packets[self.next].clone();
                Action::WritePacket(p)
            },
            Stage::Releasing => {
                let n = match self.record_len {
                    Some(n) => n,
                    None => 0,
                };
                Action::Release(n)
            },
            Stage::Sleeping => {
                let d = match self.outcome {
                    CycleOutcome::LogDelivered => self.short_delay_ms,
                    CycleOutcome::HeartbeatSent => self.long_delay_ms,
                };
                Action::Sleep(d)
            },
        }
    }

    /// Takes in what came of the last action and returns the next one.
    pub fn step(&mut self, event: Event) -> (a: Action)
        requires
            old(self).wf(),
        ensures
            final(self).wf(),
            final(self)@ == step_model(old(self)@, event),
            is_pending(a, final(self)@),
    {
        match (self.stage, event) {
            (Stage::Connecting, Event::Connected) => {
                self.is_connected = true;
                self.stage = Stage::Taking;
            },
            (Stage::Taking, Event::Taken(None)) => {
                let msg = heartbeat_message();
                proof {
                    lemma_heartbeat_fits();
                }
                let built = frame_packets(CommKind::Heartbeat, msg.as_slice(), self.max_packet_size);
                match built {
                    Ok(v) => {
                        self.packets = v;
                        self.stage = Stage::Writing;
                    },
                    Err(_) => {
                        self.packets = Vec::new();
                        self.stage = Stage::Sleeping;
                    },
                }
                self.next = 0;
                self.record_len = None;
                self.outcome = CycleOutcome::HeartbeatSent;
            },
            (Stage::Taking, Event::Taken(Some(r))) => {
                let built = frame_packets(CommKind::Log, r.as_slice(), self.max_packet_size);
                match built {
                    Ok(v) => {
                        self.packets = v;
                        self.stage = Stage::Writing;
                        self.record_len = Some(r.len());
                    },
                    Err(_) => {
                        self.packets = Vec::new();
                        self.stage = Stage::Sleeping;
                        self.record_len = None;
                        assert(packets_view(self.packets@) =~= Seq::<Seq<u8>>::empty());
                    },
                }
                self.next = 0;
                self.outcome = CycleOutcome::LogDelivered;
            },
            (Stage::Writing, Event::Written(Ok(_))) => {
                if self.next < self.packets.len() - 1 {
                    self.next = self.next + 1;
                } else if self.record_len.is_some() {
                    self.stage = Stage::Releasing;
                    self.failures = 0;
                } else {
                    self.stage = Stage::Sleeping;
                    self.failures = 0;
                }
            },
            (Stage::Writing, Event::Written(Err(_))) => {
                self.stage = Stage::Sleeping;
                if self.failure_limit > 0 {
                    if self.failures >= self.failure_limit - 1 {
                        self.is_connected = false;
                        self.failures = 0;
                    } else {
                        self.failures = self.failures + 1;
                    }
                }
            },
            (Stage::Releasing, Event::Released) => {
                self.stage = Stage::Sleeping;
            },
            (Stage::Sleeping, Event::Woke) => {
                self.stage = if self.is_connected {
                    Stage::Taking
                } else {
                    Stage::Connecting
                };
            },
            _ => {},
        }
        self.pending_action()
    }
}

/// Log traffic preempts the heartbeat: when the log buffer offers a record,
/// the cycle counts as a log delivery and every frame packet it writes
/// belongs to a log frame for that record; a heartbeat frame is built only
/// when nothing is offered.
pub proof fn lemma_record_preempts_heartbeat(m: TerminalModel, r: Seq<u8>)
    requires
        model_wf(m),
        m.stage == Stage::Taking,
    ensures
        after_take(m, Some(r)).outcome == CycleOutcome::LogDelivered,
        after_take(m, Some(r)).packets.len() > 0 ==> after_take(m, Some(r)).packets
            == frame(CommKind::Log, r, m.max_packet_size),
        after_take(m, Some(r)).packets.len() > 0 ==> after_take(m, Some(r)).packets[0][0]
            == kind_tag(CommKind::Log),
        kind_tag(CommKind::Log) != kind_tag(CommKind::Heartbeat),
        after_take(m, None).outcome == CycleOutcome::HeartbeatSent,
        after_take(m, None).packets[0][0] == kind_tag(CommKind::Heartbeat),
{
}

/// A log frame that fails on any of its packets ends the cycle at once: no
/// further packet is asked for and the record is not released. The next
/// cycle (after a new connection, when the failure counted as the host
/// leaving) asks for the oldest record again, and the same record gives the
/// same frame, from its first packet.
pub proof fn lemma_failed_log_frame_is_retried(
    m: TerminalModel,
    r: Seq<u8>,
    k: nat,
    err: TransportError,
)
    requires
        model_wf(m),
        m.connected,
        m.stage == Stage::Taking,
        length_fits(r.len()),
        k < frame(CommKind::Log, r, m.max_packet_size).len(),
    ensures
        ({
            let w = after_take(m, Some(r));
            let failed = step_model(TerminalModel { next: k, ..w }, Event::Written(Err(err)));
            let woke = step_model(failed, Event::Woke);
            let resumed = if woke.stage == Stage::Connecting {
                step_model(woke, Event::Connected)
            } else {
                woke
            };
            let again = after_take(resumed, Some(r));
            &&& w.stage == Stage::Writing
            &&& w.packets == frame(CommKind::Log, r, m.max_packet_size)
            &&& failed.stage == Stage::Sleeping
            &&& delay_after(failed, failed.outcome) == m.short_delay
            &&& (woke.stage == Stage::Taking || woke.stage == Stage::Connecting)
            &&& resumed.stage == Stage::Taking
            &&& again.stage == Stage::Writing
            &&& again.next == 0
            &&& again.packets == w.packets
            &&& again.record_len == Some(r.len())
        }),
{
}

/// A record is released only after every packet of its frame was
/// confirmed: the release stage is entered only from the last packet's
/// successful write.
pub proof fn lemma_release_follows_whole_frame(m: TerminalModel, e: Event)
    requires
        model_wf(m),
        m.stage != Stage::Releasing,
        step_model(m, e).stage == Stage::Releasing,
    ensures
        m.stage == Stage::Writing,
        m.next + 1 == m.packets.len(),
        m.record_len is Some,
        e matches Event::Written(Ok(_)),
{
}

/// The outcome of a cycle is fixed when the log buffer answers (a log
/// delivery when it offered a record, a heartbeat otherwise) and no later
/// event of the cycle changes it; the delay that ends the cycle is the short
/// one after a log delivery and the long one after a heartbeat.
pub proof fn lemma_delay_follows_outcome(m: TerminalModel, e: Event, a: Action)
    requires
        model_wf(m),
    ensures
        m.stage == Stage::Taking && e is Taken ==> step_model(m, e).outcome == (if offered(
            e,
        ) is Some {
            CycleOutcome::LogDelivered
        } else {
            CycleOutcome::HeartbeatSent
        }),
        m.stage != Stage::Taking ==> step_model(m, e).outcome == m.outcome,
        step_model(m, e).stage == Stage::Sleeping && is_pending(a, step_model(m, e)) ==> (a matches Action::Sleep(d) && d == (match step_model(m, e).outcome {
            CycleOutcome::LogDelivered => m.short_delay,
            CycleOutcome::HeartbeatSent => m.long_delay,
        })),
{
}

} // verus!
