//! The send, await-acknowledgement, retry protocol that delivers a command
//! sequence, as a state machine.  The machine decides; its driver performs
//! each action on the transport and reports what came of it as an event.

use crate::ihex::{lemma_line_len, CommandType, IntelHex, Record};
use crate::sequence::CommandSequence;
use vstd::prelude::*;

verus! {

/// The acknowledgement byte that the device returns for each kind of record.
/// The values belong to the device's protocol and are supplied by the caller.
#[derive(Copy, Clone, Debug, PartialEq, Eq, Structural)]
pub struct AckTable {
    pub data: u8,
    pub eof: u8,
    pub extended_address: u8,
}

impl AckTable {
    /// The byte that acknowledges a record of the given kind.
    pub open spec fn expected(self, command_type: CommandType) -> u8 {
        match command_type {
            CommandType::Data => self.data,
            CommandType::EOF => self.eof,
            CommandType::ExtendedAddress => self.extended_address,
        }
    }

    /// The byte that acknowledges a record of the given kind.
    pub fn ack_for(&self, command_type: CommandType) -> (byte: u8)
        ensures
            byte == self.expected(command_type),
    {
        match command_type {
            CommandType::Data => self.data,
            CommandType::EOF => self.eof,
            CommandType::ExtendedAddress => self.extended_address,
        }
    }
}

/// Why a session was aborted.
#[derive(Copy, Clone, Debug, PartialEq, Eq, Structural)]
pub enum AbortCause {
    /// A write, flush, read or clear on the transport failed.
    TransportFailure,
    /// The transport took fewer or more bytes than the record's line has.
    ShortWrite,
    /// The device answered with a wrong byte once more than the limit allows.
    RetriesExhausted,
    /// The device stayed silent once more than the limit allows.
    TimedOut,
    /// The caller cancelled the transfer.
    Cancelled,
    /// The driver reported an event that does not answer the pending action.
    UnexpectedEvent,
}

/// Where the session stands with the record in flight.
#[derive(Copy, Clone, Debug, PartialEq, Eq, Structural)]
pub enum Phase {
    /// The record's line is to be written.
    Sending,
    /// The line was written in full and is to be flushed, which completes
    /// the sending.
    Flushing,
    /// The record was sent; the device's answer is to be read.
    AwaitingAck,
    /// The device answered with `nack`, not with the expected byte: the input
    /// buffer is to be cleared before the record is sent again.
    Retrying { nack: u8 },
    /// Every record has been acknowledged.
    Acked,
    /// The session has ended before every record was acknowledged.
    Aborted { cause: AbortCause },
}

/// What the driver reports after it has performed an action.
#[derive(Copy, Clone, Debug, PartialEq, Eq, Structural)]
pub enum Event {
    /// The write returned, having taken this many bytes.
    Written(usize),
    /// The flush returned.
    Flushed,
    /// The read returned with `count` bytes, the first of which is `first`;
    /// a `count` of 0 is a timeout.
    Received { count: usize, first: u8 },
    /// The input buffer was cleared.
    Cleared,
    /// The transport failed on the pending action.
    Failed,
    /// The caller wants the transfer to stop.
    Cancelled,
}

/// What the driver has to do next.
#[derive(Debug, PartialEq, Eq)]
pub enum Action {
    /// Write all bytes of `line`, the line of record `index`, and report
    /// `Written`.
    Write { index: usize, line: String },
    /// Flush the transport and report `Flushed`.
    Flush,
    /// Read from the transport until its timeout and report `Received`.
    Read,
    /// Tell the user that the device answered `nack`, clear the transport's
    /// input buffer and report `Cleared`.
    ClearInput { nack: u8 },
    /// Nothing: every record was acknowledged.
    Finished,
    /// Nothing: the session has been aborted.
    Abort { cause: AbortCause },
}

/// An action, mathematically.
pub enum ActionView {
    Write { index: int, line: Seq<char> },
    Flush,
    Read,
    ClearInput { nack: u8 },
    Finished,
    Abort { cause: AbortCause },
}

impl View for Action {
    type V = ActionView;

    open spec fn view(&self) -> ActionView {
        match *self {
            Action::Write { index, line } => ActionView::Write { index: index as int, line: line@ },
            Action::Flush => ActionView::Flush,
            Action::Read => ActionView::Read,
            Action::ClearInput { nack } => ActionView::ClearInput { nack },
            Action::Finished => ActionView::Finished,
            Action::Abort { cause } => ActionView::Abort { cause },
        }
    }
}

/// The state of a session, mathematically.
pub struct SessionState {
    /// The records to deliver, in order.
    pub records: Seq<Record>,
    /// The expected acknowledgement bytes.
    pub acks: AckTable,
    /// How many wrong or missing answers are tolerated for one record, if
    /// they are counted at all.
    pub retry_limit: Option<u32>,
    /// How many records the device has acknowledged: the index of the record
    /// in flight.
    pub acknowledged: int,
    /// How many wrong or missing answers the record in flight has had, where
    /// there is a limit.
    pub retries: int,
    /// Where the session stands with the record in flight.
    pub phase: Phase,
}

impl SessionState {
    /// The state in which a session starts: the first record is to be sent.
    pub open spec fn start(records: Seq<Record>, acks: AckTable, retry_limit: Option<u32>)
        -> SessionState {
        SessionState { records, acks, retry_limit, acknowledged: 0, retries: 0, phase: Phase::Sending }
    }

    /// What holds of every state that a session reaches.
    pub open spec fn valid(self) -> bool {
        &&& 0 <= self.acknowledged <= self.records.len()
        &&& self.phase == Phase::Acked <==> self.acknowledged == self.records.len()
        &&& match self.retry_limit {
            Some(limit) => 0 <= self.retries <= limit,
            None => self.retries == 0,
        }
    }

    /// Whether the session has ended.
    pub open spec fn ended(self) -> bool {
        self.phase is Acked || self.phase is Aborted
    }

    /// The record in flight.
    pub open spec fn current(self) -> Record
        recommends
            !(self.phase is Acked),
    {
        self.records[self.acknowledged]
    }

    /// The byte that acknowledges the record in flight.
    pub open spec fn expected_ack(self) -> u8 {
        self.acks.expected(self.current().command_type)
    }

    /// Whether `event` is the device's acknowledgement of the record in
    /// flight: an answer, while one is awaited, whose first byte is the
    /// expected one.
    pub open spec fn acknowledges(self, event: Event) -> bool {
        &&& self.phase == Phase::AwaitingAck
        &&& event matches Event::Received { count, first }
        &&& count > 0
        &&& first == self.expected_ack()
    }

    /// Whether one more wrong or missing answer is tolerated.
    pub open spec fn may_retry(self) -> bool {
        match self.retry_limit {
            Some(limit) => self.retries < limit,
            None => true,
        }
    }

    /// This state ended by an abort.
    pub open spec fn abort(self, cause: AbortCause) -> SessionState {
        SessionState { phase: Phase::Aborted { cause }, ..self }
    }

    /// This state in another phase for the same record.
    pub open spec fn enter(self, phase: Phase) -> SessionState {
        SessionState { phase, ..self }
    }

    /// This state after one more wrong or missing answer, in `phase`.
    pub open spec fn retry(self, phase: Phase) -> SessionState {
        SessionState {
            phase,
            retries: if self.retry_limit is Some {
                self.retries + 1
            } else {
                self.retries
            },
            ..self
        }
    }

    /// This state after the record in flight was acknowledged: the next
    /// record is to be sent, or the session is complete.
    pub open spec fn advance(self) -> SessionState {
        SessionState {
            acknowledged: self.acknowledged + 1,
            retries: 0,
            phase: if self.acknowledged + 1 == self.records.len() {
                Phase::Acked
            } else {
                Phase::Sending
            },
            ..self
        }
    }

    /// The state after `event`.  A session that has ended stays as it is.
    /// A failure of the transport or a cancellation aborts it.  Otherwise the
    /// event must answer the pending action:
    /// a write of the whole line leads to the flush, and any other count
    /// aborts; the flush leads to the read; a read without data is repeated,
    /// within the limit; the expected byte acknowledges the record; another
    /// byte leads, within the limit, to the clearing of the input, after
    /// which the same record is sent again.
    pub open spec fn next(self, event: Event) -> SessionState {
        if self.ended() {
            self
        } else if event is Failed {
            self.abort(AbortCause::TransportFailure)
        } else if event is Cancelled {
            self.abort(AbortCause::Cancelled)
        } else {
            match (self.phase, event) {
                (Phase::Sending, Event::Written(count)) => if count == self.current().line().len() {
                    self.enter(Phase::Flushing)
                } else {
                    self.abort(AbortCause::ShortWrite)
                },
                (Phase::Flushing, Event::Flushed) => self.enter(Phase::AwaitingAck),
                (Phase::AwaitingAck, Event::Received { count, first }) => if count == 0 {
                    if self.may_retry() {
                        self.retry(Phase::AwaitingAck)
                    } else {
                        self.abort(AbortCause::TimedOut)
                    }
                } else if first == self.expected_ack() {
                    self.advance()
                } else if self.may_retry() {
                    self.retry(Phase::Retrying { nack: first })
                } else {
                    self.abort(AbortCause::RetriesExhausted)
                },
                (Phase::Retrying { nack }, Event::Cleared) => self.enter(Phase::Sending),
                _ => self.abort(AbortCause::UnexpectedEvent),
            }
        }
    }

    /// The action that is pending in this state.
    pub open spec fn action(self) -> ActionView {
        match self.phase {
            Phase::Sending => ActionView::Write {
                index: self.acknowledged,
                line: self.current().line(),
            },
            Phase::Flushing => ActionView::Flush,
            Phase::AwaitingAck => ActionView::Read,
            Phase::Retrying { nack } => ActionView::ClearInput { nack },
            Phase::Acked => ActionView::Finished,
            Phase::Aborted { cause } => ActionView::Abort { cause },
        }
    }

    /// The state after all of `events`, in order.
    pub open spec fn run(self, events: Seq<Event>) -> SessionState
        decreases events.len(),
    {
        if events.len() == 0 {
            self
        } else {
            self.run(events.drop_last()).next(events.last())
        }
    }
}

/// One step.  Whatever the event, a valid state leads to a valid state with
/// the same records.  The count of acknowledged records rises by one where
/// the event acknowledges the record in flight and stays as it is otherwise,
/// and a write that becomes pending is for the first record that has not
/// been acknowledged.
pub proof fn lemma_step(state: SessionState, event: Event)
    requires
        state.valid(),
    ensures
        state.next(event).valid(),
        state.next(event).records == state.records,
        state.next(event).acks == state.acks,
        state.next(event).retry_limit == state.retry_limit,
        state.next(event).acknowledged == if state.acknowledges(event) {
            state.acknowledged + 1
        } else {
            state.acknowledged
        },
        state.next(event).action() matches ActionView::Write { index, line } ==> index
            == state.next(event).acknowledged && index < state.records.len() && line
            == state.records[index].line(),
{
}

/// Any number of steps.  A valid state stays valid with the same records,
/// and the count of acknowledged records never falls.
pub proof fn lemma_run(state: SessionState, events: Seq<Event>)
    requires
        state.valid(),
    ensures
        state.run(events).valid(),
        state.run(events).records == state.records,
        state.run(events).acks == state.acks,
        state.run(events).acknowledged >= state.acknowledged,
    decreases events.len(),
{
    if events.len() > 0 {
        lemma_run(state, events.drop_last());
        lemma_step(state.run(events.drop_last()), events.last());
    }
}

/// Transmission ordering.  Whatever the driver reports, when the session
/// asks for record `index` to be written, every record before it has been
/// acknowledged: for each earlier record there was a step at which that
/// record was in flight and the device answered with its acknowledgement.
pub proof fn lemma_transmission_order(
    records: Seq<Record>,
    acks: AckTable,
    retry_limit: Option<u32>,
    events: Seq<Event>,
    earlier: int,
)
    requires
        records.len() > 0,
        0 <= earlier < SessionState::start(records, acks, retry_limit).run(events).acknowledged,
    ensures
        exists|step: int|
            0 <= step < events.len() && (#[trigger] SessionState::start(
                records,
                acks,
                retry_limit,
            ).run(events.take(step))).acknowledged == earlier && SessionState::start(
                records,
                acks,
                retry_limit,
            ).run(events.take(step)).acknowledges(events[step]),
    decreases events.len(),
{
    let start = SessionState::start(records, acks, retry_limit);
    if events.len() > 0 {
        let before = start.run(events.drop_last());
        lemma_run(start, events.drop_last());
        lemma_step(before, events.last());
        if earlier < before.acknowledged {
            // The record was acknowledged before the last event.
            lemma_transmission_order(records, acks, retry_limit, events.drop_last(), earlier);
            let step = choose|step: int|
                0 <= step < events.drop_last().len() && (#[trigger] start.run(
                    events.drop_last().take(step),
                )).acknowledged == earlier && start.run(
                    events.drop_last().take(step),
                ).acknowledges(events.drop_last()[step]);
            assert(events.drop_last().take(step) =~= events.take(step));
        } else {
            // The last event is the acknowledgement.
            assert(events.take(events.len() - 1) =~= events.drop_last());
        }
    }
}

/// A write is only ever asked for the record that follows the acknowledged
/// ones, so record `i + 1` is never written before record `i` was
/// acknowledged.
pub proof fn lemma_write_is_next(
    records: Seq<Record>,
    acks: AckTable,
    retry_limit: Option<u32>,
    events: Seq<Event>,
)
    requires
        records.len() > 0,
    ensures
        SessionState::start(records, acks, retry_limit).run(events).action() matches ActionView::Write {
            index,
            line,
        } ==> index == SessionState::start(records, acks, retry_limit).run(events).acknowledged
            && 0 <= index < records.len() && line == records[index].line(),
{
    let start = SessionState::start(records, acks, retry_limit);
    lemma_run(start, events);
}

/// Where a session stands: one value, replaced as a whole at each step.
#[derive(Copy, Clone)]
struct Progress {
    acknowledged: usize,
    retries: u32,
    phase: Phase,
}

/// Delivers one command sequence, record by record, in order.  It owns the
/// sequence and decides each next action; the transport stays with the
/// driver.
pub struct TransmissionSession {
    commands: CommandSequence,
    total: usize,
    acks: AckTable,
    retry_limit: Option<u32>,
    progress: Progress,
}

impl View for TransmissionSession {
    type V = SessionState;

    closed spec fn view(&self) -> SessionState {
        SessionState {
            records: self.commands@,
            acks: self.acks,
            retry_limit: self.retry_limit,
            acknowledged: self.progress.acknowledged as int,
            retries: self.progress.retries as int,
            phase: self.progress.phase,
        }
    }
}

impl TransmissionSession {
    #[verifier::type_invariant]
    spec fn well_formed(self) -> bool {
        self@.valid() && self.total == self.commands@.len()
    }

    /// A session for `commands` with its first record to be sent.  With a
    /// `retry_limit`, a record may get that many wrong or missing answers
    /// before the session is aborted; without one, it is sent and awaited
    /// again for as long as it takes.
    pub fn new(commands: CommandSequence, acks: AckTable, retry_limit: Option<u32>) -> (session:
        TransmissionSession)
        ensures
            session@ == SessionState::start(commands@, acks, retry_limit),
            session@.valid(),
    {
        let total: usize = commands.len();
        TransmissionSession {
            commands,
            total,
            acks,
            retry_limit,
            progress: Progress { acknowledged: 0, retries: 0, phase: Phase::Sending },
        }
    }

    /// The number of records that the device has acknowledged.
    pub fn acknowledged(&self) -> (count: usize)
        ensures
            count == self@.acknowledged,
            count <= self@.records.len(),
    {
        proof {
            use_type_invariant(self);
        }
        self.progress.acknowledged
    }

    /// Where the session stands with the record in flight.
    pub fn phase(&self) -> (phase: Phase)
        ensures
            phase == self@.phase,
    {
        self.progress.phase
    }

    /// The sequence that this session delivers.
    pub fn commands(&self) -> (commands: &CommandSequence)
        ensures
            commands@ == self@.records,
    {
        &self.commands
    }

    /// The action that is pending.
    pub fn action(&self) -> (action: Action)
        ensures
            action@ == self@.action(),
    {
        proof {
            use_type_invariant(self);
        }
        match self.progress.phase {
            Phase::Sending => {
                let index: usize = self.progress.acknowledged;
                let record: &IntelHex = self.commands.get(index).unwrap();
                Action::Write { index, line: record.to_string() }
            },
            Phase::Flushing => Action::Flush,
            Phase::AwaitingAck => Action::Read,
            Phase::Retrying { nack } => Action::ClearInput { nack },
            Phase::Acked => Action::Finished,
            Phase::Aborted { cause } => Action::Abort { cause },
        }
    }

    /// Whether one more wrong or missing answer is tolerated.
    fn may_retry(&self) -> (tolerated: bool)
        ensures
            tolerated == self@.may_retry(),
    {
        match self.retry_limit {
            Some(limit) => self.progress.retries < limit,
            None => true,
        }
    }

    /// The progress after one more wrong or missing answer, in `phase`.
    fn retried(&self, phase: Phase) -> (progress: Progress)
        requires
            self@.may_retry(),
        ensures
            progress.phase == phase,
            progress.acknowledged == self@.acknowledged,
            progress.retries == self@.retry(phase).retries,
    {
        proof {
            use_type_invariant(self);
        }
        let now: Progress = self.progress;
        match self.retry_limit {
            Some(_) => Progress { acknowledged: now.acknowledged, retries: now.retries + 1, phase },
            None => Progress { acknowledged: now.acknowledged, retries: now.retries, phase },
        }
    }

    /// The progress after the device's answer to the record in flight.
    fn answered(&self, count: usize, first: u8) -> (progress: Progress)
        requires
            self@.phase == Phase::AwaitingAck,
        ensures
            progress.acknowledged == self@.next(Event::Received { count, first }).acknowledged,
            progress.retries == self@.next(Event::Received { count, first }).retries,
            progress.phase == self@.next(Event::Received { count, first }).phase,
    {
        proof {
            use_type_invariant(self);
        }
        let now: Progress = self.progress;
        let record: &IntelHex = self.commands.get(now.acknowledged).unwrap();
        if count == 0 {
            if self.may_retry() {
                self.retried(Phase::AwaitingAck)
            } else {
                Progress { phase: Phase::Aborted { cause: AbortCause::TimedOut }, ..now }
            }
        } else if first == self.acks.ack_for(record.command_type()) {
            Progress {
                acknowledged: now.acknowledged + 1,
                retries: 0,
                phase: if now.acknowledged + 1 == self.total {
                    Phase::Acked
                } else {
                    Phase::Sending
                },
            }
        } else if self.may_retry() {
            self.retried(Phase::Retrying { nack: first })
        } else {
            Progress { phase: Phase::Aborted { cause: AbortCause::RetriesExhausted }, ..now }
        }
    }

    /// Takes in what came of the pending action and returns the action that
    /// is pending then.
    pub fn step(&mut self, event: Event) -> (action: Action)
        ensures
            final(self)@ == old(self)@.next(event),
            final(self)@.valid(),
            action@ == final(self)@.action(),
    {
        proof {
            use_type_invariant(&*self);
            lemma_step(self@, event);
        }
        let now: Progress = self.progress;
        let unexpected: Progress = Progress {
            phase: Phase::Aborted { cause: AbortCause::UnexpectedEvent },
            ..now
        };
        let next: Progress = match now.phase {
            Phase::Acked => now,
            Phase::Aborted { .. } => now,
            phase => match event {
                Event::Failed => Progress {
                    phase: Phase::Aborted { cause: AbortCause::TransportFailure },
                    ..now
                },
                Event::Cancelled => Progress {
                    phase: Phase::Aborted { cause: AbortCause::Cancelled },
                    ..now
                },
                Event::Written(count) => match phase {
                    Phase::Sending => {
                        let record: &IntelHex = self.commands.get(now.acknowledged).unwrap();
                        proof {
                            lemma_line_len(record@);
                        }
                        if count == 11 + 2 * record.len() {
                            Progress { phase: Phase::Flushing, ..now }
                        } else {
                            Progress { phase: Phase::Aborted { cause: AbortCause::ShortWrite }, ..now }
                        }
                    },
                    _ => unexpected,
                },
                Event::Flushed => match phase {
                    Phase::Flushing => Progress { phase: Phase::AwaitingAck, ..now },
                    _ => unexpected,
                },
                Event::Received { count, first } => match phase {
                    Phase::AwaitingAck => self.answered(count, first),
                    _ => unexpected,
                },
                Event::Cleared => match phase {
                    Phase::Retrying { .. } => Progress { phase: Phase::Sending, ..now },
                    _ => unexpected,
                },
            },
        };
        self.progress = next;
        self.action()
    }
}

} // verus!
