use vstd::prelude::*;
use crate::codec::{point_of_duty, Duty};

verus! {

/// Status/command port of the EC.
pub const EC_SC_PORT_NUM: u16 = 0x66;
/// Data port of the EC.
pub const EC_DATA_PORT_NUM: u16 = 0x62;
/// Command that sets a fan's duty.
pub const EC_FAN_CONTROL_CMD: u8 = 0x99;
/// The fan that the command addresses.
pub const EC_FAN_CONTROL_PORT: u8 = 0x1;
/// Status bit that is set while the EC's input buffer is full.
pub const IBF: u32 = 1;
/// How many times the status is read before a wait gives up.
pub const MAX_QUERIES: usize = 100;
/// Pause after each read of the status, in microseconds.
pub const QUERY_INTERVAL_MICROS: u64 = 1000;
/// Last stage of a register write: every byte sent and taken.
pub const DONE_STAGE: u8 = 7;

/// A wait for the EC ran out of queries.
#[derive(Debug, Clone, Copy, PartialEq, Eq, Structural)]
pub struct PortIOError;

impl PortIOError {
    pub fn to_display_string(&self) -> (r: String)
        ensures
            r@ == "Error doing Port I/O"@,
    {
        "Error doing Port I/O".to_owned()
    }
}

/// Bit `flag` of a status byte.
pub open spec fn status_bit(data: u8, flag: u32) -> u8 {
    (data >> flag) & 1u8
}

/// Whether bit `flag` of `data` equals `value`.
pub fn bit_matches(data: u8, flag: u32, value: u8) -> (r: bool)
    requires
        flag < 8,
    ensures
        r == (status_bit(data, flag) == value),
{
    (data >> flag) & 1u8 == value
}

/// How one read of the status ends a wait, or does not.
#[derive(Debug, Clone, Copy, PartialEq, Eq, Structural)]
pub enum WaitStep {
    /// The bit has the awaited value.
    Matched,
    /// Read again, after the query interval.
    Pending,
    /// `MAX_QUERIES` reads went by without the awaited value.
    TimedOut,
}

/// A bounded wait for bit `flag` of the status to equal `value`; `polls` counts the reads
/// that did not show it.
#[derive(Debug, Clone, Copy, PartialEq, Eq, Structural)]
pub struct StatusWait {
    pub flag: u32,
    pub value: u8,
    pub polls: usize,
}

impl StatusWait {
    pub open spec fn wf(self) -> bool {
        self.flag < 8 && self.polls < MAX_QUERIES
    }

    /// The wait and the step after one read of the status.
    pub open spec fn spec_step(self, data: u8) -> (StatusWait, WaitStep) {
        if status_bit(data, self.flag) == self.value {
            (StatusWait { polls: 0, ..self }, WaitStep::Matched)
        } else if self.polls + 1 >= MAX_QUERIES {
            (StatusWait { polls: 0, ..self }, WaitStep::TimedOut)
        } else {
            (StatusWait { polls: (self.polls + 1) as usize, ..self }, WaitStep::Pending)
        }
    }

    /// The wait and its step after a run of reads, ignoring those after it ended.
    pub open spec fn after_reads(self, s: Seq<u8>) -> (StatusWait, WaitStep)
        decreases s.len(),
    {
        if s.len() == 0 {
            (self, WaitStep::Pending)
        } else {
            let (w, st) = self.after_reads(s.drop_last());
            if st is Pending {
                w.spec_step(s.last())
            } else {
                (w, st)
            }
        }
    }

    /// A wait that has read nothing yet.
    pub fn new(flag: u32, value: u8) -> (r: StatusWait)
        requires
            flag < 8,
        ensures
            r.wf(),
            r == (StatusWait { flag, value, polls: 0 }),
    {
        StatusWait { flag, value, polls: 0 }
    }

    /// Takes one status byte that was read.
    pub fn on_status(&mut self, data: u8) -> (r: WaitStep)
        requires
            old(self).wf(),
        ensures
            final(self).wf(),
            (*final(self), r) == old(self).spec_step(data),
    {
        if bit_matches(data, self.flag, self.value) {
            self.polls = 0;
            WaitStep::Matched
        } else if self.polls + 1 >= MAX_QUERIES {
            self.polls = 0;
            WaitStep::TimedOut
        } else {
            self.polls = self.polls + 1;
            WaitStep::Pending
        }
    }
}

/// A wait never needs more than `MAX_QUERIES` reads: while it is pending it has counted
/// every read. When no read shows the awaited bit, it is still pending after fewer than
/// `MAX_QUERIES` reads and times out at the `MAX_QUERIES`-th.
pub proof fn lemma_status_wait_bounded(w: StatusWait, s: Seq<u8>)
    requires
        w.wf(),
        w.polls == 0,
        s.len() <= MAX_QUERIES,
    ensures
        w.after_reads(s).1 is Pending ==> w.after_reads(s).0.polls == s.len() && s.len()
            < MAX_QUERIES,
        w.after_reads(s).0.flag == w.flag,
        w.after_reads(s).0.value == w.value,
        (forall|i: int| 0 <= i < s.len() ==> status_bit(#[trigger] s[i], w.flag) != w.value)
            ==> {
            &&& s.len() < MAX_QUERIES ==> w.after_reads(s).1 is Pending
            &&& s.len() == MAX_QUERIES ==> w.after_reads(s).1 is TimedOut
        },
    decreases s.len(),
{
    if s.len() > 0 {
        lemma_status_wait_bounded(w, s.drop_last());
        assert forall|i: int| 0 <= i < s.drop_last().len() implies s.drop_last()[i] == s[i] by {}
    }
}

/// What the port driver does next for a register write.
#[derive(Debug, Clone, Copy, PartialEq, Eq, Structural)]
pub enum PortAction {
    /// Read the status port, pause for the query interval, and report the byte.
    ReadStatus,
    /// Write the byte to the status/command port.
    WriteCommand(u8),
    /// Write the byte to the data port.
    WriteData(u8),
    /// The write is over; see `Handshake::outcome`.
    Finished,
}

/// Writing one EC register: a command, a register address and a value, each sent only once
/// the EC has taken the byte before, and a last wait for the value to be taken.
///
/// `stage` counts the steps done: the even stages below `DONE_STAGE` wait for the input
/// buffer to empty, stages 1, 3 and 5 send the command, the address and the value.
#[derive(Debug, Clone, Copy, PartialEq, Eq, Structural)]
pub struct Handshake {
    pub cmd: u8,
    pub port: u8,
    pub value: u8,
    pub stage: u8,
    pub polls: usize,
    pub failed: bool,
}

impl Handshake {
    pub open spec fn wf(self) -> bool {
        self.stage <= DONE_STAGE && self.polls < MAX_QUERIES
    }

    /// Waiting for the input buffer to empty.
    pub open spec fn waiting(self) -> bool {
        !self.failed && self.stage < DONE_STAGE && self.stage % 2 == 0
    }

    /// A byte is to be sent.
    pub open spec fn sending(self) -> bool {
        !self.failed && self.stage < DONE_STAGE && self.stage % 2 == 1
    }

    pub open spec fn finished(self) -> bool {
        self.failed || self.stage == DONE_STAGE
    }

    pub open spec fn spec_action(self) -> PortAction {
        if self.finished() {
            PortAction::Finished
        } else if self.stage % 2 == 0 {
            PortAction::ReadStatus
        } else if self.stage == 1 {
            PortAction::WriteCommand(self.cmd)
        } else if self.stage == 3 {
            PortAction::WriteData(self.port)
        } else {
            PortAction::WriteData(self.value)
        }
    }

    /// The state after a status byte was read during a wait.
    pub open spec fn after_status(self, status: u8) -> Handshake {
        if status_bit(status, IBF) == 0 {
            Handshake { stage: (self.stage + 1) as u8, polls: 0, ..self }
        } else if self.polls + 1 >= MAX_QUERIES {
            Handshake { failed: true, polls: 0, ..self }
        } else {
            Handshake { polls: (self.polls + 1) as usize, ..self }
        }
    }

    /// The state after a run of status reads, stopping once the wait is over.
    pub open spec fn after_statuses(self, s: Seq<u8>) -> Handshake
        decreases s.len(),
    {
        if s.len() == 0 {
            self
        } else {
            let h = self.after_statuses(s.drop_last());
            if h.waiting() && h.stage == self.stage {
                h.after_status(s.last())
            } else {
                h
            }
        }
    }

    pub open spec fn spec_outcome(self) -> Option<Result<(), PortIOError>> {
        if self.failed {
            Some(Err(PortIOError))
        } else if self.stage == DONE_STAGE {
            Some(Ok(()))
        } else {
            None
        }
    }

    /// A register write of `value` to `port` under command `cmd`, not started yet.
    pub fn new(cmd: u8, port: u8, value: u8) -> (r: Handshake)
        ensures
            r.wf(),
            r == (Handshake { cmd, port, value, stage: 0, polls: 0, failed: false }),
    {
        Handshake { cmd, port, value, stage: 0, polls: 0, failed: false }
    }

    /// What to do next.
    pub fn action(&self) -> (r: PortAction)
        requires
            self.wf(),
        ensures
            r == self.spec_action(),
    {
        if self.failed || self.stage == DONE_STAGE {
            PortAction::Finished
        } else if self.stage % 2 == 0 {
            PortAction::ReadStatus
        } else if self.stage == 1 {
            PortAction::WriteCommand(self.cmd)
        } else if self.stage == 3 {
            PortAction::WriteData(self.port)
        } else {
            PortAction::WriteData(self.value)
        }
    }

    /// Takes the status byte that a `ReadStatus` read.
    pub fn on_status(&mut self, status: u8)
        requires
            old(self).wf(),
            old(self).waiting(),
        ensures
            final(self).wf(),
            *final(self) == old(self).after_status(status),
    {
        let mut w = StatusWait::new(IBF, 0);
        w.polls = self.polls;
        match w.on_status(status) {
            WaitStep::Matched => {
                self.stage = self.stage + 1;
            },
            WaitStep::TimedOut => {
                self.failed = true;
            },
            WaitStep::Pending => {},
        }
        self.polls = w.polls;
    }

    /// Notes that the byte of a `WriteCommand` or `WriteData` was written.
    pub fn on_written(&mut self)
        requires
            old(self).wf(),
            old(self).sending(),
        ensures
            final(self).wf(),
            *final(self) == (Handshake { stage: (old(self).stage + 1) as u8, ..*old(self) }),
    {
        self.stage = self.stage + 1;
    }

    /// `None` while the write runs; then `Ok` once every byte was taken, or the error of
    /// the wait that ran out.
    pub fn outcome(&self) -> (r: Option<Result<(), PortIOError>>)
        ensures
            r == self.spec_outcome(),
    {
        if self.failed {
            Some(Err(PortIOError))
        } else if self.stage == DONE_STAGE {
            Some(Ok(()))
        } else {
            None
        }
    }
}

/// The register write that sets the fan to `duty`, as a point in `0..=255`.
pub fn set_duty_handshake(duty: Duty) -> (r: Handshake)
    ensures
        r.wf(),
        r == (Handshake {
            cmd: EC_FAN_CONTROL_CMD,
            port: EC_FAN_CONTROL_PORT,
            value: point_of_duty(duty.centi(), 0, 255) as u8,
            stage: 0,
            polls: 0,
            failed: false,
        }),
{
    let point = duty.to_point_in_range(0, 255);
    Handshake::new(EC_FAN_CONTROL_CMD, EC_FAN_CONTROL_PORT, point)
}

/// A wait whose status never shows the input buffer empty keeps polling for fewer than
/// `MAX_QUERIES` reads, and fails with a timeout at the `MAX_QUERIES`-th: it never hangs.
pub proof fn lemma_wait_times_out(h: Handshake, s: Seq<u8>)
    requires
        h.wf(),
        h.waiting(),
        h.polls == 0,
        s.len() <= MAX_QUERIES,
        forall|i: int| 0 <= i < s.len() ==> status_bit(#[trigger] s[i], IBF) == 1,
    ensures
        s.len() < MAX_QUERIES ==> h.after_statuses(s).waiting() && h.after_statuses(s).polls == s.len()
            && h.after_statuses(s).stage == h.stage,
        s.len() == MAX_QUERIES ==> h.after_statuses(s).spec_outcome() == Some(
            Err::<(), PortIOError>(PortIOError),
        ),
    decreases s.len(),
{
    if s.len() > 0 {
        lemma_wait_times_out(h, s.drop_last());
    }
}

} // verus!
