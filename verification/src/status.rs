//! Submission statuses, the transition graph between them, and the message
//! actions a status report may carry.

use vstd::prelude::*;

verus! {

/// The states a submission moves through, in increasing progress order.
#[derive(Clone, Copy, Debug, PartialEq, Eq, Structural)]
pub enum Status {
    Pending,
    Depositing,
    Deposited,
    JudgerReceived,
    TypeChecking,
    AxiomChecking,
    Replaying,
    InvalidImport,
    WrongAnswer,
    Accepted,
    JudgementFailed,
    Canceled,
}

/// What a status report does to the submission's message column.
#[derive(Clone, Debug)]
pub enum Action {
    NoAction,
    Replace(String),
    Append(String),
}

/// The message column after an action is applied.
pub open spec fn apply_action(old_message: Seq<char>, action: Action) -> Seq<char> {
    match action {
        Action::NoAction => old_message,
        Action::Replace(m) => m@,
        Action::Append(m) => old_message + m@,
    }
}

/// Progress ordinal of a status; the byte encoding uses the same numbers.
pub open spec fn spec_ordinal(s: Status) -> int {
    match s {
        Status::Pending => 0,
        Status::Depositing => 1,
        Status::Deposited => 2,
        Status::JudgerReceived => 3,
        Status::TypeChecking => 4,
        Status::AxiomChecking => 5,
        Status::Replaying => 6,
        Status::InvalidImport => 7,
        Status::WrongAnswer => 8,
        Status::Accepted => 9,
        Status::JudgementFailed => 10,
        Status::Canceled => 11,
    }
}

/// The five states no submission leaves on its own.
pub open spec fn spec_terminal(s: Status) -> bool {
    match s {
        Status::InvalidImport => true,
        Status::WrongAnswer => true,
        Status::Accepted => true,
        Status::JudgementFailed => true,
        Status::Canceled => true,
        _ => false,
    }
}

/// The transition graph: the deposit chain, the worker chain with its two
/// verdicts, failure edges from any live state, cancellation strictly
/// before a worker has received the task, and the rejudge reset out of a
/// terminal state.
pub open spec fn spec_allowed(from: Status, to: Status) -> bool {
    ||| (from == Status::Pending && to == Status::Depositing)
    ||| (from == Status::Depositing && (to == Status::Deposited || to == Status::InvalidImport
        || to == Status::JudgementFailed))
    ||| (from == Status::Deposited && to == Status::JudgerReceived)
    ||| (from == Status::JudgerReceived && (to == Status::TypeChecking
        || to == Status::JudgementFailed))
    ||| (from == Status::TypeChecking && (to == Status::AxiomChecking
        || to == Status::JudgementFailed))
    ||| (from == Status::AxiomChecking && (to == Status::Replaying
        || to == Status::JudgementFailed))
    ||| (from == Status::Replaying && (to == Status::WrongAnswer || to == Status::Accepted || to
        == Status::JudgementFailed))
    ||| (!spec_terminal(from) && spec_ordinal(from) < 3 && to == Status::Canceled)
    ||| (spec_terminal(from) && to == Status::Pending)
}

impl Status {
    /// Range-checked decoding of the status byte; out-of-range values are
    /// rejected before they can enter the state machine.
    pub fn try_from(value: u8) -> (r: Result<Status, ()>)
        ensures
            r is Ok <==> value < 12,
            r matches Ok(s) ==> spec_ordinal(s) == value as int,
    {
        match value {
            0 => Ok(Status::Pending),
            1 => Ok(Status::Depositing),
            2 => Ok(Status::Deposited),
            3 => Ok(Status::JudgerReceived),
            4 => Ok(Status::TypeChecking),
            5 => Ok(Status::AxiomChecking),
            6 => Ok(Status::Replaying),
            7 => Ok(Status::InvalidImport),
            8 => Ok(Status::WrongAnswer),
            9 => Ok(Status::Accepted),
            10 => Ok(Status::JudgementFailed),
            11 => Ok(Status::Canceled),
            _ => Err(()),
        }
    }

    /// The status's progress ordinal, which is also its stored byte.
    pub fn ordinal(&self) -> (r: u8)
        ensures
            r as int == spec_ordinal(*self),
    {
        match *self {
            Status::Pending => 0,
            Status::Depositing => 1,
            Status::Deposited => 2,
            Status::JudgerReceived => 3,
            Status::TypeChecking => 4,
            Status::AxiomChecking => 5,
            Status::Replaying => 6,
            Status::InvalidImport => 7,
            Status::WrongAnswer => 8,
            Status::Accepted => 9,
            Status::JudgementFailed => 10,
            Status::Canceled => 11,
        }
    }

    pub fn is_terminal(&self) -> (r: bool)
        ensures
            r == spec_terminal(*self),
    {
        matches!(
            *self,
            Status::InvalidImport
            | Status::WrongAnswer
            | Status::Accepted
            | Status::JudgementFailed
            | Status::Canceled
        )
    }

    /// Cancellation is honored only strictly before a worker has received
    /// the task.
    pub fn can_cancel(&self) -> (r: bool)
        ensures
            r == (!spec_terminal(*self) && spec_ordinal(*self) < 3),
    {
        self.ordinal() < 3
    }

    /// Whether the graph admits a move from `self` to `to`.
    pub fn can_transition(&self, to: Status) -> (r: bool)
        ensures
            r == spec_allowed(*self, to),
    {
        match (*self, to) {
            (Status::Pending, Status::Depositing) => true,
            (Status::Depositing, Status::Deposited) => true,
            (Status::Depositing, Status::InvalidImport) => true,
            (Status::Depositing, Status::JudgementFailed) => true,
            (Status::Deposited, Status::JudgerReceived) => true,
            (Status::JudgerReceived, Status::TypeChecking) => true,
            (Status::JudgerReceived, Status::JudgementFailed) => true,
            (Status::TypeChecking, Status::AxiomChecking) => true,
            (Status::TypeChecking, Status::JudgementFailed) => true,
            (Status::AxiomChecking, Status::Replaying) => true,
            (Status::AxiomChecking, Status::JudgementFailed) => true,
            (Status::Replaying, Status::WrongAnswer) => true,
            (Status::Replaying, Status::Accepted) => true,
            (Status::Replaying, Status::JudgementFailed) => true,
            _ => {
                (self.can_cancel() && matches!(to, Status::Canceled)) || (self.is_terminal()
                    && matches!(to, Status::Pending))
            },
        }
    }
}

} // verus!
