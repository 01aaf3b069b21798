//! The failures that the patterns tell apart, and how far each one reaches.

use vstd::prelude::*;

verus! {

/// What can go wrong.
#[derive(Clone, Copy, Debug, PartialEq, Eq, Structural)]
pub enum ErrorKind {
    /// The connection to the broker could not be opened or was lost.
    ConnectionFailure,
    /// An entity was declared with attributes that differ from those it has.
    TopologyConflict,
    /// The broker did not confirm a published message in time.
    PublishUnconfirmed,
    /// A delivery's payload could not be decoded.
    DeliveryDecodeError,
    /// A reply arrived that answers no pending request.
    StrayReply,
    /// No reply arrived before the caller's deadline.
    RpcTimeout,
}

/// How far a failure reaches.
#[derive(Clone, Copy, Debug, PartialEq, Eq, Structural)]
pub enum Reach {
    /// One delivery: it is settled, and the consume loop goes on.
    Delivery,
    /// One call: the caller is told, and may try again.
    Call,
    /// The connection: nothing can go on; the failure is passed up.
    Connection,
}

/// How far a failure of this kind reaches.
pub open spec fn reach_of(kind: ErrorKind) -> Reach {
    match kind {
        ErrorKind::ConnectionFailure => Reach::Connection,
        ErrorKind::TopologyConflict => Reach::Call,
        ErrorKind::PublishUnconfirmed => Reach::Call,
        ErrorKind::RpcTimeout => Reach::Call,
        ErrorKind::DeliveryDecodeError => Reach::Delivery,
        ErrorKind::StrayReply => Reach::Delivery,
    }
}

/// Whether a failure of this kind is fatal to the operation it occurred in:
/// a lost connection, and a declaration in conflict with the topology.
pub open spec fn is_fatal(kind: ErrorKind) -> bool {
    kind is ConnectionFailure || kind is TopologyConflict
}

/// Whether a consume loop goes on after a failure of this kind.
pub open spec fn loop_survives(kind: ErrorKind) -> bool {
    !(reach_of(kind) is Connection)
}

impl ErrorKind {
    /// How far a failure of this kind reaches.
    pub fn reach(self) -> (r: Reach)
        ensures
            r == reach_of(self),
    {
        match self {
            ErrorKind::ConnectionFailure => Reach::Connection,
            ErrorKind::TopologyConflict | ErrorKind::PublishUnconfirmed | ErrorKind::RpcTimeout => Reach::Call,
            ErrorKind::DeliveryDecodeError | ErrorKind::StrayReply => Reach::Delivery,
        }
    }

    /// Whether a failure of this kind is fatal to the operation it occurred in.
    pub fn fatal(self) -> (r: bool)
        ensures
            r == is_fatal(self),
    {
        match self {
            ErrorKind::ConnectionFailure | ErrorKind::TopologyConflict => true,
            _ => false,
        }
    }

    /// Whether a consume loop goes on after a failure of this kind.
    pub fn keeps_consuming(self) -> (r: bool)
        ensures
            r == loop_survives(self),
    {
        match self {
            ErrorKind::ConnectionFailure => false,
            _ => true,
        }
    }

    /// The name of the kind.
    pub fn name(self) -> (s: &'static str)
        ensures
            s@ == kind_name(self),
    {
        match self {
            ErrorKind::ConnectionFailure => "ConnectionFailure",
            ErrorKind::TopologyConflict => "TopologyConflict",
            ErrorKind::PublishUnconfirmed => "PublishUnconfirmed",
            ErrorKind::DeliveryDecodeError => "DeliveryDecodeError",
            ErrorKind::StrayReply => "StrayReply",
            ErrorKind::RpcTimeout => "RpcTimeout",
        }
    }
}

/// The name of a kind of failure.
pub open spec fn kind_name(kind: ErrorKind) -> Seq<char> {
    match kind {
        ErrorKind::ConnectionFailure => "ConnectionFailure"@,
        ErrorKind::TopologyConflict => "TopologyConflict"@,
        ErrorKind::PublishUnconfirmed => "PublishUnconfirmed"@,
        ErrorKind::DeliveryDecodeError => "DeliveryDecodeError"@,
        ErrorKind::StrayReply => "StrayReply"@,
        ErrorKind::RpcTimeout => "RpcTimeout"@,
    }
}

/// The reply code with which the broker refuses an operation whose
/// parameters are in conflict with what exists.
pub const PRECONDITION_FAILED: u16 = 406;

/// The kind of failure that a failed operation on the channel is: a conflict
/// with the topology where the broker refused it with the reply code for a
/// failed precondition, and a failure of the connection otherwise, be it
/// another refusal or no answer of the broker at all.
pub open spec fn refusal_kind(code: Option<u16>) -> ErrorKind {
    if code == Some(406u16) {
        ErrorKind::TopologyConflict
    } else {
        ErrorKind::ConnectionFailure
    }
}

/// The kind of failure that a failed operation on the channel is, given the
/// reply code of the broker's refusal, if the broker refused it.
pub fn kind_of_refusal(code: Option<u16>) -> (k: ErrorKind)
    ensures
        k == refusal_kind(code),
{
    match code {
        Some(c) => if c == PRECONDITION_FAILED {
            ErrorKind::TopologyConflict
        } else {
            ErrorKind::ConnectionFailure
        },
        None => ErrorKind::ConnectionFailure,
    }
}

/// A failure with what is needed to diagnose it.
#[derive(Debug, Clone, PartialEq, Eq)]
pub struct Failure {
    /// What went wrong.
    pub kind: ErrorKind,
    /// The operation that failed.
    pub operation: String,
    /// The exchange, queue or request that the operation was about.
    pub target: String,
}

/// What a `Failure` holds, as mathematical values.
pub struct FailureView {
    pub kind: ErrorKind,
    pub operation: Seq<char>,
    pub target: Seq<char>,
}

impl View for Failure {
    type V = FailureView;

    open spec fn view(&self) -> FailureView {
        FailureView { kind: self.kind, operation: self.operation@, target: self.target@ }
    }
}

/// The line that reports a failure: the kind, the operation and the target.
pub open spec fn report_of(failure: FailureView) -> Seq<char> {
    kind_name(failure.kind) + " in "@ + failure.operation + " on "@ + failure.target
}

impl Failure {
    /// A failure of `kind` in `operation` on `target`.
    pub fn new(kind: ErrorKind, operation: &str, target: &str) -> (failure: Failure)
        ensures
            failure@ == (FailureView { kind, operation: operation@, target: target@ }),
    {
        Failure { kind, operation: String::from_str(operation), target: String::from_str(target) }
    }

    /// The line that reports the failure.
    pub fn report(&self) -> (line: String)
        ensures
            line@ == report_of(self@),
    {
        let mut line = String::from_str(self.kind.name());
        line.append(" in ");
        line.append(self.operation.as_str());
        line.append(" on ");
        line.append(self.target.as_str());
        line
    }
}

/// Every failure that is fatal ends the call it occurred in or the whole
/// connection, and none that is local to a delivery ends the consume loop.
pub proof fn lemma_reach(kind: ErrorKind)
    ensures
        is_fatal(kind) ==> !(reach_of(kind) is Delivery),
        reach_of(kind) is Delivery ==> loop_survives(kind) && !is_fatal(kind),
        !loop_survives(kind) <==> kind is ConnectionFailure,
{
}

} // verus!
