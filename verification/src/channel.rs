//! The handover channel: the operations one version sends and the replies it
//! receives.
use vstd::prelude::*;

use crate::records::{
    CompletionReport, DivergenceAcknowledgement, DivergencePayload, HandoverAcceptance,
    HandoverFinalization, HandoverMarker, HandoverRejection, MarkerRequest, MirrorAcknowledgement,
    MirrorPayload, ReadinessReport, RecoveryRequest, RecoveryResult,
};

verus! {

/// A request on the handover channel.
#[derive(Debug, Clone, PartialEq, Eq)]
pub enum Operation {
    AskHandoverMarker(MarkerRequest),
    ReadyToHandover(ReadinessReport),
    HandoverCompleted(CompletionReport),
    Mirror(MirrorPayload),
    Divergence(DivergencePayload),
    RecoverFromFailure(RecoveryRequest),
}

/// The head of an operation, without its record.
#[derive(Debug, Clone, Copy, PartialEq, Eq, Structural, Hash)]
pub enum OperationKind {
    AskHandoverMarker,
    ReadyToHandover,
    HandoverCompleted,
    Mirror,
    Divergence,
    RecoverFromFailure,
}

/// The head of each operation.
pub open spec fn operation_kind(operation: Operation) -> OperationKind {
    match operation {
        Operation::AskHandoverMarker(_) => OperationKind::AskHandoverMarker,
        Operation::ReadyToHandover(_) => OperationKind::ReadyToHandover,
        Operation::HandoverCompleted(_) => OperationKind::HandoverCompleted,
        Operation::Mirror(_) => OperationKind::Mirror,
        Operation::Divergence(_) => OperationKind::Divergence,
        Operation::RecoverFromFailure(_) => OperationKind::RecoverFromFailure,
    }
}

impl Operation {
    pub fn kind(&self) -> (kind: OperationKind)
        ensures
            kind == operation_kind(*self),
    {
        match self {
            Operation::AskHandoverMarker(_) => OperationKind::AskHandoverMarker,
            Operation::ReadyToHandover(_) => OperationKind::ReadyToHandover,
            Operation::HandoverCompleted(_) => OperationKind::HandoverCompleted,
            Operation::Mirror(_) => OperationKind::Mirror,
            Operation::Divergence(_) => OperationKind::Divergence,
            Operation::RecoverFromFailure(_) => OperationKind::RecoverFromFailure,
        }
    }
}

/// The kind names the operation's own variant: an operation has kind
/// `OperationKind::X` exactly when it is `Operation::X`, so operations of
/// different variants have different kinds.
pub proof fn lemma_kind_names_variant(operation: Operation, other: Operation)
    ensures
        (operation is AskHandoverMarker) <==> operation_kind(operation)
            == OperationKind::AskHandoverMarker,
        (operation is ReadyToHandover) <==> operation_kind(operation)
            == OperationKind::ReadyToHandover,
        (operation is HandoverCompleted) <==> operation_kind(operation)
            == OperationKind::HandoverCompleted,
        (operation is Mirror) <==> operation_kind(operation) == OperationKind::Mirror,
        (operation is Divergence) <==> operation_kind(operation) == OperationKind::Divergence,
        (operation is RecoverFromFailure) <==> operation_kind(operation)
            == OperationKind::RecoverFromFailure,
        operation_kind(operation) == operation_kind(other) ==> {
            &&& (operation is AskHandoverMarker) == (other is AskHandoverMarker)
            &&& (operation is ReadyToHandover) == (other is ReadyToHandover)
            &&& (operation is HandoverCompleted) == (other is HandoverCompleted)
            &&& (operation is Mirror) == (other is Mirror)
            &&& (operation is Divergence) == (other is Divergence)
            &&& (operation is RecoverFromFailure) == (other is RecoverFromFailure)
        },
{
}

/// A reply on the handover channel.
#[derive(Debug, Clone, PartialEq, Eq)]
pub enum Reply {
    HandoverMarker(HandoverMarker),
    HandoverAccepted(HandoverAcceptance),
    HandoverFinalized(HandoverFinalization),
    MirrorAcknowledged(MirrorAcknowledgement),
    DivergenceAcknowledged(DivergenceAcknowledgement),
    RecoveryCompleted(RecoveryResult),
    HandoverRejected(HandoverRejection),
}

} // verus!
