//! Typed wire vocabulary for the private handover between two versions of a
//! component daemon: the marker, readiness, completion, mirror, divergence
//! and recovery records, and the literal forms of their dates, times and raw
//! payload bytes.

pub mod calendar;
pub mod channel;
pub mod error;
pub mod payload;
pub mod records;
pub mod text;

pub use calendar::{Date, Time};
pub use channel::{Operation, OperationKind, Reply};
pub use error::DecodeError;
pub use payload::RawPayload;
pub use records::{
    CompletionReport, ComponentName, ContractVersion, DivergenceAcknowledgement,
    DivergencePayload, DivergenceReason, HandoverAcceptance, HandoverFinalization, HandoverMarker,
    HandoverRejection, HandoverRejectionReason, MarkerRequest, MirrorAcknowledgement, MirrorPayload,
    ReadinessReport, RecordKind, RecoveryRequest, RecoveryResult,
};
