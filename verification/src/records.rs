//! The records that the handover channel carries.
use vstd::prelude::*;
use vstd::string::StringSliceAdditionalSpecFns;

use crate::calendar::{Date, Time};
use crate::error::DecodeError;
use crate::payload::{payload_from_literal, payload_literal, RawPayload};

verus! {

// ---------------------------------------------------------------------------
// Identities
// ---------------------------------------------------------------------------

/// The name of the component whose versions hand over.
#[derive(Debug, Clone, PartialEq, Eq, Hash)]
pub struct ComponentName {
    name: String,
}

impl View for ComponentName {
    type V = Seq<char>;

    closed spec fn view(&self) -> Seq<char> {
        self.name@
    }
}

impl ComponentName {
    pub fn new(name: &str) -> (component: Self)
        ensures
            component@ == name@,
    {
        ComponentName { name: String::from_str(name) }
    }

    pub fn as_str(&self) -> (name: &str)
        ensures
            name@ == self@,
    {
        self.name.as_str()
    }
}

/// A schema hash that identifies one version of a component's contract.
#[derive(Debug, Clone, Copy, PartialEq, Eq, Hash)]
pub struct ContractVersion {
    bytes: [u8; 32],
}

impl View for ContractVersion {
    type V = Seq<u8>;

    closed spec fn view(&self) -> Seq<u8> {
        self.bytes@
    }
}

impl ContractVersion {
    pub fn new(bytes: [u8; 32]) -> (version: Self)
        ensures
            version@ == bytes@,
    {
        ContractVersion { bytes }
    }

    pub fn as_bytes(&self) -> (bytes: &[u8; 32])
        ensures
            bytes@ == self@,
    {
        &self.bytes
    }
}

/// The discriminant of a mirrored or diverged record.
#[derive(Debug, Clone, PartialEq, Eq, Hash)]
pub struct RecordKind {
    name: String,
}

impl View for RecordKind {
    type V = Seq<char>;

    closed spec fn view(&self) -> Seq<char> {
        self.name@
    }
}

impl RecordKind {
    pub fn new(name: &str) -> (kind: Self)
        ensures
            kind@ == name@,
    {
        RecordKind { name: String::from_str(name) }
    }

    pub fn as_str(&self) -> (name: &str)
        ensures
            name@ == self@,
    {
        self.name.as_str()
    }
}

// ---------------------------------------------------------------------------
// Records
// ---------------------------------------------------------------------------

/// The durability point of the current version: schema, commit sequence,
/// write counter, last record and capture instant.
#[derive(Debug, Clone, PartialEq, Eq)]
pub struct HandoverMarker {
    pub component: ComponentName,
    pub schema_hash: ContractVersion,
    pub commit_sequence: u64,
    pub write_counter: u64,
    pub last_record_identifier: Option<u64>,
    pub recorded_at_date: Date,
    pub recorded_at_time: Time,
}

#[derive(Debug, Clone, PartialEq, Eq)]
pub struct MarkerRequest {
    pub component: ComponentName,
}

#[derive(Debug, Clone, PartialEq, Eq)]
pub struct ReadinessReport {
    pub component: ComponentName,
    pub source_marker: HandoverMarker,
}

#[derive(Debug, Clone, PartialEq, Eq)]
pub struct CompletionReport {
    pub component: ComponentName,
    pub accepted_marker: HandoverMarker,
}

/// A write forwarded between versions: raw bytes plus the record kind.
#[derive(Debug, Clone, PartialEq, Eq)]
pub struct MirrorPayload {
    pub component: ComponentName,
    pub source_version: ContractVersion,
    pub target_version: ContractVersion,
    pub kind: RecordKind,
    pub payload: Vec<u8>,
}

/// A write that the other version cannot represent, with the reason.
#[derive(Debug, Clone, PartialEq, Eq)]
pub struct DivergencePayload {
    pub component: ComponentName,
    pub source_version: ContractVersion,
    pub target_version: ContractVersion,
    pub reason: DivergenceReason,
    pub kind: RecordKind,
    pub payload: Vec<u8>,
}

#[derive(Debug, Clone, PartialEq, Eq)]
pub struct RecoveryRequest {
    pub component: ComponentName,
    pub failure_identifier: u64,
}

#[derive(Debug, Clone, PartialEq, Eq)]
pub struct HandoverAcceptance {
    pub accepted_marker: HandoverMarker,
}

#[derive(Debug, Clone, PartialEq, Eq)]
pub struct HandoverFinalization {
    pub finalized_marker: HandoverMarker,
}

#[derive(Debug, Clone, PartialEq, Eq)]
pub struct MirrorAcknowledgement {
    pub component: ComponentName,
    pub write_counter: u64,
}

#[derive(Debug, Clone, PartialEq, Eq)]
pub struct DivergenceAcknowledgement {
    pub component: ComponentName,
    pub divergence_identifier: u64,
}

#[derive(Debug, Clone, PartialEq, Eq)]
pub struct RecoveryResult {
    pub component: ComponentName,
    pub recovered: bool,
}

#[derive(Debug, Clone, PartialEq, Eq)]
pub struct HandoverRejection {
    pub component: ComponentName,
    pub reason: HandoverRejectionReason,
}

/// Why the current version refuses to hand over.
#[derive(Debug, Clone, Copy, PartialEq, Eq, Structural, Hash)]
pub enum HandoverRejectionReason {
    SchemaMismatch,
    CommitSequenceAdvanced,
    AlreadyInHandover,
    NotReady,
}

/// Why a write could not be mirrored.
#[derive(Debug, Clone, Copy, PartialEq, Eq, Structural, Hash)]
pub enum DivergenceReason {
    NotRepresentable,
    TargetUnavailable,
    TargetRejected,
}

// ---------------------------------------------------------------------------
// The raw payload field in the literal form
// ---------------------------------------------------------------------------

impl MirrorPayload {
    /// Assembles a mirror payload from its decoded leading fields and the
    /// `#hex` literal of its bytes, the last field of its literal form.
    pub fn from_nota_fields(
        component: ComponentName,
        source_version: ContractVersion,
        target_version: ContractVersion,
        kind: RecordKind,
        payload_literal: &str,
    ) -> (res: Result<Self, DecodeError>)
        ensures
            match payload_from_literal(payload_literal@, payload_literal.spec_bytes()) {
                Ok(bytes) => res matches Ok(m) && m.component == component && m.source_version
                    == source_version && m.target_version == target_version && m.kind == kind
                    && m.payload@ == bytes,
                Err(message) => res matches Err(e) && e.message() == message,
            },
    {
        match RawPayload::decode_literal(payload_literal) {
            Ok(bytes) => {
                let payload = RawPayload::new(bytes).into_bytes();
                Ok(MirrorPayload { component, source_version, target_version, kind, payload })
            },
            Err(e) => Err(e),
        }
    }

    /// The `#hex` literal of the payload bytes, the last field of the
    /// literal form.
    pub fn payload_literal(&self) -> (literal: String)
        ensures
            literal@ == payload_literal(self.payload@),
    {
        RawPayload::new(self.payload.clone()).to_nota()
    }
}

impl DivergencePayload {
    /// Assembles a divergence payload from its decoded leading fields and the
    /// `#hex` literal of its bytes, the last field of its literal form.
    pub fn from_nota_fields(
        component: ComponentName,
        source_version: ContractVersion,
        target_version: ContractVersion,
        reason: DivergenceReason,
        kind: RecordKind,
        payload_literal: &str,
    ) -> (res: Result<Self, DecodeError>)
        ensures
            match payload_from_literal(payload_literal@, payload_literal.spec_bytes()) {
                Ok(bytes) => res matches Ok(d) && d.component == component && d.source_version
                    == source_version && d.target_version == target_version && d.reason == reason
                    && d.kind == kind && d.payload@ == bytes,
                Err(message) => res matches Err(e) && e.message() == message,
            },
    {
        match RawPayload::decode_literal(payload_literal) {
            Ok(bytes) => {
                let payload = RawPayload::new(bytes).into_bytes();
                Ok(
                    DivergencePayload {
                        component,
                        source_version,
                        target_version,
                        reason,
                        kind,
                        payload,
                    },
                )
            },
            Err(e) => Err(e),
        }
    }

    /// The `#hex` literal of the payload bytes, the last field of the
    /// literal form.
    pub fn payload_literal(&self) -> (literal: String)
        ensures
            literal@ == payload_literal(self.payload@),
    {
        RawPayload::new(self.payload.clone()).to_nota()
    }
}

} // verus!
