use signal_version_handover::{
    ComponentName, ContractVersion, MirrorPayload, Operation, OperationKind, RecordKind,
};

fn version(byte: u8) -> ContractVersion {
    ContractVersion::new([byte; 32])
}

#[test]
fn mirror_payload_carries_source_target_and_bytes() {
    let payload = MirrorPayload {
        component: ComponentName::new("persona-spirit"),
        source_version: version(1),
        target_version: version(2),
        kind: RecordKind::new("Entry"),
        payload: vec![1, 2, 3],
    };
    let operation = Operation::Mirror(payload.clone());

    assert_eq!(operation.kind(), OperationKind::Mirror);
    assert_eq!(operation, Operation::Mirror(payload));
}
