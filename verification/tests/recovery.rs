use solana_program_recover::cli::{encode_loader_instruction, RecoveryTarget};
use solana_program_recover::error::ProgramRecoverError;
use solana_program_recover::keys::{Pubkey, Signature};
use solana_program_recover::loader::{CloseEvent, LoaderInstruction, VersionEvent, VersionKind};
use solana_program_recover::recovery::{
    dump_summary, increment_counter, select_version, BufferRecovery, BufferScan, HistoryScan,
    ProgramHistory,
};
use solana_program_recover::rpc::SignatureStatus;
use solana_program_recover::transaction::{
    CompiledInstruction, ConfirmedTransaction, EncodedTransaction, RawMessage, TransactionMessage,
    TransactionStatusMeta,
};

fn loader_id() -> Pubkey {
    Pubkey::new_from_array(solana_sdk_ids::bpf_loader_upgradeable::id().to_bytes())
}

fn key(value: u8) -> Pubkey {
    Pubkey::new_from_array([value; 32])
}

fn signature(value: u8) -> Signature {
    Signature::from_array([value; 64])
}

fn signature_text(value: u8) -> String {
    solana_signature::Signature::from([value; 64]).to_string()
}

fn key_text(key: &Pubkey) -> String {
    solana_pubkey::Pubkey::from(key.bytes).to_string()
}

fn target() -> RecoveryTarget {
    RecoveryTarget {
        program: key(1),
        programdata: key(2),
    }
}

fn version(slot: u64, sequence: u64) -> VersionEvent {
    VersionEvent {
        slot,
        signature: signature(3),
        buffer: key(4),
        kind: VersionKind::Upgrade,
        sequence,
    }
}

fn history(versions: Vec<VersionEvent>, closes: Vec<CloseEvent>) -> ProgramHistory {
    ProgramHistory {
        target: target(),
        versions,
        closes,
        unavailable_transactions: 0,
        skipped_failed_transactions: 0,
    }
}

#[test]
fn test_selects_latest_version_before_close() {
    let history = ProgramHistory {
        target: target(),
        versions: vec![version(10, 0), version(20, 1), version(40, 3)],
        closes: vec![CloseEvent {
            slot: 30,
            signature: signature(5),
            sequence: 2,
        }],
        unavailable_transactions: 0,
        skipped_failed_transactions: 0,
    };

    assert_eq!(select_version(&history, None).unwrap(), version(20, 1));
}

#[test]
fn test_selects_explicit_slot() {
    let history = ProgramHistory {
        target: target(),
        versions: vec![version(10, 0), version(20, 1)],
        closes: vec![],
        unavailable_transactions: 0,
        skipped_failed_transactions: 0,
    };

    assert_eq!(select_version(&history, Some(10)).unwrap(), version(10, 0));
}

#[test]
fn selects_latest_version_without_close() {
    let h = history(vec![version(10, 0), version(20, 1)], vec![]);
    assert_eq!(select_version(&h, None).unwrap(), version(20, 1));
}

#[test]
fn selection_errors() {
    let h = history(vec![version(10, 0), version(10, 1), version(20, 2)], vec![]);
    assert!(matches!(
        select_version(&h, Some(30)),
        Err(ProgramRecoverError::VersionSlotNotFound { slot: 30 })
    ));
    assert!(matches!(
        select_version(&h, Some(10)),
        Err(ProgramRecoverError::AmbiguousVersionSlot { slot: 10, count: 2 })
    ));
    let empty = history(vec![], vec![]);
    assert!(matches!(
        select_version(&empty, None),
        Err(ProgramRecoverError::NoVersionEvents { .. })
    ));
    let closed_first = history(
        vec![version(10, 5)],
        vec![CloseEvent {
            slot: 5,
            signature: signature(6),
            sequence: 1,
        }],
    );
    assert!(matches!(
        select_version(&closed_first, None),
        Err(ProgramRecoverError::NoVersionBeforeClose { program }) if program == key(1)
    ));
}

#[test]
fn counter_increments_until_exhausted() {
    let mut counter = 41;
    increment_counter(&mut counter).unwrap();
    assert_eq!(counter, 42);
    let mut full = usize::MAX;
    assert!(matches!(
        increment_counter(&mut full),
        Err(ProgramRecoverError::CounterOverflow)
    ));
    assert_eq!(full, usize::MAX);
}

fn loader_transaction(
    slot: u64,
    accounts: Vec<Pubkey>,
    instructions: Vec<(Vec<u8>, LoaderInstruction)>,
) -> ConfirmedTransaction {
    let mut keys: Vec<String> = accounts.iter().map(key_text).collect();
    keys.push(key_text(&loader_id()));
    let loader_index = (keys.len() - 1) as u8;
    ConfirmedTransaction {
        slot,
        transaction: EncodedTransaction::Json(TransactionMessage::Raw(RawMessage {
            account_keys: keys,
            instructions: instructions
                .into_iter()
                .map(|(accounts, instruction)| CompiledInstruction {
                    program_id_index: loader_index,
                    accounts,
                    data: encode_loader_instruction(&instruction),
                })
                .collect(),
        })),
        meta: Some(TransactionStatusMeta {
            failed: false,
            loaded_addresses: None,
            inner_instructions: None,
        }),
    }
}

#[test]
fn history_scan_records_events_and_counts() {
    let statuses = vec![
        SignatureStatus {
            signature: signature_text(7),
            failed: true,
        },
        SignatureStatus {
            signature: signature_text(8),
            failed: false,
        },
        SignatureStatus {
            signature: signature_text(9),
            failed: false,
        },
    ];
    let mut scan = HistoryScan::start(target(), &statuses).unwrap();
    assert_eq!(scan.begin_signature(&statuses[0]).unwrap(), None);
    let second = scan.begin_signature(&statuses[1]).unwrap().unwrap();
    assert_eq!(second, signature(8));
    scan.record_transaction(&second, None).unwrap();
    let third = scan.begin_signature(&statuses[2]).unwrap().unwrap();
    let transaction = loader_transaction(
        77,
        vec![key(2), key(1), key(4)],
        vec![
            (vec![0, 1, 2], LoaderInstruction::Upgrade),
            (vec![0], LoaderInstruction::Close),
        ],
    );
    scan.record_transaction(&third, Some(&transaction)).unwrap();
    let history = scan.history;
    assert_eq!(history.skipped_failed_transactions, 1);
    assert_eq!(history.unavailable_transactions, 1);
    assert_eq!(
        history.versions,
        vec![VersionEvent {
            slot: 77,
            signature: signature(9),
            buffer: key(4),
            kind: VersionKind::Upgrade,
            sequence: 0,
        }]
    );
    assert_eq!(
        history.closes,
        vec![CloseEvent {
            slot: 77,
            signature: signature(9),
            sequence: 1,
        }]
    );
    assert_eq!(scan.next_sequence, 2);
}

#[test]
fn scans_need_signatures() {
    assert!(matches!(
        HistoryScan::start(target(), &vec![]),
        Err(ProgramRecoverError::NoSignatures { address }) if address == key(2)
    ));
    assert!(matches!(
        BufferScan::start(&version(1, 0), &vec![]),
        Err(ProgramRecoverError::NoSignatures { address }) if address == key(4)
    ));
}

#[test]
fn invalid_signature_text_is_reported() {
    let statuses = vec![SignatureStatus {
        signature: "bad".to_string(),
        failed: false,
    }];
    let mut scan = HistoryScan::start(target(), &statuses).unwrap();
    match scan.begin_signature(&statuses[0]) {
        Err(ProgramRecoverError::InvalidSignature { value, .. }) => assert_eq!(value, "bad"),
        other => panic!("unexpected {:?}", other),
    }
}

#[test]
fn buffer_scan_gathers_writes_until_selected_upgrade() {
    let buffer = key(4);
    let selected = VersionEvent {
        slot: 90,
        signature: signature(9),
        buffer,
        kind: VersionKind::Upgrade,
        sequence: 0,
    };
    let statuses = vec![SignatureStatus {
        signature: signature_text(8),
        failed: false,
    }];
    let mut scan = BufferScan::start(&selected, &statuses).unwrap();
    let writes = loader_transaction(
        80,
        vec![buffer],
        vec![
            (vec![0], LoaderInstruction::Write { offset: 0, bytes: b"\x7fELF".to_vec() }),
            (vec![0], LoaderInstruction::Write { offset: 4, bytes: b"ab".to_vec() }),
        ],
    );
    scan.record_transaction(&target(), &selected, &signature(8), Some(&writes)).unwrap();
    assert!(!scan.selected_version_reached);
    assert!(matches!(
        scan.record_transaction(&target(), &selected, &signature(9), None),
        Err(ProgramRecoverError::TransactionUnavailable { .. })
    ));
    let upgrade = loader_transaction(
        90,
        vec![key(2), key(1), buffer],
        vec![
            (vec![2], LoaderInstruction::Write { offset: 5, bytes: b"c".to_vec() }),
            (vec![0, 1, 2], LoaderInstruction::Upgrade),
            (vec![2], LoaderInstruction::Write { offset: 0, bytes: b"zzzz".to_vec() }),
        ],
    );
    scan.record_transaction(&target(), &selected, &signature(9), Some(&upgrade)).unwrap();
    assert!(scan.selected_version_reached);
    assert_eq!(scan.chunks.len(), 3);
    let recovery = scan.finish(&selected).unwrap();
    assert_eq!(recovery.image, b"\x7fELFac".to_vec());
    assert_eq!(recovery.chunk_count, 3);
}

#[test]
fn buffer_scan_finish_errors() {
    let selected = version(1, 0);
    let unreached = BufferScan {
        chunks: vec![],
        unavailable_transactions: 0,
        skipped_failed_transactions: 0,
        selected_version_reached: false,
    };
    assert!(matches!(
        unreached.finish(&selected),
        Err(ProgramRecoverError::SelectedVersionNotReached { .. })
    ));
    let empty = BufferScan {
        chunks: vec![],
        unavailable_transactions: 0,
        skipped_failed_transactions: 0,
        selected_version_reached: true,
    };
    assert!(matches!(
        empty.finish(&selected),
        Err(ProgramRecoverError::NoWriteInstructions { buffer }) if buffer == key(4)
    ));
}

#[test]
fn dump_summary_adds_skipped_counts() {
    let mut h = history(vec![version(1, 0)], vec![]);
    h.skipped_failed_transactions = 2;
    h.unavailable_transactions = 3;
    let recovery = BufferRecovery {
        image: vec![1, 2, 3, 4, 5],
        chunk_count: 2,
        unavailable_transactions: 4,
        skipped_failed_transactions: 5,
    };
    let summary = dump_summary(version(1, 0), "out.so".to_string(), &h, &recovery).unwrap();
    assert_eq!(summary.skipped_failed_transactions, 7);
    assert_eq!(summary.bytes_written, 5);
    assert_eq!(summary.unavailable_programdata_transactions, 3);
    assert_eq!(summary.unavailable_buffer_transactions, 4);
    assert_eq!(summary.output, "out.so");
    h.skipped_failed_transactions = usize::MAX;
    assert!(matches!(
        dump_summary(version(1, 0), "out.so".to_string(), &h, &recovery),
        Err(ProgramRecoverError::CounterOverflow)
    ));
}
