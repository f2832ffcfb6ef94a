use solana_program_recover::cli::encode_loader_instruction;
use solana_program_recover::error::ProgramRecoverError;
use solana_program_recover::keys::{Pubkey, Signature};
use solana_program_recover::loader::{
    classify_decoded, collect_loader_events, consumes_selected, decode_loader_instruction,
    decoded_write_chunk, extract_write_chunk, is_selected_consuming_instruction, CloseEvent, LoaderEvent, LoaderInstruction, VersionEvent,
    VersionKind,
};
use solana_program_recover::reconstruct::WriteChunk;
use solana_program_recover::transaction::{ResolvedInstruction, ResolvedTransaction};

fn loader_id() -> Pubkey {
    Pubkey::new_from_array(solana_sdk_ids::bpf_loader_upgradeable::id().to_bytes())
}

fn key(value: u8) -> Pubkey {
    Pubkey::new_from_array([value; 32])
}

fn signature() -> Signature {
    Signature::from_array([2_u8; 64])
}

fn loader_instruction(accounts: Vec<Pubkey>, instruction: LoaderInstruction) -> ResolvedInstruction {
    ResolvedInstruction {
        program_id: loader_id(),
        accounts,
        data: encode_loader_instruction(&instruction),
    }
}

#[test]
fn test_decodes_loader_write_instruction() {
    let data = encode_loader_instruction(&LoaderInstruction::Write {
        offset: 7,
        bytes: vec![1, 2, 3],
    });

    assert_eq!(
        decode_loader_instruction(&data).unwrap(),
        LoaderInstruction::Write {
            offset: 7,
            bytes: vec![1, 2, 3],
        }
    );
}

#[test]
fn test_collects_deploy_upgrade_and_close_events() {
    let program = key(1);
    let programdata = key(2);
    let deploy_buffer = key(3);
    let upgrade_buffer = key(4);
    let transaction = ResolvedTransaction {
        slot: 100,
        instructions: vec![
            loader_instruction(
                vec![
                    key(9),
                    programdata,
                    program,
                    deploy_buffer,
                    key(10),
                    key(11),
                    key(12),
                    key(13),
                ],
                LoaderInstruction::DeployWithMaxDataLen { max_data_len: 64 },
            ),
            loader_instruction(
                vec![
                    programdata,
                    program,
                    upgrade_buffer,
                    key(14),
                    key(15),
                    key(16),
                    key(17),
                ],
                LoaderInstruction::Upgrade,
            ),
            loader_instruction(
                vec![programdata, key(18), key(19), program],
                LoaderInstruction::Close,
            ),
        ],
    };

    let mut sequence = 0;
    let events = collect_loader_events(
        &program,
        &programdata,
        &signature(),
        &transaction,
        &mut sequence,
    )
    .unwrap();

    assert_eq!(
        events,
        vec![
            LoaderEvent::Version(VersionEvent {
                slot: 100,
                signature: signature(),
                buffer: deploy_buffer,
                kind: VersionKind::Deploy,
                sequence: 0,
            }),
            LoaderEvent::Version(VersionEvent {
                slot: 100,
                signature: signature(),
                buffer: upgrade_buffer,
                kind: VersionKind::Upgrade,
                sequence: 1,
            }),
            LoaderEvent::Close(CloseEvent {
                slot: 100,
                signature: signature(),
                sequence: 2,
            }),
        ]
    );
}

#[test]
fn test_extracts_write_chunk_for_target_buffer() {
    let buffer = key(1);
    let instruction = loader_instruction(
        vec![buffer, key(2)],
        LoaderInstruction::Write {
            offset: 4,
            bytes: vec![127, 69],
        },
    );

    assert_eq!(
        extract_write_chunk(&buffer, &instruction).unwrap(),
        Some(WriteChunk {
            offset: 4,
            bytes: vec![127, 69],
        })
    );
}

#[test]
fn loader_id_has_the_stated_bytes() {
    assert_eq!(
        loader_id().bytes,
        [
            2u8, 168, 246, 145, 78, 136, 161, 176, 226, 16, 21, 62, 247, 99, 174, 43, 0, 194,
            185, 61, 22, 193, 36, 210, 192, 83, 122, 16, 4, 128, 0, 0,
        ]
    );
    assert_eq!(
        solana_sdk_ids::bpf_loader_upgradeable::id().to_string(),
        "BPFLoaderUpgradeab1e11111111111111111111111"
    );
}

#[test]
fn encoding_matches_bincode_then_base58() {
    let expected = bs58::encode(
        bincode::serialize(
            &solana_loader_v3_interface::instruction::UpgradeableLoaderInstruction::Write {
                offset: 9,
                bytes: vec![5, 6],
            },
        )
        .unwrap(),
    )
    .into_string();
    let data = encode_loader_instruction(&LoaderInstruction::Write {
        offset: 9,
        bytes: vec![5, 6],
    });
    assert_eq!(data, expected);
}

#[test]
fn every_instruction_roundtrips() {
    let all = vec![
        LoaderInstruction::InitializeBuffer,
        LoaderInstruction::Write { offset: 3, bytes: vec![9, 8, 7] },
        LoaderInstruction::DeployWithMaxDataLen { max_data_len: 1000 },
        LoaderInstruction::Upgrade,
        LoaderInstruction::SetAuthority,
        LoaderInstruction::Close,
        LoaderInstruction::ExtendProgram { additional_bytes: 42 },
        LoaderInstruction::SetAuthorityChecked,
    ];
    for instruction in all {
        let data = encode_loader_instruction(&instruction);
        assert_eq!(decode_loader_instruction(&data).unwrap(), instruction);
    }
}

#[test]
fn invalid_base58_is_a_base58_error() {
    assert!(matches!(
        decode_loader_instruction("0OIl"),
        Err(ProgramRecoverError::Base58Decode(_))
    ));
}

#[test]
fn unknown_tag_is_a_bincode_error() {
    let data = bs58::encode([200u8, 0, 0, 0]).into_string();
    assert!(matches!(
        decode_loader_instruction(&data),
        Err(ProgramRecoverError::LoaderInstructionDecode(_))
    ));
}

#[test]
fn version_kind_names() {
    assert_eq!(VersionKind::Deploy.as_str(), "deploy");
    assert_eq!(VersionKind::Upgrade.as_str(), "upgrade");
}

#[test]
fn other_programs_and_other_buffers_give_no_chunk() {
    let buffer = key(1);
    let other_program = ResolvedInstruction {
        program_id: key(7),
        accounts: vec![buffer],
        data: "not base58 0".to_string(),
    };
    assert_eq!(extract_write_chunk(&buffer, &other_program).unwrap(), None);
    let other_buffer = loader_instruction(
        vec![key(5)],
        LoaderInstruction::Write { offset: 0, bytes: vec![1] },
    );
    assert_eq!(extract_write_chunk(&buffer, &other_buffer).unwrap(), None);
    let no_accounts = loader_instruction(vec![], LoaderInstruction::Write { offset: 0, bytes: vec![1] });
    assert_eq!(extract_write_chunk(&buffer, &no_accounts).unwrap(), None);
    let not_write = loader_instruction(vec![buffer], LoaderInstruction::Close);
    assert_eq!(extract_write_chunk(&buffer, &not_write).unwrap(), None);
}

#[test]
fn collect_fails_on_undecodable_loader_data() {
    let transaction = ResolvedTransaction {
        slot: 1,
        instructions: vec![ResolvedInstruction {
            program_id: loader_id(),
            accounts: vec![],
            data: "0".to_string(),
        }],
    };
    let mut sequence = 5;
    assert!(matches!(
        collect_loader_events(&key(1), &key(2), &signature(), &transaction, &mut sequence),
        Err(ProgramRecoverError::Base58Decode(_))
    ));
    assert_eq!(sequence, 5);
}

#[test]
fn collect_reports_exhausted_sequence() {
    let program = key(1);
    let programdata = key(2);
    let transaction = ResolvedTransaction {
        slot: 1,
        instructions: vec![loader_instruction(
            vec![programdata, program, key(3)],
            LoaderInstruction::Upgrade,
        )],
    };
    let mut sequence = u64::MAX;
    assert!(matches!(
        collect_loader_events(&program, &programdata, &signature(), &transaction, &mut sequence),
        Err(ProgramRecoverError::EventSequenceOverflow)
    ));
}

#[test]
fn close_with_other_program_or_upgrade_of_other_program_is_ignored() {
    let program = key(1);
    let programdata = key(2);
    let transaction = ResolvedTransaction {
        slot: 7,
        instructions: vec![
            loader_instruction(vec![programdata, key(3), key(4), key(5)], LoaderInstruction::Close),
            loader_instruction(vec![programdata, key(6), key(3)], LoaderInstruction::Upgrade),
            loader_instruction(vec![programdata, program], LoaderInstruction::Upgrade),
            loader_instruction(vec![programdata], LoaderInstruction::Close),
        ],
    };
    let mut sequence = 10;
    let events =
        collect_loader_events(&program, &programdata, &signature(), &transaction, &mut sequence)
            .unwrap();
    assert_eq!(
        events,
        vec![LoaderEvent::Close(CloseEvent {
            slot: 7,
            signature: signature(),
            sequence: 10,
        })]
    );
    assert_eq!(sequence, 11);
}

#[test]
fn selected_consuming_instruction_is_recognized() {
    let program = key(1);
    let programdata = key(2);
    let buffer = key(3);
    let selected = VersionEvent {
        slot: 1,
        signature: signature(),
        buffer,
        kind: VersionKind::Upgrade,
        sequence: 0,
    };
    let upgrade = loader_instruction(vec![programdata, program, buffer], LoaderInstruction::Upgrade);
    assert!(is_selected_consuming_instruction(&program, &programdata, &selected, &upgrade).unwrap());
    let deploy = loader_instruction(
        vec![key(9), programdata, program, buffer],
        LoaderInstruction::DeployWithMaxDataLen { max_data_len: 1 },
    );
    assert!(!is_selected_consuming_instruction(&program, &programdata, &selected, &deploy).unwrap());
    let selected_deploy = VersionEvent { kind: VersionKind::Deploy, ..selected };
    assert!(is_selected_consuming_instruction(&program, &programdata, &selected_deploy, &deploy)
        .unwrap());
    let wrong_buffer =
        loader_instruction(vec![programdata, program, key(8)], LoaderInstruction::Upgrade);
    assert!(!is_selected_consuming_instruction(&program, &programdata, &selected, &wrong_buffer)
        .unwrap());
}

#[test]
fn classifies_decoded_instructions() {
    let program = key(1);
    let programdata = key(2);
    let buffer = key(3);
    let upgrade = classify_decoded(
        &program,
        &programdata,
        &signature(),
        7,
        &[programdata, program, buffer],
        &LoaderInstruction::Upgrade,
    );
    assert_eq!(
        upgrade,
        Some(LoaderEvent::Version(VersionEvent {
            slot: 7,
            signature: signature(),
            buffer,
            kind: VersionKind::Upgrade,
            sequence: 0,
        }))
    );
    let deploy_without_buffer = classify_decoded(
        &program,
        &programdata,
        &signature(),
        7,
        &[key(9), programdata, program],
        &LoaderInstruction::DeployWithMaxDataLen { max_data_len: 5 },
    );
    assert_eq!(deploy_without_buffer, None);
    let close = classify_decoded(
        &program,
        &programdata,
        &signature(),
        8,
        &[programdata, key(5), key(6)],
        &LoaderInstruction::Close,
    );
    assert_eq!(
        close,
        Some(LoaderEvent::Close(CloseEvent {
            slot: 8,
            signature: signature(),
            sequence: 0,
        }))
    );
    let write = classify_decoded(
        &program,
        &programdata,
        &signature(),
        8,
        &[programdata],
        &LoaderInstruction::Write { offset: 0, bytes: vec![1] },
    );
    assert_eq!(write, None);
}

#[test]
fn decoded_writes_of_the_buffer_give_chunks() {
    let buffer = key(3);
    assert_eq!(
        decoded_write_chunk(&buffer, &[buffer], LoaderInstruction::Write { offset: 5, bytes: vec![1, 2] }),
        Some(WriteChunk { offset: 5, bytes: vec![1, 2] })
    );
    assert_eq!(
        decoded_write_chunk(&buffer, &[key(4)], LoaderInstruction::Write { offset: 5, bytes: vec![1] }),
        None
    );
    assert_eq!(decoded_write_chunk(&buffer, &[], LoaderInstruction::Write { offset: 0, bytes: vec![] }), None);
    assert_eq!(decoded_write_chunk(&buffer, &[buffer], LoaderInstruction::Upgrade), None);
}

#[test]
fn decoded_deploy_consumes_only_its_own_buffer() {
    let program = key(1);
    let programdata = key(2);
    let buffer = key(3);
    let accounts = [key(9), programdata, program, buffer];
    let deploy = LoaderInstruction::DeployWithMaxDataLen { max_data_len: 10 };
    let selected = VersionEvent {
        slot: 1,
        signature: signature(),
        buffer,
        kind: VersionKind::Deploy,
        sequence: 4,
    };
    assert!(consumes_selected(&program, &programdata, &selected, &accounts, &deploy));
    let other_buffer = VersionEvent { buffer: key(4), ..selected };
    assert!(!consumes_selected(&program, &programdata, &other_buffer, &accounts, &deploy));
    let upgrade_kind = VersionEvent { kind: VersionKind::Upgrade, ..selected };
    assert!(!consumes_selected(&program, &programdata, &upgrade_kind, &accounts, &deploy));
}

#[test]
fn classified_version_is_consumed_by_its_instruction() {
    let program = key(1);
    let programdata = key(2);
    let buffer = key(3);
    let instruction = loader_instruction(vec![programdata, program, buffer], LoaderInstruction::Upgrade);
    let transaction = ResolvedTransaction {
        slot: 12,
        instructions: vec![instruction.clone()],
    };
    let mut sequence = 0;
    let events =
        collect_loader_events(&program, &programdata, &signature(), &transaction, &mut sequence)
            .unwrap();
    let event = match events[0] {
        LoaderEvent::Version(event) => event,
        LoaderEvent::Close(_) => panic!("expected a version event"),
    };
    assert!(is_selected_consuming_instruction(&program, &programdata, &event, &instruction).unwrap());
    let deploy_kind = VersionEvent { kind: VersionKind::Deploy, ..event };
    assert!(!is_selected_consuming_instruction(&program, &programdata, &deploy_kind, &instruction)
        .unwrap());
}
