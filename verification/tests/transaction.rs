use solana_program_recover::error::ProgramRecoverError;
use solana_program_recover::keys::{Pubkey, Signature};
use solana_program_recover::transaction::{
    resolve_instructions, resolve_successful_transaction, CompiledInstruction, ConfirmedTransaction, EncodedTransaction,
    InnerInstruction, InnerInstructionGroup, LoadedAddresses, RawMessage, ResolvedInstruction,
    TransactionMessage, TransactionStatusMeta,
};

fn signature() -> Signature {
    Signature::from_array([1_u8; 64])
}

fn key(value: u8) -> Pubkey {
    Pubkey::new_from_array([value; 32])
}

fn key_text(value: u8) -> String {
    solana_pubkey::Pubkey::from([value; 32]).to_string()
}

fn transaction_with(message: RawMessage, meta: TransactionStatusMeta) -> ConfirmedTransaction {
    ConfirmedTransaction {
        slot: 42,
        transaction: EncodedTransaction::Json(TransactionMessage::Raw(message)),
        meta: Some(meta),
    }
}

fn raw_message(instructions: Vec<CompiledInstruction>) -> RawMessage {
    RawMessage {
        account_keys: vec![key_text(1), key_text(2)],
        instructions,
    }
}

fn meta_with(
    loaded_addresses: Option<LoadedAddresses>,
    inner_instructions: Option<Vec<InnerInstructionGroup>>,
) -> TransactionStatusMeta {
    TransactionStatusMeta {
        failed: false,
        loaded_addresses,
        inner_instructions,
    }
}

fn compiled(program_id_index: u8, accounts: Vec<u8>, data: &str) -> CompiledInstruction {
    CompiledInstruction {
        program_id_index,
        accounts,
        data: data.to_string(),
    }
}

#[test]
fn test_resolves_loaded_address_indexes() {
    let transaction = transaction_with(
        raw_message(vec![compiled(2, vec![0, 3], "abc")]),
        meta_with(
            Some(LoadedAddresses {
                writable: vec![key_text(4)],
                readonly: vec![key_text(5)],
            }),
            None,
        ),
    );

    let resolved = resolve_successful_transaction(&signature(), &transaction)
        .unwrap()
        .unwrap();

    assert_eq!(
        resolved.instructions,
        vec![ResolvedInstruction {
            program_id: key(4),
            accounts: vec![key(1), key(5)],
            data: "abc".to_string(),
        }]
    );
}

#[test]
fn test_interleaves_top_level_and_inner_instructions() {
    let transaction = transaction_with(
        raw_message(vec![compiled(0, vec![], "top0"), compiled(1, vec![], "top1")]),
        meta_with(
            None,
            Some(vec![InnerInstructionGroup {
                index: 0,
                instructions: vec![InnerInstruction::Compiled(compiled(1, vec![], "inner0"))],
            }]),
        ),
    );

    let resolved = resolve_successful_transaction(&signature(), &transaction)
        .unwrap()
        .unwrap();

    let data: Vec<&str> = resolved
        .instructions
        .iter()
        .map(|instruction| instruction.data.as_str())
        .collect();
    assert_eq!(data, vec!["top0", "inner0", "top1"]);
}

#[test]
fn groups_for_the_same_index_keep_their_order() {
    let transaction = transaction_with(
        raw_message(vec![compiled(0, vec![], "top0"), compiled(1, vec![], "top1")]),
        meta_with(
            None,
            Some(vec![
                InnerInstructionGroup {
                    index: 1,
                    instructions: vec![InnerInstruction::Compiled(compiled(0, vec![1], "a"))],
                },
                InnerInstructionGroup {
                    index: 0,
                    instructions: vec![InnerInstruction::Compiled(compiled(0, vec![], "b"))],
                },
                InnerInstructionGroup {
                    index: 1,
                    instructions: vec![
                        InnerInstruction::Compiled(compiled(1, vec![], "c")),
                        InnerInstruction::Compiled(compiled(1, vec![], "d")),
                    ],
                },
            ]),
        ),
    );
    let resolved = resolve_successful_transaction(&signature(), &transaction)
        .unwrap()
        .unwrap();
    let data: Vec<&str> = resolved
        .instructions
        .iter()
        .map(|instruction| instruction.data.as_str())
        .collect();
    assert_eq!(data, vec!["top0", "b", "top1", "a", "c", "d"]);
    assert_eq!(resolved.slot, 42);
    assert_eq!(resolved.instructions[3].accounts, vec![key(2)]);
}

#[test]
fn failed_transaction_is_skipped() {
    let mut meta = meta_with(None, None);
    meta.failed = true;
    let transaction = transaction_with(raw_message(vec![compiled(9, vec![], "x")]), meta);
    assert!(resolve_successful_transaction(&signature(), &transaction)
        .unwrap()
        .is_none());
}

#[test]
fn missing_meta_is_an_error() {
    let mut transaction = transaction_with(raw_message(vec![]), meta_with(None, None));
    transaction.meta = None;
    assert!(matches!(
        resolve_successful_transaction(&signature(), &transaction),
        Err(ProgramRecoverError::MissingTransactionMeta { signature: s }) if s == signature()
    ));
}

#[test]
fn non_json_and_parsed_messages_are_errors() {
    let mut transaction = transaction_with(raw_message(vec![]), meta_with(None, None));
    transaction.transaction = EncodedTransaction::Other;
    assert!(matches!(
        resolve_successful_transaction(&signature(), &transaction),
        Err(ProgramRecoverError::UnsupportedTransactionEncoding { .. })
    ));
    transaction.transaction = EncodedTransaction::Json(TransactionMessage::Parsed);
    assert!(matches!(
        resolve_successful_transaction(&signature(), &transaction),
        Err(ProgramRecoverError::UnsupportedMessageEncoding { .. })
    ));
}

#[test]
fn account_index_past_the_keys_is_an_error() {
    let transaction = transaction_with(
        raw_message(vec![compiled(0, vec![1, 2, 7], "x")]),
        meta_with(None, None),
    );
    assert!(matches!(
        resolve_successful_transaction(&signature(), &transaction),
        Err(ProgramRecoverError::InvalidAccountIndex { index: 2, key_count: 2, .. })
    ));
}

#[test]
fn inner_instructions_for_a_missing_index_are_an_error() {
    let transaction = transaction_with(
        raw_message(vec![compiled(0, vec![], "x")]),
        meta_with(
            None,
            Some(vec![
                InnerInstructionGroup {
                    index: 5,
                    instructions: vec![InnerInstruction::Parsed],
                },
                InnerInstructionGroup {
                    index: 3,
                    instructions: vec![],
                },
            ]),
        ),
    );
    assert!(matches!(
        resolve_successful_transaction(&signature(), &transaction),
        Err(ProgramRecoverError::InvalidInnerInstructionIndex { index: 3, .. })
    ));
}

#[test]
fn parsed_inner_instruction_is_an_error() {
    let transaction = transaction_with(
        raw_message(vec![compiled(0, vec![], "x")]),
        meta_with(
            None,
            Some(vec![InnerInstructionGroup {
                index: 0,
                instructions: vec![InnerInstruction::Parsed],
            }]),
        ),
    );
    assert!(matches!(
        resolve_successful_transaction(&signature(), &transaction),
        Err(ProgramRecoverError::UnsupportedInnerInstructionEncoding { .. })
    ));
}

#[test]
fn invalid_key_text_is_an_error() {
    let mut message = raw_message(vec![]);
    message.account_keys.push("not-a-key".to_string());
    let transaction = transaction_with(message, meta_with(None, None));
    match resolve_successful_transaction(&signature(), &transaction) {
        Err(ProgramRecoverError::InvalidTransactionPubkey { value, .. }) => {
            assert_eq!(value, "not-a-key")
        }
        other => panic!("unexpected {:?}", other),
    }
}

#[test]
fn more_than_256_top_level_instructions_fail_at_the_last_index() {
    let instructions: Vec<CompiledInstruction> =
        (0..257).map(|_| compiled(0, vec![], "x")).collect();
    let transaction = transaction_with(raw_message(instructions), meta_with(None, None));
    assert!(matches!(
        resolve_successful_transaction(&signature(), &transaction),
        Err(ProgramRecoverError::InvalidInnerInstructionIndex { index: 255, .. })
    ));
}

#[test]
fn resolves_instructions_against_parsed_keys() {
    let message = raw_message(vec![compiled(0, vec![1, 2], "top0"), compiled(2, vec![], "top1")]);
    let meta = meta_with(
        None,
        Some(vec![InnerInstructionGroup {
            index: 1,
            instructions: vec![InnerInstruction::Compiled(compiled(1, vec![0], "inner1"))],
        }]),
    );
    let keys = vec![key(7), key(8), key(9)];

    let resolved = resolve_instructions(&signature(), &message, &meta, &keys).unwrap();

    assert_eq!(
        resolved,
        vec![
            ResolvedInstruction {
                program_id: key(7),
                accounts: vec![key(8), key(9)],
                data: "top0".to_string(),
            },
            ResolvedInstruction {
                program_id: key(9),
                accounts: vec![],
                data: "top1".to_string(),
            },
            ResolvedInstruction {
                program_id: key(8),
                accounts: vec![key(7)],
                data: "inner1".to_string(),
            },
        ]
    );
}

#[test]
fn resolving_against_too_few_keys_reports_the_index() {
    let message = raw_message(vec![compiled(0, vec![3], "top0")]);
    let meta = meta_with(None, None);
    let keys = vec![key(7), key(8)];

    assert!(matches!(
        resolve_instructions(&signature(), &message, &meta, &keys),
        Err(ProgramRecoverError::InvalidAccountIndex { index: 3, key_count: 2, .. })
    ));
}
