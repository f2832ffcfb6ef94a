use vstd::prelude::*;

use solana_loader_v3_interface::instruction::UpgradeableLoaderInstruction as Wire;

use crate::error::{agrees, same_failure, ProgramRecoverError};
use crate::keys::{spec_upgradeable_loader_id, upgradeable_loader_id, Pubkey, Signature};
use crate::reconstruct::WriteChunk;
use crate::transaction::{
    instruction_views, ResolvedInstruction, ResolvedInstructionView, ResolvedTransaction,
};

verus! {

/// An instruction of the upgradeable BPF loader, as it travels in a
/// transaction.
#[derive(Debug, PartialEq, Eq)]
pub enum LoaderInstruction {
    InitializeBuffer,
    Write { offset: u32, bytes: Vec<u8> },
    DeployWithMaxDataLen { max_data_len: usize },
    Upgrade,
    SetAuthority,
    Close,
    ExtendProgram { additional_bytes: u32 },
    SetAuthorityChecked,
}

/// A loader instruction as a mathematical value.
pub enum LoaderInstructionView {
    InitializeBuffer,
    Write { offset: u32, bytes: Seq<u8> },
    DeployWithMaxDataLen { max_data_len: usize },
    Upgrade,
    SetAuthority,
    Close,
    ExtendProgram { additional_bytes: u32 },
    SetAuthorityChecked,
}

impl View for LoaderInstruction {
    type V = LoaderInstructionView;

    open spec fn view(&self) -> LoaderInstructionView {
        match self {
            LoaderInstruction::InitializeBuffer => LoaderInstructionView::InitializeBuffer,
            LoaderInstruction::Write { offset, bytes } => LoaderInstructionView::Write {
                offset: *offset,
                bytes: bytes@,
            },
            LoaderInstruction::DeployWithMaxDataLen { max_data_len } =>
                LoaderInstructionView::DeployWithMaxDataLen { max_data_len: *max_data_len },
            LoaderInstruction::Upgrade => LoaderInstructionView::Upgrade,
            LoaderInstruction::SetAuthority => LoaderInstructionView::SetAuthority,
            LoaderInstruction::Close => LoaderInstructionView::Close,
            LoaderInstruction::ExtendProgram { additional_bytes } =>
                LoaderInstructionView::ExtendProgram { additional_bytes: *additional_bytes },
            LoaderInstruction::SetAuthorityChecked => LoaderInstructionView::SetAuthorityChecked,
        }
    }
}

/// What `bs58::decode` makes of a text: its bytes, or `None` where the text
/// is not base58.
pub uninterp spec fn spec_base58_decode(text: Seq<char>) -> Option<Seq<u8>>;

/// What `bs58::encode` makes of some bytes.
pub uninterp spec fn spec_base58_encode(bytes: Seq<u8>) -> Seq<char>;

/// What `bincode::deserialize` makes of some bytes as an upgradeable loader
/// instruction, or `None` where they are not one.
pub uninterp spec fn spec_bincode_instruction(bytes: Seq<u8>) -> Option<LoaderInstructionView>;

/// What `bincode::serialize` makes of an upgradeable loader instruction.
pub uninterp spec fn spec_bincode_encoding(instruction: LoaderInstructionView) -> Seq<u8>;

/// `bs58::decode(text).into_vec()`: decodes base58 text with the Bitcoin
/// alphabet. The contract claims only that the outcome is the named one.
#[verifier::external_body]
fn base58_decode(text: &str) -> (res: Result<Vec<u8>, bs58::decode::Error>)
    ensures
        res is Ok <==> spec_base58_decode(text@) is Some,
        res matches Ok(bytes) ==> spec_base58_decode(text@) == Some(bytes@),
{
    bs58::decode(text).into_vec()
}

/// `bs58::encode(bytes).into_string()`: encodes bytes as base58 text. The
/// contract claims the named result and that decoding the text gives the
/// bytes back, the defining property of the codec.
#[verifier::external_body]
pub(crate) fn base58_encode(bytes: &[u8]) -> (text: String)
    ensures
        text@ == spec_base58_encode(bytes@),
        spec_base58_decode(text@) == Some(bytes@),
{
    bs58::encode(bytes).into_string()
}

/// `bincode::deserialize::<UpgradeableLoaderInstruction>(bytes)`, each
/// variant of the outside enum moved into the same variant of
/// `LoaderInstruction`. The contract claims only the named outcome.
#[verifier::external_body]
fn bincode_instruction(bytes: &[u8]) -> (res: Result<LoaderInstruction, Box<bincode::ErrorKind>>)
    ensures
        res is Ok <==> spec_bincode_instruction(bytes@) is Some,
        res matches Ok(i) ==> spec_bincode_instruction(bytes@) == Some(i@),
{
    match bincode::deserialize::<Wire>(bytes) {
        Ok(Wire::InitializeBuffer) => Ok(LoaderInstruction::InitializeBuffer),
        Ok(Wire::Write { offset, bytes }) => Ok(LoaderInstruction::Write { offset, bytes }),
        Ok(Wire::DeployWithMaxDataLen { max_data_len }) => Ok(LoaderInstruction::DeployWithMaxDataLen { max_data_len }),
        Ok(Wire::Upgrade) => Ok(LoaderInstruction::Upgrade),
        Ok(Wire::SetAuthority) => Ok(LoaderInstruction::SetAuthority),
        Ok(Wire::Close) => Ok(LoaderInstruction::Close),
        Ok(Wire::ExtendProgram { additional_bytes }) => Ok(LoaderInstruction::ExtendProgram { additional_bytes }),
        Ok(Wire::SetAuthorityChecked) => Ok(LoaderInstruction::SetAuthorityChecked),
        Err(e) => Err(e),
    }
}

/// `bincode::serialize` of the instruction as an `UpgradeableLoaderInstruction`.
/// bincode's default options have no size limit and every field of this enum
/// serializes without error, so the call cannot fail on it. The contract
/// claims the named result and that deserializing it gives the instruction
/// back.
#[verifier::external_body]
pub(crate) fn bincode_encoding(instruction: &LoaderInstruction) -> (bytes: Vec<u8>)
    ensures
        bytes@ == spec_bincode_encoding(instruction@),
        spec_bincode_instruction(bytes@) == Some(instruction@),
{
    let wire = match instruction {
        LoaderInstruction::InitializeBuffer => Wire::InitializeBuffer,
        LoaderInstruction::Write { offset, bytes } => Wire::Write { offset: *offset, bytes: bytes.clone() },
        LoaderInstruction::DeployWithMaxDataLen { max_data_len } => Wire::DeployWithMaxDataLen { max_data_len: *max_data_len },
        LoaderInstruction::Upgrade => Wire::Upgrade,
        LoaderInstruction::SetAuthority => Wire::SetAuthority,
        LoaderInstruction::Close => Wire::Close,
        LoaderInstruction::ExtendProgram { additional_bytes } => Wire::ExtendProgram { additional_bytes: *additional_bytes },
        LoaderInstruction::SetAuthorityChecked => Wire::SetAuthorityChecked,
    };
    bincode::serialize(&wire).expect("loader instruction should serialize")
}

/// What the base58 text of an instruction's data decodes to as a loader
/// instruction, or `None` where either decoding step fails.
pub open spec fn spec_decode_instruction(data: Seq<char>) -> Option<LoaderInstructionView> {
    match spec_base58_decode(data) {
        Some(raw) => spec_bincode_instruction(raw),
        None => None,
    }
}

/// The error that a failed decoding of `data` reports: the base58 step when
/// it fails, otherwise the bincode step.
pub open spec fn decode_error_of(data: Seq<char>) -> ProgramRecoverError {
    if spec_base58_decode(data) is None {
        ProgramRecoverError::Base58Decode(arbitrary())
    } else {
        ProgramRecoverError::LoaderInstructionDecode(arbitrary())
    }
}

/// Decodes the base58 data of an instruction as an upgradeable loader
/// instruction encoded with bincode.
pub fn decode_loader_instruction(data_base58: &str) -> (res: Result<
    LoaderInstruction,
    ProgramRecoverError,
>)
    ensures
        match spec_decode_instruction(data_base58@) {
            Some(v) => res matches Ok(i) && i@ == v,
            None => res matches Err(e) && same_failure(e, decode_error_of(data_base58@)),
        },
{
    let raw = match base58_decode(data_base58) {
        Ok(raw) => raw,
        Err(e) => return Err(ProgramRecoverError::Base58Decode(e)),
    };
    match bincode_instruction(raw.as_slice()) {
        Ok(instruction) => Ok(instruction),
        Err(e) => Err(ProgramRecoverError::LoaderInstructionDecode(e)),
    }
}

/// Whether a deploy or an upgrade created a program version.
#[derive(Clone, Copy, Debug, PartialEq, Eq, Structural)]
pub enum VersionKind {
    Deploy,
    Upgrade,
}

impl VersionKind {
    /// The lower-case name of the kind.
    pub fn as_str(self) -> (name: &'static str)
        ensures
            self == VersionKind::Deploy ==> name@ == "deploy"@,
            self == VersionKind::Upgrade ==> name@ == "upgrade"@,
    {
        match self {
            VersionKind::Deploy => "deploy",
            VersionKind::Upgrade => "upgrade",
        }
    }
}

/// A deploy or upgrade of the program: the buffer it consumed, where, and
/// its place among all loader events seen.
#[derive(Clone, Copy, Debug, PartialEq, Eq)]
pub struct VersionEvent {
    pub slot: u64,
    pub signature: Signature,
    pub buffer: Pubkey,
    pub kind: VersionKind,
    pub sequence: u64,
}

/// A close of the ProgramData account.
#[derive(Clone, Copy, Debug, PartialEq, Eq)]
pub struct CloseEvent {
    pub slot: u64,
    pub signature: Signature,
    pub sequence: u64,
}

#[derive(Clone, Copy, Debug, PartialEq, Eq)]
pub enum LoaderEvent {
    Version(VersionEvent),
    Close(CloseEvent),
}

/// Whether `accounts` holds `key` at `index`.
pub open spec fn spec_account_is(accounts: Seq<Pubkey>, index: int, key: Pubkey) -> bool {
    0 <= index < accounts.len() && accounts[index]@ == key@
}

/// The event that a decoded loader instruction makes of the program, with
/// sequence number 0: a deploy or an upgrade of it whose buffer account is
/// present, or a close of its ProgramData account whose program account, if
/// present, is the program.
pub open spec fn spec_loader_event(
    program: Pubkey,
    programdata: Pubkey,
    signature: Signature,
    slot: u64,
    accounts: Seq<Pubkey>,
    decoded: LoaderInstructionView,
) -> Option<LoaderEvent> {
    match decoded {
        LoaderInstructionView::DeployWithMaxDataLen { .. } => if spec_account_is(
            accounts,
            1,
            programdata,
        ) && spec_account_is(accounts, 2, program) && 3 < accounts.len() {
            Some(
                LoaderEvent::Version(
                    VersionEvent {
                        slot,
                        signature,
                        buffer: accounts[3],
                        kind: VersionKind::Deploy,
                        sequence: 0,
                    },
                ),
            )
        } else {
            None
        },
        LoaderInstructionView::Upgrade => if spec_account_is(accounts, 0, programdata)
            && spec_account_is(accounts, 1, program) && 2 < accounts.len() {
            Some(
                LoaderEvent::Version(
                    VersionEvent {
                        slot,
                        signature,
                        buffer: accounts[2],
                        kind: VersionKind::Upgrade,
                        sequence: 0,
                    },
                ),
            )
        } else {
            None
        },
        LoaderInstructionView::Close => if spec_account_is(accounts, 0, programdata) && (
        accounts.len() <= 3 || accounts[3]@ == program@) {
            Some(LoaderEvent::Close(CloseEvent { slot, signature, sequence: 0 }))
        } else {
            None
        },
        _ => None,
    }
}

/// What one instruction means for the program's history: nothing when it is
/// not addressed to the upgradeable loader, a decoding failure, or the event
/// (if any) of the decoded instruction.
pub open spec fn spec_instruction_event(
    program: Pubkey,
    programdata: Pubkey,
    signature: Signature,
    slot: u64,
    instruction: ResolvedInstructionView,
) -> Result<Option<LoaderEvent>, ProgramRecoverError> {
    if instruction.program_id@ != spec_upgradeable_loader_id() {
        Ok(None)
    } else {
        match spec_decode_instruction(instruction.data@) {
            None => Err(decode_error_of(instruction.data@)),
            Some(decoded) => Ok(
                spec_loader_event(
                    program,
                    programdata,
                    signature,
                    slot,
                    instruction.accounts,
                    decoded,
                ),
            ),
        }
    }
}

/// `event` numbered `sequence`.
pub open spec fn spec_numbered(event: LoaderEvent, sequence: u64) -> LoaderEvent {
    match event {
        LoaderEvent::Version(v) => LoaderEvent::Version(VersionEvent { sequence, ..v }),
        LoaderEvent::Close(c) => LoaderEvent::Close(CloseEvent { sequence, ..c }),
    }
}

/// The sequence number of an event.
pub open spec fn sequence_of(event: LoaderEvent) -> u64 {
    match event {
        LoaderEvent::Version(v) => v.sequence,
        LoaderEvent::Close(c) => c.sequence,
    }
}

/// The events of the first `n` instructions, numbered from `start`, and the
/// next free number; or the first failure, with the next free number at that
/// point.
pub open spec fn spec_collect_events(
    program: Pubkey,
    programdata: Pubkey,
    signature: Signature,
    slot: u64,
    instructions: Seq<ResolvedInstructionView>,
    n: nat,
    start: u64,
) -> Result<(Seq<LoaderEvent>, u64), (ProgramRecoverError, u64)>
    decreases n,
{
    if n == 0 {
        Ok((Seq::empty(), start))
    } else {
        match spec_collect_events(
            program,
            programdata,
            signature,
            slot,
            instructions,
            (n - 1) as nat,
            start,
        ) {
            Err(failure) => Err(failure),
            Ok((events, next)) => match spec_instruction_event(
                program,
                programdata,
                signature,
                slot,
                instructions[n - 1],
            ) {
                Err(e) => Err((e, next)),
                Ok(None) => Ok((events, next)),
                Ok(Some(event)) => if next == u64::MAX {
                    Err((ProgramRecoverError::EventSequenceOverflow, next))
                } else {
                    Ok((events.push(spec_numbered(event, next)), (next + 1) as u64))
                },
            },
        }
    }
}

fn account_at(accounts: &[Pubkey], index: usize) -> (res: Option<&Pubkey>)
    ensures
        index < accounts@.len() ==> res == Some(&accounts@[index as int]),
        index >= accounts@.len() ==> res is None,
{
    if index < accounts.len() {
        Some(&accounts[index])
    } else {
        None
    }
}

/// Whether `accounts` holds `key` at `index`.
fn account_is(accounts: &[Pubkey], index: usize, key: &Pubkey) -> (is: bool)
    ensures
        is == spec_account_is(accounts@, index as int, *key),
{
    match account_at(accounts, index) {
        Some(account) => account.same_as(key),
        None => false,
    }
}

fn classify_version_or_close(
    program: &Pubkey,
    programdata: &Pubkey,
    signature: &Signature,
    slot: u64,
    instruction: &ResolvedInstruction,
) -> (res: Result<Option<LoaderEvent>, ProgramRecoverError>)
    ensures
        agrees(res, spec_instruction_event(*program, *programdata, *signature, slot, instruction@)),
{
    let loader = upgradeable_loader_id();
    if !instruction.program_id.same_as(&loader) {
        return Ok(None);
    }
    let decoded = decode_loader_instruction(instruction.data.as_str())?;
    Ok(classify_decoded(program, programdata, signature, slot, instruction.accounts.as_slice(), &decoded))
}

/// The event that a decoded loader instruction with `accounts` makes of the
/// program, numbered 0.
pub fn classify_decoded(
    program: &Pubkey,
    programdata: &Pubkey,
    signature: &Signature,
    slot: u64,
    accounts: &[Pubkey],
    decoded: &LoaderInstruction,
) -> (event: Option<LoaderEvent>)
    ensures
        event == spec_loader_event(*program, *programdata, *signature, slot, accounts@, decoded@),
{
    match decoded {
        LoaderInstruction::DeployWithMaxDataLen { max_data_len: _ } if account_is(
            accounts,
            1,
            programdata,
        ) && account_is(accounts, 2, program) => {
            let buffer = match account_at(accounts, 3) {
                Some(buffer) => buffer,
                None => return None,
            };
            Some(
                LoaderEvent::Version(
                    VersionEvent {
                        slot,
                        signature: *signature,
                        buffer: *buffer,
                        kind: VersionKind::Deploy,
                        sequence: 0,
                    },
                ),
            )
        },
        LoaderInstruction::Upgrade if account_is(accounts, 0, programdata) && account_is(
            accounts,
            1,
            program,
        ) => {
            let buffer = match account_at(accounts, 2) {
                Some(buffer) => buffer,
                None => return None,
            };
            Some(
                LoaderEvent::Version(
                    VersionEvent {
                        slot,
                        signature: *signature,
                        buffer: *buffer,
                        kind: VersionKind::Upgrade,
                        sequence: 0,
                    },
                ),
            )
        },
        LoaderInstruction::Close if account_is(accounts, 0, programdata) && match account_at(
            accounts,
            3,
        ) {
            None => true,
            Some(account) => account.same_as(program),
        } => { Some(LoaderEvent::Close(CloseEvent { slot, signature: *signature, sequence: 0 })) },
        _ => None,
    }
}

/// Gives `event` the number `*next_sequence` and advances the counter, or
/// reports that the counter is exhausted.
fn with_sequence(event: LoaderEvent, next_sequence: &mut u64) -> (res: Result<
    LoaderEvent,
    ProgramRecoverError,
>)
    ensures
        *old(next_sequence) == u64::MAX ==> res == Err::<LoaderEvent, ProgramRecoverError>(
            ProgramRecoverError::EventSequenceOverflow,
        ) && *final(next_sequence) == *old(next_sequence),
        *old(next_sequence) < u64::MAX ==> res == Ok::<LoaderEvent, ProgramRecoverError>(
            spec_numbered(event, *old(next_sequence)),
        ) && *final(next_sequence) == *old(next_sequence) + 1,
{
    let sequence = *next_sequence;
    *next_sequence = match next_sequence.checked_add(1) {
        Some(next) => next,
        None => return Err(ProgramRecoverError::EventSequenceOverflow),
    };
    Ok(
        match event {
            LoaderEvent::Version(mut event) => {
                event.sequence = sequence;
                LoaderEvent::Version(event)
            },
            LoaderEvent::Close(mut event) => {
                event.sequence = sequence;
                LoaderEvent::Close(event)
            },
        },
    )
}

/// The deploy, upgrade and close events that a transaction makes of the
/// program, in instruction order, numbered from `*next_sequence` on.
pub fn collect_loader_events(
    program: &Pubkey,
    programdata: &Pubkey,
    signature: &Signature,
    transaction: &ResolvedTransaction,
    next_sequence: &mut u64,
) -> (res: Result<Vec<LoaderEvent>, ProgramRecoverError>)
    ensures
        match spec_collect_events(
            *program,
            *programdata,
            *signature,
            transaction.slot,
            instruction_views(transaction.instructions@),
            transaction.instructions@.len(),
            *old(next_sequence),
        ) {
            Ok((events, next)) => res matches Ok(v) && v@ == events && *final(next_sequence) == next,
            Err((e, next)) => res matches Err(a) && same_failure(a, e) && *final(next_sequence)
                == next,
        },
{
    let ghost start = *next_sequence;
    let ghost instructions = instruction_views(transaction.instructions@);
    let mut events: Vec<LoaderEvent> = Vec::new();
    let count = transaction.instructions.len();
    let mut i: usize = 0;
    while i < count
        invariant
            count == instructions.len(),
            instructions == instruction_views(transaction.instructions@),
            start == *old(next_sequence),
            i <= count,
            spec_collect_events(
                *program,
                *programdata,
                *signature,
                transaction.slot,
                instructions,
                i as nat,
                start,
            ) == Ok::<(Seq<LoaderEvent>, u64), (ProgramRecoverError, u64)>(
                (events@, *next_sequence),
            ),
        decreases count - i,
    {
        let instruction = &transaction.instructions[i];
        let classified = classify_version_or_close(
            program,
            programdata,
            signature,
            transaction.slot,
            instruction,
        );
        let event = match classified {
            Ok(Some(event)) => event,
            Ok(None) => {
                i = i + 1;
                continue;
            },
            Err(e) => {
                proof {
                    lemma_collect_failure_stable(
                        *program,
                        *programdata,
                        *signature,
                        transaction.slot,
                        instructions,
                        (i + 1) as nat,
                        count as nat,
                        start,
                    );
                }
                return Err(e);
            },
        };
        let numbered = match with_sequence(event, next_sequence) {
            Ok(numbered) => numbered,
            Err(e) => {
                proof {
                    lemma_collect_failure_stable(
                        *program,
                        *programdata,
                        *signature,
                        transaction.slot,
                        instructions,
                        (i + 1) as nat,
                        count as nat,
                        start,
                    );
                }
                return Err(e);
            },
        };
        events.push(numbered);
        i = i + 1;
    }
    Ok(events)
}

/// What a write of the buffer makes of an instruction: nothing when it is
/// not addressed to the upgradeable loader, a decoding failure, or, for a
/// `Write` whose first account is `buffer`, its offset and bytes.
pub open spec fn spec_write_chunk(buffer: Pubkey, instruction: ResolvedInstructionView) -> Result<
    Option<(usize, Seq<u8>)>,
    ProgramRecoverError,
> {
    if instruction.program_id@ != spec_upgradeable_loader_id() {
        Ok(None)
    } else {
        match spec_decode_instruction(instruction.data@) {
            None => Err(decode_error_of(instruction.data@)),
            Some(decoded) => Ok(spec_decoded_write(buffer, instruction.accounts, decoded)),
        }
    }
}

/// What a decoded loader instruction with `accounts` writes into `buffer`:
/// for a `Write` whose first account is `buffer`, its offset and bytes.
pub open spec fn spec_decoded_write(
    buffer: Pubkey,
    accounts: Seq<Pubkey>,
    decoded: LoaderInstructionView,
) -> Option<(usize, Seq<u8>)> {
    match decoded {
        LoaderInstructionView::Write { offset, bytes } => if spec_account_is(accounts, 0, buffer) {
            Some((offset as usize, bytes))
        } else {
            None
        },
        _ => None,
    }
}

/// A chunk as its offset and bytes.
pub open spec fn chunk_view(chunk: Option<WriteChunk>) -> Option<(usize, Seq<u8>)> {
    match chunk {
        Some(c) => Some((c.offset, c.bytes@)),
        None => None,
    }
}

/// The chunk that `instruction` writes into `buffer`, if it is a loader
/// `Write` of that buffer.
pub fn extract_write_chunk(buffer: &Pubkey, instruction: &ResolvedInstruction) -> (res: Result<
    Option<WriteChunk>,
    ProgramRecoverError,
>)
    ensures
        match spec_write_chunk(*buffer, instruction@) {
            Ok(chunk) => res matches Ok(c) && chunk_view(c) == chunk,
            Err(e) => res matches Err(a) && same_failure(a, e),
        },
{
    let loader = upgradeable_loader_id();
    if !instruction.program_id.same_as(&loader) {
        return Ok(None);
    }
    let decoded = decode_loader_instruction(instruction.data.as_str())?;
    Ok(decoded_write_chunk(buffer, instruction.accounts.as_slice(), decoded))
}

/// The chunk that a decoded loader instruction with `accounts` writes into
/// `buffer`, if it is a `Write` of that buffer.
pub fn decoded_write_chunk(buffer: &Pubkey, accounts: &[Pubkey], decoded: LoaderInstruction) -> (res:
    Option<WriteChunk>)
    ensures
        chunk_view(res) == spec_decoded_write(*buffer, accounts@, decoded@),
{
    let (offset, bytes) = match decoded {
        LoaderInstruction::Write { offset, bytes } => (offset, bytes),
        _ => return None,
    };
    let write_buffer = match accounts.first() {
        Some(write_buffer) => write_buffer,
        None => return None,
    };
    if !write_buffer.same_as(buffer) {
        return None;
    }
    Some(WriteChunk { offset: offset as usize, bytes })
}

/// Whether `instruction` is the deploy or upgrade of `selected`: the loader
/// instruction of its kind, naming the program's ProgramData, the program and
/// the selected buffer at their places.
pub open spec fn spec_consumes_selected(
    program: Pubkey,
    programdata: Pubkey,
    selected: VersionEvent,
    accounts: Seq<Pubkey>,
    decoded: LoaderInstructionView,
) -> bool {
    match (selected.kind, decoded) {
        (VersionKind::Deploy, LoaderInstructionView::DeployWithMaxDataLen { .. }) => {
            &&& spec_account_is(accounts, 1, programdata)
            &&& spec_account_is(accounts, 2, program)
            &&& spec_account_is(accounts, 3, selected.buffer)
        },
        (VersionKind::Upgrade, LoaderInstructionView::Upgrade) => {
            &&& spec_account_is(accounts, 0, programdata)
            &&& spec_account_is(accounts, 1, program)
            &&& spec_account_is(accounts, 2, selected.buffer)
        },
        _ => false,
    }
}

/// What checking an instruction against the selected version gives.
pub open spec fn spec_is_selected_consuming(
    program: Pubkey,
    programdata: Pubkey,
    selected: VersionEvent,
    instruction: ResolvedInstructionView,
) -> Result<bool, ProgramRecoverError> {
    if instruction.program_id@ != spec_upgradeable_loader_id() {
        Ok(false)
    } else {
        match spec_decode_instruction(instruction.data@) {
            None => Err(decode_error_of(instruction.data@)),
            Some(decoded) => Ok(
                spec_consumes_selected(
                    program,
                    programdata,
                    selected,
                    instruction.accounts,
                    decoded,
                ),
            ),
        }
    }
}

/// Whether `instruction` is the deploy or upgrade that consumed the buffer
/// of the selected version.
pub fn is_selected_consuming_instruction(
    program: &Pubkey,
    programdata: &Pubkey,
    selected: &VersionEvent,
    instruction: &ResolvedInstruction,
) -> (res: Result<bool, ProgramRecoverError>)
    ensures
        agrees(res, spec_is_selected_consuming(*program, *programdata, *selected, instruction@)),
{
    let loader = upgradeable_loader_id();
    if !instruction.program_id.same_as(&loader) {
        return Ok(false);
    }
    let decoded = decode_loader_instruction(instruction.data.as_str())?;
    Ok(consumes_selected(program, programdata, selected, instruction.accounts.as_slice(), &decoded))
}

/// Whether a decoded loader instruction with `accounts` is the deploy or
/// upgrade of `selected`.
pub fn consumes_selected(
    program: &Pubkey,
    programdata: &Pubkey,
    selected: &VersionEvent,
    accounts: &[Pubkey],
    decoded: &LoaderInstruction,
) -> (matches: bool)
    ensures
        matches == spec_consumes_selected(*program, *programdata, *selected, accounts@, decoded@),
{
    match (selected.kind, decoded) {
        (VersionKind::Deploy, LoaderInstruction::DeployWithMaxDataLen { max_data_len: _ }) => {
            account_is(accounts, 1, programdata) && account_is(accounts, 2, program) && account_is(
                accounts,
                3,
                &selected.buffer,
            )
        },
        (VersionKind::Upgrade, LoaderInstruction::Upgrade) => {
            account_is(accounts, 0, programdata) && account_is(accounts, 1, program) && account_is(
                accounts,
                2,
                &selected.buffer,
            )
        },
        _ => false,
    }
}

/// An instruction addressed to any program other than the upgradeable loader
/// makes no event, whatever its data; in particular it is never decoded, so
/// data that is no loader instruction cannot fail the classification.
pub proof fn law_other_programs_make_no_event(
    program: Pubkey,
    programdata: Pubkey,
    signature: Signature,
    slot: u64,
    instruction: ResolvedInstructionView,
)
    requires
        instruction.program_id@ != spec_upgradeable_loader_id(),
    ensures
        spec_instruction_event(program, programdata, signature, slot, instruction) == Ok::<
            Option<LoaderEvent>,
            ProgramRecoverError,
        >(None),
        spec_write_chunk(programdata, instruction) == Ok::<
            Option<(usize, Seq<u8>)>,
            ProgramRecoverError,
        >(None),
{
}

/// An instruction addressed to any program other than the upgradeable loader
/// consumes no version's buffer, whatever its data, and checking it never
/// fails.
pub proof fn law_other_programs_consume_nothing(
    program: Pubkey,
    programdata: Pubkey,
    selected: VersionEvent,
    instruction: ResolvedInstructionView,
)
    requires
        instruction.program_id@ != spec_upgradeable_loader_id(),
    ensures
        spec_is_selected_consuming(program, programdata, selected, instruction) == Ok::<
            bool,
            ProgramRecoverError,
        >(false),
        spec_write_chunk(selected.buffer, instruction) == Ok::<
            Option<(usize, Seq<u8>)>,
            ProgramRecoverError,
        >(None),
{
}

/// An instruction that makes a deploy or upgrade event of the program is the
/// consuming instruction of exactly the versions of that kind and buffer; in
/// particular of the version it makes.
pub proof fn law_version_instruction_consumes_its_buffer(
    program: Pubkey,
    programdata: Pubkey,
    signature: Signature,
    slot: u64,
    instruction: ResolvedInstructionView,
    event: VersionEvent,
    selected: VersionEvent,
)
    requires
        spec_instruction_event(program, programdata, signature, slot, instruction) == Ok::<
            Option<LoaderEvent>,
            ProgramRecoverError,
        >(Some(LoaderEvent::Version(event))),
    ensures
        spec_is_selected_consuming(program, programdata, selected, instruction) == Ok::<
            bool,
            ProgramRecoverError,
        >(selected.kind == event.kind && selected.buffer@ == event.buffer@),
        spec_is_selected_consuming(program, programdata, event, instruction) == Ok::<
            bool,
            ProgramRecoverError,
        >(true),
{
}

/// Events collected from a transaction are numbered consecutively from the
/// counter's value on, and the counter ends one past the last number given;
/// the counter never goes back, also when collecting fails.
pub proof fn law_collect_numbers_consecutively(
    program: Pubkey,
    programdata: Pubkey,
    signature: Signature,
    slot: u64,
    instructions: Seq<ResolvedInstructionView>,
    n: nat,
    start: u64,
)
    ensures
        spec_collect_events(program, programdata, signature, slot, instructions, n, start) matches Ok(
            (events, next),
        ) ==> {
            &&& next == start + events.len()
            &&& forall|k: int| 0 <= k < events.len() ==> sequence_of(#[trigger] events[k]) == start + k
        },
        spec_collect_events(program, programdata, signature, slot, instructions, n, start) matches Err(
            (_, next),
        ) ==> next >= start,
    decreases n,
{
    if n > 0 {
        law_collect_numbers_consecutively(
            program,
            programdata,
            signature,
            slot,
            instructions,
            (n - 1) as nat,
            start,
        );
    }
}

/// The deploy and upgrade events among `events`, in order.
pub open spec fn version_events(events: Seq<LoaderEvent>) -> Seq<VersionEvent>
    decreases events.len(),
{
    if events.len() == 0 {
        Seq::empty()
    } else {
        match events.last() {
            LoaderEvent::Version(v) => version_events(events.drop_last()).push(v),
            LoaderEvent::Close(_) => version_events(events.drop_last()),
        }
    }
}

/// The close events among `events`, in order.
pub open spec fn close_events(events: Seq<LoaderEvent>) -> Seq<CloseEvent>
    decreases events.len(),
{
    if events.len() == 0 {
        Seq::empty()
    } else {
        match events.last() {
            LoaderEvent::Close(c) => close_events(events.drop_last()).push(c),
            LoaderEvent::Version(_) => close_events(events.drop_last()),
        }
    }
}

proof fn lemma_collect_failure_stable(
    program: Pubkey,
    programdata: Pubkey,
    signature: Signature,
    slot: u64,
    instructions: Seq<ResolvedInstructionView>,
    k: nat,
    m: nat,
    start: u64,
)
    requires
        k <= m,
        spec_collect_events(program, programdata, signature, slot, instructions, k, start) is Err,
    ensures
        spec_collect_events(program, programdata, signature, slot, instructions, m, start)
            == spec_collect_events(program, programdata, signature, slot, instructions, k, start),
    decreases m - k,
{
    if k < m {
        lemma_collect_failure_stable(
            program,
            programdata,
            signature,
            slot,
            instructions,
            k,
            (m - 1) as nat,
            start,
        );
    }
}


} // verus!
