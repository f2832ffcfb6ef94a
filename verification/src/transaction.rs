use vstd::prelude::*;

use crate::error::{agrees_view, same_failure, ProgramRecoverError};
use crate::keys::{pubkey_from_str, spec_pubkey_from_str, Pubkey, Signature};

verus! {

/// An instruction as the JSON encoding of a transaction gives it: account
/// indexes into the transaction's keys, and base58 data.
#[derive(Clone, Debug, PartialEq, Eq)]
pub struct CompiledInstruction {
    pub program_id_index: u8,
    pub accounts: Vec<u8>,
    pub data: String,
}

/// An inner instruction: compiled, or already parsed by the RPC node (which
/// this recovery does not read).
#[derive(Clone, Debug, PartialEq, Eq)]
pub enum InnerInstruction {
    Compiled(CompiledInstruction),
    Parsed,
}

/// The inner instructions that the top-level instruction `index` invoked.
#[derive(Clone, Debug, PartialEq, Eq)]
pub struct InnerInstructionGroup {
    pub index: u8,
    pub instructions: Vec<InnerInstruction>,
}

/// Keys that address lookup tables added to a transaction, as base58 text.
#[derive(Clone, Debug, PartialEq, Eq)]
pub struct LoadedAddresses {
    pub writable: Vec<String>,
    pub readonly: Vec<String>,
}

/// The status of a confirmed transaction: whether it failed, the keys that
/// lookup tables added, and the inner instructions, where the node sent them.
#[derive(Clone, Debug, PartialEq, Eq)]
pub struct TransactionStatusMeta {
    pub failed: bool,
    pub loaded_addresses: Option<LoadedAddresses>,
    pub inner_instructions: Option<Vec<InnerInstructionGroup>>,
}

/// A message as raw keys and compiled instructions.
#[derive(Clone, Debug, PartialEq, Eq)]
pub struct RawMessage {
    pub account_keys: Vec<String>,
    pub instructions: Vec<CompiledInstruction>,
}

/// The message of a JSON-encoded transaction: raw, or parsed by the node.
#[derive(Clone, Debug, PartialEq, Eq)]
pub enum TransactionMessage {
    Raw(RawMessage),
    Parsed,
}

/// How the node encoded the transaction: as JSON, or in another encoding.
#[derive(Clone, Debug, PartialEq, Eq)]
pub enum EncodedTransaction {
    Json(TransactionMessage),
    Other,
}

/// A confirmed transaction as the node returned it.
#[derive(Clone, Debug, PartialEq, Eq)]
pub struct ConfirmedTransaction {
    pub slot: u64,
    pub transaction: EncodedTransaction,
    pub meta: Option<TransactionStatusMeta>,
}

/// An instruction of a transaction with its account indexes replaced by the
/// addresses they name.
#[derive(Clone, Debug, PartialEq, Eq)]
pub struct ResolvedInstruction {
    pub program_id: Pubkey,
    pub accounts: Vec<Pubkey>,
    pub data: String,
}

/// A resolved instruction as a mathematical value.
pub struct ResolvedInstructionView {
    pub program_id: Pubkey,
    pub accounts: Seq<Pubkey>,
    pub data: String,
}

impl View for ResolvedInstruction {
    type V = ResolvedInstructionView;

    open spec fn view(&self) -> ResolvedInstructionView {
        ResolvedInstructionView {
            program_id: self.program_id,
            accounts: self.accounts@,
            data: self.data,
        }
    }
}

/// The views of a sequence of resolved instructions.
pub open spec fn instruction_views(instructions: Seq<ResolvedInstruction>) -> Seq<
    ResolvedInstructionView,
> {
    instructions.map_values(|instruction: ResolvedInstruction| instruction@)
}

/// The instructions of a successful transaction, top-level instructions each
/// followed by the inner instructions they invoked.
#[derive(Clone, Debug, PartialEq, Eq)]
pub struct ResolvedTransaction {
    pub slot: u64,
    pub instructions: Vec<ResolvedInstruction>,
}

/// A resolved transaction as a mathematical value.
pub struct ResolvedTransactionView {
    pub slot: u64,
    pub instructions: Seq<ResolvedInstructionView>,
}

impl View for ResolvedTransaction {
    type V = ResolvedTransactionView;

    open spec fn view(&self) -> ResolvedTransactionView {
        ResolvedTransactionView { slot: self.slot, instructions: instruction_views(self.instructions@) }
    }
}

/// The addresses that `texts` name, in order; or the error for the first text
/// that names none.
pub open spec fn spec_parse_keys(signature: Signature, texts: Seq<String>) -> Result<
    Seq<Pubkey>,
    ProgramRecoverError,
>
    decreases texts.len(),
{
    if texts.len() == 0 {
        Ok(Seq::empty())
    } else {
        match spec_parse_keys(signature, texts.drop_last()) {
            Err(e) => Err(e),
            Ok(keys) => match spec_pubkey_from_str(texts.last()@) {
                Some(bytes) => Ok(keys.push(Pubkey { bytes })),
                None => Err(
                    ProgramRecoverError::InvalidTransactionPubkey {
                        signature,
                        value: texts.last(),
                        source: arbitrary(),
                    },
                ),
            },
        }
    }
}

/// All keys of a transaction as text: those of its message, then the
/// writable and the read-only keys that lookup tables added.
pub open spec fn spec_key_texts(message: RawMessage, meta: TransactionStatusMeta) -> Seq<String> {
    match meta.loaded_addresses {
        Some(loaded) => message.account_keys@ + loaded.writable@ + loaded.readonly@,
        None => message.account_keys@,
    }
}

proof fn lemma_parse_keys_concat(signature: Signature, a: Seq<String>, b: Seq<String>)
    ensures
        spec_parse_keys(signature, a + b) == match spec_parse_keys(signature, a) {
            Err(e) => Err(e),
            Ok(ka) => match spec_parse_keys(signature, b) {
                Err(e) => Err(e),
                Ok(kb) => Ok(ka + kb),
            },
        },
    decreases b.len(),
{
    if b.len() == 0 {
        assert(a + b =~= a);
        if let Ok(ka) = spec_parse_keys(signature, a) {
            assert(ka + Seq::<Pubkey>::empty() =~= ka);
        }
    } else {
        lemma_parse_keys_concat(signature, a, b.drop_last());
        assert((a + b).drop_last() =~= a + b.drop_last());
        assert((a + b).last() == b.last());
        if let Ok(ka) = spec_parse_keys(signature, a) {
            if let Ok(kb) = spec_parse_keys(signature, b.drop_last()) {
                if let Some(bytes) = spec_pubkey_from_str(b.last()@) {
                    assert(ka + kb.push(Pubkey { bytes }) =~= (ka + kb).push(Pubkey { bytes }));
                }
            }
        }
    }
}

fn parse_pubkey(signature: &Signature, value: &String) -> (res: Result<Pubkey, ProgramRecoverError>)
    ensures
        match spec_pubkey_from_str(value@) {
            Some(bytes) => res == Ok::<Pubkey, ProgramRecoverError>(Pubkey { bytes }),
            None => res matches Err(e) && same_failure(
                e,
                ProgramRecoverError::InvalidTransactionPubkey {
                    signature: *signature,
                    value: *value,
                    source: arbitrary(),
                },
            ),
        },
{
    match pubkey_from_str(value.as_str()) {
        Ok(key) => Ok(key),
        Err(source) => Err(
            ProgramRecoverError::InvalidTransactionPubkey {
                signature: *signature,
                value: value.clone(),
                source,
            },
        ),
    }
}

/// Appends the addresses that `texts` name to `keys`.
fn push_parsed_keys(signature: &Signature, keys: &mut Vec<Pubkey>, texts: &Vec<String>) -> (res:
    Result<(), ProgramRecoverError>)
    ensures
        match spec_parse_keys(*signature, texts@) {
            Ok(parsed) => res is Ok && final(keys)@ == old(keys)@ + parsed,
            Err(e) => res matches Err(a) && same_failure(a, e),
        },
{
    let ghost start = keys@;
    let count = texts.len();
    let mut i: usize = 0;
    while i < count
        invariant
            count == texts@.len(),
            i <= count,
            spec_parse_keys(*signature, texts@.take(i as int)) matches Ok(parsed) && keys@ == start
                + parsed,
        decreases count - i,
    {
        assert(texts@.take(i + 1).drop_last() =~= texts@.take(i as int));
        let key = parse_pubkey(signature, &texts[i]);
        match key {
            Ok(key) => {
                keys.push(key);
                proof {
                    let parsed = spec_parse_keys(*signature, texts@.take(i as int))->Ok_0;
                    assert(keys@ =~= start + parsed.push(key));
                }
            },
            Err(e) => {
                proof {
                    lemma_parse_keys_concat(
                        *signature,
                        texts@.take(i + 1),
                        texts@.subrange(i + 1, count as int),
                    );
                    assert(texts@.take(i + 1) + texts@.subrange(i + 1, count as int) =~= texts@);
                }
                return Err(e);
            },
        }
        i = i + 1;
    }
    assert(texts@.take(count as int) =~= texts@);
    Ok(())
}

fn extend_loaded_addresses(
    signature: &Signature,
    keys: &mut Vec<Pubkey>,
    loaded_addresses: &LoadedAddresses,
) -> (res: Result<(), ProgramRecoverError>)
    ensures
        match spec_parse_keys(*signature, loaded_addresses.writable@ + loaded_addresses.readonly@) {
            Ok(parsed) => res is Ok && final(keys)@ == old(keys)@ + parsed,
            Err(e) => res matches Err(a) && same_failure(a, e),
        },
{
    proof {
        lemma_parse_keys_concat(*signature, loaded_addresses.writable@, loaded_addresses.readonly@);
    }
    push_parsed_keys(signature, keys, &loaded_addresses.writable)?;
    push_parsed_keys(signature, keys, &loaded_addresses.readonly)?;
    proof {
        assert(keys@ =~= old(keys)@ + spec_parse_keys(
            *signature,
            loaded_addresses.writable@ + loaded_addresses.readonly@,
        )->Ok_0);
    }
    Ok(())
}

/// The keys of the message followed by those that lookup tables loaded.
fn combined_account_keys(
    signature: &Signature,
    message: &RawMessage,
    meta: &TransactionStatusMeta,
) -> (res: Result<Vec<Pubkey>, ProgramRecoverError>)
    ensures
        agrees_view(res, spec_parse_keys(*signature, spec_key_texts(*message, *meta))),
{
    proof {
        if meta.loaded_addresses is Some {
            let loaded_addresses = meta.loaded_addresses->Some_0;
            lemma_parse_keys_concat(
                *signature,
                message.account_keys@,
                loaded_addresses.writable@ + loaded_addresses.readonly@,
            );
            assert(message.account_keys@ + loaded_addresses.writable@ + loaded_addresses.readonly@
                =~= message.account_keys@ + (loaded_addresses.writable@
                + loaded_addresses.readonly@));
        }
    }
    let mut keys: Vec<Pubkey> = Vec::new();
    push_parsed_keys(signature, &mut keys, &message.account_keys)?;
    match &meta.loaded_addresses {
        Some(loaded_addresses) => {
            extend_loaded_addresses(signature, &mut keys, loaded_addresses)?;
        },
        None => {
            assert(keys@ =~= spec_parse_keys(*signature, message.account_keys@)->Ok_0);
        },
    }
    Ok(keys)
}

/// The key at `index`, or the error for an index past the keys.
pub open spec fn spec_resolve_key(signature: Signature, keys: Seq<Pubkey>, index: u8) -> Result<
    Pubkey,
    ProgramRecoverError,
> {
    if (index as int) < keys.len() {
        Ok(keys[index as int])
    } else {
        Err(
            ProgramRecoverError::InvalidAccountIndex {
                signature,
                index,
                key_count: keys.len() as usize,
            },
        )
    }
}

/// The keys at `indexes`, or the error for the first index past the keys.
pub open spec fn spec_resolve_keys(signature: Signature, keys: Seq<Pubkey>, indexes: Seq<u8>) -> Result<
    Seq<Pubkey>,
    ProgramRecoverError,
>
    decreases indexes.len(),
{
    if indexes.len() == 0 {
        Ok(Seq::empty())
    } else {
        match spec_resolve_keys(signature, keys, indexes.drop_last()) {
            Err(e) => Err(e),
            Ok(resolved) => match spec_resolve_key(signature, keys, indexes.last()) {
                Err(e) => Err(e),
                Ok(key) => Ok(resolved.push(key)),
            },
        }
    }
}

/// Resolving account indexes succeeds exactly when every index names one of
/// the keys, and then gives one key per index, in order: the key at that
/// index, repeated indexes included.
pub proof fn law_resolved_keys_follow_indexes(
    signature: Signature,
    keys: Seq<Pubkey>,
    indexes: Seq<u8>,
)
    ensures
        spec_resolve_keys(signature, keys, indexes) is Ok <==> forall|i: int|
            0 <= i < indexes.len() ==> (#[trigger] indexes[i] as int) < keys.len(),
        spec_resolve_keys(signature, keys, indexes) matches Ok(resolved) ==> {
            &&& resolved.len() == indexes.len()
            &&& forall|i: int| 0 <= i < indexes.len() ==> #[trigger] resolved[i] == keys[indexes[i] as int]
        },
    decreases indexes.len(),
{
    if indexes.len() > 0 {
        let rest = indexes.drop_last();
        law_resolved_keys_follow_indexes(signature, keys, rest);
        assert forall|i: int| 0 <= i < rest.len() implies rest[i] == indexes[i] by {}
        if !((indexes.last() as int) < keys.len()) {
            assert(indexes[indexes.len() - 1] == indexes.last());
        }
        if spec_resolve_keys(signature, keys, rest) is Err {
            let j = choose|j: int| 0 <= j < rest.len() && !((rest[j] as int) < keys.len());
            assert(indexes[j] == rest[j]);
        }
    }
}

/// A compiled instruction with its program and accounts resolved.
pub open spec fn spec_resolve_compiled(
    signature: Signature,
    keys: Seq<Pubkey>,
    instruction: CompiledInstruction,
) -> Result<ResolvedInstructionView, ProgramRecoverError> {
    match spec_resolve_key(signature, keys, instruction.program_id_index) {
        Err(e) => Err(e),
        Ok(program_id) => match spec_resolve_keys(signature, keys, instruction.accounts@) {
            Err(e) => Err(e),
            Ok(accounts) => Ok(
                ResolvedInstructionView { program_id, accounts, data: instruction.data },
            ),
        },
    }
}

/// An inner instruction resolved; parsed ones are not supported.
pub open spec fn spec_resolve_inner(
    signature: Signature,
    keys: Seq<Pubkey>,
    instruction: InnerInstruction,
) -> Result<ResolvedInstructionView, ProgramRecoverError> {
    match instruction {
        InnerInstruction::Compiled(compiled) => spec_resolve_compiled(signature, keys, compiled),
        InnerInstruction::Parsed => Err(
            ProgramRecoverError::UnsupportedInnerInstructionEncoding { signature },
        ),
    }
}

/// Resolves instructions in order, stopping at the first failure.
pub open spec fn spec_resolve_all(
    signature: Signature,
    keys: Seq<Pubkey>,
    work: Seq<InnerInstruction>,
) -> Result<Seq<ResolvedInstructionView>, ProgramRecoverError>
    decreases work.len(),
{
    if work.len() == 0 {
        Ok(Seq::empty())
    } else {
        match spec_resolve_all(signature, keys, work.drop_last()) {
            Err(e) => Err(e),
            Ok(resolved) => match spec_resolve_inner(signature, keys, work.last()) {
                Err(e) => Err(e),
                Ok(instruction) => Ok(resolved.push(instruction)),
            },
        }
    }
}

/// The inner instructions of all groups for the top-level instruction
/// `index`, groups in their order.
pub open spec fn spec_inner_for(groups: Seq<InnerInstructionGroup>, index: int) -> Seq<
    InnerInstruction,
>
    decreases groups.len(),
{
    if groups.len() == 0 {
        Seq::empty()
    } else {
        spec_inner_for(groups.drop_last(), index) + if groups.last().index == index {
            groups.last().instructions@
        } else {
            Seq::empty()
        }
    }
}

/// The first `n` top-level instructions, each followed by its inner
/// instructions.
pub open spec fn spec_interleaved(
    top: Seq<CompiledInstruction>,
    groups: Seq<InnerInstructionGroup>,
    n: nat,
) -> Seq<InnerInstruction>
    decreases n,
{
    if n == 0 {
        Seq::empty()
    } else {
        spec_interleaved(top, groups, (n - 1) as nat).push(InnerInstruction::Compiled(top[n - 1]))
            + spec_inner_for(groups, n - 1)
    }
}

/// The smallest group index that is not below `n`.
pub open spec fn spec_leftover_index(groups: Seq<InnerInstructionGroup>, n: int) -> Option<u8>
    decreases groups.len(),
{
    if groups.len() == 0 {
        None
    } else {
        let rest = spec_leftover_index(groups.drop_last(), n);
        let index = groups.last().index;
        if index >= n {
            match rest {
                Some(other) => if other < index {
                    Some(other)
                } else {
                    Some(index)
                },
                None => Some(index),
            }
        } else {
            rest
        }
    }
}

/// Resolving a run of instructions either resolves every one of them, one
/// result per instruction in order, or fails with the failure of the first
/// instruction that does not resolve.
pub proof fn law_resolve_all_is_in_order(
    signature: Signature,
    keys: Seq<Pubkey>,
    work: Seq<InnerInstruction>,
)
    ensures
        spec_resolve_all(signature, keys, work) matches Ok(resolved) ==> {
            &&& resolved.len() == work.len()
            &&& forall|i: int| 0 <= i < work.len() ==> spec_resolve_inner(signature, keys, #[trigger] work[i])
                == Ok::<ResolvedInstructionView, ProgramRecoverError>(resolved[i])
        },
        spec_resolve_all(signature, keys, work) matches Err(e) ==> exists|k: int|
            0 <= k < work.len() && spec_resolve_inner(signature, keys, #[trigger] work[k])
                == Err::<ResolvedInstructionView, ProgramRecoverError>(e) && forall|i: int|
                0 <= i < k ==> spec_resolve_inner(signature, keys, #[trigger] work[i]) is Ok,
    decreases work.len(),
{
    if work.len() > 0 {
        let rest = work.drop_last();
        law_resolve_all_is_in_order(signature, keys, rest);
        assert forall|i: int| 0 <= i < rest.len() implies rest[i] == work[i] by {}
        if let Err(e) = spec_resolve_all(signature, keys, rest) {
            let k = choose|k: int|
                0 <= k < rest.len() && spec_resolve_inner(signature, keys, #[trigger] rest[k])
                    == Err::<ResolvedInstructionView, ProgramRecoverError>(e) && forall|i: int|
                    0 <= i < k ==> spec_resolve_inner(signature, keys, #[trigger] rest[i]) is Ok;
            assert(work[k] == rest[k]);
        } else if spec_resolve_all(signature, keys, work) is Err {
            assert(work[work.len() - 1] == work.last());
            assert forall|i: int| 0 <= i < work.len() - 1 implies spec_resolve_inner(
                signature,
                keys,
                #[trigger] work[i],
            ) is Ok by {
                assert(rest[i] == work[i]);
            }
        }
    }
}

/// The index reported as having no top-level instruction is the smallest
/// group index that is at least `n`; there is none exactly when every group
/// index is below `n`.
pub proof fn law_leftover_is_smallest_unmatched(groups: Seq<InnerInstructionGroup>, n: int)
    ensures
        spec_leftover_index(groups, n) matches Some(index) ==> {
            &&& index >= n
            &&& exists|k: int| 0 <= k < groups.len() && (#[trigger] groups[k]).index == index
            &&& forall|k: int| 0 <= k < groups.len() && (#[trigger] groups[k]).index >= n ==> groups[k].index >= index
        },
        spec_leftover_index(groups, n) is None ==> forall|k: int|
            0 <= k < groups.len() ==> (#[trigger] groups[k]).index < n,
    decreases groups.len(),
{
    if groups.len() > 0 {
        let rest = groups.drop_last();
        law_leftover_is_smallest_unmatched(rest, n);
        assert forall|k: int| 0 <= k < rest.len() implies rest[k] == groups[k] by {}
        assert(groups[groups.len() - 1] == groups.last());
        if let Some(other) = spec_leftover_index(rest, n) {
            let k = choose|k: int| 0 <= k < rest.len() && (#[trigger] rest[k]).index == other;
            assert(groups[k] == rest[k]);
        }
    }
}

/// The groups of inner instructions that the node sent.
pub open spec fn spec_groups(meta: TransactionStatusMeta) -> Seq<InnerInstructionGroup> {
    match meta.inner_instructions {
        Some(groups) => groups@,
        None => Seq::empty(),
    }
}

/// The instructions of a message, each top-level instruction followed by its
/// inner instructions. Top-level instructions are numbered by a `u8`, so a
/// message with more than 256 of them fails after the first 256; inner
/// instructions for an index that no top-level instruction has are an error.
pub open spec fn spec_resolve_instructions(
    signature: Signature,
    message: RawMessage,
    meta: TransactionStatusMeta,
    keys: Seq<Pubkey>,
) -> Result<Seq<ResolvedInstructionView>, ProgramRecoverError> {
    let n = message.instructions@.len();
    let groups = spec_groups(meta);
    let m: nat = if n > 256 {
        256
    } else {
        n
    };
    match spec_resolve_all(signature, keys, spec_interleaved(message.instructions@, groups, m)) {
        Err(e) => Err(e),
        Ok(resolved) => if n > 256 {
            Err(ProgramRecoverError::InvalidInnerInstructionIndex { signature, index: 255 })
        } else {
            match spec_leftover_index(groups, n as int) {
                Some(index) => Err(
                    ProgramRecoverError::InvalidInnerInstructionIndex { signature, index },
                ),
                None => Ok(resolved),
            }
        },
    }
}

/// Whether `p` is a prefix of `s`.
pub open spec fn prefix_of<T>(p: Seq<T>, s: Seq<T>) -> bool {
    p.len() <= s.len() && forall|k: int| 0 <= k < p.len() ==> #[trigger] p[k] == s[k]
}

proof fn lemma_resolve_all_failure_stable(
    signature: Signature,
    keys: Seq<Pubkey>,
    p: Seq<InnerInstruction>,
    s: Seq<InnerInstruction>,
)
    requires
        prefix_of(p, s),
        spec_resolve_all(signature, keys, p) is Err,
    ensures
        spec_resolve_all(signature, keys, s) == spec_resolve_all(signature, keys, p),
    decreases s.len(),
{
    if s.len() == p.len() {
        assert(s =~= p);
    } else {
        assert(prefix_of(p, s.drop_last()));
        lemma_resolve_all_failure_stable(signature, keys, p, s.drop_last());
    }
}

proof fn lemma_inner_for_prefix(groups: Seq<InnerInstructionGroup>, index: int, g: int)
    requires
        0 <= g <= groups.len(),
    ensures
        prefix_of(spec_inner_for(groups.take(g), index), spec_inner_for(groups, index)),
    decreases groups.len(),
{
    if g == groups.len() {
        assert(groups.take(g) =~= groups);
    } else {
        assert(groups.drop_last().take(g) =~= groups.take(g));
        lemma_inner_for_prefix(groups.drop_last(), index, g);
    }
}

proof fn lemma_interleaved_prefix(
    top: Seq<CompiledInstruction>,
    groups: Seq<InnerInstructionGroup>,
    i: nat,
    m: nat,
)
    requires
        i <= m,
    ensures
        prefix_of(spec_interleaved(top, groups, i), spec_interleaved(top, groups, m)),
    decreases m,
{
    if i < m {
        lemma_interleaved_prefix(top, groups, i, (m - 1) as nat);
        let prev = spec_interleaved(top, groups, (m - 1) as nat);
        assert(prefix_of(prev, spec_interleaved(top, groups, m)));
    }
}

proof fn lemma_leftover_none_below(groups: Seq<InnerInstructionGroup>, n: int)
    ensures
        spec_leftover_index(groups, n) matches Some(index) ==> index >= n,
    decreases groups.len(),
{
    if groups.len() > 0 {
        lemma_leftover_none_below(groups.drop_last(), n);
    }
}

/// The key at `index` among `keys`.
fn resolve_key(signature: &Signature, keys: &[Pubkey], index: u8) -> (res: Result<
    Pubkey,
    ProgramRecoverError,
>)
    ensures
        res == spec_resolve_key(*signature, keys@, index),
{
    let position = index as usize;
    if position < keys.len() {
        Ok(keys[position])
    } else {
        Err(
            ProgramRecoverError::InvalidAccountIndex {
                signature: *signature,
                index,
                key_count: keys.len(),
            },
        )
    }
}

fn resolve_compiled_instruction(
    signature: &Signature,
    keys: &[Pubkey],
    instruction: &CompiledInstruction,
) -> (res: Result<ResolvedInstruction, ProgramRecoverError>)
    ensures
        agrees_view(res, spec_resolve_compiled(*signature, keys@, *instruction)),
{
    let program_id = resolve_key(signature, keys, instruction.program_id_index)?;
    let count = instruction.accounts.len();
    let mut accounts: Vec<Pubkey> = Vec::with_capacity(count);
    let mut i: usize = 0;
    while i < count
        invariant
            count == instruction.accounts@.len(),
            i <= count,
            spec_resolve_key(*signature, keys@, instruction.program_id_index) == Ok::<
                Pubkey,
                ProgramRecoverError,
            >(program_id),
            spec_resolve_keys(*signature, keys@, instruction.accounts@.take(i as int)) == Ok::<
                Seq<Pubkey>,
                ProgramRecoverError,
            >(accounts@),
        decreases count - i,
    {
        assert(instruction.accounts@.take(i + 1).drop_last() =~= instruction.accounts@.take(
            i as int,
        ));
        match resolve_key(signature, keys, instruction.accounts[i]) {
            Ok(key) => accounts.push(key),
            Err(e) => {
                proof {
                    lemma_resolve_keys_failure_stable(
                        *signature,
                        keys@,
                        instruction.accounts@,
                        (i + 1) as int,
                    );
                }
                return Err(e);
            },
        }
        i = i + 1;
    }
    assert(instruction.accounts@.take(count as int) =~= instruction.accounts@);
    Ok(ResolvedInstruction { program_id, accounts, data: instruction.data.clone() })
}

proof fn lemma_resolve_keys_failure_stable(
    signature: Signature,
    keys: Seq<Pubkey>,
    indexes: Seq<u8>,
    k: int,
)
    requires
        0 <= k <= indexes.len(),
        spec_resolve_keys(signature, keys, indexes.take(k)) is Err,
    ensures
        spec_resolve_keys(signature, keys, indexes) == spec_resolve_keys(
            signature,
            keys,
            indexes.take(k),
        ),
    decreases indexes.len(),
{
    if k == indexes.len() {
        assert(indexes.take(k) =~= indexes);
    } else {
        assert(indexes.drop_last().take(k) =~= indexes.take(k));
        lemma_resolve_keys_failure_stable(signature, keys, indexes.drop_last(), k);
    }
}

fn resolve_ui_instruction(
    signature: &Signature,
    keys: &[Pubkey],
    instruction: &InnerInstruction,
) -> (res: Result<ResolvedInstruction, ProgramRecoverError>)
    ensures
        agrees_view(res, spec_resolve_inner(*signature, keys@, *instruction)),
{
    match instruction {
        InnerInstruction::Compiled(compiled) => resolve_compiled_instruction(
            signature,
            keys,
            compiled,
        ),
        InnerInstruction::Parsed => Err(
            ProgramRecoverError::UnsupportedInnerInstructionEncoding { signature: *signature },
        ),
    }
}

proof fn lemma_prefix_transitive<T>(a: Seq<T>, b: Seq<T>, c: Seq<T>)
    requires
        prefix_of(a, b),
        prefix_of(b, c),
    ensures
        prefix_of(a, c),
{
    assert forall|k: int| 0 <= k < a.len() implies #[trigger] a[k] == c[k] by {
        assert(a[k] == b[k]);
    }
}

proof fn lemma_prefix_after(base: Seq<InnerInstruction>, a: Seq<InnerInstruction>, b: Seq<InnerInstruction>)
    requires
        prefix_of(a, b),
    ensures
        prefix_of(base + a, base + b),
{
    assert forall|k: int| 0 <= k < (base + a).len() implies #[trigger] (base + a)[k] == (base
        + b)[k] by {
        if k >= base.len() {
            assert(a[k - base.len()] == b[k - base.len()]);
        }
    }
}

/// A failure while resolving the instructions of top-level index `i` is the
/// failure of the whole resolution.
proof fn lemma_failure_is_final(
    signature: Signature,
    keys: Seq<Pubkey>,
    top: Seq<CompiledInstruction>,
    groups: Seq<InnerInstructionGroup>,
    i: nat,
    m: nat,
    partial: Seq<InnerInstruction>,
)
    requires
        i + 1 <= m,
        prefix_of(partial, spec_interleaved(top, groups, i + 1)),
        spec_resolve_all(signature, keys, partial) is Err,
    ensures
        spec_resolve_all(signature, keys, spec_interleaved(top, groups, m)) == spec_resolve_all(
            signature,
            keys,
            partial,
        ),
{
    lemma_interleaved_prefix(top, groups, i + 1, m);
    lemma_prefix_transitive(
        partial,
        spec_interleaved(top, groups, i + 1),
        spec_interleaved(top, groups, m),
    );
    lemma_resolve_all_failure_stable(signature, keys, partial, spec_interleaved(top, groups, m));
}

/// Resolves the instructions of a message against its already parsed account
/// keys: each top-level instruction, followed by the inner instructions that
/// it invoked.
pub fn resolve_instructions(
    signature: &Signature,
    message: &RawMessage,
    meta: &TransactionStatusMeta,
    keys: &[Pubkey],
) -> (res: Result<Vec<ResolvedInstruction>, ProgramRecoverError>)
    ensures
        match spec_resolve_instructions(*signature, *message, *meta, keys@) {
            Ok(v) => res matches Ok(r) && instruction_views(r@) == v,
            Err(e) => res matches Err(a) && same_failure(a, e),
        },
{
    let no_groups: Vec<InnerInstructionGroup> = Vec::new();
    let groups: &Vec<InnerInstructionGroup> = match &meta.inner_instructions {
        Some(groups) => groups,
        None => &no_groups,
    };
    let ghost gs = spec_groups(*meta);
    assert(groups@ =~= gs);
    let ghost top = message.instructions@;
    let count = message.instructions.len();
    let ghost m: nat = if count > 256 {
        256
    } else {
        count as nat
    };
    let group_count = groups.len();
    let mut resolved: Vec<ResolvedInstruction> = Vec::new();
    assert(instruction_views(resolved@) =~= Seq::<ResolvedInstructionView>::empty());
    let mut i: usize = 0;
    while i < count
        invariant
            count == top.len(),
            top == message.instructions@,
            groups@ == gs,
            gs == spec_groups(*meta),
            group_count == gs.len(),
            m == (if count > 256 {
                256
            } else {
                count as nat
            }),
            i <= count,
            i <= 256,
            spec_resolve_all(*signature, keys@, spec_interleaved(top, gs, i as nat)) == Ok::<
                Seq<ResolvedInstructionView>,
                ProgramRecoverError,
            >(instruction_views(resolved@)),
        decreases count - i,
    {
        if i > 255 {
            return Err(
                ProgramRecoverError::InvalidInnerInstructionIndex { signature: *signature, index: 255 },
            );
        }
        let ghost base = spec_interleaved(top, gs, i as nat).push(
            InnerInstruction::Compiled(top[i as int]),
        );
        proof {
            assert(spec_interleaved(top, gs, (i + 1) as nat) == base + spec_inner_for(gs, i as int));
            assert(prefix_of(base, base + spec_inner_for(gs, i as int)));
        }
        assert(base.drop_last() =~= spec_interleaved(top, gs, i as nat));
        assert(base.last() == InnerInstruction::Compiled(top[i as int]));
        match resolve_compiled_instruction(signature, keys, &message.instructions[i]) {
            Ok(instruction) => {
                let ghost before = resolved@;
                resolved.push(instruction);
                assert(instruction_views(resolved@) =~= instruction_views(before).push(
                    instruction@,
                ));
            },
            Err(e) => {
                proof {
                    assert(base.drop_last() =~= spec_interleaved(top, gs, i as nat));
                    lemma_failure_is_final(*signature, keys@, top, gs, i as nat, m, base);
                }
                return Err(e);
            },
        }
        assert(gs.take(0) =~= Seq::<InnerInstructionGroup>::empty());
        assert(base + spec_inner_for(gs.take(0), i as int) =~= base);
        let mut g: usize = 0;
        while g < group_count
            invariant
                count == top.len(),
                top == message.instructions@,
                groups@ == gs,
                gs == spec_groups(*meta),
                group_count == gs.len(),
                m == (if count > 256 {
                    256
                } else {
                    count as nat
                }),
                i < count,
                i <= 255,
                base == spec_interleaved(top, gs, i as nat).push(
                    InnerInstruction::Compiled(top[i as int]),
                ),
                spec_interleaved(top, gs, (i + 1) as nat) == base + spec_inner_for(gs, i as int),
                g <= group_count,
                spec_resolve_all(*signature, keys@, base + spec_inner_for(gs.take(g as int), i as int))
                    == Ok::<Seq<ResolvedInstructionView>, ProgramRecoverError>(
                    instruction_views(resolved@),
                ),
            decreases group_count - g,
        {
            let group = &groups[g];
            proof {
                assert(gs.take(g + 1).drop_last() =~= gs.take(g as int));
                assert(gs.take(g + 1).last() == gs[g as int]);
                lemma_inner_for_prefix(gs, i as int, g + 1);
                lemma_prefix_after(base, spec_inner_for(gs.take(g + 1), i as int), spec_inner_for(gs, i as int));
            }
            if group.index as usize == i {
                let ghost prefix = base + spec_inner_for(gs.take(g as int), i as int);
                let n_inner = group.instructions.len();
                assert(prefix + group.instructions@.take(0) =~= prefix);
                assert(spec_inner_for(gs.take(g + 1), i as int) == spec_inner_for(
                    gs.take(g as int),
                    i as int,
                ) + group.instructions@);
                assert(base + spec_inner_for(gs.take(g + 1), i as int) =~= prefix
                    + group.instructions@);
                let mut j: usize = 0;
                while j < n_inner
                    invariant
                        count == top.len(),
                        top == message.instructions@,
                        groups@ == gs,
                        gs == spec_groups(*meta),
                        group_count == gs.len(),
                        m == (if count > 256 {
                            256
                        } else {
                            count as nat
                        }),
                        i < count,
                        i <= 255,
                        g < group_count,
                        *group == gs[g as int],
                        group.index == i,
                        n_inner == group.instructions@.len(),
                        j <= n_inner,
                        prefix == base + spec_inner_for(gs.take(g as int), i as int),
                        prefix_of(
                            prefix + group.instructions@,
                            spec_interleaved(top, gs, (i + 1) as nat),
                        ),
                        spec_resolve_all(*signature, keys@, prefix + group.instructions@.take(j as int))
                            == Ok::<Seq<ResolvedInstructionView>, ProgramRecoverError>(
                            instruction_views(resolved@),
                        ),
                    decreases n_inner - j,
                {
                    let ghost partial = prefix + group.instructions@.take(j + 1);
                    proof {
                        assert(partial.drop_last() =~= prefix + group.instructions@.take(j as int));
                        assert(partial.last() == group.instructions@[j as int]);
                    }
                    match resolve_ui_instruction(signature, keys, &group.instructions[j]) {
                        Ok(instruction) => {
                            let ghost before = resolved@;
                            resolved.push(instruction);
                            assert(instruction_views(resolved@) =~= instruction_views(before).push(
                                instruction@,
                            ));
                        },
                        Err(e) => {
                            proof {
                                assert(prefix_of(partial, prefix + group.instructions@));
                                lemma_prefix_transitive(
                                    partial,
                                    prefix + group.instructions@,
                                    spec_interleaved(top, gs, (i + 1) as nat),
                                );
                                lemma_failure_is_final(
                                    *signature,
                                    keys@,
                                    top,
                                    gs,
                                    i as nat,
                                    m,
                                    partial,
                                );
                            }
                            return Err(e);
                        },
                    }
                    j = j + 1;
                }
                assert(group.instructions@.take(n_inner as int) =~= group.instructions@);
                assert(base + spec_inner_for(gs.take(g + 1), i as int) =~= prefix
                    + group.instructions@);
            } else {
                assert(base + spec_inner_for(gs.take(g + 1), i as int) =~= base + spec_inner_for(
                    gs.take(g as int),
                    i as int,
                ));
            }
            g = g + 1;
        }
        assert(gs.take(group_count as int) =~= gs);
        i = i + 1;
    }
    let mut leftover: Option<u8> = None;
    let mut g: usize = 0;
    while g < group_count
        invariant
            groups@ == gs,
            gs == spec_groups(*meta),
            group_count == gs.len(),
            g <= group_count,
            leftover == spec_leftover_index(gs.take(g as int), count as int),
        decreases group_count - g,
    {
        assert(gs.take(g + 1).drop_last() =~= gs.take(g as int));
        let index = groups[g].index;
        if index as usize >= count {
            leftover = match leftover {
                Some(other) => if other < index {
                    Some(other)
                } else {
                    Some(index)
                },
                None => Some(index),
            };
        }
        g = g + 1;
    }
    assert(gs.take(group_count as int) =~= gs);
    match leftover {
        Some(index) => Err(
            ProgramRecoverError::InvalidInnerInstructionIndex { signature: *signature, index },
        ),
        None => Ok(resolved),
    }
}

/// What a confirmed transaction resolves to: its metadata must be present; a
/// failed transaction is skipped; it must be JSON with a raw message; then its
/// keys are parsed and its instructions resolved.
pub open spec fn spec_resolve_transaction(
    signature: Signature,
    transaction: ConfirmedTransaction,
) -> Result<Option<ResolvedTransactionView>, ProgramRecoverError> {
    match transaction.meta {
        None => Err(ProgramRecoverError::MissingTransactionMeta { signature }),
        Some(meta) => if meta.failed {
            Ok(None)
        } else {
            match transaction.transaction {
                EncodedTransaction::Json(TransactionMessage::Raw(message)) => match spec_parse_keys(
                    signature,
                    spec_key_texts(message, meta),
                ) {
                    Err(e) => Err(e),
                    Ok(keys) => match spec_resolve_instructions(signature, message, meta, keys) {
                        Err(e) => Err(e),
                        Ok(instructions) => Ok(
                            Some(ResolvedTransactionView { slot: transaction.slot, instructions }),
                        ),
                    },
                },
                EncodedTransaction::Json(TransactionMessage::Parsed) => Err(
                    ProgramRecoverError::UnsupportedMessageEncoding { signature },
                ),
                EncodedTransaction::Other => Err(
                    ProgramRecoverError::UnsupportedTransactionEncoding { signature },
                ),
            }
        },
    }
}

/// Whether a resolution outcome agrees with the expected one.
pub open spec fn resolution_agrees(
    actual: Result<Option<ResolvedTransaction>, ProgramRecoverError>,
    expected: Result<Option<ResolvedTransactionView>, ProgramRecoverError>,
) -> bool {
    match (actual, expected) {
        (Ok(None), Ok(None)) => true,
        (Ok(Some(a)), Ok(Some(b))) => a@ == b,
        (Err(a), Err(b)) => same_failure(a, b),
        _ => false,
    }
}

/// Resolves a confirmed transaction into its instructions; a failed
/// transaction gives `None`.
pub fn resolve_successful_transaction(
    signature: &Signature,
    transaction: &ConfirmedTransaction,
) -> (res: Result<Option<ResolvedTransaction>, ProgramRecoverError>)
    ensures
        resolution_agrees(res, spec_resolve_transaction(*signature, *transaction)),
{
    let meta = match &transaction.meta {
        Some(meta) => meta,
        None => return Err(ProgramRecoverError::MissingTransactionMeta { signature: *signature }),
    };
    if meta.failed {
        return Ok(None);
    }
    let message = match &transaction.transaction {
        EncodedTransaction::Json(TransactionMessage::Raw(message)) => message,
        EncodedTransaction::Json(TransactionMessage::Parsed) => {
            return Err(ProgramRecoverError::UnsupportedMessageEncoding { signature: *signature });
        },
        EncodedTransaction::Other => {
            return Err(ProgramRecoverError::UnsupportedTransactionEncoding { signature: *signature });
        },
    };
    let keys = combined_account_keys(signature, message, meta)?;
    let instructions = resolve_instructions(signature, message, meta, keys.as_slice())?;
    Ok(Some(ResolvedTransaction { slot: transaction.slot, instructions }))
}

} // verus!
