use vstd::prelude::*;

use crate::cli::RecoveryTarget;
use crate::error::{same_failure, ProgramRecoverError};
use crate::keys::{spec_signature_from_str, Signature};
use crate::loader::{
    chunk_view, extract_write_chunk, is_selected_consuming_instruction, spec_is_selected_consuming,
    spec_write_chunk, close_events, collect_loader_events, law_collect_numbers_consecutively, sequence_of,
    spec_collect_events, version_events, CloseEvent, LoaderEvent, VersionEvent,
};
use crate::rpc::{parse_signature, SignatureStatus};
use crate::reconstruct::{reconstruct, spec_reconstruct, WriteChunk};
use crate::transaction::{
    instruction_views, ResolvedInstructionView, ResolvedTransactionView,
    resolve_successful_transaction, spec_resolve_transaction, ConfirmedTransaction,
};

verus! {

/// What the history of a program's ProgramData account shows: its deploys and
/// upgrades and the closes of the account, in the order the transactions
/// were seen, and how many transactions could not be used.
#[derive(Clone, Debug, PartialEq, Eq)]
pub struct ProgramHistory {
    pub target: RecoveryTarget,
    pub versions: Vec<VersionEvent>,
    pub closes: Vec<CloseEvent>,
    pub unavailable_transactions: usize,
    pub skipped_failed_transactions: usize,
}

/// Adds one to a counter, or reports that it is exhausted.
pub fn increment_counter(counter: &mut usize) -> (res: Result<(), ProgramRecoverError>)
    ensures
        *old(counter) < usize::MAX ==> res is Ok && *final(counter) == *old(counter) + 1,
        *old(counter) == usize::MAX ==> res == Err::<(), ProgramRecoverError>(
            ProgramRecoverError::CounterOverflow,
        ) && *final(counter) == *old(counter),
{
    *counter = match counter.checked_add(1) {
        Some(next) => next,
        None => return Err(ProgramRecoverError::CounterOverflow),
    };
    Ok(())
}

/// Whether `version` was seen before the first close of the ProgramData
/// account, if there is one.
pub open spec fn before_first_close(version: VersionEvent, closes: Seq<CloseEvent>) -> bool {
    closes.len() == 0 || version.sequence < closes[0].sequence
}

/// The last of `versions` seen before the first close.
pub open spec fn spec_latest_before_close(versions: Seq<VersionEvent>, closes: Seq<CloseEvent>) -> Option<
    VersionEvent,
>
    decreases versions.len(),
{
    if versions.len() == 0 {
        None
    } else if before_first_close(versions.last(), closes) {
        Some(versions.last())
    } else {
        spec_latest_before_close(versions.drop_last(), closes)
    }
}

/// Whether a version was created at `slot`.
pub open spec fn at_slot(slot: u64) -> spec_fn(VersionEvent) -> bool {
    |version: VersionEvent| version.slot == slot
}

/// Which version to recover: with a slot, the one version created there;
/// without one, the latest version created before the ProgramData account was
/// first closed.
pub open spec fn spec_select_version(
    target: RecoveryTarget,
    versions: Seq<VersionEvent>,
    closes: Seq<CloseEvent>,
    version_slot: Option<u64>,
) -> Result<VersionEvent, ProgramRecoverError> {
    match version_slot {
        Some(slot) => {
            let matching = versions.filter(at_slot(slot));
            if matching.len() == 0 {
                Err(ProgramRecoverError::VersionSlotNotFound { slot })
            } else if matching.len() == 1 {
                Ok(matching[0])
            } else {
                Err(
                    ProgramRecoverError::AmbiguousVersionSlot {
                        slot,
                        count: matching.len() as usize,
                    },
                )
            }
        },
        None => if versions.len() == 0 {
            Err(
                ProgramRecoverError::NoVersionEvents {
                    program: target.program,
                    programdata: target.programdata,
                },
            )
        } else {
            match spec_latest_before_close(versions, closes) {
                Some(version) => Ok(version),
                None => Err(ProgramRecoverError::NoVersionBeforeClose { program: target.program }),
            }
        },
    }
}

/// Chooses the version to recover from the program's history.
pub fn select_version(history: &ProgramHistory, version_slot: Option<u64>) -> (res: Result<
    VersionEvent,
    ProgramRecoverError,
>)
    ensures
        res == spec_select_version(
            history.target,
            history.versions@,
            history.closes@,
            version_slot,
        ),
{
    let versions = &history.versions;
    let count = versions.len();
    if let Some(slot) = version_slot {
        let mut matching: Vec<VersionEvent> = Vec::new();
        let mut i: usize = 0;
        while i < count
            invariant
                count == versions@.len(),
                i <= count,
                matching@ == versions@.take(i as int).filter(at_slot(slot)),
            decreases count - i,
        {
            proof {
                reveal_with_fuel(Seq::<VersionEvent>::filter, 1);
                assert(versions@.take(i + 1).drop_last() =~= versions@.take(i as int));
            }
            if versions[i].slot == slot {
                matching.push(versions[i]);
            }
            i = i + 1;
        }
        assert(versions@.take(count as int) =~= versions@);
        return if matching.len() == 0 {
            Err(ProgramRecoverError::VersionSlotNotFound { slot })
        } else if matching.len() == 1 {
            Ok(matching[0])
        } else {
            Err(ProgramRecoverError::AmbiguousVersionSlot { slot, count: matching.len() })
        };
    }
    if count == 0 {
        return Err(
            ProgramRecoverError::NoVersionEvents {
                program: history.target.program,
                programdata: history.target.programdata,
            },
        );
    }
    let close_sequence: Option<u64> = if history.closes.len() > 0 {
        Some(history.closes[0].sequence)
    } else {
        None
    };
    assert(versions@.take(count as int) =~= versions@);
    let mut i: usize = count;
    while i > 0
        invariant
            count == versions@.len(),
            versions@ == history.versions@,
            count > 0,
            version_slot is None,
            i <= count,
            history.closes@.len() > 0 ==> close_sequence == Some(history.closes@[0].sequence),
            history.closes@.len() == 0 ==> close_sequence is None,
            spec_latest_before_close(versions@, history.closes@) == spec_latest_before_close(
                versions@.take(i as int),
                history.closes@,
            ),
        decreases i,
    {
        i = i - 1;
        let version = versions[i];
        assert(versions@.take(i + 1).drop_last() =~= versions@.take(i as int));
        let selectable = match close_sequence {
            None => true,
            Some(sequence) => version.sequence < sequence,
        };
        assert(versions@.take(i + 1).last() == version);
        assert(selectable == before_first_close(version, history.closes@));
        if selectable {
            return Ok(version);
        }
    }
    assert(versions@.take(count as int) =~= versions@);
    Err(ProgramRecoverError::NoVersionBeforeClose { program: history.target.program })
}

/// The numbering of recorded events: every event has a number below `next`,
/// the deploys and upgrades are numbered in the order they were recorded, so
/// are the closes, and no close shares its number with a version.
pub open spec fn sequences_ordered(history: ProgramHistory, next: u64) -> bool {
    let versions = history.versions@;
    let closes = history.closes@;
    &&& forall|i: int| 0 <= i < versions.len() ==> #[trigger] versions[i].sequence < next
    &&& forall|i: int| 0 <= i < closes.len() ==> #[trigger] closes[i].sequence < next
    &&& forall|i: int, j: int|
        0 <= i < j < versions.len() ==> #[trigger] versions[i].sequence < #[trigger] versions[j].sequence
    &&& forall|i: int, j: int|
        0 <= i < j < closes.len() ==> #[trigger] closes[i].sequence < #[trigger] closes[j].sequence
    &&& forall|i: int, j: int|
        0 <= i < versions.len() && 0 <= j < closes.len() ==> #[trigger] versions[i].sequence
            != #[trigger] closes[j].sequence
}

/// The walk over the transactions of a ProgramData account, oldest first,
/// that builds the program's history. For each signature, `begin_signature`
/// says whether the transaction must be fetched; the fetched transaction, or
/// its absence, goes to `record_transaction`.
pub struct HistoryScan {
    pub history: ProgramHistory,
    pub next_sequence: u64,
}

/// `history` with the count of skipped failed transactions set to `count`.
pub open spec fn with_skipped(history: ProgramHistory, count: usize) -> ProgramHistory {
    ProgramHistory { skipped_failed_transactions: count, ..history }
}

/// `history` with the count of unavailable transactions set to `count`.
pub open spec fn with_unavailable(history: ProgramHistory, count: usize) -> ProgramHistory {
    ProgramHistory { unavailable_transactions: count, ..history }
}

/// The effect of adding one to a counter of `before`, as `res` and `after`
/// report it.
pub open spec fn counted(before: usize, after: usize, res: Result<(), ProgramRecoverError>) -> bool {
    if before < usize::MAX {
        res is Ok && after == before + 1
    } else {
        res == Err::<(), ProgramRecoverError>(ProgramRecoverError::CounterOverflow) && after
            == before
    }
}

impl HistoryScan {
    /// Starts the walk over the history of `target`'s ProgramData account,
    /// which must have at least one transaction.
    pub fn start(target: RecoveryTarget, signatures: &Vec<SignatureStatus>) -> (res: Result<
        HistoryScan,
        ProgramRecoverError,
    >)
        ensures
            signatures@.len() == 0 ==> res == Err::<HistoryScan, ProgramRecoverError>(
                ProgramRecoverError::NoSignatures { address: target.programdata },
            ),
            signatures@.len() > 0 ==> (res matches Ok(scan) && {
                &&& scan.history.target == target
                &&& scan.history.versions@.len() == 0
                &&& scan.history.closes@.len() == 0
                &&& scan.history.unavailable_transactions == 0
                &&& scan.history.skipped_failed_transactions == 0
                &&& scan.next_sequence == 0
                &&& sequences_ordered(scan.history, scan.next_sequence)
            }),
    {
        if signatures.len() == 0 {
            return Err(ProgramRecoverError::NoSignatures { address: target.programdata });
        }
        Ok(
            HistoryScan {
                history: ProgramHistory {
                    target,
                    versions: Vec::new(),
                    closes: Vec::new(),
                    unavailable_transactions: 0,
                    skipped_failed_transactions: 0,
                },
                next_sequence: 0,
            },
        )
    }

    /// Parses the signature of the next history entry. A failed transaction
    /// is counted as skipped and needs no fetch (`None`); otherwise the
    /// transaction with the returned signature must be fetched.
    pub fn begin_signature(&mut self, status: &SignatureStatus) -> (res: Result<
        Option<Signature>,
        ProgramRecoverError,
    >)
        ensures
            final(self).next_sequence == old(self).next_sequence,
            sequences_ordered(old(self).history, old(self).next_sequence) ==> sequences_ordered(
                final(self).history,
                final(self).next_sequence,
            ),
            match spec_signature_from_str(status.signature@) {
                None => res matches Err(ProgramRecoverError::InvalidSignature { value, .. })
                    && value@ == status.signature@ && final(self).history == old(self).history,
                Some(bytes) => if status.failed {
                    &&& final(self).history == with_skipped(
                        old(self).history,
                        final(self).history.skipped_failed_transactions,
                    )
                    &&& counted(
                        old(self).history.skipped_failed_transactions,
                        final(self).history.skipped_failed_transactions,
                        match res {
                            Ok(_) => Ok(()),
                            Err(e) => Err(e),
                        },
                    )
                    &&& res is Ok ==> res == Ok::<Option<Signature>, ProgramRecoverError>(None)
                } else {
                    res == Ok::<Option<Signature>, ProgramRecoverError>(Some(Signature { bytes }))
                        && final(self).history == old(self).history
                },
            },
    {
        let signature = parse_signature(status.signature.as_str())?;
        if status.failed {
            increment_counter(&mut self.history.skipped_failed_transactions)?;
            return Ok(None);
        }
        Ok(Some(signature))
    }

    /// Records what the transaction with `signature` shows: without the
    /// transaction it is counted as unavailable, a failed one as skipped, and
    /// the loader events of a successful one are appended to the history.
    pub fn record_transaction(
        &mut self,
        signature: &Signature,
        transaction: Option<&ConfirmedTransaction>,
    ) -> (res: Result<(), ProgramRecoverError>)
        requires
            sequences_ordered(old(self).history, old(self).next_sequence),
        ensures
            sequences_ordered(final(self).history, final(self).next_sequence),
            match transaction {
                None => final(self).history == with_unavailable(
                    old(self).history,
                    final(self).history.unavailable_transactions,
                ) && final(self).next_sequence == old(self).next_sequence && counted(
                    old(self).history.unavailable_transactions,
                    final(self).history.unavailable_transactions,
                    res,
                ),
                Some(fetched) => match spec_resolve_transaction(*signature, *fetched) {
                    Err(e) => res matches Err(a) && same_failure(a, e) && final(self).history == old(self).history && final(self).next_sequence == old(self).next_sequence,
                    Ok(None) => final(self).history == with_skipped(
                        old(self).history,
                        final(self).history.skipped_failed_transactions,
                    ) && final(self).next_sequence == old(self).next_sequence && counted(
                        old(self).history.skipped_failed_transactions,
                        final(self).history.skipped_failed_transactions,
                        res,
                    ),
                    Ok(Some(resolved)) => match spec_collect_events(
                        old(self).history.target.program,
                        old(self).history.target.programdata,
                        *signature,
                        resolved.slot,
                        resolved.instructions,
                        resolved.instructions.len(),
                        old(self).next_sequence,
                    ) {
                        Ok((events, next)) => {
                            &&& res is Ok
                            &&& final(self).next_sequence == next
                            &&& final(self).history.versions@ == old(self).history.versions@
                                + version_events(events)
                            &&& final(self).history.closes@ == old(self).history.closes@
                                + close_events(events)
                            &&& final(self).history.target == old(self).history.target
                            &&& final(self).history.unavailable_transactions == old(self).history.unavailable_transactions
                            &&& final(self).history.skipped_failed_transactions == old(self).history.skipped_failed_transactions
                        },
                        Err((e, next)) => res matches Err(a) && same_failure(a, e) && final(self).history == old(self).history && final(self).next_sequence == next,
                    },
                },
            },
    {
        let fetched = match transaction {
            Some(fetched) => fetched,
            None => {
                return increment_counter(&mut self.history.unavailable_transactions);
            },
        };
        let resolved = match resolve_successful_transaction(signature, fetched)? {
            Some(resolved) => resolved,
            None => {
                return increment_counter(&mut self.history.skipped_failed_transactions);
            },
        };
        let ghost start = self.next_sequence;
        let ghost previous = self.history;
        let events = collect_loader_events(
            &self.history.target.program,
            &self.history.target.programdata,
            signature,
            &resolved,
            &mut self.next_sequence,
        );
        let events = match events {
            Ok(events) => events,
            Err(e) => {
                proof {
                    law_collect_numbers_consecutively(
                        previous.target.program,
                        previous.target.programdata,
                        *signature,
                        resolved@.slot,
                        resolved@.instructions,
                        resolved@.instructions.len(),
                        start,
                    );
                }
                return Err(e);
            },
        };
        proof {
            law_collect_numbers_consecutively(
                previous.target.program,
                previous.target.programdata,
                *signature,
                resolved@.slot,
                resolved@.instructions,
                resolved@.instructions.len(),
                start,
            );
        }
        let count = events.len();
        assert(events@.take(0) =~= Seq::<LoaderEvent>::empty());
        assert(previous.versions@ + version_events(events@.take(0)) =~= previous.versions@);
        assert(previous.closes@ + close_events(events@.take(0)) =~= previous.closes@);
        let mut k: usize = 0;
        while k < count
            invariant
                count == events@.len(),
                k <= count,
                start + count == self.next_sequence,
                forall|n: int| 0 <= n < count ==> sequence_of(#[trigger] events@[n]) == start + n,
                self.history.versions@ == previous.versions@ + version_events(events@.take(k as int)),
                self.history.closes@ == previous.closes@ + close_events(events@.take(k as int)),
                self.history.target == previous.target,
                self.history.unavailable_transactions == previous.unavailable_transactions,
                self.history.skipped_failed_transactions == previous.skipped_failed_transactions,
                sequences_ordered(self.history, (start + k) as u64),
            decreases count - k,
        {
            assert(events@.take(k + 1).drop_last() =~= events@.take(k as int));
            assert(events@.take(k + 1).last() == events@[k as int]);
            assert(sequence_of(events@[k as int]) == start + k);
            match events[k] {
                LoaderEvent::Version(event) => {
                    self.history.versions.push(event);
                },
                LoaderEvent::Close(event) => {
                    self.history.closes.push(event);
                },
            }
            k = k + 1;
        }
        assert(events@.take(count as int) =~= events@);
        Ok(())
    }
}

/// A chunk as its offset and bytes.
pub open spec fn chunk_views(chunks: Seq<WriteChunk>) -> Seq<(usize, Seq<u8>)> {
    chunks.map_values(|chunk: WriteChunk| (chunk.offset, chunk.bytes@))
}

/// The buffer writes found in the first `n` instructions of a transaction,
/// and whether the deploy or upgrade of the selected version was reached; the
/// scan stops at that instruction. On failure, the error comes with the writes
/// gathered up to the failing instruction.
pub open spec fn spec_scan_buffer(
    target: RecoveryTarget,
    selected: VersionEvent,
    signature: Signature,
    instructions: Seq<ResolvedInstructionView>,
    n: nat,
) -> Result<(Seq<(usize, Seq<u8>)>, bool), (ProgramRecoverError, Seq<(usize, Seq<u8>)>)>
    decreases n,
{
    if n == 0 {
        Ok((Seq::empty(), false))
    } else {
        match spec_scan_buffer(target, selected, signature, instructions, (n - 1) as nat) {
            Err(failure) => Err(failure),
            Ok((found, true)) => Ok((found, true)),
            Ok((found, false)) => match spec_write_chunk(selected.buffer, instructions[n - 1]) {
                Err(e) => Err((e, found)),
                Ok(chunk) => {
                    let found = match chunk {
                        Some(c) => found.push(c),
                        None => found,
                    };
                    if signature@ == selected.signature@ {
                        match spec_is_selected_consuming(
                            target.program,
                            target.programdata,
                            selected,
                            instructions[n - 1],
                        ) {
                            Err(e) => Err((e, found)),
                            Ok(reached) => Ok((found, reached)),
                        }
                    } else {
                        Ok((found, false))
                    }
                },
            },
        }
    }
}

proof fn lemma_scan_failure_stable(
    target: RecoveryTarget,
    selected: VersionEvent,
    signature: Signature,
    instructions: Seq<ResolvedInstructionView>,
    k: nat,
    m: nat,
)
    requires
        k <= m,
        spec_scan_buffer(target, selected, signature, instructions, k) is Err,
    ensures
        spec_scan_buffer(target, selected, signature, instructions, m) == spec_scan_buffer(
            target,
            selected,
            signature,
            instructions,
            k,
        ),
    decreases m - k,
{
    if k < m {
        lemma_scan_failure_stable(target, selected, signature, instructions, k, (m - 1) as nat);
    }
}

proof fn lemma_scan_reached_stable(
    target: RecoveryTarget,
    selected: VersionEvent,
    signature: Signature,
    instructions: Seq<ResolvedInstructionView>,
    k: nat,
    m: nat,
)
    requires
        k <= m,
        spec_scan_buffer(target, selected, signature, instructions, k) matches Ok((_, true)),
    ensures
        spec_scan_buffer(target, selected, signature, instructions, m) == spec_scan_buffer(
            target,
            selected,
            signature,
            instructions,
            k,
        ),
    decreases m - k,
{
    if k < m {
        lemma_scan_reached_stable(target, selected, signature, instructions, k, (m - 1) as nat);
    }
}

/// The walk over a buffer's history ends only in the transaction of the
/// selected version: a transaction with any other signature, whatever its
/// instructions, never reaches the selected version.
pub proof fn law_only_the_selected_transaction_ends_the_walk(
    target: RecoveryTarget,
    selected: VersionEvent,
    signature: Signature,
    instructions: Seq<ResolvedInstructionView>,
    n: nat,
)
    requires
        spec_scan_buffer(target, selected, signature, instructions, n) matches Ok((_, true)),
    ensures
        signature@ == selected.signature@,
    decreases n,
{
    if n > 0 {
        if spec_scan_buffer(target, selected, signature, instructions, (n - 1) as nat) matches Ok((_, true)) {
            law_only_the_selected_transaction_ends_the_walk(target, selected, signature, instructions, (n - 1) as nat);
        }
    }
}

/// The writes into a buffer account and how many of its transactions could
/// not be used.
pub struct BufferRecovery {
    pub image: Vec<u8>,
    pub chunk_count: usize,
    pub unavailable_transactions: usize,
    pub skipped_failed_transactions: usize,
}

/// The walk over the transactions of the selected version's buffer account,
/// oldest first, that gathers its writes until the deploy or upgrade of the
/// selected version consumes it.
pub struct BufferScan {
    pub chunks: Vec<WriteChunk>,
    pub unavailable_transactions: usize,
    pub skipped_failed_transactions: usize,
    pub selected_version_reached: bool,
}

impl BufferScan {
    /// Starts the walk over the history of the selected version's buffer,
    /// which must have at least one transaction.
    pub fn start(selected: &VersionEvent, signatures: &Vec<SignatureStatus>) -> (res: Result<
        BufferScan,
        ProgramRecoverError,
    >)
        ensures
            signatures@.len() == 0 ==> res == Err::<BufferScan, ProgramRecoverError>(
                ProgramRecoverError::NoSignatures { address: selected.buffer },
            ),
            signatures@.len() > 0 ==> (res matches Ok(scan) && {
                &&& scan.chunks@.len() == 0
                &&& scan.unavailable_transactions == 0
                &&& scan.skipped_failed_transactions == 0
                &&& !scan.selected_version_reached
            }),
    {
        if signatures.len() == 0 {
            return Err(ProgramRecoverError::NoSignatures { address: selected.buffer });
        }
        Ok(
            BufferScan {
                chunks: Vec::new(),
                unavailable_transactions: 0,
                skipped_failed_transactions: 0,
                selected_version_reached: false,
            },
        )
    }

    /// Parses the signature of the next history entry. A failed transaction
    /// is counted as skipped and needs no fetch (`None`); otherwise the
    /// transaction with the returned signature must be fetched.
    pub fn begin_signature(&mut self, status: &SignatureStatus) -> (res: Result<
        Option<Signature>,
        ProgramRecoverError,
    >)
        ensures
            final(self).chunks@ == old(self).chunks@,
            final(self).unavailable_transactions == old(self).unavailable_transactions,
            final(self).selected_version_reached == old(self).selected_version_reached,
            match spec_signature_from_str(status.signature@) {
                None => res matches Err(ProgramRecoverError::InvalidSignature { value, .. })
                    && value@ == status.signature@ && final(self).skipped_failed_transactions == old(
                    self).skipped_failed_transactions,
                Some(bytes) => if status.failed {
                    &&& counted(
                        old(self).skipped_failed_transactions,
                        final(self).skipped_failed_transactions,
                        match res {
                            Ok(_) => Ok(()),
                            Err(e) => Err(e),
                        },
                    )
                    &&& res is Ok ==> res == Ok::<Option<Signature>, ProgramRecoverError>(None)
                } else {
                    res == Ok::<Option<Signature>, ProgramRecoverError>(Some(Signature { bytes }))
                        && final(self).skipped_failed_transactions == old(self).skipped_failed_transactions
                },
            },
    {
        let signature = parse_signature(status.signature.as_str())?;
        if status.failed {
            increment_counter(&mut self.skipped_failed_transactions)?;
            return Ok(None);
        }
        Ok(Some(signature))
    }

    /// Records what the transaction with `signature` shows. Without the
    /// transaction it is counted as unavailable, unless it is the selected
    /// version's own, which is an error; a failed one is counted as skipped;
    /// a successful one adds its writes of the buffer, up to the instruction
    /// that consumes the buffer for the selected version.
    pub fn record_transaction(
        &mut self,
        target: &RecoveryTarget,
        selected: &VersionEvent,
        signature: &Signature,
        transaction: Option<&ConfirmedTransaction>,
    ) -> (res: Result<(), ProgramRecoverError>)
        requires
            !old(self).selected_version_reached,
        ensures
            match transaction {
                None => {
                    &&& final(self).chunks@ == old(self).chunks@
                    &&& final(self).skipped_failed_transactions == old(self).skipped_failed_transactions
                    &&& !final(self).selected_version_reached
                    &&& if signature@ == selected.signature@ {
                        &&& res == Err::<(), ProgramRecoverError>(
                            ProgramRecoverError::TransactionUnavailable { signature: *signature },
                        )
                        &&& final(self).unavailable_transactions == old(self).unavailable_transactions
                    } else {
                        counted(
                            old(self).unavailable_transactions,
                            final(self).unavailable_transactions,
                            res,
                        )
                    }
                },
                Some(fetched) => match spec_resolve_transaction(*signature, *fetched) {
                    Err(e) => {
                        &&& res matches Err(a) && same_failure(a, e)
                        &&& final(self).chunks@ == old(self).chunks@
                        &&& final(self).unavailable_transactions == old(self).unavailable_transactions
                        &&& final(self).skipped_failed_transactions == old(self).skipped_failed_transactions
                        &&& !final(self).selected_version_reached
                    },
                    Ok(None) => {
                        &&& counted(
                            old(self).skipped_failed_transactions,
                            final(self).skipped_failed_transactions,
                            res,
                        )
                        &&& final(self).chunks@ == old(self).chunks@
                        &&& final(self).unavailable_transactions == old(self).unavailable_transactions
                        &&& !final(self).selected_version_reached
                    },
                    Ok(Some(resolved)) => {
                        &&& final(self).unavailable_transactions == old(self).unavailable_transactions
                        &&& final(self).skipped_failed_transactions == old(self).skipped_failed_transactions
                        &&& match spec_scan_buffer(
                            *target,
                            *selected,
                            *signature,
                            resolved.instructions,
                            resolved.instructions.len(),
                        ) {
                            Ok((found, reached)) => {
                                &&& res is Ok
                                &&& chunk_views(final(self).chunks@) == chunk_views(old(self).chunks@)
                                    + found
                                &&& final(self).selected_version_reached == reached
                            },
                            Err((e, found)) => {
                                &&& res matches Err(a) && same_failure(a, e)
                                &&& chunk_views(final(self).chunks@) == chunk_views(old(self).chunks@)
                                    + found
                                &&& !final(self).selected_version_reached
                            },
                        }
                    },
                },
            },
    {
        let fetched = match transaction {
            Some(fetched) => fetched,
            None => {
                if signature.same_as(&selected.signature) {
                    return Err(ProgramRecoverError::TransactionUnavailable { signature: *signature });
                }
                return increment_counter(&mut self.unavailable_transactions);
            },
        };
        let resolved = match resolve_successful_transaction(signature, fetched)? {
            Some(resolved) => resolved,
            None => {
                return increment_counter(&mut self.skipped_failed_transactions);
            },
        };
        let ghost instructions = instruction_views(resolved.instructions@);
        let ghost before = chunk_views(self.chunks@);
        let count = resolved.instructions.len();
        let is_selected_transaction = signature.same_as(&selected.signature);
        assert(chunk_views(self.chunks@) =~= before + Seq::<(usize, Seq<u8>)>::empty());
        let mut i: usize = 0;
        while i < count
            invariant
                count == instructions.len(),
                instructions == instruction_views(resolved.instructions@),
                transaction == Some(fetched),
                before == chunk_views(old(self).chunks@),
                spec_resolve_transaction(*signature, *fetched) == Ok::<
                    Option<ResolvedTransactionView>,
                    ProgramRecoverError,
                >(Some(resolved@)),
                is_selected_transaction == (signature@ == selected.signature@),
                i <= count,
                !self.selected_version_reached,
                self.unavailable_transactions == old(self).unavailable_transactions,
                self.skipped_failed_transactions == old(self).skipped_failed_transactions,
                spec_scan_buffer(*target, *selected, *signature, instructions, i as nat) matches Ok(
                    (found, false),
                ) && chunk_views(self.chunks@) == before + found,
            decreases count - i,
        {
            let instruction = &resolved.instructions[i];
            let ghost found = spec_scan_buffer(*target, *selected, *signature, instructions, i as nat)->Ok_0.0;
            match extract_write_chunk(&selected.buffer, instruction) {
                Ok(Some(chunk)) => {
                    let ghost previous = self.chunks@;
                    self.chunks.push(chunk);
                    assert(chunk_views(self.chunks@) =~= chunk_views(previous).push((chunk.offset, chunk.bytes@)));
                },
                Ok(None) => {},
                Err(e) => {
                    proof {
                        assert(spec_scan_buffer(*target, *selected, *signature, instructions, (i + 1) as nat) == Err::<(Seq<(usize, Seq<u8>)>, bool), (ProgramRecoverError, Seq<(usize, Seq<u8>)>)>((spec_write_chunk(selected.buffer, instructions[i as int])->Err_0, found)));
                        lemma_scan_failure_stable(*target, *selected, *signature, instructions, (i + 1) as nat, count as nat);
                    }
                    return Err(e);
                },
            }
            let ghost found_next = match spec_write_chunk(selected.buffer, instructions[i as int]) {
                Ok(Some(c)) => found.push(c),
                _ => found,
            };
            assert(chunk_views(self.chunks@) =~= before + found_next);
            if is_selected_transaction {
                match is_selected_consuming_instruction(
                    &target.program,
                    &target.programdata,
                    selected,
                    instruction,
                ) {
                    Ok(true) => {
                        self.selected_version_reached = true;
                        proof {
                            assert(spec_scan_buffer(*target, *selected, *signature, instructions, (i + 1) as nat) == Ok::<(Seq<(usize, Seq<u8>)>, bool), (ProgramRecoverError, Seq<(usize, Seq<u8>)>)>((found_next, true)));
                            lemma_scan_reached_stable(*target, *selected, *signature, instructions, (i + 1) as nat, count as nat);
                        }
                        return Ok(());
                    },
                    Ok(false) => {},
                    Err(e) => {
                        proof {
                            assert(spec_scan_buffer(*target, *selected, *signature, instructions, (i + 1) as nat) == Err::<(Seq<(usize, Seq<u8>)>, bool), (ProgramRecoverError, Seq<(usize, Seq<u8>)>)>((spec_is_selected_consuming(target.program, target.programdata, *selected, instructions[i as int])->Err_0, found_next)));
                            lemma_scan_failure_stable(*target, *selected, *signature, instructions, (i + 1) as nat, count as nat);
                        }
                        return Err(e);
                    },
                }
            }
            i = i + 1;
        }
        Ok(())
    }

    /// Rebuilds the image from the gathered writes, once the selected
    /// version's deploy or upgrade has been reached.
    pub fn finish(self, selected: &VersionEvent) -> (res: Result<BufferRecovery, ProgramRecoverError>)
        ensures
            !self.selected_version_reached ==> res == Err::<BufferRecovery, ProgramRecoverError>(
                ProgramRecoverError::SelectedVersionNotReached { signature: selected.signature },
            ),
            self.selected_version_reached && self.chunks@.len() == 0 ==> res == Err::<
                BufferRecovery,
                ProgramRecoverError,
            >(ProgramRecoverError::NoWriteInstructions { buffer: selected.buffer }),
            self.selected_version_reached && self.chunks@.len() > 0 ==> match spec_reconstruct(
                self.chunks@,
            ) {
                Ok(image) => res matches Ok(recovery) && {
                    &&& recovery.image@ == image
                    &&& recovery.chunk_count == self.chunks@.len()
                    &&& recovery.unavailable_transactions == self.unavailable_transactions
                    &&& recovery.skipped_failed_transactions == self.skipped_failed_transactions
                },
                Err(e) => res == Err::<BufferRecovery, ProgramRecoverError>(e),
            },
    {
        if !self.selected_version_reached {
            return Err(ProgramRecoverError::SelectedVersionNotReached { signature: selected.signature });
        }
        if self.chunks.len() == 0 {
            return Err(ProgramRecoverError::NoWriteInstructions { buffer: selected.buffer });
        }
        let chunk_count = self.chunks.len();
        let image = reconstruct(self.chunks.as_slice())?;
        Ok(
            BufferRecovery {
                image,
                chunk_count,
                unavailable_transactions: self.unavailable_transactions,
                skipped_failed_transactions: self.skipped_failed_transactions,
            },
        )
    }
}

/// What a dump produced: the version recovered, where its image went, and
/// what could not be used along the way.
pub struct DumpSummary {
    pub selected_version: VersionEvent,
    pub output: String,
    pub bytes_written: usize,
    pub chunk_count: usize,
    pub unavailable_programdata_transactions: usize,
    pub unavailable_buffer_transactions: usize,
    pub skipped_failed_transactions: usize,
}

/// Summarizes a dump once the recovered image has been written to `output`;
/// the skipped transactions of both histories are added up.
pub fn dump_summary(
    selected_version: VersionEvent,
    output: String,
    history: &ProgramHistory,
    recovery: &BufferRecovery,
) -> (res: Result<DumpSummary, ProgramRecoverError>)
    ensures
        history.skipped_failed_transactions + recovery.skipped_failed_transactions > usize::MAX
            ==> res == Err::<DumpSummary, ProgramRecoverError>(ProgramRecoverError::CounterOverflow),
        history.skipped_failed_transactions + recovery.skipped_failed_transactions <= usize::MAX
            ==> res == Ok::<DumpSummary, ProgramRecoverError>(
            DumpSummary {
                selected_version,
                output,
                bytes_written: recovery.image@.len() as usize,
                chunk_count: recovery.chunk_count,
                unavailable_programdata_transactions: history.unavailable_transactions,
                unavailable_buffer_transactions: recovery.unavailable_transactions,
                skipped_failed_transactions: (history.skipped_failed_transactions
                    + recovery.skipped_failed_transactions) as usize,
            },
        ),
{
    let skipped_failed_transactions = match history.skipped_failed_transactions.checked_add(
        recovery.skipped_failed_transactions,
    ) {
        Some(total) => total,
        None => return Err(ProgramRecoverError::CounterOverflow),
    };
    Ok(
        DumpSummary {
            selected_version,
            output,
            bytes_written: recovery.image.len(),
            chunk_count: recovery.chunk_count,
            unavailable_programdata_transactions: history.unavailable_transactions,
            unavailable_buffer_transactions: recovery.unavailable_transactions,
            skipped_failed_transactions,
        },
    )
}

proof fn lemma_filter_from_source(s: Seq<VersionEvent>, pred: spec_fn(VersionEvent) -> bool, i: int)
    requires
        0 <= i < s.filter(pred).len(),
    ensures
        s.contains(s.filter(pred)[i]),
    decreases s.len(),
{
    reveal(Seq::filter);
    if s.len() > 0 {
        let rest = s.drop_last().filter(pred);
        if i < rest.len() {
            assert(s.filter(pred)[i] == rest[i]);
            lemma_filter_from_source(s.drop_last(), pred, i);
            let k = choose|k: int| 0 <= k < s.drop_last().len() && s.drop_last()[k] == rest[i];
            assert(s[k] == rest[i]);
        } else {
            assert(s[s.len() - 1] == s.filter(pred)[i]);
        }
    }
}

/// With a slot given, the selected version is one of the recorded versions
/// and was created at that slot, and it is the only one created there.
pub proof fn law_explicit_slot_selects_that_slot(
    target: RecoveryTarget,
    versions: Seq<VersionEvent>,
    closes: Seq<CloseEvent>,
    slot: u64,
)
    requires
        spec_select_version(target, versions, closes, Some(slot)) is Ok,
    ensures
        ({
            let selected = spec_select_version(target, versions, closes, Some(slot))->Ok_0;
            &&& selected.slot == slot
            &&& versions.contains(selected)
            &&& versions.filter(at_slot(slot)) == seq![selected]
        }),
{
    let matching = versions.filter(at_slot(slot));
    versions.lemma_filter_pred(at_slot(slot), 0);
    lemma_filter_from_source(versions, at_slot(slot), 0);
    assert(matching =~= seq![matching[0]]);
}

proof fn lemma_latest_before_close(versions: Seq<VersionEvent>, closes: Seq<CloseEvent>)
    ensures
        spec_latest_before_close(versions, closes) matches Some(v) ==> exists|k: int|
            #![trigger versions[k]]
            0 <= k < versions.len() && versions[k] == v && before_first_close(v, closes) && forall|
                j: int,
            |
                k < j < versions.len() ==> !before_first_close(#[trigger] versions[j], closes),
        spec_latest_before_close(versions, closes) is None ==> forall|j: int|
            0 <= j < versions.len() ==> !before_first_close(#[trigger] versions[j], closes),
    decreases versions.len(),
{
    if versions.len() > 0 {
        let rest = versions.drop_last();
        lemma_latest_before_close(rest, closes);
        if !before_first_close(versions.last(), closes) {
            if let Some(v) = spec_latest_before_close(rest, closes) {
                let k = choose|k: int|
                    #![trigger rest[k]]
                    0 <= k < rest.len() && rest[k] == v && before_first_close(v, closes) && forall|
                        j: int,
                    |
                        k < j < rest.len() ==> !before_first_close(#[trigger] rest[j], closes);
                assert(versions[k] == v);
                assert forall|j: int| k < j < versions.len() implies !before_first_close(
                    #[trigger] versions[j],
                    closes,
                ) by {
                    if j < versions.len() - 1 {
                        assert(versions[j] == rest[j]);
                    }
                }
            } else {
                assert forall|j: int| 0 <= j < versions.len() implies !before_first_close(
                    #[trigger] versions[j],
                    closes,
                ) by {
                    if j < versions.len() - 1 {
                        assert(versions[j] == rest[j]);
                    }
                }
            }
        } else {
            assert(versions[versions.len() - 1] == versions.last());
        }
    }
}

/// Without a slot, the selected version is a recorded version created before
/// the ProgramData account was first closed, and every version recorded after
/// it was created after that close. When nothing is selected because of the
/// close, every version was created after it. Selection fails exactly when no
/// recorded version was created before the first close.
pub proof fn law_default_selects_latest_before_close(
    target: RecoveryTarget,
    versions: Seq<VersionEvent>,
    closes: Seq<CloseEvent>,
)
    ensures
        spec_select_version(target, versions, closes, None) matches Ok(selected) ==> exists|k: int|
            #![trigger versions[k]]
            0 <= k < versions.len() && versions[k] == selected && before_first_close(
                selected,
                closes,
            ) && forall|j: int|
                k < j < versions.len() ==> !before_first_close(#[trigger] versions[j], closes),
        spec_select_version(target, versions, closes, None) matches Err(
            ProgramRecoverError::NoVersionBeforeClose { .. },
        ) ==> forall|j: int|
            0 <= j < versions.len() ==> !before_first_close(#[trigger] versions[j], closes),
        spec_select_version(target, versions, closes, None) is Err <==> forall|j: int|
            0 <= j < versions.len() ==> !before_first_close(#[trigger] versions[j], closes),
{
    lemma_latest_before_close(versions, closes);
}

} // verus!
