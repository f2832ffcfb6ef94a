use vstd::prelude::*;

use crate::error::ProgramRecoverError;
use crate::keys::{spec_upgradeable_loader_id, upgradeable_loader_id, Pubkey};
use crate::loader::{
    base58_encode, bincode_encoding, spec_base58_encode, spec_bincode_encoding,
    spec_decode_instruction, LoaderInstruction,
};

verus! {

/// The program to recover, and its ProgramData account when it is not the
/// one the loader derives.
#[derive(Clone, Copy, Debug, PartialEq, Eq)]
pub struct TargetParameters {
    pub program: Pubkey,
    pub programdata: Option<Pubkey>,
}

/// A program and its ProgramData account.
#[derive(Clone, Copy, Debug, PartialEq, Eq)]
pub struct RecoveryTarget {
    pub program: Pubkey,
    pub programdata: Pubkey,
}

/// What `Pubkey::try_find_program_address(seeds, program_id)` gives: the
/// bytes of the first off-curve address that a bump seed yields, and that
/// bump, or `None` where no bump seed yields one.
pub uninterp spec fn spec_try_find_program_address(seeds: Seq<Seq<u8>>, program_id: Seq<u8>) -> Option<
    ([u8; 32], u8),
>;

/// `solana_pubkey::Pubkey::try_find_program_address(&[seed], program_id)`,
/// the address taken as its bytes. The contract claims the named result; the
/// call returns `None` where no bump seed gives an off-curve address (and
/// where the seeds break the crate's limits, which a single 32-byte seed
/// does not).
#[verifier::external_body]
fn try_find_program_address(seed: &Pubkey, program_id: &Pubkey) -> (res: Option<(Pubkey, u8)>)
    ensures
        match res {
            Some((address, bump)) => spec_try_find_program_address(seq![seed@], program_id@)
                == Some((address.bytes, bump)),
            None => spec_try_find_program_address(seq![seed@], program_id@) is None,
        },
{
    let program_id = solana_pubkey::Pubkey::from(program_id.bytes);
    match solana_pubkey::Pubkey::try_find_program_address(&[&seed.bytes], &program_id) {
        Some((address, bump)) => Some((Pubkey { bytes: address.to_bytes() }, bump)),
        None => None,
    }
}

/// The ProgramData address that the upgradeable loader derives for `program`,
/// or `None` where none can be derived.
pub open spec fn spec_programdata_address(program: Pubkey) -> Option<Pubkey> {
    match spec_try_find_program_address(seq![program@], spec_upgradeable_loader_id()) {
        Some((bytes, _)) => Some(Pubkey { bytes }),
        None => None,
    }
}

/// The target that `parameters` name: the given ProgramData address, or the
/// one derived from the program; an error where none can be derived.
pub open spec fn spec_recovery_target(parameters: TargetParameters) -> Result<
    RecoveryTarget,
    ProgramRecoverError,
> {
    match parameters.programdata {
        Some(programdata) => Ok(RecoveryTarget { program: parameters.program, programdata }),
        None => match spec_programdata_address(parameters.program) {
            Some(programdata) => Ok(RecoveryTarget { program: parameters.program, programdata }),
            None => Err(ProgramRecoverError::ProgramDataAddressNotFound { program: parameters.program }),
        },
    }
}

impl vstd::std_specs::convert::TryFromSpecImpl<TargetParameters> for RecoveryTarget {
    open spec fn obeys_try_from_spec() -> bool {
        true
    }

    open spec fn try_from_spec(parameters: TargetParameters) -> Result<RecoveryTarget, ProgramRecoverError> {
        spec_recovery_target(parameters)
    }
}

impl TryFrom<TargetParameters> for RecoveryTarget {
    type Error = ProgramRecoverError;

    /// Takes the given ProgramData address, or derives it from the program.
    fn try_from(parameters: TargetParameters) -> (target: Result<RecoveryTarget, ProgramRecoverError>) {
        let programdata = match parameters.programdata {
            Some(programdata) => programdata,
            None => {
                let loader = upgradeable_loader_id();
                match try_find_program_address(&parameters.program, &loader) {
                    Some((address, _)) => address,
                    None => {
                        return Err(
                            ProgramRecoverError::ProgramDataAddressNotFound {
                                program: parameters.program,
                            },
                        );
                    },
                }
            },
        };
        Ok(RecoveryTarget { program: parameters.program, programdata })
    }
}

/// Encodes a loader instruction as instruction data: bincode, then base58.
pub fn encode_loader_instruction(instruction: &LoaderInstruction) -> (data: String)
    ensures
        data@ == spec_base58_encode(spec_bincode_encoding(instruction@)),
        spec_decode_instruction(data@) == Some(instruction@),
{
    let bytes = bincode_encoding(instruction);
    base58_encode(bytes.as_slice())
}

} // verus!
