use solana_program_recover::cli::{RecoveryTarget, TargetParameters};
use solana_program_recover::keys::Pubkey;

#[test]
fn explicit_programdata_is_kept() {
    let target = RecoveryTarget::try_from(TargetParameters {
        program: Pubkey::new_from_array([1; 32]),
        programdata: Some(Pubkey::new_from_array([2; 32])),
    })
    .unwrap();
    assert_eq!(target.program, Pubkey::new_from_array([1; 32]));
    assert_eq!(target.programdata, Pubkey::new_from_array([2; 32]));
}

#[test]
fn programdata_is_derived_by_the_loader() {
    let program = solana_pubkey::Pubkey::from([1; 32]);
    let (expected, _) = solana_pubkey::Pubkey::find_program_address(
        &[program.as_ref()],
        &solana_pubkey::Pubkey::from(solana_sdk_ids::bpf_loader_upgradeable::id().to_bytes()),
    );
    let target = RecoveryTarget::try_from(TargetParameters {
        program: Pubkey::new_from_array([1; 32]),
        programdata: None,
    })
    .unwrap();
    assert_eq!(target.programdata.bytes, expected.to_bytes());
    assert_ne!(target.programdata, target.program);
}
