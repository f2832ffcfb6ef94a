use solana_program_recover::error::ProgramRecoverError;
use solana_program_recover::keys::Signature;
use solana_program_recover::rpc::{parse_signature, SignaturePager, SignatureStatus, SIGNATURE_PAGE_LIMIT};

fn status(value: u8) -> SignatureStatus {
    SignatureStatus {
        signature: solana_signature::Signature::from([value; 64]).to_string(),
        failed: false,
    }
}

#[test]
fn parses_signature_text() {
    let text = solana_signature::Signature::from([3u8; 64]).to_string();
    assert_eq!(parse_signature(&text).unwrap(), Signature::from_array([3u8; 64]));
    match parse_signature("zzz") {
        Err(ProgramRecoverError::InvalidSignature { value, .. }) => assert_eq!(value, "zzz"),
        other => panic!("unexpected {:?}", other),
    }
}

#[test]
fn pager_collects_pages_and_reverses() {
    let mut pager = SignaturePager::new();
    let first: Vec<SignatureStatus> = (0..SIGNATURE_PAGE_LIMIT).map(|i| status((i % 200) as u8)).collect();
    pager.accept_page(first).unwrap();
    assert!(!pager.done);
    assert_eq!(pager.before, Some(Signature::from_array([((SIGNATURE_PAGE_LIMIT - 1) % 200) as u8; 64])));
    pager.accept_page(vec![status(250), status(251)]).unwrap();
    assert!(pager.done);
    assert_eq!(pager.before, Some(Signature::from_array([251u8; 64])));
    let all = pager.into_signatures();
    assert_eq!(all.len(), SIGNATURE_PAGE_LIMIT + 2);
    assert_eq!(all[0], status(251));
    assert_eq!(all[1], status(250));
    assert_eq!(all[all.len() - 1], status(0));
}

#[test]
fn pager_stops_on_empty_page() {
    let mut pager = SignaturePager::new();
    pager.accept_page(vec![]).unwrap();
    assert!(pager.done);
    assert!(pager.into_signatures().is_empty());
}
