use vstd::prelude::*;

verus! {

/// An account address: the 32 bytes of an ed25519 public key or of a
/// program-derived address.
#[derive(Clone, Copy, Debug, PartialEq, Eq, Hash)]
pub struct Pubkey {
    pub bytes: [u8; 32],
}

/// A transaction signature: 64 bytes.
#[derive(Clone, Copy, Debug, PartialEq, Eq, Hash)]
pub struct Signature {
    pub bytes: [u8; 64],
}

impl View for Pubkey {
    type V = Seq<u8>;

    open spec fn view(&self) -> Seq<u8> {
        self.bytes@
    }
}

impl View for Signature {
    type V = Seq<u8>;

    open spec fn view(&self) -> Seq<u8> {
        self.bytes@
    }
}

impl Pubkey {
    pub fn new_from_array(bytes: [u8; 32]) -> (k: Pubkey)
        ensures
            k.bytes == bytes,
    {
        Pubkey { bytes }
    }

    /// Byte-wise equality of two addresses.
    pub fn same_as(&self, other: &Pubkey) -> (same: bool)
        ensures
            same == (self@ == other@),
    {
        let mut i: usize = 0;
        while i < 32
            invariant
                i <= 32,
                self@.len() == 32,
                other@.len() == 32,
                forall|j: int| 0 <= j < i ==> self@[j] == other@[j],
            decreases 32 - i,
        {
            if self.bytes[i] != other.bytes[i] {
                assert(self@[i as int] != other@[i as int]);
                return false;
            }
            i = i + 1;
        }
        assert(self@ =~= other@);
        true
    }
}

impl Signature {
    pub fn from_array(bytes: [u8; 64]) -> (s: Signature)
        ensures
            s.bytes == bytes,
    {
        Signature { bytes }
    }

    /// Byte-wise equality of two signatures.
    pub fn same_as(&self, other: &Signature) -> (same: bool)
        ensures
            same == (self@ == other@),
    {
        let mut i: usize = 0;
        while i < 64
            invariant
                i <= 64,
                self@.len() == 64,
                other@.len() == 64,
                forall|j: int| 0 <= j < i ==> self@[j] == other@[j],
            decreases 64 - i,
        {
            if self.bytes[i] != other.bytes[i] {
                assert(self@[i as int] != other@[i as int]);
                return false;
            }
            i = i + 1;
        }
        assert(self@ =~= other@);
        true
    }
}

/// The bytes of the upgradeable BPF loader's program id,
/// `BPFLoaderUpgradeab1e11111111111111111111111`.
pub open spec fn spec_upgradeable_loader_id() -> Seq<u8> {
    seq![
        2u8, 168, 246, 145, 78, 136, 161, 176, 226, 16, 21, 62, 247, 99, 174, 43, 0, 194, 185, 61,
        22, 193, 36, 210, 192, 83, 122, 16, 4, 128, 0, 0,
    ]
}

/// `solana_sdk_ids::bpf_loader_upgradeable::id()`: the program id of the
/// upgradeable BPF loader, whose value the crate declares as the base58 text
/// `BPFLoaderUpgradeab1e11111111111111111111111`; the contract states its bytes.
#[verifier::external_body]
pub(crate) fn upgradeable_loader_id() -> (id: Pubkey)
    ensures
        id@ == spec_upgradeable_loader_id(),
{
    Pubkey { bytes: solana_sdk_ids::bpf_loader_upgradeable::id().to_bytes() }
}

/// What `solana_pubkey::Pubkey::from_str` makes of a text: the 32 bytes it
/// names in base58, or `None` where it names none.
pub uninterp spec fn spec_pubkey_from_str(text: Seq<char>) -> Option<[u8; 32]>;

/// What `solana_signature::Signature::from_str` makes of a text: the 64
/// bytes it names in base58, or `None` where it names none.
pub uninterp spec fn spec_signature_from_str(text: Seq<char>) -> Option<[u8; 64]>;

/// `solana_pubkey::Pubkey::from_str(text)`, the address taken as its bytes.
/// The contract claims only the named outcome.
#[verifier::external_body]
pub(crate) fn pubkey_from_str(text: &str) -> (res: Result<Pubkey, solana_pubkey::ParsePubkeyError>)
    ensures
        res is Ok <==> spec_pubkey_from_str(text@) is Some,
        res matches Ok(key) ==> spec_pubkey_from_str(text@) == Some(key.bytes),
{
    match <solana_pubkey::Pubkey as core::str::FromStr>::from_str(text) {
        Ok(key) => Ok(Pubkey { bytes: key.to_bytes() }),
        Err(e) => Err(e),
    }
}

/// `solana_signature::Signature::from_str(text)`, the signature taken as its
/// bytes. The contract claims only the named outcome.
#[verifier::external_body]
pub(crate) fn signature_from_str(text: &str) -> (res: Result<
    Signature,
    solana_signature::ParseSignatureError,
>)
    ensures
        res is Ok <==> spec_signature_from_str(text@) is Some,
        res matches Ok(signature) ==> spec_signature_from_str(text@) == Some(signature.bytes),
{
    match <solana_signature::Signature as core::str::FromStr>::from_str(text) {
        Ok(signature) => Ok(Signature { bytes: *signature.as_array() }),
        Err(e) => Err(e),
    }
}

} // verus!
