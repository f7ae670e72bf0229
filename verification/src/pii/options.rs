//! How the fingerprints of detected values can be linked.

use crate::bytes::{push_all, slice_of};
use crate::digest::{blake3_keyed, hex, keyed_hash, tagged_hex};
use crate::error::{ErrorView, ProofFrameError};
use crate::numbers::{blank, is_blank};
use crate::receipt::crypto::{base64_decode, base64_decoded, random_seed};
use crate::text::{text, utf8};
use vstd::prelude::*;
use vstd::string::*;

verus! {

/// Linkability policy for redacted fingerprints of values.
#[derive(Debug, Clone, Copy, PartialEq, Eq, Structural)]
pub enum PiiFingerprintMode {
    Stable,
    Unlinkable,
}

impl PiiFingerprintMode {
    /// The spelling of a mode in a report.
    pub open spec fn spelling(self) -> Seq<char> {
        match self {
            PiiFingerprintMode::Stable => "stable"@,
            PiiFingerprintMode::Unlinkable => "unlinkable"@,
        }
    }

    /// The spelling of a mode in a report.
    pub fn as_str(self) -> (r: &'static str)
        ensures
            r@ == self.spelling(),
    {
        match self {
            PiiFingerprintMode::Stable => "stable",
            PiiFingerprintMode::Unlinkable => "unlinkable",
        }
    }
}

/// Secret-bearing configuration of a scan. The key is never part of a report.
pub struct PiiFingerprintOptions {
    mode: PiiFingerprintMode,
    key: [u8; 32],
    key_id: String,
}

/// The identifier of a key that was made for one run.
pub open spec fn run_key_id(key: Seq<u8>) -> Seq<char> {
    "run:"@ + hex(blake3_keyed(key, utf8("proofframe:pii-key-id:v2\0"@)).take(8))
}

/// The fingerprint of a value under a key.
pub open spec fn fingerprint_of(key: Seq<u8>, value: Seq<char>) -> Seq<char> {
    "pf-pii-v2:"@ + hex(blake3_keyed(key, utf8("proofframe:privacy:v2\0"@) + utf8(value)))
}

/// The error for a stable key that has no identifier.
pub open spec fn nameless_key() -> ErrorView {
    ErrorView::InvalidContract("stable PII fingerprints require a non-empty key_id"@)
}

/// The error for a stable key that is not 32 bytes in Base64.
pub open spec fn wrong_key() -> ErrorView {
    ErrorView::InvalidContract("stable PII fingerprint_key must encode exactly 32 bytes"@)
}

impl PiiFingerprintOptions {
    /// The policy.
    pub closed spec fn mode(&self) -> PiiFingerprintMode {
        self.mode
    }

    /// The key.
    pub closed spec fn key(&self) -> Seq<u8> {
        self.key@
    }

    /// The identifier of the key.
    pub closed spec fn key_id(&self) -> Seq<char> {
        self.key_id@
    }

    /// The options of a run with a key that nobody else has.
    pub fn for_run(key: [u8; 32]) -> (r: Self)
        ensures
            r.mode() == PiiFingerprintMode::Unlinkable,
            r.key() == key@,
            r.key_id() == run_key_id(key@),
    {
        let identifier = keyed_hash(&key, "proofframe:pii-key-id:v2\0".as_bytes());
        let head = slice_of(identifier.as_slice(), 0, 8);
        assert(head@ =~= identifier@.take(8));
        PiiFingerprintOptions {
            mode: PiiFingerprintMode::Unlinkable,
            key,
            key_id: tagged_hex("run:", head.as_slice()),
        }
    }

    /// Makes a fresh key for a run, so that equal values cannot be linked across scans.
    pub fn unlinkable() -> (r: Result<Self, ProofFrameError>)
        ensures
            match r {
                Ok(o) => o.mode() == PiiFingerprintMode::Unlinkable && o.key().len() == 32
                    && o.key_id() == run_key_id(o.key()),
                Err(e) => e@ is InvalidContract,
            },
    {
        match random_seed() {
            Ok(key) => Ok(Self::for_run(key)),
            Err(m) => Err(ProofFrameError::InvalidContract(m)),
        }
    }

    /// Uses a key of the caller, for fingerprints that are stable across runs.
    pub fn stable(key: [u8; 32], key_id: String) -> (r: Result<Self, ProofFrameError>)
        ensures
            if blank(key_id@) {
                r matches Err(e) && e@ == nameless_key()
            } else {
                r matches Ok(o) && o.mode() == PiiFingerprintMode::Stable && o.key() == key@
                    && o.key_id() == key_id@
            },
    {
        if is_blank(key_id.as_str()) {
            return Err(
                ProofFrameError::InvalidContract(
                    text("stable PII fingerprints require a non-empty key_id"),
                ),
            );
        }
        Ok(PiiFingerprintOptions { mode: PiiFingerprintMode::Stable, key, key_id })
    }

    /// Uses a key of the caller in the URL-safe alphabet of Base64 without padding.
    pub fn stable_base64(key: &str, key_id: String) -> (r: Result<Self, ProofFrameError>)
        ensures
            match base64_decoded(key@) {
                Ok(b) => if b.len() != 32 {
                    r matches Err(e) && e@ == wrong_key()
                } else if blank(key_id@) {
                    r matches Err(e) && e@ == nameless_key()
                } else {
                    r matches Ok(o) && o.mode() == PiiFingerprintMode::Stable && o.key() == b
                        && o.key_id() == key_id@
                },
                Err(_) => r matches Err(e) && e@ == wrong_key(),
            },
    {
        match base64_decode(key) {
            Ok(bytes) => Self::stable_bytes(&bytes, key_id),
            Err(_) => Err(
                ProofFrameError::InvalidContract(
                    text("stable PII fingerprint_key must encode exactly 32 bytes"),
                ),
            ),
        }
    }

    /// Uses the decoded bytes of a key of the caller.
    pub fn stable_bytes(bytes: &Vec<u8>, key_id: String) -> (r: Result<Self, ProofFrameError>)
        ensures
            if bytes@.len() != 32 {
                r matches Err(e) && e@ == wrong_key()
            } else if blank(key_id@) {
                r matches Err(e) && e@ == nameless_key()
            } else {
                r matches Ok(o) && o.mode() == PiiFingerprintMode::Stable && o.key() == bytes@
                    && o.key_id() == key_id@
            },
    {
        if bytes.len() != 32 {
            return Err(
                ProofFrameError::InvalidContract(
                    text("stable PII fingerprint_key must encode exactly 32 bytes"),
                ),
            );
        }
        let mut key = [0u8;32];
        let mut i: usize = 0;
        while i < 32
            invariant
                i <= 32,
                bytes@.len() == 32,
                forall|k: int| 0 <= k < i ==> #[trigger] key@[k] == bytes@[k],
            decreases 32 - i,
        {
            key[i] = bytes[i];
            i = i + 1;
        }
        assert(key@ =~= bytes@);
        Self::stable(key, key_id)
    }

    /// The policy and the identifier of the key, which a report shows.
    pub fn provenance(&self) -> (r: (PiiFingerprintMode, String))
        ensures
            r.0 == self.mode(),
            r.1@ == self.key_id(),
    {
        (self.mode, text(self.key_id.as_str()))
    }

    /// The fingerprint of a value.
    pub fn privacy_fingerprint(&self, value: &str) -> (r: String)
        ensures
            r@ == fingerprint_of(self.key(), value@),
    {
        let mut input: Vec<u8> = Vec::new();
        push_all(&mut input, "proofframe:privacy:v2\0".as_bytes());
        push_all(&mut input, value.as_bytes());
        assert(input@ =~= utf8("proofframe:privacy:v2\0"@) + utf8(value@));
        let digest = keyed_hash(&self.key, input.as_slice());
        tagged_hex("pf-pii-v2:", digest.as_slice())
    }
}

} // verus!
