//! Who is allowed to have signed a receipt.

use crate::text::bytes_eq;
use vstd::prelude::*;

verus! {

/// A set of verifying keys.
#[derive(Debug)]
pub struct TrustStore {
    keys: Vec<[u8; 32]>,
}

impl View for TrustStore {
    type V = Set<Seq<u8>>;

    closed spec fn view(&self) -> Set<Seq<u8>> {
        Set::new(|key: Seq<u8>| exists|i: int| 0 <= i < self.keys@.len() && #[trigger] self.keys@[i]@ == key)
    }
}

impl Default for TrustStore {
    fn default() -> (r: Self)
        ensures
            r@ == Set::<Seq<u8>>::empty(),
    {
        TrustStore::new()
    }
}

impl TrustStore {
    /// A store without keys.
    pub fn new() -> (r: Self)
        ensures
            r@ == Set::<Seq<u8>>::empty(),
    {
        let r = TrustStore { keys: Vec::new() };
        assert(r@ =~= Set::empty());
        r
    }

    /// Adds a key; whether it is new.
    pub fn insert(&mut self, key: [u8; 32]) -> (r: bool)
        ensures
            final(self)@ == old(self)@.insert(key@),
            r == !old(self)@.contains(key@),
    {
        if self.contains(&key) {
            assert(self@ =~= self@.insert(key@));
            return false;
        }
        let ghost before = self.keys@;
        self.keys.push(key);
        proof {
            assert forall|k: Seq<u8>| #[trigger] self@.contains(k) <==> old(self)@.insert(
                key@,
            ).contains(k) by {
                if old(self)@.contains(k) {
                    let i = choose|i: int| 0 <= i < before.len() && #[trigger] before[i]@ == k;
                    assert(self.keys@[i]@ == k);
                }
                if k == key@ {
                    assert(self.keys@[before.len() as int]@ == k);
                }
                if self@.contains(k) {
                    let i = choose|i: int|
                        0 <= i < self.keys@.len() && #[trigger] self.keys@[i]@ == k;
                    if i < before.len() {
                        assert(before[i]@ == k);
                    }
                }
            }
            assert(self@ =~= old(self)@.insert(key@));
        }
        true
    }

    /// Whether a key is in the store.
    pub fn contains(&self, key: &[u8; 32]) -> (r: bool)
        ensures
            r == self@.contains(key@),
    {
        let mut i: usize = 0;
        while i < self.keys.len()
            invariant
                i <= self.keys@.len(),
                forall|k: int| 0 <= k < i ==> (#[trigger] self.keys@[k])@ != key@,
            decreases self.keys@.len() - i,
        {
            if bytes_eq(self.keys[i].as_slice(), key.as_slice()) {
                assert(self.keys@[i as int]@ == key@);
                return true;
            }
            i = i + 1;
        }
        false
    }
}

/// Who is allowed to have signed a receipt. A signature proves only that the holder of
/// some key signed the bytes, and anyone can make a key: a receipt is authentic only where
/// its key is one that the verifier already trusts.
#[derive(Debug)]
pub enum TrustPolicy {
    /// Check integrity and the signature, but trust no signer.
    SignatureOnly,
    /// Trust exactly this key.
    ExpectedKey([u8; 32]),
    /// Trust any key in the store.
    TrustStore(TrustStore),
}

impl TrustPolicy {
    /// Whether the policy trusts a key.
    pub open spec fn trusts(self, key: Seq<u8>) -> bool {
        match self {
            TrustPolicy::SignatureOnly => false,
            TrustPolicy::ExpectedKey(expected) => expected@ == key,
            TrustPolicy::TrustStore(store) => store@.contains(key),
        }
    }

    /// Whether the policy trusts a key.
    pub fn accepts(&self, key: &[u8; 32]) -> (r: bool)
        ensures
            r == self.trusts(key@),
    {
        match self {
            TrustPolicy::SignatureOnly => false,
            TrustPolicy::ExpectedKey(expected) => bytes_eq(expected.as_slice(), key.as_slice()),
            TrustPolicy::TrustStore(store) => store.contains(key),
        }
    }
}

} // verus!
