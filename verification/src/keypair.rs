//! The key pair type and the chaining rule.

use vstd::prelude::*;

verus! {

/// Length in bytes of a serialized BLS public key.
pub const BLS_PUBLIC_KEY_LEN: usize = 48;

/// Length in bytes of a serialized BLS secret key, which doubles as the
/// length of the key material a pair is derived from.
pub const BLS_SECRET_KEY_LEN: usize = 32;

/// One generated key pair: the raw bytes of the public and the secret key.
pub struct BLSKeyPair {
    pub public: Vec<u8>,
    pub secret: Vec<u8>,
}

impl BLSKeyPair {
    /// Both byte vectors have the lengths the signature scheme fixes.
    pub open spec fn wf(&self) -> bool {
        self.public@.len() == BLS_PUBLIC_KEY_LEN && self.secret@.len() == BLS_SECRET_KEY_LEN
    }

    /// Wraps the raw `(public, secret)` bytes the signature primitive hands
    /// back.
    pub fn from(data: (Vec<u8>, Vec<u8>)) -> (r: Self)
        ensures
            r.public@ == data.0@,
            r.secret@ == data.1@,
    {
        Self { public: data.0, secret: data.1 }
    }

    /// The chaining rule: the key material that seeds the next pair of a
    /// chain is exactly this pair's secret.
    pub fn next_material(&self) -> (m: Vec<u8>)
        ensures
            m@ == self.secret@,
    {
        let mut m: Vec<u8> = Vec::new();
        let mut i: usize = 0;
        while i < self.secret.len()
            invariant
                i <= self.secret@.len(),
                m@ == self.secret@.subrange(0, i as int),
            decreases self.secret@.len() - i,
        {
            m.push(self.secret[i]);
            i = i + 1;
        }
        assert(m@ =~= self.secret@);
        m
    }
}

/// A chain of key pairs, as sequences of bytes `(public, secret)`, derived by
/// a deterministic primitive `step`: the first pair comes from the caller's
/// seed material, and every later pair from its predecessor's secret.
pub open spec fn is_chain(
    step: spec_fn(Seq<u8>) -> (Seq<u8>, Seq<u8>),
    seed: Seq<u8>,
    chain: Seq<(Seq<u8>, Seq<u8>)>,
) -> bool {
    &&& chain.len() >= 1
    &&& chain[0] == step(seed)
    &&& forall|i: int| 1 <= i < chain.len() ==> #[trigger] chain[i] == step(chain[i - 1].1)
}

/// A deterministic primitive derives the same pair from the same material,
/// however often it is invoked.
pub proof fn lemma_derive_deterministic(
    step: spec_fn(Seq<u8>) -> (Seq<u8>, Seq<u8>),
    material: Seq<u8>,
    first: (Seq<u8>, Seq<u8>),
    second: (Seq<u8>, Seq<u8>),
)
    requires
        first == step(material),
        second == step(material),
    ensures
        first == second,
{
}

/// Chain determinism: two chains of the same length, grown by the same
/// deterministic primitive from the same seed material, hold the same pairs
/// in the same order.
pub proof fn lemma_chain_deterministic(
    step: spec_fn(Seq<u8>) -> (Seq<u8>, Seq<u8>),
    seed: Seq<u8>,
    c1: Seq<(Seq<u8>, Seq<u8>)>,
    c2: Seq<(Seq<u8>, Seq<u8>)>,
)
    requires
        is_chain(step, seed, c1),
        is_chain(step, seed, c2),
        c1.len() == c2.len(),
    ensures
        c1 == c2,
    decreases c1.len(),
{
    if c1.len() == 1 {
        assert(c1[0] == c2[0]);
        assert(c1 =~= c2);
    } else {
        let n = c1.len() as int;
        let d1 = c1.drop_last();
        let d2 = c2.drop_last();
        assert forall|i: int| 1 <= i < d1.len() implies #[trigger] d1[i] == step(d1[i - 1].1) by {
            assert(c1[i] == step(c1[i - 1].1));
        }
        assert forall|i: int| 1 <= i < d2.len() implies #[trigger] d2[i] == step(d2[i - 1].1) by {
            assert(c2[i] == step(c2[i - 1].1));
        }
        assert(is_chain(step, seed, d1));
        assert(is_chain(step, seed, d2));
        lemma_chain_deterministic(step, seed, d1, d2);
        assert(c1[n - 2] == d1[n - 2] && c2[n - 2] == d2[n - 2]);
        assert(c1[n - 1] == step(c1[n - 2].1));
        assert(c2[n - 1] == step(c2[n - 2].1));
        assert forall|i: int| 0 <= i < n implies c1[i] == c2[i] by {
            if i < n - 1 {
                assert(c1[i] == d1[i] && c2[i] == d2[i]);
            }
        }
        assert(c1 =~= c2);
    }
}

} // verus!
