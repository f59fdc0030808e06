//! Public keys, which identify wallets, and the order in which they are stored.

use vstd::prelude::*;

verus! {

/// Number of bytes in a public key.
pub const PUBLIC_KEY_LENGTH: usize = 32;

/// Whether `a` and `b` agree on their first `i` bytes and `a` holds the
/// smaller byte at position `i`.
pub open spec fn precedes_at(a: Seq<u8>, b: Seq<u8>, i: int) -> bool {
    &&& 0 <= i < a.len()
    &&& i < b.len()
    &&& a[i] < b[i]
    &&& forall|j: int| 0 <= j < i ==> a[j] == b[j]
}

/// Lexicographic order on byte strings that differ at some common position.
/// On keys, which all have the same length, this is a strict total order.
pub open spec fn precedes(a: Seq<u8>, b: Seq<u8>) -> bool {
    exists|i: int| #[trigger] precedes_at(a, b, i)
}

/// No byte string precedes itself.
pub proof fn lemma_precedes_irreflexive(a: Seq<u8>)
    ensures
        !precedes(a, a),
{
}

/// If `a` precedes `b` and `b` precedes `c`, then `a` precedes `c`.
pub proof fn lemma_precedes_transitive(a: Seq<u8>, b: Seq<u8>, c: Seq<u8>)
    requires
        precedes(a, b),
        precedes(b, c),
    ensures
        precedes(a, c),
{
    let i = choose|i: int| #[trigger] precedes_at(a, b, i);
    let j = choose|j: int| #[trigger] precedes_at(b, c, j);
    if i <= j {
        assert(precedes_at(a, c, i));
    } else {
        assert(precedes_at(a, c, j));
    }
}

/// Two byte strings never precede each other.
pub proof fn lemma_precedes_asymmetric(a: Seq<u8>, b: Seq<u8>)
    requires
        precedes(a, b),
    ensures
        !precedes(b, a),
{
    if precedes(b, a) {
        lemma_precedes_transitive(a, b, a);
        lemma_precedes_irreflexive(a);
    }
}

/// Of two different byte strings of one length, one precedes the other.
pub proof fn lemma_precedes_total(a: Seq<u8>, b: Seq<u8>)
    requires
        a.len() == b.len(),
        a != b,
    ensures
        precedes(a, b) || precedes(b, a),
{
    lemma_first_difference(a, b, 0);
}

/// Two byte strings of one length that agree before position `from` and are
/// not equal are ordered by the first position at which they differ.
proof fn lemma_first_difference(a: Seq<u8>, b: Seq<u8>, from: int)
    requires
        a.len() == b.len(),
        a != b,
        0 <= from <= a.len(),
        forall|j: int| 0 <= j < from ==> a[j] == b[j],
    ensures
        precedes(a, b) || precedes(b, a),
    decreases a.len() - from,
{
    if from == a.len() {
        assert(a =~= b);
    } else if a[from] < b[from] {
        assert(precedes_at(a, b, from));
    } else if b[from] < a[from] {
        assert(precedes_at(b, a, from));
    } else {
        lemma_first_difference(a, b, from + 1);
    }
}

/// How one key stands to another in the order of the store.
#[derive(Clone, Copy, Debug, PartialEq, Eq, Structural)]
pub enum KeyOrder {
    /// The first key precedes the second.
    Less,
    /// Both keys hold the same bytes.
    Equal,
    /// The second key precedes the first.
    Greater,
}

/// A public key: the identifier of a wallet. Viewed as its 32 bytes.
#[derive(Clone, Copy, Debug, Eq, Hash)]
pub struct PublicKey {
    bytes: [u8; 32],
}

impl View for PublicKey {
    type V = Seq<u8>;

    closed spec fn view(&self) -> Seq<u8> {
        self.bytes@
    }
}

impl PublicKey {
    /// Every key is 32 bytes long.
    pub proof fn lemma_len(&self)
        ensures
            self@.len() == PUBLIC_KEY_LENGTH,
    {
    }

    /// Makes a key of the given bytes.
    pub fn new(bytes: [u8; 32]) -> (key: PublicKey)
        ensures
            key@ == bytes@,
    {
        PublicKey { bytes }
    }

    /// Makes a key of a slice of bytes, which must hold exactly 32.
    pub fn from_slice(bytes: &[u8]) -> (key: Option<PublicKey>)
        ensures
            key is Some <==> bytes@.len() == PUBLIC_KEY_LENGTH,
            key matches Some(k) ==> k@ == bytes@,
    {
        if bytes.len() != 32 {
            return None;
        }
        let mut buffer: [u8; 32] = [0u8; 32];
        let mut i: usize = 0;
        while i < 32
            invariant
                i <= 32,
                bytes@.len() == 32,
                forall|j: int| 0 <= j < i ==> buffer@[j] == bytes@[j],
            decreases 32 - i,
        {
            buffer[i] = bytes[i];
            i += 1;
        }
        let key = PublicKey { bytes: buffer };
        assert(key@ =~= bytes@);
        Some(key)
    }

    /// The bytes of the key.
    pub fn as_bytes(&self) -> (bytes: &[u8; 32])
        ensures
            bytes@ == self@,
    {
        &self.bytes
    }

    /// Compares two keys byte by byte, from the first byte on.
    pub fn compare(&self, other: &PublicKey) -> (order: KeyOrder)
        ensures
            order == KeyOrder::Less <==> precedes(self@, other@),
            order == KeyOrder::Equal <==> self@ == other@,
            order == KeyOrder::Greater <==> precedes(other@, self@),
    {
        let mut i: usize = 0;
        while i < 32
            invariant
                i <= 32,
                forall|j: int| 0 <= j < i ==> self.bytes@[j] == other.bytes@[j],
            decreases 32 - i,
        {
            let a: u8 = self.bytes[i];
            let b: u8 = other.bytes[i];
            if a < b {
                proof {
                    assert(precedes_at(self@, other@, i as int));
                    lemma_precedes_asymmetric(self@, other@);
                    lemma_precedes_irreflexive(self@);
                }
                return KeyOrder::Less;
            }
            if b < a {
                proof {
                    assert(precedes_at(other@, self@, i as int));
                    lemma_precedes_asymmetric(other@, self@);
                    lemma_precedes_irreflexive(self@);
                }
                return KeyOrder::Greater;
            }
            i += 1;
        }
        proof {
            assert(self@ =~= other@);
            lemma_precedes_irreflexive(self@);
        }
        KeyOrder::Equal
    }
}

impl PartialEq for PublicKey {
    fn eq(&self, other: &PublicKey) -> (equal: bool) {
        match self.compare(other) {
            KeyOrder::Equal => true,
            KeyOrder::Less => false,
            KeyOrder::Greater => false,
        }
    }
}

impl vstd::std_specs::cmp::PartialEqSpecImpl for PublicKey {
    open spec fn obeys_eq_spec() -> bool {
        true
    }

    open spec fn eq_spec(&self, other: &PublicKey) -> bool {
        self@ == other@
    }
}

} // verus!
