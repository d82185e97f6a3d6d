use vstd::prelude::*;

verus! {

/// Where two byte strings of one length first differ.
pub open spec fn first_difference(a: Seq<u8>, b: Seq<u8>, i: int) -> bool {
    &&& 0 <= i < a.len()
    &&& i < b.len()
    &&& a[i] != b[i]
    &&& forall|j: int| 0 <= j < i ==> a[j] == b[j]
}

/// Lexicographic order on byte strings of one length: at the first place
/// where they differ, `a` holds the smaller byte.
pub open spec fn bytes_lt(a: Seq<u8>, b: Seq<u8>) -> bool {
    exists|i: int| #[trigger] first_difference(a, b, i) && a[i] < b[i]
}

/// How one value stands to another in a strict total order.
#[derive(Clone, Copy, Debug, PartialEq, Eq, Structural)]
pub enum Rank {
    Before,
    Same,
    After,
}

/// A transaction output handle: the transaction's id and the output's index.
#[derive(Clone, Copy, Debug, PartialEq, Eq, PartialOrd, Ord, Hash)]
pub struct OutPoint {
    pub txid: [u8; 32],
    pub vout: u32,
}

/// The position of one satoshi inside an output.
#[derive(Clone, Copy, Debug, PartialEq, Eq, PartialOrd, Ord, Hash)]
pub struct SatPoint {
    pub outpoint: OutPoint,
    pub offset: u64,
}

/// An inscription is known by the id of the transaction that reveals it.
#[derive(Clone, Copy, Debug, PartialEq, Eq, PartialOrd, Ord, Hash)]
pub struct InscriptionId {
    pub txid: [u8; 32],
}

/// Order of outpoints: by transaction id, byte by byte, then by index.
pub open spec fn outpoint_lt(a: OutPoint, b: OutPoint) -> bool {
    bytes_lt(a.txid@, b.txid@) || (a.txid@ == b.txid@ && a.vout < b.vout)
}

/// Order of satpoints: by outpoint, then by offset.
pub open spec fn satpoint_lt(a: SatPoint, b: SatPoint) -> bool {
    outpoint_lt(a.outpoint, b.outpoint) || (a.outpoint == b.outpoint && a.offset < b.offset)
}

/// Compares two 32-byte strings in lexicographic order.
pub fn rank_bytes(a: &[u8; 32], b: &[u8; 32]) -> (r: Rank)
    ensures
        r == Rank::Before <==> bytes_lt(a@, b@),
        r == Rank::Same <==> a@ == b@,
        r == Rank::After <==> bytes_lt(b@, a@),
{
    let mut i: usize = 0;
    while i < 32
        invariant
            i <= 32,
            forall|j: int| 0 <= j < i ==> a@[j] == b@[j],
        decreases 32 - i,
    {
        if a[i] < b[i] {
            assert(first_difference(a@, b@, i as int));
            proof {
                lemma_bytes_lt_asymmetric(a@, b@);
            }
            return Rank::Before;
        }
        if a[i] > b[i] {
            assert(first_difference(b@, a@, i as int));
            proof {
                lemma_bytes_lt_asymmetric(b@, a@);
            }
            return Rank::After;
        }
        i += 1;
    }
    assert(a@ =~= b@);
    proof {
        lemma_bytes_lt_irreflexive(a@);
    }
    Rank::Same
}

/// No byte string comes before itself.
pub proof fn lemma_bytes_lt_irreflexive(a: Seq<u8>)
    ensures
        !bytes_lt(a, a),
{
}

/// Of two byte strings at most one comes before the other, and then they differ.
pub proof fn lemma_bytes_lt_asymmetric(a: Seq<u8>, b: Seq<u8>)
    requires
        bytes_lt(a, b),
    ensures
        !bytes_lt(b, a),
        a != b,
{
    let i = choose|i: int| #[trigger] first_difference(a, b, i) && a[i] < b[i];
    if bytes_lt(b, a) {
        let j = choose|j: int| #[trigger] first_difference(b, a, j) && b[j] < a[j];
        if i < j {
            assert(b[i] == a[i]);
        } else if j < i {
            assert(a[j] == b[j]);
        }
    }
}

/// The order on byte strings is transitive.
pub proof fn lemma_bytes_lt_transitive(a: Seq<u8>, b: Seq<u8>, c: Seq<u8>)
    requires
        bytes_lt(a, b),
        bytes_lt(b, c),
    ensures
        bytes_lt(a, c),
{
    let i = choose|i: int| #[trigger] first_difference(a, b, i) && a[i] < b[i];
    let j = choose|j: int| #[trigger] first_difference(b, c, j) && b[j] < c[j];
    let k = if i <= j { i } else { j };
    assert(first_difference(a, c, k));
}

impl OutPoint {
    /// The outpoint that stands for "no previous output": an all-zero id
    /// and the largest index.
    pub fn null() -> (r: OutPoint)
        ensures
            r.txid@ == Seq::new(32, |i: int| 0u8),
            r.vout == u32::MAX,
    {
        let r = OutPoint { txid: [0u8; 32], vout: u32::MAX };
        assert(r.txid@ =~= Seq::new(32, |i: int| 0u8));
        r
    }

    /// Compares two outpoints.
    pub fn rank(&self, other: &OutPoint) -> (r: Rank)
        ensures
            r == Rank::Before <==> outpoint_lt(*self, *other),
            r == Rank::Same <==> *self == *other,
            r == Rank::After <==> outpoint_lt(*other, *self),
    {
        match rank_bytes(&self.txid, &other.txid) {
            Rank::Before => {
                proof {
                    lemma_bytes_lt_asymmetric(self.txid@, other.txid@);
                }
                Rank::Before
            },
            Rank::After => {
                proof {
                    lemma_bytes_lt_asymmetric(other.txid@, self.txid@);
                }
                Rank::After
            },
            Rank::Same => {
                proof {
                    lemma_bytes_lt_irreflexive(self.txid@);
                }
                assert(self.txid =~= other.txid);
                if self.vout < other.vout {
                    Rank::Before
                } else if self.vout > other.vout {
                    Rank::After
                } else {
                    Rank::Same
                }
            },
        }
    }

    /// Whether two outpoints are the same.
    pub fn same(&self, other: &OutPoint) -> (r: bool)
        ensures
            r == (*self == *other),
    {
        self.rank(other) == Rank::Same
    }
}

/// The order on outpoints is transitive.
pub proof fn lemma_outpoint_lt_transitive(a: OutPoint, b: OutPoint, c: OutPoint)
    requires
        outpoint_lt(a, b),
        outpoint_lt(b, c),
    ensures
        outpoint_lt(a, c),
{
    if bytes_lt(a.txid@, b.txid@) && bytes_lt(b.txid@, c.txid@) {
        lemma_bytes_lt_transitive(a.txid@, b.txid@, c.txid@);
    }
}

/// No outpoint comes before itself, and of two at most one comes first.
pub proof fn lemma_outpoint_lt_asymmetric(a: OutPoint, b: OutPoint)
    requires
        outpoint_lt(a, b),
    ensures
        !outpoint_lt(b, a),
        a != b,
{
    if bytes_lt(a.txid@, b.txid@) {
        lemma_bytes_lt_asymmetric(a.txid@, b.txid@);
    }
    if bytes_lt(b.txid@, a.txid@) {
        lemma_bytes_lt_asymmetric(b.txid@, a.txid@);
    }
}

impl SatPoint {
    /// Compares two satpoints.
    pub fn rank(&self, other: &SatPoint) -> (r: Rank)
        ensures
            r == Rank::Before <==> satpoint_lt(*self, *other),
            r == Rank::Same <==> *self == *other,
            r == Rank::After <==> satpoint_lt(*other, *self),
    {
        match self.outpoint.rank(&other.outpoint) {
            Rank::Before => {
                proof {
                    lemma_outpoint_lt_asymmetric(self.outpoint, other.outpoint);
                }
                Rank::Before
            },
            Rank::After => {
                proof {
                    lemma_outpoint_lt_asymmetric(other.outpoint, self.outpoint);
                }
                Rank::After
            },
            Rank::Same => {
                proof {
                    if outpoint_lt(self.outpoint, self.outpoint) {
                        lemma_outpoint_lt_asymmetric(self.outpoint, self.outpoint);
                    }
                }
                if self.offset < other.offset {
                    Rank::Before
                } else if self.offset > other.offset {
                    Rank::After
                } else {
                    Rank::Same
                }
            },
        }
    }
}

/// The order on satpoints is transitive.
pub proof fn lemma_satpoint_lt_transitive(a: SatPoint, b: SatPoint, c: SatPoint)
    requires
        satpoint_lt(a, b),
        satpoint_lt(b, c),
    ensures
        satpoint_lt(a, c),
{
    if outpoint_lt(a.outpoint, b.outpoint) && outpoint_lt(b.outpoint, c.outpoint) {
        lemma_outpoint_lt_transitive(a.outpoint, b.outpoint, c.outpoint);
    }
}

/// No satpoint comes before itself, and of two at most one comes first.
pub proof fn lemma_satpoint_lt_asymmetric(a: SatPoint, b: SatPoint)
    requires
        satpoint_lt(a, b),
    ensures
        !satpoint_lt(b, a),
        a != b,
{
    if outpoint_lt(a.outpoint, b.outpoint) {
        lemma_outpoint_lt_asymmetric(a.outpoint, b.outpoint);
    }
    if outpoint_lt(b.outpoint, a.outpoint) {
        lemma_outpoint_lt_asymmetric(b.outpoint, a.outpoint);
    }
}

} // verus!
