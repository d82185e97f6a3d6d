use vstd::prelude::*;
use crate::outpoint::{
    lemma_outpoint_lt_asymmetric, lemma_outpoint_lt_transitive, outpoint_lt, OutPoint, Rank,
};

verus! {

/// An unspent output and what it is worth, in satoshis.
#[derive(Clone, Copy, Debug, PartialEq, Eq)]
pub struct Utxo {
    pub outpoint: OutPoint,
    pub value: u64,
}

/// Whether the outpoints of `entries` ascend strictly.
pub open spec fn ascending(entries: Seq<Utxo>) -> bool {
    forall|i: int, j: int|
        0 <= i < j < entries.len() ==> outpoint_lt(
            (#[trigger] entries[i]).outpoint,
            (#[trigger] entries[j]).outpoint,
        )
}

/// Whether `entries` holds the outpoint.
pub open spec fn holds(entries: Seq<Utxo>, outpoint: OutPoint) -> bool {
    exists|i: int| 0 <= i < entries.len() && (#[trigger] entries[i]).outpoint == outpoint
}

/// A place at which `entries` holds the outpoint.
pub open spec fn place_of(entries: Seq<Utxo>, outpoint: OutPoint) -> int {
    choose|i: int| 0 <= i < entries.len() && (#[trigger] entries[i]).outpoint == outpoint
}

/// What the outpoint is worth according to `entries`.
pub open spec fn amount_of(entries: Seq<Utxo>, outpoint: OutPoint) -> Option<u64> {
    if holds(entries, outpoint) {
        Some(entries[place_of(entries, outpoint)].value)
    } else {
        None
    }
}

/// In an ascending sequence an outpoint stands at one place only.
pub proof fn lemma_one_place(entries: Seq<Utxo>, i: int)
    requires
        ascending(entries),
        0 <= i < entries.len(),
    ensures
        holds(entries, entries[i].outpoint),
        place_of(entries, entries[i].outpoint) == i,
        amount_of(entries, entries[i].outpoint) == Some(entries[i].value),
{
    let j = place_of(entries, entries[i].outpoint);
    if i < j {
        lemma_outpoint_lt_asymmetric(entries[i].outpoint, entries[j].outpoint);
    } else if j < i {
        lemma_outpoint_lt_asymmetric(entries[j].outpoint, entries[i].outpoint);
    }
}

/// The wallet's unspent outputs with their values, in the order of their
/// outpoints; no outpoint occurs twice.
#[derive(Debug, PartialEq, Eq)]
pub struct UtxoSet {
    entries: Vec<Utxo>,
}

impl View for UtxoSet {
    type V = Seq<Utxo>;

    closed spec fn view(&self) -> Seq<Utxo> {
        self.entries@
    }
}

impl Clone for UtxoSet {
    fn clone(&self) -> (copy: UtxoSet)
        ensures
            copy@ == self@,
    {
        proof {
            use_type_invariant(self);
        }
        let mut entries: Vec<Utxo> = Vec::new();
        let mut i: usize = 0;
        while i < self.entries.len()
            invariant
                i <= self.entries@.len(),
                entries@ == self.entries@.take(i as int),
            decreases self.entries@.len() - i,
        {
            entries.push(self.entries[i]);
            assert(entries@ =~= self.entries@.take(i + 1));
            i += 1;
        }
        assert(entries@ =~= self.entries@);
        UtxoSet { entries }
    }
}

impl UtxoSet {
    #[verifier::type_invariant]
    spec fn in_order(self) -> bool {
        ascending(self.entries@)
    }

    /// The set of no outputs.
    pub fn new() -> (set: UtxoSet)
        ensures
            set@ == Seq::<Utxo>::empty(),
    {
        UtxoSet { entries: Vec::new() }
    }

    /// How many outputs the set holds; they stand in ascending order.
    pub fn len(&self) -> (n: usize)
        ensures
            n == self@.len(),
            ascending(self@),
    {
        proof {
            use_type_invariant(self);
        }
        self.entries.len()
    }

    /// The output at place `i` of the order.
    pub fn entry(&self, i: usize) -> (utxo: Utxo)
        requires
            i < self@.len(),
        ensures
            utxo == self@[i as int],
            ascending(self@),
    {
        proof {
            use_type_invariant(self);
        }
        self.entries[i]
    }

    /// Where the outpoint stands, or, where it does not occur, the place
    /// at which it would have to be put.
    fn locate(&self, outpoint: &OutPoint) -> (r: (usize, bool))
        ensures
            ascending(self@),
            r.0 <= self@.len(),
            forall|i: int| 0 <= i < r.0 ==> outpoint_lt((#[trigger] self@[i]).outpoint, *outpoint),
            r.1 ==> r.0 < self@.len() && self@[r.0 as int].outpoint == *outpoint,
            !r.1 ==> forall|i: int|
                r.0 <= i < self@.len() ==> outpoint_lt(*outpoint, (#[trigger] self@[i]).outpoint),
            r.1 == holds(self@, *outpoint),
    {
        proof {
            use_type_invariant(self);
        }
        let mut i: usize = 0;
        while i < self.entries.len()
            invariant
                i <= self.entries@.len(),
                ascending(self.entries@),
                forall|k: int|
                    0 <= k < i ==> outpoint_lt((#[trigger] self.entries@[k]).outpoint, *outpoint),
            decreases self.entries@.len() - i,
        {
            match self.entries[i].outpoint.rank(outpoint) {
                Rank::Before => {},
                Rank::Same => {
                    return (i, true);
                },
                Rank::After => {
                    proof {
                        let at = self.entries@[i as int].outpoint;
                        assert forall|k: int| i <= k < self.entries@.len() implies outpoint_lt(
                            *outpoint,
                            (#[trigger] self.entries@[k]).outpoint,
                        ) by {
                            if i < k {
                                lemma_outpoint_lt_transitive(
                                    *outpoint,
                                    at,
                                    self.entries@[k].outpoint,
                                );
                            }
                        }
                        lemma_absent(self.entries@, *outpoint, i as int);
                    }
                    return (i, false);
                },
            }
            i += 1;
        }
        proof {
            lemma_absent(self.entries@, *outpoint, i as int);
        }
        (i, false)
    }

    /// What the outpoint is worth, if the set holds it.
    pub fn get(&self, outpoint: &OutPoint) -> (r: Option<u64>)
        ensures
            r == amount_of(self@, *outpoint),
            ascending(self@),
    {
        let (at, found) = self.locate(outpoint);
        if found {
            proof {
                lemma_one_place(self@, at as int);
            }
            Some(self.entries[at].value)
        } else {
            None
        }
    }

    /// Puts the outpoint into the set with the value, in place of what the
    /// set held for it before.
    pub fn insert(&mut self, outpoint: OutPoint, value: u64)
        ensures
            ascending(final(self)@),
            forall|other: OutPoint|
                amount_of(final(self)@, other) == if other == outpoint {
                    Some(value)
                } else {
                    amount_of(old(self)@, other)
                },
            final(self)@.len() == old(self)@.len() + if holds(old(self)@, outpoint) {
                0int
            } else {
                1int
            },
    {
        let (at, found) = self.locate(&outpoint);
        let ghost before = self.entries@;
        let utxo = Utxo { outpoint, value };
        if found {
            self.entries = replaced(&self.entries, at, utxo);
            proof {
                let after = self.entries@;
                assert(ascending(after)) by {
                    assert forall|i: int, j: int| 0 <= i < j < after.len() implies outpoint_lt(
                        (#[trigger] after[i]).outpoint,
                        (#[trigger] after[j]).outpoint,
                    ) by {
                        assert(after[i].outpoint == before[i].outpoint);
                        assert(after[j].outpoint == before[j].outpoint);
                    }
                }
                assert forall|other: OutPoint|
                    amount_of(after, other) == if other == outpoint {
                        Some(value)
                    } else {
                        amount_of(before, other)
                    } by {
                    if other == outpoint {
                        lemma_one_place(after, at as int);
                    } else if holds(before, other) {
                        let k = place_of(before, other);
                        assert(after[k] == before[k]);
                        lemma_one_place(after, k);
                    } else if holds(after, other) {
                        let k = place_of(after, other);
                        assert(before[k].outpoint == other);
                    }
                }
            }
        } else {
            self.entries = inserted(&self.entries, at, utxo);
            proof {
                let after = self.entries@;
                assert(ascending(after)) by {
                    assert forall|i: int, j: int| 0 <= i < j < after.len() implies outpoint_lt(
                        (#[trigger] after[i]).outpoint,
                        (#[trigger] after[j]).outpoint,
                    ) by {
                        if j < at {
                            assert(after[i] == before[i] && after[j] == before[j]);
                        } else if j == at {
                            assert(after[i] == before[i]);
                        } else if i < at {
                            assert(after[i] == before[i] && after[j] == before[j - 1]);
                        } else if i == at {
                            assert(after[j] == before[j - 1]);
                        } else {
                            assert(after[i] == before[i - 1] && after[j] == before[j - 1]);
                        }
                    }
                }
                assert forall|other: OutPoint|
                    amount_of(after, other) == if other == outpoint {
                        Some(value)
                    } else {
                        amount_of(before, other)
                    } by {
                    if other == outpoint {
                        lemma_one_place(after, at as int);
                    } else if holds(before, other) {
                        let k = place_of(before, other);
                        let moved = if k < at {
                            k
                        } else {
                            k + 1
                        };
                        assert(after[moved] == before[k]);
                        lemma_one_place(after, moved);
                    } else if holds(after, other) {
                        let k = place_of(after, other);
                        if k < at {
                            assert(before[k].outpoint == other);
                        } else {
                            assert(before[k - 1].outpoint == other);
                        }
                    }
                }
            }
        }
    }
}

/// A copy of `entries` with `utxo` at place `at` in place of what stood there.
fn replaced(entries: &Vec<Utxo>, at: usize, utxo: Utxo) -> (r: Vec<Utxo>)
    requires
        at < entries@.len(),
    ensures
        r@ == entries@.update(at as int, utxo),
{
    let mut r: Vec<Utxo> = Vec::new();
    let mut i: usize = 0;
    while i < entries.len()
        invariant
            i <= entries@.len(),
            at < entries@.len(),
            r@ == entries@.update(at as int, utxo).take(i as int),
        decreases entries@.len() - i,
    {
        r.push(if i == at { utxo } else { entries[i] });
        assert(r@ =~= entries@.update(at as int, utxo).take(i + 1));
        i += 1;
    }
    assert(r@ =~= entries@.update(at as int, utxo));
    r
}

/// A copy of `entries` with `utxo` put in before place `at`.
fn inserted(entries: &Vec<Utxo>, at: usize, utxo: Utxo) -> (r: Vec<Utxo>)
    requires
        at <= entries@.len(),
    ensures
        r@ == entries@.insert(at as int, utxo),
{
    let mut r: Vec<Utxo> = Vec::new();
    let mut i: usize = 0;
    while i < at
        invariant
            i <= at <= entries@.len(),
            r@ == entries@.take(i as int),
        decreases at - i,
    {
        r.push(entries[i]);
        assert(r@ =~= entries@.take(i + 1));
        i += 1;
    }
    r.push(utxo);
    while i < entries.len()
        invariant
            at <= i <= entries@.len(),
            r@ == entries@.insert(at as int, utxo).take(i + 1),
        decreases entries@.len() - i,
    {
        r.push(entries[i]);
        assert(r@ =~= entries@.insert(at as int, utxo).take(i + 2));
        i += 1;
    }
    assert(r@ =~= entries@.insert(at as int, utxo));
    r
}

/// An outpoint that falls between the places `at - 1` and `at` of an
/// ascending sequence does not occur in it.
proof fn lemma_absent(entries: Seq<Utxo>, outpoint: OutPoint, at: int)
    requires
        0 <= at <= entries.len(),
        forall|i: int| 0 <= i < at ==> outpoint_lt((#[trigger] entries[i]).outpoint, outpoint),
        forall|i: int|
            at <= i < entries.len() ==> outpoint_lt(outpoint, (#[trigger] entries[i]).outpoint),
    ensures
        !holds(entries, outpoint),
{
    if holds(entries, outpoint) {
        let k = place_of(entries, outpoint);
        if k < at {
            lemma_outpoint_lt_asymmetric(entries[k].outpoint, outpoint);
        } else {
            lemma_outpoint_lt_asymmetric(outpoint, entries[k].outpoint);
        }
    }
}

} // verus!
