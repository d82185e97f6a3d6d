use vstd::prelude::*;
use crate::outpoint::{
    lemma_satpoint_lt_asymmetric, lemma_satpoint_lt_transitive, satpoint_lt, InscriptionId,
    OutPoint, Rank, SatPoint,
};

verus! {

/// A satoshi that bears an inscription, and which.
#[derive(Clone, Copy, Debug, PartialEq, Eq)]
pub struct Inscribed {
    pub satpoint: SatPoint,
    pub id: InscriptionId,
}

/// Whether the satpoints of `entries` ascend strictly.
pub open spec fn ascending(entries: Seq<Inscribed>) -> bool {
    forall|i: int, j: int|
        0 <= i < j < entries.len() ==> satpoint_lt(
            (#[trigger] entries[i]).satpoint,
            (#[trigger] entries[j]).satpoint,
        )
}

/// Whether `entries` holds the satpoint.
pub open spec fn holds(entries: Seq<Inscribed>, satpoint: SatPoint) -> bool {
    exists|i: int| 0 <= i < entries.len() && (#[trigger] entries[i]).satpoint == satpoint
}

/// A place at which `entries` holds the satpoint.
pub open spec fn place_of(entries: Seq<Inscribed>, satpoint: SatPoint) -> int {
    choose|i: int| 0 <= i < entries.len() && (#[trigger] entries[i]).satpoint == satpoint
}

/// The inscription that the satpoint bears according to `entries`.
pub open spec fn id_of(entries: Seq<Inscribed>, satpoint: SatPoint) -> Option<InscriptionId> {
    if holds(entries, satpoint) {
        Some(entries[place_of(entries, satpoint)].id)
    } else {
        None
    }
}

/// Whether some satoshi of the outpoint bears an inscription.
pub open spec fn inscribed_on(entries: Seq<Inscribed>, outpoint: OutPoint) -> bool {
    exists|i: int| 0 <= i < entries.len() && (#[trigger] entries[i]).satpoint.outpoint == outpoint
}

/// Whether `i` is the first place at which `entries` holds a satoshi of the
/// outpoint.
pub open spec fn first_on(entries: Seq<Inscribed>, outpoint: OutPoint, i: int) -> bool {
    &&& 0 <= i < entries.len()
    &&& entries[i].satpoint.outpoint == outpoint
    &&& forall|j: int| 0 <= j < i ==> (#[trigger] entries[j]).satpoint.outpoint != outpoint
}

/// In an ascending sequence a satpoint stands at one place only.
pub proof fn lemma_one_place(entries: Seq<Inscribed>, i: int)
    requires
        ascending(entries),
        0 <= i < entries.len(),
    ensures
        holds(entries, entries[i].satpoint),
        place_of(entries, entries[i].satpoint) == i,
        id_of(entries, entries[i].satpoint) == Some(entries[i].id),
{
    let j = place_of(entries, entries[i].satpoint);
    if i < j {
        lemma_satpoint_lt_asymmetric(entries[i].satpoint, entries[j].satpoint);
    } else if j < i {
        lemma_satpoint_lt_asymmetric(entries[j].satpoint, entries[i].satpoint);
    }
}

/// The satoshis that bear an inscription already, in the order of their
/// satpoints; no satpoint occurs twice.
#[derive(Debug, PartialEq, Eq)]
pub struct InscriptionSet {
    entries: Vec<Inscribed>,
}

impl View for InscriptionSet {
    type V = Seq<Inscribed>;

    closed spec fn view(&self) -> Seq<Inscribed> {
        self.entries@
    }
}

impl Clone for InscriptionSet {
    fn clone(&self) -> (copy: InscriptionSet)
        ensures
            copy@ == self@,
    {
        proof {
            use_type_invariant(self);
        }
        let mut entries: Vec<Inscribed> = Vec::new();
        let mut i: usize = 0;
        while i < self.entries.len()
            invariant
                i <= self.entries@.len(),
                entries@ == self.entries@.take(i as int),
            decreases self.entries@.len() - i,
        {
            entries.push(self.entries[i]);
            assert(entries@ =~= self.entries@.take(i + 1));
            i += 1;
        }
        assert(entries@ =~= self.entries@);
        InscriptionSet { entries }
    }
}

impl InscriptionSet {
    #[verifier::type_invariant]
    spec fn in_order(self) -> bool {
        ascending(self.entries@)
    }

    /// The set of no inscriptions.
    pub fn new() -> (set: InscriptionSet)
        ensures
            set@ == Seq::<Inscribed>::empty(),
    {
        InscriptionSet { entries: Vec::new() }
    }

    /// How many inscriptions the set holds; they stand in ascending order.
    pub fn len(&self) -> (n: usize)
        ensures
            n == self@.len(),
            ascending(self@),
    {
        proof {
            use_type_invariant(self);
        }
        self.entries.len()
    }

    /// The inscription at place `i` of the order.
    pub fn entry(&self, i: usize) -> (inscribed: Inscribed)
        requires
            i < self@.len(),
        ensures
            inscribed == self@[i as int],
            ascending(self@),
    {
        proof {
            use_type_invariant(self);
        }
        self.entries[i]
    }

    /// Where the satpoint stands, or, where it does not occur, the place
    /// at which it would have to be put.
    fn locate(&self, satpoint: &SatPoint) -> (r: (usize, bool))
        ensures
            ascending(self@),
            r.0 <= self@.len(),
            forall|i: int| 0 <= i < r.0 ==> satpoint_lt((#[trigger] self@[i]).satpoint, *satpoint),
            r.1 ==> r.0 < self@.len() && self@[r.0 as int].satpoint == *satpoint,
            !r.1 ==> forall|i: int|
                r.0 <= i < self@.len() ==> satpoint_lt(*satpoint, (#[trigger] self@[i]).satpoint),
            r.1 == holds(self@, *satpoint),
    {
        proof {
            use_type_invariant(self);
        }
        let mut i: usize = 0;
        while i < self.entries.len()
            invariant
                i <= self.entries@.len(),
                ascending(self.entries@),
                forall|k: int|
                    0 <= k < i ==> satpoint_lt((#[trigger] self.entries@[k]).satpoint, *satpoint),
            decreases self.entries@.len() - i,
        {
            match self.entries[i].satpoint.rank(satpoint) {
                Rank::Before => {},
                Rank::Same => {
                    return (i, true);
                },
                Rank::After => {
                    proof {
                        let at = self.entries@[i as int].satpoint;
                        assert forall|k: int| i <= k < self.entries@.len() implies satpoint_lt(
                            *satpoint,
                            (#[trigger] self.entries@[k]).satpoint,
                        ) by {
                            if i < k {
                                lemma_satpoint_lt_transitive(
                                    *satpoint,
                                    at,
                                    self.entries@[k].satpoint,
                                );
                            }
                        }
                        lemma_absent(self.entries@, *satpoint, i as int);
                    }
                    return (i, false);
                },
            }
            i += 1;
        }
        proof {
            lemma_absent(self.entries@, *satpoint, i as int);
        }
        (i, false)
    }

    /// The first place, in the order of satpoints, of an inscription on a
    /// satoshi of the outpoint; `None` where the outpoint is cardinal.
    pub fn first_inscribed_on(&self, outpoint: &OutPoint) -> (r: Option<usize>)
        ensures
            match r {
                Some(i) => first_on(self@, *outpoint, i as int),
                None => !inscribed_on(self@, *outpoint),
            },
    {
        let mut i: usize = 0;
        while i < self.entries.len()
            invariant
                i <= self.entries@.len(),
                forall|j: int|
                    0 <= j < i ==> (#[trigger] self.entries@[j]).satpoint.outpoint != *outpoint,
            decreases self.entries@.len() - i,
        {
            if self.entries[i].satpoint.outpoint.same(outpoint) {
                return Some(i);
            }
            i += 1;
        }
        None
    }

    /// The inscription on the satpoint, if the set holds one.
    pub fn get(&self, satpoint: &SatPoint) -> (r: Option<InscriptionId>)
        ensures
            r == id_of(self@, *satpoint),
            ascending(self@),
    {
        let (at, found) = self.locate(satpoint);
        if found {
            proof {
                lemma_one_place(self@, at as int);
            }
            Some(self.entries[at].id)
        } else {
            None
        }
    }

    /// Records that the satpoint bears the inscription, in place of what
    /// the set held for it before.
    pub fn insert(&mut self, satpoint: SatPoint, id: InscriptionId)
        ensures
            ascending(final(self)@),
            forall|other: SatPoint|
                id_of(final(self)@, other) == if other == satpoint {
                    Some(id)
                } else {
                    id_of(old(self)@, other)
                },
            final(self)@.len() == old(self)@.len() + if holds(old(self)@, satpoint) {
                0int
            } else {
                1int
            },
    {
        let (at, found) = self.locate(&satpoint);
        let ghost before = self.entries@;
        let inscribed = Inscribed { satpoint, id };
        if found {
            self.entries = replaced(&self.entries, at, inscribed);
            proof {
                let after = self.entries@;
                assert(ascending(after)) by {
                    assert forall|i: int, j: int| 0 <= i < j < after.len() implies satpoint_lt(
                        (#[trigger] after[i]).satpoint,
                        (#[trigger] after[j]).satpoint,
                    ) by {
                        assert(after[i].satpoint == before[i].satpoint);
                        assert(after[j].satpoint == before[j].satpoint);
                    }
                }
                assert forall|other: SatPoint|
                    id_of(after, other) == if other == satpoint {
                        Some(id)
                    } else {
                        id_of(before, other)
                    } by {
                    if other == satpoint {
                        lemma_one_place(after, at as int);
                    } else if holds(before, other) {
                        let k = place_of(before, other);
                        assert(after[k] == before[k]);
                        lemma_one_place(after, k);
                    } else if holds(after, other) {
                        let k = place_of(after, other);
                        assert(before[k].satpoint == other);
                    }
                }
            }
        } else {
            self.entries = inserted(&self.entries, at, inscribed);
            proof {
                let after = self.entries@;
                assert(ascending(after)) by {
                    assert forall|i: int, j: int| 0 <= i < j < after.len() implies satpoint_lt(
                        (#[trigger] after[i]).satpoint,
                        (#[trigger] after[j]).satpoint,
                    ) by {
                        if j < at {
                            assert(after[i] == before[i] && after[j] == before[j]);
                        } else if j == at {
                            assert(after[i] == before[i]);
                        } else if i < at {
                            assert(after[i] == before[i] && after[j] == before[j - 1]);
                        } else if i == at {
                            assert(after[j] == before[j - 1]);
                        } else {
                            assert(after[i] == before[i - 1] && after[j] == before[j - 1]);
                        }
                    }
                }
                assert forall|other: SatPoint|
                    id_of(after, other) == if other == satpoint {
                        Some(id)
                    } else {
                        id_of(before, other)
                    } by {
                    if other == satpoint {
                        lemma_one_place(after, at as int);
                    } else if holds(before, other) {
                        let k = place_of(before, other);
                        let moved = if k < at {
                            k
                        } else {
                            k + 1
                        };
                        assert(after[moved] == before[k]);
                        lemma_one_place(after, moved);
                    } else if holds(after, other) {
                        let k = place_of(after, other);
                        if k < at {
                            assert(before[k].satpoint == other);
                        } else {
                            assert(before[k - 1].satpoint == other);
                        }
                    }
                }
            }
        }
    }
}

/// A copy of `entries` with `inscribed` at place `at` in place of what stood there.
fn replaced(entries: &Vec<Inscribed>, at: usize, inscribed: Inscribed) -> (r: Vec<Inscribed>)
    requires
        at < entries@.len(),
    ensures
        r@ == entries@.update(at as int, inscribed),
{
    let mut r: Vec<Inscribed> = Vec::new();
    let mut i: usize = 0;
    while i < entries.len()
        invariant
            i <= entries@.len(),
            at < entries@.len(),
            r@ == entries@.update(at as int, inscribed).take(i as int),
        decreases entries@.len() - i,
    {
        r.push(if i == at { inscribed } else { entries[i] });
        assert(r@ =~= entries@.update(at as int, inscribed).take(i + 1));
        i += 1;
    }
    assert(r@ =~= entries@.update(at as int, inscribed));
    r
}

/// A copy of `entries` with `inscribed` put in before place `at`.
fn inserted(entries: &Vec<Inscribed>, at: usize, inscribed: Inscribed) -> (r: Vec<Inscribed>)
    requires
        at <= entries@.len(),
    ensures
        r@ == entries@.insert(at as int, inscribed),
{
    let mut r: Vec<Inscribed> = Vec::new();
    let mut i: usize = 0;
    while i < at
        invariant
            i <= at <= entries@.len(),
            r@ == entries@.take(i as int),
        decreases at - i,
    {
        r.push(entries[i]);
        assert(r@ =~= entries@.take(i + 1));
        i += 1;
    }
    r.push(inscribed);
    while i < entries.len()
        invariant
            at <= i <= entries@.len(),
            r@ == entries@.insert(at as int, inscribed).take(i + 1),
        decreases entries@.len() - i,
    {
        r.push(entries[i]);
        assert(r@ =~= entries@.insert(at as int, inscribed).take(i + 2));
        i += 1;
    }
    assert(r@ =~= entries@.insert(at as int, inscribed));
    r
}

/// A satpoint that falls between the places `at - 1` and `at` of an
/// ascending sequence does not occur in it.
proof fn lemma_absent(entries: Seq<Inscribed>, satpoint: SatPoint, at: int)
    requires
        0 <= at <= entries.len(),
        forall|i: int| 0 <= i < at ==> satpoint_lt((#[trigger] entries[i]).satpoint, satpoint),
        forall|i: int|
            at <= i < entries.len() ==> satpoint_lt(satpoint, (#[trigger] entries[i]).satpoint),
    ensures
        !holds(entries, satpoint),
{
    if holds(entries, satpoint) {
        let k = place_of(entries, satpoint);
        if k < at {
            lemma_satpoint_lt_asymmetric(entries[k].satpoint, satpoint);
        } else {
            lemma_satpoint_lt_asymmetric(satpoint, entries[k].satpoint);
        }
    }
}

} // verus!
