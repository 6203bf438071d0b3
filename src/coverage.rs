use vstd::prelude::*;

verus! {

/// Byte-wise equality of two coverage signatures.
pub fn same_signature(a: &[u8], b: &[u8]) -> (r: bool)
    ensures
        r == (a@ == b@),
{
    if a.len() != b.len() {
        return false;
    }
    let mut i: usize = 0;
    while i < a.len()
        invariant
            a@.len() == b@.len(),
            0 <= i <= a@.len(),
            a@.subrange(0, i as int) == b@.subrange(0, i as int),
        decreases a@.len() - i,
    {
        if a[i] != b[i] {
            assert(a@[i as int] != b@[i as int]);
            return false;
        }
        assert(a@.subrange(0, i + 1) =~= a@.subrange(0, i as int).push(a@[i as int]));
        assert(b@.subrange(0, i + 1) =~= b@.subrange(0, i as int).push(b@[i as int]));
        i = i + 1;
    }
    assert(a@ =~= a@.subrange(0, i as int));
    assert(b@ =~= b@.subrange(0, i as int));
    true
}

/// The coverage signatures accepted so far in one orchestration run. It only
/// grows: a signature, once in, stays for the rest of the run.
pub struct CoverageSet {
    signatures: Vec<Vec<u8>>,
}

impl View for CoverageSet {
    type V = Set<Seq<u8>>;

    open spec fn view(&self) -> Set<Seq<u8>> {
        self.entries().to_set()
    }
}

impl CoverageSet {
    /// The accepted signatures in the order they were accepted.
    pub closed spec fn entries(&self) -> Seq<Seq<u8>> {
        self.signatures@.map_values(|s: Vec<u8>| s@)
    }

    /// No signature is stored twice.
    pub closed spec fn wf(&self) -> bool {
        self.entries().no_duplicates()
    }

    /// Number of distinct accepted signatures.
    pub open spec fn spec_len(&self) -> nat {
        self@.len()
    }

    pub fn new() -> (r: CoverageSet)
        ensures
            r.wf(),
            r@ == Set::<Seq<u8>>::empty(),
    {
        let r = CoverageSet { signatures: Vec::new() };
        assert(r.entries() =~= Seq::<Seq<u8>>::empty());
        r
    }

    /// Number of distinct accepted signatures.
    pub fn len(&self) -> (r: usize)
        requires
            self.wf(),
        ensures
            r == self.spec_len(),
    {
        proof {
            self.entries().unique_seq_to_set();
        }
        self.signatures.len()
    }

    /// Whether `sig` has been accepted before.
    pub fn contains(&self, sig: &[u8]) -> (r: bool)
        ensures
            r == self@.contains(sig@),
    {
        let mut i: usize = 0;
        while i < self.signatures.len()
            invariant
                0 <= i <= self.signatures@.len(),
                forall|j: int| 0 <= j < i ==> self.entries()[j] != sig@,
            decreases self.signatures@.len() - i,
        {
            if same_signature(self.signatures[i].as_slice(), sig) {
                assert(self.entries()[i as int] == sig@);
                return true;
            }
            i = i + 1;
        }
        proof {
            if self@.contains(sig@) {
                let j = choose|j: int| 0 <= j < self.entries().len() && self.entries()[j] == sig@;
            }
        }
        false
    }

    /// Accepts `sig` if it is new. Returns whether it was new: the first
    /// insertion of a byte sequence governs novelty, later ones change nothing.
    pub fn check_and_insert(&mut self, sig: &[u8]) -> (novel: bool)
        requires
            old(self).wf(),
        ensures
            final(self).wf(),
            novel == !old(self)@.contains(sig@),
            final(self)@ == old(self)@.insert(sig@),
            final(self).spec_len() == old(self).spec_len() + if novel { 1nat } else { 0nat },
    {
        proof {
            self.entries().unique_seq_to_set();
        }
        if self.contains(sig) {
            assert(self@.insert(sig@) =~= self@);
            false
        } else {
            let ghost before = self.entries();
            let mut v: Vec<u8> = Vec::new();
            let mut i: usize = 0;
            while i < sig.len()
                invariant
                    0 <= i <= sig@.len(),
                    v@ == sig@.subrange(0, i as int),
                decreases sig@.len() - i,
            {
                v.push(sig[i]);
                i = i + 1;
                assert(v@ =~= sig@.subrange(0, i as int));
            }
            assert(v@ =~= sig@);
            self.signatures.push(v);
            assert(self.entries() =~= before.push(sig@));
            proof {
                assert(!before.contains(sig@));
                assert(self.entries().no_duplicates());
                assert(self@ =~= before.to_set().insert(sig@)) by {
                    assert forall|x: Seq<u8>| self@.contains(x) <==> (x == sig@ || before.contains(x)) by {
                        if self@.contains(x) {
                            let j = choose|j: int| 0 <= j < self.entries().len() && self.entries()[j] == x;
                            if j < before.len() {
                                assert(before[j] == x);
                            }
                        }
                        if before.contains(x) {
                            let j = choose|j: int| 0 <= j < before.len() && before[j] == x;
                            assert(self.entries()[j] == x);
                        }
                        if x == sig@ {
                            assert(self.entries()[before.len() as int] == x);
                        }
                    }
                }
                self.entries().unique_seq_to_set();
            }
            true
        }
    }
}

/// Inserting the same signature a second time is a no-op: the set and its
/// size stay as the first insertion left them, and only the first reports
/// novelty.
pub proof fn lemma_insert_idempotent(s: Set<Seq<u8>>, sig: Seq<u8>)
    requires
        s.finite(),
    ensures
        s.insert(sig).insert(sig) == s.insert(sig),
        s.insert(sig).insert(sig).len() == s.insert(sig).len(),
        s.insert(sig).contains(sig),
        s.insert(sig).len() == s.len() + if s.contains(sig) { 0nat } else { 1nat },
{
    assert(s.insert(sig).insert(sig) =~= s.insert(sig));
    if s.contains(sig) {
        assert(s.insert(sig) =~= s);
    }
}

} // verus!
