//! The ordered set of currently held chord pitches. Ascending pitch order
//! defines the chord slots: slot zero is always the lowest held pitch.

use vstd::prelude::*;

verus! {

/// Ascending, duplicate-free pitch order.
pub open spec fn spec_sorted_unique(s: Seq<u8>) -> bool {
    forall|i: int, j: int| 0 <= i < j < s.len() ==> s[i] < s[j]
}

/// The sequence with the pitch inserted at its sorted position; an already
/// present pitch leaves it unchanged.
pub open spec fn spec_set_insert(s: Seq<u8>, pitch: u8) -> Seq<u8>
    decreases s.len(),
{
    if s.len() == 0 {
        seq![pitch]
    } else if s[0] == pitch {
        s
    } else if s[0] > pitch {
        seq![pitch] + s
    } else {
        seq![s[0]] + spec_set_insert(s.drop_first(), pitch)
    }
}

/// The sequence with the pitch removed; an absent pitch leaves it unchanged.
pub open spec fn spec_set_remove(s: Seq<u8>, pitch: u8) -> Seq<u8>
    decreases s.len(),
{
    if s.len() == 0 {
        s
    } else if s[0] == pitch {
        s.drop_first()
    } else {
        seq![s[0]] + spec_set_remove(s.drop_first(), pitch)
    }
}

proof fn lemma_set_insert_at(s: Seq<u8>, pitch: u8, i: int)
    requires
        spec_sorted_unique(s),
        0 <= i <= s.len(),
        forall|j: int| 0 <= j < i ==> s[j] < pitch,
        i < s.len() ==> s[i] >= pitch,
    ensures
        (i < s.len() && s[i] == pitch) ==> spec_set_insert(s, pitch) == s,
        !(i < s.len() && s[i] == pitch) ==> spec_set_insert(s, pitch) == s.insert(i, pitch),
    decreases s.len(),
{
    if s.len() == 0 {
        assert(spec_set_insert(s, pitch) =~= s.insert(0, pitch));
    } else if i == 0 {
        if s[0] == pitch {
        } else {
            assert(s[0] > pitch);
            assert(spec_set_insert(s, pitch) =~= s.insert(0, pitch));
        }
    } else {
        let rest = s.drop_first();
        assert(spec_sorted_unique(rest));
        lemma_set_insert_at(rest, pitch, i - 1);
        if i < s.len() && s[i] == pitch {
            assert(seq![s[0]] + rest =~= s);
        } else {
            assert(seq![s[0]] + rest.insert(i - 1, pitch) =~= s.insert(i, pitch));
        }
    }
}

proof fn lemma_set_remove_at(s: Seq<u8>, pitch: u8, i: int)
    requires
        spec_sorted_unique(s),
        0 <= i <= s.len(),
        forall|j: int| 0 <= j < i ==> s[j] != pitch,
        i < s.len() ==> s[i] == pitch,
    ensures
        i < s.len() ==> spec_set_remove(s, pitch) == s.remove(i),
        i == s.len() ==> spec_set_remove(s, pitch) == s,
    decreases s.len(),
{
    if s.len() == 0 {
    } else if i == 0 {
        assert(s.drop_first() =~= s.remove(0));
    } else {
        let rest = s.drop_first();
        assert(spec_sorted_unique(rest));
        lemma_set_remove_at(rest, pitch, i - 1);
        if i < s.len() {
            assert(seq![s[0]] + rest.remove(i - 1) =~= s.remove(i));
        } else {
            assert(seq![s[0]] + rest =~= s);
        }
    }
}

/// The held chord: pitches in ascending order without duplicates.
#[derive(Clone, PartialEq, Eq, Debug)]
pub struct ChordSet {
    pub notes: Vec<u8>,
}

impl View for ChordSet {
    type V = Seq<u8>;

    open spec fn view(&self) -> Seq<u8> {
        self.notes@
    }
}

impl Default for ChordSet {
    /// The empty chord.
    fn default() -> (r: ChordSet)
        ensures
            r@ == Seq::<u8>::empty(),
    {
        ChordSet { notes: Vec::new() }
    }
}

impl ChordSet {
    /// Returns the empty chord.
    pub fn new() -> (r: ChordSet)
        ensures
            r@ == Seq::<u8>::empty(),
    {
        ChordSet { notes: Vec::new() }
    }

    /// Returns the number of held pitches.
    pub fn len(&self) -> (r: usize)
        ensures
            r == self@.len(),
    {
        self.notes.len()
    }

    /// Inserts a pitch at its sorted position; inserting a pitch already
    /// held changes nothing.
    pub fn insert(&mut self, pitch: u8)
        requires
            spec_sorted_unique(old(self)@),
        ensures
            final(self)@ == spec_set_insert(old(self)@, pitch),
            spec_sorted_unique(final(self)@),
    {
        let mut i: usize = 0;
        while i < self.notes.len() && self.notes[i] < pitch
            invariant
                i <= self.notes@.len(),
                forall|j: int| 0 <= j < i ==> self.notes@[j] < pitch,
                *self == *old(self),
            decreases self.notes@.len() - i,
        {
            i = i + 1;
        }
        proof {
            lemma_set_insert_at(self.notes@, pitch, i as int);
        }
        if i < self.notes.len() && self.notes[i] == pitch {
            return;
        }
        self.notes.insert(i, pitch);
        proof {
            let s = old(self)@;
            let t = self.notes@;
            assert forall|a: int, b: int| 0 <= a < b < t.len() implies t[a] < t[b] by {
                if a < i && b > i {
                    assert(s[a] < pitch && s[b - 1] >= pitch && s[b - 1] != pitch);
                }
            }
        }
    }

    /// Removes a pitch; removing a pitch not held changes nothing.
    pub fn remove(&mut self, pitch: u8)
        requires
            spec_sorted_unique(old(self)@),
        ensures
            final(self)@ == spec_set_remove(old(self)@, pitch),
            spec_sorted_unique(final(self)@),
    {
        let mut i: usize = 0;
        while i < self.notes.len() && self.notes[i] != pitch
            invariant
                i <= self.notes@.len(),
                forall|j: int| 0 <= j < i ==> self.notes@[j] != pitch,
                *self == *old(self),
            decreases self.notes@.len() - i,
        {
            i = i + 1;
        }
        proof {
            lemma_set_remove_at(self.notes@, pitch, i as int);
        }
        if i < self.notes.len() {
            self.notes.remove(i);
        }
    }

    /// Returns the held pitches in ascending order.
    pub fn as_ordered_sequence(&self) -> (r: Vec<u8>)
        ensures
            r@ == self@,
    {
        let mut out: Vec<u8> = Vec::new();
        let mut i: usize = 0;
        while i < self.notes.len()
            invariant
                i <= self.notes@.len(),
                out@ == self.notes@.take(i as int),
            decreases self.notes@.len() - i,
        {
            out.push(self.notes[i]);
            proof {
                assert(out@ =~= self.notes@.take(i as int + 1));
            }
            i = i + 1;
        }
        proof {
            assert(self.notes@.take(self.notes@.len() as int) =~= self.notes@);
        }
        out
    }
}

} // verus!
