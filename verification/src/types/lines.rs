//! Sets of source line numbers.

use vstd::prelude::*;

verus! {

/// `s` is strictly increasing.
pub open spec fn ascending(s: Seq<u64>) -> bool {
    forall|i: int, j: int| 0 <= i < j < s.len() ==> s[i] < s[j]
}

/// A finite set of line numbers, kept in ascending order.
#[derive(Debug)]
pub struct LineSet {
    lines: Vec<u64>,
}

impl View for LineSet {
    type V = Set<u64>;

    closed spec fn view(&self) -> Set<u64> {
        self.lines@.to_set()
    }
}

impl LineSet {
    #[verifier::type_invariant]
    spec fn inv(self) -> bool {
        ascending(self.lines@)
    }

    /// The members in ascending order.
    pub closed spec fn seq(self) -> Seq<u64> {
        self.lines@
    }

    /// The view is the set of the members, and it is finite.
    pub proof fn lemma_view(self)
        ensures
            self@ == self.seq().to_set(),
            self@.finite(),
    {
        vstd::seq_lib::seq_to_set_is_finite(self.lines@);
    }

    /// A strictly increasing sequence has as many members as its set.
    pub proof fn lemma_ascending_len(s: Seq<u64>)
        requires
            ascending(s),
        ensures
            s.to_set().len() == s.len(),
            s.no_duplicates(),
    {
        assert(s.no_duplicates());
        s.unique_seq_to_set();
    }

    /// The empty set.
    pub fn new() -> (out: LineSet)
        ensures
            out@ == Set::<u64>::empty(),
            out.seq() == Seq::<u64>::empty(),
    {
        let out = LineSet { lines: Vec::new() };
        assert(out.lines@.to_set() =~= Set::<u64>::empty());
        out
    }

    /// The number of members.
    pub fn len(&self) -> (n: usize)
        ensures
            n == self@.len(),
            n == self.seq().len(),
    {
        proof {
            use_type_invariant(self);
            Self::lemma_ascending_len(self.lines@);
        }
        self.lines.len()
    }

    /// Whether the set has no member.
    pub fn is_empty(&self) -> (r: bool)
        ensures
            r == (self@.len() == 0),
            r == (self@ == Set::<u64>::empty()),
    {
        proof {
            use_type_invariant(self);
            Self::lemma_ascending_len(self.lines@);
            if self.lines@.len() == 0 {
                assert(self.lines@.to_set() =~= Set::<u64>::empty());
            } else {
                assert(self.lines@.to_set().contains(self.lines@[0]));
            }
        }
        self.lines.len() == 0
    }

    /// Whether `line` is a member.
    pub fn contains(&self, line: u64) -> (r: bool)
        ensures
            r == self@.contains(line),
    {
        let mut i: usize = 0;
        while i < self.lines.len()
            invariant
                i <= self.lines.len(),
                forall|k: int| 0 <= k < i ==> self.lines@[k] != line,
            decreases self.lines.len() - i,
        {
            if self.lines[i] == line {
                assert(self.lines@.contains(line));
                return true;
            }
            i += 1;
        }
        assert(!self.lines@.contains(line));
        false
    }

    /// Adds `line`. Returns whether it was new.
    pub fn insert(&mut self, line: u64) -> (added: bool)
        ensures
            final(self)@ == old(self)@.insert(line),
            added == !old(self)@.contains(line),
    {
        proof {
            use_type_invariant(&*self);
        }
        let mut i: usize = 0;
        while i < self.lines.len() && self.lines[i] < line
            invariant
                i <= self.lines.len(),
                *self == *old(self),
                forall|k: int| 0 <= k < i ==> self.lines@[k] < line,
            decreases self.lines.len() - i,
        {
            i += 1;
        }
        if i < self.lines.len() && self.lines[i] == line {
            assert(self.lines@.contains(line));
            assert(self.lines@.to_set().insert(line) =~= self.lines@.to_set());
            return false;
        }
        let ghost before = self.lines@;
        assert(!before.contains(line)) by {
            assert forall|k: int| 0 <= k < before.len() implies before[k] != line by {
                if k >= i {
                    assert(before[i as int] <= before[k]);
                }
            }
        }
        let mut fresh: Vec<u64> = Vec::new();
        let mut k: usize = 0;
        while k < i
            invariant
                k <= i <= self.lines.len(),
                *self == *old(self),
                before == self.lines@,
                fresh@ == before.take(k as int),
            decreases i - k,
        {
            fresh.push(self.lines[k]);
            assert(before.take(k + 1) =~= before.take(k as int).push(before[k as int]));
            k += 1;
        }
        fresh.push(line);
        while k < self.lines.len()
            invariant
                i <= k <= self.lines.len(),
                *self == *old(self),
                before == self.lines@,
                fresh@ == before.take(i as int).push(line) + before.subrange(i as int, k as int),
            decreases self.lines.len() - k,
        {
            fresh.push(self.lines[k]);
            assert(before.subrange(i as int, k + 1) =~= before.subrange(i as int, k as int).push(
                before[k as int],
            ));
            assert(fresh@ =~= before.take(i as int).push(line) + before.subrange(
                i as int,
                k + 1,
            ));
            k += 1;
        }
        assert(fresh@ =~= before.insert(i as int, line));
        proof {
            let after = fresh@;
            assert(after == before.insert(i as int, line));
            assert forall|a: int, b: int| 0 <= a < b < after.len() implies after[a] < after[b] by {
                if a < i && b > i {
                    assert(after[a] == before[a] && after[b] == before[b - 1]);
                } else if a == i {
                    assert(after[b] == before[b - 1]);
                    assert(before[i as int] <= before[b - 1]);
                } else if b == i {
                } else if b < i {
                } else {
                    assert(after[a] == before[a - 1] && after[b] == before[b - 1]);
                }
            }
            assert(after.to_set() =~= before.to_set().insert(line)) by {
                assert forall|x: u64| after.to_set().contains(x) <==> before.to_set().insert(
                    line,
                ).contains(x) by {
                    if after.contains(x) {
                        let k = choose|k: int| 0 <= k < after.len() && after[k] == x;
                        if k < i {
                            assert(before[k] == x);
                        } else if k > i {
                            assert(before[k - 1] == x);
                        }
                    }
                    if before.contains(x) {
                        let k = choose|k: int| 0 <= k < before.len() && before[k] == x;
                        if k < i {
                            assert(after[k] == x);
                        } else {
                            assert(after[k + 1] == x);
                        }
                    }
                    if x == line {
                        assert(after[i as int] == x);
                    }
                }
            }
        }
        self.lines = fresh;
        true
    }

    /// The members in ascending order.
    pub fn to_vec(&self) -> (out: Vec<u64>)
        ensures
            out@ == self.seq(),
            ascending(out@),
            out@.to_set() == self@,
    {
        proof {
            use_type_invariant(self);
        }
        let mut out: Vec<u64> = Vec::new();
        let mut i: usize = 0;
        while i < self.lines.len()
            invariant
                i <= self.lines.len(),
                out@ == self.lines@.take(i as int),
            decreases self.lines.len() - i,
        {
            out.push(self.lines[i]);
            assert(self.lines@.take(i + 1) =~= self.lines@.take(i as int).push(self.lines@[i as int]));
            i += 1;
        }
        assert(self.lines@.take(self.lines@.len() as int) =~= self.lines@);
        out
    }

    /// The set of the numbers in `lines`.
    pub fn from_vec(lines: &Vec<u64>) -> (out: LineSet)
        ensures
            out@ == lines@.to_set(),
    {
        let mut out = LineSet::new();
        let mut i: usize = 0;
        while i < lines.len()
            invariant
                i <= lines.len(),
                out@ == lines@.take(i as int).to_set(),
            decreases lines.len() - i,
        {
            let ghost before = out@;
            out.insert(lines[i]);
            proof {
                assert(lines@.take(i + 1) =~= lines@.take(i as int).push(lines@[i as int]));
                assert(lines@.take(i + 1).to_set() =~= before.insert(lines@[i as int])) by {
                    lines@.take(i as int).lemma_push_to_set_commute(lines@[i as int]);
                }
            }
            i += 1;
        }
        assert(lines@.take(lines@.len() as int) =~= lines@);
        out
    }
}

impl Clone for LineSet {
    fn clone(&self) -> (out: LineSet)
        ensures
            out@ == self@,
            out.seq() == self.seq(),
    {
        proof {
            use_type_invariant(self);
        }
        LineSet { lines: self.to_vec() }
    }
}

} // verus!
