//! A run-length-encoded append-only sequence.
//!
//! The chunk uses this to record one source line number per bytecode byte;
//! consecutive equal lines share a single run. The contract is purely
//! positional: the view of an [`Rle`] is the fully expanded sequence, and
//! `push`/`get` behave exactly like appending to and indexing a dense vector.

use vstd::laws_eq::obeys_concrete_eq;
use vstd::prelude::*;

verus! {

#[derive(Debug)]
pub struct RleNode<T> {
    pub value: T,
    pub count: usize,
}

#[derive(Debug)]
pub struct Rle<T> {
    data: Vec<RleNode<T>>,
    last_value: Option<T>,
}

/// A run of `count` copies of `value`.
pub open spec fn spec_run<T>(value: T, count: nat) -> Seq<T> {
    Seq::new(count, |i: int| value)
}

/// The dense expansion of a sequence of runs.
pub open spec fn spec_expand<T>(data: Seq<RleNode<T>>) -> Seq<T>
    decreases data.len(),
{
    if data.len() == 0 {
        Seq::empty()
    } else {
        spec_expand(data.drop_last()) + spec_run(data.last().value, data.last().count as nat)
    }
}

/// Expansion distributes over concatenation of run sequences.
proof fn lemma_expand_concat<T>(a: Seq<RleNode<T>>, b: Seq<RleNode<T>>)
    ensures
        spec_expand(a + b) == spec_expand(a) + spec_expand(b),
    decreases b.len(),
{
    if b.len() == 0 {
        assert(a + b =~= a);
        assert(spec_expand(a) + spec_expand(b) =~= spec_expand(a));
    } else {
        lemma_expand_concat(a, b.drop_last());
        assert((a + b).drop_last() =~= a + b.drop_last());
        assert(spec_expand(a + b) =~= spec_expand(a) + spec_expand(b));
    }
}

/// Expansion of a single run.
proof fn lemma_expand_singleton<T>(d: RleNode<T>)
    ensures
        spec_expand(seq![d]) == spec_run(d.value, d.count as nat),
{
    let s = seq![d];
    assert(s.len() == 1);
    assert(s.drop_last() =~= Seq::<RleNode<T>>::empty());
    assert(s.last() == d);
    assert(spec_expand(Seq::<RleNode<T>>::empty()) =~= Seq::<T>::empty());
    assert(spec_expand(s) =~= spec_run(d.value, d.count as nat));
}

impl<T: Copy + PartialEq> Rle<T> {
    /// Every run is non-empty, the cached last value matches the last run,
    /// and the expanded length fits in a `usize`.
    pub closed spec fn wf(&self) -> bool {
        &&& forall|i: int| 0 <= i < self.data@.len() ==> (#[trigger] self.data@[i].count) >= 1
        &&& match self.last_value {
            None => self.data@.len() == 0,
            Some(v) => self.data@.len() > 0 && self.data@.last().value == v,
        }
        &&& spec_expand(self.data@).len() <= usize::MAX
    }

    pub closed spec fn view(&self) -> Seq<T> {
        spec_expand(self.data@)
    }

    pub fn new() -> (r: Rle<T>)
        ensures
            r.wf(),
            r@ == Seq::<T>::empty(),
    {
        Rle { data: Vec::new(), last_value: None }
    }

    /// Appends one value: extends the last run when the value repeats,
    /// otherwise starts a new run of length 1.
    pub fn push(&mut self, value: T)
        requires
            old(self).wf(),
            old(self)@.len() < usize::MAX,
            obeys_concrete_eq::<T>(),
        ensures
            final(self).wf(),
            final(self)@ == old(self)@.push(value),
    {
        proof {
            reveal(obeys_concrete_eq);
        }
        let ghost old_data = self.data@;
        if let Some(last_value) = &self.last_value {
            if *last_value == value {
                let n = self.data.len();
                let count = self.data[n - 1].count;
                proof {
                    assert(spec_expand(old_data) == spec_expand(old_data.drop_last())
                        + spec_run(old_data.last().value, old_data.last().count as nat));
                    assert(spec_expand(old_data).len() >= old_data.last().count);
                }
                self.data[n - 1] = RleNode { value, count: count + 1 };
                proof {
                    assert(self.data@.drop_last() =~= old_data.drop_last());
                    assert(spec_run(value, (count + 1) as nat)
                        =~= spec_run(old_data.last().value, count as nat).push(value));
                    assert(self@ =~= old(self)@.push(value));
                }
                return;
            }
        }
        self.data.push(RleNode { value, count: 1 });
        self.last_value = Some(value);
        proof {
            assert(self.data@.drop_last() =~= old_data);
            assert(spec_run(value, 1nat) =~= Seq::empty().push(value));
            assert(self@ =~= old(self)@.push(value));
        }
    }

    /// Positional lookup in the expanded sequence; out of range is `None`.
    pub fn get(&self, index: usize) -> (r: Option<&T>)
        requires
            self.wf(),
        ensures
            match r {
                Some(v) => index < self@.len() && *v == self@[index as int],
                None => index >= self@.len(),
            },
    {
        let mut skipped: usize = 0;
        let n = self.data.len();
        let mut i: usize = 0;
        while i < n
            invariant
                self.wf(),
                n == self.data@.len(),
                0 <= i <= n,
                skipped == spec_expand(self.data@.take(i as int)).len(),
                index >= skipped,
                spec_expand(self.data@.take(i as int)).len() <= self@.len(),
            decreases n - i,
        {
            proof {
                assert(self.data@ =~= self.data@.take(i as int) + self.data@.skip(i as int));
                lemma_expand_concat(self.data@.take(i as int), self.data@.skip(i as int));
                assert(self.data@.skip(i as int) =~= seq![self.data@[i as int]]
                    + self.data@.skip(i as int + 1));
                lemma_expand_concat(
                    seq![self.data@[i as int]],
                    self.data@.skip(i as int + 1),
                );
                lemma_expand_singleton(self.data@[i as int]);
                assert(self.data@.take(i as int + 1) =~= self.data@.take(i as int)
                    + seq![self.data@[i as int]]);
                lemma_expand_concat(self.data@.take(i as int), seq![self.data@[i as int]]);
            }
            let node_count = self.data[i].count;
            if skipped + node_count > index {
                proof {
                    assert(self@[index as int] == self.data@[i as int].value);
                }
                return Some(&self.data[i].value);
            } else {
                skipped = skipped + node_count;
                i = i + 1;
            }
        }
        proof {
            assert(self.data@.take(n as int) =~= self.data@);
        }
        return None;
    }
}

} // verus!
