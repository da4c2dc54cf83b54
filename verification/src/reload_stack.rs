use vstd::prelude::*;

verus! {

/// A vec optimised for finding and removing elements that match a predicate.
///
/// Removal clears a slot in place instead of shifting, and a `next_free`
/// cursor tracks the left-most slot that might still hold a value, so that
/// scans which start from the cursor skip the emptied prefix.
pub struct PopVec<T> {
    stack: Vec<Option<T>>,
    next_free: usize,
}

impl<T> View for PopVec<T> {
    type V = Seq<Option<T>>;

    closed spec fn view(&self) -> Seq<Option<T>> {
        self.stack@
    }
}

/// Where the `next_free` cursor lands after walking from `lo` towards `hi`
/// (exclusive) over `s`, stopping at the first occupied slot.
pub open spec fn advanced<T>(s: Seq<Option<T>>, lo: int, hi: int) -> int
    decreases hi - lo,
{
    if lo >= hi {
        lo
    } else if s[lo] is Some {
        lo
    } else {
        advanced(s, lo + 1, hi)
    }
}

/// `b` is a value that calling `f` on `t` may return.
pub open spec fn scored<T, F: Fn(&T) -> usize>(f: F, t: T, b: usize) -> bool {
    call_ensures(f, (&t,), b)
}

/// `b` is a value that calling `f` on `t` may return.
pub open spec fn matched<T, F: Fn(&T) -> bool>(f: F, t: T, b: bool) -> bool {
    call_ensures(f, (&t,), b)
}

impl<T> PopVec<T> {
    /// Every slot left of the cursor is empty and the cursor is in range.
    pub closed spec fn wf(&self) -> bool {
        &&& 0 <= self.next_free <= self.stack@.len()
        &&& forall|j: int| 0 <= j < self.next_free ==> self.stack@[j] is None
    }

    pub closed spec fn spec_next_free(&self) -> int {
        self.next_free as int
    }

    pub fn new(items: Vec<T>) -> (s: Self)
        ensures
            s.wf(),
            s.spec_next_free() == 0,
            s@.len() == items@.len(),
            forall|i: int| 0 <= i < items@.len() ==> s@[i] == Some(items@[i]),
    {
        let ghost orig = items@;
        let mut items = items;
        let mut stack: Vec<Option<T>> = Vec::new();
        while items.len() > 0
            invariant
                stack@.len() + items@.len() == orig.len(),
                forall|i: int| 0 <= i < stack@.len() ==> stack@[i] == Some(orig[i]),
                items@ == orig.subrange(stack@.len() as int, orig.len() as int),
            decreases items@.len(),
        {
            let x = items.remove(0);
            stack.push(Some(x));
        }
        PopVec { stack, next_free: 0 }
    }

    /// Clears slot `idx` and returns its prior value, then advances the
    /// cursor over the empty prefix up to `idx`.
    pub fn remove(&mut self, idx: usize) -> (r: Option<T>)
        requires
            old(self).wf(),
            idx < old(self)@.len(),
        ensures
            final(self).wf(),
            r == old(self)@[idx as int],
            final(self)@ == old(self)@.update(idx as int, None),
            final(self).spec_next_free() == advanced(final(self)@, old(self).spec_next_free(), idx as int + 1),
    {
        let mut taken: Option<T> = None;
        core::mem::swap(&mut taken, &mut self.stack[idx]);

        let n = self.stack.len();
        let mut i = self.next_free;
        while i <= idx && self.stack[i].is_none()
            invariant
                old(self).spec_next_free() <= i <= self.stack@.len(),
                idx < n,
                n == self.stack@.len(),
                self.stack@ == old(self)@.update(idx as int, None),
                forall|j: int| 0 <= j < i ==> self.stack@[j] is None,
                advanced(self.stack@, old(self).spec_next_free(), idx as int + 1)
                    == advanced(self.stack@, i as int, idx as int + 1),
            decreases idx + 1 - i,
        {
            i += 1;
        }
        self.next_free = i;
        taken
    }

    /// Removes and returns the first element (in index order) that satisfies
    /// the predicate, or returns `None` leaving the vec unchanged.
    pub fn pop_where<F: Fn(&T) -> bool>(&mut self, f: F) -> (r: Option<T>)
        requires
            old(self).wf(),
            forall|t: &T| #[trigger] call_requires(f, (t,)),
        ensures
            final(self).wf(),
            r matches Some(v) ==> exists|i: int|
                {
                    &&& 0 <= i < old(self)@.len()
                    &&& old(self)@[i] == Some(v)
                    &&& matched(f, v, true)
                    &&& final(self)@ == old(self)@.update(i, None)
                    &&& forall|j: int|
                        0 <= j < i && old(self)@[j] is Some ==> matched(
                            f,
                            old(self)@[j].unwrap(),
                            false,
                        )
                },
            r is None ==> {
                &&& final(self)@ == old(self)@
                &&& final(self).spec_next_free() == old(self).spec_next_free()
                &&& forall|j: int|
                    0 <= j < old(self)@.len() && old(self)@[j] is Some ==> matched(
                        f,
                        old(self)@[j].unwrap(),
                        false,
                    )
            },
    {
        let n = self.stack.len();
        let mut i: usize = 0;
        while i < n
            invariant
                old(self).wf(),
                *self == *old(self),
                0 <= i <= n,
                n == self.stack@.len(),
                forall|t: &T| #[trigger] call_requires(f, (t,)),
                forall|j: int|
                    0 <= j < i && self.stack@[j] is Some ==> matched(
                        f,
                        self.stack@[j].unwrap(),
                        false,
                    ),
            decreases n - i,
        {
            let hit = match &self.stack[i] {
                Some(x) => f(x),
                None => false,
            };
            if hit {
                return self.remove(i);
            }
            i += 1;
        }
        None
    }

    /// Returns the index and score of the highest-scored element, scanning
    /// from the cursor and stopping early on a score of `usize::MAX`;
    /// `None` when every element scores zero.
    pub fn highest_score<F: Fn(&T) -> usize>(&self, score: F) -> (r: Option<(usize, usize)>)
        requires
            self.wf(),
            forall|t: &T| #[trigger] call_requires(score, (t,)),
        ensures
            r is None ==> forall|j: int|
                0 <= j < self@.len() && self@[j] is Some ==> scored(score, self@[j].unwrap(), 0),
            r matches Some((idx, s)) ==> {
                &&& 0 <= idx < self@.len()
                &&& self@[idx as int] is Some
                &&& s > 0
                &&& scored(score, self@[idx as int].unwrap(), s)
                &&& forall|j: int|
                    0 <= j < idx && self@[j] is Some ==> exists|v: usize|
                        scored(score, self@[j].unwrap(), v) && v < s
                &&& s != usize::MAX ==> forall|j: int|
                    idx < j < self@.len() && self@[j] is Some ==> exists|v: usize|
                        scored(score, self@[j].unwrap(), v) && v <= s
            },
    {
        let mut highest_score: usize = 0;
        let mut best: Option<usize> = None;
        let n = self.stack.len();
        let mut i = self.next_free;

        while i < n
            invariant
                self.wf(),
                self.spec_next_free() <= i <= n,
                n == self@.len(),
                forall|t: &T| #[trigger] call_requires(score, (t,)),
                highest_score != usize::MAX,
                best is None ==> highest_score == 0,
                best is None ==> forall|j: int|
                    0 <= j < i && self@[j] is Some ==> scored(score, self@[j].unwrap(), 0),
                best matches Some(idx) ==> {
                    &&& self.spec_next_free() <= idx < i
                    &&& self@[idx as int] is Some
                    &&& highest_score > 0
                    &&& scored(score, self@[idx as int].unwrap(), highest_score)
                    &&& forall|j: int|
                        0 <= j < idx && self@[j] is Some ==> exists|v: usize|
                            scored(score, self@[j].unwrap(), v) && v < highest_score
                    &&& forall|j: int|
                        idx < j < i && self@[j] is Some ==> exists|v: usize|
                            scored(score, self@[j].unwrap(), v) && v <= highest_score
                },
            decreases n - i,
        {
            let got = match &self.stack[i] {
                Some(x) => Some(score(x)),
                None => None,
            };
            if let Some(sc) = got {
                proof {
                    assert(scored(score, self@[i as int].unwrap(), sc));
                }
                if sc > highest_score {
                    proof {
                        if best is Some {
                            let pidx = best.unwrap() as int;
                            assert forall|j: int| 0 <= j < i && self@[j] is Some implies exists|v: usize|
                                scored(score, self@[j].unwrap(), v) && v < sc by {
                                if j < pidx {
                                    let v = choose|v: usize|
                                        scored(score, self@[j].unwrap(), v) && v < highest_score;
                                    assert(scored(score, self@[j].unwrap(), v) && v < sc);
                                } else if j == pidx {
                                    assert(scored(score, self@[j].unwrap(), highest_score)
                                        && highest_score < sc);
                                } else {
                                    let v = choose|v: usize|
                                        scored(score, self@[j].unwrap(), v) && v <= highest_score;
                                    assert(scored(score, self@[j].unwrap(), v) && v < sc);
                                }
                            }
                        } else {
                            assert forall|j: int| 0 <= j < i && self@[j] is Some implies exists|v: usize|
                                scored(score, self@[j].unwrap(), v) && v < sc by {
                                assert(scored(score, self@[j].unwrap(), 0) && 0 < sc);
                            }
                        }
                    }
                    best = Some(i);
                    highest_score = sc;
                }
                if highest_score == usize::MAX {
                    return match best {
                        Some(idx) => Some((idx, usize::MAX)),
                        None => None,
                    };
                }
            }
            i += 1;
        }

        if highest_score == 0 {
            return None;
        }

        match best {
            Some(idx) => Some((idx, highest_score)),
            None => None,
        }
    }

    /// Whether no value is left in any slot. Removal clears slots in place,
    /// so this scans for a surviving value from the cursor on.
    pub fn is_empty(&self) -> (r: bool)
        requires
            self.wf(),
        ensures
            r == (forall|i: int| 0 <= i < self@.len() ==> (#[trigger] self@[i]) is None),
    {
        let n = self.stack.len();
        let mut i = self.next_free;
        while i < n
            invariant
                self.wf(),
                self.spec_next_free() <= i <= n,
                n == self@.len(),
                forall|j: int| 0 <= j < i ==> (#[trigger] self@[j]) is None,
            decreases n - i,
        {
            if self.stack[i].is_some() {
                return false;
            }
            i += 1;
        }
        true
    }

    pub fn raw_len(&self) -> (n: usize)
        ensures
            n == self@.len(),
    {
        self.stack.len()
    }

    /// Position of the cursor: every slot left of it is already empty.
    pub fn next_free(&self) -> (n: usize)
        ensures
            n == self.spec_next_free(),
    {
        self.next_free
    }
}

} // verus!
