use vstd::prelude::*;

verus! {

/// A generation-free, index-reusable slot allocator.
///
/// `insert` fills the lowest free slot (or appends a new one) and returns its
/// index; `try_remove` clears a slot and hands the prior value back. An index
/// stays valid until its slot is removed, after which a later `insert` may
/// hand the same index out again.
pub struct SlotTable<T> {
    slots: Vec<Option<T>>,
}

impl<T> View for SlotTable<T> {
    type V = Seq<Option<T>>;

    closed spec fn view(&self) -> Seq<Option<T>> {
        self.slots@
    }
}

/// The slot at `i` exists and holds a value.
pub open spec fn occupied<T>(s: Seq<Option<T>>, i: int) -> bool {
    0 <= i < s.len() && s[i] is Some
}

/// Relates a table before and after `insert`: `i` is the lowest free index
/// (or the old length, when every slot is occupied) and now holds `v`;
/// nothing else moved.
pub open spec fn insert_effect<T>(pre: Seq<Option<T>>, post: Seq<Option<T>>, i: int, v: T) -> bool {
    &&& 0 <= i <= pre.len()
    &&& forall|j: int| 0 <= j < i ==> pre[j] is Some
    &&& if i == pre.len() {
        post == pre.push(Some(v))
    } else {
        pre[i] is None && post == pre.update(i, Some(v))
    }
}

/// Relates a table before and after `try_remove` at `i`: inside the table the
/// slot is cleared and its prior content returned; outside nothing happens.
pub open spec fn remove_effect<T>(pre: Seq<Option<T>>, post: Seq<Option<T>>, i: int, r: Option<T>) -> bool {
    if 0 <= i < pre.len() {
        r == pre[i] && post == pre.update(i, None)
    } else {
        r is None && post == pre
    }
}

/// Identity reuse: after an insert that placed `v1` at `i`, a removal of `i`,
/// and another insert, the second insert hands the same index out again, and
/// the slot then holds the new value — nothing stale survives the reuse.
pub proof fn lemma_identity_reuse<T>(
    s0: Seq<Option<T>>,
    s1: Seq<Option<T>>,
    s2: Seq<Option<T>>,
    s3: Seq<Option<T>>,
    i: int,
    v1: T,
    r: Option<T>,
    j: int,
    v2: T,
)
    requires
        insert_effect(s0, s1, i, v1),
        remove_effect(s1, s2, i, r),
        insert_effect(s2, s3, j, v2),
    ensures
        j == i,
        s3[i] == Some(v2),
{
    assert(0 <= i < s1.len());
    assert(forall|k: int| 0 <= k < i ==> s2[k] == s1[k]);
    assert(s2[i] is None);
    if j < i {
        assert(s2[j] is None);
        assert(s1[j] is Some);
        assert(false);
    }
    if j > i {
        assert(s2[i] is Some);
        assert(false);
    }
}

/// Idempotent double removal: removing an occupied slot yields its value, and
/// removing it again reports the absence without changing anything.
pub proof fn lemma_remove_idempotent<T>(
    s0: Seq<Option<T>>,
    s1: Seq<Option<T>>,
    s2: Seq<Option<T>>,
    i: int,
    r1: Option<T>,
    r2: Option<T>,
)
    requires
        occupied(s0, i),
        remove_effect(s0, s1, i, r1),
        remove_effect(s1, s2, i, r2),
    ensures
        r1 is Some,
        r2 is None,
        s2 == s1,
{
    assert(s2 =~= s1);
}

impl<T> SlotTable<T> {
    pub fn new() -> (t: Self)
        ensures
            t@ == Seq::<Option<T>>::empty(),
    {
        SlotTable { slots: Vec::new() }
    }

    pub fn len(&self) -> (n: usize)
        ensures
            n == self@.len(),
    {
        self.slots.len()
    }

    /// Stores `value` in the lowest free slot, or appends a new slot when
    /// every existing one is occupied; returns the slot's index.
    pub fn insert(&mut self, value: T) -> (i: usize)
        ensures
            insert_effect(old(self)@, final(self)@, i as int, value),
    {
        let n = self.slots.len();
        let mut i: usize = 0;
        while i < n
            invariant
                0 <= i <= n,
                n == self.slots@.len(),
                self.slots@ == old(self).slots@,
                forall|j: int| 0 <= j < i ==> self.slots@[j] is Some,
            decreases n - i,
        {
            if self.slots[i].is_none() {
                self.slots[i] = Some(value);
                return i;
            }
            i += 1;
        }
        self.slots.push(Some(value));
        n
    }

    /// Clears slot `i` and returns its prior value; an out-of-range or
    /// already-empty slot yields `None` without error.
    pub fn try_remove(&mut self, i: usize) -> (r: Option<T>)
        ensures
            remove_effect(old(self)@, final(self)@, i as int, r),
    {
        if i < self.slots.len() {
            let mut taken: Option<T> = None;
            core::mem::swap(&mut taken, &mut self.slots[i]);
            taken
        } else {
            None
        }
    }

    /// Takes the value out of an occupied slot, leaving the slot free.
    pub fn take_at(&mut self, i: usize) -> (r: T)
        requires
            occupied(old(self)@, i as int),
        ensures
            Some(r) == old(self)@[i as int],
            final(self)@ == old(self)@.update(i as int, None),
    {
        let mut taken: Option<T> = None;
        core::mem::swap(&mut taken, &mut self.slots[i]);
        match taken {
            Some(v) => v,
            None => vstd::pervasive::unreached(),
        }
    }

    /// Fills slot `i` with `value`, returning what the slot held before.
    pub fn put_at(&mut self, i: usize, value: T) -> (r: Option<T>)
        requires
            0 <= i < old(self)@.len(),
        ensures
            r == old(self)@[i as int],
            final(self)@ == old(self)@.update(i as int, Some(value)),
    {
        let mut put: Option<T> = Some(value);
        core::mem::swap(&mut put, &mut self.slots[i]);
        put
    }

    /// Reads slot `i`; `None` when the slot is out of range or free.
    pub fn get(&self, i: usize) -> (r: Option<&T>)
        ensures
            (r is Some) == occupied(self@, i as int),
            r matches Some(v) ==> self@[i as int] == Some(*v),
    {
        if i < self.slots.len() {
            match &self.slots[i] {
                Some(v) => Some(v),
                None => None,
            }
        } else {
            None
        }
    }

    pub fn is_occupied(&self, i: usize) -> (r: bool)
        ensures
            r == occupied(self@, i as int),
    {
        i < self.slots.len() && self.slots[i].is_some()
    }
}

} // verus!
