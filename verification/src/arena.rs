use vstd::prelude::*;

verus! {

/// An element's unique identifier.
///
/// An `ElementId` is unique across the whole virtual DOM, but not across
/// time: once an element is reclaimed its identifier is reused for a future
/// element. The value `0` is reserved for the root element and must never be
/// reclaimed.
#[derive(Clone, Copy, Debug, PartialEq, Eq, PartialOrd, Ord, Hash, Default, Structural)]
pub struct ElementId(pub usize);

/// Identifier of a "bubble": the record describing where an element identity
/// is currently realised. Created lazily, so an element may exist without
/// one; reused over time like `ElementId`.
#[derive(Clone, Copy, Debug, PartialEq, Eq, PartialOrd, Ord, Hash, Default, Structural)]
pub struct BubbleId(pub usize);

/// Identifier of a mounted component instance.
#[derive(Clone, Copy, Debug, PartialEq, Eq, PartialOrd, Ord, Hash, Default, Structural)]
pub struct ScopeId(pub usize);

/// Identifier of a template held by the template store; bubbles refer to
/// templates through this stable index rather than through a borrowed
/// pointer, so a bubble can outlive any one template instance.
#[derive(Clone, Copy, Debug, PartialEq, Eq, PartialOrd, Ord, Hash, Default, Structural)]
pub struct TemplateId(pub usize);

/// The pathway of a real element inside its template: child indices from the
/// template root, one byte per level.
#[derive(Clone, Debug)]
pub struct ElementPath {
    pub path: Vec<u8>,
}

/// Where an element identity is currently realised: a path inside a template,
/// the owning template, and the scope the element belongs to.
#[derive(Clone, Debug)]
pub struct ElementRef {
    pub path: ElementPath,
    pub template: TemplateId,
    pub scope: ScopeId,
}

/// A fatal invariant violation signalled by the arena; the calling layer has
/// a structural bug and must not continue past it.
#[derive(Clone, Copy, Debug, PartialEq, Eq, Structural)]
pub enum ArenaError {
    /// An attempt to reclaim the reserved root element identity.
    RootReclaim,
}

impl ElementPath {
    /// Whether `small` is a prefix of this path, i.e. this path lies in the
    /// subtree rooted at `small`.
    pub fn is_decendant(&self, small: &[u8]) -> (r: bool)
        ensures
            r == (small@.len() <= self.path@.len() && small@ == self.path@.subrange(
                0,
                small@.len() as int,
            )),
    {
        let m = small.len();
        if m > self.path.len() {
            proof {
                assert(small@.len() > self.path@.len());
            }
            return false;
        }
        let mut i: usize = 0;
        while i < m
            invariant
                0 <= i <= m,
                m == small@.len(),
                m <= self.path@.len(),
                forall|j: int| 0 <= j < i ==> small@[j] == self.path@[j],
            decreases m - i,
        {
            if small[i] != self.path[i] {
                proof {
                    assert(small@[i as int] != self.path@.subrange(0, m as int)[i as int]);
                }
                return false;
            }
            i += 1;
        }
        proof {
            assert(small@ =~= self.path@.subrange(0, m as int));
        }
        true
    }

    /// Whether this path and `other` hold the same bytes.
    pub fn path_eq(&self, other: &[u8]) -> (r: bool)
        ensures
            r == (self.path@ == other@),
    {
        let m = self.path.len();
        if m != other.len() {
            return false;
        }
        let mut i: usize = 0;
        while i < m
            invariant
                0 <= i <= m,
                m == self.path@.len(),
                m == other@.len(),
                forall|j: int| 0 <= j < i ==> self.path@[j] == other@[j],
            decreases m - i,
        {
            if self.path[i] != other[i] {
                return false;
            }
            i += 1;
        }
        proof {
            assert(self.path@ =~= other@);
        }
        true
    }
}

} // verus!
