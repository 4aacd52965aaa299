use vstd::prelude::*;

verus! {

/// What a raycast skips and prefers.
pub struct RaycastParameters {
    pub ignore: Vec<usize>,
    pub select_foreground: bool,
    pub respect_solid: bool,
}

impl RaycastParameters {
    pub fn new() -> (p: Self)
        ensures
            p.ignore@ == Seq::<usize>::empty(),
            !p.respect_solid,
            !p.select_foreground,
    {
        Self { ignore: Vec::new(), respect_solid: false, select_foreground: false }
    }

    pub fn ignore(self, ignore: Vec<usize>) -> (p: Self)
        ensures
            p.ignore@ == ignore@,
            p.respect_solid == self.respect_solid,
            p.select_foreground == self.select_foreground,
    {
        let mut this = self;
        this.ignore = ignore;
        this
    }

    pub fn respect_solid(self) -> (p: Self)
        ensures
            p.ignore@ == self.ignore@,
            p.respect_solid,
            p.select_foreground == self.select_foreground,
    {
        let mut this = self;
        this.respect_solid = true;
        this
    }

    pub fn select_foreground(self) -> (p: Self)
        ensures
            p.ignore@ == self.ignore@,
            p.respect_solid == self.respect_solid,
            p.select_foreground,
    {
        let mut this = self;
        this.select_foreground = true;
        this
    }

    /// Whether a raycast looks at collider `index`, which is `solid` or not and in the
    /// foreground or not, in its pass over the foreground colliders (`foreground_pass`) or
    /// in its pass over all of them: never at an ignored collider, not at one that is not
    /// solid where solidity is respected, and only at foreground colliders in the foreground
    /// pass.
    pub fn admits(&self, index: usize, solid: bool, foreground: bool, foreground_pass: bool) -> (b: bool)
        ensures
            b == (!self.ignore@.contains(index) && (solid || !self.respect_solid) && (foreground || !foreground_pass)),
    {
        let mut i: usize = 0;
        while i < self.ignore.len()
            invariant
                i <= self.ignore@.len(),
                forall|j: int| 0 <= j < i ==> self.ignore@[j] != index,
            decreases self.ignore@.len() - i,
        {
            if self.ignore[i] == index {
                assert(self.ignore@[i as int] == index);
                return false;
            }
            i += 1;
        }
        (solid || !self.respect_solid) && (foreground || !foreground_pass)
    }
}

/// The slot `add_collider` fills: the first empty one, or a new one at the end.
pub open spec fn first_free<C>(colliders: Seq<Option<C>>) -> nat
    decreases colliders.len(),
{
    if colliders.len() == 0 {
        0
    } else if colliders[0] is None {
        0
    } else {
        1 + first_free(colliders.drop_first())
    }
}

pub proof fn lemma_first_free<C>(colliders: Seq<Option<C>>)
    ensures
        first_free(colliders) <= colliders.len(),
        first_free(colliders) < colliders.len() ==> colliders[first_free(colliders) as int] is None,
        forall|i: int| 0 <= i < first_free(colliders) ==> colliders[i] is Some,
    decreases colliders.len(),
{
    if colliders.len() > 0 && colliders[0] is Some {
        lemma_first_free(colliders.drop_first());
        assert forall|i: int| 0 <= i < first_free(colliders) implies colliders[i] is Some by {
            if i > 0 {
                assert(colliders[i] == colliders.drop_first()[i - 1]);
            }
        }
    }
}

/// The index of the first empty slot, or the number of slots if none is empty: where a new
/// item goes, in a store whose removed items leave empty slots.
pub fn free_slot<T>(slots: &Vec<Option<T>>) -> (index: usize)
    ensures
        index == first_free(slots@),
{
    proof { lemma_first_free(slots@); }
    let mut i: usize = 0;
    while i < slots.len()
        invariant
            i <= slots@.len(),
            forall|j: int| 0 <= j < i ==> slots@[j] is Some,
        decreases slots@.len() - i,
    {
        if slots[i].is_none() {
            proof {
                lemma_first_free(slots@);
                if first_free(slots@) < i {
                    assert(slots@[first_free(slots@) as int] is Some);
                }
                if first_free(slots@) > i {
                    assert(slots@[i as int] is Some);
                }
            }
            return i;
        }
        i += 1;
    }
    proof {
        lemma_first_free(slots@);
        if first_free(slots@) < slots@.len() {
            assert(slots@[first_free(slots@) as int] is Some);
        }
    }
    slots.len()
}

/// The colliders of a scene; a removed collider leaves an empty slot, so that the indices
/// of the others stay valid.
pub struct PhysicalScene<C> {
    pub colliders: Vec<Option<C>>,
}

impl<C> PhysicalScene<C> {
    pub fn new() -> (s: Self)
        ensures
            s.colliders@ == Seq::<Option<C>>::empty(),
    {
        Self { colliders: Vec::new() }
    }

    /// Puts the collider in the first empty slot, or in a new slot at the end, and returns
    /// the slot's index.
    pub fn add_collider(&mut self, collider: C) -> (index: usize)
        ensures
            index == first_free(old(self).colliders@),
            index < old(self).colliders@.len() ==> final(self).colliders@ == old(self).colliders@.update(index as int, Some(collider)),
            index == old(self).colliders@.len() ==> final(self).colliders@ == old(self).colliders@.push(Some(collider)),
    {
        let i = free_slot(&self.colliders);
        if i < self.colliders.len() {
            self.colliders.set(i, Some(collider));
            i
        } else {
            self.colliders.push(Some(collider));
            i
        }
    }

    /// Empties the slot at `index`; an error when there is no such slot.
    pub fn remove_collider(&mut self, index: usize) -> (r: Result<(), String>)
        ensures
            index < old(self).colliders@.len() ==> r is Ok && final(self).colliders@ == old(self).colliders@.update(index as int, None),
            index >= old(self).colliders@.len() ==> r is Err && r->Err_0@ == "Index out of bounds"@ && final(self).colliders@ == old(self).colliders@,
    {
        if index < self.colliders.len() {
            self.colliders.set(index, None);
            Ok(())
        } else {
            Err(String::from_str("Index out of bounds"))
        }
    }
}


/// Law: after the slot at `index` is emptied, the next collider added goes into that slot or
/// an earlier one; it never grows the scene.
pub proof fn law_remove_then_add_reuses<C>(colliders: Seq<Option<C>>, index: int)
    requires
        0 <= index < colliders.len(),
    ensures
        first_free(colliders.update(index, None)) <= index,
{
    let c = colliders.update(index, None);
    lemma_first_free(c);
    if first_free(c) > index {
        assert(c[index] is Some);
    }
}

/// Law: adding a collider never disturbs the slots of the others, and its slot was empty
/// (or new).
pub proof fn law_add_keeps_others<C>(colliders: Seq<Option<C>>)
    ensures
        first_free(colliders) <= colliders.len(),
        first_free(colliders) < colliders.len() ==> colliders[first_free(colliders) as int] is None,
{
    lemma_first_free(colliders);
}

} // verus!
