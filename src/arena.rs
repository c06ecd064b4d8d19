use vstd::prelude::*;

verus! {

#[verifier::external_type_specification]
#[verifier::external_body]
#[verifier::reject_recursive_types(T)]
pub struct ExGenArena<T>(generational_arena::Arena<T>);

/// A slot position paired with the generation that was current when the slot
/// was filled. A handle whose slot has since been emptied no longer resolves.
#[derive(PartialEq, Eq, Structural, Clone, Copy, Debug, Hash)]
pub struct Handle {
    pub slot: usize,
    pub generation: u64,
}

impl Handle {
    /// A handle that no arena ever hands out.
    pub fn dangling() -> (r: Handle)
        ensures
            r.slot == usize::MAX && r.generation == u64::MAX,
    {
        Handle { slot: usize::MAX, generation: u64::MAX }
    }
}

/// A generational slot arena. Its contents are modelled as a map from the
/// handles that currently resolve to the values they resolve to.
#[verifier::reject_recursive_types(T)]
pub struct Store<T> {
    inner: generational_arena::Arena<T>,
    contents: Ghost<Map<Handle, T>>,
}

impl<T> View for Store<T> {
    type V = Map<Handle, T>;

    closed spec fn view(&self) -> Map<Handle, T> {
        self.contents@
    }
}

impl<T> Store<T> {
    /// Relies on `generational_arena::Arena::new`: a new arena holds nothing.
    #[verifier::external_body]
    pub fn new() -> (r: Store<T>)
        ensures
            r@.dom() == Set::<Handle>::empty(),
    {
        Store { inner: generational_arena::Arena::new(), contents: Ghost(Map::empty()) }
    }

    /// Relies on `generational_arena::Arena::insert`: the value is stored under
    /// a handle that resolved to nothing before.
    #[verifier::external_body]
    pub fn insert(&mut self, value: T) -> (r: Handle)
        ensures
            !old(self)@.contains_key(r),
            final(self)@ == old(self)@.insert(r, value),
    {
        let (slot, generation) = self.inner.insert(value).into_raw_parts();
        Handle { slot, generation }
    }

    /// Relies on `generational_arena::Arena::remove`: a live handle's value is
    /// taken out and handed back; a stale one changes nothing.
    #[verifier::external_body]
    pub fn remove(&mut self, h: Handle) -> (r: Option<T>)
        ensures
            old(self)@.contains_key(h) ==> r == Some(old(self)@[h]) && final(self)@ == old(
                self,
            )@.remove(h),
            !old(self)@.contains_key(h) ==> r.is_none() && final(self)@ == old(self)@,
    {
        self.inner.remove(generational_arena::Index::from_raw_parts(h.slot, h.generation))
    }

    /// Relies on `generational_arena::Arena::get`: a live handle resolves to its
    /// value, a stale one to nothing.
    #[verifier::external_body]
    pub fn get(&self, h: Handle) -> (r: Option<&T>)
        ensures
            r.is_some() == self@.contains_key(h),
            r.is_some() ==> *r.unwrap() == self@[h],
    {
        self.inner.get(generational_arena::Index::from_raw_parts(h.slot, h.generation))
    }

    /// Relies on `generational_arena::Arena::get_mut`: overwrites the value of a
    /// live handle; a stale handle changes nothing.
    #[verifier::external_body]
    pub fn set(&mut self, h: Handle, value: T) -> (r: bool)
        ensures
            r == old(self)@.contains_key(h),
            r ==> final(self)@ == old(self)@.insert(h, value),
            !r ==> final(self)@ == old(self)@,
    {
        match self.inner.get_mut(generational_arena::Index::from_raw_parts(h.slot, h.generation)) {
            Some(slot) => {
                *slot = value;
                true
            },
            None => false,
        }
    }

    /// Relies on `generational_arena::Arena::get_mut`: puts `value` in place of
    /// the value of a live handle and hands the old one back; a stale handle
    /// changes nothing.
    #[verifier::external_body]
    pub fn replace(&mut self, h: Handle, value: T) -> (r: Option<T>)
        ensures
            old(self)@.contains_key(h) ==> r == Some(old(self)@[h]) && final(self)@ == old(
                self,
            )@.insert(h, value),
            !old(self)@.contains_key(h) ==> r.is_none() && final(self)@ == old(self)@,
    {
        match self.inner.get_mut(generational_arena::Index::from_raw_parts(h.slot, h.generation)) {
            Some(slot) => Some(std::mem::replace(slot, value)),
            None => None,
        }
    }

    /// Relies on `generational_arena::Arena::len`: the number of live values.
    #[verifier::external_body]
    pub fn len(&self) -> (r: usize)
        ensures
            r == self@.dom().len(),
    {
        self.inner.len()
    }

    /// Relies on `generational_arena::Arena::iter`: every live handle, once
    /// each, in ascending slot order (it walks the slots from the first).
    #[verifier::external_body]
    pub fn handles(&self) -> (r: Vec<Handle>)
        ensures
            r@.no_duplicates(),
            forall|i: int, j: int| 0 <= i < j < r@.len() ==> (#[trigger] r@[i]).slot < (#[trigger] r@[j]).slot,
            forall|h: Handle| r@.contains(h) <==> self@.contains_key(h),
    {
        self.inner.iter().map(
            |(i, _)|
                {
                    let (slot, generation) = i.into_raw_parts();
                    Handle { slot, generation }
                },
        ).collect()
    }
}

impl<T: Clone> Store<T> {
    /// Relies on `generational_arena::Arena::clone`: the same handles, each
    /// resolving to a clone of its value.
    #[verifier::external_body]
    pub fn duplicate(&self) -> (r: Store<T>)
        ensures
            r@.dom() == self@.dom(),
            forall|h: Handle| #[trigger] self@.contains_key(h) ==> cloned(self@[h], r@[h]),
    {
        Store { inner: self.inner.clone(), contents: Ghost(self.contents@) }
    }
}

} // verus!
