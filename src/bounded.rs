use vstd::prelude::*;

use crate::compact::{compact_bytes, compact_encoded_size};

verus! {

/// A vector of `T` that holds at most `S` elements.
///
/// Every constructor and mutator that checks the bound keeps `wf()`; only
/// `force_from` can build a value that breaks it.
#[derive(Clone, Debug)]
pub struct BoundedVec<T, const S: u32> {
    inner: Vec<T>,
}

impl<T, const S: u32> View for BoundedVec<T, S> {
    type V = Seq<T>;

    closed spec fn view(&self) -> Seq<T> {
        self.inner@
    }
}

impl<T, const S: u32> BoundedVec<T, S> {
    /// The length respects the bound.
    pub open spec fn wf(&self) -> bool {
        self@.len() <= S
    }

    fn unchecked_from(t: Vec<T>) -> (r: Self)
        ensures
            r@ == t@,
    {
        BoundedVec { inner: t }
    }

    /// The bound of this type.
    pub fn bound() -> (r: usize)
        ensures
            r == S,
    {
        S as usize
    }

    /// Consumes the vector and hands back the elements, free of the bound.
    pub fn into_inner(self) -> (r: Vec<T>)
        ensures
            r@ == self@,
    {
        self.inner
    }

    /// Pushes `element` at the end if there is room; otherwise leaves the
    /// vector as it was and fails.
    pub fn try_push(&mut self, element: T) -> (r: Result<(), ()>)
        ensures
            r is Ok <==> Self::pushed(old(self)@, element) is Some,
            r is Ok ==> Some(final(self)@) == Self::pushed(old(self)@, element),
            r is Err ==> final(self)@ == old(self)@,
            old(self).wf() ==> final(self).wf(),
    {
        if self.inner.len() < Self::bound() {
            self.inner.push(element);
            Ok(())
        } else {
            Err(())
        }
    }

    /// Builds the vector from `t` without checking the bound. A caller that
    /// hands over more than `S` elements gets a value that is not `wf()` and
    /// must restore the bound itself; `scope` names the caller, for its own
    /// diagnostics.
    pub fn force_from(t: Vec<T>, scope: Option<&str>) -> (r: Self)
        ensures
            r@ == t@,
            t@.len() <= S ==> r.wf(),
    {
        let _ = scope;
        Self::unchecked_from(t)
    }

    /// Builds the vector from `t` if `t` respects the bound.
    pub fn try_from(t: Vec<T>) -> (r: Result<Self, ()>)
        ensures
            t@.len() <= S <==> r is Ok,
            r matches Ok(b) ==> b@ == t@ && b.wf(),
    {
        if t.len() <= Self::bound() {
            Ok(Self::unchecked_from(t))
        } else {
            Err(())
        }
    }

    /// The number of elements.
    pub fn len(&self) -> (r: usize)
        ensures
            r == self@.len(),
    {
        self.inner.len()
    }

    /// Whether there is no element.
    pub fn is_empty(&self) -> (r: bool)
        ensures
            r == (self@.len() == 0),
    {
        self.inner.len() == 0
    }

    /// The elements, read-only.
    pub fn as_vec(&self) -> (r: &Vec<T>)
        ensures
            r@ == self@,
    {
        &self.inner
    }

    /// The element at `index`.
    pub fn get(&self, index: usize) -> (r: &T)
        requires
            index < self@.len(),
        ensures
            *r == self@[index as int],
    {
        &self.inner[index]
    }

    /// Removes the element at `index`, shifting those after it to the left.
    pub fn remove(&mut self, index: usize)
        requires
            index < old(self)@.len(),
        ensures
            final(self)@ == old(self)@.remove(index as int),
            old(self).wf() ==> final(self).wf(),
    {
        self.inner.remove(index);
    }

    /// Removes the element at `index` and puts the last element in its place.
    pub fn swap_remove(&mut self, index: usize)
        requires
            index < old(self)@.len(),
        ensures
            final(self)@ == old(self)@.update(index as int, old(self)@.last()).drop_last(),
            old(self).wf() ==> final(self).wf(),
    {
        self.inner.swap_remove(index);
    }

    /// Inserts `element` at `index` if there is room, shifting the elements
    /// from `index` on to the right; otherwise leaves the vector as it was and
    /// fails, whatever `index` is.
    pub fn try_insert(&mut self, index: usize, element: T) -> (r: Result<(), ()>)
        requires
            old(self)@.len() < S ==> index <= old(self)@.len(),
        ensures
            old(self)@.len() < S ==> r is Ok && final(self)@ == old(self)@.insert(
                index as int,
                element,
            ),
            old(self)@.len() >= S ==> r is Err && final(self)@ == old(self)@,
            old(self).wf() ==> final(self).wf(),
    {
        if self.inner.len() < Self::bound() {
            self.inner.insert(index, element);
            Ok(())
        } else {
            Err(())
        }
    }

    /// Keeps the elements for which `f` holds, in their order, and drops the
    /// others. `f` must answer the same for the same element.
    pub fn retain<F: Fn(&T) -> bool>(&mut self, f: F)
        requires
            forall|x: &T| #[trigger] f.requires((x,)),
            forall|x: &T, a: bool, b: bool|
                #[trigger] f.ensures((x,), a) && #[trigger] f.ensures((x,), b) ==> a == b,
        ensures
            final(self)@ == old(self)@.filter(|x: T| f.ensures((&x,), true)),
            old(self).wf() ==> final(self).wf(),
    {
        let ghost orig = self@;
        let ghost keep = |x: T| f.ensures((&x,), true);
        let mut rest: Vec<T> = Vec::new();
        std::mem::swap(&mut rest, &mut self.inner);
        let mut stack: Vec<T> = Vec::new();
        while rest.len() > 0
            invariant
                rest@ == orig.take(rest@.len() as int),
                stack@.len() + rest@.len() == orig.len(),
                forall|i: int| 0 <= i < stack@.len() ==> stack@[i] == orig[orig.len() - 1 - i],
            decreases rest@.len(),
        {
            let x = rest.pop().unwrap();
            stack.push(x);
            assert(rest@ =~= orig.take(rest@.len() as int));
        }
        let mut kept: Vec<T> = Vec::new();
        while stack.len() > 0
            invariant
                stack@.len() <= orig.len(),
                forall|i: int| 0 <= i < stack@.len() ==> stack@[i] == orig[orig.len() - 1 - i],
                kept@ == orig.take(orig.len() - stack@.len()).filter(keep),
                forall|x: &T| #[trigger] f.requires((x,)),
                forall|x: &T, a: bool, b: bool|
                    #[trigger] f.ensures((x,), a) && #[trigger] f.ensures((x,), b) ==> a == b,
                keep == (|x: T| f.ensures((&x,), true)),
            decreases stack@.len(),
        {
            let ghost k = orig.len() - stack@.len();
            let x = stack.pop().unwrap();
            proof {
                assert(x == orig[k]);
                assert(orig.take(k + 1) =~= orig.take(k).push(x));
                orig.take(k).lemma_filter_push(x, keep);
            }
            let b = f(&x);
            assert(b == keep(x));
            if b {
                kept.push(x);
            }
        }
        assert(orig.take(orig.len() as int) =~= orig);
        proof {
            broadcast use vstd::seq_lib::group_filter_ensures;

            assert(orig.filter(keep).len() <= orig.len());
        }
        self.inner = kept;
    }

    /// Hands the elements to `mutate` and keeps what it returns if that
    /// respects the bound; otherwise drops it and returns `None`.
    pub fn try_mutate<F: FnOnce(Vec<T>) -> Vec<T>>(self, mutate: F) -> (r: Option<Self>)
        requires
            forall|v: Vec<T>| v@ == self@ ==> mutate.requires((v,)),
        ensures
            exists|v: Vec<T>, w: Vec<T>|
                {
                    &&& v@ == self@
                    &&& mutate.ensures((v,), w)
                    &&& w@.len() <= S ==> (r matches Some(b) && b@ == w@ && b.wf())
                    &&& w@.len() > S ==> r is None
                },
    {
        let v = self.inner;
        let w = mutate(v);
        if w.len() <= Self::bound() {
            Some(Self::unchecked_from(w))
        } else {
            None
        }
    }
}

impl<T, const S: u32> BoundedVec<T, S> {
    /// The largest size that the encoding of a vector of this type can have
    /// when each element encodes to at most `element_max` bytes, saturated at
    /// `usize::MAX`.
    pub open spec fn spec_max_encoded_len(element_max: nat) -> nat {
        let total = compact_bytes(S).len() + (S as nat) * element_max;
        if total > usize::MAX {
            usize::MAX as nat
        } else {
            total
        }
    }

    /// The largest size that the encoding of a vector of this type can have,
    /// where each element encodes to at most `element_max` bytes: the size of
    /// the compact bound plus the bound times `element_max`, saturated at
    /// `usize::MAX`.
    pub fn max_encoded_len(element_max: usize) -> (r: usize)
        ensures
            r == Self::spec_max_encoded_len(element_max as nat),
    {
        let prefix = compact_encoded_size(S);
        let body: usize = match (S as usize).checked_mul(element_max) {
            Some(m) => m,
            None => usize::MAX,
        };
        proof {
            assert(S * element_max >= 0) by (nonlinear_arith);
        }
        prefix.saturating_add(body)
    }

    /// What a push of `x` onto `s` gives: the longer sequence where there is
    /// room, `None` where `s` already holds `S` elements or more.
    pub open spec fn pushed(s: Seq<T>, x: T) -> Option<Seq<T>> {
        if s.len() < S {
            Some(s.push(x))
        } else {
            None
        }
    }

    /// The sequence reached by pushing each of `xs` in turn onto `s`, and how
    /// many of those pushes succeeded.
    pub open spec fn push_all(s: Seq<T>, xs: Seq<T>) -> (Seq<T>, nat)
        decreases xs.len(),
    {
        if xs.len() == 0 {
            (s, 0)
        } else {
            let (t, n) = Self::push_all(s, xs.drop_last());
            match Self::pushed(t, xs.last()) {
                Some(u) => (u, n + 1),
                None => (t, n),
            }
        }
    }

    /// Pushing onto an empty vector succeeds for the first `S` elements and
    /// for no more: the vector then holds the first `S` of them (all of them
    /// if there are fewer) and stays at that length.
    pub proof fn lemma_push_all_from_empty(xs: Seq<T>)
        ensures
            Self::push_all(Seq::empty(), xs).1 == if xs.len() < S {
                xs.len()
            } else {
                S as nat
            },
            Self::push_all(Seq::empty(), xs).0 == if xs.len() < S {
                xs
            } else {
                xs.take(S as int)
            },
        decreases xs.len(),
    {
        if xs.len() > 0 {
            Self::lemma_push_all_from_empty(xs.drop_last());
            if xs.len() <= S {
                assert(xs.drop_last().push(xs.last()) =~= xs);
            } else {
                assert(xs.drop_last().take(S as int) =~= xs.take(S as int));
            }
        }
    }
}

/// Swap-removing the element at `i` keeps every other element: what is left,
/// with the removed element added back, is the multiset of elements from
/// before.
pub proof fn lemma_swap_remove_keeps_others<T>(s: Seq<T>, i: int)
    requires
        0 <= i < s.len(),
    ensures
        s.update(i, s.last()).drop_last().to_multiset().insert(s[i]) =~= s.to_multiset(),
{
    broadcast use vstd::seq_lib::group_to_multiset_ensures;

    let n = s.len() - 1;
    let d = s.drop_last();
    assert(s =~= d.push(s[n]));
    if i == n {
        assert(s.update(i, s.last()).drop_last() =~= d);
    } else {
        let t = d.remove(i).insert(i, s[n]);
        assert(s.update(i, s.last()).drop_last() =~= t);
        vstd::seq_lib::to_multiset_remove(d, i);
        vstd::seq_lib::to_multiset_insert(d.remove(i), i, s[n]);
        assert(d[i] == s[i]);
        assert(d.to_multiset().count(s[i]) > 0);
    }
}

impl<T, const S: u32> Default for BoundedVec<T, S> {
    /// The empty vector, which respects any bound.
    fn default() -> (r: Self)
        ensures
            r@ == Seq::<T>::empty(),
            r.wf(),
    {
        Self::unchecked_from(Vec::new())
    }
}


impl<T: PartialEq, const S: u32> PartialEq for BoundedVec<T, S> {
    /// Equal when the elements are equal; the bound is the type's.
    fn eq(&self, other: &Self) -> (r: bool) {
        self.inner == other.inner
    }
}

impl<T: PartialEq, const S: u32> vstd::std_specs::cmp::PartialEqSpecImpl for BoundedVec<T, S> {
    open spec fn obeys_eq_spec() -> bool {
        <T as vstd::std_specs::cmp::PartialEqSpec>::obeys_eq_spec()
    }

    closed spec fn eq_spec(&self, other: &Self) -> bool {
        vstd::std_specs::cmp::PartialEqSpec::eq_spec(&self.inner, &other.inner)
    }
}

impl<T: PartialEq, const S: u32> PartialEq<Vec<T>> for BoundedVec<T, S> {
    /// Equal when the elements are those of `other`.
    fn eq(&self, other: &Vec<T>) -> (r: bool) {
        self.inner == *other
    }
}

impl<T: PartialEq, const S: u32> vstd::std_specs::cmp::PartialEqSpecImpl<Vec<T>> for BoundedVec<T, S> {
    open spec fn obeys_eq_spec() -> bool {
        <T as vstd::std_specs::cmp::PartialEqSpec>::obeys_eq_spec()
    }

    closed spec fn eq_spec(&self, other: &Vec<T>) -> bool {
        vstd::std_specs::cmp::PartialEqSpec::eq_spec(&self.inner, other)
    }
}

} // verus!
