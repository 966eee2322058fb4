//! Lenses: a way to focus on a part of a value, both to read it and to change it in place.

use std::marker::PhantomData;
use vstd::prelude::*;

verus! {

/// Focuses on a part of type `Out` inside a value of type `In`.
pub trait Lens: Sized {
    type In: 'static;
    type Out: 'static;

    /// The part of `whole` this lens focuses on.
    spec fn spec_get(&self, whole: Self::In) -> Self::Out;

    /// `whole` with its focused part replaced by `part`.
    spec fn spec_put(&self, whole: Self::In, part: Self::Out) -> Self::In;

    /// Reading back a part that was put gives that part.
    proof fn get_put(&self, whole: Self::In, part: Self::Out)
        ensures
            self.spec_get(self.spec_put(whole, part)) == part,
    ;

    /// Putting back the part that was read changes nothing.
    proof fn put_get(&self, whole: Self::In)
        ensures
            self.spec_put(whole, self.spec_get(whole)) == whole,
    ;

    /// Reads the focused part.
    fn get<'a>(&self, val: &'a Self::In) -> (r: &'a Self::Out)
        ensures
            *r == self.spec_get(*val),
    ;

    /// Gives mutable access to the focused part; whatever is written there ends up in
    /// the whole.
    fn get_mut<'a>(&self, val: &'a mut Self::In) -> (r: &'a mut Self::Out)
        ensures
            *r == self.spec_get(*old(val)),
            *final(val) == self.spec_put(*old(val), *final(r)),
    ;
}

/// Two lenses, the second focusing inside the part the first focuses on.
#[derive(Clone, Copy)]
pub struct LensMerge<A, B>(pub A, pub B);

/// Composes two lenses: `a` and then `b`.
pub fn lens<A: Lens, B: Lens<In = A::Out>>(a: A, b: B) -> (r: LensMerge<A, B>)
    ensures
        r.0 == a,
        r.1 == b,
{
    LensMerge(a, b)
}

impl<A: Lens, B: Lens<In = A::Out>> Lens for LensMerge<A, B> {
    type In = A::In;
    type Out = B::Out;

    open spec fn spec_get(&self, whole: A::In) -> B::Out {
        self.1.spec_get(self.0.spec_get(whole))
    }

    open spec fn spec_put(&self, whole: A::In, part: B::Out) -> A::In {
        self.0.spec_put(whole, self.1.spec_put(self.0.spec_get(whole), part))
    }

    proof fn get_put(&self, whole: A::In, part: B::Out) {
        let inner = self.1.spec_put(self.0.spec_get(whole), part);
        self.0.get_put(whole, inner);
        self.1.get_put(self.0.spec_get(whole), part);
    }

    proof fn put_get(&self, whole: A::In) {
        self.1.put_get(self.0.spec_get(whole));
        self.0.put_get(whole);
    }

    fn get<'a>(&self, val: &'a A::In) -> (r: &'a B::Out) {
        self.1.get(self.0.get(val))
    }

    fn get_mut<'a>(&self, val: &'a mut A::In) -> (r: &'a mut B::Out) {
        self.1.get_mut(self.0.get_mut(val))
    }
}

/// The lens that focuses on the whole value.
pub struct Identity<T>(pub PhantomData<T>);

impl<T> Identity<T> {
    /// The identity lens.
    pub fn new() -> Identity<T> {
        Identity(PhantomData)
    }
}

impl<T: 'static> Lens for Identity<T> {
    type In = T;
    type Out = T;

    open spec fn spec_get(&self, whole: T) -> T {
        whole
    }

    open spec fn spec_put(&self, whole: T, part: T) -> T {
        part
    }

    proof fn get_put(&self, whole: T, part: T) {
    }

    proof fn put_get(&self, whole: T) {
    }

    fn get<'a>(&self, val: &'a T) -> (r: &'a T) {
        val
    }

    fn get_mut<'a>(&self, val: &'a mut T) -> (r: &'a mut T) {
        val
    }
}

/// Composing lawful lenses gives a lawful lens: what is put through the composition is
/// read back, and putting back what was read changes nothing.
pub proof fn law_merge_is_lawful<A: Lens, B: Lens<In = A::Out>>(m: LensMerge<A, B>, whole: A::In, part: B::Out)
    ensures
        m.spec_get(m.spec_put(whole, part)) == part,
        m.spec_put(whole, m.spec_get(whole)) == whole,
{
    m.get_put(whole, part);
    m.put_get(whole);
}

} // verus!
