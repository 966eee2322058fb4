//! Observers: values read out of a world, each read reporting whether the value may have
//! changed since the previous read.

use crate::change_tracking::{register_at, ComponentUpdateFuncs};
use crate::runtime::UpdateFunc;
use std::marker::PhantomData;
use vstd::prelude::*;

verus! {

/// Reads a value out of a world of type `W`; `'a` is how long the value may borrow from the
/// observer and the world.
pub trait Observer<'a, W: 'a>: Sized + 'a {
    type Return;

    /// The value a read of `world` returns.
    spec fn spec_value(self, world: W) -> Self::Return;

    /// Whether a read of `world` reports a change.
    spec fn spec_changed(self, world: W) -> bool;

    /// The observer after a read of `world`.
    spec fn spec_next(self, world: W) -> Self;

    /// Reads the value and whether it may have changed.
    fn get(&'a mut self, world: &'a W) -> (r: (Self::Return, bool))
        ensures
            r.0 == old(self).spec_value(*world),
            r.1 == old(self).spec_changed(*world),
            *final(self) == old(self).spec_next(*world),
    ;
}

/// A value that never changes.
pub struct StaticObserver<T>(pub T);

impl<'a, W: 'a, T: 'a> Observer<'a, W> for StaticObserver<T> {
    type Return = &'a T;

    open spec fn spec_value(self, world: W) -> &'a T {
        &self.0
    }

    open spec fn spec_changed(self, world: W) -> bool {
        false
    }

    open spec fn spec_next(self, world: W) -> Self {
        self
    }

    fn get(&'a mut self, world: &'a W) -> (r: (&'a T, bool)) {
        (&self.0, false)
    }
}

/// A function applied to each value an observer reads.
pub trait FnHack<In> {
    type Return;

    /// What the function gives for `x`.
    spec fn spec_call(&self, x: In) -> Self::Return;

    /// Applies the function.
    fn call(&self, x: In) -> (r: Self::Return)
        ensures
            r == self.spec_call(x),
    ;
}

/// The values of an observer, passed through a function.
pub struct MapObserver<O, F>(pub O, pub F);

impl<'a, W: 'a, O: Observer<'a, W>, F: FnHack<O::Return> + 'a> Observer<'a, W> for MapObserver<O, F> {
    type Return = F::Return;

    open spec fn spec_value(self, world: W) -> F::Return {
        self.1.spec_call(self.0.spec_value(world))
    }

    open spec fn spec_changed(self, world: W) -> bool {
        self.0.spec_changed(world)
    }

    open spec fn spec_next(self, world: W) -> Self {
        MapObserver(self.0.spec_next(world), self.1)
    }

    fn get(&'a mut self, world: &'a W) -> (r: (F::Return, bool)) {
        let (val, change) = self.0.get(world);
        (self.1.call(val), change)
    }
}

/// Two observers read together: the pair of their values, changed when either changed.
pub struct And<O1, O2>(pub O1, pub O2);

impl<'a, W: 'a, O1: Observer<'a, W>, O2: Observer<'a, W>> Observer<'a, W> for And<O1, O2> {
    type Return = (O1::Return, O2::Return);

    open spec fn spec_value(self, world: W) -> (O1::Return, O2::Return) {
        (self.0.spec_value(world), self.1.spec_value(world))
    }

    open spec fn spec_changed(self, world: W) -> bool {
        self.0.spec_changed(world) || self.1.spec_changed(world)
    }

    open spec fn spec_next(self, world: W) -> Self {
        And(self.0.spec_next(world), self.1.spec_next(world))
    }

    fn get(&'a mut self, world: &'a W) -> (r: ((O1::Return, O2::Return), bool)) {
        let (v0, c0) = self.0.get(world);
        let (v1, c1) = self.1.get(world);
        ((v0, v1), c0 || c1)
    }
}

/// A reference whose target can be copied out.
pub trait CopyOut {
    type Target;

    /// The value behind the reference.
    spec fn spec_target(&self) -> Self::Target;

    /// Copies the value out.
    fn copy_out(&self) -> (r: Self::Target)
        ensures
            r == self.spec_target(),
    ;
}

impl<'b, T: Copy> CopyOut for &'b T {
    type Target = T;

    open spec fn spec_target(&self) -> T {
        **self
    }

    fn copy_out(&self) -> (r: T) {
        **self
    }
}

/// The values of an observer that reads references, copied out.
pub struct Copied<O>(pub O);

impl<'a, W: 'a, O: Observer<'a, W>> Observer<'a, W> for Copied<O> where O::Return: CopyOut {
    type Return = <O::Return as CopyOut>::Target;

    open spec fn spec_value(self, world: W) -> <O::Return as CopyOut>::Target {
        self.0.spec_value(world).spec_target()
    }

    open spec fn spec_changed(self, world: W) -> bool {
        self.0.spec_changed(world)
    }

    open spec fn spec_next(self, world: W) -> Self {
        Copied(self.0.spec_next(world))
    }

    fn get(&'a mut self, world: &'a W) -> (r: (<O::Return as CopyOut>::Target, bool)) {
        let (val, change) = self.0.get(world);
        (val.copy_out(), change)
    }
}

/// Values whose `clone` gives back the same value.
pub trait ExactClone: Sized {
    /// A copy of `self`.
    fn exact_clone(&self) -> (r: Self)
        ensures
            r == *self,
    ;
}

impl ExactClone for String {
    fn exact_clone(&self) -> (r: String) {
        self.clone()
    }
}

impl ExactClone for u64 {
    fn exact_clone(&self) -> (r: u64) {
        self.clone()
    }
}

impl ExactClone for usize {
    fn exact_clone(&self) -> (r: usize) {
        self.clone()
    }
}

impl ExactClone for bool {
    fn exact_clone(&self) -> (r: bool) {
        self.clone()
    }
}

/// A reference whose target can be cloned out.
pub trait CloneOut {
    type Target;

    /// The value behind the reference.
    spec fn spec_target(&self) -> Self::Target;

    /// Clones the value out.
    fn clone_out(&self) -> (r: Self::Target)
        ensures
            r == self.spec_target(),
    ;
}

impl<'b, T: ExactClone> CloneOut for &'b T {
    type Target = T;

    open spec fn spec_target(&self) -> T {
        **self
    }

    fn clone_out(&self) -> (r: T) {
        (**self).exact_clone()
    }
}

/// The values of an observer that reads references, cloned out.
pub struct Cloned<O>(pub O);

impl<'a, W: 'a, O: Observer<'a, W>> Observer<'a, W> for Cloned<O> where O::Return: CloneOut {
    type Return = <O::Return as CloneOut>::Target;

    open spec fn spec_value(self, world: W) -> <O::Return as CloneOut>::Target {
        self.0.spec_value(world).spec_target()
    }

    open spec fn spec_changed(self, world: W) -> bool {
        self.0.spec_changed(world)
    }

    open spec fn spec_next(self, world: W) -> Self {
        Cloned(self.0.spec_next(world))
    }

    fn get(&'a mut self, world: &'a W) -> (r: (<O::Return as CloneOut>::Target, bool)) {
        let (val, change) = self.0.get(world);
        (val.clone_out(), change)
    }
}

/// A reference to a smart pointer, through which the pointee can be reached.
pub trait DerefOut<'a> {
    type Target: 'a;

    /// The pointee.
    spec fn spec_pointee(&self) -> &'a Self::Target;

    /// Reaches the pointee.
    fn deref_out(&self) -> (r: &'a Self::Target)
        ensures
            r == self.spec_pointee(),
    ;
}

impl<'a, T: 'a> DerefOut<'a> for &'a Box<T> {
    type Target = T;

    open spec fn spec_pointee(&self) -> &'a T {
        &***self
    }

    fn deref_out(&self) -> (r: &'a T) {
        let b: &'a Box<T> = *self;
        &**b
    }
}

/// The values of an observer that reads references to smart pointers, dereferenced.
pub struct Dereffed<O>(pub O);

impl<'a, W: 'a, O: Observer<'a, W>> Observer<'a, W> for Dereffed<O> where O::Return: DerefOut<'a> {
    type Return = &'a <O::Return as DerefOut<'a>>::Target;

    open spec fn spec_value(self, world: W) -> &'a <O::Return as DerefOut<'a>>::Target {
        self.0.spec_value(world).spec_pointee()
    }

    open spec fn spec_changed(self, world: W) -> bool {
        self.0.spec_changed(world)
    }

    open spec fn spec_next(self, world: W) -> Self {
        Dereffed(self.0.spec_next(world))
    }

    fn get(&'a mut self, world: &'a W) -> (r: (&'a <O::Return as DerefOut<'a>>::Target, bool)) {
        let (val, change) = self.0.get(world);
        (val.deref_out(), change)
    }
}

/// Values that can be compared for equality, with `==` meaning the same value.
pub trait SameValue: Sized {
    /// Whether `self` and `other` are the same value.
    fn same(&self, other: &Self) -> (r: bool)
        ensures
            r == (*self == *other),
    ;
}

impl SameValue for u64 {
    fn same(&self, other: &Self) -> (r: bool) {
        *self == *other
    }
}

impl SameValue for usize {
    fn same(&self, other: &Self) -> (r: bool) {
        *self == *other
    }
}

impl SameValue for bool {
    fn same(&self, other: &Self) -> (r: bool) {
        *self == *other
    }
}

impl SameValue for i64 {
    fn same(&self, other: &Self) -> (r: bool) {
        *self == *other
    }
}

/// The last value of an observer, held until a different value arrives: a read reports a
/// change only the first time and when the value differs from the one held.
pub struct Dedup<O, T>(pub Option<T>, pub O);

impl<O, T> Dedup<O, T> {
    /// A deduplicating observer that holds nothing yet.
    pub fn new(inner: O) -> (d: Dedup<O, T>)
        ensures
            d.0 is None,
            d.1 == inner,
    {
        Dedup(None, inner)
    }
}

/// The value held by a deduplicating observer after it was handed `new`: the new value
/// unless one is held and `new` was not reported as a change or equals it.
pub open spec fn dedup_keep<T>(held: Option<T>, new: T, changed: bool) -> (T, bool) {
    match held {
        None => (new, true),
        Some(last) => if !changed || last == new { (last, false) } else { (new, true) },
    }
}

impl<'a, W: 'a, O: Observer<'a, W>> Observer<'a, W> for Dedup<O, O::Return> where O::Return: SameValue {
    type Return = &'a O::Return;

    open spec fn spec_value(self, world: W) -> &'a O::Return {
        &dedup_keep(self.0, self.1.spec_value(world), self.1.spec_changed(world)).0
    }

    open spec fn spec_changed(self, world: W) -> bool {
        dedup_keep(self.0, self.1.spec_value(world), self.1.spec_changed(world)).1
    }

    open spec fn spec_next(self, world: W) -> Self {
        Dedup(Some(dedup_keep(self.0, self.1.spec_value(world), self.1.spec_changed(world)).0), self.1.spec_next(world))
    }

    fn get(&'a mut self, world: &'a W) -> (r: (&'a O::Return, bool)) {
        let (maybe_new, changed) = self.1.get(world);
        let keep_old = match &self.0 {
            None => false,
            Some(last) => !changed || last.same(&maybe_new),
        };
        if !keep_old {
            self.0 = Some(maybe_new);
        }
        (self.0.as_ref().unwrap(), !keep_old)
    }
}

/// Reads a value out of a world.
pub trait WorldReader<'a, W: 'a>: Sized {
    type Value;

    /// The value read from `world`.
    spec fn spec_read(&self, world: W) -> Self::Value;

    /// Reads the value.
    fn read(&self, world: &'a W) -> (r: Self::Value)
        ensures
            r == self.spec_read(*world),
    ;
}

/// A value of the world that belongs to one source, such as a component of an entity. Its
/// reads always report a change; the change tracking of the source decides when it is read.
pub struct SourceObserver<R> {
    pub source: u64,
    pub reader: R,
}

impl<'a, W: 'a, R: WorldReader<'a, W> + 'a> Observer<'a, W> for SourceObserver<R> {
    type Return = R::Value;

    open spec fn spec_value(self, world: W) -> R::Value {
        self.reader.spec_read(world)
    }

    open spec fn spec_changed(self, world: W) -> bool {
        true
    }

    open spec fn spec_next(self, world: W) -> Self {
        self
    }

    fn get(&'a mut self, world: &'a W) -> (r: (R::Value, bool)) {
        (self.reader.read(world), true)
    }
}

/// An observer not yet attached to the sources it reads: attaching it registers an update
/// function with each of them and gives the observer.
pub trait UninitObserver: Sized {
    type Observer;

    /// The sources the update function is attached to, in order.
    spec fn spec_sources(&self) -> Seq<u64>;

    /// The observer that attaching gives.
    spec fn spec_observer(&self) -> Self::Observer;

    /// Attaches `uf` to every source and returns the observer.
    fn register_self(self, trackers: &mut ComponentUpdateFuncs, uf: &UpdateFunc) -> (o: Self::Observer)
        requires
            old(trackers).wf(),
        ensures
            final(trackers).wf(),
            final(trackers).maintained() == old(trackers).maintained(),
            final(trackers).attached() == register_at(old(trackers).attached(), self.spec_sources(), uf.spec_id()),
            o == self.spec_observer(),
    ;
}

/// Attaching to `s1` and then to `s2` is attaching to both in turn.
pub proof fn lemma_register_concat(deps: Map<u64, Seq<u64>>, s1: Seq<u64>, s2: Seq<u64>, id: u64)
    ensures
        register_at(register_at(deps, s1, id), s2, id) == register_at(deps, s1 + s2, id),
    decreases s2.len(),
{
    if s2.len() == 0 {
        assert(s1 + s2 =~= s1);
    } else {
        lemma_register_concat(deps, s1, s2.drop_last(), id);
        assert((s1 + s2).drop_last() =~= s1 + s2.drop_last());
        assert((s1 + s2).last() == s2.last());
    }
}

impl<R> UninitObserver for SourceObserver<R> {
    type Observer = SourceObserver<R>;

    open spec fn spec_sources(&self) -> Seq<u64> {
        seq![self.source]
    }

    open spec fn spec_observer(&self) -> Self {
        *self
    }

    fn register_self(self, trackers: &mut ComponentUpdateFuncs, uf: &UpdateFunc) -> (o: Self) {
        trackers.register(self.source, uf.clone());
        self
    }
}

/// Not yet attached: reads the data of the one entity that a query matches, re-read whenever
/// the source that tracks the query's changes fires.
pub struct UninitSingleObserver<R> {
    pub source: u64,
    pub reader: R,
}

impl<R> UninitObserver for UninitSingleObserver<R> {
    type Observer = SourceObserver<R>;

    open spec fn spec_sources(&self) -> Seq<u64> {
        seq![self.source]
    }

    open spec fn spec_observer(&self) -> SourceObserver<R> {
        SourceObserver { source: self.source, reader: self.reader }
    }

    fn register_self(self, trackers: &mut ComponentUpdateFuncs, uf: &UpdateFunc) -> (o: SourceObserver<R>) {
        trackers.register(self.source, uf.clone());
        SourceObserver { source: self.source, reader: self.reader }
    }
}

impl<T> UninitObserver for StaticObserver<T> {
    type Observer = StaticObserver<T>;

    open spec fn spec_sources(&self) -> Seq<u64> {
        Seq::empty()
    }

    open spec fn spec_observer(&self) -> Self {
        *self
    }

    fn register_self(self, trackers: &mut ComponentUpdateFuncs, uf: &UpdateFunc) -> (o: Self) {
        self
    }
}

impl<UO: UninitObserver, F> UninitObserver for MapObserver<UO, F> {
    type Observer = MapObserver<UO::Observer, F>;

    open spec fn spec_sources(&self) -> Seq<u64> {
        self.0.spec_sources()
    }

    open spec fn spec_observer(&self) -> MapObserver<UO::Observer, F> {
        MapObserver(self.0.spec_observer(), self.1)
    }

    fn register_self(self, trackers: &mut ComponentUpdateFuncs, uf: &UpdateFunc) -> (o: MapObserver<UO::Observer, F>) {
        let obs = self.0.register_self(trackers, uf);
        MapObserver(obs, self.1)
    }
}

impl<UO1: UninitObserver, UO2: UninitObserver> UninitObserver for And<UO1, UO2> {
    type Observer = And<UO1::Observer, UO2::Observer>;

    open spec fn spec_sources(&self) -> Seq<u64> {
        self.0.spec_sources() + self.1.spec_sources()
    }

    open spec fn spec_observer(&self) -> And<UO1::Observer, UO2::Observer> {
        And(self.0.spec_observer(), self.1.spec_observer())
    }

    fn register_self(self, trackers: &mut ComponentUpdateFuncs, uf: &UpdateFunc) -> (o: And<UO1::Observer, UO2::Observer>) {
        let ghost d0 = trackers.attached();
        let ghost s1 = self.0.spec_sources();
        let ghost s2 = self.1.spec_sources();
        let o1 = self.0.register_self(trackers, uf);
        let o2 = self.1.register_self(trackers, uf);
        proof {
            lemma_register_concat(d0, s1, s2, uf.spec_id());
        }
        And(o1, o2)
    }
}

/// Not yet attached: copies out the values of an observer that reads references.
pub struct CopiedTemplate<UO>(pub UO);

impl<UO: UninitObserver> UninitObserver for CopiedTemplate<UO> {
    type Observer = Copied<UO::Observer>;

    open spec fn spec_sources(&self) -> Seq<u64> {
        self.0.spec_sources()
    }

    open spec fn spec_observer(&self) -> Copied<UO::Observer> {
        Copied(self.0.spec_observer())
    }

    fn register_self(self, trackers: &mut ComponentUpdateFuncs, uf: &UpdateFunc) -> (o: Copied<UO::Observer>) {
        Copied(self.0.register_self(trackers, uf))
    }
}

/// Not yet attached: clones out the values of an observer that reads references.
pub struct ClonedTemplate<UO>(pub UO);

impl<UO: UninitObserver> UninitObserver for ClonedTemplate<UO> {
    type Observer = Cloned<UO::Observer>;

    open spec fn spec_sources(&self) -> Seq<u64> {
        self.0.spec_sources()
    }

    open spec fn spec_observer(&self) -> Cloned<UO::Observer> {
        Cloned(self.0.spec_observer())
    }

    fn register_self(self, trackers: &mut ComponentUpdateFuncs, uf: &UpdateFunc) -> (o: Cloned<UO::Observer>) {
        Cloned(self.0.register_self(trackers, uf))
    }
}

/// Not yet attached: dereferences the values of an observer that reads smart pointers.
pub struct DereffedTemplate<UO>(pub UO);

impl<UO: UninitObserver> UninitObserver for DereffedTemplate<UO> {
    type Observer = Dereffed<UO::Observer>;

    open spec fn spec_sources(&self) -> Seq<u64> {
        self.0.spec_sources()
    }

    open spec fn spec_observer(&self) -> Dereffed<UO::Observer> {
        Dereffed(self.0.spec_observer())
    }

    fn register_self(self, trackers: &mut ComponentUpdateFuncs, uf: &UpdateFunc) -> (o: Dereffed<UO::Observer>) {
        Dereffed(self.0.register_self(trackers, uf))
    }
}

/// Not yet attached: holds the values of an observer, see [`Dedup`].
pub struct DedupTemplate<UO, T>(pub UO, pub PhantomData<T>);

impl<UO: UninitObserver, T> UninitObserver for DedupTemplate<UO, T> {
    type Observer = Dedup<UO::Observer, T>;

    open spec fn spec_sources(&self) -> Seq<u64> {
        self.0.spec_sources()
    }

    open spec fn spec_observer(&self) -> Dedup<UO::Observer, T> {
        Dedup(None, self.0.spec_observer())
    }

    fn register_self(self, trackers: &mut ComponentUpdateFuncs, uf: &UpdateFunc) -> (o: Dedup<UO::Observer, T>) {
        Dedup(None, self.0.register_self(trackers, uf))
    }
}

} // verus!
