//! A typed-index arena: values stored densely and addressed by entity keys,
//! with lookup by position, growth on demand, and stable insertion order.

use vstd::prelude::*;
use std::marker::PhantomData;

verus! {

/// An entity is a typed index into a table of some sort of data.
///
/// A key wraps a position: `key_index` is the position a key stands for,
/// `new` wraps a position, and `index` unwraps it again.
pub trait Entity: Sized + Copy {
    /// The position this key stands for.
    spec fn key_index(self) -> usize;

    /// Wraps a position as a key.
    fn new(i: usize) -> (r: Self)
        ensures
            r.key_index() == i,
    ;

    /// Unwraps a key back to its position.
    fn index(self) -> (r: usize)
        ensures
            r == self.key_index(),
    ;
}

/// A dense table of values addressed by entity keys.
pub struct EntityMap<K, V> {
    keys: PhantomData<K>,
    values: Vec<V>,
}

impl<K, V> View for EntityMap<K, V> {
    type V = Seq<V>;

    closed spec fn view(&self) -> Seq<V> {
        self.values@
    }
}

impl<K, V> EntityMap<K, V> where K: Entity {
    /// An empty table.
    pub fn new() -> (r: Self)
        ensures
            r@ == Seq::<V>::empty(),
    {
        EntityMap { keys: PhantomData, values: Vec::new() }
    }

    /// The number of values stored.
    pub fn len(&self) -> (r: usize)
        ensures
            r == self@.len(),
    {
        self.values.len()
    }

    /// Whether the key's position lies inside the table.
    fn contains_key(&self, k: K) -> (r: bool)
        ensures
            r == (k.key_index() < self@.len()),
    {
        k.index() < self.values.len()
    }

    /// The value at the key's position, or `None` past the end.
    pub fn get(&self, k: K) -> (r: Option<&V>)
        ensures
            (match r {
                Some(v) => k.key_index() < self@.len() && *v == self@[k.key_index() as int],
                None => self@.len() <= k.key_index(),
            }),
    {
        let i = k.index();
        if i < self.values.len() {
            Some(&self.values[i])
        } else {
            None
        }
    }

    /// An iterator over every key of the table, first position first.
    pub fn keys(&self) -> (r: Keys<K>)
        ensures
            r.wf(),
            r.spec_pos() == 0,
            r.spec_end() == self@.len(),
    {
        Keys { pos: 0, len: self.values.len(), key: PhantomData }
    }

    /// Appends a value and returns the key of its slot.
    pub fn push(&mut self, v: V) -> (k: K)
        ensures
            final(self)@ == old(self)@.push(v),
            k.key_index() == old(self)@.len(),
    {
        let k = self.next_key();
        self.values.push(v);
        k
    }

    /// The key the next pushed value will receive.
    fn next_key(&self) -> (k: K)
        ensures
            k.key_index() == self@.len(),
    {
        K::new(self.values.len())
    }

    /// Exchanges the values at two keys' positions.
    pub fn swap(&mut self, a: K, b: K)
        requires
            a.key_index() < old(self)@.len(),
            b.key_index() < old(self)@.len(),
        ensures
            final(self)@ == old(self)@.update(
                a.key_index() as int,
                old(self)@[b.key_index() as int],
            ).update(b.key_index() as int, old(self)@[a.key_index() as int]),
    {
        let ia = a.index();
        let ib = b.index();
        if ia == ib {
            proof {
                assert(final(self)@ =~= old(self)@.update(
                    a.key_index() as int,
                    old(self)@[b.key_index() as int],
                ).update(b.key_index() as int, old(self)@[a.key_index() as int]));
            }
            return ;
        }
        let (lo, hi) = if ia < ib {
            (ia, ib)
        } else {
            (ib, ia)
        };
        let vh = self.values.remove(hi);
        let vl = self.values.remove(lo);
        self.values.insert(lo, vh);
        self.values.insert(hi, vl);
        proof {
            assert(final(self)@ =~= old(self)@.update(
                a.key_index() as int,
                old(self)@[b.key_index() as int],
            ).update(b.key_index() as int, old(self)@[a.key_index() as int]));
        }
    }
}

impl<K, V> EntityMap<K, V> where K: Entity, V: Clone + Default {
    /// A table of `n` slots, each holding `V::default()`.
    pub fn with_capacity(n: usize) -> (r: Self)
        ensures
            r@.len() == n,
            forall|i: int| 0 <= i < n ==> call_ensures(V::default, (), #[trigger] r@[i]),
    {
        let mut values: Vec<V> = Vec::new();
        while values.len() < n
            invariant
                values@.len() <= n,
                forall|i: int|
                    0 <= i < values@.len() ==> call_ensures(V::default, (), #[trigger] values@[i]),
            decreases n - values@.len(),
        {
            values.push(V::default());
        }
        EntityMap { keys: PhantomData, values }
    }

    /// Grows the table with `V::default()` slots, or truncates it, to hold
    /// exactly `n` values; the surviving prefix is kept unchanged.
    pub fn resize(&mut self, n: usize)
        ensures
            final(self)@.len() == n,
            forall|i: int|
                0 <= i < n && i < old(self)@.len() ==> final(self)@[i] == old(self)@[i],
            forall|i: int|
                old(self)@.len() <= i < n ==> call_ensures(
                    V::default,
                    (),
                    #[trigger] final(self)@[i],
                ),
    {
        if n <= self.values.len() {
            self.values.truncate(n);
        } else {
            while self.values.len() < n
                invariant
                    old(self)@.len() <= self.values@.len() <= n,
                    self.values@.subrange(0, old(self)@.len() as int) == old(self)@,
                    forall|i: int|
                        old(self)@.len() <= i < self.values@.len() ==> call_ensures(
                            V::default,
                            (),
                            #[trigger] self.values@[i],
                        ),
                decreases n - self.values@.len(),
            {
                self.values.push(V::default());
                proof {
                    assert(self.values@.subrange(0, old(self)@.len() as int) =~= old(self)@);
                }
            }
        }
    }

    /// A mutable reference to the value at the key's position, growing the
    /// table with `V::default()` slots first when the position lies past the
    /// end; values at other existing positions are kept unchanged.
    pub fn ensure(&mut self, k: K) -> (r: &mut V)
        requires
            k.key_index() < usize::MAX,
        ensures
            final(self)@.len() == (if k.key_index() < old(self)@.len() {
                old(self)@.len() as int
            } else {
                k.key_index() + 1
            }),
            forall|i: int|
                0 <= i < old(self)@.len() && i != k.key_index() ==> final(self)@[i] == old(
                    self,
                )@[i],
            k.key_index() < old(self)@.len() ==> *r == old(self)@[k.key_index() as int],
            final(self)@[k.key_index() as int] == *final(r),
    {
        if !self.contains_key(k) {
            let i = k.index();
            self.resize(i + 1);
        }
        let i = k.index();
        &mut self.values[i]
    }
}

/// An iterator over the keys of an `EntityMap`, by ascending position.
pub struct Keys<K> {
    pos: usize,
    len: usize,
    key: PhantomData<K>,
}

impl<K> Keys<K> {
    /// The next position the iterator will yield from the front.
    pub closed spec fn spec_pos(self) -> usize {
        self.pos
    }

    /// The position just past the last key the iterator will yield.
    pub closed spec fn spec_end(self) -> usize {
        self.len
    }

    /// The front of the iterator never passes its back.
    pub closed spec fn wf(self) -> bool {
        self.pos <= self.len
    }
}

impl<K> Keys<K> where K: Entity {
    /// The next key from the front, or `None` when the range is exhausted.
    pub fn next(&mut self) -> (r: Option<K>)
        requires
            old(self).wf(),
        ensures
            final(self).wf(),
            final(self).spec_end() == old(self).spec_end(),
            (if old(self).spec_pos() < old(self).spec_end() {
                &&& r matches Some(k) && k.key_index() == old(self).spec_pos()
                &&& final(self).spec_pos() == old(self).spec_pos() + 1
            } else {
                r is None && final(self).spec_pos() == old(self).spec_pos()
            }),
    {
        if self.pos < self.len {
            let key = K::new(self.pos);
            self.pos = self.pos + 1;
            Some(key)
        } else {
            None
        }
    }

    /// The remaining key count, as both bounds of a size hint.
    pub fn size_hint(&self) -> (r: (usize, Option<usize>))
        requires
            self.wf(),
        ensures
            r.0 == self.spec_end() - self.spec_pos(),
            r.1 == Some(r.0),
    {
        let len = self.len - self.pos;
        (len, Some(len))
    }

    /// The next key from the back, or `None` when the range is exhausted.
    pub fn next_back(&mut self) -> (r: Option<K>)
        requires
            old(self).wf(),
        ensures
            final(self).wf(),
            final(self).spec_pos() == old(self).spec_pos(),
            (if old(self).spec_pos() < old(self).spec_end() {
                &&& r matches Some(k) && k.key_index() == old(self).spec_end() - 1
                &&& final(self).spec_end() == old(self).spec_end() - 1
            } else {
                r is None && final(self).spec_end() == old(self).spec_end()
            }),
    {
        if self.pos < self.len {
            self.len = self.len - 1;
            let key = K::new(self.len);
            Some(key)
        } else {
            None
        }
    }
}

} // verus!
