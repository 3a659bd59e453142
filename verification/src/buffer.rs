//! A fixed-capacity ring buffer: values come out in the order they went in,
//! and pushing into a full buffer drops the oldest value.

use vstd::prelude::*;

verus! {

/// A ring of `capacity` slots holding up to that many values.
pub struct Buffer<T> {
    data: Vec<T>,
    read: usize,
    write: usize,
    len: usize,
}

impl<T: Copy> Buffer<T> {
    /// The number of slots.
    pub closed spec fn capacity(&self) -> nat {
        self.data@.len()
    }

    /// The values held, oldest first.
    pub closed spec fn contents(&self) -> Seq<T> {
        Seq::new(
            self.len as nat,
            |k: int| self.data@[(self.read as int + k) % self.data@.len() as int],
        )
    }

    /// The read position, the write position and the length describe a
    /// run of slots in the ring.
    pub closed spec fn wf(&self) -> bool {
        &&& self.len <= self.data@.len()
        &&& (self.data@.len() == 0 ==> self.read == 0 && self.write == 0)
        &&& (self.data@.len() > 0 ==> self.read < self.data@.len() && self.write
            < self.data@.len() && self.write as int == (self.read + self.len) as int
            % self.data@.len() as int)
    }

    /// An empty buffer with `capacity` slots.
    pub fn new(capacity: usize) -> (b: Self)
        where T: Default,
        ensures
            b.wf(),
            b.capacity() == capacity,
            b.contents() == Seq::<T>::empty(),
    {
        let mut data: Vec<T> = Vec::new();
        let mut i: usize = 0;
        while i < capacity
            invariant
                i <= capacity,
                data@.len() == i,
            decreases capacity - i,
        {
            data.push(T::default());
            i = i + 1;
        }
        let b = Buffer { data, read: 0, write: 0, len: 0 };
        assert(b.contents() =~= Seq::<T>::empty());
        if capacity > 0 {
            assert(0int % (capacity as int) == 0) by {
                vstd::arithmetic::div_mod::lemma_small_mod(0, capacity as nat);
            }
        }
        b
    }

    /// Empties the buffer.
    pub fn clear(&mut self)
        requires
            old(self).wf(),
        ensures
            final(self).wf(),
            final(self).capacity() == old(self).capacity(),
            final(self).contents() == Seq::<T>::empty(),
    {
        self.len = 0;
        self.read = 0;
        self.write = 0;
        assert(self.contents() =~= Seq::<T>::empty());
        proof {
            if self.data@.len() > 0 {
                vstd::arithmetic::div_mod::lemma_small_mod(0, self.data@.len() as nat);
            }
        }
    }

    /// Takes the oldest value out, or gives `None` when the buffer is
    /// empty. Without other users of the buffer this never fails.
    pub fn try_pop(&mut self) -> (r: Result<Option<T>, ()>)
        requires
            old(self).wf(),
        ensures
            final(self).wf(),
            final(self).capacity() == old(self).capacity(),
            old(self).contents().len() == 0 ==> r == Ok::<Option<T>, ()>(None) && final(self).contents()
                == old(self).contents(),
            old(self).contents().len() > 0 ==> r == Ok::<Option<T>, ()>(Some(old(self).contents()[0]))
                && final(self).contents() == old(self).contents().drop_first(),
    {
        if self.len == 0 {
            Ok(None)
        } else {
            let current = self.read;
            let cap = self.data.len();
            let new = if current + 1 >= cap {
                0
            } else {
                current + 1
            };
            let ghost n = self.data@.len() as int;
            let ghost old_contents = self.contents();
            let ghost old_len = self.len as int;
            self.read = new;
            self.len = self.len - 1;
            proof {
                assert(old_contents[0] == self.data@[current as int]) by {
                    vstd::arithmetic::div_mod::lemma_small_mod(current as nat, n as nat);
                }
                assert forall|k: int| 0 <= k < self.len implies self.contents()[k]
                    == old_contents.drop_first()[k] by {
                    if current + 1 >= n {
                        vstd::arithmetic::div_mod::lemma_mod_add_multiples_vanish(k, n);
                        assert((current as int + k + 1) == k + n);
                    }
                }
                assert(self.contents() =~= old_contents.drop_first());
                if current + 1 >= n {
                    assert(current as int + old_len == (old_len - 1) + n);
                    vstd::arithmetic::div_mod::lemma_mod_add_multiples_vanish(old_len - 1, n);
                }
            }
            Ok(Some(self.data[current]))
        }
    }

    /// Takes the oldest value out, or gives `None` when the buffer is empty.
    pub fn pop(&mut self) -> (r: Option<T>)
        requires
            old(self).wf(),
        ensures
            final(self).wf(),
            final(self).capacity() == old(self).capacity(),
            old(self).contents().len() == 0 ==> r is None
                && final(self).contents() == old(self).contents(),
            old(self).contents().len() > 0 ==> r == Some(old(self).contents()[0])
                && final(self).contents() == old(self).contents().drop_first(),
    {
        match self.try_pop() {
            Ok(result) => result,
            Err(_) => None,
        }
    }

    /// Adds a value at the back; a full buffer first drops its oldest
    /// value. Without other users of the buffer this never fails.
    pub fn try_push(&mut self, value: T) -> (r: Result<(), T>)
        requires
            old(self).wf(),
            old(self).capacity() > 0,
        ensures
            final(self).wf(),
            final(self).capacity() == old(self).capacity(),
            r is Ok,
            final(self).contents() == (if old(self).contents().len() == old(self).capacity() {
                old(self).contents().drop_first()
            } else {
                old(self).contents()
            }).push(value),
    {
        let ghost start = self.contents();
        while self.len >= self.data.len()
            invariant
                self.wf(),
                self.capacity() == old(self).capacity(),
                self.capacity() > 0,
                self.contents() == (if start.len() == old(self).capacity() && self.len < self.data@.len() {
                    start.drop_first()
                } else {
                    start
                }),
                start.len() == old(self).capacity() ==> self.len + 1 >= start.len(),
                start == old(self).contents(),
            decreases self.len,
        {
            let ghost before = self.contents();
            assert(before == start);
            assert(before.len() == self.len);
            assert(self.len == self.data@.len());
            let ghost cap0 = self.data@.len();
            if self.try_pop().is_err() {
                return Err(value);
            }
            assert(self.contents() == start.drop_first());
            assert(self.contents().len() == cap0 - 1);
            assert(self.data@.len() == cap0);
            assert(self.len < self.data@.len());
        }
        let current = self.write;
        let cap = self.data.len();
        let new = if current + 1 >= cap {
            0
        } else {
            current + 1
        };
        let ghost n = cap as int;
        let ghost before = self.contents();
        let ghost read = self.read as int;
        let ghost len = self.len as int;
        self.write = new;
        self.len = self.len + 1;
        self.data.set(current, value);
        proof {
            lemma_mod_below_twice(read + len, n);
            assert forall|k: int| 0 <= k < len implies self.contents()[k] == before[k] by {
                lemma_mod_below_twice(read + k, n);
            }
            assert(self.contents()[len] == value);
            assert(self.contents() =~= before.push(value));
            lemma_mod_below_twice(read + len + 1, n);
        }
        Ok(())
    }

    /// Adds a value at the back, dropping the oldest value of a full
    /// buffer.
    pub fn push(&mut self, value: T)
        requires
            old(self).wf(),
            old(self).capacity() > 0,
        ensures
            final(self).wf(),
            final(self).capacity() == old(self).capacity(),
            final(self).contents() == (if old(self).contents().len() == old(self).capacity() {
                old(self).contents().drop_first()
            } else {
                old(self).contents()
            }).push(value),
    {
        let _ = self.try_push(value);
    }

    /// The values held, oldest first.
    pub fn as_vec(&self) -> (v: Vec<T>)
        requires
            self.wf(),
        ensures
            v@ == self.contents(),
    {
        let mut data: Vec<T> = Vec::new();
        let mut read = self.read;
        let cap = self.data.len();
        let mut i: usize = 0;
        proof {
            if cap > 0 {
                vstd::arithmetic::div_mod::lemma_small_mod(read as nat, cap as nat);
            }
        }
        while i < self.len
            invariant
                self.wf(),
                cap == self.data@.len(),
                i <= self.len,
                self.data@.len() > 0 ==> read < self.data@.len(),
                self.data@.len() > 0 ==> read as int == (self.read + i) as int % self.data@.len() as int,
                data@ == self.contents().take(i as int),
            decreases self.len - i,
        {
            let ghost n = self.data@.len() as int;
            data.push(self.data[read]);
            proof {
                assert(self.contents()[i as int] == self.data@[read as int]);
                assert(self.contents().take(i + 1) =~= self.contents().take(i as int).push(self.data@[read as int]));
            }
            read = read + 1;
            if read == cap {
                read = 0;
            }
            proof {
                lemma_mod_below_twice(self.read + i, n);
                lemma_mod_below_twice(self.read + i + 1, n);
            }
            i = i + 1;
        }
        assert(self.contents().take(self.len as int) =~= self.contents());
        data
    }
}

/// Below twice the modulus, reducing is subtracting it at most once.
proof fn lemma_mod_below_twice(x: int, n: int)
    requires
        0 <= x < 2 * n,
    ensures
        x % n == (if x < n {
            x
        } else {
            x - n
        }),
{
    if x < n {
        vstd::arithmetic::div_mod::lemma_small_mod(x as nat, n as nat);
    } else {
        vstd::arithmetic::div_mod::lemma_mod_add_multiples_vanish(x - n, n);
        vstd::arithmetic::div_mod::lemma_small_mod((x - n) as nat, n as nat);
    }
}

} // verus!
