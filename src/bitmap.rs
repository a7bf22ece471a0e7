//! A growable-size bitmap stored in bytes.
use vstd::prelude::*;

verus! {

/// Bit `b` of byte `w`.
pub open spec fn byte_bit(w: u8, b: u8) -> bool {
    (w >> b) & 1u8 == 1u8
}

proof fn lemma_byte_set(w: u8, b: u8, c: u8)
    requires
        b < 8,
        c < 8,
    ensures
        byte_bit(w | (1u8 << b), c) == (b == c || byte_bit(w, c)),
        byte_bit(w & !(1u8 << b), c) == (b != c && byte_bit(w, c)),
        (w & (1u8 << b) != 0) == byte_bit(w, b),
{
    assert(((w | (1u8 << b)) >> c) & 1u8 == 1u8 <==> (b == c || (w >> c) & 1u8 == 1u8))
        by (bit_vector)
        requires
            b < 8,
            c < 8,
    ;
    assert(((w & !(1u8 << b)) >> c) & 1u8 == 1u8 <==> (b != c && (w >> c) & 1u8 == 1u8))
        by (bit_vector)
        requires
            b < 8,
            c < 8,
    ;
    assert((w & (1u8 << b) != 0) <==> ((w >> b) & 1u8 == 1u8)) by (bit_vector)
        requires
            b < 8,
    ;
}

/// `length` bits, bit `i` in bit `i % 8` of byte `i / 8`.
#[derive(Clone)]
pub struct Bitmap {
    pub length: usize,
    pub storage: Vec<u8>,
}

impl Bitmap {
    pub open spec fn wf(&self) -> bool {
        self.storage@.len() == self.length / 8 + 1
    }

    /// The bits.
    pub open spec fn view(&self) -> Seq<bool> {
        Seq::new(self.length as nat, |i: int| byte_bit(self.storage@[i / 8], (i % 8) as u8))
    }

    /// A bitmap of `size` clear bits.
    pub fn new(size: usize) -> (r: Self)
        ensures
            r.wf(),
            r.length == size,
            forall|i: int| 0 <= i < size ==> !#[trigger] r.view()[i],
            forall|k: int| 0 <= k < r.storage@.len() ==> r.storage@[k] == 0,
    {
        let n = size / 8 + 1;
        let mut storage: Vec<u8> = Vec::new();
        let mut k: usize = 0;
        while k < n
            invariant
                k <= n,
                storage@.len() == k,
                forall|j: int| 0 <= j < k ==> storage@[j] == 0,
            decreases n - k,
        {
            storage.push(0);
            k += 1;
        }
        let r = Bitmap { length: size, storage };
        assert forall|i: int| 0 <= i < size implies !#[trigger] r.view()[i] by {
            let b = (i % 8) as u8;
            assert((0u8 >> b) & 1u8 != 1u8) by (bit_vector);
        }
        r
    }

    pub fn len(&self) -> (r: usize)
        ensures
            r == self.length,
    {
        self.length
    }

    /// Bit `i`.
    pub fn get(&self, i: usize) -> (r: bool)
        requires
            self.wf(),
            i < self.length,
        ensures
            r == self.view()[i as int],
    {
        let idx = i >> 3;
        let bitoff = (i & 7) as u8;
        proof {
            assert(i >> 3 == i / 8 && i & 7 == i % 8) by (bit_vector);
            lemma_byte_set(self.storage@[idx as int], bitoff, bitoff);
        }
        self.storage[idx] & (1u8 << bitoff) != 0
    }

    fn modify(&mut self, i: usize, set: bool)
        requires
            old(self).wf(),
            i < old(self).length,
        ensures
            final(self).wf(),
            final(self).length == old(self).length,
            final(self).view() == old(self).view().update(i as int, set),
    {
        let idx = i >> 3;
        let bitoff = (i & 7) as u8;
        proof {
            assert(i >> 3 == i / 8 && i & 7 == i % 8) by (bit_vector);
        }
        let w = self.storage[idx];
        if set {
            self.storage.set(idx, w | (1u8 << bitoff));
        } else {
            self.storage.set(idx, w & !(1u8 << bitoff));
        }
        assert forall|j: int| 0 <= j < self.length implies self.view()[j] == old(self).view().update(
            i as int,
            set,
        )[j] by {
            if j / 8 == idx {
                lemma_byte_set(w, bitoff, (j % 8) as u8);
            }
        }
        assert(self.view() =~= old(self).view().update(i as int, set));
    }

    /// Sets bit `i`.
    pub fn set(&mut self, i: usize)
        requires
            old(self).wf(),
            i < old(self).length,
        ensures
            final(self).wf(),
            final(self).length == old(self).length,
            final(self).view() == old(self).view().update(i as int, true),
    {
        self.modify(i, true);
    }

    /// Clears bit `i`.
    pub fn clear(&mut self, i: usize)
        requires
            old(self).wf(),
            i < old(self).length,
        ensures
            final(self).wf(),
            final(self).length == old(self).length,
            final(self).view() == old(self).view().update(i as int, false),
    {
        self.modify(i, false);
    }

    /// Copies `data` into the storage bytes from byte `offset` on, as far
    /// as the storage reaches.
    pub fn set_direct(&mut self, data: &[u8], offset: usize)
        requires
            old(self).wf(),
        ensures
            final(self).wf(),
            final(self).length == old(self).length,
            final(self).storage@ == Seq::new(
                old(self).storage@.len(),
                |j: int|
                    if offset <= j < offset + data@.len() {
                        data@[j - offset]
                    } else {
                        old(self).storage@[j]
                    },
            ),
    {
        let n = self.storage.len();
        let mut i: usize = offset;
        while i < n && i - offset < data.len()
            invariant
                offset <= i,
                i <= offset + data@.len(),
                n == self.storage@.len(),
                self.wf(),
                self.length == old(self).length,
                i <= n || i == offset,
                forall|j: int|
                    0 <= j < n ==> #[trigger] self.storage@[j] == if offset <= j < i {
                        data@[j - offset]
                    } else {
                        old(self).storage@[j]
                    },
            decreases n - i,
        {
            self.storage.set(i, data[i - offset]);
            i += 1;
        }
        assert forall|j: int| 0 <= j < n implies #[trigger] self.storage@[j] == if offset <= j < offset
            + data@.len() {
            data@[j - offset]
        } else {
            old(self).storage@[j]
        } by {
            if offset <= j < offset + data@.len() {
                assert(j < i);
            }
        }
        assert(self.storage@ =~= Seq::new(
            old(self).storage@.len(),
            |j: int|
                if offset <= j < offset + data@.len() {
                    data@[j - offset]
                } else {
                    old(self).storage@[j]
                },
        ));
    }
}

} // verus!
