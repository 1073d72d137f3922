//! A bitmap over pieces or chunks, stored as bytes with the most significant bit of
//! the first byte holding index 0: the layout of the wire protocol's bitfield message.

use vstd::prelude::*;

verus! {

/// Whether bit `j` of `b` is set, counting from the most significant bit.
pub open spec fn byte_bit(b: u8, j: u8) -> bool {
    b & (0x80u8 >> j) != 0
}

/// The bits that `bytes` hold, eight per byte.
pub open spec fn bits_of(bytes: Seq<u8>) -> Seq<bool> {
    Seq::new(8 * bytes.len(), |i: int| byte_bit(bytes[i / 8], (i % 8) as u8))
}

/// Whether the first `n` entries of `bits` exist and are all set.
pub open spec fn all_set(bits: Seq<bool>, n: int) -> bool {
    n <= bits.len() && forall|i: int| 0 <= i < n ==> bits[i]
}

proof fn lemma_set_bit(b: u8, j: u8, k: u8)
    requires
        j < 8,
        k < 8,
    ensures
        byte_bit(b | (0x80u8 >> j), k) == (k == j || byte_bit(b, k)),
        byte_bit(b & !(0x80u8 >> j), k) == (k != j && byte_bit(b, k)),
{
    assert((b | (0x80u8 >> j)) & (0x80u8 >> k) != 0 <==> (k == j || b & (0x80u8 >> k) != 0))
        by (bit_vector)
        requires
            j < 8,
            k < 8,
    ;
    assert((b & !(0x80u8 >> j)) & (0x80u8 >> k) != 0 <==> (k != j && b & (0x80u8 >> k) != 0))
        by (bit_vector)
        requires
            j < 8,
            k < 8,
    ;
}

/// A growable-at-construction bitmap. Its view is the sequence of its bits.
#[derive(Debug)]
pub struct BF {
    bytes: Vec<u8>,
}

impl View for BF {
    type V = Seq<bool>;

    open spec fn view(&self) -> Seq<bool> {
        bits_of(self.bytes())
    }
}

impl BF {
    /// The bytes behind the bitmap.
    pub closed spec fn bytes(&self) -> Seq<u8> {
        self.bytes@
    }

    /// The empty bitmap.
    pub fn new() -> (r: BF)
        ensures
            r.bytes() == Seq::<u8>::empty(),
            r@.len() == 0,
    {
        BF { bytes: Vec::new() }
    }

    /// The bitmap over the given bytes.
    pub fn from_vec(bytes: Vec<u8>) -> (r: BF)
        ensures
            r.bytes() == bytes@,
    {
        BF { bytes }
    }

    /// A bitmap of `n` zero bytes.
    pub fn zeroed(n: usize) -> (r: BF)
        ensures
            r.bytes().len() == n,
            forall|i: int| 0 <= i < 8 * n ==> !r@[i],
    {
        let mut bytes: Vec<u8> = Vec::new();
        let mut i: usize = 0;
        while i < n
            invariant
                i <= n,
                bytes@.len() == i,
                forall|k: int| 0 <= k < i ==> bytes@[k] == 0u8,
            decreases n - i,
        {
            bytes.push(0u8);
            i += 1;
        }
        let r = BF { bytes };
        proof {
            assert forall|k: int| 0 <= k < 8 * n implies !r@[k] by {
                let j = (k % 8) as u8;
                assert(0u8 & (0x80u8 >> j) == 0) by (bit_vector);
            }
        }
        r
    }

    /// The number of bytes behind the bitmap.
    pub fn byte_len(&self) -> (n: usize)
        ensures
            n == self.bytes().len(),
            8 * n == self@.len(),
    {
        self.bytes.len()
    }

    /// The bytes behind the bitmap, as they go on the wire.
    pub fn as_raw_slice(&self) -> (s: &[u8])
        ensures
            s@ == self.bytes(),
    {
        self.bytes.as_slice()
    }

    /// The bit at `i`, or `None` past the end.
    pub fn get(&self, i: usize) -> (r: Option<bool>)
        ensures
            r == (if i < self@.len() {
                Some(self@[i as int])
            } else {
                None
            }),
    {
        let byte = i / 8;
        if byte < self.bytes.len() {
            let j: u8 = (i % 8) as u8;
            Some(self.bytes[byte] & (0x80u8 >> j) != 0)
        } else {
            None
        }
    }

    /// Whether the bit at `i` exists and is set.
    pub fn is_set(&self, i: usize) -> (r: bool)
        ensures
            r == (i < self@.len() && self@[i as int]),
    {
        match self.get(i) {
            Some(b) => b,
            None => false,
        }
    }

    /// Writes the bit at `i`. Past the end nothing changes and `false` is returned.
    pub fn set(&mut self, i: usize, value: bool) -> (ok: bool)
        ensures
            ok == (i < old(self)@.len()),
            ok ==> final(self)@ == old(self)@.update(i as int, value),
            !ok ==> *final(self) == *old(self),
            final(self).bytes().len() == old(self).bytes().len(),
    {
        let byte = i / 8;
        if byte >= self.bytes.len() {
            return false;
        }
        let j: u8 = (i % 8) as u8;
        let b = self.bytes[byte];
        let nb: u8 = if value {
            b | (0x80u8 >> j)
        } else {
            b & !(0x80u8 >> j)
        };
        self.bytes.set(byte, nb);
        proof {
            let before = old(self)@;
            let after = self@;
            assert forall|k: int| 0 <= k < after.len() implies after[k] == before.update(
                i as int,
                value,
            )[k] by {
                if k / 8 == byte as int {
                    lemma_set_bit(b, j, (k % 8) as u8);
                }
            }
            assert(after =~= before.update(i as int, value));
        }
        true
    }

    /// Whether the bitmap has at least `n` bits and the first `n` are all set.
    pub fn all_in_prefix(&self, n: usize) -> (r: bool)
        ensures
            r == all_set(self@, n as int),
    {
        let mut i: usize = 0;
        while i < n
            invariant
                i <= n,
                all_set(self@, i as int),
            decreases n - i,
        {
            if !self.is_set(i) {
                assert(!all_set(self@, n as int)) by {
                    if n <= self@.len() {
                        assert(!self@[i as int]);
                    }
                }
                return false;
            }
            i += 1;
        }
        true
    }
}

} // verus!
