//! Keys as sequences of nibbles.

use vstd::prelude::*;

verus! {

/// The nibble of `data` at position `k`: the high half of a byte comes first.
pub open spec fn spec_nibble_at(data: Seq<u8>, k: int) -> u8 {
    if k % 2 == 0 {
        data[k / 2] / 16
    } else {
        data[k / 2] % 16
    }
}

/// The nibbles of `data` from position `offset` on.
pub open spec fn spec_nibbles_from(data: Seq<u8>, offset: int) -> Seq<u8> {
    Seq::new((2 * data.len() - offset) as nat, |i: int| spec_nibble_at(data, offset + i))
}

/// The nibbles of a key: two for each byte.
pub open spec fn spec_key_nibbles(key: Seq<u8>) -> Seq<u8> {
    spec_nibbles_from(key, 0)
}

/// The nibbles that the key bytes of a leaf or an extension stand for. The first
/// byte holds two flags and, where the number of nibbles is odd, the first nibble in
/// its low half; each byte after it holds two nibbles.
pub open spec fn spec_encoded_nibbles(data: Seq<u8>) -> Seq<u8> {
    if data.len() == 0 {
        Seq::empty()
    } else if (data[0] / 16) % 2 == 1 {
        spec_nibbles_from(data, 1)
    } else {
        spec_nibbles_from(data, 2)
    }
}

/// The flag in the key bytes of a node that marks the end of a key.
pub open spec fn spec_encoded_is_leaf(data: Seq<u8>) -> bool {
    data.len() > 0 && (data[0] / 32) % 2 == 1
}

/// A view of bytes as nibbles, from some nibble on.
#[derive(Clone, Copy, Debug)]
pub struct NibbleSlice<'a> {
    data: &'a [u8],
    offset: u128,
}

impl<'a> View for NibbleSlice<'a> {
    type V = Seq<u8>;

    closed spec fn view(&self) -> Seq<u8> {
        spec_nibbles_from(self.data@, self.offset as int)
    }
}

impl<'a> NibbleSlice<'a> {
    /// The slice is within its bytes.
    #[verifier::type_invariant]
    spec fn inv(self) -> bool {
        self.offset <= 2 * self.data@.len()
    }

    /// All the nibbles of `data`.
    pub fn new(data: &'a [u8]) -> (s: Self)
        ensures
            s@ == spec_key_nibbles(data@),
    {
        NibbleSlice { data, offset: 0 }
    }

    /// The nibbles that the key bytes `data` of a node stand for, and whether they
    /// end a key.
    pub fn from_encoded(data: &'a [u8]) -> (r: (Self, bool))
        ensures
            r.0@ == spec_encoded_nibbles(data@),
            r.1 == spec_encoded_is_leaf(data@),
    {
        if data.len() == 0 {
            let s = NibbleSlice { data, offset: 0 };
            assert(s@ =~= Seq::<u8>::empty());
            (s, false)
        } else {
            let first = data[0];
            let offset: u128 = if (first / 16) % 2 == 1 {
                1
            } else {
                2
            };
            (NibbleSlice { data, offset }, (first / 32) % 2 == 1)
        }
    }

    /// The number of nibbles.
    pub fn len(&self) -> (n: u128)
        ensures
            n == self@.len(),
    {
        proof {
            use_type_invariant(self);
        }
        2 * (self.data.len() as u128) - self.offset
    }

    /// Whether there is no nibble.
    pub fn is_empty(&self) -> (b: bool)
        ensures
            b == (self@.len() == 0),
    {
        self.len() == 0
    }

    /// The nibble at position `i`.
    pub fn at(&self, i: u128) -> (nibble: u8)
        requires
            i < self@.len(),
        ensures
            nibble == self@[i as int],
            nibble < 16,
    {
        proof {
            use_type_invariant(self);
        }
        let size = self.data.len();
        let k: u128 = self.offset + i;
        let byte = self.data[(k / 2) as usize];
        if k % 2 == 0 {
            byte / 16
        } else {
            byte % 16
        }
    }

    /// The nibbles from position `i` on.
    pub fn mid(&self, i: u128) -> (s: Self)
        requires
            i <= self@.len(),
        ensures
            s@ == self@.skip(i as int),
    {
        proof {
            use_type_invariant(self);
        }
        let size = self.data.len();
        let s = NibbleSlice { data: self.data, offset: self.offset + i };
        assert(s@ =~= self@.skip(i as int));
        s
    }

    /// Whether the slice begins with the nibbles of `them`.
    pub fn starts_with(&self, them: &Self) -> (b: bool)
        ensures
            b == them@.is_prefix_of(self@),
    {
        let n = them.len();
        if self.len() < n {
            return false;
        }
        let mut i: u128 = 0;
        while i < n
            invariant
                i <= n,
                n == them@.len(),
                n <= self@.len(),
                forall|j: int| 0 <= j < i ==> self@[j] == them@[j],
            decreases n - i,
        {
            if self.at(i) != them.at(i) {
                return false;
            }
            i += 1;
        }
        assert(them@ =~= self@.subrange(0, n as int));
        true
    }
}

impl<'a> PartialEq for NibbleSlice<'a> {
    fn eq(&self, them: &Self) -> (r: bool) {
        let r = self.len() == them.len() && self.starts_with(them);
        assert(r ==> self@ =~= them@);
        r
    }
}

impl<'a> vstd::std_specs::cmp::PartialEqSpecImpl for NibbleSlice<'a> {
    open spec fn obeys_eq_spec() -> bool {
        true
    }

    open spec fn eq_spec(&self, them: &Self) -> bool {
        self@ == them@
    }
}

} // verus!
