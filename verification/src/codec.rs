//! The canonical byte encoding.
//!
//! Fixed-width integers are little-endian. A sequence is its length as a 32-bit
//! count, then its items. An option is one byte, 0 or 1, then the value if there is
//! one. A tagged sum is one byte that says which variant follows.

use vstd::bytes::*;
use vstd::prelude::*;
use vstd::slice::{slice_subrange, slice_to_vec};
use vstd::utf8::*;

verus! {

/// The bytes given are not the canonical encoding of any value.
#[derive(Clone, Copy, Debug, PartialEq, Eq, Structural)]
pub struct DecodeError;

/// A type with a canonical encoding. Its model, the deep view, is what the encoding
/// is stated over.
pub trait Encoded: DeepView + Sized {
    /// Whether a value with this model has an encoding: every length in it fits its
    /// 32-bit count.
    spec fn encodable(m: Self::V) -> bool;

    /// The encoding of a value with model `m`.
    spec fn spec_encode(m: Self::V) -> Seq<u8>;

    /// The value that `bytes` begins with and the number of bytes that it takes, if
    /// `bytes` begins with the encoding of a value.
    spec fn spec_parse(bytes: Seq<u8>) -> Option<(Self::V, int)>;

    /// What was encoded is what is parsed, whatever follows it.
    proof fn lemma_parse_encode(m: Self::V, rest: Seq<u8>)
        requires
            Self::encodable(m),
        ensures
            Self::spec_parse(Self::spec_encode(m) + rest) == Some(
                (m, Self::spec_encode(m).len() as int),
            ),
    ;

    /// A parsed value takes no more bytes than there are.
    proof fn lemma_parse_within(bytes: Seq<u8>)
        ensures
            Self::spec_parse(bytes) matches Some((_, n)) ==> 0 <= n <= bytes.len(),
    ;

    /// Whether the value has an encoding.
    fn is_encodable(&self) -> (b: bool)
        ensures
            b == Self::encodable(self.deep_view()),
    ;

    /// Appends the encoding of `self` to `out`.
    fn encode_into(&self, out: &mut Vec<u8>)
        requires
            Self::encodable(self.deep_view()),
        ensures
            final(out)@ == old(out)@ + Self::spec_encode(self.deep_view()),
    ;

    /// Reads a value from `bytes` at `pos`; returns it with the position after it.
    fn parse(bytes: &[u8], pos: usize) -> (r: Option<(Self, usize)>)
        requires
            pos <= bytes@.len(),
        ensures
            match r {
                Some((v, next)) => pos <= next <= bytes@.len() && Self::spec_parse(
                    bytes@.skip(pos as int),
                ) == Some((v.deep_view(), next - pos)),
                None => Self::spec_parse(bytes@.skip(pos as int)) is None,
            },
    ;
}

/// The value that `bytes` is the encoding of, if it is one: nothing may follow it.
pub open spec fn spec_decode<T: Encoded>(bytes: Seq<u8>) -> Option<T::V> {
    match T::spec_parse(bytes) {
        Some((m, n)) => if n == bytes.len() {
            Some(m)
        } else {
            None
        },
        None => None,
    }
}

/// Decoding undoes encoding: for every encodable value, the bytes of its encoding
/// decode to that value.
pub proof fn lemma_decode_encode<T: Encoded>(m: T::V)
    requires
        T::encodable(m),
    ensures
        spec_decode::<T>(T::spec_encode(m)) == Some(m),
{
    T::lemma_parse_encode(m, Seq::empty());
    assert(T::spec_encode(m) + Seq::<u8>::empty() =~= T::spec_encode(m));
}

/// The canonical encoding of `value`.
pub fn encode<T: Encoded>(value: &T) -> (bytes: Vec<u8>)
    requires
        T::encodable(value.deep_view()),
    ensures
        bytes@ == T::spec_encode(value.deep_view()),
{
    let mut bytes: Vec<u8> = Vec::new();
    value.encode_into(&mut bytes);
    assert(bytes@ =~= T::spec_encode(value.deep_view()));
    bytes
}

/// The canonical encoding of `value`, if it has one.
pub fn try_encode<T: Encoded>(value: &T) -> (bytes: Option<Vec<u8>>)
    ensures
        bytes is Some <==> T::encodable(value.deep_view()),
        bytes is Some ==> bytes->Some_0@ == T::spec_encode(value.deep_view()),
{
    if value.is_encodable() {
        Some(encode(value))
    } else {
        None
    }
}

/// The value that `bytes` encodes. Fails where `bytes` is no encoding, or where
/// bytes are left over.
pub fn decode<T: Encoded>(bytes: &[u8]) -> (r: Result<T, DecodeError>)
    ensures
        match r {
            Ok(v) => spec_decode::<T>(bytes@) == Some(v.deep_view()),
            Err(_) => spec_decode::<T>(bytes@) is None,
        },
{
    assert(bytes@.skip(0) =~= bytes@);
    match T::parse(bytes, 0) {
        Some((v, next)) => if next == bytes.len() {
            Ok(v)
        } else {
            Err(DecodeError)
        },
        None => Err(DecodeError),
    }
}

impl Encoded for u8 {
    open spec fn encodable(m: u8) -> bool {
        true
    }

    open spec fn spec_encode(m: u8) -> Seq<u8> {
        seq![m]
    }

    open spec fn spec_parse(bytes: Seq<u8>) -> Option<(u8, int)> {
        if bytes.len() >= 1 {
            Some((bytes[0], 1))
        } else {
            None
        }
    }

    proof fn lemma_parse_encode(m: u8, rest: Seq<u8>) {
    }

    proof fn lemma_parse_within(bytes: Seq<u8>) {
    }

    fn is_encodable(&self) -> (b: bool) {
        true
    }

    fn encode_into(&self, out: &mut Vec<u8>) {
        out.push(*self);
        assert(out@ =~= old(out)@ + seq![*self]);
        assert(out@ =~= old(out)@ + Self::spec_encode(self.deep_view()));
    }

    fn parse(bytes: &[u8], pos: usize) -> (r: Option<(Self, usize)>) {
        if pos < bytes.len() {
            Some((bytes[pos], pos + 1))
        } else {
            None
        }
    }
}

impl Encoded for u32 {
    open spec fn encodable(m: u32) -> bool {
        true
    }

    open spec fn spec_encode(m: u32) -> Seq<u8> {
        spec_u32_to_le_bytes(m)
    }

    open spec fn spec_parse(bytes: Seq<u8>) -> Option<(u32, int)> {
        if bytes.len() >= 4 {
            Some((spec_u32_from_le_bytes(bytes.take(4)), 4))
        } else {
            None
        }
    }

    proof fn lemma_parse_encode(m: u32, rest: Seq<u8>) {
        lemma_auto_spec_u32_to_from_le_bytes();
        assert((spec_u32_to_le_bytes(m) + rest).take(4) =~= spec_u32_to_le_bytes(m));
    }

    proof fn lemma_parse_within(bytes: Seq<u8>) {
    }

    fn is_encodable(&self) -> (b: bool) {
        true
    }

    fn encode_into(&self, out: &mut Vec<u8>) {
        let bytes = u32_to_le_bytes(*self);
        out.extend_from_slice(bytes.as_slice());
        assert(out@ =~= old(out)@ + spec_u32_to_le_bytes(*self));
        assert(out@ =~= old(out)@ + Self::spec_encode(self.deep_view()));
    }

    fn parse(bytes: &[u8], pos: usize) -> (r: Option<(Self, usize)>) {
        if bytes.len() - pos < 4 {
            return None;
        }
        let v = u32_from_le_bytes(slice_subrange(bytes, pos, pos + 4));
        assert(bytes@.skip(pos as int).take(4) =~= bytes@.subrange(pos as int, pos + 4));
        Some((v, pos + 4))
    }
}

impl Encoded for u64 {
    open spec fn encodable(m: u64) -> bool {
        true
    }

    open spec fn spec_encode(m: u64) -> Seq<u8> {
        spec_u64_to_le_bytes(m)
    }

    open spec fn spec_parse(bytes: Seq<u8>) -> Option<(u64, int)> {
        if bytes.len() >= 8 {
            Some((spec_u64_from_le_bytes(bytes.take(8)), 8))
        } else {
            None
        }
    }

    proof fn lemma_parse_encode(m: u64, rest: Seq<u8>) {
        lemma_auto_spec_u64_to_from_le_bytes();
        assert((spec_u64_to_le_bytes(m) + rest).take(8) =~= spec_u64_to_le_bytes(m));
    }

    proof fn lemma_parse_within(bytes: Seq<u8>) {
    }

    fn is_encodable(&self) -> (b: bool) {
        true
    }

    fn encode_into(&self, out: &mut Vec<u8>) {
        let bytes = u64_to_le_bytes(*self);
        out.extend_from_slice(bytes.as_slice());
        assert(out@ =~= old(out)@ + spec_u64_to_le_bytes(*self));
        assert(out@ =~= old(out)@ + Self::spec_encode(self.deep_view()));
    }

    fn parse(bytes: &[u8], pos: usize) -> (r: Option<(Self, usize)>) {
        if bytes.len() - pos < 8 {
            return None;
        }
        let v = u64_from_le_bytes(slice_subrange(bytes, pos, pos + 8));
        assert(bytes@.skip(pos as int).take(8) =~= bytes@.subrange(pos as int, pos + 8));
        Some((v, pos + 8))
    }
}

impl Encoded for u128 {
    open spec fn encodable(m: u128) -> bool {
        true
    }

    open spec fn spec_encode(m: u128) -> Seq<u8> {
        spec_u128_to_le_bytes(m)
    }

    open spec fn spec_parse(bytes: Seq<u8>) -> Option<(u128, int)> {
        if bytes.len() >= 16 {
            Some((spec_u128_from_le_bytes(bytes.take(16)), 16))
        } else {
            None
        }
    }

    proof fn lemma_parse_encode(m: u128, rest: Seq<u8>) {
        lemma_auto_spec_u128_to_from_le_bytes();
        assert((spec_u128_to_le_bytes(m) + rest).take(16) =~= spec_u128_to_le_bytes(m));
    }

    proof fn lemma_parse_within(bytes: Seq<u8>) {
    }

    fn is_encodable(&self) -> (b: bool) {
        true
    }

    fn encode_into(&self, out: &mut Vec<u8>) {
        let bytes = u128_to_le_bytes(*self);
        out.extend_from_slice(bytes.as_slice());
        assert(out@ =~= old(out)@ + spec_u128_to_le_bytes(*self));
        assert(out@ =~= old(out)@ + Self::spec_encode(self.deep_view()));
    }

    fn parse(bytes: &[u8], pos: usize) -> (r: Option<(Self, usize)>) {
        if bytes.len() - pos < 16 {
            return None;
        }
        let v = u128_from_le_bytes(slice_subrange(bytes, pos, pos + 16));
        assert(bytes@.skip(pos as int).take(16) =~= bytes@.subrange(pos as int, pos + 16));
        Some((v, pos + 16))
    }
}

/// The encodings of the items of `items`, one after the other.
pub open spec fn spec_encode_items<T: Encoded>(items: Seq<T::V>) -> Seq<u8>
    decreases items.len(),
{
    if items.len() == 0 {
        Seq::empty()
    } else {
        spec_encode_items::<T>(items.drop_last()) + T::spec_encode(items.last())
    }
}

/// The `count` items that `bytes` begins with, and the number of bytes they take.
pub open spec fn spec_parse_items<T: Encoded>(bytes: Seq<u8>, count: nat) -> Option<
    (Seq<T::V>, int),
>
    decreases count,
{
    if count == 0 {
        Some((Seq::empty(), 0))
    } else {
        match spec_parse_items::<T>(bytes, (count - 1) as nat) {
            None => None,
            Some((init, k)) => if 0 <= k <= bytes.len() {
                match T::spec_parse(bytes.skip(k)) {
                    None => None,
                    Some((last, n)) => Some((init.push(last), k + n)),
                }
            } else {
                None
            },
        }
    }
}

/// Items that were encoded one after the other are parsed back, whatever follows.
pub proof fn lemma_parse_encode_items<T: Encoded>(items: Seq<T::V>, rest: Seq<u8>)
    requires
        forall|i: int| 0 <= i < items.len() ==> T::encodable(#[trigger] items[i]),
    ensures
        spec_parse_items::<T>(spec_encode_items::<T>(items) + rest, items.len()) == Some(
            (items, spec_encode_items::<T>(items).len() as int),
        ),
    decreases items.len(),
{
    if items.len() > 0 {
        let init = items.drop_last();
        let last = items.last();
        let head = spec_encode_items::<T>(init);
        let bytes = spec_encode_items::<T>(items) + rest;
        assert(bytes =~= head + (T::spec_encode(last) + rest));
        lemma_parse_encode_items::<T>(init, T::spec_encode(last) + rest);
        assert(bytes.skip(head.len() as int) =~= T::spec_encode(last) + rest);
        T::lemma_parse_encode(last, rest);
        assert(init.push(last) =~= items);
    }
}

/// Parsed items take no more bytes than there are.
pub proof fn lemma_parse_items_within<T: Encoded>(bytes: Seq<u8>, count: nat)
    ensures
        spec_parse_items::<T>(bytes, count) matches Some((items, n)) ==> 0 <= n <= bytes.len()
            && items.len() == count,
    decreases count,
{
    if count > 0 {
        lemma_parse_items_within::<T>(bytes, (count - 1) as nat);
        if let Some((init, k)) = spec_parse_items::<T>(bytes, (count - 1) as nat) {
            T::lemma_parse_within(bytes.skip(k));
        }
    }
}

impl<T: Encoded> Encoded for Vec<T> {
    open spec fn encodable(m: Seq<T::V>) -> bool {
        &&& m.len() <= u32::MAX
        &&& forall|i: int| 0 <= i < m.len() ==> T::encodable(#[trigger] m[i])
    }

    open spec fn spec_encode(m: Seq<T::V>) -> Seq<u8> {
        spec_u32_to_le_bytes(m.len() as u32) + spec_encode_items::<T>(m)
    }

    open spec fn spec_parse(bytes: Seq<u8>) -> Option<(Seq<T::V>, int)> {
        match u32::spec_parse(bytes) {
            None => None,
            Some((count, _)) => match spec_parse_items::<T>(bytes.skip(4), count as nat) {
                None => None,
                Some((items, n)) => Some((items, 4 + n)),
            },
        }
    }

    proof fn lemma_parse_encode(m: Seq<T::V>, rest: Seq<u8>) {
        let count = m.len() as u32;
        let items = spec_encode_items::<T>(m);
        let bytes = Self::spec_encode(m) + rest;
        assert(bytes =~= spec_u32_to_le_bytes(count) + (items + rest));
        u32::lemma_parse_encode(count, items + rest);
        assert(bytes.skip(4) =~= items + rest);
        lemma_parse_encode_items::<T>(m, rest);
    }

    proof fn lemma_parse_within(bytes: Seq<u8>) {
        if let Some((count, _)) = u32::spec_parse(bytes) {
            lemma_parse_items_within::<T>(bytes.skip(4), count as nat);
        }
    }

    fn is_encodable(&self) -> (b: bool) {
        if self.len() > u32::MAX as usize {
            return false;
        }
        let mut i: usize = 0;
        while i < self.len()
            invariant
                i <= self.len(),
                self.len() <= u32::MAX,
                forall|k: int| 0 <= k < i ==> T::encodable(#[trigger] self.deep_view()[k]),
            decreases self.len() - i,
        {
            assert(self.deep_view()[i as int] == self[i as int].deep_view());
            if !self[i].is_encodable() {
                return false;
            }
            i += 1;
        }
        true
    }

    fn encode_into(&self, out: &mut Vec<u8>) {
        let count = self.len() as u32;
        count.encode_into(out);
        let mut i: usize = 0;
        while i < self.len()
            invariant
                i <= self.len(),
                Self::encodable(self.deep_view()),
                out@ == old(out)@ + spec_u32_to_le_bytes(count) + spec_encode_items::<T>(
                    self.deep_view().take(i as int),
                ),
            decreases self.len() - i,
        {
            let ghost before = self.deep_view().take(i as int);
            let ghost after = self.deep_view().take(i + 1);
            assert(after.drop_last() =~= before);
            assert(after.last() == self[i as int].deep_view());
            self[i].encode_into(out);
            i += 1;
        }
        assert(self.deep_view().take(i as int) =~= self.deep_view());
    }

    fn parse(bytes: &[u8], pos: usize) -> (r: Option<(Self, usize)>) {
        let (count, start) = match u32::parse(bytes, pos) {
            Some(p) => p,
            None => {
                return None;
            },
        };
        let ghost tail = bytes@.skip(pos as int).skip(4);
        let mut items: Vec<T> = Vec::new();
        let mut at: usize = start;
        let mut i: u32 = 0;
        while i < count
            invariant
                i <= count,
                start == pos + 4,
                start <= at <= bytes@.len(),
                tail == bytes@.skip(pos as int).skip(4),
                u32::spec_parse(bytes@.skip(pos as int)) == Some((count, 4int)),
                spec_parse_items::<T>(tail, i as nat) == Some((items.deep_view(), at - start)),
            decreases count - i,
        {
            assert(tail =~= bytes@.skip(start as int));
            assert(tail.skip(at - start) =~= bytes@.skip(at as int));
            match T::parse(bytes, at) {
                Some((item, next)) => {
                    let ghost before = items.deep_view();
                    items.push(item);
                    assert(items.deep_view() =~= before.push(item.deep_view()));
                    at = next;
                },
                None => {
                    proof {
                        assert(((i + 1) as nat - 1) as nat == i as nat);
                        assert(spec_parse_items::<T>(tail, (i + 1) as nat) is None);
                        lemma_parse_items_fails_on::<T>(tail, (i + 1) as nat, count as nat);
                    }
                    return None;
                },
            }
            i += 1;
        }
        Some((items, at))
    }
}

/// Where the first `k` items cannot be parsed, no more than `k` can.
pub proof fn lemma_parse_items_fails_on<T: Encoded>(bytes: Seq<u8>, k: nat, count: nat)
    requires
        k <= count,
        spec_parse_items::<T>(bytes, k) is None,
    ensures
        spec_parse_items::<T>(bytes, count) is None,
    decreases count,
{
    if k < count {
        lemma_parse_items_fails_on::<T>(bytes, k, (count - 1) as nat);
    }
}

impl<T: Encoded> Encoded for Option<T> {
    open spec fn encodable(m: Option<T::V>) -> bool {
        match m {
            Some(v) => T::encodable(v),
            None => true,
        }
    }

    open spec fn spec_encode(m: Option<T::V>) -> Seq<u8> {
        match m {
            Some(v) => seq![1u8] + T::spec_encode(v),
            None => seq![0u8],
        }
    }

    open spec fn spec_parse(bytes: Seq<u8>) -> Option<(Option<T::V>, int)> {
        if bytes.len() == 0 {
            None
        } else if bytes[0] == 0 {
            Some((None, 1))
        } else if bytes[0] == 1 {
            match T::spec_parse(bytes.skip(1)) {
                Some((v, n)) => Some((Some(v), 1 + n)),
                None => None,
            }
        } else {
            None
        }
    }

    proof fn lemma_parse_encode(m: Option<T::V>, rest: Seq<u8>) {
        if let Some(v) = m {
            let bytes = Self::spec_encode(m) + rest;
            assert(bytes.skip(1) =~= T::spec_encode(v) + rest);
            T::lemma_parse_encode(v, rest);
        }
    }

    proof fn lemma_parse_within(bytes: Seq<u8>) {
        if bytes.len() > 0 {
            T::lemma_parse_within(bytes.skip(1));
        }
    }

    fn is_encodable(&self) -> (b: bool) {
        match self {
            Some(v) => v.is_encodable(),
            None => true,
        }
    }

    fn encode_into(&self, out: &mut Vec<u8>) {
        match self {
            Some(v) => {
                out.push(1u8);
                v.encode_into(out);
                assert(out@ =~= old(out)@ + (seq![1u8] + T::spec_encode(v.deep_view())));
            },
            None => {
                out.push(0u8);
                assert(out@ =~= old(out)@ + seq![0u8]);
            },
        }
    }

    fn parse(bytes: &[u8], pos: usize) -> (r: Option<(Self, usize)>) {
        if pos >= bytes.len() {
            return None;
        }
        let tag = bytes[pos];
        assert(bytes@.skip(pos as int).skip(1) =~= bytes@.skip(pos + 1));
        if tag == 0 {
            Some((None, pos + 1))
        } else if tag == 1 {
            match T::parse(bytes, pos + 1) {
                Some((v, next)) => Some((Some(v), next)),
                None => None,
            }
        } else {
            None
        }
    }
}

/// `String::from_utf8`: the text that `bytes` holds, if they are valid UTF-8.
#[verifier::external_body]
fn string_from_utf8(bytes: Vec<u8>) -> (r: Option<String>)
    ensures
        r is Some <==> valid_utf8(bytes@),
        r is Some ==> r->Some_0@ == decode_utf8(bytes@),
{
    String::from_utf8(bytes).ok()
}

impl Encoded for String {
    open spec fn encodable(m: Seq<char>) -> bool {
        encode_utf8(m).len() <= u32::MAX
    }

    open spec fn spec_encode(m: Seq<char>) -> Seq<u8> {
        spec_u32_to_le_bytes(encode_utf8(m).len() as u32) + encode_utf8(m)
    }

    open spec fn spec_parse(bytes: Seq<u8>) -> Option<(Seq<char>, int)> {
        match u32::spec_parse(bytes) {
            None => None,
            Some((count, _)) => if bytes.len() - 4 >= count && valid_utf8(
                bytes.subrange(4, 4 + count),
            ) {
                Some((decode_utf8(bytes.subrange(4, 4 + count)), 4 + count))
            } else {
                None
            },
        }
    }

    proof fn lemma_parse_encode(m: Seq<char>, rest: Seq<u8>) {
        let text = encode_utf8(m);
        let count = text.len() as u32;
        let bytes = Self::spec_encode(m) + rest;
        assert(bytes =~= spec_u32_to_le_bytes(count) + (text + rest));
        u32::lemma_parse_encode(count, text + rest);
        assert(bytes.subrange(4, 4 + count) =~= text);
        encode_utf8_valid_utf8(m);
        encode_utf8_decode_utf8(m);
    }

    proof fn lemma_parse_within(bytes: Seq<u8>) {
    }

    fn is_encodable(&self) -> (b: bool) {
        self.as_str().as_bytes().len() <= u32::MAX as usize
    }

    fn encode_into(&self, out: &mut Vec<u8>) {
        let text = self.as_str().as_bytes();
        let count = text.len() as u32;
        count.encode_into(out);
        out.extend_from_slice(text);
        assert(out@ =~= old(out)@ + Self::spec_encode(self.deep_view()));
    }

    fn parse(bytes: &[u8], pos: usize) -> (r: Option<(Self, usize)>) {
        let (count, start) = match u32::parse(bytes, pos) {
            Some(p) => p,
            None => {
                return None;
            },
        };
        if bytes.len() - start < count as usize {
            return None;
        }
        let end = start + count as usize;
        let text = slice_to_vec(slice_subrange(bytes, start, end));
        assert(bytes@.skip(pos as int).subrange(4, 4 + count) =~= text@);
        match string_from_utf8(text) {
            Some(s) => Some((s, end)),
            None => None,
        }
    }
}

/// The value that `bytes` holds at position `at`, and the position after it.
pub open spec fn spec_parse_at<T: Encoded>(bytes: Seq<u8>, at: int) -> Option<(T::V, int)> {
    if 0 <= at <= bytes.len() {
        match T::spec_parse(bytes.skip(at)) {
            Some((m, n)) => Some((m, at + n)),
            None => None,
        }
    } else {
        None
    }
}

/// Reads a value from `bytes` at `at`, as part of a value that begins at `base`.
pub fn parse_field<T: Encoded>(bytes: &[u8], base: usize, at: usize) -> (r: Option<(T, usize)>)
    requires
        base <= at <= bytes@.len(),
    ensures
        match r {
            Some((v, next)) => at <= next <= bytes@.len() && spec_parse_at::<T>(
                bytes@.skip(base as int),
                at - base,
            ) == Some((v.deep_view(), next - base)),
            None => spec_parse_at::<T>(bytes@.skip(base as int), at - base) is None,
        },
{
    assert(bytes@.skip(base as int).skip(at - base) =~= bytes@.skip(at as int));
    T::parse(bytes, at)
}

/// Where `whole` holds the encoding of `m` at `at`, and `tail` after it, `m` is what is
/// parsed at `at`, and `tail` begins where it ends.
pub proof fn lemma_parse_at_encoded<T: Encoded>(whole: Seq<u8>, at: int, m: T::V, tail: Seq<u8>)
    requires
        T::encodable(m),
        0 <= at <= whole.len(),
        whole.skip(at) =~= T::spec_encode(m) + tail,
    ensures
        spec_parse_at::<T>(whole, at) == Some((m, at + T::spec_encode(m).len())),
        at + T::spec_encode(m).len() <= whole.len(),
        whole.skip(at + T::spec_encode(m).len()) =~= tail,
{
    T::lemma_parse_encode(m, tail);
    assert(whole.skip(at).skip(T::spec_encode(m).len() as int) =~= tail);
    assert(whole.skip(at).skip(T::spec_encode(m).len() as int) =~= whole.skip(
        at + T::spec_encode(m).len(),
    ));
}

/// A value parsed at a position ends within the bytes.
pub proof fn lemma_parse_at_within<T: Encoded>(bytes: Seq<u8>, at: int)
    ensures
        spec_parse_at::<T>(bytes, at) matches Some((_, next)) ==> at <= next <= bytes.len(),
{
    if 0 <= at <= bytes.len() {
        T::lemma_parse_within(bytes.skip(at));
    }
}

} // verus!
