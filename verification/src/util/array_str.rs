//! A fixed-capacity string that lives on the stack.
//!
//! Zone abbreviations are short, so they are kept inline in a byte array
//! instead of on the heap. The capacity is part of the type, and the only way
//! to build a value checks the length: nothing is ever truncated.
use crate::util::order::{order_bytes, text_order, TextOrder};
use core::cmp::Ordering;
use vstd::prelude::*;
use vstd::slice::*;
use vstd::string::*;
use vstd::utf8::*;

verus! {

/// The longest abbreviation a zone may carry, in bytes.
pub const ABBREVIATION_MAX: usize = 30;

/// The string type used for zone abbreviations in heap-backed rule sets.
pub type Abbreviation = ArrayStr<ABBREVIATION_MAX>;

/// A bounded string: text of at most `N` bytes, held without the heap.
pub type BoundedString<const N: usize> = ArrayStr<N>;

/// The error of `core::str::from_utf8`, carried through and never inspected.
#[verifier::external_type_specification]
#[verifier::external_body]
pub struct ExUtf8Error(core::str::Utf8Error);

/// `core::str::from_utf8` succeeds exactly on well-formed UTF-8, and the
/// string it then returns is made of the very bytes it was given.
pub assume_specification<'a>[ core::str::from_utf8 ](v: &'a [u8]) -> (r: Result<
    &'a str,
    core::str::Utf8Error,
>)
    ensures
        r is Ok <==> valid_utf8(v@),
        r is Ok ==> r->Ok_0.spec_bytes() == v@,
;

/// A string of at most `N` bytes, stored inline.
///
/// The first `len` bytes are the text; the rest of the buffer is zero, so the
/// buffer as a whole is well-formed UTF-8 as well.
#[derive(Clone, Copy, Debug)]
pub struct ArrayStr<const N: usize> {
    bytes: [u8; N],
    len: u8,
}

impl<const N: usize> View for ArrayStr<N> {
    type V = Seq<char>;

    /// The text that this value holds.
    closed spec fn view(&self) -> Seq<char> {
        decode_utf8(self.spec_bytes())
    }
}

/// A run of zero bytes appended to well-formed UTF-8 keeps it well-formed.
proof fn lemma_zero_tail_is_utf8(bytes: Seq<u8>, len: int)
    requires
        0 <= len <= bytes.len(),
        valid_utf8(bytes.subrange(0, len)),
        forall|i: int| len <= i < bytes.len() ==> bytes[i] == 0u8,
    ensures
        valid_utf8(bytes),
{
    assert forall|i: int| 0 <= len <= i < bytes.len() implies #[trigger] is_leading_byte_width_1(
        bytes[i],
    ) by {
        assert(bytes[i] == 0u8);
        assert(0u8 & 0x80 == 0) by (bit_vector);
    }
    partial_valid_utf8_extend_ascii_block(bytes, len, bytes.len() as int);
    assert(bytes.subrange(0, bytes.len() as int) =~= bytes);
}

/// Two strings are the same text exactly when they are the same bytes.
pub proof fn lemma_text_eq_iff_bytes_eq(a: Seq<u8>, b: Seq<char>)
    requires
        valid_utf8(a),
    ensures
        decode_utf8(a) == b <==> a == encode_utf8(b),
{
    decode_utf8_encode_utf8(a);
    encode_utf8_decode_utf8(b);
}

/// Whether two byte slices hold the same bytes.
fn same_bytes(a: &[u8], b: &[u8]) -> (r: bool)
    ensures
        r == (a@ == b@),
{
    if a.len() != b.len() {
        return false;
    }
    let mut i: usize = 0;
    while i < a.len()
        invariant
            i <= a@.len(),
            a@.len() == b@.len(),
            forall|j: int| 0 <= j < i ==> a@[j] == b@[j],
        decreases a@.len() - i,
    {
        if a[i] != b[i] {
            return false;
        }
        i += 1;
    }
    assert(a@ =~= b@);
    true
}

impl<const N: usize> ArrayStr<N> {
    #[verifier::type_invariant]
    spec fn inv(self) -> bool {
        &&& self.len as int <= N
        &&& valid_utf8(self.bytes@.subrange(0, self.len as int))
        &&& valid_utf8(self.bytes@)
        &&& forall|i: int| self.len as int <= i < N ==> self.bytes@[i] == 0u8
    }

    /// The bytes of the text: the UTF-8 encoding of the view.
    pub closed spec fn spec_bytes(self) -> Seq<u8> {
        self.bytes@.subrange(0, self.len as int)
    }

    /// The whole buffer: the bytes of the text and what follows them.
    pub closed spec fn spec_buffer(self) -> Seq<u8> {
        self.bytes@
    }

    /// What holds of every value: the text is the beginning of the buffer and
    /// fits the capacity, the rest of the buffer is zero, and both the text
    /// and the buffer as a whole are well-formed UTF-8.
    pub open spec fn sound(self) -> bool {
        &&& self.spec_buffer().len() == N
        &&& self.spec_bytes().len() <= Self::capacity()
        &&& self.spec_bytes() == self.spec_buffer().subrange(0, self.spec_bytes().len() as int)
        &&& forall|i: int|
            self.spec_bytes().len() <= i < N ==> (#[trigger] self.spec_buffer()[i]) == 0u8
        &&& valid_utf8(self.spec_bytes())
        &&& valid_utf8(self.spec_buffer())
        &&& self.spec_bytes() == encode_utf8(self@)
    }

    /// The most bytes a value of this type can hold.
    pub open spec fn capacity() -> int {
        if N <= 255 {
            N as int
        } else {
            255
        }
    }

    /// Copies `s` into a new value, or gives `None` when `s` does not fit.
    ///
    /// The length is kept in one byte, so no capacity beyond 255 is of use.
    pub fn new(s: &str) -> (r: Option<ArrayStr<N>>)
        ensures
            r is Some <==> s.spec_bytes().len() <= Self::capacity(),
            r is Some ==> r->0@ == s@ && r->0.spec_bytes() == s.spec_bytes(),
            r is Some ==> r->0.sound(),
    {
        let src = s.as_bytes();
        let len = src.len();
        if len > N || len > 255 {
            return None;
        }
        let mut bytes: [u8; N] = [0u8; N];
        let mut i: usize = 0;
        while i < len
            invariant
                i <= len <= N,
                src@.len() == len,
                forall|j: int| 0 <= j < i ==> bytes@[j] == src@[j],
                forall|j: int| i <= j < N ==> bytes@[j] == 0u8,
            decreases len - i,
        {
            bytes[i] = src[i];
            i += 1;
        }
        proof {
            assert(bytes@.subrange(0, len as int) =~= src@);
            encode_utf8_valid_utf8(s@);
            encode_utf8_decode_utf8(s@);
            lemma_zero_tail_is_utf8(bytes@, len as int);
        }
        Some(ArrayStr { bytes, len: len as u8 })
    }

    /// The text as a string slice.
    pub fn as_str(&self) -> (s: &str)
        ensures
            s@ == self@,
            s.spec_bytes() == self.spec_bytes(),
            self.sound(),
    {
        proof {
            use_type_invariant(self);
            decode_utf8_encode_utf8(self.spec_bytes());
        }
        let all = self.bytes.as_slice();
        let used = slice_subrange(all, 0, self.len as usize);
        match core::str::from_utf8(used) {
            Ok(s) => {
                proof {
                    encode_utf8_decode_utf8(s@);
                }
                s
            },
            Err(_) => vstd::pervasive::unreached(),
        }
    }

    /// How this value stands to `rhs` in the order of text.
    pub fn order_str(&self, rhs: &str) -> (order: TextOrder)
        ensures
            order == text_order(self.spec_bytes(), rhs.spec_bytes()),
    {
        order_bytes(self.as_str().as_bytes(), rhs.as_bytes())
    }

    /// Whether this value and `rhs` are the same text.
    pub fn eq_str(&self, rhs: &str) -> (r: bool)
        ensures
            r == (self@ == rhs@),
    {
        proof {
            use_type_invariant(self);
            lemma_text_eq_iff_bytes_eq(self.spec_bytes(), rhs@);
        }
        same_bytes(self.as_str().as_bytes(), rhs.as_bytes())
    }
}

impl<const N: usize> PartialEq for ArrayStr<N> {
    fn eq(&self, other: &ArrayStr<N>) -> (r: bool) {
        proof {
            use_type_invariant(self);
            use_type_invariant(other);
            lemma_text_eq_iff_bytes_eq(self.spec_bytes(), other@);
            decode_utf8_encode_utf8(other.spec_bytes());
        }
        same_bytes(self.as_str().as_bytes(), other.as_str().as_bytes())
    }
}

impl<const N: usize> vstd::std_specs::cmp::PartialEqSpecImpl for ArrayStr<N> {
    open spec fn obeys_eq_spec() -> bool {
        true
    }

    open spec fn eq_spec(&self, other: &ArrayStr<N>) -> bool {
        self@ == other@
    }
}

impl<const N: usize> Eq for ArrayStr<N> {

}

impl<const N: usize> PartialEq<str> for ArrayStr<N> {
    fn eq(&self, rhs: &str) -> (r: bool) {
        self.eq_str(rhs)
    }
}

impl<const N: usize> vstd::std_specs::cmp::PartialEqSpecImpl<str> for ArrayStr<N> {
    open spec fn obeys_eq_spec() -> bool {
        true
    }

    open spec fn eq_spec(&self, rhs: &str) -> bool {
        self@ == rhs@
    }
}

impl<'a, const N: usize> PartialEq<&'a str> for ArrayStr<N> {
    fn eq(&self, rhs: &&'a str) -> (r: bool) {
        self.eq_str(*rhs)
    }
}

impl<'a, const N: usize> vstd::std_specs::cmp::PartialEqSpecImpl<&'a str> for ArrayStr<N> {
    open spec fn obeys_eq_spec() -> bool {
        true
    }

    open spec fn eq_spec(&self, rhs: &&'a str) -> bool {
        self@ == (*rhs)@
    }
}

impl<const N: usize> PartialEq<ArrayStr<N>> for str {
    fn eq(&self, rhs: &ArrayStr<N>) -> (r: bool) {
        rhs.eq_str(self)
    }
}

impl<const N: usize> vstd::std_specs::cmp::PartialEqSpecImpl<ArrayStr<N>> for str {
    open spec fn obeys_eq_spec() -> bool {
        true
    }

    open spec fn eq_spec(&self, rhs: &ArrayStr<N>) -> bool {
        self@ == rhs@
    }
}

/// The order of text, as std names it.
pub open spec fn ordering_of(order: TextOrder) -> Ordering {
    match order {
        TextOrder::Before => Ordering::Less,
        TextOrder::Same => Ordering::Equal,
        TextOrder::After => Ordering::Greater,
    }
}

impl<const N: usize> PartialOrd for ArrayStr<N> {
    fn partial_cmp(&self, other: &ArrayStr<N>) -> (r: Option<Ordering>) {
        match order_bytes(self.as_str().as_bytes(), other.as_str().as_bytes()) {
            TextOrder::Before => Some(Ordering::Less),
            TextOrder::Same => Some(Ordering::Equal),
            TextOrder::After => Some(Ordering::Greater),
        }
    }
}

impl<const N: usize> vstd::std_specs::cmp::PartialOrdSpecImpl for ArrayStr<N> {
    open spec fn obeys_partial_cmp_spec() -> bool {
        true
    }

    open spec fn partial_cmp_spec(&self, other: &ArrayStr<N>) -> Option<Ordering> {
        Some(ordering_of(text_order(self.spec_bytes(), other.spec_bytes())))
    }
}

impl<const N: usize> PartialOrd<str> for ArrayStr<N> {
    fn partial_cmp(&self, rhs: &str) -> (r: Option<Ordering>) {
        match self.order_str(rhs) {
            TextOrder::Before => Some(Ordering::Less),
            TextOrder::Same => Some(Ordering::Equal),
            TextOrder::After => Some(Ordering::Greater),
        }
    }
}

impl<const N: usize> vstd::std_specs::cmp::PartialOrdSpecImpl<str> for ArrayStr<N> {
    open spec fn obeys_partial_cmp_spec() -> bool {
        true
    }

    open spec fn partial_cmp_spec(&self, rhs: &str) -> Option<Ordering> {
        Some(ordering_of(text_order(self.spec_bytes(), rhs.spec_bytes())))
    }
}

} // verus!
