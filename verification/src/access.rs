//! The two capabilities that every rule-set algorithm is written against:
//! text that can be read, and a table whose rows can be read by index.
//!
//! A rule set decoded at run time keeps its text in `String`s and its tables
//! in `Vec`s. A rule set embedded in the program keeps both in borrowed
//! constants. The algorithms see neither: they see `Text` and `Table`.
use crate::util::array_str::ArrayStr;
use vstd::prelude::*;
use vstd::slice::*;
use vstd::string::*;
use vstd::utf8::*;

verus! {

/// Text that can be read but not changed.
pub trait Text {
    /// The characters of the text.
    spec fn text(&self) -> Seq<char>;

    /// The text as a string slice.
    fn as_text(&self) -> (s: &str)
        ensures
            s@ == self.text(),
    ;
}

impl Text for String {
    open spec fn text(&self) -> Seq<char> {
        self@
    }

    fn as_text(&self) -> (s: &str) {
        self.as_str()
    }
}

impl<'a> Text for &'a str {
    open spec fn text(&self) -> Seq<char> {
        (*self)@
    }

    fn as_text(&self) -> (s: &str) {
        *self
    }
}

impl<const N: usize> Text for ArrayStr<N> {
    open spec fn text(&self) -> Seq<char> {
        self@
    }

    fn as_text(&self) -> (s: &str) {
        self.as_str()
    }
}

/// A table of rows that can be read by index but not changed.
pub trait Table<T: Copy> {
    /// The rows, in order.
    spec fn rows(&self) -> Seq<T>;

    /// The number of rows.
    fn len(&self) -> (n: usize)
        ensures
            n == self.rows().len(),
    ;

    /// The row at index `i`.
    fn get(&self, i: usize) -> (row: T)
        requires
            i < self.rows().len(),
        ensures
            row == self.rows()[i as int],
    ;
}

impl<T: Copy> Table<T> for Vec<T> {
    open spec fn rows(&self) -> Seq<T> {
        self@
    }

    fn len(&self) -> (n: usize) {
        Vec::len(self)
    }

    fn get(&self, i: usize) -> (row: T) {
        self[i]
    }
}

impl<'a, T: Copy> Table<T> for &'a [T] {
    open spec fn rows(&self) -> Seq<T> {
        (*self)@
    }

    fn len(&self) -> (n: usize) {
        <[T]>::len(*self)
    }

    fn get(&self, i: usize) -> (row: T) {
        *slice_index_get(*self, i)
    }
}

/// Whether `start` and `end` mark off a stretch of whole characters in text
/// whose UTF-8 encoding is `bytes`.
pub open spec fn is_text_range(bytes: Seq<u8>, start: int, end: int) -> bool {
    &&& 0 <= start <= end <= bytes.len()
    &&& is_char_boundary(bytes, start)
    &&& is_char_boundary(bytes, end)
}

/// Whether `start` and `end` mark off a stretch of whole characters in `s`.
pub fn check_text_range(s: &str, start: usize, end: usize) -> (ok: bool)
    ensures
        ok == is_text_range(s.spec_bytes(), start as int, end as int),
{
    let len = s.as_bytes().len();
    start <= end && end <= len && s.is_char_boundary(start) && s.is_char_boundary(end)
}

/// The part of `s` from byte `start` up to byte `end`.
pub fn text_range<'a>(s: &'a str, start: usize, end: usize) -> (part: &'a str)
    requires
        is_text_range(s.spec_bytes(), start as int, end as int),
    ensures
        part.spec_bytes() == s.spec_bytes().subrange(start as int, end as int),
        part@ == decode_utf8(s.spec_bytes().subrange(start as int, end as int)),
{
    let ghost bytes = s.spec_bytes();
    proof {
        encode_utf8_valid_utf8(s@);
        valid_utf8_split(bytes, start as int);
    }
    let (_, tail) = s.split_at(start);
    let ghost rest = tail.spec_bytes();
    proof {
        assert(rest =~= bytes.subrange(start as int, bytes.len() as int));
        if end == bytes.len() {
            is_char_boundary_start_end_of_seq(rest);
        } else if end > start {
            is_char_boundary_iff_not_is_continuation_byte(bytes, end as int);
            is_char_boundary_iff_not_is_continuation_byte(rest, end - start);
        }
    }
    let (part, _) = tail.split_at(end - start);
    proof {
        assert(part.spec_bytes() =~= bytes.subrange(start as int, end as int));
        encode_utf8_decode_utf8(part@);
    }
    part
}

} // verus!
