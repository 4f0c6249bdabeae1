//! Byte container optionally encoded as UTF-8.

use std::borrow::Cow;
use std::cmp::Ordering;
use vstd::prelude::*;
use vstd::utf8::{valid_utf8, encode_utf8, encode_utf8_valid_utf8};
use vstd::string::StrSliceExecFns;
use crate::stream::{bytes_equal, compare_bytes, lex_order, ByteOrder};

verus! {

/// A name, a comment or another field of an archive: either text, or bytes
/// of which nothing is known. A value made from bytes stays `Bytes` even
/// where the bytes are valid UTF-8, until it is decoded on request.
#[derive(Debug)]
pub enum MaybeUTF8 {
    UTF8(String),
    Bytes(Vec<u8>),
}

/// `core::str::from_utf8`: it succeeds exactly on well-formed UTF-8, and the
/// string slice that it returns is encoded by the bytes that it was given.
#[verifier::external_body]
fn str_from_utf8(v: &[u8]) -> (res: Option<&str>)
    ensures
        res is Some <==> valid_utf8(v@),
        res matches Some(s) ==> encode_utf8(s@) == v@,
{
    match core::str::from_utf8(v) {
        Ok(s) => Some(s),
        Err(_) => None,
    }
}

/// The text that a lossy decoding makes of bytes: the text that they encode
/// where they are well-formed UTF-8, and otherwise a text in which the
/// replacement character stands for what is malformed.
pub uninterp spec fn lossy_text(bytes: Seq<u8>) -> Seq<char>;

/// `String::from_utf8_lossy`: the result depends on the bytes alone, and
/// `lossy_text` is its name. Well-formed bytes come back as the text that
/// they encode.
#[verifier::external_body]
fn string_from_utf8_lossy(v: &[u8]) -> (res: Cow<'_, str>)
    ensures
        res@ == lossy_text(v@),
        valid_utf8(v@) ==> encode_utf8(res@) == v@,
{
    String::from_utf8_lossy(v)
}

impl View for MaybeUTF8 {
    type V = Seq<u8>;

    /// The underlying bytes, whatever the variant.
    open spec fn view(&self) -> Seq<u8> {
        match self {
            MaybeUTF8::UTF8(s) => encode_utf8(s@),
            MaybeUTF8::Bytes(v) => v@,
        }
    }
}

impl MaybeUTF8 {
    /// Whether the value is held as text.
    pub open spec fn is_text(&self) -> bool {
        self is UTF8
    }

    /// The empty text.
    pub fn new() -> (r: MaybeUTF8)
        ensures
            r.is_text(),
            r@ == Seq::<u8>::empty(),
    {
        let r = MaybeUTF8::UTF8(String::new());
        assert(r@ =~= Seq::<u8>::empty());
        r
    }

    pub fn from_str(s: String) -> (r: MaybeUTF8)
        ensures
            r == MaybeUTF8::UTF8(s),
    {
        MaybeUTF8::UTF8(s)
    }

    pub fn from_bytes(v: Vec<u8>) -> (r: MaybeUTF8)
        ensures
            r == MaybeUTF8::Bytes(v),
    {
        MaybeUTF8::Bytes(v)
    }

    pub fn as_bytes(&self) -> (r: &[u8])
        ensures
            r@ == self@,
    {
        match self {
            MaybeUTF8::UTF8(s) => s.as_str().as_bytes(),
            MaybeUTF8::Bytes(v) => v.as_slice(),
        }
    }

    /// The value as text: always for the text variant, and for bytes exactly
    /// where they are well-formed UTF-8.
    pub fn as_str(&self) -> (r: Option<&str>)
        ensures
            r is Some <==> valid_utf8(self@),
            r matches Some(s) ==> encode_utf8(s@) == self@,
            self matches MaybeUTF8::UTF8(t) ==> r matches Some(s) && s@ == t@,
    {
        match self {
            MaybeUTF8::UTF8(s) => {
                proof {
                    encode_utf8_valid_utf8(s@);
                }
                Some(s.as_str())
            },
            MaybeUTF8::Bytes(v) => str_from_utf8(v.as_slice()),
        }
    }

    /// The text of the value, or what `as_cow` makes of its bytes.
    pub fn map_as_cow<'a, F: FnOnce(&'a [u8]) -> Cow<'a, str>>(&'a self, as_cow: F) -> (r: Cow<'a, str>)
        requires
            self matches MaybeUTF8::Bytes(v) ==> forall|b: &'a [u8]| b@ == v@ ==> as_cow.requires((b,)),
        ensures
            match self {
                MaybeUTF8::UTF8(s) => r@ == s@,
                MaybeUTF8::Bytes(v) => exists|b: &'a [u8]| b@ == v@ && as_cow.ensures((b,), r),
            },
    {
        match self {
            MaybeUTF8::UTF8(s) => Cow::Borrowed(s.as_str()),
            MaybeUTF8::Bytes(v) => as_cow(v.as_slice()),
        }
    }

    /// The value as text, with the replacement character in place of what
    /// is no well-formed UTF-8.
    pub fn as_cow(&self) -> (r: Cow<'_, str>)
        ensures
            match self {
                MaybeUTF8::UTF8(s) => r@ == s@,
                MaybeUTF8::Bytes(v) => r@ == lossy_text(v@),
            },
            valid_utf8(self@) ==> encode_utf8(r@) == self@,
    {
        match self {
            MaybeUTF8::UTF8(s) => Cow::Borrowed(s.as_str()),
            MaybeUTF8::Bytes(v) => string_from_utf8_lossy(v.as_slice()),
        }
    }

    /// The text of the value, or the value itself where its bytes are no
    /// well-formed UTF-8.
    pub fn into_str(self) -> (r: Result<String, MaybeUTF8>)
        ensures
            r is Ok <==> valid_utf8(self@),
            r matches Ok(s) ==> encode_utf8(s@) == self@,
            r matches Err(m) ==> m == self,
            self matches MaybeUTF8::UTF8(t) ==> r matches Ok(s) && s == t,
    {
        match self {
            MaybeUTF8::UTF8(s) => {
                proof {
                    encode_utf8_valid_utf8(s@);
                }
                Ok(s)
            },
            MaybeUTF8::Bytes(v) => {
                let text: Option<String> = match str_from_utf8(v.as_slice()) {
                    Some(s) => Some(s.to_owned()),
                    None => None,
                };
                match text {
                    Some(s) => Ok(s),
                    None => Err(MaybeUTF8::Bytes(v)),
                }
            },
        }
    }

    /// The text of the value, or what `into_str` makes of its bytes.
    pub fn map_into_str<F: FnOnce(Vec<u8>) -> String>(self, into_str: F) -> (r: String)
        requires
            self matches MaybeUTF8::Bytes(v) ==> into_str.requires((v,)),
        ensures
            match self {
                MaybeUTF8::UTF8(s) => r == s,
                MaybeUTF8::Bytes(v) => into_str.ensures((v,), r),
            },
    {
        match self {
            MaybeUTF8::UTF8(s) => s,
            MaybeUTF8::Bytes(v) => into_str(v),
        }
    }

    /// The text of the value, with the replacement character in place of
    /// what is no well-formed UTF-8.
    pub fn into_str_lossy(self) -> (r: String)
        ensures
            match self {
                MaybeUTF8::UTF8(s) => r == s,
                MaybeUTF8::Bytes(v) => r@ == lossy_text(v@),
            },
            valid_utf8(self@) ==> encode_utf8(r@) == self@,
    {
        match self {
            MaybeUTF8::UTF8(s) => s,
            MaybeUTF8::Bytes(v) => match string_from_utf8_lossy(v.as_slice()) {
                Cow::Borrowed(b) => b.to_owned(),
                Cow::Owned(o) => o,
            },
        }
    }

    pub fn into_bytes(self) -> (r: Vec<u8>)
        ensures
            r@ == self@,
    {
        match self {
            MaybeUTF8::UTF8(s) => s.as_str().as_bytes_vec(),
            MaybeUTF8::Bytes(v) => v,
        }
    }

    /// The number of bytes.
    pub fn len(&self) -> (n: usize)
        ensures
            n == self@.len(),
    {
        match self {
            MaybeUTF8::UTF8(s) => s.as_str().as_bytes().len(),
            MaybeUTF8::Bytes(v) => v.len(),
        }
    }

    /// Empties the value and keeps its variant.
    pub fn clear(&mut self)
        ensures
            final(self)@ == Seq::<u8>::empty(),
            final(self).is_text() == old(self).is_text(),
    {
        let text: bool = match self {
            MaybeUTF8::UTF8(_) => true,
            MaybeUTF8::Bytes(_) => false,
        };
        if text {
            *self = MaybeUTF8::UTF8(String::new());
        } else {
            *self = MaybeUTF8::Bytes(Vec::new());
        }
        assert(self@ =~= Seq::<u8>::empty());
    }
}

impl Clone for MaybeUTF8 {
    fn clone(&self) -> (r: MaybeUTF8)
        ensures
            r@ == self@,
            r.is_text() == self.is_text(),
    {
        match self {
            MaybeUTF8::UTF8(s) => MaybeUTF8::UTF8(s.clone()),
            MaybeUTF8::Bytes(v) => {
                let c: Vec<u8> = v.clone();
                assert(c@ =~= v@);
                MaybeUTF8::Bytes(c)
            },
        }
    }
}

impl Default for MaybeUTF8 {
    fn default() -> (r: MaybeUTF8)
        ensures
            r.is_text(),
            r@ == Seq::<u8>::empty(),
    {
        MaybeUTF8::new()
    }
}

impl PartialEq for MaybeUTF8 {
    /// Two values are equal where their bytes are, whatever the variants.
    fn eq(&self, other: &MaybeUTF8) -> (res: bool) {
        bytes_equal(self.as_bytes(), other.as_bytes())
    }
}

impl vstd::std_specs::cmp::PartialEqSpecImpl for MaybeUTF8 {
    open spec fn obeys_eq_spec() -> bool {
        true
    }

    open spec fn eq_spec(&self, other: &MaybeUTF8) -> bool {
        self@ == other@
    }
}

impl Eq for MaybeUTF8 {
}

impl PartialOrd for MaybeUTF8 {
    /// Two values are ordered as their bytes are in the order of a
    /// dictionary, whatever the variants.
    fn partial_cmp(&self, other: &MaybeUTF8) -> (res: Option<Ordering>) {
        match compare_bytes(self.as_bytes(), other.as_bytes()) {
            ByteOrder::Less => Some(Ordering::Less),
            ByteOrder::Equal => Some(Ordering::Equal),
            ByteOrder::Greater => Some(Ordering::Greater),
        }
    }
}

impl vstd::std_specs::cmp::PartialOrdSpecImpl for MaybeUTF8 {
    open spec fn obeys_partial_cmp_spec() -> bool {
        true
    }

    open spec fn partial_cmp_spec(&self, other: &MaybeUTF8) -> Option<Ordering> {
        match lex_order(self@, other@) {
            ByteOrder::Less => Some(Ordering::Less),
            ByteOrder::Equal => Some(Ordering::Equal),
            ByteOrder::Greater => Some(Ordering::Greater),
        }
    }
}

} // verus!
