//! Message and request bodies.
use vstd::prelude::*;

use crate::content_types::{ContentType, ContentTypeV, sniffed_type};
use crate::text::utf8_of;

verus! {

/// A body that may be absent, empty, JSON `null`, or present with its bytes.
#[derive(Clone, Debug, PartialEq, Eq)]
pub enum OptionalBody {
    /// No body at all.
    Missing,
    /// A body of zero length.
    Empty,
    /// The JSON `null` value.
    Null,
    /// The bytes, the content type where one was given, and the character set where one was detected.
    Present(Vec<u8>, Option<ContentType>, Option<String>),
}

/// The mathematical form of an [`OptionalBody`].
pub enum BodyV {
    Missing,
    Empty,
    Null,
    Present(Seq<u8>, Option<ContentTypeV>, Option<Seq<char>>),
}

impl View for OptionalBody {
    type V = BodyV;

    open spec fn view(&self) -> BodyV {
        match self {
            OptionalBody::Missing => BodyV::Missing,
            OptionalBody::Empty => BodyV::Empty,
            OptionalBody::Null => BodyV::Null,
            OptionalBody::Present(b, c, s) => BodyV::Present(
                b@,
                match c {
                    Some(x) => Some(x@),
                    None => None,
                },
                match s {
                    Some(x) => Some(x@),
                    None => None,
                },
            ),
        }
    }
}

/// Whether the bytes are the UTF-8 encoding of some characters.
pub open spec fn is_utf8(b: Seq<u8>) -> bool {
    exists|t: Seq<char>| utf8_of(t) == b
}

/// Relies on `std::str::from_utf8`: it accepts exactly the UTF-8 encodings of character
/// sequences, and gives the characters encoded.
#[verifier::external_body]
pub(crate) fn decode_utf8(b: &[u8]) -> (r: Option<String>)
    ensures
        match r {
            Some(t) => utf8_of(t@) == b@,
            None => !is_utf8(b@),
        },
{
    match std::str::from_utf8(b) {
        Ok(s) => Some(s.to_string()),
        Err(_) => None,
    }
}

/// The explicit content type of a body.
pub open spec fn body_content_type(b: OptionalBody) -> Option<ContentTypeV> {
    match b {
        OptionalBody::Present(_, Some(c), _) => Some(c@),
        _ => None,
    }
}

/// The content type that a present body's bytes look like.
pub open spec fn detected_type(b: OptionalBody) -> Option<ContentTypeV> {
    match b {
        OptionalBody::Present(bytes, _, _) => Some(sniffed_type(bytes@)),
        _ => None,
    }
}

/// Whether `t` is the text of a body: the characters whose UTF-8 encoding its bytes are, or
/// empty where the body is not present or its bytes are not UTF-8.
pub open spec fn is_body_text(b: OptionalBody, t: Seq<char>) -> bool {
    match b {
        OptionalBody::Present(bytes, _, _) => if is_utf8(bytes@) {
            utf8_of(t) == bytes@
        } else {
            t.len() == 0
        },
        _ => t.len() == 0,
    }
}

impl OptionalBody {
    /// A copy with the same view.
    pub fn duplicate(&self) -> (r: OptionalBody)
        ensures
            r@ == self@,
    {
        match self {
            OptionalBody::Missing => OptionalBody::Missing,
            OptionalBody::Empty => OptionalBody::Empty,
            OptionalBody::Null => OptionalBody::Null,
            OptionalBody::Present(b, c, cs) => {
                let ct = match c {
                    Some(x) => Some(x.duplicate()),
                    None => None,
                };
                let charset = match cs {
                    Some(x) => Some(x.clone()),
                    None => None,
                };
                OptionalBody::Present(copy_bytes(b), ct, charset)
            },
        }
    }

    /// Whether the body is present.
    pub fn is_present(&self) -> (r: bool)
        ensures
            r == (self is Present),
    {
        match self {
            OptionalBody::Present(..) => true,
            _ => false,
        }
    }

    /// Whether the body is present with an explicit content type.
    pub fn has_content_type(&self) -> (r: bool)
        ensures
            r == body_content_type(*self) is Some,
    {
        match self {
            OptionalBody::Present(_, Some(_), _) => true,
            _ => false,
        }
    }

    /// The explicit content type of the body.
    pub fn content_type(&self) -> (r: Option<ContentType>)
        ensures
            match body_content_type(*self) {
                Some(c) => r is Some && r->0@ == c,
                None => r is None,
            },
    {
        match self {
            OptionalBody::Present(_, Some(c), _) => Some(c.duplicate()),
            _ => None,
        }
    }

    /// The content type that a present body's bytes look like.
    pub fn detect_content_type(&self) -> (r: Option<ContentType>)
        ensures
            match detected_type(*self) {
                Some(c) => r is Some && r->0@ == c,
                None => r is None,
            },
    {
        match self {
            OptionalBody::Present(bytes, _, _) => Some(ContentType::sniff(bytes)),
            _ => None,
        }
    }

    /// The body as text; empty where it is not present or not UTF-8.
    pub fn str_value(&self) -> (r: String)
        ensures
            is_body_text(*self, r@),
    {
        match self {
            OptionalBody::Present(bytes, _, _) => match decode_utf8(bytes.as_slice()) {
                Some(t) => t,
                None => String::new(),
            },
            _ => String::new(),
        }
    }
}

/// A copy of a byte list.
pub fn copy_bytes(b: &Vec<u8>) -> (r: Vec<u8>)
    ensures
        r@ == b@,
{
    let mut out: Vec<u8> = Vec::new();
    let mut i: usize = 0;
    while i < b.len()
        invariant
            i <= b@.len(),
            out@ == b@.subrange(0, i as int),
        decreases b@.len() - i,
    {
        out.push(b[i]);
        proof {
            assert(out@ =~= b@.subrange(0, i + 1));
        }
        i = i + 1;
    }
    proof {
        assert(b@.subrange(0, i as int) =~= b@);
    }
    out
}

} // verus!
