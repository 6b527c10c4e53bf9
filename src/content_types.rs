//! MIME content types: parsing `type/subtype+suffix; key=value`, their text form, and sniffing.
use vstd::prelude::*;

use crate::text::{
    ascii_lower, chars_of, find_char, index_of, join, lemma_index_of, lower_range, string_of, trim,
    trim_range,
};

verus! {

/// A content type such as `application/json` or `application/vnd.api+json; charset=UTF-8`.
#[derive(Clone, Debug, PartialEq, Eq)]
pub struct ContentType {
    pub main_type: String,
    pub sub_type: String,
    pub attributes: Vec<(String, String)>,
    pub suffix: Option<String>,
}

/// The mathematical form of a [`ContentType`].
pub struct ContentTypeV {
    pub main: Seq<char>,
    pub sub: Seq<char>,
    pub attributes: Seq<(Seq<char>, Seq<char>)>,
    pub suffix: Option<Seq<char>>,
}

pub open spec fn attrs_view(a: Seq<(String, String)>) -> Seq<(Seq<char>, Seq<char>)> {
    a.map_values(|e: (String, String)| (e.0@, e.1@))
}

pub open spec fn opt_view(o: Option<String>) -> Option<Seq<char>> {
    match o {
        Some(s) => Some(s@),
        None => None,
    }
}

impl View for ContentType {
    type V = ContentTypeV;

    open spec fn view(&self) -> ContentTypeV {
        ContentTypeV {
            main: self.main_type@,
            sub: self.sub_type@,
            attributes: attrs_view(self.attributes@),
            suffix: opt_view(self.suffix),
        }
    }
}

/// The parameters written by `s`: `;`-separated `key=value` pairs, blanks around each part
/// dropped, keys in lower case, empty pieces skipped. `None` where a piece has no key.
pub open spec fn parse_params(s: Seq<char>) -> Option<Seq<(Seq<char>, Seq<char>)>>
    decreases s.len(),
{
    let i = index_of(s, ';');
    let seg = trim(s.subrange(0, i));
    let e = index_of(seg, '=');
    let key = trim(seg.subrange(0, e));
    let here: Option<Seq<(Seq<char>, Seq<char>)>> = if seg.len() == 0 {
        Some(Seq::empty())
    } else if e < seg.len() && key.len() > 0 {
        Some(seq![(ascii_lower(key), trim(seg.subrange(e + 1, seg.len() as int)))])
    } else {
        None
    };
    let rest = if 0 <= i < s.len() {
        parse_params(s.subrange(i + 1, s.len() as int))
    } else {
        Some(Seq::empty())
    };
    match (here, rest) {
        (Some(h), Some(r)) => Some(h + r),
        _ => None,
    }
}

/// The content type written by `s`, or `None` where `s` is not one.
pub open spec fn parse_content_type(s: Seq<char>) -> Option<ContentTypeV> {
    let semi = index_of(s, ';');
    let base = s.subrange(0, semi);
    let slash = index_of(base, '/');
    let main = trim(base.subrange(0, slash));
    let full = trim(base.subrange(slash + 1, base.len() as int));
    let plus = index_of(full, '+');
    let params = if semi < s.len() {
        parse_params(s.subrange(semi + 1, s.len() as int))
    } else {
        Some(Seq::empty())
    };
    if slash >= base.len() || main.len() == 0 || full.len() == 0 || index_of(full, '/') < full.len() {
        None
    } else {
        match params {
            Some(ps) => Some(
                ContentTypeV {
                    main: ascii_lower(main),
                    sub: ascii_lower(full.subrange(0, plus)),
                    attributes: ps,
                    suffix: if plus < full.len() {
                        Some(ascii_lower(full.subrange(plus + 1, full.len() as int)))
                    } else {
                        None
                    },
                },
            ),
            None => None,
        }
    }
}

/// The text of the parameters: `;key=value` for each.
pub open spec fn attrs_text(a: Seq<(Seq<char>, Seq<char>)>) -> Seq<char>
    decreases a.len(),
{
    if a.len() == 0 {
        Seq::empty()
    } else {
        attrs_text(a.drop_last()) + ";"@ + a.last().0 + "="@ + a.last().1
    }
}

/// The text form of a content type: `main/sub`, then `+suffix`, then the parameters.
pub open spec fn content_type_text(c: ContentTypeV) -> Seq<char> {
    c.main + "/"@ + c.sub + match c.suffix {
        Some(x) => "+"@ + x,
        None => Seq::empty(),
    } + attrs_text(c.attributes)
}

/// The error text for a string that is not a content type.
pub open spec fn invalid_content_type_message(s: Seq<char>) -> Seq<char> {
    "'"@ + s + "' is not a valid content type"@
}

/// The content type with the given parts, no suffix and no parameters.
pub open spec fn plain_type(main: Seq<char>, sub: Seq<char>) -> ContentTypeV {
    ContentTypeV { main, sub, attributes: Seq::empty(), suffix: None }
}

pub open spec fn is_space_byte(b: u8) -> bool {
    b == 32 || b == 9 || b == 10 || b == 13
}

/// The number of leading white-space bytes.
pub open spec fn leading_space(b: Seq<u8>) -> int
    decreases b.len(),
{
    if b.len() > 0 && is_space_byte(b[0]) {
        1 + leading_space(b.drop_first())
    } else {
        0
    }
}

/// The content type that the bytes look like: JSON where the first byte that is not white
/// space is `{` or `[`, XML where it is `<`, plain text otherwise.
pub open spec fn sniffed_type(b: Seq<u8>) -> ContentTypeV {
    let i = leading_space(b);
    if i < b.len() && (b[i] == 123 || b[i] == 91) {
        plain_type("application"@, "json"@)
    } else if i < b.len() && b[i] == 60 {
        plain_type("application"@, "xml"@)
    } else {
        plain_type("text"@, "plain"@)
    }
}

fn plain(main: &str, sub: &str) -> (r: ContentType)
    ensures
        r@ == plain_type(main@, sub@),
{
    let attributes: Vec<(String, String)> = Vec::new();
    let r = ContentType {
        main_type: String::from_str(main),
        sub_type: String::from_str(sub),
        attributes,
        suffix: None,
    };
    proof {
        assert(attrs_view(r.attributes@) =~= Seq::<(Seq<char>, Seq<char>)>::empty());
    }
    r
}

/// Parses the parameters in `cs[from..to]`.
fn parse_params_range(cs: &Vec<char>, from: usize, to: usize) -> (r: Option<Vec<(String, String)>>)
    requires
        from <= to <= cs@.len(),
    ensures
        match r {
            Some(v) => parse_params(cs@.subrange(from as int, to as int)) == Some(attrs_view(v@)),
            None => parse_params(cs@.subrange(from as int, to as int)) is None,
        },
{
    let mut out: Vec<(String, String)> = Vec::new();
    let mut pos = from;
    proof {
        assert(attrs_view(out@) =~= Seq::<(Seq<char>, Seq<char>)>::empty());
    }
    loop
        invariant
            from <= pos <= to <= cs@.len(),
            parse_params(cs@.subrange(from as int, to as int)) == match parse_params(cs@.subrange(pos as int, to as int)) {
                Some(rest) => Some(attrs_view(out@) + rest),
                None => None,
            },
        decreases to - pos,
    {
        let ghost s = cs@.subrange(pos as int, to as int);
        let i = find_char(cs, pos, to, ';');
        let (a, b) = trim_range(cs, pos, i);
        proof {
            lemma_index_of(s, ';');
            assert(cs@.subrange(pos as int, i as int) =~= s.subrange(0, i - pos));
        }
        let ghost old_out = attrs_view(out@);
        if a < b {
            let e = find_char(cs, a, b, '=');
            let (ka, kb) = trim_range(cs, a, e);
            let ghost seg = cs@.subrange(a as int, b as int);
            proof {
                lemma_index_of(seg, '=');
                assert(cs@.subrange(a as int, e as int) =~= seg.subrange(0, e - a));
            }
            if e == b || ka == kb {
                return None;
            }
            let key = lower_range(cs, ka, kb);
            let (va, vb) = trim_range(cs, e + 1, b);
            let value = string_of(cs, va, vb);
            proof {
                assert(cs@.subrange(e + 1, b as int) =~= seg.subrange(e - a + 1, seg.len() as int));
            }
            out.push((key, value));
            proof {
                assert(attrs_view(out@) =~= old_out + seq![(key@, value@)]);
            }
        } else {
            proof {
                assert(attrs_view(out@) =~= old_out + Seq::<(Seq<char>, Seq<char>)>::empty());
            }
        }
        if i == to {
            proof {
                assert(attrs_view(out@) + Seq::<(Seq<char>, Seq<char>)>::empty() =~= attrs_view(out@));
            }
            return Some(out);
        }
        proof {
            assert(cs@.subrange(i + 1, to as int) =~= s.subrange(i - pos + 1, s.len() as int));
            match parse_params(cs@.subrange(i + 1, to as int)) {
                Some(rest) => {
                    assert(old_out + (attrs_view(out@).subrange(old_out.len() as int, attrs_view(out@).len() as int) + rest) =~= attrs_view(out@) + rest);
                },
                None => {},
            }
        }
        pos = i + 1;
    }
}

impl ContentType {
    /// Parses a content type such as `application/json; charset=UTF-8`.
    pub fn parse(s: &str) -> (r: Result<ContentType, String>)
        ensures
            match r {
                Ok(c) => parse_content_type(s@) == Some(c@),
                Err(e) => parse_content_type(s@) is None && e@ == invalid_content_type_message(s@),
            },
    {
        let cs = chars_of(s);
        let n = cs.len();
        let semi = find_char(&cs, 0, n, ';');
        let slash = find_char(&cs, 0, semi, '/');
        let ghost base = s@.subrange(0, semi as int);
        proof {
            assert(cs@.subrange(0, n as int) =~= s@);
            assert(cs@.subrange(0, semi as int) =~= base);
            lemma_index_of(base, '/');
        }
        if slash == semi {
            return Err(invalid_message(s));
        }
        let (a, b) = trim_range(&cs, 0, slash);
        let (c, d) = trim_range(&cs, slash + 1, semi);
        proof {
            assert(cs@.subrange(0, slash as int) =~= base.subrange(0, slash as int));
            assert(cs@.subrange(slash + 1, semi as int) =~= base.subrange(slash + 1, base.len() as int));
        }
        let ghost full = cs@.subrange(c as int, d as int);
        if a == b || c == d {
            return Err(invalid_message(s));
        }
        let other = find_char(&cs, c, d, '/');
        if other < d {
            return Err(invalid_message(s));
        }
        let plus = find_char(&cs, c, d, '+');
        proof {
            lemma_index_of(full, '+');
        }
        let params = if semi < n {
            parse_params_range(&cs, semi + 1, n)
        } else {
            let v: Vec<(String, String)> = Vec::new();
            proof {
                assert(attrs_view(v@) =~= Seq::<(Seq<char>, Seq<char>)>::empty());
            }
            Some(v)
        };
        match params {
            Some(attributes) => {
                let main_type = lower_range(&cs, a, b);
                let sub_type = lower_range(&cs, c, plus);
                proof {
                    assert(cs@.subrange(c as int, plus as int) =~= full.subrange(0, plus - c));
                }
                let suffix = if plus < d {
                    proof {
                        assert(cs@.subrange(plus + 1, d as int) =~= full.subrange(plus - c + 1, full.len() as int));
                    }
                    Some(lower_range(&cs, plus + 1, d))
                } else {
                    None
                };
                Ok(ContentType { main_type, sub_type, attributes, suffix })
            },
            None => Err(invalid_message(s)),
        }
    }

    /// The text form: `main/sub`, then `+suffix`, then `;key=value` for each parameter.
    pub fn to_string(&self) -> (r: String)
        ensures
            r@ == content_type_text(self@),
    {
        let mut out = join(self.main_type.as_str(), "/");
        out = join(out.as_str(), self.sub_type.as_str());
        match &self.suffix {
            Some(x) => {
                out = join(out.as_str(), "+");
                out = join(out.as_str(), x.as_str());
            },
            None => {},
        }
        let ghost head = out@;
        let mut i: usize = 0;
        while i < self.attributes.len()
            invariant
                i <= self.attributes@.len(),
                out@ == head + attrs_text(attrs_view(self.attributes@).subrange(0, i as int)),
            decreases self.attributes@.len() - i,
        {
            out = join(out.as_str(), ";");
            out = join(out.as_str(), self.attributes[i].0.as_str());
            out = join(out.as_str(), "=");
            out = join(out.as_str(), self.attributes[i].1.as_str());
            proof {
                let a = attrs_view(self.attributes@).subrange(0, i + 1);
                assert(a.drop_last() =~= attrs_view(self.attributes@).subrange(0, i as int));
            }
            i = i + 1;
        }
        proof {
            assert(attrs_view(self.attributes@).subrange(0, i as int) =~= attrs_view(self.attributes@));
        }
        out
    }

    /// A copy with the same view.
    pub fn duplicate(&self) -> (r: ContentType)
        ensures
            r@ == self@,
    {
        let mut attributes: Vec<(String, String)> = Vec::new();
        let mut i: usize = 0;
        while i < self.attributes.len()
            invariant
                i <= self.attributes@.len(),
                attrs_view(attributes@) == attrs_view(self.attributes@).subrange(0, i as int),
            decreases self.attributes@.len() - i,
        {
            let ghost before = attrs_view(attributes@);
            let k = self.attributes[i].0.clone();
            let v = self.attributes[i].1.clone();
            attributes.push((k, v));
            proof {
                assert(attrs_view(attributes@) =~= before.push((k@, v@)));
                assert(attrs_view(self.attributes@)[i as int] == (k@, v@));
                assert(attrs_view(attributes@) =~= attrs_view(self.attributes@).subrange(0, i + 1));
            }
            i = i + 1;
        }
        proof {
            assert(attrs_view(self.attributes@).subrange(0, i as int) =~= attrs_view(self.attributes@));
        }
        let suffix = match &self.suffix {
            Some(x) => Some(x.clone()),
            None => None,
        };
        ContentType {
            main_type: self.main_type.clone(),
            sub_type: self.sub_type.clone(),
            attributes,
            suffix,
        }
    }

    /// `application/json`.
    pub fn json() -> (r: ContentType)
        ensures
            r@ == plain_type("application"@, "json"@),
    {
        plain("application", "json")
    }

    /// `application/xml`.
    pub fn xml() -> (r: ContentType)
        ensures
            r@ == plain_type("application"@, "xml"@),
    {
        plain("application", "xml")
    }

    /// `text/plain`.
    pub fn text() -> (r: ContentType)
        ensures
            r@ == plain_type("text"@, "plain"@),
    {
        plain("text", "plain")
    }

    /// The content type that the bytes look like.
    pub fn sniff(b: &Vec<u8>) -> (r: ContentType)
        ensures
            r@ == sniffed_type(b@),
    {
        let mut i: usize = 0;
        proof {
            assert(b@.subrange(0, b@.len() as int) =~= b@);
        }
        while i < b.len() && (b[i] == 32 || b[i] == 9 || b[i] == 10 || b[i] == 13)
            invariant
                i <= b@.len(),
                leading_space(b@) == i + leading_space(b@.subrange(i as int, b@.len() as int)),
            decreases b@.len() - i,
        {
            proof {
                assert(b@.subrange(i as int, b@.len() as int).drop_first() =~= b@.subrange(i + 1, b@.len() as int));
            }
            i = i + 1;
        }
        if i < b.len() && (b[i] == 123 || b[i] == 91) {
            Self::json()
        } else if i < b.len() && b[i] == 60 {
            Self::xml()
        } else {
            Self::text()
        }
    }
}

impl Default for ContentType {
    /// The empty content type, with no parts.
    fn default() -> (r: ContentType)
        ensures
            r@ == plain_type(Seq::empty(), Seq::empty()),
    {
        let r = plain("", "");
        proof {
            reveal_strlit("");
            assert(""@ =~= Seq::<char>::empty());
        }
        r
    }
}

fn invalid_message(s: &str) -> (r: String)
    ensures
        r@ == invalid_content_type_message(s@),
{
    let a = join("'", s);
    join(a.as_str(), "' is not a valid content type")
}

} // verus!
