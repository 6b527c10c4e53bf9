//! HTTP requests, with query parameters and headers as ordered name-to-values lists.
use vstd::prelude::*;

use crate::bodies::{OptionalBody, body_content_type, detected_type};
use crate::content_types::{ContentType, ContentTypeV, parse_content_type};
use crate::text::{lower_of, seq_eq, to_lowercase};

verus! {

/// A request: method, path, query parameters, headers and body.
#[derive(Clone, Debug, PartialEq, Eq)]
pub struct HttpRequest {
    pub method: String,
    pub path: String,
    /// Each parameter name with its values; a value may be absent (`?flag`). The list keeps the
    /// order in which parameters were written; where a name is written twice, lookups by name
    /// take its first entry and whole-list views show both.
    pub query: Option<Vec<(String, Vec<Option<String>>)>>,
    /// Each header name with its values.
    pub headers: Option<Vec<(String, Vec<String>)>>,
    pub body: OptionalBody,
}

/// A name-to-values list as sequences.
pub type MultiMap = Seq<(Seq<char>, Seq<Seq<char>>)>;

pub open spec fn strs_view(v: Seq<String>) -> Seq<Seq<char>> {
    v.map_values(|s: String| s@)
}

pub open spec fn mmap_view(m: Seq<(String, Vec<String>)>) -> MultiMap {
    m.map_values(|e: (String, Vec<String>)| (e.0@, strs_view(e.1@)))
}

/// A query value, with an absent one read as empty.
pub open spec fn value_or_empty(o: Option<String>) -> Seq<char> {
    match o {
        Some(s) => s@,
        None => Seq::empty(),
    }
}

pub open spec fn query_entries(q: Seq<(String, Vec<Option<String>>)>) -> MultiMap {
    q.map_values(|e: (String, Vec<Option<String>>)| (e.0@, e.1@.map_values(|o: Option<String>| value_or_empty(o))))
}

/// The query parameters of a request, absent values read as empty.
pub open spec fn query_view(q: Option<Vec<(String, Vec<Option<String>>)>>) -> MultiMap {
    match q {
        Some(v) => query_entries(v@),
        None => Seq::empty(),
    }
}

/// The headers of a request as written.
pub open spec fn headers_view(h: Option<Vec<(String, Vec<String>)>>) -> MultiMap {
    match h {
        Some(v) => mmap_view(v@),
        None => Seq::empty(),
    }
}

/// The index of the first entry named `k`, or the length where there is none.
pub open spec fn key_index(m: MultiMap, k: Seq<char>) -> int
    decreases m.len(),
{
    if m.len() == 0 {
        0
    } else if m[0].0 == k {
        0
    } else {
        1 + key_index(m.drop_first(), k)
    }
}

/// The values of the first entry named `k`.
pub open spec fn mmap_get(m: MultiMap, k: Seq<char>) -> Option<Seq<Seq<char>>> {
    let i = key_index(m, k);
    if 0 <= i < m.len() {
        Some(m[i].1)
    } else {
        None
    }
}

/// `m` with the values under `k` set to `v`: in place where `k` is there, at the end otherwise.
pub open spec fn put(m: MultiMap, k: Seq<char>, v: Seq<Seq<char>>) -> MultiMap {
    let i = key_index(m, k);
    if 0 <= i < m.len() {
        m.update(i, (k, v))
    } else {
        m.push((k, v))
    }
}

/// The entries with lower-case names; where two names agree, the later values win.
pub open spec fn lowered(raw: MultiMap) -> MultiMap
    decreases raw.len(),
{
    if raw.len() == 0 {
        Seq::empty()
    } else {
        put(lowered(raw.drop_last()), lower_of(raw.last().0), raw.last().1)
    }
}

/// The index of the first entry whose lower-case name is `k`, or the length.
pub open spec fn lower_key_index(m: MultiMap, k: Seq<char>) -> int
    decreases m.len(),
{
    if m.len() == 0 {
        0
    } else if lower_of(m[0].0) == k {
        0
    } else {
        1 + lower_key_index(m.drop_first(), k)
    }
}

/// The first value of the first `content-type` header, names compared in lower case.
pub open spec fn content_type_header(h: MultiMap) -> Option<Seq<char>> {
    let i = lower_key_index(h, "content-type"@);
    if 0 <= i < h.len() && h[i].1.len() > 0 {
        Some(h[i].1[0])
    } else {
        None
    }
}

/// The content type of a request: the body's own, else the `content-type` header where it
/// parses, else what the body looks like.
pub open spec fn request_content_type(r: HttpRequest) -> Option<ContentTypeV> {
    match body_content_type(r.body) {
        Some(c) => Some(c),
        None => match content_type_header(headers_view(r.headers)) {
            Some(h) => match parse_content_type(h) {
                Some(c) => Some(c),
                None => detected_type(r.body),
            },
            None => detected_type(r.body),
        },
    }
}

pub proof fn lemma_key_index(m: MultiMap, k: Seq<char>)
    ensures
        0 <= key_index(m, k) <= m.len(),
        key_index(m, k) < m.len() ==> m[key_index(m, k)].0 == k,
    decreases m.len(),
{
    if m.len() > 0 && m[0].0 != k {
        lemma_key_index(m.drop_first(), k);
    }
}

/// The position of the first entry named `k`, or the length.
pub fn find_key(m: &Vec<(String, Vec<String>)>, k: &str) -> (r: usize)
    ensures
        r == key_index(mmap_view(m@), k@),
{
    let n = m.len();
    let mut i: usize = 0;
    proof {
        assert(mmap_view(m@).subrange(0, n as int) =~= mmap_view(m@));
    }
    while i < n
        invariant
            i <= n == m@.len(),
            key_index(mmap_view(m@), k@) == i + key_index(mmap_view(m@).subrange(i as int, n as int), k@),
        decreases n - i,
    {
        proof {
            assert(mmap_view(m@).subrange(i as int, n as int).drop_first() =~= mmap_view(m@).subrange(i + 1, n as int));
            assert(mmap_view(m@).subrange(i as int, n as int)[0] == mmap_view(m@)[i as int]);
        }
        if seq_eq(m[i].0.as_str(), k) {
            return i;
        }
        i = i + 1;
    }
    i
}

/// A copy of a list of strings.
pub fn copy_strings(v: &Vec<String>) -> (r: Vec<String>)
    ensures
        r@ == v@,
{
    let mut out: Vec<String> = Vec::new();
    let mut i: usize = 0;
    while i < v.len()
        invariant
            i <= v@.len(),
            out@ == v@.subrange(0, i as int),
        decreases v@.len() - i,
    {
        out.push(v[i].clone());
        proof {
            assert(out@ =~= v@.subrange(0, i + 1));
        }
        i = i + 1;
    }
    proof {
        assert(v@.subrange(0, i as int) =~= v@);
    }
    out
}

impl HttpRequest {
    /// The query parameters as a name-to-values list, absent values read as empty.
    pub fn query_map(&self) -> (r: Vec<(String, Vec<String>)>)
        ensures
            mmap_view(r@) == query_view(self.query),
    {
        let mut out: Vec<(String, Vec<String>)> = Vec::new();
        match &self.query {
            Some(q) => {
                let mut i: usize = 0;
                while i < q.len()
                    invariant
                        i <= q@.len(),
                        self.query == Some(*q),
                        mmap_view(out@) == query_entries(q@.subrange(0, i as int)),
                    decreases q@.len() - i,
                {
                    let vals = &q[i].1;
                    let mut vs: Vec<String> = Vec::new();
                    let mut j: usize = 0;
                    while j < vals.len()
                        invariant
                            j <= vals@.len(),
                            strs_view(vs@) == vals@.subrange(0, j as int).map_values(|o: Option<String>| value_or_empty(o)),
                        decreases vals@.len() - j,
                    {
                        let ghost before = strs_view(vs@);
                        let s = match &vals[j] {
                            Some(x) => x.clone(),
                            None => String::new(),
                        };
                        vs.push(s);
                        proof {
                            assert(s@ == value_or_empty(vals@[j as int]));
                            assert(strs_view(vs@) =~= before.push(s@));
                            assert(strs_view(vs@) =~= vals@.subrange(0, j + 1).map_values(|o: Option<String>| value_or_empty(o)));
                        }
                        j = j + 1;
                    }
                    proof {
                        assert(vals@.subrange(0, j as int) =~= vals@);
                    }
                    let ghost before = mmap_view(out@);
                    let name = q[i].0.clone();
                    out.push((name, vs));
                    proof {
                        assert(mmap_view(out@) =~= before.push((name@, strs_view(vs@))));
                        assert(query_entries(q@.subrange(0, i + 1)) =~= query_entries(q@.subrange(0, i as int)).push(
                            (q@[i as int].0@, q@[i as int].1@.map_values(|o: Option<String>| value_or_empty(o))),
                        ));
                    }
                    i = i + 1;
                }
                proof {
                    assert(q@.subrange(0, i as int) =~= q@);
                }
            },
            None => {
                proof {
                    assert(mmap_view(out@) =~= Seq::<(Seq<char>, Seq<Seq<char>>)>::empty());
                }
            },
        }
        out
    }

    /// The headers with lower-case names; where two names agree, the later values win.
    pub fn lowered_headers(&self) -> (r: Vec<(String, Vec<String>)>)
        ensures
            mmap_view(r@) == lowered(headers_view(self.headers)),
    {
        let mut out: Vec<(String, Vec<String>)> = Vec::new();
        proof {
            assert(mmap_view(out@) =~= Seq::<(Seq<char>, Seq<Seq<char>>)>::empty());
        }
        match &self.headers {
            Some(h) => {
                let mut i: usize = 0;
                proof {
                    assert(mmap_view(h@).subrange(0, 0) =~= Seq::<(Seq<char>, Seq<Seq<char>>)>::empty());
                }
                while i < h.len()
                    invariant
                        i <= h@.len(),
                        self.headers == Some(*h),
                        mmap_view(out@) == lowered(mmap_view(h@).subrange(0, i as int)),
                    decreases h@.len() - i,
                {
                    let ghost before = mmap_view(out@);
                    let k = to_lowercase(h[i].0.as_str());
                    let v = copy_strings(&h[i].1);
                    let idx = find_key(&out, k.as_str());
                    proof {
                        lemma_key_index(before, k@);
                        let sub = mmap_view(h@).subrange(0, i + 1);
                        assert(sub.drop_last() =~= mmap_view(h@).subrange(0, i as int));
                        assert(sub.last() == (h@[i as int].0@, strs_view(h@[i as int].1@)));
                    }
                    if idx < out.len() {
                        out.set(idx, (k, v));
                        proof {
                            assert(mmap_view(out@) =~= before.update(idx as int, (k@, strs_view(v@))));
                        }
                    } else {
                        out.push((k, v));
                        proof {
                            assert(mmap_view(out@) =~= before.push((k@, strs_view(v@))));
                        }
                    }
                    i = i + 1;
                }
                proof {
                    assert(mmap_view(h@).subrange(0, i as int) =~= mmap_view(h@));
                }
            },
            None => {},
        }
        out
    }

    /// The first value of the first `content-type` header, names compared in lower case.
    pub fn lookup_content_type(&self) -> (r: Option<String>)
        ensures
            match content_type_header(headers_view(self.headers)) {
                Some(v) => r is Some && r->0@ == v,
                None => r is None,
            },
    {
        match &self.headers {
            Some(h) => {
                let n = h.len();
                let mut i: usize = 0;
                let ghost m = mmap_view(h@);
                proof {
                    assert(m.subrange(0, n as int) =~= m);
                }
                while i < n
                    invariant
                        i <= n == h@.len(),
                        m == mmap_view(h@),
                        self.headers == Some(*h),
                        lower_key_index(m, "content-type"@) == i + lower_key_index(m.subrange(i as int, n as int), "content-type"@),
                    decreases n - i,
                {
                    proof {
                        assert(m.subrange(i as int, n as int).drop_first() =~= m.subrange(i + 1, n as int));
                        assert(m.subrange(i as int, n as int)[0] == m[i as int]);
                    }
                    let k = to_lowercase(h[i].0.as_str());
                    proof {
                        assert(m[i as int] == (h@[i as int].0@, strs_view(h@[i as int].1@)));
                    }
                    if seq_eq(k.as_str(), "content-type") {
                        if h[i].1.len() > 0 {
                            return Some(h[i].1[0].clone());
                        } else {
                            return None;
                        }
                    }
                    i = i + 1;
                }
                None
            },
            None => None,
        }
    }

    /// The content type: the body's own, else the `content-type` header where it parses,
    /// else what the body looks like.
    pub fn content_type(&self) -> (r: Option<ContentType>)
        ensures
            match request_content_type(*self) {
                Some(c) => r is Some && r->0@ == c,
                None => r is None,
            },
    {
        if self.body.has_content_type() {
            return self.body.content_type();
        }
        match self.lookup_content_type() {
            Some(h) => match ContentType::parse(h.as_str()) {
                Ok(c) => Some(c),
                Err(_) => self.body.detect_content_type(),
            },
            None => self.body.detect_content_type(),
        }
    }
}

impl Default for HttpRequest {
    /// `GET /` with no query, no headers and no body.
    fn default() -> (r: HttpRequest)
        ensures
            r.method@ == "GET"@,
            r.path@ == "/"@,
            r.query is None,
            r.headers is None,
            r.body is Missing,
    {
        HttpRequest {
            method: String::from_str("GET"),
            path: String::from_str("/"),
            query: None,
            headers: None,
            body: OptionalBody::Missing,
        }
    }
}

} // verus!
