//! Path expressions (`$.a.b[0]`, `$['x'].*`) that address parts of a request or a document.
use vstd::prelude::*;

use crate::text::{chars_of, join, string_of};

verus! {

/// One step of a path expression.
#[derive(Clone, Debug, PartialEq, Eq)]
pub enum PathToken {
    /// The root marker `$`.
    Root,
    /// A named field, written `.name` or `['name']`.
    Field(String),
    /// A position in a list, written `[n]`.
    Index(usize),
    /// Any field or position, written `.*` or `[*]`.
    Star,
}

/// The mathematical form of a [`PathToken`].
pub enum TokenSpec {
    Root,
    Field(Seq<char>),
    Index(nat),
    Star,
}

impl View for PathToken {
    type V = TokenSpec;

    open spec fn view(&self) -> TokenSpec {
        match self {
            PathToken::Root => TokenSpec::Root,
            PathToken::Field(f) => TokenSpec::Field(f@),
            PathToken::Index(i) => TokenSpec::Index(*i as nat),
            PathToken::Star => TokenSpec::Star,
        }
    }
}

impl PathToken {
    /// Whether this token is a list position.
    pub fn is_index(&self) -> (r: bool)
        ensures
            r == (self is Index),
    {
        match self {
            PathToken::Index(_) => true,
            _ => false,
        }
    }
}

/// A parsed path expression: its tokens and the text it was written as.
#[derive(Clone, Debug, PartialEq, Eq)]
pub struct DocPath {
    pub path_tokens: Vec<PathToken>,
    pub expr: String,
}

/// The first index at or after `i` that ends a plain field name.
pub open spec fn name_end(s: Seq<char>, i: int) -> int
    decreases s.len() - i,
{
    if i >= s.len() || s[i] == '.' || s[i] == '[' {
        i
    } else {
        name_end(s, i + 1)
    }
}

/// The first index at or after `i` that holds a single quote.
pub open spec fn quote_end(s: Seq<char>, i: int) -> int
    decreases s.len() - i,
{
    if i >= s.len() || s[i] == '\'' {
        i
    } else {
        quote_end(s, i + 1)
    }
}

pub open spec fn is_digit(c: char) -> bool {
    '0' <= c && c <= '9'
}

/// The first index at or after `i` that does not hold a decimal digit.
pub open spec fn digits_end(s: Seq<char>, i: int) -> int
    decreases s.len() - i,
{
    if i >= s.len() || !is_digit(s[i]) {
        i
    } else {
        digits_end(s, i + 1)
    }
}

/// The number written by the digits `s[i..j]`.
pub open spec fn digits_val(s: Seq<char>, i: int, j: int) -> nat
    decreases j - i,
{
    if j <= i {
        0
    } else {
        digits_val(s, i, j - 1) * 10 + ((s[j - 1] as int) - 48) as nat
    }
}

/// The tokens written by `s[i..]`, or `None` where it does not follow the grammar.
pub open spec fn parse_tokens(s: Seq<char>, i: int) -> Option<Seq<TokenSpec>>
    decreases s.len() - i,
{
    if i >= s.len() || i < 0 {
        Some(Seq::empty())
    } else if s[i] == '.' {
        let j = name_end(s, i + 1);
        if j > i + 1 && j <= s.len() {
            let name = s.subrange(i + 1, j);
            let tok = if name == seq!['*'] {
                TokenSpec::Star
            } else {
                TokenSpec::Field(name)
            };
            match parse_tokens(s, j) {
                Some(rest) => Some(seq![tok] + rest),
                None => None,
            }
        } else {
            None
        }
    } else if s[i] == '[' {
        if i + 1 < s.len() && s[i + 1] == '\'' {
            let k = quote_end(s, i + 2);
            if k >= i + 2 && k + 1 < s.len() && s[k + 1] == ']' {
                match parse_tokens(s, k + 2) {
                    Some(rest) => Some(seq![TokenSpec::Field(s.subrange(i + 2, k))] + rest),
                    None => None,
                }
            } else {
                None
            }
        } else if i + 2 < s.len() && s[i + 1] == '*' && s[i + 2] == ']' {
            match parse_tokens(s, i + 3) {
                Some(rest) => Some(seq![TokenSpec::Star] + rest),
                None => None,
            }
        } else {
            let j = digits_end(s, i + 1);
            if j > i + 1 && j < s.len() && s[j] == ']' && digits_val(s, i + 1, j) <= usize::MAX {
                match parse_tokens(s, j + 1) {
                    Some(rest) => Some(seq![TokenSpec::Index(digits_val(s, i + 1, j))] + rest),
                    None => None,
                }
            } else {
                None
            }
        }
    } else {
        None
    }
}

/// The tokens of a path expression: `$` followed by fields, positions and wildcards.
pub open spec fn parse_path(s: Seq<char>) -> Option<Seq<TokenSpec>> {
    if s.len() > 0 && s[0] == '$' {
        match parse_tokens(s, 1) {
            Some(rest) => Some(seq![TokenSpec::Root] + rest),
            None => None,
        }
    } else {
        None
    }
}

pub open spec fn tokens_view(v: Seq<PathToken>) -> Seq<TokenSpec> {
    v.map_values(|t: PathToken| t@)
}

/// The error text for an expression that is not a path.
pub open spec fn invalid_path_message(s: Seq<char>) -> Seq<char> {
    seq!['"'] + s + "\" is not a valid path expression"@
}

/// The first field of a token sequence.
pub open spec fn first_field_of(t: Seq<TokenSpec>) -> Option<Seq<char>>
    decreases t.len(),
{
    if t.len() == 0 {
        None
    } else {
        match t[0] {
            TokenSpec::Field(f) => Some(f),
            _ => first_field_of(t.drop_first()),
        }
    }
}

/// The last field of a token sequence.
pub open spec fn last_field_of(t: Seq<TokenSpec>) -> Option<Seq<char>>
    decreases t.len(),
{
    if t.len() == 0 {
        None
    } else {
        match t.last() {
            TokenSpec::Field(f) => Some(f),
            _ => last_field_of(t.drop_last()),
        }
    }
}

fn scan_name(s: &Vec<char>, from: usize) -> (j: usize)
    requires
        from <= s@.len(),
    ensures
        j == name_end(s@, from as int),
        from <= j <= s@.len(),
{
    let mut j = from;
    while j < s.len() && s[j] != '.' && s[j] != '['
        invariant
            from <= j <= s@.len(),
            name_end(s@, from as int) == name_end(s@, j as int),
        decreases s@.len() - j,
    {
        j = j + 1;
    }
    j
}

fn scan_quote(s: &Vec<char>, from: usize) -> (k: usize)
    requires
        from <= s@.len(),
    ensures
        k == quote_end(s@, from as int),
        from <= k <= s@.len(),
{
    let mut k = from;
    while k < s.len() && s[k] != '\''
        invariant
            from <= k <= s@.len(),
            quote_end(s@, from as int) == quote_end(s@, k as int),
        decreases s@.len() - k,
    {
        k = k + 1;
    }
    k
}

proof fn lemma_digits_grow(s: Seq<char>, i: int, k: int, j: int)
    requires
        i <= k <= j,
        forall|m: int| i <= m < j ==> is_digit(#[trigger] s[m]),
    ensures
        digits_val(s, i, k) <= digits_val(s, i, j),
    decreases j - k,
{
    if k < j {
        lemma_digits_grow(s, i, k, j - 1);
        assert(digits_val(s, i, j) == digits_val(s, i, j - 1) * 10 + ((s[j - 1] as int) - 48) as nat);
    }
}

/// The end of the digits starting at `from`, and their value where it fits in `usize`.
fn scan_digits(s: &Vec<char>, from: usize) -> (r: (usize, Option<usize>))
    requires
        from <= s@.len(),
    ensures
        r.0 == digits_end(s@, from as int),
        from <= r.0 <= s@.len(),
        r.1 is Some <==> digits_val(s@, from as int, r.0 as int) <= usize::MAX,
        r.1 is Some ==> r.1->0 == digits_val(s@, from as int, r.0 as int),
{
    let mut j = from;
    let mut v: usize = 0;
    let mut fits = true;
    while j < s.len() && '0' <= s[j] && s[j] <= '9'
        invariant
            from <= j <= s@.len(),
            digits_end(s@, from as int) == digits_end(s@, j as int),
            forall|m: int| from <= m < j ==> is_digit(#[trigger] s@[m]),
            fits ==> v == digits_val(s@, from as int, j as int),
            !fits ==> digits_val(s@, from as int, j as int) > usize::MAX,
        decreases s@.len() - j,
    {
        let d = ((s[j] as u8) - 48) as usize;
        proof {
            assert(digits_val(s@, from as int, j + 1) == digits_val(s@, from as int, j as int) * 10 + d);
        }
        if fits {
            if v > (usize::MAX - d) / 10 {
                fits = false;
                proof {
                    assert(v * 10 + d > usize::MAX) by (nonlinear_arith)
                        requires v > (usize::MAX - d) / 10, d <= 9;
                }
            } else {
                proof {
                    assert(v * 10 + d <= usize::MAX) by (nonlinear_arith)
                        requires v <= (usize::MAX - d) / 10, d <= 9;
                }
                v = v * 10 + d;
            }
        } else {
            proof {
                lemma_digits_grow(s@, from as int, j as int, j + 1);
            }
        }
        j = j + 1;
    }
    if fits {
        (j, Some(v))
    } else {
        (j, None)
    }
}

impl DocPath {
    /// The view of the tokens.
    pub open spec fn tokens(&self) -> Seq<TokenSpec> {
        tokens_view(self.path_tokens@)
    }

    /// The path `$`.
    pub fn root() -> (r: DocPath)
        ensures
            r.tokens() == seq![TokenSpec::Root],
            r.expr@ == "$"@,
    {
        let toks = vec![PathToken::Root];
        proof {
            assert(tokens_view(toks@) =~= seq![TokenSpec::Root]);
        }
        DocPath { path_tokens: toks, expr: String::from_str("$") }
    }

    /// Parses a path expression; the text is kept as the path's display form.
    pub fn new(expr: &str) -> (r: Result<DocPath, String>)
        ensures
            match r {
                Ok(p) => parse_path(expr@) == Some(p.tokens()) && p.expr@ == expr@,
                Err(e) => parse_path(expr@) is None && e@ == invalid_path_message(expr@),
            },
    {
        let s = chars_of(expr);
        if s.len() == 0 || s[0] != '$' {
            return Err(invalid_message(expr));
        }
        let mut toks: Vec<PathToken> = vec![PathToken::Root];
        let mut i: usize = 1;
        proof {
            assert(tokens_view(toks@).drop_first() =~= Seq::<TokenSpec>::empty());
        }
        while i < s.len()
            invariant
                1 <= i <= s@.len(),
                s@ == expr@,
                s@[0] == '$',
                toks@.len() >= 1,
                tokens_view(toks@)[0] == TokenSpec::Root,
                parse_tokens(s@, 1) == match parse_tokens(s@, i as int) {
                    Some(rest) => Some(tokens_view(toks@).drop_first() + rest),
                    None => None,
                },
            decreases s@.len() - i,
        {
            let ghost old_view = tokens_view(toks@);
            let tok;
            let next;
            if s[i] == '.' {
                let j = scan_name(&s, i + 1);
                if j == i + 1 {
                    return Err(invalid_message(expr));
                }
                if j == i + 2 && s[i + 1] == '*' {
                    proof {
                        assert(s@.subrange(i + 1, j as int) =~= seq!['*']);
                    }
                    tok = PathToken::Star;
                } else {
                    proof {
                        if s@.subrange(i + 1, j as int) == seq!['*'] {
                            assert(s@.subrange(i + 1, j as int).len() == 1);
                            assert(s@.subrange(i + 1, j as int)[0] == s@[i + 1]);
                        }
                    }
                    tok = PathToken::Field(string_of(&s, i + 1, j));
                }
                next = j;
            } else if s[i] == '[' {
                if i + 1 < s.len() && s[i + 1] == '\'' {
                    let k = scan_quote(&s, i + 2);
                    if k < s.len() && k + 1 < s.len() && s[k + 1] == ']' {
                        tok = PathToken::Field(string_of(&s, i + 2, k));
                        next = k + 2;
                    } else {
                        return Err(invalid_message(expr));
                    }
                } else if i + 1 < s.len() && i + 2 < s.len() && s[i + 1] == '*' && s[i + 2] == ']' {
                    tok = PathToken::Star;
                    next = i + 3;
                } else {
                    let (j, v) = scan_digits(&s, i + 1);
                    if j > i + 1 && j < s.len() && s[j] == ']' {
                        match v {
                            Some(n) => {
                                tok = PathToken::Index(n);
                                next = j + 1;
                            },
                            None => {
                                return Err(invalid_message(expr));
                            },
                        }
                    } else {
                        return Err(invalid_message(expr));
                    }
                }
            } else {
                return Err(invalid_message(expr));
            }
            proof {
                assert(parse_tokens(s@, i as int) == match parse_tokens(s@, next as int) {
                    Some(rest) => Some(seq![tok@] + rest),
                    None => None,
                });
            }
            toks.push(tok);
            proof {
                assert(tokens_view(toks@) =~= old_view.push(tok@));
                assert(tokens_view(toks@).drop_first() =~= old_view.drop_first().push(tok@));
                match parse_tokens(s@, next as int) {
                    Some(rest) => {
                        assert(old_view.drop_first() + (seq![tok@] + rest) =~= old_view.drop_first().push(tok@) + rest);
                    },
                    None => {},
                }
            }
            i = next;
        }
        proof {
            assert(tokens_view(toks@).drop_first() + Seq::<TokenSpec>::empty() =~= tokens_view(toks@).drop_first());
            assert(seq![TokenSpec::Root] + tokens_view(toks@).drop_first() =~= tokens_view(toks@));
        }
        Ok(DocPath { path_tokens: toks, expr: String::from_str(expr) })
    }

    /// The number of tokens, the root marker included.
    pub fn len(&self) -> (r: usize)
        ensures
            r == self.tokens().len(),
    {
        self.path_tokens.len()
    }

    /// Whether the path is `$` alone.
    pub fn is_root(&self) -> (r: bool)
        ensures
            r == (self.tokens() == seq![TokenSpec::Root]),
    {
        if self.path_tokens.len() == 1 {
            match &self.path_tokens[0] {
                PathToken::Root => {
                    proof {
                        assert(self.tokens() =~= seq![TokenSpec::Root]);
                    }
                    true
                },
                _ => {
                    proof {
                        assert(self.tokens()[0] == self.path_tokens@[0]@);
                    }
                    false
                },
            }
        } else {
            proof {
                if self.tokens() == seq![TokenSpec::Root] {
                    assert(self.tokens().len() == 1);
                }
            }
            false
        }
    }

    /// Whether the last token is a wildcard.
    pub fn is_wildcard(&self) -> (r: bool)
        ensures
            r == (self.tokens().len() > 0 && self.tokens().last() is Star),
    {
        let n = self.path_tokens.len();
        if n == 0 {
            false
        } else {
            match &self.path_tokens[n - 1] {
                PathToken::Star => true,
                _ => false,
            }
        }
    }

    /// The last token, if there is one.
    pub fn last(&self) -> (r: Option<&PathToken>)
        ensures
            self.tokens().len() == 0 ==> r is None,
            self.tokens().len() > 0 ==> r is Some && r->0@ == self.tokens().last(),
    {
        let n = self.path_tokens.len();
        if n == 0 {
            None
        } else {
            Some(&self.path_tokens[n - 1])
        }
    }

    /// The name in the first field token, if there is one.
    pub fn first_field(&self) -> (r: Option<&str>)
        ensures
            match first_field_of(self.tokens()) {
                Some(f) => r is Some && r->0@ == f,
                None => r is None,
            },
    {
        let n = self.path_tokens.len();
        let mut i: usize = 0;
        proof {
            assert(self.tokens().subrange(0, n as int) =~= self.tokens());
        }
        while i < n
            invariant
                i <= n == self.path_tokens@.len(),
                first_field_of(self.tokens()) == first_field_of(self.tokens().subrange(i as int, n as int)),
            decreases n - i,
        {
            proof {
                assert(self.tokens().subrange(i as int, n as int).drop_first() =~= self.tokens().subrange(i + 1, n as int));
            }
            proof {
                assert(self.tokens()[i as int] == self.path_tokens@[i as int]@);
            }
            match &self.path_tokens[i] {
                PathToken::Field(f) => {
                    return Some(f.as_str());
                },
                _ => {},
            }
            i = i + 1;
        }
        None
    }

    /// The name in the last field token, if there is one.
    pub fn last_field(&self) -> (r: Option<&str>)
        ensures
            match last_field_of(self.tokens()) {
                Some(f) => r is Some && r->0@ == f,
                None => r is None,
            },
    {
        let mut i: usize = self.path_tokens.len();
        proof {
            assert(self.tokens().subrange(0, i as int) =~= self.tokens());
        }
        while i > 0
            invariant
                i <= self.path_tokens@.len(),
                last_field_of(self.tokens()) == last_field_of(self.tokens().subrange(0, i as int)),
            decreases i,
        {
            proof {
                assert(self.tokens().subrange(0, i as int).drop_last() =~= self.tokens().subrange(0, i - 1));
            }
            proof {
                assert(self.tokens()[i - 1] == self.path_tokens@[i - 1]@);
            }
            match &self.path_tokens[i - 1] {
                PathToken::Field(f) => {
                    return Some(f.as_str());
                },
                _ => {},
            }
            i = i - 1;
        }
        None
    }
}

fn invalid_message(expr: &str) -> (r: String)
    ensures
        r@ == invalid_path_message(expr@),
{
    let a = join("\"", expr);
    let r = join(a.as_str(), "\" is not a valid path expression");
    proof {
        reveal_strlit("\"");
        assert(seq!['"'] =~= "\""@);
    }
    r
}

} // verus!
