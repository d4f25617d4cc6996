//! Absolute URLs: parsing, relative resolution, and the order URLs compare in.

use crate::order::{
    lemma_lex_asymmetric, lemma_lex_irreflexive, lemma_lex_total, lemma_lex_transitive, lex_lt,
    rank_bytes, Rank,
};
use vstd::prelude::*;
use vstd::utf8::{encode_utf8, encode_utf8_decode_utf8};

verus! {

/// The serialization of the URL that `url::Url::parse` makes of `raw`, or `None`
/// where it rejects `raw`.
pub uninterp spec fn parsed_url(raw: Seq<char>) -> Option<Seq<char>>;

/// The serialization of the URL that `url::Url::join` makes of `raw` on the base
/// URL with serialization `base`, or `None` where either is rejected.
pub uninterp spec fn joined_url(base: Seq<char>, raw: Seq<char>) -> Option<Seq<char>>;

/// A character that ends the first path segment of a reference.
pub open spec fn ends_first_segment(c: char) -> bool {
    c == '/' || c == '?' || c == '#'
}

/// There is a colon in the first path segment: before any slash, question
/// mark or number sign. A relative reference may not have one, because it
/// would read as a scheme.
pub open spec fn first_segment_has_colon(raw: Seq<char>) -> bool {
    exists|i: int|
        0 <= i < raw.len() && raw[i] == ':' && forall|j: int|
            0 <= j < i ==> !ends_first_segment(#[trigger] raw[j])
}

/// A character that can stand before the colon of an absolute URL: one of a
/// scheme, or a control or space, which URL parsing passes over.
pub open spec fn may_precede_colon(c: char) -> bool {
    ||| 'a' <= c <= 'z'
    ||| 'A' <= c <= 'Z'
    ||| '0' <= c <= '9'
    ||| c == '+'
    ||| c == '-'
    ||| c == '.'
    ||| c <= ' '
}

/// The link begins as an absolute URL does: with at least one character that
/// can stand there, and then a colon.
pub open spec fn begins_with_scheme(raw: Seq<char>) -> bool {
    exists|k: int|
        0 < k < raw.len() && raw[k] == ':' && forall|j: int|
            0 <= j < k ==> may_precede_colon(#[trigger] raw[j])
}

/// The absolute URL that a raw link on a page names. A link that begins with a
/// scheme is an absolute URL or nothing. A link with any other colon in its
/// first path segment is nothing: it is no relative reference either. Every
/// other link is resolved against the page's URL.
pub open spec fn resolve(base: Seq<char>, raw: Seq<char>) -> Option<Seq<char>> {
    if begins_with_scheme(raw) {
        parsed_url(raw)
    } else if first_segment_has_colon(raw) {
        None
    } else {
        joined_url(base, raw)
    }
}

/// A link that starts with a colon names nothing, whatever page it stands on.
pub proof fn lemma_leading_colon_names_nothing(base: Seq<char>, raw: Seq<char>)
    requires
        raw.len() > 0,
        raw[0] == ':',
    ensures
        resolve(base, raw) is None,
{
    assert(!may_precede_colon(raw[0]));
    assert(first_segment_has_colon(raw));
}

/// The first `k` characters of `text` hold no colon, and they are all of it
/// or a colon follows them.
pub open spec fn scheme_ends_at(text: Seq<char>, k: int) -> bool {
    &&& 0 <= k <= text.len()
    &&& forall|j: int| 0 <= j < k ==> #[trigger] text[j] != ':'
    &&& k < text.len() ==> text[k] == ':'
}

/// The scheme of a URL: its serialization up to the first colon.
pub open spec fn scheme_of(text: Seq<char>) -> Seq<char> {
    text.take(choose|k: int| scheme_ends_at(text, k))
}

/// A scheme ends in one place only.
pub proof fn lemma_scheme_end_unique(text: Seq<char>, k: int)
    requires
        scheme_ends_at(text, k),
    ensures
        scheme_of(text) == text.take(k),
{
    let chosen = choose|k: int| scheme_ends_at(text, k);
    if chosen < k {
        assert(text[chosen] == ':');
    } else if k < chosen {
        assert(text[k] == ':');
    }
}

/// How the crawler treats a scheme.
#[derive(Debug, Clone, Copy, PartialEq, Eq, Structural)]
pub enum SchemeClass {
    /// Plain HTTP: the only scheme that is fetched.
    Http,
    /// HTTP over TLS, which this crawler leaves alone.
    Https,
    /// Any other scheme.
    Other,
}

/// The class of a scheme, given without its colon.
pub open spec fn scheme_class(scheme: Seq<char>) -> SchemeClass {
    if scheme == "http"@ {
        SchemeClass::Http
    } else if scheme == "https"@ {
        SchemeClass::Https
    } else {
        SchemeClass::Other
    }
}

/// The URL is fetched over plain HTTP.
pub open spec fn is_http(text: Seq<char>) -> bool {
    scheme_of(text) == "http"@
}

/// URLs are ordered as the bytes of their serializations are.
pub open spec fn text_lt(a: Seq<char>, b: Seq<char>) -> bool {
    lex_lt(encode_utf8(a), encode_utf8(b))
}

/// The rank of one serialization relative to another.
pub open spec fn text_rank(a: Seq<char>, b: Seq<char>) -> Rank {
    if text_lt(a, b) {
        Rank::Before
    } else if a == b {
        Rank::Same
    } else {
        Rank::After
    }
}

/// Different texts have different encodings.
pub proof fn lemma_encoding_injective(a: Seq<char>, b: Seq<char>)
    requires
        encode_utf8(a) == encode_utf8(b),
    ensures
        a == b,
{
    encode_utf8_decode_utf8(a);
    encode_utf8_decode_utf8(b);
}

/// `text_lt` is a strict order: nothing comes before itself, and the order
/// passes along chains.
pub proof fn lemma_text_lt_strict(a: Seq<char>, b: Seq<char>, c: Seq<char>)
    ensures
        !text_lt(a, a),
        text_lt(a, b) ==> !text_lt(b, a) && a != b,
        text_lt(a, b) && text_lt(b, c) ==> text_lt(a, c),
{
    lemma_lex_irreflexive(encode_utf8(a));
    if text_lt(a, b) {
        lemma_lex_asymmetric(encode_utf8(a), encode_utf8(b));
        if text_lt(b, c) {
            lemma_lex_transitive(encode_utf8(a), encode_utf8(b), encode_utf8(c));
        }
    }
}

/// Of two different texts one comes before the other.
pub proof fn lemma_text_lt_total(a: Seq<char>, b: Seq<char>)
    ensures
        text_lt(a, b) || a == b || text_lt(b, a),
{
    lemma_lex_total(encode_utf8(a), encode_utf8(b));
    if encode_utf8(a) == encode_utf8(b) {
        lemma_encoding_injective(a, b);
    }
}

/// Why a string names no URL.
#[derive(Debug, Clone, Copy, PartialEq, Eq, Structural)]
pub enum UrlError {
    /// Neither an absolute URL nor a relative reference that resolves against
    /// the base.
    Malformed,
}

/// An absolute URL, held as its normalized serialization. Two URLs are equal
/// exactly when their serializations are.
#[derive(Debug)]
pub struct Url {
    text: String,
}

impl View for Url {
    type V = Seq<char>;

    closed spec fn view(&self) -> Seq<char> {
        self.text@
    }
}

/// The serializations of a sequence of URLs.
pub open spec fn url_texts(urls: Seq<Url>) -> Seq<Seq<char>> {
    urls.map_values(|u: Url| u@)
}

/// Calls `url::Url::parse` and returns the serialization of the URL it built.
/// The contract names that result [`parsed_url`]; it does not say which strings
/// parse.
#[verifier::external_body]
fn parse_text(raw: &str) -> (res: Option<String>)
    ensures
        match res {
            Some(text) => parsed_url(raw@) == Some(text@),
            None => parsed_url(raw@) is None,
        },
{
    url::Url::parse(raw).ok().map(String::from)
}

/// Rebuilds the base URL from its serialization with `url::Url::parse`, calls
/// `url::Url::join` on it and returns the serialization of the result. The
/// contract names that result [`joined_url`].
#[verifier::external_body]
fn join_text(base: &str, raw: &str) -> (res: Option<String>)
    ensures
        match res {
            Some(text) => joined_url(base@, raw@) == Some(text@),
            None => joined_url(base@, raw@) is None,
        },
{
    match url::Url::parse(base) {
        Ok(url) => url.join(raw).ok().map(String::from),
        Err(_) => None,
    }
}

/// How many characters stand before the first colon, or in the whole string
/// where it holds none.
pub fn scheme_len(text: &str) -> (k: usize)
    ensures
        scheme_ends_at(text@, k as int),
{
    let n = text.unicode_len();
    let mut k: usize = 0;
    for c in iter: text.chars()
        invariant
            iter.seq() == text@,
            n == text@.len(),
            k == iter.index(),
            forall|j: int| 0 <= j < k ==> #[trigger] text@[j] != ':',
    {
        if c == ':' {
            return k;
        }
        k = k + 1;
    }
    n
}

/// Whether the link begins with a scheme and a colon.
pub fn has_scheme(raw: &str) -> (res: bool)
    ensures
        res == begins_with_scheme(raw@),
{
    let mut any: bool = false;
    for c in iter: raw.chars()
        invariant
            iter.seq() == raw@,
            any == (iter.index() > 0),
            forall|j: int| 0 <= j < iter.index() ==> raw@[j] != ':' && may_precede_colon(#[trigger] raw@[j]),
    {
        if c == ':' {
            return any;
        }
        let fits = ('a' <= c && c <= 'z') || ('A' <= c && c <= 'Z') || ('0' <= c && c <= '9') || c
            == '+' || c == '-' || c == '.' || c <= ' ';
        if !fits {
            return false;
        }
        any = true;
    }
    false
}

/// Whether the first path segment of a reference holds a colon.
pub fn has_colon_in_first_segment(raw: &str) -> (res: bool)
    ensures
        res == first_segment_has_colon(raw@),
{
    for c in iter: raw.chars()
        invariant
            iter.seq() == raw@,
            forall|j: int|
                0 <= j < iter.index() ==> raw@[j] != ':' && !ends_first_segment(#[trigger] raw@[j]),
    {
        if c == ':' {
            return true;
        }
        if c == '/' || c == '?' || c == '#' {
            return false;
        }
    }
    false
}

/// Classifies a scheme: `http` is fetched, `https` and all others are not.
pub fn classify_scheme(scheme: &str) -> (res: SchemeClass)
    ensures
        res == scheme_class(scheme@),
{
    let given = scheme.to_owned();
    if given == "http".to_owned() {
        SchemeClass::Http
    } else if given == "https".to_owned() {
        SchemeClass::Https
    } else {
        SchemeClass::Other
    }
}

impl Url {
    /// Parses an absolute URL.
    pub fn parse(raw: &str) -> (res: Result<Url, UrlError>)
        ensures
            match parsed_url(raw@) {
                Some(text) => res is Ok && res->Ok_0@ == text,
                None => res == Err::<Url, UrlError>(UrlError::Malformed),
            },
    {
        match parse_text(raw) {
            Some(text) => Ok(Url { text }),
            None => Err(UrlError::Malformed),
        }
    }

    /// Resolves a reference against this URL.
    pub fn join(&self, raw: &str) -> (res: Result<Url, UrlError>)
        ensures
            match joined_url(self@, raw@) {
                Some(text) => res is Ok && res->Ok_0@ == text,
                None => res == Err::<Url, UrlError>(UrlError::Malformed),
            },
    {
        match join_text(self.text.as_str(), raw) {
            Some(text) => Ok(Url { text }),
            None => Err(UrlError::Malformed),
        }
    }

    /// The normalized serialization.
    pub fn as_str(&self) -> (res: &str)
        ensures
            res@ == self@,
    {
        self.text.as_str()
    }

    /// The scheme, without the colon. A serialization begins with the scheme
    /// and a colon, and a scheme holds no colon, so this is what
    /// `url::Url::scheme` gives for the same URL.
    pub fn scheme(&self) -> (res: String)
        ensures
            res@ == scheme_of(self@),
    {
        let text = self.text.as_str();
        let k = scheme_len(text);
        proof {
            lemma_scheme_end_unique(text@, k as int);
        }
        text.substring_char(0, k).to_owned()
    }

    /// The class of the URL's scheme.
    pub fn scheme_class(&self) -> (res: SchemeClass)
        ensures
            res == scheme_class(scheme_of(self@)),
    {
        classify_scheme(self.scheme().as_str())
    }

    /// Whether the scheme is `http`.
    pub fn is_http(&self) -> (res: bool)
        ensures
            res == is_http(self@),
    {
        match self.scheme_class() {
            SchemeClass::Http => true,
            _ => false,
        }
    }

    /// Where this URL stands relative to another in the order of URLs.
    pub fn rank(&self, other: &Url) -> (res: Rank)
        ensures
            res == text_rank(self@, other@),
    {
        proof {
            if encode_utf8(self@) == encode_utf8(other@) {
                lemma_encoding_injective(self@, other@);
            }
        }
        rank_bytes(self.text.as_str().as_bytes(), other.text.as_str().as_bytes())
    }

    /// Whether two URLs are the same.
    pub fn same(&self, other: &Url) -> (res: bool)
        ensures
            res == (self@ == other@),
    {
        self.text == other.text
    }
}

impl Clone for Url {
    fn clone(&self) -> (res: Url)
        ensures
            res@ == self@,
    {
        Url { text: self.text.clone() }
    }
}

/// Turns a raw link found on the page at `base` into an absolute URL. A link
/// that begins with a scheme is parsed as an absolute URL. A link with any
/// other colon in its first path segment, such as `:::bad:::`, is rejected.
/// Every other link is resolved against `base`.
pub fn normalize(base: &Url, raw: &str) -> (res: Result<Url, UrlError>)
    ensures
        match resolve(base@, raw@) {
            Some(text) => res is Ok && res->Ok_0@ == text,
            None => res == Err::<Url, UrlError>(UrlError::Malformed),
        },
{
    if has_scheme(raw) {
        Url::parse(raw)
    } else if has_colon_in_first_segment(raw) {
        Err(UrlError::Malformed)
    } else {
        base.join(raw)
    }
}

} // verus!
