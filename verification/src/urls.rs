//! Request URLs: query strings in `application/x-www-form-urlencoded`
//! syntax, appended with the `url` crate.

use vstd::prelude::*;

verus! {

/// The UTF-8 encoding of a character.
pub open spec fn utf8_bytes(c: char) -> Seq<u8> {
    let n = c as int;
    if n < 0x80 {
        seq![n as u8]
    } else if n < 0x800 {
        seq![(0xC0 + n / 64) as u8, (0x80 + n % 64) as u8]
    } else if n < 0x10000 {
        seq![(0xE0 + n / 4096) as u8, (0x80 + (n / 64) % 64) as u8, (0x80 + n % 64) as u8]
    } else {
        seq![
            (0xF0 + n / 262144) as u8,
            (0x80 + (n / 4096) % 64) as u8,
            (0x80 + (n / 64) % 64) as u8,
            (0x80 + n % 64) as u8,
        ]
    }
}

/// An upper-case hexadecimal digit.
pub open spec fn hex_digit(d: int) -> char {
    if d < 10 {
        (48 + d) as char
    } else {
        (55 + d) as char
    }
}

/// A byte written as `%XX`.
pub open spec fn percent_byte(b: u8) -> Seq<char> {
    seq!['%', hex_digit(b as int / 16), hex_digit(b as int % 16)]
}

/// The bytes of a sequence, each written as `%XX`.
pub open spec fn percent_bytes(bs: Seq<u8>) -> Seq<char>
    decreases bs.len(),
{
    if bs.len() == 0 {
        Seq::empty()
    } else {
        percent_bytes(bs.drop_last()) + percent_byte(bs.last())
    }
}

/// Whether the form-urlencoded byte serializer keeps `c` as it is.
pub open spec fn form_unreserved(c: char) -> bool {
    c == '*' || c == '-' || c == '.' || c == '_' || ('0' <= c && c <= '9') || ('A' <= c && c <= 'Z') || (
    'a' <= c && c <= 'z')
}

/// How the form-urlencoded byte serializer writes one character.
pub open spec fn form_char(c: char) -> Seq<char> {
    if form_unreserved(c) {
        seq![c]
    } else if c == ' ' {
        seq!['+']
    } else {
        percent_bytes(utf8_bytes(c))
    }
}

/// The `application/x-www-form-urlencoded` byte serialization of a string.
pub open spec fn form_encode(s: Seq<char>) -> Seq<char>
    decreases s.len(),
{
    if s.len() == 0 {
        Seq::empty()
    } else {
        form_encode(s.drop_last()) + form_char(s.last())
    }
}

/// One name/value pair of a query: `name=value`, both encoded.
pub open spec fn query_pair(p: (Seq<char>, Seq<char>)) -> Seq<char> {
    form_encode(p.0) + seq!['='] + form_encode(p.1)
}

/// Name/value pairs serialized as a query string, separated by `&`.
pub open spec fn query_string(pairs: Seq<(Seq<char>, Seq<char>)>) -> Seq<char>
    decreases pairs.len(),
{
    if pairs.len() == 0 {
        Seq::empty()
    } else if pairs.len() == 1 {
        query_pair(pairs[0])
    } else {
        query_string(pairs.drop_last()) + seq!['&'] + query_pair(pairs.last())
    }
}

/// The models of name/value pairs.
pub open spec fn pairs_view(pairs: Seq<(String, String)>) -> Seq<(Seq<char>, Seq<char>)> {
    pairs.map_values(|p: (String, String)| (p.0@, p.1@))
}

/// The position of the first `c` in `u`, or the length of `u` when there is none.
pub open spec fn first_index_or_len(u: Seq<char>, c: char) -> int {
    if u.contains(c) {
        choose|i: int| 0 <= i < u.len() && u[i] == c && forall|j: int| 0 <= j < i ==> u[j] != c
    } else {
        u.len() as int
    }
}

/// A serialized URL with `pairs` appended to its query, as
/// `query_pairs_mut().extend_pairs(..)` writes it: the fragment, which
/// starts at the first `#`, stays at the end; a `?` is added when the URL
/// had no query, and a `&` separates the pairs from a non-empty query.
pub open spec fn with_query_pairs(u: Seq<char>, pairs: Seq<(Seq<char>, Seq<char>)>) -> Seq<char> {
    let f = first_index_or_len(u, '#');
    let before = u.take(f);
    let fragment = u.skip(f);
    let q = first_index_or_len(before, '?');
    let has_query = q < before.len();
    let start = if has_query { Seq::<char>::empty() } else { seq!['?'] };
    let sep = if has_query && q + 1 < before.len() && pairs.len() > 0 { seq!['&'] } else { Seq::<char>::empty() };
    before + start + sep + query_string(pairs) + fragment
}

/// What `url::Url::parse(input)` gives back: the serialization of the parsed
/// URL, or the `Display` text of the parse error.
pub uninterp spec fn url_parse(input: Seq<char>) -> Result<Seq<char>, Seq<char>>;

/// Parses `base` with `url::Url::parse` and appends `pairs` to its query with
/// `query_pairs_mut().extend_pairs(..)`, giving back the URL's serialization.
/// The parse itself is only named; the appended query is stated in full.
#[verifier::external_body]
pub(crate) fn url_with_query(base: &str, pairs: &Vec<(String, String)>) -> (r: Result<String, String>)
    ensures
        r is Ok <==> url_parse(base@) is Ok,
        r matches Err(e) ==> (url_parse(base@) matches Err(pe) && pe == e@),
        r matches Ok(s) ==> (url_parse(base@) matches Ok(u) && s@ == with_query_pairs(u, pairs_view(pairs@))),
{
    let mut u = url::Url::parse(base).map_err(|e| e.to_string())?;
    u.query_pairs_mut().extend_pairs(pairs.iter());
    Ok(u.into())
}

} // verus!
