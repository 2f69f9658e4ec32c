//! Addresses with paths and query parameters, taken apart by `url` and `urlencoding`.
use crate::errors::{AtomicError, AtomicResult};
use vstd::prelude::*;

verus! {

/// An address, taken apart.
pub struct UrlParts {
    /// The address as it is written in normal form.
    pub text: String,
    pub path: String,
    /// The names and values of the query parameters, in order.
    pub pairs: Vec<(String, String)>,
}

/// What [UrlParts] say.
pub struct UrlView {
    pub text: Seq<char>,
    pub path: Seq<char>,
    pub pairs: Seq<(Seq<char>, Seq<char>)>,
}

/// What some names and values say.
pub open spec fn pairs_view(pairs: Seq<(String, String)>) -> Seq<(Seq<char>, Seq<char>)> {
    pairs.map_values(|p: (String, String)| (p.0@, p.1@))
}

impl View for UrlParts {
    type V = UrlView;

    open spec fn view(&self) -> UrlView {
        UrlView { text: self.text@, path: self.path@, pairs: pairs_view(self.pairs@) }
    }
}

/// What `url::Url::parse` makes of a text: an address, of which the normal form, the path and the
/// query parameters are given, or the complaint.
pub uninterp spec fn url_parts(text: Seq<char>) -> Result<UrlView, Seq<char>>;

/// The normal form of an address without its query.
pub uninterp spec fn url_without_query(text: Seq<char>) -> Seq<char>;

/// What `url::Url::parse_with_params` makes of an address and one parameter.
pub uninterp spec fn url_with_param(
    text: Seq<char>,
    name: Seq<char>,
    value: Seq<char>,
) -> Result<Seq<char>, Seq<char>>;

/// `url::Url::parse`, with the `as_str`, `path` and `query_pairs` of what it gives.
#[verifier::external_body]
fn open_url(text: &str) -> (r: Result<UrlParts, String>)
    ensures
        match r {
            Ok(parts) => url_parts(text@) == Ok::<UrlView, Seq<char>>(parts@),
            Err(complaint) => url_parts(text@) == Err::<UrlView, Seq<char>>(complaint@),
        },
{
    match url::Url::parse(text) {
        Ok(url) => Ok(UrlParts {
            text: url.as_str().to_string(),
            path: url.path().to_string(),
            pairs: url.query_pairs().into_owned().collect(),
        }),
        Err(e) => Err(e.to_string()),
    }
}

/// `set_query` of a `url::Url`, with nothing: the address without its query. A text that is no
/// address is the complaint of `url::Url::parse`.
#[verifier::external_body]
fn drop_query(text: &str) -> (r: Result<String, String>)
    ensures
        match r {
            Ok(url) => url_parts(text@) is Ok && url@ == url_without_query(text@),
            Err(complaint) => url_parts(text@) == Err::<UrlView, Seq<char>>(complaint@),
        },
{
    match url::Url::parse(text) {
        Ok(mut url) => {
            url.set_query(None);
            Ok(url.to_string())
        }
        Err(e) => Err(e.to_string()),
    }
}

/// `url::Url::parse_with_params` with one parameter. It counts bytes in 32 bits, and a character
/// becomes twelve of them at most: the bound keeps the whole address below that.
#[verifier::external_body]
fn add_param(text: &str, name: &str, value: &str) -> (r: Result<String, String>)
    requires
        text@.len() + name@.len() + value@.len() < 0x1000_0000,
    ensures
        match r {
            Ok(url) => url_with_param(text@, name@, value@) == Ok::<Seq<char>, Seq<char>>(url@),
            Err(complaint) => url_with_param(text@, name@, value@) == Err::<Seq<char>, Seq<char>>(
                complaint@,
            ),
        },
{
    match url::Url::parse_with_params(text, &[(name, value)]) {
        Ok(url) => Ok(url.to_string()),
        Err(e) => Err(e.to_string()),
    }
}

/// Takes an address apart.
pub fn parse_url(text: &str) -> (r: AtomicResult<UrlParts>)
    ensures
        match r {
            Ok(parts) => url_parts(text@) == Ok::<UrlView, Seq<char>>(parts@),
            Err(e) => url_parts(text@) is Err && e@ == crate::errors::other(
                url_parts(text@)->Err_0,
            ),
        },
{
    match open_url(text) {
        Ok(parts) => Ok(parts),
        Err(complaint) => Err(AtomicError::other_error(complaint)),
    }
}

/// An address without its query.
pub fn without_query(text: &str) -> (r: AtomicResult<String>)
    ensures
        match r {
            Ok(url) => url_parts(text@) is Ok && url@ == url_without_query(text@),
            Err(e) => url_parts(text@) is Err && e@ == crate::errors::other(
                url_parts(text@)->Err_0,
            ),
        },
{
    match drop_query(text) {
        Ok(url) => Ok(url),
        Err(complaint) => Err(AtomicError::other_error(complaint)),
    }
}

/// An address with one more query parameter.
pub fn with_param(text: &str, name: &str, value: &str) -> (r: AtomicResult<String>)
    requires
        text@.len() + name@.len() + value@.len() < 0x1000_0000,
    ensures
        match r {
            Ok(url) => url_with_param(text@, name@, value@) == Ok::<Seq<char>, Seq<char>>(url@),
            Err(e) => url_with_param(text@, name@, value@) is Err && e@ == crate::errors::other(
                url_with_param(text@, name@, value@)->Err_0,
            ),
        },
{
    match add_param(text, name, value) {
        Ok(url) => Ok(url),
        Err(complaint) => Err(AtomicError::other_error(complaint)),
    }
}

/// A text without a slash at its end.
pub open spec fn unslashed(s: Seq<char>) -> Seq<char> {
    if s.len() > 0 && s.last() == '/' {
        s.drop_last()
    } else {
        s
    }
}

/// Takes one slash off the end.
pub fn trim_slash(s: &str) -> (r: String)
    ensures
        r@ == unslashed(s@),
{
    let chars = crate::text::to_chars(s);
    let n: usize = chars.len();
    if n > 0 && chars[n - 1] == '/' {
        let r = crate::text::from_chars(&chars, 0, n - 1);
        assert(r@ =~= s@.drop_last());
        r
    } else {
        s.to_owned()
    }
}

/// The last value of a parameter that has one of two names.
pub open spec fn last_param(
    pairs: Seq<(Seq<char>, Seq<char>)>,
    name: Seq<char>,
    other: Seq<char>,
) -> Option<Seq<char>>
    decreases pairs.len(),
{
    if pairs.len() == 0 {
        None
    } else if pairs.last().0 == name || pairs.last().0 == other {
        Some(pairs.last().1)
    } else {
        last_param(pairs.drop_last(), name, other)
    }
}

/// The last value of a parameter that has one of two names.
pub fn find_param(pairs: &Vec<(String, String)>, name: &str, other: &str) -> (r: Option<String>)
    ensures
        crate::text::opt(r) == last_param(pairs_view(pairs@), name@, other@),
{
    let ghost all = pairs_view(pairs@);
    let mut i: usize = pairs.len();
    assert(all.take(i as int) =~= all);
    while i > 0
        invariant
            i <= pairs@.len(),
            all == pairs_view(pairs@),
            last_param(all, name@, other@) == last_param(all.take(i as int), name@, other@),
        decreases i,
    {
        assert(all.take(i as int).last() == (pairs@[i - 1].0@, pairs@[i - 1].1@));
        assert(all.take(i as int).drop_last() =~= all.take(i - 1));
        i -= 1;
        let key = pairs[i].0.as_str();
        if crate::text::same(key, name) || crate::text::same(key, other) {
            return Some(pairs[i].1.clone());
        }
    }
    None
}

/// The digit for a number below 16, in upper case.
pub open spec fn upper_digit(n: int) -> char {
    if n < 10 {
        ('0' as int + n) as char
    } else {
        ('A' as int + n - 10) as char
    }
}

/// Whether a byte stands for itself in a percent-encoded text.
pub open spec fn unreserved(b: u8) -> bool {
    ('0' as int <= b <= '9' as int) || ('A' as int <= b <= 'Z' as int) || ('a' as int <= b
        <= 'z' as int) || b == '-' as int || b == '.' as int || b == '_' as int || b == '~' as int
}

/// The percent-encoding of some bytes: letters, digits, `-`, `.`, `_` and `~` stand for themselves.
pub open spec fn percent_encoded(bytes: Seq<u8>) -> Seq<char>
    decreases bytes.len(),
{
    if bytes.len() == 0 {
        Seq::empty()
    } else {
        let b = bytes.last();
        percent_encoded(bytes.drop_last()) + (if unreserved(b) {
            seq![b as char]
        } else {
            seq!['%', upper_digit(b as int / 16), upper_digit(b as int % 16)]
        })
    }
}

/// `urlencoding::encode`: the percent-encoding of the UTF-8 bytes of a text.
#[verifier::external_body]
pub(crate) fn percent_encode(text: &str) -> (r: String)
    ensures
        r@ == percent_encoded(vstd::utf8::encode_utf8(text@)),
{
    urlencoding::encode(text).into_owned()
}

/// Of several parameters with one of two names the last one counts, and a parameter with another
/// name does not.
pub proof fn the_last_parameter_counts(
    pairs: Seq<(Seq<char>, Seq<char>)>,
    name: Seq<char>,
    other: Seq<char>,
    i: int,
)
    requires
        -1 <= i < pairs.len(),
        i >= 0 ==> pairs[i].0 == name || pairs[i].0 == other,
        forall|j: int|
            i < j < pairs.len() ==> (#[trigger] pairs[j]).0 != name && pairs[j].0 != other,
    ensures
        i >= 0 ==> last_param(pairs, name, other) == Some(pairs[i].1),
        i < 0 ==> last_param(pairs, name, other) is None,
    decreases pairs.len(),
{
    if pairs.len() > 0 && i < pairs.len() - 1 {
        let before = pairs.drop_last();
        assert(pairs[pairs.len() - 1].0 != name && pairs[pairs.len() - 1].0 != other);
        assert forall|j: int| i < j < before.len() implies (#[trigger] before[j]).0 != name
            && before[j].0 != other by {
            assert(before[j] == pairs[j]);
        }
        the_last_parameter_counts(before, name, other, i);
    }
}

/// One slash is taken off the end of a text, and nothing else.
pub proof fn one_slash_is_taken_off(s: Seq<char>)
    ensures
        unslashed(s.push('/')) == s,
        s.len() == 0 || s.last() != '/' ==> unslashed(s) == s,
{
    assert(s.push('/').drop_last() =~= s);
}

proof fn lemma_encoded_add(a: Seq<u8>, b: Seq<u8>)
    ensures
        percent_encoded(a + b) == percent_encoded(a) + percent_encoded(b),
    decreases b.len(),
{
    if b.len() == 0 {
        assert(a + b =~= a);
        assert(percent_encoded(a) + percent_encoded(b) =~= percent_encoded(a));
    } else {
        assert((a + b).drop_last() =~= a + b.drop_last());
        lemma_encoded_add(a, b.drop_last());
        assert(percent_encoded(a + b) =~= percent_encoded(a) + percent_encoded(b));
    }
}

/// Bytes are encoded one after the other: a letter, a digit, `-`, `.`, `_` and `~` as itself, and any
/// other byte as a percent sign and two digits, the greater first.
pub proof fn bytes_are_encoded_one_by_one(before: Seq<u8>, b: u8, after: Seq<u8>)
    ensures
        percent_encoded(before + seq![b] + after) == percent_encoded(before) + percent_encoded(
            seq![b],
        ) + percent_encoded(after),
        (48 <= b <= 57) || (65 <= b <= 90) || (97 <= b <= 122) || b == 45 || b == 46 || b == 95 || b
            == 126 ==> percent_encoded(seq![b]) == seq![b as char],
        !((48 <= b <= 57) || (65 <= b <= 90) || (97 <= b <= 122) || b == 45 || b == 46 || b == 95
            || b == 126) ==> ({
            let text = percent_encoded(seq![b]);
            let digit = |c: char|
                if c <= '9' {
                    c as int - 48
                } else {
                    c as int - 55
                };
            text.len() == 3 && text[0] == '%' && digit(text[1]) * 16 + digit(text[2]) == b && 0
                <= digit(text[1]) < 16 && 0 <= digit(text[2]) < 16
        }),
{
    lemma_encoded_add(before + seq![b], after);
    lemma_encoded_add(before, seq![b]);
    assert(seq![b].drop_last() =~= Seq::<u8>::empty());
    reveal_with_fuel(percent_encoded, 2);
    let unit = if unreserved(b) {
        seq![b as char]
    } else {
        seq!['%', upper_digit(b as int / 16), upper_digit(b as int % 16)]
    };
    assert(percent_encoded(seq![b]) =~= unit);
}

} // verus!
