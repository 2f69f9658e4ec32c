//! The page that opens a resource in the browser.
use crate::errors::{AtomicError, AtomicResult};
use crate::text::{cat2, cat3, to_chars};
use vstd::prelude::*;

verus! {

/// How a character is written in the value of an HTML attribute.
pub open spec fn escaped_char(c: char) -> Seq<char> {
    if c == '<' {
        "&amp;lt;"@
    } else if c == '>' {
        "&amp;gt;"@
    } else if c == '&' {
        "&amp;"@
    } else if c == '\'' {
        "&#x27;"@
    } else if c == '"' {
        "&quot;"@
    } else if c == '/' {
        "&#x2F;"@
    } else {
        seq![c]
    }
}

/// How a text is written in the value of an HTML attribute.
pub open spec fn escaped(s: Seq<char>) -> Seq<char>
    decreases s.len(),
{
    if s.len() == 0 {
        Seq::empty()
    } else {
        escaped(s.drop_last()) + escaped_char(s.last())
    }
}

/// Writes a text so that it can stand in the value of an HTML attribute.
pub fn escape_html(s: &str) -> (r: String)
    ensures
        r@ == escaped(s@),
{
    let chars = to_chars(s);
    let mut r = String::new();
    let mut i: usize = 0;
    assert(r@ =~= Seq::<char>::empty());
    while i < chars.len()
        invariant
            i <= chars@.len(),
            r@ == escaped(chars@.take(i as int)),
        decreases chars@.len() - i,
    {
        let c = chars[i];
        assert(chars@.take(i + 1).drop_last() =~= chars@.take(i as int));
        if c == '<' {
            r.append("&amp;lt;");
        } else if c == '>' {
            r.append("&amp;gt;");
        } else if c == '&' {
            r.append("&amp;");
        } else if c == '\'' {
            r.append("&#x27;");
        } else if c == '"' {
            r.append("&quot;");
        } else if c == '/' {
            r.append("&#x2F;");
        } else {
            let ghost before = r@;
            r.push(c);
            assert(r@ =~= before + seq![c]);
        }
        i += 1;
    }
    assert(chars@.take(chars@.len() as int) =~= chars@);
    r
}

/// A text with every `c` replaced.
pub open spec fn replaced(s: Seq<char>, c: char, with: Seq<char>) -> Seq<char>
    decreases s.len(),
{
    if s.len() == 0 {
        Seq::empty()
    } else {
        replaced(s.drop_last(), c, with) + (if s.last() == c {
            with
        } else {
            seq![s.last()]
        })
    }
}

proof fn lemma_replaced_add(a: Seq<char>, b: Seq<char>, c: char, with: Seq<char>)
    ensures
        replaced(a + b, c, with) == replaced(a, c, with) + replaced(b, c, with),
    decreases b.len(),
{
    if b.len() == 0 {
        assert(a + b =~= a);
        assert(replaced(a, c, with) + replaced(b, c, with) =~= replaced(a, c, with));
    } else {
        lemma_replaced_add(a, b.drop_last(), c, with);
        assert((a + b).drop_last() =~= a + b.drop_last());
        assert(replaced(a + b, c, with) =~= replaced(a, c, with) + replaced(b, c, with));
    }
}

/// The six replacements that make up the escaping of a text, one after the other.
pub open spec fn six_replacements(s: Seq<char>) -> Seq<char> {
    let a = replaced(s, '<', "&lt;"@);
    let b = replaced(a, '>', "&gt;"@);
    let c = replaced(b, '&', "&amp;"@);
    let d = replaced(c, '\'', "&#x27;"@);
    let e = replaced(d, '"', "&quot;"@);
    replaced(e, '/', "&#x2F;"@)
}

proof fn lemma_six_add(x: Seq<char>, y: Seq<char>)
    ensures
        six_replacements(x + y) == six_replacements(x) + six_replacements(y),
{
    let a = replaced(x, '<', "&lt;"@);
    let a2 = replaced(y, '<', "&lt;"@);
    lemma_replaced_add(x, y, '<', "&lt;"@);
    lemma_replaced_add(a, a2, '>', "&gt;"@);
    let b = replaced(a, '>', "&gt;"@);
    let b2 = replaced(a2, '>', "&gt;"@);
    lemma_replaced_add(b, b2, '&', "&amp;"@);
    let c = replaced(b, '&', "&amp;"@);
    let c2 = replaced(b2, '&', "&amp;"@);
    lemma_replaced_add(c, c2, '\'', "&#x27;"@);
    let d = replaced(c, '\'', "&#x27;"@);
    let d2 = replaced(c2, '\'', "&#x27;"@);
    lemma_replaced_add(d, d2, '"', "&quot;"@);
    let e = replaced(d, '"', "&quot;"@);
    let e2 = replaced(d2, '"', "&quot;"@);
    lemma_replaced_add(e, e2, '/', "&#x2F;"@);
}

proof fn lemma_replaced_one(x: char, c: char, with: Seq<char>)
    ensures
        replaced(seq![x], c, with) == (if x == c {
            with
        } else {
            seq![x]
        }),
{
    reveal_with_fuel(replaced, 2);
    assert(seq![x].drop_last() =~= Seq::<char>::empty());
    assert(replaced(seq![x], c, with) =~= (if x == c {
        with
    } else {
        seq![x]
    }));
}

proof fn lemma_replaced_absent(s: Seq<char>, c: char, with: Seq<char>)
    requires
        forall|i: int| 0 <= i < s.len() ==> s[i] != c,
    ensures
        replaced(s, c, with) == s,
    decreases s.len(),
{
    if s.len() > 0 {
        lemma_replaced_absent(s.drop_last(), c, with);
        assert(replaced(s, c, with) =~= s);
    }
}

proof fn lemma_six_char(x: char)
    ensures
        six_replacements(seq![x]) == escaped_char(x),
{
    reveal_strlit("&lt;");
    reveal_strlit("&gt;");
    reveal_strlit("&amp;");
    reveal_strlit("&#x27;");
    reveal_strlit("&quot;");
    reveal_strlit("&#x2F;");
    reveal_strlit("&amp;lt;");
    reveal_strlit("&amp;gt;");
    lemma_replaced_one(x, '<', "&lt;"@);
    lemma_replaced_one(x, '>', "&gt;"@);
    lemma_replaced_one(x, '&', "&amp;"@);
    lemma_replaced_one(x, '\'', "&#x27;"@);
    lemma_replaced_one(x, '"', "&quot;"@);
    lemma_replaced_one(x, '/', "&#x2F;"@);
    if x == '<' || x == '>' {
        let (name, full) = if x == '<' {
            ("lt;"@, "&lt;"@)
        } else {
            ("gt;"@, "&gt;"@)
        };
        reveal_strlit("lt;");
        reveal_strlit("gt;");
        assert(full =~= seq!['&'] + name);
        lemma_replaced_absent(full, '>', "&gt;"@);
        lemma_replaced_add(seq!['&'], name, '&', "&amp;"@);
        lemma_replaced_one('&', '&', "&amp;"@);
        lemma_replaced_absent(name, '&', "&amp;"@);
        let c = "&amp;"@ + name;
        assert(c =~= escaped_char(x));
        lemma_replaced_absent(c, '\'', "&#x27;"@);
        lemma_replaced_absent(c, '"', "&quot;"@);
        lemma_replaced_absent(c, '/', "&#x2F;"@);
    } else if x == '&' {
        lemma_replaced_absent("&amp;"@, '\'', "&#x27;"@);
        lemma_replaced_absent("&amp;"@, '"', "&quot;"@);
        lemma_replaced_absent("&amp;"@, '/', "&#x2F;"@);
    } else if x == '\'' {
        lemma_replaced_absent("&#x27;"@, '"', "&quot;"@);
        lemma_replaced_absent("&#x27;"@, '/', "&#x2F;"@);
    } else if x == '"' {
        lemma_replaced_absent("&quot;"@, '/', "&#x2F;"@);
    }
}

/// Escaping a text is replacing `<`, `>`, `&`, `'`, `"` and `/` in it, in this order.
pub proof fn escaping_is_six_replacements(s: Seq<char>)
    ensures
        escaped(s) == six_replacements(s),
    decreases s.len(),
{
    if s.len() == 0 {
        assert(six_replacements(s) =~= escaped(s));
    } else {
        escaping_is_six_replacements(s.drop_last());
        lemma_six_add(s.drop_last(), seq![s.last()]);
        lemma_six_char(s.last());
        assert(s.drop_last() + seq![s.last()] =~= s);
    }
}

/// An escaped text has no character that could end the value of an attribute or open a tag.
pub proof fn escaped_text_is_inert(s: Seq<char>, i: int)
    requires
        0 <= i < escaped(s).len(),
    ensures
        escaped(s)[i] != '<',
        escaped(s)[i] != '>',
        escaped(s)[i] != '\'',
        escaped(s)[i] != '"',
        escaped(s)[i] != '/',
    decreases s.len(),
{
    if s.len() > 0 {
        let front = escaped(s.drop_last());
        if i < front.len() {
            escaped_text_is_inert(s.drop_last(), i);
        } else {
            reveal_strlit("&amp;lt;");
            reveal_strlit("&amp;gt;");
            reveal_strlit("&amp;");
            reveal_strlit("&#x27;");
            reveal_strlit("&quot;");
            reveal_strlit("&#x2F;");
            assert(escaped(s)[i] == escaped_char(s.last())[i - front.len()]);
        }
    }
}

/// The text that the standard engine of `base64` gives to the bytes of a text.
pub uninterp spec fn base64_of_text(text: Seq<char>) -> Seq<char>;

/// Whether a character is a letter or a digit.
pub open spec fn alphanumeric(c: char) -> bool {
    ('a' <= c && c <= 'z') || ('A' <= c && c <= 'Z') || ('0' <= c && c <= '9')
}

/// `encode` of `base64::engine::general_purpose::STANDARD` on the bytes of a text. The result
/// depends on the text alone and is made of letters, digits, `+`, `/` and the padding `=`.
#[verifier::external_body]
fn encode_text(text: &str) -> (r: String)
    ensures
        r@ == base64_of_text(text@),
        forall|i: int|
            0 <= i < r@.len() ==> (alphanumeric(#[trigger] r@[i]) || r@[i] == '+' || r@[i] == '/'
                || r@[i] == '='),
{
    base64::Engine::encode(&base64::engine::general_purpose::STANDARD, text)
}

/// HTML tags for link previews, with the resource itself where everybody may read it.
pub struct MetaTags {
    pub description: String,
    pub title: String,
    pub image: String,
    pub json: Option<String>,
}

/// The parts of a resource that link previews show.
pub struct Preview {
    pub description: Option<String>,
    pub name: Option<String>,
    pub download_url: Option<String>,
    /// The text of the resource, where it can be written.
    pub json: Option<String>,
}

/// A resource that is shown, with or without the resources it refers to.
pub enum PreviewResponse {
    Resource(Preview),
    /// The text of all of them, where it can be written.
    ResourceWithReferenced(Preview, Option<String>),
}

/// A text, or what stands for a missing one.
pub open spec fn or_default(text: Option<String>, default: Seq<char>) -> Seq<char> {
    match text {
        Some(t) => t@,
        None => default,
    }
}

/// A text, or what stands for a missing one.
fn unwrap_or(text: Option<String>, default: &str) -> (r: String)
    ensures
        r@ == or_default(text, default@),
{
    match text {
        Some(t) => t,
        None => default.to_owned(),
    }
}

impl Default for MetaTags {
    fn default() -> (r: MetaTags)
        ensures
            r.description@ == "Sign in to view this resource"@,
            r.title@ == "Atomic Server"@,
            r.image@ == "/default_social_preview.jpg"@,
            r.json is None,
    {
        MetaTags {
            description: "Sign in to view this resource".to_owned(),
            title: "Atomic Server".to_owned(),
            image: "/default_social_preview.jpg".to_owned(),
            json: None,
        }
    }
}

/// The start of a tag.
pub const DESCRIPTION_TAG: &'static str = "<meta name=\"description\" content=\"";
pub const OG_TITLE_TAG: &'static str = "\">\n<meta property=\"og:title\" content=\"";
pub const OG_DESCRIPTION_TAG: &'static str = "\">\n<meta property=\"og:description\" content=\"";
pub const OG_IMAGE_TAG: &'static str = "\">\n<meta property=\"og:image\" content=\"";
pub const TWITTER_TITLE_TAG: &'static str = "\">\n<meta property=\"twitter:card\" content=\"summary_large_image\">\n<meta property=\"twitter:title\" content=\"";
pub const TWITTER_DESCRIPTION_TAG: &'static str = "\">\n<meta property=\"twitter:description\" content=\"";
pub const TWITTER_IMAGE_TAG: &'static str = "\">\n<meta property=\"twitter:image\" content=\"";
pub const JSON_TAG: &'static str = "\n<meta property=\"json-ad-initial\" content=\"";

impl MetaTags {
    /// The tags of a resource.
    pub fn from_resource(r: Preview) -> (tags: MetaTags)
        ensures
            preview_tags(r, r.json, tags),
    {
        MetaTags {
            description: unwrap_or(
                r.description,
                "Open this resource in your browser to view its contents.",
            ),
            title: unwrap_or(r.name, "Atomic Server"),
            image: unwrap_or(r.download_url, "/default_social_preview.jpg"),
            json: r.json,
        }
    }

    /// The tags of a resource, with the resources it refers to.
    pub fn from_response(rr: PreviewResponse) -> (tags: MetaTags)
        ensures
            page_tags(Some(rr), tags),
    {
        match rr {
            PreviewResponse::Resource(r) => MetaTags::from_resource(r),
            PreviewResponse::ResourceWithReferenced(r, json) => {
                let mut tags = MetaTags::from_resource(r);
                tags.json = json;
                tags
            },
        }
    }

    /// The text of the tags.
    pub open spec fn html(self) -> Seq<char> {
        let description = escaped(self.description@);
        let title = escaped(self.title@);
        let image = self.image@;
        let head = DESCRIPTION_TAG@ + description + OG_TITLE_TAG@ + title + OG_DESCRIPTION_TAG@
            + description + OG_IMAGE_TAG@ + image + TWITTER_TITLE_TAG@ + title
            + TWITTER_DESCRIPTION_TAG@ + description + TWITTER_IMAGE_TAG@ + image + "\">"@;
        match self.json {
            Some(json) => head + JSON_TAG@ + base64_of_text(json@) + "\">"@,
            None => head,
        }
    }

    /// The text of the tags.
    pub fn to_string(&self) -> (r: String)
        ensures
            r@ == self.html(),
            !self.image@.contains('<') ==> !crate::text::includes(r@, "<script>"@),
    {
        let description = escape_html(self.description.as_str());
        let title = escape_html(self.title.as_str());
        let mut r = String::new();
        r.append(DESCRIPTION_TAG);
        r.append(description.as_str());
        r.append(OG_TITLE_TAG);
        r.append(title.as_str());
        r.append(OG_DESCRIPTION_TAG);
        r.append(description.as_str());
        r.append(OG_IMAGE_TAG);
        r.append(self.image.as_str());
        r.append(TWITTER_TITLE_TAG);
        r.append(title.as_str());
        r.append(TWITTER_DESCRIPTION_TAG);
        r.append(description.as_str());
        r.append(TWITTER_IMAGE_TAG);
        r.append(self.image.as_str());
        r.append("\">");
        assert(r@ =~= DESCRIPTION_TAG@ + description@ + OG_TITLE_TAG@ + title@ + OG_DESCRIPTION_TAG@
            + description@ + OG_IMAGE_TAG@ + self.image@ + TWITTER_TITLE_TAG@ + title@
            + TWITTER_DESCRIPTION_TAG@ + description@ + TWITTER_IMAGE_TAG@ + self.image@ + "\">"@);
        proof {
            if !self.image@.contains('<') {
                lemma_head_opens_only_meta(self.description@, self.title@, self.image@);
            }
        }
        if let Some(json) = &self.json {
            let encoded = encode_text(json.as_str());
            proof {
                if !self.image@.contains('<') {
                    lemma_json_opens_only_meta(r@, encoded@);
                }
            }
            r.append(JSON_TAG);
            r.append(encoded.as_str());
            r.append("\">");
        }
        proof {
            if !self.image@.contains('<') {
                lemma_no_script(r@);
            }
        }
        r
    }
}

/// Whether a tag that a text opens at `i` is a `meta` tag.
pub open spec fn meta_at(s: Seq<char>, i: int) -> bool {
    s[i] == '<' ==> i + 1 < s.len() && s[i + 1] == 'm'
}

/// Every tag that a text opens is a `meta` tag.
pub open spec fn opens_only_meta(s: Seq<char>) -> bool {
    forall|i: int| 0 <= i < s.len() ==> #[trigger] meta_at(s, i)
}

proof fn lemma_meta_add(a: Seq<char>, b: Seq<char>)
    requires
        opens_only_meta(a),
        opens_only_meta(b),
    ensures
        opens_only_meta(a + b),
{
    assert forall|i: int| 0 <= i < (a + b).len() implies #[trigger] meta_at(a + b, i) by {
        if i < a.len() {
            assert(meta_at(a, i));
        } else {
            assert(meta_at(b, i - a.len()));
        }
    }
}

proof fn lemma_meta_escaped(s: Seq<char>)
    ensures
        opens_only_meta(escaped(s)),
{
    assert forall|i: int| 0 <= i < escaped(s).len() implies #[trigger] meta_at(escaped(s), i) by {
        escaped_text_is_inert(s, i);
    }
}

proof fn lemma_meta_literals()
    ensures
        opens_only_meta(DESCRIPTION_TAG@),
        opens_only_meta(OG_TITLE_TAG@),
        opens_only_meta(OG_DESCRIPTION_TAG@),
        opens_only_meta(OG_IMAGE_TAG@),
        opens_only_meta(TWITTER_TITLE_TAG@),
        opens_only_meta(TWITTER_DESCRIPTION_TAG@),
        opens_only_meta(TWITTER_IMAGE_TAG@),
        opens_only_meta(JSON_TAG@),
        opens_only_meta("\">"@),
{
    reveal_strlit("<meta name=\"description\" content=\"");
    reveal_strlit("\">\n<meta property=\"og:title\" content=\"");
    reveal_strlit("\">\n<meta property=\"og:description\" content=\"");
    reveal_strlit("\">\n<meta property=\"og:image\" content=\"");
    reveal_strlit(
        "\">\n<meta property=\"twitter:card\" content=\"summary_large_image\">\n<meta property=\"twitter:title\" content=\"",
    );
    reveal_strlit("\">\n<meta property=\"twitter:description\" content=\"");
    reveal_strlit("\">\n<meta property=\"twitter:image\" content=\"");
    reveal_strlit("\n<meta property=\"json-ad-initial\" content=\"");
    reveal_strlit("\">");
}

proof fn lemma_meta_without(s: Seq<char>)
    requires
        !s.contains('<'),
    ensures
        opens_only_meta(s),
{
    assert forall|i: int| 0 <= i < s.len() implies #[trigger] meta_at(s, i) by {
        assert(s[i] != '<');
    }
}

/// The text of the tags without the resource itself opens `meta` tags only.
proof fn lemma_head_opens_only_meta(description: Seq<char>, title: Seq<char>, image: Seq<char>)
    requires
        !image.contains('<'),
    ensures
        opens_only_meta(
            DESCRIPTION_TAG@ + escaped(description) + OG_TITLE_TAG@ + escaped(title)
                + OG_DESCRIPTION_TAG@ + escaped(description) + OG_IMAGE_TAG@ + image
                + TWITTER_TITLE_TAG@ + escaped(title) + TWITTER_DESCRIPTION_TAG@ + escaped(
                description,
            ) + TWITTER_IMAGE_TAG@ + image + "\">"@,
        ),
{
    lemma_meta_literals();
    lemma_meta_escaped(description);
    lemma_meta_escaped(title);
    lemma_meta_without(image);
    let d = escaped(description);
    let t = escaped(title);
    let s1 = DESCRIPTION_TAG@ + d;
    lemma_meta_add(DESCRIPTION_TAG@, d);
    let s2 = s1 + OG_TITLE_TAG@;
    lemma_meta_add(s1, OG_TITLE_TAG@);
    let s3 = s2 + t;
    lemma_meta_add(s2, t);
    let s4 = s3 + OG_DESCRIPTION_TAG@;
    lemma_meta_add(s3, OG_DESCRIPTION_TAG@);
    let s5 = s4 + d;
    lemma_meta_add(s4, d);
    let s6 = s5 + OG_IMAGE_TAG@;
    lemma_meta_add(s5, OG_IMAGE_TAG@);
    let s7 = s6 + image;
    lemma_meta_add(s6, image);
    let s8 = s7 + TWITTER_TITLE_TAG@;
    lemma_meta_add(s7, TWITTER_TITLE_TAG@);
    let s9 = s8 + t;
    lemma_meta_add(s8, t);
    let s10 = s9 + TWITTER_DESCRIPTION_TAG@;
    lemma_meta_add(s9, TWITTER_DESCRIPTION_TAG@);
    let s11 = s10 + d;
    lemma_meta_add(s10, d);
    let s12 = s11 + TWITTER_IMAGE_TAG@;
    lemma_meta_add(s11, TWITTER_IMAGE_TAG@);
    let s13 = s12 + image;
    lemma_meta_add(s12, image);
    lemma_meta_add(s13, "\">"@);
}

/// So does the text of the tags with the resource itself.
proof fn lemma_json_opens_only_meta(head: Seq<char>, encoded: Seq<char>)
    requires
        opens_only_meta(head),
        forall|i: int|
            0 <= i < encoded.len() ==> (alphanumeric(#[trigger] encoded[i]) || encoded[i] == '+'
                || encoded[i] == '/' || encoded[i] == '='),
    ensures
        opens_only_meta(head + JSON_TAG@ + encoded + "\">"@),
{
    lemma_meta_literals();
    lemma_meta_without(encoded);
    lemma_meta_add(head, JSON_TAG@);
    lemma_meta_add(head + JSON_TAG@, encoded);
    lemma_meta_add(head + JSON_TAG@ + encoded, "\">"@);
}

/// A text that opens `meta` tags only opens no script.
proof fn lemma_no_script(s: Seq<char>)
    requires
        opens_only_meta(s),
    ensures
        !crate::text::includes(s, "<script>"@),
{
    reveal_strlit("<script>");
    if crate::text::includes(s, "<script>"@) {
        let i = choose|i: int| crate::text::occurs(s, "<script>"@, i);
        let part = s.subrange(i, i + "<script>"@.len());
        assert(part[0] == s[i] && part[1] == s[i + 1]);
        assert(meta_at(s, i));
    }
}

/// A text with every occurrence of a pattern replaced, from the left.
pub open spec fn substituted(s: Seq<char>, pattern: Seq<char>, with: Seq<char>) -> Seq<char>
    decreases s.len(),
{
    if s.len() == 0 {
        Seq::empty()
    } else if 0 < pattern.len() && pattern.is_prefix_of(s) {
        with + substituted(s.skip(pattern.len() as int), pattern, with)
    } else {
        seq![s[0]] + substituted(s.skip(1), pattern, with)
    }
}

/// Replaces every occurrence of a pattern, from the left.
fn substitute(s: &str, pattern: &str, with: &str) -> (r: String)
    requires
        pattern@.len() > 0,
    ensures
        r@ == substituted(s@, pattern@, with@),
{
    let chars = to_chars(s);
    let wanted = to_chars(pattern);
    let mut r = String::new();
    let n: usize = chars.len();
    let mut i: usize = 0;
    assert(chars@.skip(0) =~= s@);
    assert(r@ + substituted(s@, pattern@, with@) =~= substituted(s@, pattern@, with@));
    while i < n
        invariant
            i <= n == chars@.len(),
            wanted@ == pattern@,
            chars@ == s@,
            pattern@.len() > 0,
            r@ + substituted(chars@.skip(i as int), pattern@, with@) == substituted(
                s@,
                pattern@,
                with@,
            ),
        decreases chars@.len() - i,
    {
        let ghost rest = chars@.skip(i as int);
        let ghost before = r@;
        if crate::text::occurs_at(&chars, &wanted, i) {
            proof {
                assert(rest.subrange(0, pattern@.len() as int) =~= chars@.subrange(
                    i as int,
                    i + pattern@.len(),
                ));
                assert(pattern@.is_prefix_of(rest));
                assert(rest.skip(pattern@.len() as int) =~= chars@.skip(i + pattern@.len()));
            }
            r.append(with);
            i += wanted.len();
            assert(r@ + substituted(chars@.skip(i as int), pattern@, with@) =~= before + (with@
                + substituted(chars@.skip(i as int), pattern@, with@)));
        } else {
            proof {
                if pattern@.is_prefix_of(rest) {
                    assert(rest.subrange(0, pattern@.len() as int) =~= chars@.subrange(
                        i as int,
                        i + pattern@.len(),
                    ));
                }
                assert(rest.skip(1) =~= chars@.skip(i + 1));
            }
            r.push(chars[i]);
            i += 1;
            assert(r@ + substituted(chars@.skip(i as int), pattern@, with@) =~= before + (seq![
                rest[0],
            ] + substituted(chars@.skip(i as int), pattern@, with@)));
        }
    }
    assert(chars@.skip(i as int) =~= Seq::empty());
    assert(r@ + substituted(chars@.skip(i as int), pattern@, with@) =~= r@);
    r
}

/// A page as it is sent to the browser.
pub struct Page {
    pub body: String,
    pub content_type: &'static str,
    pub cache_control: &'static str,
    pub content_security_policy: String,
}

/// The script tag of the page.
pub open spec fn script_tag(nonce: Seq<char>, script: Seq<char>) -> Seq<char> {
    "<script nonce=\""@ + nonce + "\">"@ + script + "</script>"@
}

/// The template of the page with its three places filled.
pub open spec fn page_body(
    template: Seq<char>,
    nonce: Seq<char>,
    head: Seq<char>,
    script: Seq<char>,
) -> Seq<char> {
    let with_nonce = substituted(template, "ATOMICSERVER_NONCE"@, nonce);
    let with_head = substituted(with_nonce, "<!-- { inject_html_head } -->"@, head);
    substituted(with_head, "<!-- { inject_script } -->"@, script_tag(nonce, script))
}

/// The tags of a page: those of the resource, where it can be read by everybody.
pub open spec fn page_tags(response: Option<PreviewResponse>, tags: MetaTags) -> bool {
    match response {
        Some(PreviewResponse::Resource(r)) => preview_tags(r, r.json, tags),
        Some(PreviewResponse::ResourceWithReferenced(r, json)) => preview_tags(r, json, tags),
        None => tags.description@ == "Sign in to view this resource"@ && tags.title@
            == "Atomic Server"@ && tags.image@ == "/default_social_preview.jpg"@ && tags.json
            is None,
    }
}

/// The tags of a resource.
pub open spec fn preview_tags(r: Preview, json: Option<String>, tags: MetaTags) -> bool {
    &&& tags.description@ == or_default(
        r.description,
        "Open this resource in your browser to view its contents."@,
    )
    &&& tags.title@ == or_default(r.name, "Atomic Server"@)
    &&& tags.image@ == or_default(r.download_url, "/default_social_preview.jpg"@)
    &&& tags.json == json
}

/// The page that opens a resource in the browser. Only scripts with the nonce are run.
pub fn render_page(
    template: &str,
    nonce: &str,
    response: Option<PreviewResponse>,
    script: &str,
) -> (r: Page)
    ensures
        exists|tags: MetaTags| #[trigger]
            page_tags(response, tags) && r.body@ == page_body(
                template@,
                nonce@,
                tags.html(),
                script@,
            ),
        r.content_type@ == "text/html"@,
        r.cache_control@ == "no-store, no-cache, must-revalidate, private"@,
        r.content_security_policy@ == "script-src 'nonce-"@ + nonce@ + "'; worker-src 'self'"@,
{
    let tags: MetaTags = match response {
        Some(rr) => MetaTags::from_response(rr),
        None => MetaTags::default(),
    };
    assert(page_tags(response, tags));
    let head = tags.to_string();
    let tag = cat2(
        cat3("<script nonce=\"", nonce, "\">").as_str(),
        cat2(script, "</script>").as_str(),
    );
    assert(tag@ =~= script_tag(nonce@, script@));
    proof {
        reveal_strlit("ATOMICSERVER_NONCE");
        reveal_strlit("<!-- { inject_html_head } -->");
        reveal_strlit("<!-- { inject_script } -->");
    }
    let with_nonce = substitute(template, "ATOMICSERVER_NONCE", nonce);
    let with_head = substitute(
        with_nonce.as_str(),
        "<!-- { inject_html_head } -->",
        head.as_str(),
    );
    let body = substitute(with_head.as_str(), "<!-- { inject_script } -->", tag.as_str());
    Page {
        body,
        content_type: "text/html",
        cache_control: "no-store, no-cache, must-revalidate, private",
        content_security_policy: cat3("script-src 'nonce-", nonce, "'; worker-src 'self'"),
    }
}

/// The address of the resource that a page is asked for.
pub fn page_subject(server_url: &str, path: &str) -> (r: String)
    ensures
        r@ == server_url@ + "/"@ + path@,
{
    cat3(server_url, "/", path)
}

/// The text that the URL-safe engine of `base64` without padding gives to some bytes.
pub uninterp spec fn base64_of_bytes(bytes: Seq<u8>) -> Seq<char>;

/// `encode` of `base64::engine::general_purpose::URL_SAFE_NO_PAD`. The result depends on the bytes
/// alone and is made of letters, digits, `-` and `_`.
#[verifier::external_body]
fn encode_bytes(bytes: &Vec<u8>) -> (r: String)
    ensures
        r@ == base64_of_bytes(bytes@),
        url_safe(r@),
{
    base64::Engine::encode(&base64::engine::general_purpose::URL_SAFE_NO_PAD, bytes)
}

/// `fill` of `ring::rand::SystemRandom`, which replaces every byte by one that the system draws,
/// or fails.
#[verifier::external_body]
fn fill_random(bytes: &mut Vec<u8>) -> (r: bool)
    ensures
        final(bytes)@.len() == old(bytes)@.len(),
{
    ring::rand::SecureRandom::fill(&ring::rand::SystemRandom::new(), bytes).is_ok()
}

/// Whether a text is a nonce: the text of 32 bytes.
pub open spec fn is_nonce(nonce: Seq<char>) -> bool {
    exists|bytes: Seq<u8>| bytes.len() == 32 && nonce == #[trigger] base64_of_bytes(bytes)
}

/// Whether a text can stand in an address and in an attribute as it is.
pub open spec fn url_safe(text: Seq<char>) -> bool {
    forall|i: int|
        0 <= i < text.len() ==> (alphanumeric(#[trigger] text[i]) || text[i] == '-' || text[i]
            == '_')
}

/// The nonce of the bytes that were drawn. None were where drawing failed.
pub fn nonce_of(drawn: Option<Vec<u8>>) -> (r: AtomicResult<String>)
    ensures
        match drawn {
            Some(bytes) => r is Ok && r->Ok_0@ == base64_of_bytes(bytes@) && url_safe(r->Ok_0@),
            None => r is Err && r->Err_0@ == crate::errors::other("Failed to generate nonce"@),
        },
{
    match drawn {
        Some(bytes) => Ok(encode_bytes(&bytes)),
        None => Err(AtomicError::other_error("Failed to generate nonce".to_owned())),
    }
}

/// A new nonce, where the system can draw one.
pub fn generate_nonce() -> (r: AtomicResult<String>)
    ensures
        match r {
            Ok(nonce) => is_nonce(nonce@) && url_safe(nonce@),
            Err(e) => e@ == crate::errors::other("Failed to generate nonce"@),
        },
{
    let mut bytes: Vec<u8> = Vec::new();
    bytes.resize(32, 0);
    let drawn = fill_random(&mut bytes);
    nonce_of(
        if drawn {
            Some(bytes)
        } else {
            None
        },
    )
}

proof fn lemma_substituted_absent(s: Seq<char>, pattern: Seq<char>, with: Seq<char>)
    requires
        !crate::text::includes(s, pattern),
    ensures
        substituted(s, pattern, with) == s,
    decreases s.len(),
{
    if s.len() > 0 {
        if pattern.is_prefix_of(s) {
            assert(crate::text::occurs(s, pattern, 0));
        }
        let rest = s.skip(1);
        if crate::text::includes(rest, pattern) {
            let i = choose|i: int| crate::text::occurs(rest, pattern, i);
            assert(rest.subrange(i, i + pattern.len()) =~= s.subrange(
                i + 1,
                i + 1 + pattern.len(),
            ));
            assert(crate::text::occurs(s, pattern, i + 1));
        }
        lemma_substituted_absent(rest, pattern, with);
        assert(seq![s[0]] + rest =~= s);
    } else {
        assert(s =~= Seq::empty());
    }
}

/// The leftmost occurrence of a pattern is replaced, what stands before it stays, and what comes after
/// it is treated likewise. A text without the pattern stays as it is.
pub proof fn occurrences_are_replaced_from_the_left(
    s: Seq<char>,
    pattern: Seq<char>,
    with: Seq<char>,
    i: int,
)
    requires
        pattern.len() > 0,
    ensures
        !crate::text::includes(s, pattern) ==> substituted(s, pattern, with) == s,
        crate::text::first_occurs(s, pattern, i) ==> substituted(s, pattern, with) == s.take(i)
            + with + substituted(s.skip(i + pattern.len()), pattern, with),
    decreases s.len(),
{
    if !crate::text::includes(s, pattern) {
        lemma_substituted_absent(s, pattern, with);
    }
    if crate::text::first_occurs(s, pattern, i) {
        if i == 0 {
            assert(s.subrange(0, pattern.len() as int) == pattern);
            assert(pattern.is_prefix_of(s));
            assert(s.take(0) + with =~= with);
        } else {
            if pattern.is_prefix_of(s) {
                assert(crate::text::occurs(s, pattern, 0));
            }
            let rest = s.skip(1);
            assert(rest.subrange(i - 1, i - 1 + pattern.len()) =~= s.subrange(
                i,
                i + pattern.len(),
            ));
            assert forall|j: int| 0 <= j < i - 1 implies !crate::text::occurs(
                rest,
                pattern,
                j,
            ) by {
                if crate::text::occurs(rest, pattern, j) {
                    assert(rest.subrange(j, j + pattern.len()) =~= s.subrange(
                        j + 1,
                        j + 1 + pattern.len(),
                    ));
                    assert(crate::text::occurs(s, pattern, j + 1));
                }
            }
            assert(crate::text::first_occurs(rest, pattern, i - 1));
            occurrences_are_replaced_from_the_left(rest, pattern, with, i - 1);
            assert(rest.skip(i - 1 + pattern.len()) =~= s.skip(i + pattern.len()));
            let tail = with + substituted(s.skip(i + pattern.len()), pattern, with);
            assert(rest.take(i - 1) + with + substituted(s.skip(i + pattern.len()), pattern, with)
                =~= rest.take(i - 1) + tail);
            assert(seq![s[0]] + (rest.take(i - 1) + tail) =~= s.take(i) + with + substituted(
                s.skip(i + pattern.len()),
                pattern,
                with,
            ));
        }
    }
}

/// A text with what stands in it at `i` replaced.
pub open spec fn filled(s: Seq<char>, pattern: Seq<char>, i: int, with: Seq<char>) -> Seq<char> {
    s.take(i) + with + s.skip(i + pattern.len())
}

/// Whether a pattern stands in a text at `i` and nowhere else.
pub open spec fn occurs_once(s: Seq<char>, pattern: Seq<char>, i: int) -> bool {
    crate::text::first_occurs(s, pattern, i) && !crate::text::includes(
        s.skip(i + pattern.len()),
        pattern,
    )
}

/// The page is the template with the tags in their place, the script with its nonce in its place, and
/// the nonce in its place: whatever one of them stands for alone is filled in, and the rest of the
/// template stays as it is.
pub proof fn pages_are_filled_in(
    template: Seq<char>,
    nonce: Seq<char>,
    head: Seq<char>,
    script: Seq<char>,
    i: int,
)
    ensures
        ({
            let page = page_body(template, nonce, head, script);
            let no_nonce = !crate::text::includes(template, "ATOMICSERVER_NONCE"@);
            let no_head = !crate::text::includes(template, "<!-- { inject_html_head } -->"@);
            let no_script = !crate::text::includes(template, "<!-- { inject_script } -->"@);
            let with_nonce = filled(template, "ATOMICSERVER_NONCE"@, i, nonce);
            let with_head = filled(template, "<!-- { inject_html_head } -->"@, i, head);
            &&& no_nonce && no_head && no_script ==> page == template
            &&& no_nonce && no_head && occurs_once(template, "<!-- { inject_script } -->"@, i)
                ==> page == filled(
                template,
                "<!-- { inject_script } -->"@,
                i,
                "<script nonce=\""@ + nonce + "\">"@ + script + "</script>"@,
            )
            &&& no_nonce && occurs_once(template, "<!-- { inject_html_head } -->"@, i)
                && !crate::text::includes(with_head, "<!-- { inject_script } -->"@) ==> page
                == with_head
            &&& occurs_once(template, "ATOMICSERVER_NONCE"@, i) && !crate::text::includes(
                with_nonce,
                "<!-- { inject_html_head } -->"@,
            ) && !crate::text::includes(with_nonce, "<!-- { inject_script } -->"@) ==> page
                == with_nonce
        }),
{
    reveal_strlit("ATOMICSERVER_NONCE");
    reveal_strlit("<!-- { inject_html_head } -->");
    reveal_strlit("<!-- { inject_script } -->");
    let tag = script_tag(nonce, script);
    let n = "ATOMICSERVER_NONCE"@;
    let h = "<!-- { inject_html_head } -->"@;
    let s = "<!-- { inject_script } -->"@;
    let with_nonce = filled(template, n, i, nonce);
    let with_head = filled(template, h, i, head);
    occurrences_are_replaced_from_the_left(template, n, nonce, i);
    occurrences_are_replaced_from_the_left(template.skip(i + n.len()), n, nonce, i);
    occurrences_are_replaced_from_the_left(template, h, head, i);
    occurrences_are_replaced_from_the_left(template.skip(i + h.len()), h, head, i);
    occurrences_are_replaced_from_the_left(template, s, tag, i);
    occurrences_are_replaced_from_the_left(template.skip(i + s.len()), s, tag, i);
    occurrences_are_replaced_from_the_left(with_nonce, h, head, i);
    occurrences_are_replaced_from_the_left(with_nonce, s, tag, i);
    occurrences_are_replaced_from_the_left(with_head, s, tag, i);
}

/// A page shows what its resource says, and what stands for it where the resource says nothing. A page
/// whose resource not everybody may read shows nothing of it.
pub proof fn pages_show_their_resource(
    resource: Preview,
    all: Option<String>,
    response: Option<PreviewResponse>,
    tags: MetaTags,
)
    requires
        page_tags(response, tags),
    ensures
        response is None ==> tags.json is None && tags.title@ == "Atomic Server"@
            && tags.description@ == "Sign in to view this resource"@,
        response == Some(PreviewResponse::Resource(resource)) ==> tags.json == resource.json,
        response == Some(PreviewResponse::ResourceWithReferenced(resource, all)) ==> tags.json
            == all,
        response == Some(PreviewResponse::Resource(resource)) || response == Some(
            PreviewResponse::ResourceWithReferenced(resource, all),
        ) ==> {
            &&& resource.name matches Some(name) ==> tags.title@ == name@
            &&& resource.name is None ==> tags.title@ == "Atomic Server"@
            &&& resource.description matches Some(description) ==> tags.description@
                == description@
            &&& resource.description is None ==> tags.description@
                == "Open this resource in your browser to view its contents."@
            &&& resource.download_url matches Some(url) ==> tags.image@ == url@
            &&& resource.download_url is None ==> tags.image@ == "/default_social_preview.jpg"@
        },
{
}

proof fn lemma_tag_includes(
    before: Seq<char>,
    front: Seq<char>,
    opening: Seq<char>,
    tag: Seq<char>,
    value: Seq<char>,
)
    requires
        tag == front + opening,
    ensures
        crate::text::includes(before + tag + value, opening + value),
{
    let s = before + tag + value;
    let i = before.len() + front.len() as int;
    assert(s.subrange(i, i + (opening + value).len()) =~= opening + value);
    assert(crate::text::occurs(s, opening + value, i));
}

proof fn lemma_grows(s: Seq<char>, more: Seq<char>)
    ensures
        forall|p: Seq<char>| #[trigger]
            crate::text::includes(s, p) ==> crate::text::includes(s + more, p),
{
    assert forall|p: Seq<char>| #[trigger] crate::text::includes(s, p) implies crate::text::includes(
        s + more,
        p,
    ) by {
        let i = choose|i: int| crate::text::occurs(s, p, i);
        assert((s + more).subrange(i, i + p.len()) =~= s.subrange(i, i + p.len()));
        assert(crate::text::occurs(s + more, p, i));
    }
}

/// The tags show the title, the description and the picture of a resource, each in its place, and the
/// resource itself where there is one to show.
pub proof fn tags_show_what_they_hold(tags: MetaTags)
    ensures
        crate::text::includes(
            tags.html(),
            "<meta name=\"description\" content=\""@ + escaped(tags.description@),
        ),
        crate::text::includes(
            tags.html(),
            "<meta property=\"og:title\" content=\""@ + escaped(tags.title@),
        ),
        crate::text::includes(
            tags.html(),
            "<meta property=\"og:description\" content=\""@ + escaped(tags.description@),
        ),
        crate::text::includes(
            tags.html(),
            "<meta property=\"og:image\" content=\""@ + tags.image@,
        ),
        crate::text::includes(
            tags.html(),
            "<meta property=\"twitter:title\" content=\""@ + escaped(tags.title@),
        ),
        crate::text::includes(
            tags.html(),
            "<meta property=\"twitter:description\" content=\""@ + escaped(tags.description@),
        ),
        crate::text::includes(
            tags.html(),
            "<meta property=\"twitter:image\" content=\""@ + tags.image@,
        ),
        tags.json matches Some(json) ==> crate::text::includes(
            tags.html(),
            "<meta property=\"json-ad-initial\" content=\""@ + base64_of_text(json@),
        ),
{
    lemma_openings();
    let d = escaped(tags.description@);
    let t = escaped(tags.title@);
    let image = tags.image@;
    let s0 = Seq::<char>::empty();
    let s1 = DESCRIPTION_TAG@ + d;
    assert(s0 + DESCRIPTION_TAG@ + d =~= s1);
    lemma_tag_includes(s0, s0, "<meta name=\"description\" content=\""@, DESCRIPTION_TAG@, d);
    let s2 = s1 + OG_TITLE_TAG@ + t;
    lemma_grows(s1, OG_TITLE_TAG@);
    lemma_grows(s1 + OG_TITLE_TAG@, t);
    lemma_tag_includes(
        s1,
        "\">\n"@,
        "<meta property=\"og:title\" content=\""@,
        OG_TITLE_TAG@,
        t,
    );
    let s3 = s2 + OG_DESCRIPTION_TAG@ + d;
    lemma_grows(s2, OG_DESCRIPTION_TAG@);
    lemma_grows(s2 + OG_DESCRIPTION_TAG@, d);
    lemma_tag_includes(
        s2,
        "\">\n"@,
        "<meta property=\"og:description\" content=\""@,
        OG_DESCRIPTION_TAG@,
        d,
    );
    let s4 = s3 + OG_IMAGE_TAG@ + image;
    lemma_grows(s3, OG_IMAGE_TAG@);
    lemma_grows(s3 + OG_IMAGE_TAG@, image);
    lemma_tag_includes(
        s3,
        "\">\n"@,
        "<meta property=\"og:image\" content=\""@,
        OG_IMAGE_TAG@,
        image,
    );
    let s5 = s4 + TWITTER_TITLE_TAG@ + t;
    lemma_grows(s4, TWITTER_TITLE_TAG@);
    lemma_grows(s4 + TWITTER_TITLE_TAG@, t);
    lemma_tag_includes(
        s4,
        "\">\n<meta property=\"twitter:card\" content=\"summary_large_image\">\n"@,
        "<meta property=\"twitter:title\" content=\""@,
        TWITTER_TITLE_TAG@,
        t,
    );
    let s6 = s5 + TWITTER_DESCRIPTION_TAG@ + d;
    lemma_grows(s5, TWITTER_DESCRIPTION_TAG@);
    lemma_grows(s5 + TWITTER_DESCRIPTION_TAG@, d);
    lemma_tag_includes(
        s5,
        "\">\n"@,
        "<meta property=\"twitter:description\" content=\""@,
        TWITTER_DESCRIPTION_TAG@,
        d,
    );
    let s7 = s6 + TWITTER_IMAGE_TAG@ + image;
    lemma_grows(s6, TWITTER_IMAGE_TAG@);
    lemma_grows(s6 + TWITTER_IMAGE_TAG@, image);
    lemma_tag_includes(
        s6,
        "\">\n"@,
        "<meta property=\"twitter:image\" content=\""@,
        TWITTER_IMAGE_TAG@,
        image,
    );
    let head = s7 + "\">"@;
    lemma_grows(s7, "\">"@);
    if let Some(json) = tags.json {
        let j = base64_of_text(json@);
        lemma_grows(head, JSON_TAG@);
        lemma_grows(head + JSON_TAG@, j);
        lemma_grows(head + JSON_TAG@ + j, "\">"@);
        lemma_tag_includes(
            head,
            "\n"@,
            "<meta property=\"json-ad-initial\" content=\""@,
            JSON_TAG@,
            j,
        );
    }
}

proof fn lemma_openings()
    ensures
        DESCRIPTION_TAG@ == Seq::<char>::empty() + "<meta name=\"description\" content=\""@,
        OG_TITLE_TAG@ == "\">\n"@ + "<meta property=\"og:title\" content=\""@,
        OG_DESCRIPTION_TAG@ == "\">\n"@ + "<meta property=\"og:description\" content=\""@,
        OG_IMAGE_TAG@ == "\">\n"@ + "<meta property=\"og:image\" content=\""@,
        TWITTER_TITLE_TAG@ == "\">\n<meta property=\"twitter:card\" content=\"summary_large_image\">\n"@ + "<meta property=\"twitter:title\" content=\""@,
        TWITTER_DESCRIPTION_TAG@ == "\">\n"@ + "<meta property=\"twitter:description\" content=\""@,
        TWITTER_IMAGE_TAG@ == "\">\n"@ + "<meta property=\"twitter:image\" content=\""@,
        JSON_TAG@ == "\n"@ + "<meta property=\"json-ad-initial\" content=\""@,
{
    assert(DESCRIPTION_TAG@ =~= Seq::<char>::empty() + "<meta name=\"description\" content=\""@) by {
        reveal_strlit("<meta name=\"description\" content=\"");
    }
    assert(OG_TITLE_TAG@ =~= "\">\n"@ + "<meta property=\"og:title\" content=\""@) by {
        reveal_strlit("\">\n<meta property=\"og:title\" content=\"");
        reveal_strlit("\">\n");
        reveal_strlit("<meta property=\"og:title\" content=\"");
    }
    assert(OG_DESCRIPTION_TAG@ =~= "\">\n"@ + "<meta property=\"og:description\" content=\""@) by {
        reveal_strlit("\">\n<meta property=\"og:description\" content=\"");
        reveal_strlit("\">\n");
        reveal_strlit("<meta property=\"og:description\" content=\"");
    }
    assert(OG_IMAGE_TAG@ =~= "\">\n"@ + "<meta property=\"og:image\" content=\""@) by {
        reveal_strlit("\">\n<meta property=\"og:image\" content=\"");
        reveal_strlit("\">\n");
        reveal_strlit("<meta property=\"og:image\" content=\"");
    }
    assert(TWITTER_TITLE_TAG@ =~= "\">\n<meta property=\"twitter:card\" content=\"summary_large_image\">\n"@ + "<meta property=\"twitter:title\" content=\""@) by {
        reveal_strlit("\">\n<meta property=\"twitter:card\" content=\"summary_large_image\">\n<meta property=\"twitter:title\" content=\"");
        reveal_strlit("\">\n<meta property=\"twitter:card\" content=\"summary_large_image\">\n");
        reveal_strlit("<meta property=\"twitter:title\" content=\"");
    }
    assert(TWITTER_DESCRIPTION_TAG@ =~= "\">\n"@ + "<meta property=\"twitter:description\" content=\""@) by {
        reveal_strlit("\">\n<meta property=\"twitter:description\" content=\"");
        reveal_strlit("\">\n");
        reveal_strlit("<meta property=\"twitter:description\" content=\"");
    }
    assert(TWITTER_IMAGE_TAG@ =~= "\">\n"@ + "<meta property=\"twitter:image\" content=\""@) by {
        reveal_strlit("\">\n<meta property=\"twitter:image\" content=\"");
        reveal_strlit("\">\n");
        reveal_strlit("<meta property=\"twitter:image\" content=\"");
    }
    assert(JSON_TAG@ =~= "\n"@ + "<meta property=\"json-ad-initial\" content=\""@) by {
        reveal_strlit("\n<meta property=\"json-ad-initial\" content=\"");
        reveal_strlit("\n");
        reveal_strlit("<meta property=\"json-ad-initial\" content=\"");
    }
}

} // verus!
