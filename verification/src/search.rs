//! What the full-text search knows of a resource: its title, its text, and where it stands.
use crate::errors::{AtomicError, AtomicResult};
use crate::text::{cat2, cat4, contains, to_bytes, trim};
use crate::urls;
use crate::values::{DataType, DataTypeView, PropValue, PropValueView, Resource, ResourceView, get_propval};
use vstd::prelude::*;

verus! {

/// Whether a resource is found by the search: commits are not.
pub fn is_searched(subject: &str) -> (r: bool)
    ensures
        r == !crate::text::includes(subject@, "/commits/"@),
{
    !contains(subject, "/commits/")
}

/// What is said where a resource could not be added.
pub fn explain_add(subject: &str, cause: &AtomicError) -> (r: AtomicError)
    ensures
        r@ == crate::errors::other(
            "Failed to add resource to search index: "@ + subject@ + ". Error: "@ + cause@.message,
        ),
{
    AtomicError::other_error(
        cat4(
            "Failed to add resource to search index: ",
            subject,
            ". Error: ",
            cause.message.as_str(),
        ),
    )
}

/// What is said where the text of a resource could not be read.
pub fn explain_json(subject: &str, cause: &str) -> (r: AtomicError)
    ensures
        r@ == crate::errors::other(
            "Failed to convert resource to json for search indexing. Subject: "@ + subject@
                + ". Error: "@ + cause@,
        ),
{
    AtomicError::other_error(
        cat4(
            "Failed to convert resource to json for search indexing. Subject: ",
            subject,
            ". Error: ",
            cause,
        ),
    )
}

/// What is said where the content of a document could not be read.
pub fn explain_decode(cause: &str) -> (r: AtomicError)
    ensures
        r@ == crate::errors::other("Failed to decode YDoc update: "@ + cause@),
{
    AtomicError::other_error(cat2("Failed to decode YDoc update: ", cause))
}

/// What is said where the content of a document could not be made.
pub fn explain_update(cause: &str) -> (r: AtomicError)
    ensures
        r@ == crate::errors::other("Failed to apply YDoc update: "@ + cause@),
{
    AtomicError::other_error(cat2("Failed to apply YDoc update: ", cause))
}

/// The value that names a resource: its name, its short name, or the name of its file.
pub open spec fn naming_value(resource: ResourceView) -> Option<PropValueView> {
    match crate::assoc::lookup(resource.propvals, urls::NAME@) {
        Some(name) => Some(name),
        None => match crate::assoc::lookup(resource.propvals, urls::SHORTNAME@) {
            Some(shortname) => Some(shortname),
            None => crate::assoc::lookup(resource.propvals, urls::FILENAME@),
        },
    }
}

/// The title of a resource: the value that names it, where that is a text, or its address.
pub open spec fn title_of(resource: ResourceView) -> Seq<char> {
    match naming_value(resource) {
        Some(PropValueView::Literal { text, datatype: DataTypeView::String }) => text,
        Some(PropValueView::Literal { text, datatype: DataTypeView::Slug }) => text,
        _ => resource.subject,
    }
}

/// The title of a resource.
pub fn get_resource_title(resource: &Resource) -> (r: String)
    ensures
        r@ == title_of(resource@),
{
    let value = match get_propval(&resource.propvals, urls::NAME) {
        Some(name) => Some(name),
        None => match get_propval(&resource.propvals, urls::SHORTNAME) {
            Some(shortname) => Some(shortname),
            None => get_propval(&resource.propvals, urls::FILENAME),
        },
    };
    match value {
        Some(PropValue::Literal { text, datatype: DataType::String }) => text.clone(),
        Some(PropValue::Literal { text, datatype: DataType::Slug }) => text.clone(),
        _ => resource.subject.clone(),
    }
}

/// The description of a resource, where it is a text in Markdown.
pub fn get_description(resource: &Resource) -> (r: Option<String>)
    ensures
        crate::text::opt(r) == (match crate::assoc::lookup(
            resource@.propvals,
            urls::DESCRIPTION@,
        ) {
            Some(PropValueView::Literal { text, datatype: DataTypeView::Markdown }) => Some(text),
            _ => None,
        }),
{
    match get_propval(&resource.propvals, urls::DESCRIPTION) {
        Some(PropValue::Literal { text, datatype: DataType::Markdown }) => Some(text.clone()),
        _ => None,
    }
}

/// The place of the first `>` in a text, or its length.
pub open spec fn closing(s: Seq<char>) -> nat
    decreases s.len(),
{
    if s.len() == 0 || s[0] == '>' {
        0
    } else {
        1 + closing(s.skip(1))
    }
}

/// A text with a space in place of each tag: what stands from a `<` to the next `>`.
pub open spec fn without_tags(s: Seq<char>) -> Seq<char>
    decreases s.len(),
{
    if s.len() == 0 {
        Seq::empty()
    } else if s[0] == '<' && closing(s) < s.len() {
        seq![' '] + without_tags(s.skip(closing(s) as int + 1))
    } else {
        seq![s[0]] + without_tags(s.skip(1))
    }
}

proof fn lemma_closing(s: Seq<char>)
    ensures
        closing(s) <= s.len(),
        closing(s) < s.len() ==> s[closing(s) as int] == '>',
        forall|i: int| 0 <= i < closing(s) ==> #[trigger] s[i] != '>',
    decreases s.len(),
{
    if s.len() > 0 && s[0] != '>' {
        let rest = s.skip(1);
        lemma_closing(rest);
        assert forall|i: int| 0 <= i < closing(s) implies #[trigger] s[i] != '>' by {
            if i > 0 {
                assert(rest[i - 1] == s[i]);
            }
        }
    }
}

proof fn lemma_unclosed(s: Seq<char>, i: int)
    requires
        closing(s) == s.len(),
        0 <= i < without_tags(s).len(),
    ensures
        without_tags(s)[i] != '>',
    decreases s.len(),
{
    lemma_closing(s);
    let rest = s.skip(1);
    lemma_closing(rest);
    assert(closing(rest) == rest.len()) by {
        if closing(rest) < rest.len() {
            assert(s[closing(rest) as int + 1] == '>');
        }
    }
    if i > 0 {
        lemma_unclosed(rest, i - 1);
    }
}

/// No tag is left in a text from which the tags have been taken: no `>` comes after a `<`.
pub proof fn no_tag_is_left(s: Seq<char>, i: int, j: int)
    requires
        0 <= i < j < without_tags(s).len(),
        without_tags(s)[i] == '<',
    ensures
        without_tags(s)[j] != '>',
    decreases s.len(),
{
    lemma_closing(s);
    if s[0] == '<' && closing(s) < s.len() {
        no_tag_is_left(s.skip(closing(s) as int + 1), i - 1, j - 1);
    } else if i > 0 {
        no_tag_is_left(s.skip(1), i - 1, j - 1);
    } else {
        lemma_unclosed(s, j);
    }
}

/// The pattern of a tag.
pub const TAG_PATTERN: &'static str = "<[^>]*>";

/// `regex::Regex::replace_all` of what matches a pattern, stated for tags and a space in their
/// place.
#[verifier::external_body]
fn replace_matches(text: &str, pattern: &str, with: &str) -> (r: String)
    requires
        pattern@ == TAG_PATTERN@,
        with@ == " "@,
    ensures
        r@ == without_tags(text@),
{
    regex::Regex::new(pattern).unwrap().replace_all(text, with).into_owned()
}

/// The texts of a document one after the other.
pub open spec fn concatenated(texts: Seq<Seq<char>>) -> Seq<char>
    decreases texts.len(),
{
    if texts.len() == 0 {
        Seq::empty()
    } else {
        concatenated(texts.drop_last()) + texts.last()
    }
}

/// The plain text of a document: its texts one after the other, without tags, and without white space
/// at the ends.
pub open spec fn plain_text(texts: Seq<Seq<char>>) -> Seq<char> {
    crate::text::trimmed(crate::text::left_trimmed(without_tags(concatenated(texts))))
}

/// The plain text of a document: its texts without tags.
pub fn extract_plain_text(texts: &Vec<String>) -> (r: String)
    ensures
        r@ == plain_text(crate::text::list(texts@)),
{
    let ghost all = crate::text::list(texts@);
    let mut content = String::new();
    let mut i: usize = 0;
    assert(content@ =~= Seq::<char>::empty());
    while i < texts.len()
        invariant
            i <= texts@.len(),
            all == crate::text::list(texts@),
            content@ == concatenated(all.take(i as int)),
        decreases texts@.len() - i,
    {
        assert(all.take(i + 1).drop_last() =~= all.take(i as int));
        assert(all.take(i + 1).last() == texts@[i as int]@);
        content.append(texts[i].as_str());
        i += 1;
    }
    assert(all.take(i as int) =~= all);
    let clean = replace_matches(content.as_str(), TAG_PATTERN, " ");
    trim(clean.as_str())
}

/// Where a resource stands, as `tantivy` holds it.
#[verifier::external_type_specification]
#[verifier::external_body]
pub struct ExFacet(tantivy::schema::Facet);

/// The bytes that a facet is made of.
pub uninterp spec fn facet_bytes(facet: tantivy::schema::Facet) -> Seq<u8>;

/// The complaint of `Facet::from_encoded` about bytes that are no text.
pub uninterp spec fn facet_complaint(bytes: Seq<u8>) -> Seq<char>;

/// `tantivy::schema::Facet::from_encoded`: the facet that is made of these bytes, where they are
/// UTF-8.
#[verifier::external_body]
fn make_facet(bytes: Vec<u8>) -> (r: Result<tantivy::schema::Facet, String>)
    ensures
        match r {
            Ok(facet) => vstd::utf8::valid_utf8(bytes@) && facet_bytes(facet) == bytes@,
            Err(complaint) => !vstd::utf8::valid_utf8(bytes@) && complaint@ == facet_complaint(
                bytes@,
            ),
        },
{
    tantivy::schema::Facet::from_encoded(bytes).map_err(|e| e.to_string())
}

/// The bytes of `tantivy::schema::Facet::encoded_str`.
#[verifier::external_body]
fn encoded_bytes(facet: &tantivy::schema::Facet) -> (r: Vec<u8>)
    ensures
        r@ == facet_bytes(*facet),
{
    facet.encoded_str().to_string().into_bytes()
}

/// The facet of a resource by itself: its address.
pub fn subject_to_facet(subject: String) -> (r: AtomicResult<tantivy::schema::Facet>)
    ensures
        r is Ok,
        facet_bytes(r->Ok_0) == vstd::utf8::encode_utf8(subject@),
{
    broadcast use vstd::utf8::encode_utf8_valid_utf8;

    match make_facet(to_bytes(subject.as_str())) {
        Ok(facet) => Ok(facet),
        Err(complaint) => Err(
            AtomicError::other_error(
                cat2("Failed to create facet from subject. Error: ", complaint.as_str()),
            ),
        ),
    }
}

/// The addresses of the first `n` of some resources, from the top down, with a zero between them.
pub open spec fn path_bytes(subjects: Seq<Seq<char>>, n: nat) -> Seq<u8>
    decreases n,
{
    if n == 0 || n > subjects.len() {
        Seq::empty()
    } else {
        let before = path_bytes(subjects, (n - 1) as nat);
        let own = vstd::utf8::encode_utf8(subjects[n - 1]);
        if n == 1 {
            own
        } else {
            before.push(0) + own
        }
    }
}

/// The facet of a resource: the addresses of the resources above it, from the top down, and its
/// own, with a zero between them.
pub open spec fn hierarchy_bytes(above: Seq<Seq<char>>, subject: Seq<char>) -> Seq<u8> {
    let path = path_bytes(above, above.len());
    let own = vstd::utf8::encode_utf8(subject);
    if path.len() > 0 {
        path.push(0) + own
    } else {
        own
    }
}

proof fn lemma_zero_is_utf8()
    ensures
        vstd::utf8::valid_utf8(seq![0u8]),
{
    let zero = seq!['\0'];
    vstd::utf8::encode_utf8_valid_utf8(zero);
    reveal_with_fuel(vstd::utf8::encode_utf8, 2);
    assert((0u32 & 0x7F) as u8 == 0u8) by (bit_vector);
    assert(vstd::utf8::encode_utf8(zero) =~= seq![0u8]);
}

/// The facet of a resource. `parents` are the addresses of the resources above it, from the
/// nearest up.
pub fn resource_to_facet(parents: AtomicResult<Vec<String>>, subject: &str) -> (r: AtomicResult<
    tantivy::schema::Facet,
>)
    ensures
        match parents {
            Ok(p) => r is Ok && facet_bytes(r->Ok_0) == hierarchy_bytes(
                crate::text::list(p@).reverse(),
                subject@,
            ),
            Err(e) => r == Err::<tantivy::schema::Facet, AtomicError>(e),
        },
{
    let parents = match parents {
        Ok(p) => p,
        Err(e) => {
            return Err(e);
        },
    };
    let ghost above = crate::text::list(parents@).reverse();
    let n: usize = parents.len();
    let mut bytes: Vec<u8> = Vec::new();
    let mut index: usize = 0;
    while index < n
        invariant
            index <= n == parents@.len(),
            above == crate::text::list(parents@).reverse(),
            bytes@ == path_bytes(above, index as nat),
            vstd::utf8::valid_utf8(bytes@),
        decreases n - index,
    {
        let facet = match subject_to_facet(parents[n - 1 - index].clone()) {
            Ok(facet) => facet,
            Err(e) => {
                return Err(e);
            },
        };
        assert(above[index as int] == parents@[n - 1 - index]@);
        let ghost before = bytes@;
        let mut own = encoded_bytes(&facet);
        let ghost own_bytes = own@;
        proof {
            vstd::utf8::encode_utf8_valid_utf8(above[index as int]);
            lemma_zero_is_utf8();
            vstd::utf8::valid_utf8_concat(before, seq![0u8]);
            assert(before + seq![0u8] =~= before.push(0));
            vstd::utf8::valid_utf8_concat(before.push(0), own_bytes);
        }
        if index != 0 {
            bytes.push(0);
        }
        bytes.append(&mut own);
        assert(index == 0 ==> bytes@ =~= own_bytes);
        index += 1;
    }
    let leaf = match subject_to_facet(subject.to_owned()) {
        Ok(facet) => facet,
        Err(e) => {
            return Err(e);
        },
    };
    let mut own = encoded_bytes(&leaf);
    let ghost own_bytes = own@;
    let ghost path = bytes@;
    proof {
        vstd::utf8::encode_utf8_valid_utf8(subject@);
        lemma_zero_is_utf8();
        vstd::utf8::valid_utf8_concat(path, seq![0u8]);
        assert(path + seq![0u8] =~= path.push(0));
        vstd::utf8::valid_utf8_concat(path.push(0), own_bytes);
    }
    if bytes.len() > 0 {
        bytes.push(0);
    }
    bytes.append(&mut own);
    assert(path.len() == 0 ==> bytes@ =~= own_bytes);
    match make_facet(bytes) {
        Ok(facet) => Ok(facet),
        Err(complaint) => Err(
            AtomicError::other_error(
                cat2("Failed to convert resource to facet, Error: ", complaint.as_str()),
            ),
        ),
    }
}

/// Whether a facet lies below another. All others lie below the empty one, which is the root.
pub open spec fn facet_below(inner: Seq<u8>, outer: Seq<u8>) -> bool {
    &&& outer.len() < inner.len()
    &&& inner.take(outer.len() as int) == outer
    &&& outer.len() > 0 ==> inner[outer.len() as int] == 0
}

proof fn lemma_encoded_zeros(s: Seq<char>)
    requires
        forall|i: int| 0 <= i < s.len() ==> #[trigger] s[i] == '\0',
    ensures
        vstd::utf8::encode_utf8(s) == Seq::new(s.len(), |i: int| 0u8),
    decreases s.len(),
{
    reveal_with_fuel(vstd::utf8::encode_utf8, 2);
    if s.len() > 0 {
        assert((0u32 & 0x7F) as u8 == 0u8) by (bit_vector);
        assert(s[0] == '\0');
        lemma_encoded_zeros(s.drop_first());
    }
    assert(vstd::utf8::encode_utf8(s) =~= Seq::new(s.len(), |i: int| 0u8));
}

proof fn lemma_encoded_nonempty(s: Seq<char>)
    requires
        s.len() > 0,
    ensures
        vstd::utf8::encode_utf8(s).len() > 0,
{
    reveal_with_fuel(vstd::utf8::encode_utf8, 1);
}

proof fn lemma_path_push(above: Seq<Seq<char>>, parent: Seq<char>, n: nat)
    requires
        n <= above.len(),
    ensures
        path_bytes(above.push(parent), n) == path_bytes(above, n),
    decreases n,
{
    if n > 0 {
        lemma_path_push(above, parent, (n - 1) as nat);
    }
}

/// The facet of a resource lies below the facet of the resource right above it. Where that has
/// nothing above it, one of the two has to have an address; where it has one resource above it,
/// that one has to, unless the address below it is made of zeros.
pub proof fn facets_lie_below_their_parents(
    above: Seq<Seq<char>>,
    parent: Seq<char>,
    child: Seq<char>,
)
    requires
        above.len() == 0 && parent.len() == 0 ==> child.len() > 0,
        above.len() == 1 && above[0].len() == 0 ==> forall|i: int|
            0 <= i < parent.len() ==> #[trigger] parent[i] == '\0',
    ensures
        facet_below(hierarchy_bytes(above.push(parent), child), hierarchy_bytes(above, parent)),
{
    let chain = above.push(parent);
    lemma_path_push(above, parent, above.len());
    let outer = hierarchy_bytes(above, parent);
    let inner = hierarchy_bytes(chain, child);
    if above.len() == 0 {
        if parent.len() > 0 {
            lemma_encoded_nonempty(parent);
        } else {
            lemma_encoded_zeros(parent);
            lemma_encoded_nonempty(child);
        }
    } else if above.len() == 1 {
        if above[0].len() > 0 {
            lemma_encoded_nonempty(above[0]);
        } else {
            lemma_encoded_zeros(above[0]);
            lemma_encoded_zeros(parent);
        }
    }
    assert(inner.take(outer.len() as int) =~= outer);
}

/// A facet that lies below another lies below all that the other lies below.
pub proof fn lying_below_is_transitive(a: Seq<u8>, b: Seq<u8>, c: Seq<u8>)
    requires
        facet_below(a, b),
        facet_below(b, c),
    ensures
        facet_below(a, c),
{
    assert(a.take(c.len() as int) =~= a.take(b.len() as int).take(c.len() as int));
    assert(a[c.len() as int] == a.take(b.len() as int)[c.len() as int]);
}

/// A resource is called by its name; where it has none, by its short name; where it has none, by the
/// name of its file. Where that is no text, or there is none, it is called by its address.
pub proof fn resources_are_called_by_their_names(resource: ResourceView, text: Seq<char>)
    ensures
        ({
            let name = crate::assoc::lookup(resource.propvals, urls::NAME@);
            let shortname = crate::assoc::lookup(resource.propvals, urls::SHORTNAME@);
            let filename = crate::assoc::lookup(resource.propvals, urls::FILENAME@);
            let called = |value: Option<PropValueView>|
                value == Some(PropValueView::Literal { text, datatype: DataTypeView::String })
                    || value == Some(
                    PropValueView::Literal { text, datatype: DataTypeView::Slug },
                );
            &&& called(name) ==> title_of(resource) == text
            &&& name is None && called(shortname) ==> title_of(resource) == text
            &&& name is None && shortname is None && called(filename) ==> title_of(resource) == text
            &&& name is None && shortname is None && filename is None ==> title_of(resource)
                == resource.subject
            &&& (name matches Some(value) && !(value is Literal)) ==> title_of(resource)
                == resource.subject
            &&& (name matches Some(PropValueView::Literal { text: _, datatype })
                && !(datatype is String) && !(datatype is Slug)) ==> title_of(resource)
                == resource.subject
        }),
{
}

/// The texts of a document are put together without anything between them.
pub proof fn texts_are_put_together(texts: Seq<Seq<char>>)
    ensures
        concatenated(texts) == texts.flatten(),
    decreases texts.len(),
{
    broadcast use Seq::lemma_flatten_push;

    if texts.len() > 0 {
        texts_are_put_together(texts.drop_last());
        assert(texts =~= texts.drop_last().push(texts.last()));
    } else {
        assert(texts.flatten() =~= Seq::empty());
    }
}

/// A text before the first tag stays as it is; a space stands for the tag; and what comes after it is
/// treated likewise. A text without tags stays as it is.
pub proof fn text_outside_tags_is_kept(before: Seq<char>, tag: Seq<char>, rest: Seq<char>)
    requires
        forall|i: int| 0 <= i < before.len() ==> #[trigger] before[i] != '<',
        forall|i: int| 0 <= i < tag.len() ==> #[trigger] tag[i] != '>',
    ensures
        without_tags(before) == before,
        without_tags(before + seq!['<'] + tag + seq!['>'] + rest) == before + seq![' ']
            + without_tags(rest),
    decreases before.len(),
{
    let all = before + seq!['<'] + tag + seq!['>'] + rest;
    if before.len() == 0 {
        let n = tag.len() as int + 1;
        lemma_closing(all);
        assert(all[n] == '>');
        assert(closing(all) == n) by {
            let c = closing(all) as int;
            if c < n {
                assert(all[c] == '>');
                if c > 0 {
                    assert(all[c] == tag[c - 1]);
                }
            }
        }
        assert(all.skip(n + 1) =~= rest);
        assert(before =~= Seq::empty());
    } else {
        let first = before[0];
        let left = before.skip(1);
        assert(all[0] == first);
        text_outside_tags_is_kept(left, tag, rest);
        assert(all.skip(1) =~= left + seq!['<'] + tag + seq!['>'] + rest);
        assert(seq![first] + left =~= before);
        assert(seq![first] + (left + seq![' '] + without_tags(rest)) =~= before + seq![' ']
            + without_tags(rest));
    }
}

/// The facet of a resource ends in its address, and is its address where nothing is above it.
pub proof fn facets_end_in_their_address(above: Seq<Seq<char>>, subject: Seq<char>)
    ensures
        vstd::utf8::encode_utf8(subject).is_suffix_of(hierarchy_bytes(above, subject)),
        above.len() == 0 ==> hierarchy_bytes(above, subject) == vstd::utf8::encode_utf8(subject),
{
    let own = vstd::utf8::encode_utf8(subject);
    let facet = hierarchy_bytes(above, subject);
    assert(facet.subrange(facet.len() - own.len(), facet.len() as int) =~= own);
}

/// The plain text of a document has no tag in it and no white space at its ends.
pub proof fn plain_texts_are_plain(texts: Seq<Seq<char>>, i: int, j: int)
    ensures
        ({
            let plain = plain_text(texts);
            &&& 0 <= i < j < plain.len() && plain[i] == '<' ==> plain[j] != '>'
            &&& plain.len() > 0 ==> !crate::text::whitespace(plain[0])
                && !crate::text::whitespace(plain.last())
        }),
{
    let clean = without_tags(concatenated(texts));
    let left = crate::text::left_trimmed(clean);
    let plain = plain_text(texts);
    crate::text::white_space_at_the_beginning_goes(clean);
    crate::text::white_space_at_the_end_goes(left);
    let n = clean.len() - left.len();
    if plain.len() > 0 {
        assert(plain[0] == left[0]);
    }
    if 0 <= i < j < plain.len() && plain[i] == '<' {
        assert(plain[i] == clean[n + i]);
        assert(plain[j] == clean[n + j]);
        no_tag_is_left(concatenated(texts), n + i, n + j);
    }
}

/// A document without tags has its texts for its plain text, but for white space around them.
pub proof fn texts_without_tags_are_plain(texts: Seq<Seq<char>>)
    requires
        !texts.flatten().contains('<'),
        texts.flatten().len() > 0,
        !crate::text::whitespace(texts.flatten()[0]),
        !crate::text::whitespace(texts.flatten().last()),
    ensures
        plain_text(texts) == texts.flatten(),
{
    texts_are_put_together(texts);
    let all = texts.flatten();
    assert forall|i: int| 0 <= i < all.len() implies #[trigger] all[i] != '<' by {
        assert(all.contains(all[i]));
    }
    text_outside_tags_is_kept(all, Seq::empty(), Seq::empty());
}

} // verus!
