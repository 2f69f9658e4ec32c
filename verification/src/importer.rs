//! The endpoint that imports resources: what is imported, to where, and for whom.
use crate::address::find_param;
use crate::agents::ForAgent;
use crate::errors::{AtomicError, AtomicResult};
use crate::parse::{ParseOpts, SaveOpts};
use crate::text::{cat2, cat4, same};
use crate::urls;
use vstd::prelude::*;

verus! {

/// The complaint of `String::from_utf8` about bytes that are no text.
pub uninterp spec fn utf8_complaint(bytes: Seq<u8>) -> Seq<char>;

/// `String::from_utf8` of the standard library: the text whose UTF-8 bytes these are, if there is
/// one.
#[verifier::external_body]
fn decode_utf8(bytes: Vec<u8>) -> (r: Result<String, String>)
    ensures
        match r {
            Ok(text) => vstd::utf8::encode_utf8(text@) == bytes@,
            Err(complaint) => !vstd::utf8::valid_utf8(bytes@) && complaint@ == utf8_complaint(
                bytes@,
            ),
        },
{
    String::from_utf8(bytes).map_err(|e| e.to_string())
}

/// What is to be imported.
pub struct ImportRequest {
    /// Under which resource.
    pub parent: String,
    /// From where it is fetched.
    pub url: Option<String>,
    /// What was posted.
    pub json: Option<String>,
    pub overwrite_outside: bool,
}

/// Whether a request passes the resources in a parameter, where they cannot be.
pub open spec fn json_in_params(pairs: Seq<(Seq<char>, Seq<char>)>) -> bool {
    exists|i: int|
        0 <= i < pairs.len() && ((#[trigger] pairs[i]).0 == "json"@ || pairs[i].0
            == urls::IMPORTER_JSON@)
}

/// What a POST request imports.
pub open spec fn is_request(
    pairs: Seq<(Seq<char>, Seq<char>)>,
    body: Seq<u8>,
    r: AtomicResult<ImportRequest>,
) -> bool {
    let parent = crate::address::last_param(pairs, "parent"@, urls::IMPORTER_PARENT@);
    if json_in_params(pairs) {
        r matches Err(e) && e@ == crate::errors::other("JSON must be POSTed in the body"@)
    } else if parent is None {
        r matches Err(e) && e@ == crate::errors::other("No parent specified for importer"@)
    } else {
        match r {
            Ok(request) => {
                &&& request.parent@ == parent->0
                &&& crate::text::opt(request.url) == crate::address::last_param(
                    pairs,
                    "url"@,
                    urls::IMPORTER_URL@,
                )
                &&& request.overwrite_outside == (crate::address::last_param(
                    pairs,
                    "overwrite-outside"@,
                    urls::IMPORTER_OVERWRITE_OUTSIDE@,
                ) == Some("true"@))
                &&& match request.json {
                    Some(json) => body.len() > 0 && vstd::utf8::encode_utf8(json@) == body,
                    None => body.len() == 0,
                }
            },
            Err(e) => {
                &&& body.len() > 0
                &&& !vstd::utf8::valid_utf8(body)
                &&& e@ == crate::errors::other(
                    "Error while decoding body, expected a JSON string: "@ + utf8_complaint(body),
                )
            },
        }
    }
}

/// Reads a POST request to the importer.
pub fn read_request(pairs: &Vec<(String, String)>, body: Vec<u8>) -> (r: AtomicResult<
    ImportRequest,
>)
    ensures
        is_request(crate::address::pairs_view(pairs@), body@, r),
{
    let ghost all = crate::address::pairs_view(pairs@);
    let mut i: usize = 0;
    while i < pairs.len()
        invariant
            i <= pairs@.len(),
            all == crate::address::pairs_view(pairs@),
            forall|k: int|
                0 <= k < i ==> (#[trigger] all[k]).0 != "json"@ && all[k].0
                    != urls::IMPORTER_JSON@,
        decreases pairs@.len() - i,
    {
        assert(all[i as int].0 == pairs@[i as int].0@);
        let key = pairs[i].0.as_str();
        if same(key, "json") || same(key, urls::IMPORTER_JSON) {
            return Err(AtomicError::other_error("JSON must be POSTed in the body".to_owned()));
        }
        i += 1;
    }
    assert(!json_in_params(all));
    let url = find_param(pairs, "url", urls::IMPORTER_URL);
    let overwrite = find_param(pairs, "overwrite-outside", urls::IMPORTER_OVERWRITE_OUTSIDE);
    let overwrite_outside = match &overwrite {
        Some(v) => same(v.as_str(), "true"),
        None => false,
    };
    let parent = match find_param(pairs, "parent", urls::IMPORTER_PARENT) {
        Some(parent) => parent,
        None => {
            return Err(AtomicError::other_error("No parent specified for importer".to_owned()));
        },
    };
    let json = if body.len() > 0 {
        match decode_utf8(body) {
            Ok(text) => Some(text),
            Err(complaint) => {
                return Err(
                    AtomicError::other_error(
                        cat2(
                            "Error while decoding body, expected a JSON string: ",
                            complaint.as_str(),
                        ),
                    ),
                );
            },
        }
    } else {
        None
    };
    Ok(ImportRequest { parent, url, json, overwrite_outside })
}

/// What is said where the resources could not be fetched.
pub fn explain_fetch(url: &str, cause: &AtomicError) -> (r: AtomicError)
    ensures
        r@ == crate::errors::other("Error while fetching "@ + url@ + ": "@ + cause@.message),
{
    AtomicError::other_error(cat4("Error while fetching ", url, ": ", cause.message.as_str()))
}

/// What is imported, and how: what has been fetched, or else what was posted.
pub open spec fn is_plan(
    request: ImportRequest,
    fetched: Option<String>,
    signer: AtomicResult<String>,
    for_agent: ForAgent,
    r: AtomicResult<(String, ParseOpts)>,
) -> bool {
    let json = match fetched {
        Some(text) => Some(text),
        None => request.json,
    };
    match (signer, json) {
        (Err(e), _) => r == Err::<(String, ParseOpts), AtomicError>(e),
        (Ok(_), None) => r is Err && r->Err_0@ == crate::errors::other(
            "No JSON specified for importer. Pass a `url` query param, or post a JSON-AD body."@,
        ),
        (Ok(s), Some(text)) => if for_agent is Public {
            r is Err && r->Err_0@ == crate::errors::other("No agent specified for importer"@)
        } else {
            r is Ok && r->Ok_0.0 == text && r->Ok_0.1 == (ParseOpts {
                importer: Some(request.parent),
                for_agent,
                signer: Some(s),
                save: SaveOpts::Commit,
                overwrite_outside: request.overwrite_outside,
            }) && crate::save::can_check(r->Ok_0.1)
        },
    }
}

/// What is imported, and how. What has been fetched goes before what was posted. The commits are
/// signed by `signer`, because the key of whoever asks is not known.
pub fn plan_import(
    request: ImportRequest,
    fetched: Option<String>,
    signer: AtomicResult<String>,
    for_agent: &ForAgent,
) -> (r: AtomicResult<(String, ParseOpts)>)
    ensures
        is_plan(request, fetched, signer, *for_agent, r),
{
    let signer = match signer {
        Ok(s) => s,
        Err(e) => {
            return Err(e);
        },
    };
    let json = match fetched {
        Some(text) => Some(text),
        None => request.json,
    };
    match json {
        None => Err(
            AtomicError::other_error(
                "No JSON specified for importer. Pass a `url` query param, or post a JSON-AD body.".to_owned(),
            ),
        ),
        Some(text) => {
            if let ForAgent::Public = for_agent {
                return Err(AtomicError::other_error("No agent specified for importer".to_owned()));
            }
            Ok(
                (
                    text,
                    ParseOpts {
                        importer: Some(request.parent),
                        for_agent: for_agent.copy(),
                        signer: Some(signer),
                        save: SaveOpts::Commit,
                        overwrite_outside: request.overwrite_outside,
                    },
                ),
            )
        },
    }
}

/// An import says what its last parameters say: under which resource, from where, and whether
/// resources outside of it may be overwritten. `i` is the place of the last parameter for the resource,
/// `j` of the one for the address, and `k` of the one for overwriting, or -1 where there is none.
pub proof fn imports_do_what_their_parameters_say(
    pairs: Seq<(Seq<char>, Seq<char>)>,
    body: Seq<u8>,
    r: AtomicResult<ImportRequest>,
    i: int,
    j: int,
    k: int,
)
    requires
        is_request(pairs, body, r),
        -1 <= i < pairs.len() && -1 <= j < pairs.len() && -1 <= k < pairs.len(),
        i >= 0 ==> pairs[i].0 == "parent"@ || pairs[i].0 == urls::IMPORTER_PARENT@,
        forall|n: int|
            i < n < pairs.len() ==> (#[trigger] pairs[n]).0 != "parent"@ && pairs[n].0
                != urls::IMPORTER_PARENT@,
        j >= 0 ==> pairs[j].0 == "url"@ || pairs[j].0 == urls::IMPORTER_URL@,
        forall|n: int|
            j < n < pairs.len() ==> (#[trigger] pairs[n]).0 != "url"@ && pairs[n].0
                != urls::IMPORTER_URL@,
        k >= 0 ==> pairs[k].0 == "overwrite-outside"@ || pairs[k].0
            == urls::IMPORTER_OVERWRITE_OUTSIDE@,
        forall|n: int|
            k < n < pairs.len() ==> (#[trigger] pairs[n]).0 != "overwrite-outside"@ && pairs[n].0
                != urls::IMPORTER_OVERWRITE_OUTSIDE@,
    ensures
        i < 0 ==> r is Err,
        (exists|n: int|
            0 <= n < pairs.len() && ((#[trigger] pairs[n]).0 == "json"@ || pairs[n].0
                == urls::IMPORTER_JSON@)) ==> r is Err,
        i >= 0 && body.len() == 0 && (forall|n: int|
            0 <= n < pairs.len() ==> (#[trigger] pairs[n]).0 != "json"@ && pairs[n].0
                != urls::IMPORTER_JSON@) ==> r is Ok,
        i >= 0 && vstd::utf8::valid_utf8(body) && (forall|n: int|
            0 <= n < pairs.len() ==> (#[trigger] pairs[n]).0 != "json"@ && pairs[n].0
                != urls::IMPORTER_JSON@) ==> r is Ok,
        r matches Ok(request) ==> {
            &&& request.parent@ == pairs[i].1
            &&& j < 0 ==> request.url is None
            &&& j >= 0 ==> (request.url matches Some(url) && url@ == pairs[j].1)
            &&& request.overwrite_outside <==> k >= 0 && pairs[k].1 == "true"@
            &&& body.len() == 0 ==> request.json is None
            &&& body.len() > 0 ==> (request.json matches Some(json) && vstd::utf8::encode_utf8(
                json@,
            ) == body)
        },
{
    crate::address::the_last_parameter_counts(pairs, "parent"@, urls::IMPORTER_PARENT@, i);
    crate::address::the_last_parameter_counts(pairs, "url"@, urls::IMPORTER_URL@, j);
    crate::address::the_last_parameter_counts(
        pairs,
        "overwrite-outside"@,
        urls::IMPORTER_OVERWRITE_OUTSIDE@,
        k,
    );
}

/// What is imported is what was fetched, or what was posted where nothing was. It is imported under
/// the resource that was asked for, as whoever asked, signed by whoever signs, and only for an agent.
pub proof fn imports_are_made_for_whoever_asked(
    request: ImportRequest,
    fetched: Option<String>,
    signer: AtomicResult<String>,
    for_agent: ForAgent,
    r: AtomicResult<(String, ParseOpts)>,
)
    requires
        is_plan(request, fetched, signer, for_agent, r),
    ensures
        r is Ok <==> signer is Ok && !(for_agent is Public) && (fetched is Some || request.json is
            Some),
        r matches Ok((text, opts)) ==> {
            &&& Some(text) == (if fetched is Some {
                fetched
            } else {
                request.json
            })
            &&& opts.importer == Some(request.parent)
            &&& opts.for_agent == for_agent
            &&& Ok::<String, AtomicError>(opts.signer->0) == signer && opts.signer is Some
            &&& opts.save is Commit
            &&& opts.overwrite_outside == request.overwrite_outside
        },
        signer matches Err(e) ==> r == Err::<(String, ParseOpts), AtomicError>(e),
{
}

} // verus!
