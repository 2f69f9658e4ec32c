//! A class extender for folders: it adds a random number to their names, and keeps their names
//! apart.
use crate::json::{Json, JsonValue};
use crate::plugin::{Commit, Resource};
use crate::text::{cat3, same, to_chars, trim_end};
use crate::urls;
use vstd::prelude::*;

verus! {

/// Whether a character is an uppercase letter, as Unicode has it.
pub uninterp spec fn uppercase(c: char) -> bool;

/// `char::is_uppercase` of the standard library, a property of the character alone.
pub assume_specification[ char::is_uppercase ](c: char) -> (r: bool)
    ensures
        r == uppercase(c),
;

/// The greatest number that is added to the name of a folder.
pub const MAX_SUFFIX: u32 = 9999;

/// `gen_range` of the thread's generator of `rand`: a number from 0 to `max`, both of which can
/// come up.
#[verifier::external_body]
fn draw_up_to(max: u32) -> (r: u32)
    ensures
        r <= max,
{
    rand::Rng::gen_range(&mut rand::thread_rng(), 0..=max)
}

/// The name of a folder, where it has one that is a text.
pub open spec fn folder_name(props: Seq<(Seq<char>, Json)>) -> Option<Seq<char>> {
    match crate::assoc::lookup(props, urls::NAME@) {
        Some(Json::Text(name)) => Some(name),
        _ => None,
    }
}

/// The text that a set of properties has for a name.
fn text_of<'a>(props: &'a Vec<(String, JsonValue)>, key: &str) -> (r: Option<&'a str>)
    ensures
        crate::text::opt_str(r) == (match crate::assoc::lookup(
            crate::json::members_view(props@),
            key@,
        ) {
            Some(Json::Text(text)) => Some(text),
            _ => None,
        }),
{
    match crate::json::get_member(props, key) {
        Some(JsonValue::Text(text)) => Some(text.as_str()),
        _ => None,
    }
}

/// The name of a folder.
pub fn get_name_from_folder(folder: &Resource) -> (r: Result<&str, String>)
    ensures
        match folder_name(folder@.props) {
            Some(name) => r is Ok && r->Ok_0@ == name,
            None => r is Err && r->Err_0@ == "Folder name not found"@,
        },
{
    match text_of(&folder.props, urls::NAME) {
        Some(name) => Ok(name),
        None => Err("Folder name not found".to_owned()),
    }
}

/// The address of the class of folders.
pub fn class_url() -> (r: String)
    ensures
        r@ == urls::FOLDER@,
{
    urls::FOLDER.to_owned()
}

/// The name that a folder is shown with: its own, or one that stands for it, and a number.
pub open spec fn shown_name(props: Seq<(Seq<char>, Json)>, suffix: nat) -> Seq<char> {
    let base = match folder_name(props) {
        Some(name) => name,
        None => "Folder"@,
    };
    crate::text::trimmed(base) + " "@ + crate::numbers::decimal(suffix)
}

/// Adds a number to the name of a folder.
pub fn add_suffix(resource: &mut Resource, suffix: u32)
    ensures
        final(resource)@ == (crate::plugin::PluginView {
            subject: old(resource)@.subject,
            props: crate::assoc::put(
                old(resource)@.props,
                urls::NAME@,
                Json::Text(shown_name(old(resource)@.props, suffix as nat)),
            ),
        }),
{
    let base = match text_of(&resource.props, urls::NAME) {
        Some(name) => trim_end(name),
        None => trim_end("Folder"),
    };
    let digits = crate::numbers::to_decimal(suffix as u64);
    let name = JsonValue::Text(cat3(base.as_str(), " ", digits.as_str()));
    let ghost before = crate::json::members_view(resource.props@);
    let i = crate::assoc::place_of(&resource.props, urls::NAME);
    proof {
        crate::assoc::lemma_place_is(before, urls::NAME@, i as int);
    }
    if i < resource.props.len() {
        resource.props.set(i, (urls::NAME.to_owned(), name));
    } else {
        resource.props.push((urls::NAME.to_owned(), name));
    }
    assert(crate::json::members_view(resource.props@) =~= crate::assoc::put(
        before,
        urls::NAME@,
        name@,
    ));
}

/// Adds a random number to the name of a folder, each time it is fetched.
pub fn on_resource_get(resource: &mut Resource)
    ensures
        exists|suffix: nat|
            suffix <= MAX_SUFFIX && #[trigger] crate::assoc::put(
                old(resource)@.props,
                urls::NAME@,
                Json::Text(shown_name(old(resource)@.props, suffix)),
            ) == final(resource)@.props,
        final(resource)@.subject == old(resource)@.subject,
{
    let suffix = draw_up_to(MAX_SUFFIX);
    add_suffix(resource, suffix);
}

/// The name that a commit gives to a folder.
pub open spec fn name_set(set: Option<Vec<(String, JsonValue)>>) -> Option<Seq<char>> {
    match set {
        Some(set) => folder_name(crate::json::members_view(set@)),
        None => None,
    }
}

/// Whether a name has an uppercase letter.
pub open spec fn has_uppercase(name: Seq<char>) -> bool {
    exists|i: int| 0 <= i < name.len() && uppercase(#[trigger] name[i])
}

/// Whether a folder in a list has this name.
pub open spec fn name_taken(folders: Seq<Resource>, name: Seq<char>) -> bool {
    exists|i: int| 0 <= i < folders.len() && folder_name((#[trigger] folders[i])@.props) == Some(name)
}

/// What is to be done about a commit.
pub enum NameCheck {
    /// It can be applied, or it cannot.
    Decided(Result<(), String>),
    /// All folders are to be looked at, for one that has this name.
    LookUp(String),
}

/// Looks at the name that a commit gives to a folder: it has no uppercase letters.
pub fn check_name(commit: &Commit) -> (r: NameCheck)
    ensures
        match name_set(commit.set) {
            None => r == NameCheck::Decided(Ok(())),
            Some(name) => if has_uppercase(name) {
                r matches NameCheck::Decided(Err(e)) && e@
                    == "Folder name must not contain uppercase letters"@
            } else {
                r matches NameCheck::LookUp(n) && n@ == name
            },
        },
{
    match &commit.set {
        None => NameCheck::Decided(Ok(())),
        Some(set) => match text_of(set, urls::NAME) {
            None => NameCheck::Decided(Ok(())),
            Some(name) => {
                let chars = to_chars(name);
                let mut i: usize = 0;
                while i < chars.len()
                    invariant
                        i <= chars@.len(),
                        chars@ == name@,
                        name_set(commit.set) == Some(name@),
                        forall|j: int| 0 <= j < i ==> !uppercase(#[trigger] chars@[j]),
                    decreases chars@.len() - i,
                {
                    if chars[i].is_uppercase() {
                        return NameCheck::Decided(
                            Err("Folder name must not contain uppercase letters".to_owned()),
                        );
                    }
                    i += 1;
                }
                NameCheck::LookUp(name.to_owned())
            },
        },
    }
}

/// Refuses a name that another folder has. `all_folders` is what was found, or why nothing was.
pub fn check_unique(name: &str, all_folders: Result<Vec<Resource>, String>) -> (r: Result<
    (),
    String,
>)
    ensures
        match all_folders {
            Err(e) => r == Err::<(), String>(e),
            Ok(folders) => if name_taken(folders@, name@) {
                r is Err && r->Err_0@ == "Folder name must be unique"@
            } else {
                r == Ok::<(), String>(())
            },
        },
{
    match all_folders {
        Err(e) => Err(e),
        Ok(folders) => {
            let mut i: usize = 0;
            while i < folders.len()
                invariant
                    i <= folders@.len(),
                    all_folders == Ok::<Vec<Resource>, String>(folders),
                    forall|j: int|
                        0 <= j < i ==> folder_name((#[trigger] folders@[j])@.props) != Some(name@),
                decreases folders@.len() - i,
            {
                if let Ok(other) = get_name_from_folder(&folders[i]) {
                    if same(other, name) {
                        return Err("Folder name must be unique".to_owned());
                    }
                }
                i += 1;
            }
            Ok(())
        },
    }
}

/// A folder is shown with its own name, without the white space at the end, a space and the number:
/// different numbers give different names, and no other property changes.
pub proof fn folders_are_shown_with_a_number(
    props: Seq<(Seq<char>, Json)>,
    suffix: nat,
    other: nat,
    name: Seq<char>,
    key: Seq<char>,
)
    requires
        crate::assoc::lookup(props, urls::NAME@) == Some(Json::Text(name)),
    ensures
        ({
            let shown = crate::assoc::put(
                props,
                urls::NAME@,
                Json::Text(shown_name(props, suffix)),
            );
            &&& folder_name(shown) == Some(
                crate::text::trimmed(name) + " "@ + crate::numbers::signed_decimal(suffix as int),
            )
            &&& key != urls::NAME@ ==> crate::assoc::lookup(shown, key) == crate::assoc::lookup(
                props,
                key,
            )
        }),
        shown_name(props, suffix) == shown_name(props, other) ==> suffix == other,
{
    crate::assoc::put_then_lookup(
        props,
        urls::NAME@,
        Json::Text(shown_name(props, suffix)),
        urls::NAME@,
    );
    crate::assoc::put_then_lookup(props, urls::NAME@, Json::Text(shown_name(props, suffix)), key);
    let left = crate::text::trimmed(name) + " "@;
    let a = crate::numbers::decimal(suffix);
    let b = crate::numbers::decimal(other);
    assert((left + a).skip(left.len() as int) =~= a);
    assert((left + b).skip(left.len() as int) =~= b);
    crate::numbers::written_numbers_read_back(suffix as int);
    crate::numbers::written_numbers_read_back(other as int);
}

/// A name has an uppercase letter as soon as a part of it has one.
pub proof fn one_uppercase_letter_is_enough(a: Seq<char>, b: Seq<char>)
    ensures
        has_uppercase(a + b) <==> has_uppercase(a) || has_uppercase(b),
        a.len() == 1 ==> (has_uppercase(a) <==> uppercase(a[0])),
{
    if has_uppercase(a) {
        let i = choose|i: int| 0 <= i < a.len() && uppercase(#[trigger] a[i]);
        assert((a + b)[i] == a[i]);
    }
    if has_uppercase(b) {
        let i = choose|i: int| 0 <= i < b.len() && uppercase(#[trigger] b[i]);
        assert((a + b)[a.len() + i] == b[i]);
    }
    if has_uppercase(a + b) {
        let i = choose|i: int| 0 <= i < (a + b).len() && uppercase(#[trigger] (a + b)[i]);
        if i < a.len() {
            assert(a[i] == (a + b)[i]);
        } else {
            assert(b[i - a.len()] == (a + b)[i]);
        }
    }
}

/// A name is taken as soon as one folder of the list has it, and no folder without it takes it.
pub proof fn one_folder_takes_a_name(a: Seq<Resource>, b: Seq<Resource>, name: Seq<char>)
    ensures
        name_taken(a + b, name) <==> name_taken(a, name) || name_taken(b, name),
        a.len() == 1 ==> (name_taken(a, name) <==> crate::assoc::lookup(a[0]@.props, urls::NAME@)
            == Some(Json::Text(name))),
        a.len() == 0 ==> !name_taken(a, name),
{
    let all = a + b;
    if name_taken(a, name) {
        let i = choose|i: int|
            0 <= i < a.len() && folder_name((#[trigger] a[i])@.props) == Some(name);
        assert(all[i] == a[i]);
    }
    if name_taken(b, name) {
        let i = choose|i: int|
            0 <= i < b.len() && folder_name((#[trigger] b[i])@.props) == Some(name);
        assert(all[a.len() + i] == b[i]);
    }
    if name_taken(all, name) {
        let i = choose|i: int|
            0 <= i < all.len() && folder_name((#[trigger] all[i])@.props) == Some(name);
        if i < a.len() {
            assert(all[i] == a[i]);
        } else {
            assert(all[i] == b[i - a.len()]);
        }
    }
    if a.len() == 1 && folder_name(a[0]@.props) == Some(name) {
        assert(name_taken(a, name));
    }
}

/// A commit names a folder where it sets a name that is a text, and only there.
pub proof fn commits_name_folders_by_what_they_set(
    set: Option<Vec<(String, JsonValue)>>,
    name: Seq<char>,
)
    ensures
        name_set(set) == Some(name) <==> (set matches Some(members) && crate::assoc::lookup(
            crate::json::members_view(members@),
            urls::NAME@,
        ) == Some(Json::Text(name))),
{
}

} // verus!
