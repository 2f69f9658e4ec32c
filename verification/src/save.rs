//! Saving imported resources.
use crate::agents::ForAgent;
use crate::errors::AtomicError;
use crate::parse::{ParseOpts, SaveOpts};
use crate::text::{cat3, cat4};
use vstd::prelude::*;

verus! {

/// What is checked when a commit is applied.
#[derive(Clone, Debug)]
pub struct CommitOpts {
    pub validate_schema: bool,
    pub validate_signature: bool,
    pub validate_timestamp: bool,
    pub validate_rights: bool,
    pub validate_previous_commit: bool,
    pub validate_for_agent: Option<ForAgent>,
    pub update_index: bool,
}

/// What is checked when the commit of an imported resource is applied. Rights are not checked for
/// [ForAgent::Sudo].
pub fn import_commit_opts(parse_opts: &ParseOpts) -> (r: CommitOpts)
    ensures
        r.validate_schema,
        r.validate_signature,
        !r.validate_timestamp,
        r.validate_rights == !(parse_opts.for_agent is Sudo),
        !r.validate_previous_commit,
        r.validate_for_agent == Some(parse_opts.for_agent),
        r.update_index,
{
    CommitOpts {
        validate_schema: true,
        validate_signature: true,
        validate_timestamp: false,
        validate_rights: !matches!(parse_opts.for_agent, ForAgent::Sudo),
        validate_previous_commit: false,
        validate_for_agent: Some(parse_opts.for_agent.copy()),
        update_index: true,
    }
}

/// Why a resource was not saved.
#[derive(Clone, Copy, Debug, PartialEq, Eq, Structural)]
pub enum SaveFailure {
    /// It is there already, and not below the importer.
    OutsideImporter,
    /// There is nobody to sign the commit.
    NoSigner,
    /// The last action failed.
    Action,
    /// The commit could not be applied.
    Apply,
}

/// What is to be done next to save a resource.
#[derive(Clone, Copy, Debug, PartialEq, Eq, Structural)]
pub enum SaveState {
    /// Put the resource in the store as it is.
    Add,
    /// Get the resource from the store, or start a new one.
    Fetch,
    /// See whether the resource in the store is below the importer.
    CheckParent,
    /// Set the property with this place.
    SetProp(usize),
    /// Sign the changes as a commit.
    Sign,
    /// Apply the commit.
    Apply,
    /// Nothing: the resource is saved, or need not be.
    Done,
    /// Nothing: the resource is not saved.
    Failed(SaveFailure),
}

/// How an action turned out.
#[derive(Clone, Copy, Debug, PartialEq, Eq, Structural)]
pub enum SaveEvent {
    /// Whether the resource was in the store.
    Found(bool),
    /// Whether it is below the importer.
    BelowImporter(bool),
    /// Whether any other action worked.
    Worked(bool),
}

/// What the saving of a resource depends on.
pub struct SaveRules {
    pub save: SaveOpts,
    pub overwrite_outside: bool,
    /// The agent that signs the commit.
    pub signer: Option<Seq<char>>,
    /// The number of properties of the resource.
    pub properties: nat,
}

/// The agent that signs the commits of an import: the one that is named, or the default agent of
/// the store.
pub open spec fn signing_agent(
    signer: Option<Seq<char>>,
    default_agent: Option<Seq<char>>,
) -> Option<Seq<char>> {
    match signer {
        Some(agent) => Some(agent),
        None => default_agent,
    }
}

/// Finds out which agent signs the commits of an import.
pub fn find_signer(parse_opts: &ParseOpts, default_agent: &Option<String>) -> (r: Option<String>)
    ensures
        crate::text::opt(r) == signing_agent(
            crate::text::opt(parse_opts.signer),
            crate::text::opt(*default_agent),
        ),
{
    match &parse_opts.signer {
        Some(agent) => Some(agent.clone()),
        None => crate::text::copy_opt(default_agent),
    }
}

/// What the saving of a resource with `properties` properties depends on.
pub open spec fn save_rules(
    parse_opts: ParseOpts,
    default_agent: Option<String>,
    properties: nat,
) -> SaveRules {
    SaveRules {
        save: parse_opts.save,
        overwrite_outside: parse_opts.overwrite_outside,
        signer: signing_agent(
            crate::text::opt(parse_opts.signer),
            crate::text::opt(default_agent),
        ),
        properties,
    }
}

/// What is to be done first.
pub open spec fn first_state(rules: SaveRules) -> SaveState {
    match rules.save {
        SaveOpts::DontSave => SaveState::Done,
        SaveOpts::Save => SaveState::Add,
        SaveOpts::Commit => SaveState::Fetch,
    }
}

/// What is to be done from the property with place `i` on.
pub open spec fn set_from(rules: SaveRules, i: int) -> SaveState {
    if 0 <= i < rules.properties {
        SaveState::SetProp(i as usize)
    } else if rules.signer is Some {
        SaveState::Sign
    } else {
        SaveState::Failed(SaveFailure::NoSigner)
    }
}

/// What is to be done after an action. An event that does not belong to the action changes nothing.
pub open spec fn next_state(rules: SaveRules, state: SaveState, event: SaveEvent) -> SaveState {
    match (state, event) {
        (SaveState::Add, SaveEvent::Worked(true)) => SaveState::Done,
        (SaveState::Add, SaveEvent::Worked(false)) => SaveState::Failed(SaveFailure::Action),
        (SaveState::Fetch, SaveEvent::Found(found)) => if found && !rules.overwrite_outside {
            SaveState::CheckParent
        } else {
            set_from(rules, 0)
        },
        (SaveState::CheckParent, SaveEvent::BelowImporter(true)) => set_from(rules, 0),
        (SaveState::CheckParent, SaveEvent::BelowImporter(false)) => SaveState::Failed(
            SaveFailure::OutsideImporter,
        ),
        (SaveState::SetProp(i), SaveEvent::Worked(true)) => set_from(rules, i + 1),
        (SaveState::SetProp(_), SaveEvent::Worked(false)) => SaveState::Failed(SaveFailure::Action),
        (SaveState::Sign, SaveEvent::Worked(true)) => SaveState::Apply,
        (SaveState::Sign, SaveEvent::Worked(false)) => SaveState::Failed(SaveFailure::Action),
        (SaveState::Apply, SaveEvent::Worked(true)) => SaveState::Done,
        (SaveState::Apply, SaveEvent::Worked(false)) => SaveState::Failed(SaveFailure::Apply),
        _ => state,
    }
}

/// Whether an import with these options can tell what is below its importer.
pub open spec fn can_check(parse_opts: ParseOpts) -> bool {
    parse_opts.save == SaveOpts::Commit && !parse_opts.overwrite_outside
        ==> parse_opts.importer is Some
}

/// What is to be done first to save a resource.
pub fn start_save(parse_opts: &ParseOpts) -> (r: SaveState)
    ensures
        forall|default_agent: Option<String>, properties: nat|
            r == first_state(#[trigger] save_rules(*parse_opts, default_agent, properties)),
{
    match parse_opts.save {
        SaveOpts::DontSave => SaveState::Done,
        SaveOpts::Save => SaveState::Add,
        SaveOpts::Commit => SaveState::Fetch,
    }
}

/// What is to be done from the property with place `i` on.
fn continue_setting(
    parse_opts: &ParseOpts,
    default_agent: &Option<String>,
    properties: usize,
    i: usize,
) -> (r: SaveState)
    ensures
        r == set_from(save_rules(*parse_opts, *default_agent, properties as nat), i as int),
{
    if i < properties {
        SaveState::SetProp(i)
    } else if find_signer(parse_opts, default_agent).is_some() {
        SaveState::Sign
    } else {
        SaveState::Failed(SaveFailure::NoSigner)
    }
}

/// What is to be done after an action, to save a resource with `properties` properties. An import
/// that may not overwrite what is outside needs an importer once a resource is there already.
pub fn continue_save(
    parse_opts: &ParseOpts,
    default_agent: &Option<String>,
    properties: usize,
    state: SaveState,
    event: SaveEvent,
) -> (r: SaveState)
    requires
        (state is Fetch && event == SaveEvent::Found(true)) || state is CheckParent ==> can_check(
            *parse_opts,
        ),
    ensures
        r == next_state(
            save_rules(*parse_opts, *default_agent, properties as nat),
            state,
            event,
        ),
{
    match (state, event) {
        (SaveState::Add, SaveEvent::Worked(true)) => SaveState::Done,
        (SaveState::Add, SaveEvent::Worked(false)) => SaveState::Failed(SaveFailure::Action),
        (SaveState::Fetch, SaveEvent::Found(found)) => if found && !parse_opts.overwrite_outside {
            SaveState::CheckParent
        } else {
            continue_setting(parse_opts, default_agent, properties, 0)
        },
        (SaveState::CheckParent, SaveEvent::BelowImporter(true)) => continue_setting(
            parse_opts,
            default_agent,
            properties,
            0,
        ),
        (SaveState::CheckParent, SaveEvent::BelowImporter(false)) => SaveState::Failed(
            SaveFailure::OutsideImporter,
        ),
        (SaveState::SetProp(i), SaveEvent::Worked(true)) => if i < properties {
            continue_setting(parse_opts, default_agent, properties, i + 1)
        } else {
            continue_setting(parse_opts, default_agent, properties, i)
        },
        (SaveState::SetProp(_), SaveEvent::Worked(false)) => SaveState::Failed(SaveFailure::Action),
        (SaveState::Sign, SaveEvent::Worked(true)) => SaveState::Apply,
        (SaveState::Sign, SaveEvent::Worked(false)) => SaveState::Failed(SaveFailure::Action),
        (SaveState::Apply, SaveEvent::Worked(true)) => SaveState::Done,
        (SaveState::Apply, SaveEvent::Worked(false)) => SaveState::Failed(SaveFailure::Apply),
        _ => state,
    }
}

/// What is said where a resource was not saved. `cause` is the error of the last action.
pub open spec fn save_error(failure: SaveFailure, subject: Seq<char>, cause: crate::errors::ErrorView) ->
    crate::errors::ErrorView {
    match failure {
        SaveFailure::OutsideImporter => crate::errors::other(
            "Cannot overwrite "@ + subject
                + " outside of importer! Enable `overwrite_outside`"@,
        ),
        SaveFailure::NoSigner => crate::errors::other(
            "No agent to sign Commit with. Either pass a `for_agent` or "@,
        ),
        SaveFailure::Action => cause,
        SaveFailure::Apply => crate::errors::other(
            "Failed to save "@ + subject + ": "@ + cause.message,
        ),
    }
}

/// What is said where a resource was not saved. `cause` is the error of the last action.
pub fn explain_failure(failure: SaveFailure, subject: &str, cause: AtomicError) -> (r: AtomicError)
    ensures
        r@ == save_error(failure, subject@, cause@),
{
    match failure {
        SaveFailure::OutsideImporter => AtomicError::other_error(
            cat3(
                "Cannot overwrite ",
                subject,
                " outside of importer! Enable `overwrite_outside`",
            ),
        ),
        SaveFailure::NoSigner => AtomicError::other_error(
            "No agent to sign Commit with. Either pass a `for_agent` or ".to_owned(),
        ),
        SaveFailure::Action => cause,
        SaveFailure::Apply => AtomicError::other_error(
            cat4("Failed to save ", subject, ": ", cause.message.as_str()),
        ),
    }
}

/// What is to be done after a number of actions.
pub open spec fn state_after(rules: SaveRules, events: Seq<SaveEvent>) -> SaveState
    decreases events.len(),
{
    if events.len() == 0 {
        first_state(rules)
    } else {
        next_state(rules, state_after(rules, events.drop_last()), events.last())
    }
}

/// Whether changes to the resource are being made or have been made.
pub open spec fn changing(state: SaveState) -> bool {
    state is SetProp || state is Sign || state is Apply || state is Done
}

/// A saving by commits never puts a resource in the store as it is.
pub proof fn commits_do_not_bypass_checks(rules: SaveRules, events: Seq<SaveEvent>)
    requires
        rules.save == SaveOpts::Commit,
    ensures
        state_after(rules, events) != SaveState::Add,
    decreases events.len(),
{
    if events.len() > 0 {
        commits_do_not_bypass_checks(rules, events.drop_last());
    }
}

/// A resource that is there already and is not below the importer is never changed by commits,
/// unless that is allowed: before the first property is set, the store has said that there is no
/// such resource, or that it is below the importer.
pub proof fn nothing_outside_is_overwritten(rules: SaveRules, events: Seq<SaveEvent>)
    requires
        rules.save == SaveOpts::Commit,
        !rules.overwrite_outside,
        changing(state_after(rules, events)),
    ensures
        events.contains(SaveEvent::Found(false)) || events.contains(SaveEvent::BelowImporter(true)),
    decreases events.len(),
{
    if events.len() > 0 {
        let before = events.drop_last();
        commits_do_not_bypass_checks(rules, before);
        assert(events.contains(events.last())) by {
            assert(events[events.len() - 1] == events.last());
        }
        if changing(state_after(rules, before)) {
            nothing_outside_is_overwritten(rules, before);
            if before.contains(SaveEvent::Found(false)) {
                assert(events[before.index_of(SaveEvent::Found(false))] == SaveEvent::Found(false));
            } else {
                assert(events[before.index_of(SaveEvent::BelowImporter(true))]
                    == SaveEvent::BelowImporter(true));
            }
        }
    }
}

/// Where nobody is named to sign and the store has no default agent, no commit is applied.
pub proof fn unsigned_commits_are_not_applied(rules: SaveRules, events: Seq<SaveEvent>)
    requires
        rules.save == SaveOpts::Commit,
        rules.signer is None,
    ensures
        !(state_after(rules, events) is Sign),
        !(state_after(rules, events) is Apply),
        !(state_after(rules, events) is Done),
    decreases events.len(),
{
    if events.len() > 0 {
        commits_do_not_bypass_checks(rules, events.drop_last());
        unsigned_commits_are_not_applied(rules, events.drop_last());
    }
}

/// Where nobody is named to sign, the default agent of the store signs.
pub proof fn the_default_agent_signs(parse_opts: ParseOpts, agent: String, properties: nat)
    requires
        parse_opts.signer is None,
    ensures
        save_rules(parse_opts, Some(agent), properties).signer == Some(agent@),
        parse_opts.save == SaveOpts::Commit && properties <= usize::MAX ==> forall|found: bool|
            state_after(
                save_rules(parse_opts, Some(agent), properties),
                #[trigger] all_works(save_rules(parse_opts, Some(agent), properties), found),
            ) == SaveState::Done,
{
    let rules = save_rules(parse_opts, Some(agent), properties);
    if parse_opts.save == SaveOpts::Commit && properties <= usize::MAX {
        assert forall|found: bool| state_after(rules, #[trigger] all_works(rules, found))
            == SaveState::Done by {
            saving_succeeds(rules, found);
        }
    }
}

/// The events of a saving in which everything works.
pub open spec fn all_works(rules: SaveRules, found: bool) -> Seq<SaveEvent> {
    let checked = if found && !rules.overwrite_outside {
        seq![SaveEvent::Found(found), SaveEvent::BelowImporter(true)]
    } else {
        seq![SaveEvent::Found(found)]
    };
    checked + Seq::new(rules.properties + 2, |i: int| SaveEvent::Worked(true))
}

proof fn lemma_sets_in_order(rules: SaveRules, start: Seq<SaveEvent>, n: nat)
    requires
        rules.signer is Some,
        rules.properties <= usize::MAX,
        n <= rules.properties,
        state_after(rules, start) == set_from(rules, 0),
    ensures
        state_after(rules, start + Seq::new(n, |i: int| SaveEvent::Worked(true))) == set_from(
            rules,
            n as int,
        ),
    decreases n,
{
    let events = start + Seq::new(n, |i: int| SaveEvent::Worked(true));
    if n == 0 {
        assert(events =~= start);
    } else {
        lemma_sets_in_order(rules, start, (n - 1) as nat);
        assert(events.drop_last() =~= start + Seq::new(
            (n - 1) as nat,
            |i: int| SaveEvent::Worked(true),
        ));
    }
}

/// Where everything works, all properties are set in order, the commit is signed and applied, and
/// the resource is saved.
pub proof fn saving_succeeds(rules: SaveRules, found: bool)
    requires
        rules.save == SaveOpts::Commit,
        rules.signer is Some,
        rules.properties <= usize::MAX,
    ensures
        state_after(rules, all_works(rules, found)) == SaveState::Done,
{
    let checked = if found && !rules.overwrite_outside {
        seq![SaveEvent::Found(found), SaveEvent::BelowImporter(true)]
    } else {
        seq![SaveEvent::Found(found)]
    };
    let n = rules.properties;
    reveal_with_fuel(state_after, 3);
    assert(checked.drop_last().len() < checked.len());
    assert(seq![SaveEvent::Found(found), SaveEvent::BelowImporter(true)].drop_last() =~= seq![
        SaveEvent::Found(found),
    ]);
    assert(seq![SaveEvent::Found(found)].drop_last() =~= Seq::<SaveEvent>::empty());
    assert(state_after(rules, checked) == set_from(rules, 0));
    lemma_sets_in_order(rules, checked, n);
    let events = all_works(rules, found);
    let set = checked + Seq::new(n, |i: int| SaveEvent::Worked(true));
    let signed = checked + Seq::new(n + 1, |i: int| SaveEvent::Worked(true));
    assert(events.drop_last() =~= signed);
    assert(signed.drop_last() =~= set);
    assert(state_after(rules, signed) == SaveState::Apply);
}

/// A resource that is not to be saved is done at once, one that is saved as it is is put in the
/// store and then done, and only one that is saved by a commit is fetched first.
pub proof fn resources_are_saved_as_they_should_be(rules: SaveRules)
    ensures
        rules.save == SaveOpts::DontSave ==> state_after(rules, Seq::empty()) is Done,
        rules.save == SaveOpts::Save ==> state_after(rules, Seq::empty()) is Add && state_after(
            rules,
            seq![SaveEvent::Worked(true)],
        ) is Done,
        rules.save == SaveOpts::Commit ==> state_after(rules, Seq::empty()) is Fetch,
{
    reveal_with_fuel(state_after, 2);
    assert(seq![SaveEvent::Worked(true)].drop_last() =~= Seq::empty());
}

/// Whether this action has been done and worked.
pub open spec fn did(rules: SaveRules, events: Seq<SaveEvent>, state: SaveState) -> bool {
    exists|k: int|
        0 <= k < events.len() && #[trigger] state_after(rules, events.take(k)) == state && events[k]
            == SaveEvent::Worked(true)
}

proof fn lemma_did_stays(rules: SaveRules, events: Seq<SaveEvent>, state: SaveState)
    requires
        events.len() > 0,
        did(rules, events.drop_last(), state),
    ensures
        did(rules, events, state),
{
    let before = events.drop_last();
    let k = choose|k: int|
        0 <= k < before.len() && #[trigger] state_after(rules, before.take(k)) == state && before[k]
            == SaveEvent::Worked(true);
    assert(before.take(k) =~= events.take(k));
    assert(state_after(rules, events.take(k)) == state);
    assert(events[k] == before[k]);
}

proof fn lemma_did_last(rules: SaveRules, events: Seq<SaveEvent>)
    requires
        events.len() > 0,
        events.last() == SaveEvent::Worked(true),
    ensures
        did(rules, events, state_after(rules, events.drop_last())),
{
    let last = events.len() - 1;
    assert(events.take(last) =~= events.drop_last());
    assert(state_after(rules, events.take(last)) == state_after(rules, events.drop_last()));
    assert(events[last] == events.last());
}

/// By a commit, every property of a resource is set before the commit is signed, by somebody; it is
/// signed before it is applied, and applied before the resource counts as saved. The properties are
/// set in their order.
pub proof fn every_property_is_saved(rules: SaveRules, events: Seq<SaveEvent>, i: int)
    requires
        rules.save == SaveOpts::Commit,
        rules.properties <= usize::MAX,
        0 <= i < rules.properties,
    ensures
        match state_after(rules, events) {
            SaveState::SetProp(k) => i < k ==> did(rules, events, SaveState::SetProp(i as usize)),
            SaveState::Sign => rules.signer is Some && did(
                rules,
                events,
                SaveState::SetProp(i as usize),
            ),
            SaveState::Apply => did(rules, events, SaveState::SetProp(i as usize)) && did(
                rules,
                events,
                SaveState::Sign,
            ),
            SaveState::Done => did(rules, events, SaveState::SetProp(i as usize)) && did(
                rules,
                events,
                SaveState::Sign,
            ) && did(rules, events, SaveState::Apply),
            _ => true,
        },
    decreases events.len(),
{
    if events.len() > 0 {
        let before = events.drop_last();
        commits_do_not_bypass_checks(rules, before);
        every_property_is_saved(rules, before, i);
        if events.last() == SaveEvent::Worked(true) {
            lemma_did_last(rules, events);
        }
        if did(rules, before, SaveState::SetProp(i as usize)) {
            lemma_did_stays(rules, events, SaveState::SetProp(i as usize));
        }
        if did(rules, before, SaveState::Sign) {
            lemma_did_stays(rules, events, SaveState::Sign);
        }
        if did(rules, before, SaveState::Apply) {
            lemma_did_stays(rules, events, SaveState::Apply);
        }
    }
}

/// Where an action fails, or the resource is outside, it is not saved, for that reason; and what is
/// settled stays settled.
pub proof fn failures_stop_a_saving(rules: SaveRules, events: Seq<SaveEvent>, event: SaveEvent)
    ensures
        ({
            let state = state_after(rules, events);
            let failed = state_after(rules, events.push(SaveEvent::Worked(false)));
            &&& state is Add || state is SetProp || state is Sign ==> failed == SaveState::Failed(
                SaveFailure::Action,
            )
            &&& state is Apply ==> failed == SaveState::Failed(SaveFailure::Apply)
            &&& state is CheckParent ==> state_after(
                rules,
                events.push(SaveEvent::BelowImporter(false)),
            ) == SaveState::Failed(SaveFailure::OutsideImporter)
            &&& state is Done || state is Failed ==> state_after(rules, events.push(event)) == state
        }),
{
    assert(events.push(event).drop_last() =~= events);
    assert(events.push(SaveEvent::Worked(false)).drop_last() =~= events);
    assert(events.push(SaveEvent::BelowImporter(false)).drop_last() =~= events);
}

/// A resource is refused as being outside only where it was there, has been found not to be below
/// the importer, and what is outside may not be overwritten; for want of a signer only where there
/// is none; and for a failed action only where one failed.
pub proof fn resources_are_refused_for_a_reason(rules: SaveRules, events: Seq<SaveEvent>)
    ensures
        match state_after(rules, events) {
            SaveState::CheckParent => !rules.overwrite_outside && events.contains(
                SaveEvent::Found(true),
            ),
            SaveState::Failed(SaveFailure::OutsideImporter) => !rules.overwrite_outside
                && events.contains(SaveEvent::Found(true)) && events.contains(
                SaveEvent::BelowImporter(false),
            ),
            SaveState::Failed(SaveFailure::NoSigner) => rules.signer is None,
            SaveState::Failed(_) => events.contains(SaveEvent::Worked(false)),
            _ => true,
        },
    decreases events.len(),
{
    if events.len() > 0 {
        let before = events.drop_last();
        resources_are_refused_for_a_reason(rules, before);
        assert(events[events.len() - 1] == events.last());
        assert forall|e: SaveEvent| before.contains(e) implies #[trigger] events.contains(e) by {
            assert(events[before.index_of(e)] == e);
        }
    }
}

/// The agent that is named signs, whoever the default agent is.
pub proof fn the_named_agent_signs(
    parse_opts: ParseOpts,
    default_agent: Option<String>,
    properties: nat,
)
    requires
        parse_opts.signer is Some,
    ensures
        save_rules(parse_opts, default_agent, properties).signer == Some(parse_opts.signer->0@),
        save_rules(parse_opts, default_agent, properties).save == parse_opts.save,
        save_rules(parse_opts, default_agent, properties).overwrite_outside
            == parse_opts.overwrite_outside,
{
}

/// What is said about a resource that was not saved names the resource, where that is not already
/// said by the action that failed; and what that action said is not lost.
pub proof fn failures_are_explained(
    failure: SaveFailure,
    subject: Seq<char>,
    cause: crate::errors::ErrorView,
)
    ensures
        failure is Action ==> save_error(failure, subject, cause) == cause,
        failure is Apply ==> cause.message.is_suffix_of(
            save_error(failure, subject, cause).message,
        ) && crate::text::includes(save_error(failure, subject, cause).message, subject),
        failure is OutsideImporter ==> crate::text::includes(
            save_error(failure, subject, cause).message,
            subject,
        ),
{
    let message = save_error(failure, subject, cause).message;
    if failure is Apply {
        let n = "Failed to save "@.len() as int;
        assert(message.subrange(n, n + subject.len()) =~= subject);
        assert(crate::text::occurs(message, subject, n));
        assert(message.subrange(message.len() - cause.message.len(), message.len() as int)
            =~= cause.message);
    } else if failure is OutsideImporter {
        let n = "Cannot overwrite "@.len() as int;
        assert(message.subrange(n, n + subject.len()) =~= subject);
        assert(crate::text::occurs(message, subject, n));
    }
}

} // verus!
