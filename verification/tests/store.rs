use atomic_core::commit_flow::{
    CommitEvent, CommitRules, CommitStep, Handlers, explain_nothing,
};
use atomic_core::db::{
    Atom, add_atoms, corrupt_db_message, flush_due, get_default_agent, get_propvals,
    map_sled_item_to_resource,
};
use atomic_core::errors::{AtomicError, AtomicErrorType};
use atomic_core::fetch::{FetchEvent, FetchRules, FetchStep, Fetched, answer_fetch, start_fetch};
use atomic_core::index::{
    AddResource, CommitEffect, IndexSteps, IndexedAtom, add_atom_to_index, add_resource_opts,
    build_index, explain_build, remove_atom_from_index, save_commit, save_effect,
};
use atomic_core::query::{
    ComplexEvent, ComplexStep, IndexSource, NO_VALUE, Query, Scan, ScanRules, SortSource,
    build_index_for_atom, find_sort_source, get_index_iterator_for_query, query_complex,
};
use atomic_core::removal::{Removal, recursive_remove};
use atomic_core::transaction::{Method, Operation, Tree, explain_apply, split_transaction};
use atomic_core::agents::ForAgent;
use atomic_core::values::{PropValue, Resource, ResourceResponse};
use atomic_core::json::JsonValue;

fn op(tree: Tree, key: &str, val: Option<&str>) -> Operation {
    Operation {
        tree,
        method: if val.is_some() { Method::Insert } else { Method::Delete },
        key: key.as_bytes().to_vec(),
        val: val.map(|v| v.as_bytes().to_vec()),
    }
}

fn shown(ops: &[Operation]) -> Vec<String> {
    ops.iter()
        .map(|o| {
            format!(
                "{:?} {:?} {}",
                o.tree,
                o.method,
                String::from_utf8(o.key.clone()).unwrap()
            )
        })
        .collect()
}

#[test]
fn batches_write_what_the_changes_say() {
    let db = sled::Config::new().temporary(true).open().unwrap();
    let resources = db.open_tree("resources").unwrap();
    let index = db.open_tree("index").unwrap();
    resources.insert("c", "old").unwrap();
    index.insert("c", "old").unwrap();
    let ops = vec![
        op(Tree::Resources, "a", Some("1")),
        op(Tree::Resources, "b", Some("1")),
        op(Tree::PropValSub, "a", Some("index")),
        op(Tree::Resources, "a", Some("2")),
        op(Tree::Resources, "b", None),
        op(Tree::Resources, "c", None),
    ];
    let batches = split_transaction(&ops);
    resources.apply_batch(batches.resources).unwrap();
    index.apply_batch(batches.prop_val_sub).unwrap();
    assert_eq!(resources.get("a").unwrap().unwrap().as_ref(), b"2");
    assert!(resources.get("b").unwrap().is_none());
    assert!(resources.get("c").unwrap().is_none());
    assert_eq!(index.get("a").unwrap().unwrap().as_ref(), b"index");
    assert_eq!(index.get("c").unwrap().unwrap().as_ref(), b"old");
    assert_eq!(explain_apply("x").message, "Failed to apply transaction: x");
}

fn failed<T>(message: &str) -> Result<T, AtomicError> {
    Err(AtomicError::other_error(message.to_string()))
}

fn steps(name: &str) -> IndexSteps {
    IndexSteps {
        reference: Ok(op(Tree::ValPropSub, name, Some(""))),
        prop_val: Ok(op(Tree::PropValSub, name, Some(""))),
        filters: vec![op(Tree::QueryMembers, name, Some(""))],
        checked: Ok(()),
    }
}

fn atom(name: &str) -> IndexedAtom {
    IndexedAtom { shown: name.to_string(), steps: vec![steps(name)] }
}

fn broken(name: &str) -> IndexedAtom {
    let mut step = steps(name);
    step.checked = failed("filters");
    IndexedAtom { shown: name.to_string(), steps: vec![step] }
}

#[test]
fn atoms_enter_and_leave_the_indexes() {
    let mut transaction = vec![op(Tree::Resources, "r", Some("r"))];
    assert!(add_atom_to_index(&vec![steps("a"), steps("b")], &mut transaction).is_ok());
    assert_eq!(
        shown(&transaction),
        vec![
            "Resources Insert r",
            "ValPropSub Insert a",
            "PropValSub Insert a",
            "QueryMembers Insert a",
            "ValPropSub Insert b",
            "PropValSub Insert b",
            "QueryMembers Insert b",
        ]
    );
    // What was added before something went wrong stays.
    let mut transaction = Vec::new();
    let e = add_atom_to_index(&broken("x").steps, &mut transaction).err().unwrap();
    assert_eq!(e.message, "Failed to check_if_atom_matches_watched_collections. filters");
    assert_eq!(
        shown(&transaction),
        vec!["ValPropSub Insert x", "PropValSub Insert x", "QueryMembers Insert x"]
    );
    let e = remove_atom_from_index(&broken("x").steps, &mut Vec::new()).err().unwrap();
    assert_eq!(e.message, "Checking atom went wrong: filters");
    let mut transaction = Vec::new();
    let mut step = steps("x");
    step.prop_val = failed("prop_val");
    let e = add_atom_to_index(&vec![steps("a"), step, steps("b")], &mut transaction);
    assert_eq!(e.err().unwrap().message, "prop_val");
    assert_eq!(
        shown(&transaction),
        vec![
            "ValPropSub Insert a",
            "PropValSub Insert a",
            "QueryMembers Insert a",
            "ValPropSub Insert x",
        ]
    );
    let mut transaction = Vec::new();
    let mut step = steps("x");
    step.reference = failed("reference");
    let e = add_atom_to_index(&vec![step], &mut transaction).err().unwrap();
    assert_eq!(e.message, "reference");
    assert!(transaction.is_empty());
}

#[test]
fn adding_a_resource() {
    let mut add = AddResource {
        subject: "http://a".to_string(),
        existing: Some(vec![atom("old")]),
        atoms: vec![atom("new")],
        required: Some(Ok(())),
        update_index: true,
        overwrite_existing: true,
    };
    assert_eq!(
        shown(&add_resource_opts(&add).ok().unwrap()),
        vec![
            "ValPropSub Insert old",
            "PropValSub Insert old",
            "QueryMembers Insert old",
            "ValPropSub Insert new",
            "PropValSub Insert new",
            "QueryMembers Insert new",
        ]
    );
    add.atoms = vec![broken("new")];
    assert_eq!(
        add_resource_opts(&add).err().unwrap().message,
        "Failed to add atom to index new. Failed to check_if_atom_matches_watched_collections. filters"
    );
    add.existing = Some(vec![broken("old")]);
    assert_eq!(
        add_resource_opts(&add).err().unwrap().message,
        "Failed to remove atom from index old. Checking atom went wrong: filters"
    );
    add.required = Some(failed("required"));
    assert_eq!(add_resource_opts(&add).err().unwrap().message, "required");
    add.overwrite_existing = false;
    assert_eq!(
        add_resource_opts(&add).err().unwrap().message,
        "Failed to add: 'http://a', already exists, should not be overwritten."
    );
    add.overwrite_existing = true;
    add.required = None;
    add.update_index = false;
    assert!(add_resource_opts(&add).ok().unwrap().is_empty());
    assert!(build_index(&vec![atom("a")]).is_ok());
    assert_eq!(
        explain_build(&AtomicError::other_error("x".to_string())).message,
        "Failed to commit transaction. x"
    );
}

#[test]
fn the_transaction_of_a_commit() {
    let commit = Ok(Operation::insert_resource(b"commit".to_vec(), b"c".to_vec()));
    let mut first = save_commit(commit, &vec![atom("commit")]).ok().unwrap();
    let effect = CommitEffect {
        new: Some(Ok(Operation::insert_resource(b"new".to_vec(), b"n".to_vec()))),
        old: true,
        remove_atoms: vec![atom("gone")],
        add_atoms: vec![atom("gained")],
        update_index: true,
    };
    first.append(&mut save_effect(&effect).ok().unwrap());
    assert_eq!(
        shown(&first),
        vec![
            "Resources Insert commit",
            "ValPropSub Insert commit",
            "PropValSub Insert commit",
            "QueryMembers Insert commit",
            "Resources Insert new",
            "ValPropSub Insert gone",
            "PropValSub Insert gone",
            "QueryMembers Insert gone",
            "ValPropSub Insert gained",
            "PropValSub Insert gained",
            "QueryMembers Insert gained",
        ]
    );
    assert_eq!(save_commit(failed("encode"), &vec![]).err().unwrap().message, "encode");
    let bad = CommitEffect {
        new: None,
        old: true,
        remove_atoms: vec![broken("x")],
        add_atoms: vec![],
        update_index: true,
    };
    assert_eq!(
        save_effect(&bad).err().unwrap().message,
        "Error removing atom from index: Checking atom went wrong: filters  Atom: Checking atom went wrong: filters"
    );
    let bad = CommitEffect {
        new: Some(Ok(Operation::insert_resource(b"new".to_vec(), b"n".to_vec()))),
        old: false,
        remove_atoms: vec![broken("x")],
        add_atoms: vec![broken("y")],
        update_index: true,
    };
    assert_eq!(
        save_effect(&bad).err().unwrap().message,
        "Error adding atom to index: Failed to check_if_atom_matches_watched_collections. filters  Atom: Failed to check_if_atom_matches_watched_collections. filters"
    );
}

fn node(subject: &str, children: Vec<Removal>) -> Removal {
    Removal {
        subject: subject.to_string(),
        found: true,
        children: Ok(children),
        atoms: vec![atom(subject)],
    }
}

#[test]
fn removing_a_tree() {
    let tree = node("a", vec![node("b", vec![node("c", vec![])]), node("d", vec![])]);
    let ops = recursive_remove(&tree).ok().unwrap();
    let removed: Vec<String> =
        shown(&ops).into_iter().filter(|o| o.starts_with("Resources")).collect();
    assert_eq!(
        removed,
        vec![
            "Resources Delete a",
            "Resources Delete b",
            "Resources Delete c",
            "Resources Delete d",
        ]
    );
    assert_eq!(shown(&ops)[ops.len() - 3], "ValPropSub Insert a");
    let mut lost = node("b", vec![]);
    lost.found = false;
    let tree = node("a", vec![lost]);
    assert_eq!(
        recursive_remove(&tree).err().unwrap().message,
        "Resource b could not be deleted, because it was not found in the store."
    );
    let mut tree = node("a", vec![]);
    tree.children = failed("children");
    assert_eq!(recursive_remove(&tree).err().unwrap().message, "children");
}

fn run_commit(rules: &CommitRules, events: &[CommitEvent]) -> CommitStep {
    let mut step = CommitStep::Validate;
    for event in events {
        step = rules.apply_commit(step, *event);
    }
    step
}

#[test]
fn commits_ask_extenders_first() {
    let worked = CommitEvent::Worked(true);
    let rules = CommitRules {
        extenders: vec![
            Handlers { before: true, after: false },
            Handlers { before: false, after: true },
        ],
        old: true,
        new: true,
    };
    assert_eq!(run_commit(&rules, &[worked]), CommitStep::BeforeCheck(0));
    let asked = [worked, CommitEvent::Matches(true)];
    assert_eq!(run_commit(&rules, &asked), CommitStep::BeforeCall(0));
    let refused =
        [worked, CommitEvent::Matches(true), CommitEvent::Worked(false), worked, worked];
    assert_eq!(run_commit(&rules, &refused), CommitStep::Failed);
    let all = [
        worked,
        CommitEvent::Matches(true),
        worked,
        CommitEvent::Matches(true),
        worked,
        worked,
        worked,
        worked,
        CommitEvent::Matches(false),
        CommitEvent::Matches(true),
        worked,
    ];
    assert_eq!(run_commit(&rules, &all[..4]), CommitStep::SaveCommit);
    assert_eq!(run_commit(&rules, &all[..5]), CommitStep::SaveEffect);
    assert_eq!(run_commit(&rules, &all[..6]), CommitStep::Apply);
    assert_eq!(run_commit(&rules, &all[..7]), CommitStep::Notify);
    assert_eq!(run_commit(&rules, &all[..10]), CommitStep::AfterCall(1));
    assert_eq!(run_commit(&rules, &all), CommitStep::Done);
}

#[test]
fn commits_that_destroy() {
    let worked = CommitEvent::Worked(true);
    let mut rules = CommitRules {
        extenders: vec![Handlers { before: true, after: true }],
        old: true,
        new: false,
    };
    assert_eq!(run_commit(&rules, &[worked, worked]), CommitStep::RemoveOld);
    let all = [worked, worked, worked, worked, worked, worked];
    assert_eq!(run_commit(&rules, &all), CommitStep::Done);
    rules.old = false;
    assert_eq!(run_commit(&rules, &[worked, worked]), CommitStep::FailedNothing);
    assert_eq!(
        explain_nothing().message,
        "Neither an old nor a new resource is returned from the commit - something went wrong."
    );
}

#[test]
fn fetching_checks_rights() {
    let worked = FetchEvent::Worked(true);
    let mut rules = FetchRules { handlers: vec![false, true], skip_dynamic: false };
    let mut step = FetchStep::GetResource;
    for event in [worked, worked, FetchEvent::Matches(true), FetchEvent::Matches(true), worked] {
        step = rules.get_resource_extended(step, event);
    }
    assert_eq!(step, FetchStep::Return(Fetched::Extended));
    step = rules.get_resource_extended(FetchStep::CheckRead, FetchEvent::Worked(false));
    assert_eq!(step, FetchStep::Failed);
    rules.skip_dynamic = true;
    step = rules.get_resource_extended(FetchStep::HasExtender(0), FetchEvent::Matches(true));
    assert_eq!(step, FetchStep::SetIncomplete);
    assert_eq!(rules.get_resource_extended(step, worked), FetchStep::Return(Fetched::Incomplete));
    step = rules.get_resource_extended(FetchStep::HasExtender(1), FetchEvent::Matches(false));
    assert_eq!(step, FetchStep::Return(Fetched::Plain));
}

#[test]
fn answers_have_the_address_that_was_asked_for() {
    let resource = || Resource { subject: "http://s/r".to_string(), propvals: vec![] };
    for fetched in [Fetched::Endpoint, Fetched::Extended, Fetched::Plain, Fetched::Incomplete] {
        let subject = match fetched {
            Fetched::Incomplete => "http://s/r",
            _ => "http://s/r?page=2",
        };
        let response = ResourceResponse::ResourceWithReferenced(resource(), vec![resource()]);
        match answer_fetch(fetched, response, "http://s/r?page=2") {
            ResourceResponse::ResourceWithReferenced(r, others) => {
                assert_eq!(r.subject, subject);
                assert_eq!(others[0].subject, "http://s/r");
            }
            _ => panic!("The answer should keep what it refers to"),
        }
        match answer_fetch(fetched, ResourceResponse::Resource(resource()), "http://s/r?page=2") {
            ResourceResponse::Resource(r) => assert_eq!(r.subject, subject),
            _ => panic!("The answer should be one resource"),
        }
    }
}

#[test]
fn fetching_starts_with_the_address() {
    let endpoints = vec![atomic_core::endpoints::path_endpoint()];
    let (step, key) = start_fetch(&endpoints, "http://s/path?path=a").ok().unwrap();
    assert_eq!(step, FetchStep::CallEndpoint);
    assert_eq!(key, "http://s/path");
    let (step, key) = start_fetch(&endpoints, "http://s/folder/?a=b").ok().unwrap();
    assert_eq!(step, FetchStep::GetResource);
    assert_eq!(key, "http://s/folder");
    let (_, key) = start_fetch(&endpoints, "http://s").ok().unwrap();
    assert_eq!(key, "http://s");
    assert!(start_fetch(&endpoints, "no address").is_err());
}

fn walk(rules: &ScanRules, atoms: &[(&str, bool)]) -> (Vec<String>, usize) {
    let (mut scan, _) = Scan::start(Some(rules.self_url.clone())).ok().unwrap();
    for (subject, readable) in atoms {
        if scan.offer(rules, subject) && *readable {
            scan.include_fetched(subject);
        }
    }
    (scan.subjects, scan.count)
}

#[test]
fn queries_walk_an_index() {
    let mut rules = ScanRules {
        limit: Some(2),
        offset: 1,
        include_external: false,
        fetch: false,
        self_url: "http://me".to_string(),
    };
    let atoms = [
        ("http://me/0", true),
        ("http://you/1", true),
        ("http://me/2", false),
        ("http://me/3", true),
        ("http://me/4", true),
    ];
    let (subjects, count) = walk(&rules, &atoms);
    assert_eq!(subjects, vec!["http://me/2", "http://me/3"]);
    assert_eq!(count, 4);
    rules.fetch = true;
    let (subjects, count) = walk(&rules, &atoms);
    assert_eq!(subjects, vec!["http://me/3", "http://me/4"]);
    assert_eq!(count, 4);
    rules.include_external = true;
    rules.limit = None;
    rules.offset = 0;
    let (subjects, count) = walk(&rules, &atoms);
    assert_eq!(subjects.len(), 4);
    assert_eq!(count, 5);
    assert_eq!(
        Scan::start(None).err().unwrap().message,
        "No self_url set, required for Queries"
    );
}

#[test]
fn queries_choose_an_index() {
    let mut q = Query {
        property: Some("p".to_string()),
        value: None,
        limit: None,
        start_val: None,
        end_val: None,
        offset: 0,
        sort_by: None,
        sort_desc: false,
        include_external: false,
        include_nested: false,
        for_agent: ForAgent::Public,
    };
    assert_eq!(get_index_iterator_for_query(&q), IndexSource::PropValSub);
    q.property = None;
    assert_eq!(get_index_iterator_for_query(&q), IndexSource::AllAtoms);
    q.value = Some(PropValue::Json(JsonValue::Null));
    assert_eq!(get_index_iterator_for_query(&q), IndexSource::ValPropSub);
    assert_eq!(find_sort_source(&None, "p"), SortSource::Atom);
    assert_eq!(find_sort_source(&Some("p".to_string()), "p"), SortSource::Atom);
    assert_eq!(find_sort_source(&Some("q".to_string()), "p"), SortSource::Stored);
    assert_eq!(build_index_for_atom(SortSource::Atom, "a", None), "a");
    assert_eq!(build_index_for_atom(SortSource::Stored, "a", Some("b".to_string())), "b");
    assert_eq!(build_index_for_atom(SortSource::Stored, "a", None), NO_VALUE);
}

#[test]
fn query_indexes_are_built_when_empty() {
    let mut step = ComplexStep::Ask;
    for event in [
        ComplexEvent::Counted(0),
        ComplexEvent::Watched(false),
        ComplexEvent::Worked(true),
        ComplexEvent::Worked(true),
        ComplexEvent::Worked(true),
    ] {
        step = query_complex(step, event);
    }
    assert_eq!(step, ComplexStep::AskAgain);
    assert_eq!(query_complex(step, ComplexEvent::Counted(3)), ComplexStep::Done);
    assert_eq!(query_complex(ComplexStep::Ask, ComplexEvent::Counted(1)), ComplexStep::Done);
    assert_eq!(
        query_complex(ComplexStep::CheckWatched, ComplexEvent::Watched(true)),
        ComplexStep::Done
    );
    assert_eq!(
        query_complex(ComplexStep::Watch, ComplexEvent::Worked(false)),
        ComplexStep::Failed
    );
}

#[test]
fn what_the_database_says() {
    assert_eq!(
        corrupt_db_message("http://a"),
        "Could not deserialize item http://a from database. DB is possibly corrupt, could be due to an update or a lack of migrations. Restore to a previous version, export your data and import your data again."
    );
    assert_eq!(get_propvals("s", Ok(Some(5))).ok().unwrap(), 5);
    let e = get_propvals::<u8>("s", Ok(None)).err().unwrap();
    assert_eq!(e.message, "Resource s not found");
    assert_eq!(e.error_type, AtomicErrorType::NotFoundError);
    let e = get_propvals::<u8>("s", Err("io".to_string())).err().unwrap();
    assert_eq!(e.message, "Can't open s from store: io");
    assert!(map_sled_item_to_resource("http://a/b", "http://a", false));
    assert!(!map_sled_item_to_resource("http://b", "http://a", false));
    assert!(map_sled_item_to_resource("http://b", "http://a", true));
    assert_eq!(
        get_default_agent::<u8>(None).err().unwrap().message,
        "No default agent has been set."
    );
    assert!(flush_due(0) && flush_due(20000) && !flush_due(10001));
}

#[test]
fn atoms_are_grouped_by_resource() {
    let a = |subject: &str| Atom {
        subject: subject.to_string(),
        property: "p".to_string(),
        value: "v".to_string(),
    };
    let groups = add_atoms(&vec![a("x"), a("y"), a("x")]);
    assert_eq!(
        groups,
        vec![("x".to_string(), vec![0, 2]), ("y".to_string(), vec![1])]
    );
}
