use atomic_core::address::parse_url;
use atomic_core::agents::ForAgent;
use atomic_core::errors::{AtomicError, AtomicErrorType};
use atomic_core::query::Query;
use atomic_core::urls;
use atomic_core::versioning::{
    GetVersion, VersionStep, construct_version, construct_version_endpoint_url,
    get_commits_for_resource, get_initial_commit_for_resource, get_version,
    handle_all_versions_request, handle_path_request, handle_version_request, path_to_atom,
    version_to_keep, version_urls,
};
use atomic_core::values::{DataType, PropValue, Resource};

#[test]
fn constructs_versions() {
    let commits = vec![
        Some("http://s/commits/1".to_string()),
        None,
        Some("http://s/commits/2".to_string()),
        Some("http://s/commits/3".to_string()),
    ];
    let mut step = VersionStep::GetCommit;
    let mut applied = Vec::new();
    while step != VersionStep::Done {
        if let VersionStep::Apply(i) = step {
            applied.push(i);
        }
        step = construct_version(&commits, "http://s/commits/2", step, true);
    }
    assert_eq!(applied, vec![0, 2]);
    assert_eq!(
        construct_version(&commits, "x", VersionStep::CheckRead, false),
        VersionStep::Failed
    );
}

#[test]
fn addresses_of_versions() {
    let url = construct_version_endpoint_url(
        Ok("http://s".to_string()),
        "http://s/commits/a+b é~",
    );
    assert_eq!(
        url.ok().unwrap(),
        "http://s/versioning?commit=http%3A%2F%2Fs%2Fcommits%2Fa%2Bb%20%C3%A9~"
    );
    let e = AtomicError::other_error("e".to_string());
    assert_eq!(construct_version_endpoint_url(Err(e), "c").err().unwrap().message, "e");
    assert_eq!(
        version_urls("http://s", &vec!["a".to_string(), "/".to_string()]),
        vec!["http://s/versioning?commit=a", "http://s/versioning?commit=%2F"]
    );
    let value = PropValue::Literal { text: "t".to_string(), datatype: DataType::String };
    let version = Resource {
        subject: "http://s/r".to_string(),
        propvals: vec![("http://p".to_string(), value)],
    };
    let kept = version_to_keep(version, Ok("http://s".to_string()), "http://s/c").ok().unwrap();
    assert_eq!(kept.subject, "http://s/versioning?commit=http%3A%2F%2Fs%2Fc");
    assert_eq!(kept.propvals.len(), 1);
    assert_eq!(kept.propvals[0].0, "http://p");
    let none = AtomicError::other_error("no url".to_string());
    let lost = version_to_keep(kept, Err(none), "http://s/c");
    assert_eq!(lost.err().unwrap().message, "no url");
    assert_eq!(get_version(true), GetVersion::Cached);
    assert_eq!(get_version(false), GetVersion::ConstructAndKeep);
}

#[test]
fn requests_for_versions_and_paths() {
    let url = parse_url("http://s/version?commit=a&commit=b").ok().unwrap();
    assert_eq!(handle_version_request(&url), Some("b".to_string()));
    let url = parse_url("http://s/version").ok().unwrap();
    assert_eq!(handle_version_request(&url), None);
    assert!(handle_all_versions_request(&url).is_none());
    let url = parse_url("http://s/all-versions?subject=x").ok().unwrap();
    let builder = handle_all_versions_request(&url).unwrap();
    assert_eq!(builder.subject, "http://s/all-versions?subject=x");
    assert_eq!(builder.property, Some(urls::SUBJECT.to_string()));
    assert_eq!(builder.value, Some("x".to_string()));
    assert_eq!(builder.page_size, 20);
    assert_eq!(builder.name, Some("Versions of x".to_string()));
    let url = parse_url("http://s/path?path=a%20b").ok().unwrap();
    assert_eq!(handle_path_request(&url), Some("a b".to_string()));
    let atom = path_to_atom(&url, "s", "p", "v");
    assert_eq!(atom.subject, "http://s/path?path=a%20b");
    assert_eq!(atom.values[2].0, urls::ATOM_VALUE);
}

#[test]
fn commits_on_a_resource() {
    let q = Query {
        property: None,
        value: None,
        limit: Some(3),
        start_val: None,
        end_val: None,
        offset: 0,
        sort_by: None,
        sort_desc: true,
        include_external: false,
        include_nested: true,
        for_agent: ForAgent::Sudo,
    };
    let q = get_commits_for_resource("http://a", q);
    assert_eq!(q.property, Some(urls::SUBJECT.to_string()));
    assert_eq!(q.sort_by, Some(urls::CREATED_AT.to_string()));
    assert!(!q.sort_desc);
    assert_eq!(q.limit, Some(3));
    assert_eq!(get_initial_commit_for_resource(vec![1, 2]).ok().unwrap(), 1);
    let e = get_initial_commit_for_resource::<u8>(vec![]).err().unwrap();
    assert_eq!(e.message, "No commits found for this resource");
    assert_eq!(e.error_type, AtomicErrorType::NotFoundError);
}
