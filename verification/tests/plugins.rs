use atomic_core::agents::ForAgent;
use atomic_core::cli::{
    CliAction, Commands, Config, ConfigAnswers, ConfigSource, Format, SerializeOptions,
    exec_command, finish_config, list_line, pad, prompt_for_missing_config_values, set_agent_config,
};
use atomic_core::errors::AtomicError;
use atomic_core::folder::{
    NameCheck, add_suffix, check_name, check_unique, class_url, get_name_from_folder,
    on_resource_get,
};
use atomic_core::json::JsonValue;
use atomic_core::json_text::read_json;
use atomic_core::parse::{LiteralAnswer, Schema, Stop};
use atomic_core::plugin::{
    ClassExtender, Commit, GetContext, PluginWrapper, Resource, ResourceJson, ResourceResponse,
    answer,
};
use atomic_core::plugin_loader::{
    ComponentStep, DirEntry, LoadEvent, LoadRun, LoadStep, Place, advance_component,
    build_commit_context, build_get_context, cleanup_cache, cwasm_name, explain_compile,
    explain_open, find_flat_wasm_files, find_wasm_files, has_extension, host_agent, hex_encode, inflate_resource_response,
};
use atomic_core::urls;
use atomic_core::values::DataType;

fn resource(json: &str) -> Resource {
    Resource::try_from(ResourceJson {
        subject: "http://r".to_string(),
        json_ad: json.to_string(),
    })
    .unwrap()
}

#[test]
fn resources_of_plugins_read_back() {
    let r = resource(r#"{"@id": "http://other", "b": 1, "a": [true]}"#);
    assert_eq!(r.subject, "http://r");
    assert_eq!(r.props.len(), 2);
    let text = r.to_json().unwrap();
    assert_eq!(text, r#"{"@id":"http://r","a":[true],"b":1}"#);
    let again = resource(&text);
    assert_eq!(again.props.len(), 2);
    assert_eq!(again.to_json().unwrap(), text);
    let fail = |json: &str| {
        Resource::try_from(ResourceJson { subject: String::new(), json_ad: json.to_string() })
            .err()
            .unwrap()
    };
    assert!(fail("{").starts_with("Invalid JSON: "));
    assert_eq!(fail("[]"), "Resource is not a JSON object");
}

fn commit(set: Option<&str>) -> Commit {
    Commit {
        subject: "http://s".to_string(),
        created_at: 0,
        signer: "http://a".to_string(),
        set: set.map(|json| match read_json(json).unwrap() {
            JsonValue::Object(members) => members,
            _ => panic!("The text should be an object"),
        }),
        y_update: None,
        remove: None,
        destroy: None,
        signature: None,
        push: None,
        previous_commit: None,
        url: None,
    }
}

struct Picky;

impl ClassExtender for Picky {
    fn class_url() -> String {
        "http://class".to_string()
    }

    fn on_resource_get<'a>(resource: &'a mut Resource) -> Result<Option<&'a Resource>, String> {
        resource.props.push(("seen".to_string(), JsonValue::Bool(true)));
        Ok(Some(resource))
    }

    fn before_commit(commit: &Commit, snapshot: Option<&Resource>) -> Result<(), String> {
        match (&commit.set, snapshot) {
            (Some(_), Some(_)) => Ok(()),
            _ => Err("refused".to_string()),
        }
    }
}

fn snapshot(json: &str) -> ResourceJson {
    ResourceJson { subject: "http://r".to_string(), json_ad: json.to_string() }
}

#[test]
fn plugins_are_handed_what_they_need() {
    assert_eq!(PluginWrapper::<Picky>::class_url(), "http://class");
    let ctx = |json: &str| GetContext {
        request_url: String::new(),
        requested_subject: String::new(),
        agent_subject: String::new(),
        snapshot: snapshot(json),
    };
    let response = PluginWrapper::<Picky>::on_resource_get(ctx("{}")).unwrap().unwrap();
    assert_eq!(response.primary.subject, "http://r");
    assert_eq!(response.primary.json_ad, r#"{"@id":"http://r","seen":true}"#);
    assert!(response.referenced.is_empty());
    assert_eq!(
        PluginWrapper::<Picky>::on_resource_get(ctx("5")).err().unwrap(),
        "Resource is not a JSON object"
    );
    let before = PluginWrapper::<Picky>::before_commit;
    assert!(before(Ok(commit(Some("{}"))), Some(snapshot("{}"))).is_ok());
    assert_eq!(before(Ok(commit(None)), None).err().unwrap(), "refused");
    assert_eq!(before(Err("json".to_string()), None).err().unwrap(), "json");
    assert_eq!(
        before(Ok(commit(None)), Some(snapshot("5"))).err().unwrap(),
        "Resource is not a JSON object"
    );
    assert!(PluginWrapper::<Picky>::after_commit(Ok(commit(None)), None).is_ok());
}

struct Renaming;

impl ClassExtender for Renaming {
    fn class_url() -> String {
        "http://class".to_string()
    }

    fn on_resource_get<'a>(resource: &'a mut Resource) -> Result<Option<&'a Resource>, String> {
        resource.subject = "http://renamed".to_string();
        match resource.props.len() {
            0 => Err("empty".to_string()),
            1 => Ok(None),
            _ => Ok(Some(resource)),
        }
    }
}

#[test]
fn answers_of_plugins_have_the_address_of_the_resource() {
    let get = |json: &str| {
        PluginWrapper::<Renaming>::on_resource_get(GetContext {
            request_url: String::new(),
            requested_subject: String::new(),
            agent_subject: String::new(),
            snapshot: snapshot(json),
        })
    };
    let response = get(r#"{"a": 1, "b": 2}"#).unwrap().unwrap();
    assert_eq!(response.primary.subject, "http://renamed");
    assert_eq!(response.primary.json_ad, r#"{"@id":"http://renamed","a":1,"b":2}"#);
    assert!(get(r#"{"a": 1}"#).unwrap().is_none());
    assert_eq!(get("{}").err().unwrap(), "empty");
    let response = answer(Ok(Some("{}".to_string())), "http://s".to_string()).unwrap().unwrap();
    assert_eq!(response.primary.subject, "http://s");
    assert_eq!(response.primary.json_ad, "{}");
    assert!(response.referenced.is_empty());
    assert!(answer(Ok(None), "http://s".to_string()).unwrap().is_none());
    assert_eq!(answer(Err("e".to_string()), "http://s".to_string()).err().unwrap(), "e");
}

#[test]
fn folders_get_a_number() {
    assert_eq!(class_url(), "https://atomicdata.dev/classes/Folder");
    let mut folder = resource(r#"{"https://atomicdata.dev/properties/name": "Docs \t"}"#);
    add_suffix(&mut folder, 1207);
    assert_eq!(get_name_from_folder(&folder).unwrap(), "Docs 1207");
    let mut folder = resource("{}");
    assert_eq!(get_name_from_folder(&folder).err().unwrap(), "Folder name not found");
    add_suffix(&mut folder, 0);
    assert_eq!(get_name_from_folder(&folder).unwrap(), "Folder 0");
    let mut folder = resource("{}");
    on_resource_get(&mut folder);
    let name = get_name_from_folder(&folder).unwrap().to_string();
    let suffix: u32 = name.strip_prefix("Folder ").unwrap().parse().unwrap();
    assert!(suffix <= 9999);
}

#[test]
fn names_of_folders_are_checked() {
    let named = |name: &str| {
        commit(Some(&format!(r#"{{"https://atomicdata.dev/properties/name": "{name}"}}"#)))
    };
    assert!(matches!(check_name(&commit(None)), NameCheck::Decided(Ok(()))));
    assert!(matches!(check_name(&commit(Some("{}"))), NameCheck::Decided(Ok(()))));
    assert!(
        matches!(check_name(&named("Docs")), NameCheck::Decided(Err(e)) if e == "Folder name must not contain uppercase letters")
    );
    assert!(matches!(check_name(&named("docs")), NameCheck::LookUp(n) if n == "docs"));
    let folders = || {
        Ok(vec![
            resource("{}"),
            resource(r#"{"https://atomicdata.dev/properties/name": "docs"}"#),
        ])
    };
    assert_eq!(check_unique("docs", folders()).err().unwrap(), "Folder name must be unique");
    assert!(check_unique("other", folders()).is_ok());
    assert_eq!(check_unique("other", Err("io".to_string())).err().unwrap(), "io");
}

#[test]
fn hex_and_cache_names() {
    assert_eq!(hex_encode(&[0, 15, 16, 255]), "000f10ff");
    assert_eq!(
        cwasm_name(&b"abc".to_vec()),
        "ba7816bf8f01cfea414140de5dae2223b00361a396177a9cb410ff61f20015ad.cwasm"
    );
    assert!(has_extension("a.b.wasm", "wasm"));
    assert!(!has_extension(".wasm", "wasm"));
    assert!(!has_extension("a.wasm.b", "wasm"));
    assert!(!has_extension("wasm", "wasm"));
}

#[test]
fn plugins_are_found_and_caches_cleaned() {
    let file = |name: &str| DirEntry { name: name.to_string(), children: None };
    let entries = vec![
        file("a.wasm"),
        file("b.txt"),
        DirEntry {
            name: "dir.wasm".to_string(),
            children: Some(vec!["c.txt".to_string(), "d.wasm".to_string()]),
        },
    ];
    assert_eq!(
        find_wasm_files(&entries),
        vec![Place { entry: 0, child: None }, Place { entry: 2, child: Some(1) }]
    );
    // Without a cache only the directory itself is looked at.
    let flat = vec![Place { entry: 0, child: None }, Place { entry: 2, child: None }];
    assert_eq!(find_flat_wasm_files(&entries), flat);
    assert_eq!(LoadRun::start(false).list_files(&entries), flat);
    assert_eq!(LoadRun::start(true).list_files(&entries), find_wasm_files(&entries));
    assert!(matches!(host_agent(None), ForAgent::Public));
    assert!(
        matches!(host_agent(Some("http://a".to_string())), ForAgent::AgentSubject(a) if a == "http://a")
    );
    let list = |names: &[&str]| names.iter().map(|n| n.to_string()).collect::<Vec<_>>();
    assert_eq!(
        cleanup_cache(&list(&["a.cwasm", "b.cwasm", "c.txt"]), &list(&["b.cwasm"])),
        list(&["a.cwasm"])
    );
}

#[test]
fn loading_goes_on_after_failures() {
    let mut run = LoadRun::start(true);
    for event in [
        LoadEvent::Exists(true),
        LoadEvent::Exists(false),
        LoadEvent::Tried(false),
        LoadEvent::Tried(true),
        LoadEvent::Files(3),
        LoadEvent::Tried(false),
        LoadEvent::Tried(true),
        LoadEvent::Tried(false),
        LoadEvent::Tried(true),
        LoadEvent::Tried(true),
    ] {
        run.load_wasm_class_extenders(event);
    }
    assert_eq!(run.step, LoadStep::Cleanup);
    assert_eq!(run.used, vec![1, 2]);
    assert_eq!(run.loaded, vec![2]);
    run.load_wasm_class_extenders(LoadEvent::Tried(true));
    assert_eq!(run.step, LoadStep::Finished);
    // A directory that cannot be listed has no plugins, so that nothing in the cache is used.
    for (cached, step) in [(true, LoadStep::Cleanup), (false, LoadStep::Finished)] {
        let mut run = LoadRun::start(cached);
        run.load_wasm_class_extenders(LoadEvent::Exists(true));
        if cached {
            run.load_wasm_class_extenders(LoadEvent::Exists(true));
        }
        run.load_wasm_class_extenders(LoadEvent::Tried(true));
        assert_eq!(run.step, LoadStep::FindFiles);
        run.load_wasm_class_extenders(LoadEvent::Tried(false));
        assert_eq!(run.step, step);
        assert!(run.used.is_empty());
    }
    let mut run = LoadRun::start(false);
    run.load_wasm_class_extenders(LoadEvent::Exists(false));
    assert_eq!(run.step, LoadStep::CreatePlugins);
    run.load_wasm_class_extenders(LoadEvent::Tried(true));
    assert_eq!(run.step, LoadStep::Finished);
}

#[test]
fn bad_caches_are_compiled_again() {
    let run = |events: &[bool]| {
        let mut step = ComponentStep::CheckCached;
        for event in events {
            step = advance_component(step, *event);
        }
        step
    };
    assert_eq!(run(&[true, true, true, true]), ComponentStep::Ready);
    assert_eq!(run(&[true, true, false]), ComponentStep::Compile);
    assert_eq!(run(&[true, false, true, false, true, true]), ComponentStep::Ready);
    assert_eq!(run(&[false, false]), ComponentStep::CompileFailed);
    assert_eq!(run(&[false, true, true, false]), ComponentStep::OpenFailed);
    assert_eq!(run(&[true, true, true, false]), ComponentStep::AskFailed);
    assert_eq!(explain_compile("e").message, "Failed to precompile component: e");
    assert_eq!(explain_open("e").message, "Failed to deserialize compiled component: e");
}

#[test]
fn contexts_for_plugins() {
    let e = || AtomicError::other_error("e".to_string());
    let ctx = build_get_context("u", "s", "a", Ok("{}".to_string())).ok().unwrap();
    assert_eq!(ctx.request_url, "u");
    assert_eq!(ctx.snapshot.subject, "s");
    assert_eq!(ctx.agent_subject, "a");
    assert_eq!(build_get_context("u", "s", "a", Err(e())).err().unwrap().message, "e");
    let ctx =
        build_commit_context("s", Ok("c".to_string()), Ok("{}".to_string())).ok().unwrap();
    assert_eq!(ctx.commit_json, "c");
    assert_eq!(ctx.snapshot.unwrap().json_ad, "{}");
    assert!(build_commit_context("s", Err(e()), Ok("{}".to_string())).is_err());
    assert!(build_commit_context("s", Ok("c".to_string()), Err(e())).is_err());
}

#[test]
fn answers_of_plugins() {
    let schema = Schema {
        properties: vec![(urls::NAME.to_string(), Ok(DataType::String))],
        literals: Vec::<LiteralAnswer>::new(),
    };
    let json = r#"{"@id": "http://x", "https://atomicdata.dev/properties/name": "n"}"#;
    let mut payload = ResourceResponse { primary: snapshot(json), referenced: vec![] };
    match inflate_resource_response(&payload, &schema) {
        Ok(atomic_core::values::ResourceResponse::Resource(r)) => {
            assert_eq!(r.subject, "http://r");
            assert_eq!(r.propvals.len(), 1);
        }
        _ => panic!("The answer should be a resource"),
    }
    payload.referenced.push(snapshot(json));
    match inflate_resource_response(&payload, &schema) {
        Ok(atomic_core::values::ResourceResponse::ResourceWithReferenced(_, others)) => {
            assert_eq!(others[0].subject, "http://r");
        }
        _ => panic!("The answer should have another resource"),
    }
    payload.referenced.push(snapshot("{}"));
    assert!(matches!(inflate_resource_response(&payload, &schema), Err(Stop::Error(_))));
}

#[test]
fn commands_of_the_client() {
    let edit = || Commands::Edit { subject: "s".to_string(), property: "p".to_string() };
    assert!(exec_command(edit(), true).is_ok());
    assert_eq!(
        exec_command(edit(), false).err().unwrap().message,
        "Feature not available. Compile with `native` feature."
    );
    let get = Commands::Get { subject: "s".to_string(), format: SerializeOptions::NTriples };
    assert!(
        matches!(exec_command(get, false), Ok(CliAction::Get { format: Format::NTriples, .. }))
    );
    assert_eq!(SerializeOptions::JsonAd.into_format(), Format::JsonAd);
}

#[test]
fn configuration_of_the_client() {
    let config = |server: Option<&str>| Config {
        agent_secret: "secret".to_string(),
        server_url: server.map(|s| s.to_string()),
    };
    assert!(matches!(set_agent_config(&None), ConfigSource::AskAll));
    assert!(matches!(set_agent_config(&Some(config(None))), ConfigSource::AskServer));
    assert!(matches!(set_agent_config(&Some(config(Some("s")))), ConfigSource::Found));
    let c = prompt_for_missing_config_values(config(None), "t".to_string());
    assert_eq!(c.server_url, Some("t".to_string()));
    let c = prompt_for_missing_config_values(config(Some("s")), "t".to_string());
    assert_eq!(c.server_url, Some("s".to_string()));
    let answers = || ConfigAnswers { server: "t".to_string(), agent_secret: "new".to_string() };
    let (c, save) = finish_config(Some(config(Some("s"))), answers());
    assert_eq!((c.agent_secret.as_str(), c.server_url.as_deref(), save), ("secret", Some("s"), false));
    let (c, save) = finish_config(Some(config(None)), answers());
    assert_eq!((c.agent_secret.as_str(), c.server_url.as_deref(), save), ("secret", Some("t"), true));
    let (c, save) = finish_config(None, answers());
    assert_eq!((c.agent_secret.as_str(), c.server_url.as_deref(), save), ("new", Some("t"), true));
    assert_eq!(pad("abc", 5), "abc  ");
    assert_eq!(pad("abcdef", 5), "abcdef");
    assert_eq!(list_line(&pad("name", 15), "url"), "name           url        \n");
}
