use atomic_core::agents::ForAgent;
use atomic_core::errors::{AtomicError, AtomicErrorType};
use atomic_core::import::{
    Import, find_parent_in_array, get_parent_to_pull, object_is_property, parse_json_ad_string,
    pull_parents_of_props_to_front, sort_properties_first,
};
use atomic_core::json::JsonValue;
use atomic_core::json_text::{debug_json, read_json, show_json, write_json};
use atomic_core::parse::{
    JSON_AD_MIME, LiteralAnswer, ParseOpts, Question, SaveOpts, Schema, Stop, check_valid_url,
    generate_id_from_local_id, parse_json_ad_commit_resource, parse_json_ad_resource,
    parse_json_array, parse_propval, try_to_subject,
};
use atomic_core::save::{
    SaveEvent, SaveFailure, SaveState, continue_save, explain_failure, find_signer,
    import_commit_opts, start_save,
};
use atomic_core::urls;
use atomic_core::values::{DataType, PropValue, Resource, SubResource, get_propval};

const IMPORTER: &str = "http://localhost:9883/importer";

fn datatype_of(property: &str) -> Option<DataType> {
    let datatype = match property {
        "https://atomicdata.dev/properties/description" => DataType::Markdown,
        "https://atomicdata.dev/properties/name" => DataType::String,
        "https://atomicdata.dev/properties/shortname" => DataType::Slug,
        "https://atomicdata.dev/properties/isA" => DataType::ResourceArray,
        "https://atomicdata.dev/properties/collection/members" => DataType::ResourceArray,
        "https://atomicdata.dev/properties/write" => DataType::ResourceArray,
        "https://atomicdata.dev/properties/parent" => DataType::AtomicUrl,
        "https://atomicdata.dev/properties/datatype" => DataType::AtomicUrl,
        "https://atomicdata.dev/properties/createdAt" => DataType::Timestamp,
        "http://localhost:9883/01k06n9cz8r8vsdehh4btz8tdk" => DataType::JSON,
        "http://test/date" => DataType::Date,
        "http://test/uri" => DataType::Uri,
        "http://test/bool" => DataType::Boolean,
        "http://test/int" => DataType::Integer,
        "http://test/float" => DataType::Float,
        "http://test/ydoc" => DataType::YDoc,
        "http://test/odd" => DataType::Unsupported("odd".to_string()),
        _ => return None,
    };
    Some(datatype)
}

fn answer(schema: &mut Schema, question: Question) {
    match question {
        Question::Property(url) => {
            let found = datatype_of(&url)
                .ok_or_else(|| AtomicError::not_found(format!("Property {} not found", url)));
            schema.properties.push((url, found));
        }
        Question::Literal { text, datatype } => {
            let answer = match &datatype {
                DataType::Timestamp => text.parse::<i64>().map(|_| ()).map_err(|e| {
                    AtomicError::other_error(format!("Not a valid Timestamp: {}. {}", text, e))
                }),
                _ => Ok(()),
            };
            schema.literals.push(LiteralAnswer { text, datatype, answer });
        }
    }
}

fn empty_schema() -> Schema {
    Schema { properties: Vec::new(), literals: Vec::new() }
}

fn parse_text(text: &str, opts: &ParseOpts) -> Result<Resource, AtomicError> {
    let mut schema = empty_schema();
    loop {
        match parse_json_ad_resource(text, &schema, opts) {
            Ok(resource) => return Ok(resource),
            Err(Stop::Error(e)) => return Err(e),
            Err(Stop::Ask(question)) => answer(&mut schema, question),
        }
    }
}

fn propval(key: &str, json: &str, opts: &ParseOpts) -> Result<(String, PropValue), AtomicError> {
    let val = read_json(json).unwrap();
    let mut schema = empty_schema();
    loop {
        match parse_propval(key, &val, Some("http://test/subject"), &schema, opts) {
            Ok(found) => return Ok(found),
            Err(Stop::Error(e)) => return Err(e),
            Err(Stop::Ask(question)) => answer(&mut schema, question),
        }
    }
}

fn import_all(import: &mut Import, opts: &ParseOpts) -> Result<Vec<Resource>, AtomicError> {
    let mut done = Vec::new();
    loop {
        let mut schema = empty_schema();
        let next = loop {
            match import.next(&schema, opts) {
                Ok(next) => break next,
                Err(Stop::Error(e)) => return Err(e),
                Err(Stop::Ask(question)) => answer(&mut schema, question),
            }
        };
        match next {
            Some(resource) => done.push(resource),
            None => return Ok(done),
        }
        import.advance();
    }
}

fn importing() -> ParseOpts {
    ParseOpts {
        save: SaveOpts::Commit,
        signer: Some("http://localhost:9883/agents/test".to_string()),
        for_agent: ForAgent::Sudo,
        overwrite_outside: false,
        importer: Some(IMPORTER.to_string()),
    }
}

fn text_of(resource: &Resource, property: &str) -> Option<String> {
    match get_propval(&resource.propvals, property) {
        Some(PropValue::Literal { text, .. }) => Some(text.clone()),
        _ => None,
    }
}

#[test]
#[should_panic(expected = "@id must be a strin")]
fn parse_and_serialize_json_ad_wrong_id() {
    let json_input = r#"{"@id": 5}"#;
    match parse_text(json_input, &ParseOpts::default()) {
        Ok(_) => {}
        Err(e) => panic!("{}", e.message),
    }
}

#[test]
#[should_panic(expected = "Invalid value for Markdown")]
fn parse_and_serialize_json_ad_wrong_datatype_int_to_str() {
    let json_input = r#"{
            "@id": "https://atomicdata.dev/classes/Agent",
            "https://atomicdata.dev/properties/description": 1
          }"#;
    match parse_text(json_input, &ParseOpts::default()) {
        Ok(_) => {}
        Err(e) => panic!("{}", e.message),
    }
}

#[test]
#[should_panic(expected = "Not a valid Timestamp: 1.124. invalid digit found in string")]
fn parse_and_serialize_json_ad_wrong_datatype_float() {
    let json_input = r#"{
            "@id": "https://atomicdata.dev/classes/Agent",
            "https://atomicdata.dev/properties/createdAt": 1.124
          }"#;
    match parse_text(json_input, &ParseOpts::default()) {
        Ok(_) => {}
        Err(e) => panic!("{}", e.message),
    }
}

#[test]
fn parser_should_error_when_encountering_nested_resource() {
    let json = r#"{
            "@id": "https://atomicdata.dev/classes",
            "https://atomicdata.dev/properties/collection/members": [
              {
                "@id": "https://atomicdata.dev/classes/FirstThing",
                "https://atomicdata.dev/properties/description": "Named nested resource"
              },
              {
                "https://atomicdata.dev/properties/description": "Anonymous nested resource"
              },
              "https://atomicdata.dev/classes/ThirdThing"
            ]
          }"#;
    let parsed = parse_text(json, &ParseOpts::default());
    assert!(parsed.is_err(), "Subresource with @id should have errored");
    assert_eq!(
        parsed.err().unwrap().message,
        "`@id` and `localId` are not allowed in anonymous resources"
    );
}

#[test]
fn import_resource_with_localid() {
    let local_id = "my-local-id";
    let json = r#"{
            "https://atomicdata.dev/properties/localId": "my-local-id",
            "https://atomicdata.dev/properties/name": "My resource"
          }"#;
    let mut import = parse_json_ad_string(json).ok().unwrap();
    let found = import_all(&mut import, &importing()).ok().unwrap();
    assert_eq!(found.len(), 1);
    assert_eq!(found[0].subject, generate_id_from_local_id(IMPORTER, local_id));
    assert_eq!(text_of(&found[0], urls::NAME).unwrap(), "My resource");
    assert_eq!(text_of(&found[0], urls::PARENT).unwrap(), IMPORTER);
    // The local id is not kept in the imported resource.
    assert_eq!(get_propval(&found[0].propvals, urls::LOCAL_ID).is_none(), true);
}

#[test]
fn import_resource_with_json() {
    let local_id = "my-local-id";
    let json = r#"
        [
        {
            "@id": "http://localhost:9883/01k06n9cz8r8vsdehh4btz8tdk",
            "https://atomicdata.dev/properties/datatype": "https://atomicdata.dev/datatypes/json",
            "https://atomicdata.dev/properties/description": "Een prop met een json value",
            "https://atomicdata.dev/properties/isA": [
                "https://atomicdata.dev/classes/Property"
            ],
            "https://atomicdata.dev/properties/shortname": "nieuwe-json-prop"
        }, {
            "https://atomicdata.dev/properties/localId": "my-local-id",
            "https://atomicdata.dev/properties/name": "My resource",
            "http://localhost:9883/01k06n9cz8r8vsdehh4btz8tdk": {
                "wat": "patat"
            }
        }
        ]"#;
    let mut import = parse_json_ad_string(json).ok().unwrap();
    let found = import_all(&mut import, &importing()).ok().unwrap();
    assert_eq!(found.len(), 2);
    let imported = &found[1];
    assert_eq!(imported.subject, generate_id_from_local_id(IMPORTER, local_id));
    assert_eq!(text_of(imported, urls::NAME).unwrap(), "My resource");
    assert_eq!(get_propval(&imported.propvals, urls::LOCAL_ID).is_none(), true);
    let value =
        get_propval(&imported.propvals, "http://localhost:9883/01k06n9cz8r8vsdehh4btz8tdk");
    match value {
        Some(PropValue::Json(json)) => assert_eq!(show_json(json), r#"{"wat":"patat"}"#),
        _ => panic!("The value should be JSON"),
    }
}

#[test]
fn import_resource_malicious() {
    // A resource outside of the importer, with rights that somebody wants to change.
    let json = r#"{
            "@id": "http://localhost:9883/drive",
            "https://atomicdata.dev/properties/write": ["https://some-malicious-actor"]
        }"#;
    let mut opts = importing();
    opts.for_agent = ForAgent::AgentSubject("http://localhost:9883/agents/test".to_string());
    let resource = parse_text(json, &opts).ok().unwrap();
    let n = resource.propvals.len();

    let state = start_save(&opts);
    assert_eq!(state, SaveState::Fetch);
    let state = continue_save(&opts, &None, n, state, SaveEvent::Found(true));
    assert_eq!(state, SaveState::CheckParent);
    let state = continue_save(&opts, &None, n, state, SaveEvent::BelowImporter(false));
    assert_eq!(state, SaveState::Failed(SaveFailure::OutsideImporter));
    let error = explain_failure(
        SaveFailure::OutsideImporter,
        &resource.subject,
        AtomicError::other_error(String::new()),
    );
    assert_eq!(
        error.message,
        "Cannot overwrite http://localhost:9883/drive outside of importer! Enable `overwrite_outside`"
    );

    // Where overwriting outside is allowed, it can be imported.
    opts.overwrite_outside = true;
    let mut state = start_save(&opts);
    state = continue_save(&opts, &None, n, state, SaveEvent::Found(true));
    assert_eq!(state, SaveState::SetProp(0));
    for _ in 0..n {
        state = continue_save(&opts, &None, n, state, SaveEvent::Worked(true));
    }
    assert_eq!(state, SaveState::Sign);
    state = continue_save(&opts, &None, n, state, SaveEvent::Worked(true));
    assert_eq!(state, SaveState::Apply);
    state = continue_save(&opts, &None, n, state, SaveEvent::Worked(true));
    assert_eq!(state, SaveState::Done);
}

#[test]
fn is_property() {
    let json = r#"
        {
    "https://atomicdata.dev/properties/localId": "newprop",
    "https://atomicdata.dev/properties/datatype": "https://atomicdata.dev/datatypes/string",
    "https://atomicdata.dev/properties/description": "test property",
    "https://atomicdata.dev/properties/isA": [
      "https://atomicdata.dev/classes/Property"
    ],
    "https://atomicdata.dev/properties/shortname": "homepage"
}
        "#;

    let object = read_json(json).unwrap();

    assert!(object_is_property(&object), "This JSON should be parsed as a property")
}

/// Properties are imported first, and the parents of properties before them.
#[test]
fn parse_sorted_properties() {
    let json = r#"[
{
    "https://atomicdata.dev/properties/localId": "test1",
    "https://atomicdata.dev/properties/name": "val"
},
{
"https://atomicdata.dev/properties/localId": "test2"
},
  {
    "https://atomicdata.dev/properties/localId": "newprop",
    "https://atomicdata.dev/properties/datatype": "https://atomicdata.dev/datatypes/string",
    "https://atomicdata.dev/properties/description": "test property",
    "https://atomicdata.dev/properties/isA": [
      "https://atomicdata.dev/classes/Property"
    ],
    "https://atomicdata.dev/properties/parent": "test2",
    "https://atomicdata.dev/properties/shortname": "homepage"
}]"#;
    let mut opts = importing();
    opts.for_agent = ForAgent::AgentSubject("http://localhost:9883/agents/test".to_string());
    let mut import = parse_json_ad_string(json).ok().unwrap();
    let found = import_all(&mut import, &opts).ok().unwrap();
    let subjects: Vec<String> = found.iter().map(|r| r.subject.clone()).collect();
    assert_eq!(
        subjects,
        vec![
            format!("{IMPORTER}/test2"),
            format!("{IMPORTER}/newprop"),
            format!("{IMPORTER}/test1"),
        ]
    );
    assert_eq!(text_of(&found[2], urls::PARENT).unwrap(), IMPORTER);
    assert_eq!(text_of(&found[1], urls::PARENT).unwrap(), format!("{IMPORTER}/test2"));
}

#[test]
fn default_options() {
    let opts = ParseOpts::default();
    assert!(opts.signer.is_none());
    assert!(opts.importer.is_none());
    assert!(matches!(opts.for_agent, ForAgent::Sudo));
    assert!(opts.overwrite_outside);
    assert_eq!(opts.save, SaveOpts::Save);
    assert_eq!(JSON_AD_MIME, "application/ad+json");
}

#[test]
fn addresses_and_local_ids() {
    assert!(check_valid_url("https://example.com").is_ok());
    assert_eq!(
        check_valid_url("local").err().unwrap().message,
        "Url does not start with http: local"
    );
    assert_eq!(generate_id_from_local_id("http://a", "b"), "http://a/b");
    let none = ParseOpts::default();
    assert_eq!(try_to_subject("http://x", "http://p", &none).ok().unwrap(), "http://x");
    let e = try_to_subject("x", "http://p", &none).err().unwrap();
    assert_eq!(e.message, "Unable to parse string as URL: x");
    assert_eq!(e.error_type, AtomicErrorType::ParseError);
    assert_eq!(e.property, Some("http://p".to_string()));
    assert_eq!(e.subject, None);
    assert_eq!(
        try_to_subject("x", "http://p", &importing()).ok().unwrap(),
        "http://localhost:9883/importer/x"
    );
}

#[test]
fn every_datatype_has_its_shape() {
    let opts = ParseOpts::default();
    let wrong = [
        (urls::PARENT, "5", "Invalid value for AtomicUrl, not a string or object"),
        (urls::IS_A, "5", "Invalid value for ResourceArray, not an array"),
        (urls::NAME, "5", "Invalid value for String, not a string"),
        (urls::SHORTNAME, "5", "Invalid value for Slug, not a string"),
        (urls::DESCRIPTION, "5", "Invalid value for Markdown, not a string"),
        ("http://test/uri", "5", "Invalid value for URI, not a string"),
        ("http://test/date", "5", "Invalid value for Date, not a string"),
        ("http://test/bool", "5", "Invalid value for Boolean, not a boolean"),
        ("http://test/int", "\"5\"", "Invalid value for Integer, not a number"),
        ("http://test/float", "\"5\"", "Invalid value for Float, not a number"),
        (urls::CREATED_AT, "\"5\"", "Invalid value for Timestamp, not a string"),
        ("http://test/odd", "5", "Unsupported datatype: odd"),
        (
            "http://test/ydoc",
            "5",
            "Invalid value for YDoc, must be of shape { type: \"ydoc\", data: <base64 string> }",
        ),
        ("http://test/ydoc", "{}", "Invalid value for YDoc, no data field"),
        (
            "http://test/ydoc",
            "{\"data\": 5}",
            "Invalid value for YDoc, data field must be a string",
        ),
        (urls::IS_A, "[[1,\"a\"]]", "Found non-string item in resource array: [1,\"a\"]."),
    ];
    for (key, json, message) in wrong {
        let e = propval(key, json, &opts).err().unwrap();
        assert_eq!(e.message, message);
        assert_eq!(e.subject, Some("http://test/subject".to_string()));
        assert_eq!(e.property, Some(key.to_string()));
    }
    let right = [
        (urls::NAME, "\"a\"", "a"),
        (urls::SHORTNAME, "\"a\"", "a"),
        ("http://test/bool", "true", "true"),
        ("http://test/bool", "false", "false"),
        ("http://test/int", "5", "5"),
        ("http://test/float", "1.5", "1.5"),
        ("http://test/ydoc", "{\"type\":\"ydoc\",\"data\":\"QUJD\"}", "QUJD"),
        (urls::PARENT, "\"http://p\"", "http://p"),
    ];
    for (key, json, text) in right {
        let (prop, value) = propval(key, json, &opts).ok().unwrap();
        assert_eq!(prop, key);
        match value {
            PropValue::Literal { text: found, .. } => assert_eq!(found, text),
            _ => panic!("The value should be a literal"),
        }
    }
}

#[test]
fn lists_and_nested_resources() {
    let opts = importing();
    let (_, value) =
        propval(urls::IS_A, "[\"http://a\", \"b\", {\"http://test/int\": 1}]", &opts).ok().unwrap();
    match value {
        PropValue::ResourceArray(items) => {
            assert_eq!(items.len(), 3);
            assert!(matches!(&items[0], SubResource::Subject(s) if s == "http://a"));
            assert!(
                matches!(&items[1], SubResource::Subject(s) if s == &format!("{IMPORTER}/b"))
            );
            assert!(matches!(&items[2], SubResource::Nested(p) if p.len() == 1));
        }
        _ => panic!("The value should be a list"),
    }
    let (_, value) = propval(urls::PARENT, "{\"http://test/int\": 1}", &opts).ok().unwrap();
    assert!(matches!(value, PropValue::NestedResource(_)));
    let e = propval(urls::PARENT, "{\"@id\": \"http://x\"}", &opts).err().unwrap();
    assert_eq!(e.message, "`@id` and `localId` are not allowed in anonymous resources");
    let e = propval("http://unknown", "1", &opts).err().unwrap();
    assert_eq!(e.error_type, AtomicErrorType::NotFoundError);
}

#[test]
fn the_parser_asks_for_what_it_needs() {
    let schema = empty_schema();
    let val = read_json("\"http://x\"").unwrap();
    match parse_propval(urls::PARENT, &val, None, &schema, &ParseOpts::default()) {
        Err(Stop::Ask(Question::Property(url))) => assert_eq!(url, urls::PARENT),
        _ => panic!("The datatype should be asked for"),
    }
    let schema = Schema {
        properties: vec![(urls::PARENT.to_string(), Ok(DataType::AtomicUrl))],
        literals: Vec::new(),
    };
    match parse_propval(urls::PARENT, &val, None, &schema, &ParseOpts::default()) {
        Err(Stop::Ask(Question::Literal { text, .. })) => assert_eq!(text, "http://x"),
        _ => panic!("The literal should be asked for"),
    }
}

#[test]
fn names_of_resources() {
    let opts = ParseOpts::default();
    let e = parse_text(r#"{"@id": "x"}"#, &opts).err().unwrap();
    assert_eq!(e.message, "Unable to parse @id x: Url does not start with http: x");
    let e = parse_text("{}", &opts).err().unwrap();
    assert_eq!(e.message, "No @id or localId found in resource");
    let e = parse_text(r#"{"https://atomicdata.dev/properties/localId": [1]}"#, &importing())
        .err()
        .unwrap();
    assert_eq!(e.message, "`localId` must be a string");
    assert_eq!(e.subject, Some("[1]".to_string()));
    let e = parse_text("[]", &opts).err().unwrap();
    assert_eq!(e.error_type, AtomicErrorType::OtherError);
    assert!(e.message.contains("expected a map"));
    // The last name counts.
    let r = parse_text(
        r#"{"@id": "http://a", "https://atomicdata.dev/properties/localId": "b"}"#,
        &importing(),
    )
    .ok()
    .unwrap();
    assert_eq!(r.subject, format!("{IMPORTER}/b"));
}

fn parse_commit(text: &str, server: Result<String, AtomicError>) -> Result<Resource, AtomicError> {
    let mut schema = empty_schema();
    loop {
        let url = match &server {
            Ok(url) => Ok(url.clone()),
            Err(e) => Err(e.copy()),
        };
        match parse_json_ad_commit_resource(text, url, &schema) {
            Ok(resource) => return Ok(resource),
            Err(Stop::Error(e)) => return Err(e),
            Err(Stop::Ask(Question::Property(url))) => {
                schema.properties.push((url, Ok(DataType::String)))
            }
            Err(Stop::Ask(question)) => answer(&mut schema, question),
        }
    }
}

#[test]
fn commits_are_named_by_their_signature() {
    let server = || Ok("http://server".to_string());
    let text = r#"{"https://atomicdata.dev/properties/subject": "http://a", "https://atomicdata.dev/properties/signature": "c2ln"}"#;
    let commit = parse_commit(text, server()).ok().unwrap();
    assert_eq!(commit.subject, "http://server/commits/c2ln");
    assert_eq!(text_of(&commit, urls::SUBJECT).unwrap(), "http://a");
    let e = parse_commit("{}", server()).err().unwrap();
    assert_eq!(e.message, "No subject field in Commit.");
    let unsigned = r#"{"https://atomicdata.dev/properties/subject": "http://a"}"#;
    let e = parse_commit(unsigned, server()).err().unwrap();
    assert_eq!(e.message, "No signature field in Commit.");
    let e = parse_commit(text, Err(AtomicError::other_error("no url".to_string()))).err().unwrap();
    assert_eq!(e.message, "no url");
    let e = parse_commit(
        r#"{"@id": "http://x", "https://atomicdata.dev/properties/subject": "http://a", "https://atomicdata.dev/properties/signature": "c2ln"}"#,
        server(),
    )
    .err()
    .unwrap();
    assert_eq!(
        e.message,
        "`@id` is not allowed in a resource with server generated subject."
    );
}

#[test]
fn lists_of_texts() {
    assert_eq!(parse_json_array(r#"["a", "b\n"]"#).ok().unwrap(), vec!["a", "b\n"]);
    assert!(parse_json_array(r#"["a", 1]"#).is_err());
    assert!(parse_json_array("{}").is_err());
}

#[test]
fn roots_that_cannot_be_imported() {
    let e = parse_json_ad_string("5").err().unwrap();
    assert_eq!(e.message, "Root JSON element must be an object or array.");
    let e = parse_json_ad_string("{").err().unwrap();
    assert!(e.message.starts_with("Invalid JSON: "));
    assert_eq!(e.error_type, AtomicErrorType::ParseError);
    let mut import = parse_json_ad_string(r#"[{"@id": "http://a"}, 5]"#).ok().unwrap();
    let e = import_all(&mut import, &ParseOpts::default()).err().unwrap();
    assert_eq!(e.message, "Wrong datatype, expected object, got: Number(5)");
    assert_eq!(import.done, 1);
    let mut import = parse_json_ad_string("[{}]").ok().unwrap();
    let e = import_all(&mut import, &ParseOpts::default()).err().unwrap();
    assert_eq!(
        e.message,
        "Unable to process resource in array. No @id or localId found in resource"
    );
    let mut import = parse_json_ad_string("{}").ok().unwrap();
    let e = import_all(&mut import, &ParseOpts::default()).err().unwrap();
    assert_eq!(e.message, "Unable to parse object. No @id or localId found in resource");
}

fn array(text: &str) -> Vec<JsonValue> {
    match read_json(text).unwrap() {
        JsonValue::Array(items) => items,
        _ => panic!("The text should be an array"),
    }
}

fn shown(items: &Vec<JsonValue>) -> Vec<String> {
    items.iter().map(show_json).collect()
}

#[test]
fn order_of_an_import() {
    let prop = |id: &str, parent: &str| {
        format!(
            r#"{{"https://atomicdata.dev/properties/isA":["https://atomicdata.dev/classes/Property"],"https://atomicdata.dev/properties/localId":"{id}","https://atomicdata.dev/properties/parent":"{parent}"}}"#
        )
    };
    let plain = |id: &str| format!(r#"{{"https://atomicdata.dev/properties/localId":"{id}"}}"#);
    let text = format!("[{},{},{}]", plain("a"), plain("b"), prop("p", "b"));
    let sorted = sort_properties_first(&array(&text));
    assert_eq!(shown(&sorted), vec![prop("p", "b"), plain("a"), plain("b")]);
    let pulled = pull_parents_of_props_to_front(&sorted);
    assert_eq!(shown(&pulled), vec![plain("b"), prop("p", "b"), plain("a")]);
    // A parent that is an address is not pulled.
    let text = format!("[{},{}]", prop("p", "http://b"), plain("b"));
    let items = array(&text);
    assert!(get_parent_to_pull(&items[0]).is_none());
    assert_eq!(shown(&pull_parents_of_props_to_front(&items)), shown(&items));
    assert_eq!(show_json(&find_parent_in_array("b", &items).unwrap()), plain("b"));
    assert!(find_parent_in_array("c", &items).is_none());
    // A parent that stands later is moved, not copied.
    let items = array(&format!("[{},{},{}]", plain("a"), plain("b"), prop("p", "b")));
    let pulled = pull_parents_of_props_to_front(&items);
    assert_eq!(shown(&pulled), vec![plain("b"), plain("a"), prop("p", "b")]);
    // Two properties with one parent.
    let items = array(&format!("[{},{},{}]", prop("p", "b"), prop("q", "b"), plain("b")));
    let pulled = pull_parents_of_props_to_front(&items);
    assert_eq!(shown(&pulled), vec![plain("b"), prop("p", "b"), prop("q", "b")]);
    // A parent that is a property itself stands after its own parent.
    let items = array(&format!("[{},{},{}]", prop("p", "q"), prop("q", "r"), plain("r")));
    let pulled = pull_parents_of_props_to_front(&items);
    assert_eq!(shown(&pulled), vec![plain("r"), prop("q", "r"), prop("p", "q")]);
    // Properties that are each the parent of the other are kept.
    let items = array(&format!("[{},{}]", prop("p", "q"), prop("q", "p")));
    let pulled = pull_parents_of_props_to_front(&items);
    assert_eq!(shown(&pulled), vec![prop("q", "p"), prop("p", "q")]);
    // The same document is kept once.
    let twice = array(&format!("[{},{}]", plain("a"), plain("a")));
    assert_eq!(pull_parents_of_props_to_front(&twice).len(), 1);
}

#[test]
fn imports_start_with_properties_and_their_parents() {
    let prop = |id: &str, parent: &str| {
        format!(
            r#"{{"https://atomicdata.dev/properties/isA":["https://atomicdata.dev/classes/Property"],"https://atomicdata.dev/properties/localId":"{id}","https://atomicdata.dev/properties/parent":"{parent}"}}"#
        )
    };
    let plain = |id: &str| format!(r#"{{"https://atomicdata.dev/properties/localId":"{id}"}}"#);
    let text = format!(
        "[{},{},{},{}]",
        plain("a"),
        prop("p", "b"),
        plain("b"),
        prop("q", "http://b")
    );
    let import = parse_json_ad_string(&text).ok().unwrap();
    assert_eq!(
        shown(&import.items),
        vec![plain("b"), prop("p", "b"), prop("q", "http://b"), plain("a")]
    );
}

#[test]
fn documents_read_back() {
    let text = r#"{"a":[1,2.5,"x\n",null,true],"b":{}}"#;
    let json = read_json(text).unwrap();
    assert_eq!(write_json(&json).unwrap(), text);
    assert!(json.same(&read_json(&write_json(&json).unwrap()).unwrap()));
    assert_eq!(debug_json(&read_json("[1]").unwrap()), "Array [Number(1)]");
    assert!(read_json("[1").is_err());
    // A number is written as it is held, and a text that is none becomes nothing.
    assert_eq!(write_json(&JsonValue::Number("1.50".to_string())).unwrap(), "1.5");
    assert_eq!(write_json(&JsonValue::Number("x".to_string())).unwrap(), "null");
    // Members are walked in the order of their names.
    let members = vec![
        ("b".to_string(), JsonValue::Null),
        ("a".to_string(), JsonValue::Bool(true)),
    ];
    assert_eq!(write_json(&JsonValue::Object(members)).unwrap(), r#"{"a":true,"b":null}"#);
}

#[test]
fn zeros_are_the_same() {
    let a = read_json("0.0").unwrap();
    let b = read_json("-0.0").unwrap();
    assert!(a.same(&b));
    assert!(!a.same(&read_json("0").unwrap()));
}

#[test]
fn saving_in_other_ways() {
    let mut opts = importing();
    opts.save = SaveOpts::DontSave;
    assert_eq!(start_save(&opts), SaveState::Done);
    opts.save = SaveOpts::Save;
    let state = start_save(&opts);
    assert_eq!(state, SaveState::Add);
    assert_eq!(continue_save(&opts, &None, 0, state, SaveEvent::Worked(true)), SaveState::Done);
    assert_eq!(
        continue_save(&opts, &None, 0, state, SaveEvent::Worked(false)),
        SaveState::Failed(SaveFailure::Action)
    );
    opts.save = SaveOpts::Commit;
    opts.signer = None;
    assert_eq!(
        continue_save(&opts, &None, 0, SaveState::Fetch, SaveEvent::Found(false)),
        SaveState::Failed(SaveFailure::NoSigner)
    );
    // The default agent signs where nobody else does.
    let default_agent = Some("http://default".to_string());
    assert_eq!(
        continue_save(&opts, &default_agent, 0, SaveState::Fetch, SaveEvent::Found(false)),
        SaveState::Sign
    );
    assert_eq!(find_signer(&opts, &default_agent), default_agent);
    assert_eq!(find_signer(&opts, &None), None);
    opts.signer = Some("http://signer".to_string());
    assert_eq!(find_signer(&opts, &default_agent), Some("http://signer".to_string()));
    opts.signer = None;
    let cause = || AtomicError::other_error("cause".to_string());
    assert_eq!(
        explain_failure(SaveFailure::NoSigner, "s", cause()).message,
        "No agent to sign Commit with. Either pass a `for_agent` or "
    );
    assert_eq!(
        explain_failure(SaveFailure::Apply, "s", cause()).message,
        "Failed to save s: cause"
    );
    assert_eq!(explain_failure(SaveFailure::Action, "s", cause()).message, "cause");
    assert!(!import_commit_opts(&opts).validate_rights);
    opts.for_agent = ForAgent::Public;
    let commit = import_commit_opts(&opts);
    assert!(commit.validate_rights && commit.validate_schema && commit.validate_signature);
    assert!(!commit.validate_timestamp && !commit.validate_previous_commit);
    assert!(commit.update_index);
}
