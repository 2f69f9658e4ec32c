use atomic_core::address::{parse_url, without_query};
use atomic_core::agents::ForAgent;
use atomic_core::chatroom::{
    PAGE_LIMIT, after_apply_commit_message, construct_chatroom, last_of_page, messages_query, next_page_url,
    order_messages, read_start,
};
use atomic_core::class_extender::{
    ClassExtender, CommitHandler, ResourceGetHandler, build_chatroom_extender,
    build_collection_extender, build_invite_extender, build_message_extender,
};
use atomic_core::endpoints::{
    Assigned, GetRoute, HandleGet, HandlePost, all_versions_endpoint, call_endpoint,
    explain_handler, handle_query_request, import_endpoint, is_endpoint, path_endpoint,
    post_resource, query_endpoint, set_response_subject, version_endpoint,
};
use atomic_core::errors::{AtomicError, AtomicErrorType};
use atomic_core::importer::{explain_fetch, plan_import, read_request};
use atomic_core::invite::{
    AgentStep, InviteAgent, InviteFailure, InviteStep, InviteTerms, Term, add_rights,
    advance_agent, before_apply_commit, explain_invite, explain_rights, invite_address,
    push_unique, read_agent, redirect, stored_address,
};
use atomic_core::parse::SaveOpts;
use atomic_core::search::{
    explain_add, explain_decode, explain_json, explain_update, extract_plain_text,
    get_description, get_resource_title, is_searched, resource_to_facet, subject_to_facet,
};
use atomic_core::text::{trim, trim_end};
use atomic_core::urls;
use atomic_core::values::{DataType, PropValue, Resource, ResourceResponse};
use atomic_core::web_sockets::{
    Action, Frame, WebSocketConnection, commit_message, error_message, explain_auth,
    explain_auth_json, explain_update_json, resource_message, update_message,
};
use atomic_core::y_sync::{
    Subscription, SubscribeStep, YSyncBroadcaster, advance_subscribe, start_subscribe,
    subscription_of,
};

fn pairs(list: &[(&str, &str)]) -> Vec<(String, String)> {
    list.iter().map(|(k, v)| (k.to_string(), v.to_string())).collect()
}

fn error(message: &str) -> AtomicError {
    AtomicError::other_error(message.to_string())
}

fn subject_of(index: usize) -> String {
    format!("http://example.com/{}", index)
}

#[test]
fn white_space_is_trimmed() {
    let blank: Vec<char> =
        ('\0'..=char::MAX).filter(|c| trim(&c.to_string()).is_empty()).collect();
    assert_eq!(blank.len(), 25);
    assert!(blank.contains(&'\u{85}') && blank.contains(&'\u{3000}'));
    assert!(!blank.contains(&'\u{200b}'));
    assert_eq!(trim(" \u{2003}a b\t\n"), "a b");
    assert_eq!(trim_end(" a\u{a0}"), " a");
}

#[test]
fn facet_contains_subfacet() {
    let facet = |index: usize| {
        let parents: Vec<String> = (0..index).rev().map(subject_of).collect();
        resource_to_facet(Ok(parents), &subject_of(index)).ok().unwrap()
    };
    let index_facet = facet(2);
    let query_facet_direct_parent = facet(1);
    let query_facet_root = facet(0);

    assert!(query_facet_direct_parent.is_prefix_of(&index_facet));
    assert!(query_facet_root.is_prefix_of(&index_facet));
    assert!(!index_facet.is_prefix_of(&query_facet_root));
    assert_eq!(
        index_facet.encoded_str(),
        "http://example.com/0\0http://example.com/1\0http://example.com/2"
    );
    assert_eq!(
        subject_to_facet("http://a".to_string()).ok().unwrap().encoded_str(),
        "http://a"
    );
    // The empty facet is the root.
    let root = resource_to_facet(Ok(vec![]), "").ok().unwrap();
    assert!(root.is_prefix_of(&resource_to_facet(Ok(vec![String::new()]), "a").ok().unwrap()));
    assert!(!root.is_prefix_of(&root));
    assert_eq!(resource_to_facet(Err(error("tree")), "s").err().unwrap().message, "tree");
}

fn resource(propvals: Vec<(&str, &str, DataType)>) -> Resource {
    Resource {
        subject: "http://r".to_string(),
        propvals: propvals
            .into_iter()
            .map(|(p, text, datatype)| {
                (p.to_string(), PropValue::Literal { text: text.to_string(), datatype })
            })
            .collect(),
    }
}

#[test]
fn titles_and_descriptions() {
    let r = resource(vec![
        (urls::FILENAME, "f", DataType::String),
        (urls::SHORTNAME, "s", DataType::Slug),
        (urls::NAME, "n", DataType::String),
    ]);
    assert_eq!(get_resource_title(&r), "n");
    let r = resource(vec![
        (urls::FILENAME, "f", DataType::String),
        (urls::SHORTNAME, "s", DataType::Slug),
    ]);
    assert_eq!(get_resource_title(&r), "s");
    assert_eq!(get_resource_title(&resource(vec![(urls::FILENAME, "f", DataType::String)])), "f");
    assert_eq!(get_resource_title(&resource(vec![])), "http://r");
    assert_eq!(
        get_resource_title(&resource(vec![(urls::NAME, "1", DataType::Integer)])),
        "http://r"
    );
    let r = resource(vec![(urls::DESCRIPTION, "d", DataType::Markdown)]);
    assert_eq!(get_description(&r), Some("d".to_string()));
    let r = resource(vec![(urls::DESCRIPTION, "d", DataType::String)]);
    assert_eq!(get_description(&r), None);
    assert!(is_searched("http://a/b"));
    assert!(!is_searched("http://a/commits/b"));
}

#[test]
fn plain_text_of_documents() {
    let texts = vec![" <p>One</p>".to_string(), "<b\nclass=\"x\">two</b> a < b ".to_string()];
    assert_eq!(extract_plain_text(&texts), "One  two  a < b");
    assert_eq!(extract_plain_text(&vec!["1 > 0 <i>".to_string()]), "1 > 0");
    assert_eq!(
        explain_add("s", &error("e")).message,
        "Failed to add resource to search index: s. Error: e"
    );
    assert_eq!(
        explain_json("s", "e").message,
        "Failed to convert resource to json for search indexing. Subject: s. Error: e"
    );
    assert_eq!(explain_decode("e").message, "Failed to decode YDoc update: e");
    assert_eq!(explain_update("e").message, "Failed to apply YDoc update: e");
}

fn text(conn: &mut WebSocketConnection, message: &str) -> Action {
    conn.handle(Frame::Text(message.to_string()), 7)
}

#[test]
fn messages_of_a_client() {
    let mut conn = WebSocketConnection::new(ForAgent::Public, 0);
    assert!(matches!(text(&mut conn, "GET http://a"), Action::GetResource(s, ForAgent::Public) if s == "http://a"));
    assert!(matches!(text(&mut conn, "GET aGET b"), Action::GetResource(s, _) if s == "a"));
    assert!(matches!(text(&mut conn, "GET "), Action::GetResource(s, _) if s.is_empty()));
    assert!(matches!(text(&mut conn, "AUTHENTICATE {}"), Action::Authenticate(s) if s == "{}"));
    assert!(matches!(text(&mut conn, "SUBSCRIBE x"), Action::Subscribe(s, ForAgent::Public) if s == "x"));
    assert!(matches!(text(&mut conn, "SUBSCRIBE x"), Action::Subscribe(_, _)));
    assert_eq!(conn.subscribed, vec!["x"]);
    assert!(matches!(text(&mut conn, "UNSUBSCRIBE y"), Action::Nothing));
    assert_eq!(conn.subscribed, vec!["x"]);
    assert!(matches!(text(&mut conn, "UNSUBSCRIBE x"), Action::Nothing));
    assert!(conn.subscribed.is_empty());
    assert!(
        matches!(text(&mut conn, "Y_SYNC_SUBSCRIBE {}"), Action::YSubscribe(s, ForAgent::Public) if s == "{}")
    );
    let mut other = WebSocketConnection::new(ForAgent::AgentSubject("http://me".to_string()), 0);
    assert!(
        matches!(text(&mut other, "SUBSCRIBE x"), Action::Subscribe(_, ForAgent::AgentSubject(a)) if a == "http://me")
    );
    assert!(
        matches!(text(&mut conn, "Y_SYNC_UNSUBSCRIBE {}"), Action::YUnsubscribe(s) if s == "{}")
    );
    assert!(matches!(text(&mut conn, "Y_SYNC_UPDATE {}"), Action::YUpdate(s) if s == "{}"));
    assert!(
        matches!(text(&mut conn, "HELLO"), Action::Send(s) if s == "ERROR Unknown message: HELLO")
    );
    assert!(
        matches!(conn.handle(Frame::Binary, 7), Action::Send(s) if s == "ERROR Binary not supported")
    );
    assert!(matches!(conn.handle(Frame::Close, 7), Action::Close));
    assert!(matches!(conn.handle(Frame::Other, 7), Action::Stop));
    assert_eq!(conn.hb, 0);
    assert!(matches!(conn.handle(Frame::Ping(vec![1]), 7), Action::Pong(b) if b == vec![1]));
    assert_eq!(conn.hb, 7);
    assert!(matches!(conn.handle(Frame::Pong, 8), Action::Nothing));
    assert_eq!(conn.hb, 8);
}

#[test]
fn clients_prove_their_agent_and_stay_alive() {
    let mut conn = WebSocketConnection::new(ForAgent::Public, 0);
    assert_eq!(conn.authenticated(Err("no".to_string())), "ERROR no");
    assert!(matches!(conn.agent, ForAgent::Public));
    let agent = ForAgent::AgentSubject("http://agent".to_string());
    assert_eq!(conn.authenticated(Ok(agent)), "AUTHENTICATED");
    assert!(matches!(&conn.agent, ForAgent::AgentSubject(s) if s == "http://agent"));
    assert!(!conn.timed_out(10_000_000_000));
    assert!(conn.timed_out(10_000_000_001));
    assert_eq!(explain_auth_json("e"), "Invalid AUTHENTICATE JSON: e");
    assert_eq!(explain_auth("e"), "Authentication failed: e");
    assert_eq!(explain_update_json("e"), "Invalid Y_SYNC_UPDATE JSON: e");
    assert_eq!(error_message("e"), "ERROR e");
    assert_eq!(resource_message("{}"), "RESOURCE {}");
    assert_eq!(commit_message("{}"), "COMMIT {}");
    assert_eq!(update_message("{}"), "Y_SYNC_UPDATE {}");
}

#[test]
fn updates_go_to_all_clients_of_a_document() {
    let mut broadcaster = YSyncBroadcaster::new();
    let writer = Subscription { addr: 1, can_write: true };
    let reader = Subscription { addr: 2, can_write: false };
    assert!(broadcaster.recipients("s", "p", Some(1)).is_empty());
    broadcaster.subscribe("s", "p", writer);
    broadcaster.subscribe("s", "p", writer);
    broadcaster.subscribe("s", "p", reader);
    broadcaster.subscribe("s", "q", reader);
    assert_eq!(broadcaster.recipients("s", "p", Some(1)), vec![1, 2]);
    assert!(broadcaster.recipients("s", "p", Some(2)).is_empty());
    assert!(broadcaster.recipients("s", "p", Some(3)).is_empty());
    assert!(broadcaster.recipients("s", "p", None).is_empty());
    assert!(broadcaster.recipients("s", "q", Some(1)).is_empty());
    broadcaster.unsubscribe("s", "p", 2);
    assert_eq!(broadcaster.recipients("s", "p", Some(1)), vec![1]);
    broadcaster.unsubscribe("s", "p", 1);
    assert!(broadcaster.recipients("s", "p", Some(1)).is_empty());
    broadcaster.unsubscribe("x", "y", 1);
}

#[test]
fn subscribing_needs_rights() {
    assert_eq!(start_subscribe("http://you/a", "http://me"), SubscribeStep::Refused);
    let step = start_subscribe("http://me/a", "http://me");
    assert_eq!(step, SubscribeStep::GetResource);
    let step = advance_subscribe(step, true);
    assert_eq!(step, SubscribeStep::CheckWrite);
    assert_eq!(advance_subscribe(step, true), SubscribeStep::Subscribed(true));
    let step = advance_subscribe(step, false);
    assert_eq!(step, SubscribeStep::CheckRead);
    assert_eq!(advance_subscribe(step, true), SubscribeStep::Subscribed(false));
    assert_eq!(advance_subscribe(step, false), SubscribeStep::Refused);
    let writer = subscription_of(SubscribeStep::Subscribed(true), 7);
    assert_eq!(writer, Some(Subscription { addr: 7, can_write: true }));
    assert_eq!(subscription_of(SubscribeStep::Refused, 7), None);
    let mut broadcaster = YSyncBroadcaster::new();
    assert!(!broadcaster.settle(SubscribeStep::Refused, "s", "p", 6));
    assert!(broadcaster.settle(SubscribeStep::Subscribed(true), "s", "p", 7));
    assert!(broadcaster.settle(SubscribeStep::Subscribed(false), "s", "p", 8));
    assert_eq!(broadcaster.recipients("s", "p", Some(7)), vec![7, 8]);
    assert!(broadcaster.recipients("s", "p", Some(8)).is_empty());
    assert!(broadcaster.recipients("s", "p", Some(6)).is_empty());
}

fn terms() -> InviteTerms {
    InviteTerms {
        invite: "http://s/i".to_string(),
        write: Term::Value(true),
        target: true,
        usages_left: Term::Value(3),
        address: true,
        expires_at: Term::Missing,
        now: 100,
    }
}

fn accept(terms: &InviteTerms, events: &[bool]) -> InviteStep {
    let mut step = terms.start();
    for event in events {
        step = terms.construct_invite_redirect(step, *event);
    }
    step
}

#[test]
fn accepting_an_invite() {
    let t = terms();
    assert_eq!(accept(&t, &[]), InviteStep::CheckTarget);
    assert_eq!(accept(&t, &[true]), InviteStep::SetUsages(2));
    assert_eq!(accept(&t, &[true; 2]), InviteStep::SaveInvite);
    assert_eq!(accept(&t, &[true; 3]), InviteStep::FindCreator("http://s/i".to_string()));
    assert_eq!(accept(&t, &[true; 4]), InviteStep::CheckCreator);
    assert_eq!(accept(&t, &[true; 5]), InviteStep::Grant(true));
    assert_eq!(accept(&t, &[true; 6]), InviteStep::GrantRead);
    assert_eq!(accept(&t, &[true; 7]), InviteStep::Redirect);
    assert_eq!(accept(&t, &[true; 8]), InviteStep::Done);
    let mut t = terms();
    t.write = Term::Missing;
    t.usages_left = Term::Missing;
    assert_eq!(accept(&t, &[true; 3]), InviteStep::Grant(false));
    assert_eq!(accept(&t, &[true; 4]), InviteStep::Redirect);
}

#[test]
fn refusing_an_invite() {
    let failed = InviteStep::Failed;
    let mut t = terms();
    t.write = Term::Wrong;
    assert_eq!(accept(&t, &[]), failed(InviteFailure::Action));
    t = terms();
    t.target = false;
    assert_eq!(accept(&t, &[]), failed(InviteFailure::NoTarget));
    t = terms();
    assert_eq!(accept(&t, &[false]), failed(InviteFailure::TargetMissing));
    assert_eq!(accept(&t, &[true, true, false]), failed(InviteFailure::NotSaved));
    assert_eq!(
        accept(&t, &[true, true, true, true, false]),
        failed(InviteFailure::CreatorNotAllowed)
    );
    t.usages_left = Term::Value(0);
    assert_eq!(accept(&t, &[true]), failed(InviteFailure::NoUsagesLeft));
    t.usages_left = Term::Value(-1);
    assert_eq!(accept(&t, &[true]), failed(InviteFailure::NoUsagesLeft));
    t.usages_left = Term::Value(i64::MIN);
    assert_eq!(accept(&t, &[true]), failed(InviteFailure::NoUsagesLeft));
    t.usages_left = Term::Value(1);
    assert_eq!(accept(&t, &[true]), InviteStep::SetUsages(0));
    t.usages_left = Term::Wrong;
    assert_eq!(accept(&t, &[true]), failed(InviteFailure::Action));
    t.usages_left = Term::Missing;
    t.expires_at = Term::Value(99);
    assert_eq!(accept(&t, &[true]), failed(InviteFailure::Expired));
    t.expires_at = Term::Wrong;
    assert_eq!(accept(&t, &[true]), failed(InviteFailure::Action));
    t.expires_at = Term::Value(101);
    assert_eq!(accept(&t, &[true]), InviteStep::FindCreator("http://s/i".to_string()));
    t.expires_at = Term::Value(100);
    assert_eq!(accept(&t, &[true]), InviteStep::FindCreator("http://s/i".to_string()));
    let say = |f| explain_invite(f, "i", "t", error("c")).message;
    assert_eq!(say(InviteFailure::NoTarget), "Invite i does not have a target. c");
    assert_eq!(say(InviteFailure::TargetMissing), "Target for invite does not exist: t");
    assert_eq!(say(InviteFailure::NoUsagesLeft), "No usages left for this invite");
    assert_eq!(say(InviteFailure::NotSaved), "Unable to save updated Invite. c");
    assert_eq!(say(InviteFailure::Expired), "Invite is no longer valid");
    assert_eq!(
        say(InviteFailure::CreatorNotAllowed),
        "Invite creator is not allowed to write the target. c"
    );
    assert_eq!(say(InviteFailure::Action), "c");
}

#[test]
fn who_accepts_an_invite() {
    assert!(matches!(read_agent(&pairs(&[("x", "y")])), Ok(InviteAgent::Nobody)));
    assert!(
        matches!(read_agent(&pairs(&[("agent", "a"), ("agent", "b")])), Ok(InviteAgent::Known(a)) if a == "b")
    );
    assert!(
        matches!(read_agent(&pairs(&[("public-key", "k")])), Ok(InviteAgent::New(k)) if k == "k")
    );
    assert_eq!(
        read_agent(&pairs(&[("public-key", "k"), ("agent", "a")])).err().unwrap().message,
        "Either publicKey or agent can be set - not both at the same time."
    );
    assert_eq!(advance_agent(AgentStep::FromKey, true), AgentStep::LookUp);
    assert_eq!(advance_agent(AgentStep::LookUp, true), AgentStep::GrantSelf);
    assert_eq!(advance_agent(AgentStep::LookUp, false), AgentStep::Save);
    assert_eq!(advance_agent(AgentStep::Save, true), AgentStep::GrantSelf);
    assert_eq!(advance_agent(AgentStep::Save, false), AgentStep::Failed);
    assert_eq!(advance_agent(AgentStep::GrantSelf, true), AgentStep::Ready);
    assert_eq!(invite_address("http://s/i?agent=a").ok().unwrap(), "http://s/i");
    let r = redirect("http://s/i?agent=a", "http://t", "http://a");
    assert_eq!(r.subject, "http://s/i?agent=a");
    assert_eq!(r.values[0].0, urls::DESTINATION);
    assert!(matches!(&r.values[0].1, Assigned::Url(t) if t == "http://t"));
    assert_eq!(r.values[1].0, urls::REDIRECT_AGENT);
    assert!(matches!(&r.values[1].1, Assigned::Url(a) if a == "http://a"));
    assert_eq!(r.values[2].0, urls::IS_A);
    assert!(matches!(&r.values[2].1, Assigned::Subjects(c) if c == &vec![urls::REDIRECT]));
    assert_eq!(stored_address("http://s/i?agent=a"), "http://s/i");
    assert_eq!(stored_address("i?agent=a"), "i?agent=a");
}

#[test]
fn rights_of_agents() {
    assert_eq!(add_rights("http://a", true).ok().unwrap(), urls::WRITE);
    assert_eq!(add_rights("http://a", false).ok().unwrap(), urls::READ);
    assert!(add_rights("a", false).is_err());
    let mut agents = vec!["http://a".to_string()];
    push_unique(&mut agents, "http://a");
    push_unique(&mut agents, "http://b");
    assert_eq!(agents, vec!["http://a", "http://b"]);
    assert_eq!(
        explain_rights(&error("e")).message,
        "Unable to save updated target resource. e"
    );
    assert_eq!(before_apply_commit(Ok("t".to_string())).ok().unwrap(), "t");
    assert_eq!(
        before_apply_commit(Err(error("e"))).err().unwrap().message,
        "Invite does not have required Target attribute"
    );
}

#[test]
fn pages_of_a_chat_room() {
    assert_eq!(read_start(&pairs(&[]), 9).ok().unwrap(), 9);
    assert_eq!(
        read_start(&pairs(&[("before-timestamp", "5"), ("before-timestamp", "-6")]), 9)
            .ok()
            .unwrap(),
        -6
    );
    assert_eq!(
        read_start(&pairs(&[("before-timestamp", "x"), ("before-timestamp", "6")]), 9)
            .err()
            .unwrap()
            .message,
        "invalid digit found in string"
    );
    assert!(read_start(&pairs(&[("before-timestamp", "9223372036854775808")]), 9).is_err());
    let q = messages_query("http://room", -5, &ForAgent::Public);
    assert_eq!(q.limit, Some(PAGE_LIMIT + 1));
    assert!(matches!(&q.end_val, Some(PropValue::Literal { text, .. }) if text == "-5"));
    assert!(matches!(&q.value, Some(PropValue::Literal { text, .. }) if text == "http://room"));
    assert_eq!(q.property, Some(urls::PARENT.to_string()));
    assert_eq!(q.sort_by, Some(urls::CREATED_AT.to_string()));
    assert!(q.sort_desc && q.include_nested && !q.include_external);
    let messages = vec!["c".to_string(), "b".to_string(), "a".to_string()];
    assert_eq!(last_of_page(50, &messages).ok().unwrap(), None);
    assert_eq!(last_of_page(51, &messages).ok().unwrap(), Some("a".to_string()));
    assert_eq!(
        last_of_page(51, &vec![]).err().unwrap().message,
        "There are more messages than the page limit"
    );
    assert_eq!(order_messages(&messages), vec!["a", "b", "c"]);
    assert_eq!(
        next_page_url("http://s/room", "5").ok().unwrap(),
        "http://s/room?before-timestamp=5"
    );
    assert!(next_page_url("room", "5").is_err());
    let time = || Ok("5".to_string());
    let page = construct_chatroom("http://s/room", 50, &vec![], &messages, time()).ok().unwrap();
    assert_eq!(page.values.len(), 1);
    assert_eq!(page.values[0].0, urls::MESSAGES);
    assert!(matches!(&page.values[0].1, Assigned::Subjects(s) if s == &vec!["a", "b", "c"]));
    let page =
        construct_chatroom("http://s/room", 51, &messages, &messages, time()).ok().unwrap();
    assert_eq!(page.values[0].0, urls::NEXT_PAGE);
    assert!(
        matches!(&page.values[0].1, Assigned::Url(u) if u == "http://s/room?before-timestamp=5")
    );
    let late = construct_chatroom("http://s/room", 51, &messages, &messages, Err(error("e")));
    assert_eq!(late.err().unwrap().message, "e");
    assert!(construct_chatroom("http://s/room", 51, &vec![], &messages, time()).is_err());
}

#[test]
fn new_messages_are_told() {
    let parent = || Ok("room".to_string());
    assert_eq!(
        after_apply_commit_message(&None, parent()).ok().unwrap(),
        Some("room".to_string())
    );
    assert_eq!(
        after_apply_commit_message(&Some("c".to_string()), Err(error("e"))).ok().unwrap(),
        None
    );
    assert_eq!(
        after_apply_commit_message(&None, Err(error("e"))).err().unwrap().message,
        "Message must have a Parent!"
    );
}

#[test]
fn requests_to_import() {
    let ok = pairs(&[("parent", "http://p"), ("overwrite-outside", "true")]);
    let request = read_request(&ok, b"[]".to_vec()).ok().unwrap();
    assert_eq!(request.parent, "http://p");
    assert!(request.overwrite_outside);
    assert_eq!(request.json, Some("[]".to_string()));
    assert_eq!(request.url, None);
    let signer = || Ok("http://signer".to_string());
    let agent = ForAgent::AgentSubject("http://a".to_string());
    let (json, opts) =
        plan_import(request, Some("{}".to_string()), signer(), &agent).ok().unwrap();
    assert_eq!(json, "{}");
    assert_eq!(opts.importer, Some("http://p".to_string()));
    assert_eq!(opts.signer, Some("http://signer".to_string()));
    assert_eq!(opts.save, SaveOpts::Commit);
    let e = read_request(&pairs(&[("parent", "p"), ("json", "x")]), vec![]).err().unwrap();
    assert_eq!(e.message, "JSON must be POSTed in the body");
    let e = read_request(&pairs(&[]), vec![]).err().unwrap();
    assert_eq!(e.message, "No parent specified for importer");
    let e = read_request(&ok, vec![255]).err().unwrap();
    assert!(e.message.starts_with("Error while decoding body, expected a JSON string: "));
    let e = read_request(&pairs(&[("parent", "p"), (urls::IMPORTER_JSON, "x")]), vec![]);
    assert_eq!(e.err().unwrap().message, "JSON must be POSTed in the body");
    let long = pairs(&[(urls::IMPORTER_PARENT, "p"), (urls::IMPORTER_URL, "u")]);
    let request = read_request(&long, vec![]).ok().unwrap();
    assert_eq!(request.parent, "p");
    assert_eq!(request.url, Some("u".to_string()));
    let request = read_request(&pairs(&[("parent", "p"), ("url", "u")]), vec![]).ok().unwrap();
    assert_eq!(request.url, Some("u".to_string()));
    assert_eq!(request.json, None);
    let e = plan_import(request, None, signer(), &agent).err().unwrap();
    assert_eq!(
        e.message,
        "No JSON specified for importer. Pass a `url` query param, or post a JSON-AD body."
    );
    let request = read_request(&ok, b"[]".to_vec()).ok().unwrap();
    let e = plan_import(request, None, signer(), &ForAgent::Public).err().unwrap();
    assert_eq!(e.message, "No agent specified for importer");
    let request = read_request(&ok, b"[]".to_vec()).ok().unwrap();
    assert_eq!(plan_import(request, None, Err(error("s")), &agent).err().unwrap().message, "s");
    assert_eq!(explain_fetch("u", &error("e")).message, "Error while fetching u: e");
}

#[test]
fn routes_of_the_server() {
    let endpoints = vec![
        query_endpoint(),
        path_endpoint(),
        version_endpoint(),
        all_versions_endpoint(),
        import_endpoint(),
    ];
    assert!(is_endpoint(&endpoints, "/query"));
    assert!(!is_endpoint(&endpoints, "/nothing"));
    assert_eq!(
        call_endpoint(&endpoints, "http://s/version?commit=c").ok().unwrap(),
        GetRoute::Handle(2, HandleGet::Version)
    );
    assert_eq!(call_endpoint(&endpoints, "http://s/import").ok().unwrap(), GetRoute::Show(4));
    assert_eq!(
        call_endpoint(&endpoints, "http://s/nothing").err().unwrap().message,
        "No endpoint found for http://s/nothing"
    );
    assert_eq!(
        post_resource(&endpoints, "http://s/import?parent=p").ok().unwrap(),
        (4, HandlePost::Import)
    );
    let e = post_resource(&endpoints, "http://s/query").err().unwrap();
    assert_eq!(e.message, "Cannot post here - no Endpoint Post handler found");
    assert_eq!(e.error_type, AtomicErrorType::MethodNotAllowed);
    assert_eq!(e.subject, Some("http://s/query".to_string()));
    assert_eq!(
        explain_handler(&endpoints[0], &error("e")).message,
        "Error handling query Endpoint: e"
    );
    let url = parse_url("http://s/query?a=b%20c&d=").ok().unwrap();
    assert!(handle_query_request(&url));
    assert_eq!(url.pairs, pairs(&[("a", "b c"), ("d", "")]));
    assert_eq!(url.path, "/query");
    assert!(!handle_query_request(&parse_url("http://s/query").ok().unwrap()));
    assert_eq!(without_query("http://s/query?a=b#c").ok().unwrap(), "http://s/query#c");
}

#[test]
fn endpoints_as_resources() {
    let shown = query_endpoint().to_resource(Ok("http://s".to_string())).ok().unwrap();
    assert_eq!(shown.subject, "http://s/query");
    assert_eq!(shown.values.len(), 4);
    assert_eq!(shown.values[0].0, urls::DESCRIPTION);
    assert!(matches!(&shown.values[1].1, Assigned::Text(s) if s == "query"));
    assert!(matches!(&shown.values[2].1, Assigned::Subjects(s) if s == &vec![urls::ENDPOINT]));
    assert!(matches!(&shown.values[3].1, Assigned::Subjects(s) if s.len() == 8));
    assert_eq!(query_endpoint().to_resource(Err(error("e"))).err().unwrap().message, "e");
    let response = ResourceResponse::ResourceWithReferenced(resource(vec![]), vec![resource(vec![])]);
    match set_response_subject(response, "http://asked") {
        ResourceResponse::ResourceWithReferenced(r, others) => {
            assert_eq!(r.subject, "http://asked");
            assert_eq!(others[0].subject, "http://r");
        }
        _ => panic!("The response should keep what it refers to"),
    }
}

#[test]
fn extenders_of_classes() {
    let extender = build_invite_extender();
    let classes = |c: &str| Some(Ok(vec!["http://x".to_string(), c.to_string()]));
    assert!(extender.resource_has_extender(classes(urls::INVITE)).ok().unwrap());
    assert!(!extender.resource_has_extender(classes("http://y")).ok().unwrap());
    assert!(!extender.resource_has_extender(None).ok().unwrap());
    assert_eq!(
        extender.resource_has_extender(Some(Err(error("e")))).err().unwrap().message,
        "e"
    );
    assert_eq!(extender.before_commit, Some(CommitHandler::Invite));
    assert_eq!(build_collection_extender().class, urls::COLLECTION);
    assert_eq!(build_chatroom_extender().on_resource_get, Some(ResourceGetHandler::ChatRoom));
    assert_eq!(build_message_extender().after_commit, Some(CommitHandler::Message));
    let plugin = ClassExtender::from_plugin("http://c", 3);
    assert_eq!(plugin.class, "http://c");
    assert_eq!(plugin.on_resource_get, Some(ResourceGetHandler::Plugin(3)));
}
