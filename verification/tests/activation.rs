//! Activation, grants and lifetime, driven through the engine directly.

use mcp_locator::activation::{
    launch_plan, ActivateError, ConnectionInfo, Effect, Engine, GrantKind, DEFAULT_IDLE_TIMEOUT_SECS,
};
use mcp_locator::audit::AuditLog;
use mcp_locator::catalog::{enumerate, Entry, EnumerateOptions, CardContent, CardFile};
use mcp_locator::consent::{ConsentScope, ConsentState, ConsentStore};
use mcp_locator::dirs::{Platform, Root, Tier};
use mcp_locator::env::Env;
use mcp_locator::json::Json;
use mcp_locator::server::consent_query_response;

const ECHO_SERVER: &str = "/opt/test/echo-server";

fn s(v: &str) -> Json {
    Json::String(v.to_string())
}

fn obj(members: Vec<(&str, Json)>) -> Json {
    Json::Object(members.into_iter().map(|(k, v)| (k.to_string(), v)).collect())
}

fn entry_from(card: Json) -> Entry {
    let name = match card.get("name") {
        Some(Json::String(n)) => n.clone(),
        _ => panic!("fixture cards are named"),
    };
    let file = CardFile { path: format!("/reg/{name}.card.json"), file_name: format!("{name}.card.json"), content: CardContent::Parsed(card) };
    let options = EnumerateOptions {
        roots: vec![Root { tier: Tier::User, path: "/reg".to_string() }],
        lookup: Env::empty(),
        include_orphaned: true,
    };
    let present = |p: &str| p == ECHO_SERVER || p == "/opt/test/shared-server";
    enumerate(&options, &vec![vec![file]], Platform::Unix, &present).entries.into_iter().next().expect("card must be registered")
}

fn stdio_card(name: &str, args: Option<Vec<&str>>) -> Json {
    let mut launch = vec![("type", s("stdio")), ("command", s(ECHO_SERVER))];
    if let Some(a) = args {
        launch.push(("args", Json::Array(a.into_iter().map(s).collect())));
    }
    obj(vec![
        ("name", s(name)),
        ("version", s("1.0.0")),
        ("description", s("echo fixture")),
        ("local", obj(vec![("launch", obj(launch))])),
    ])
}

fn shared_card(name: &str) -> Json {
    obj(vec![
        ("name", s(name)),
        ("version", s("1.0.0")),
        ("description", s("shared fixture")),
        (
            "local",
            obj(vec![
                ("launch", obj(vec![("type", s("executable")), ("command", s("/opt/test/shared-server"))])),
                ("endpoint", obj(vec![("type", s("unix-socket")), ("address", s("/run/shared.sock"))])),
            ]),
        ),
    ])
}

fn engine() -> Engine {
    Engine::new(ConsentStore::load(Platform::Unix, "/state"), AuditLog::disabled(), 77)
}

fn granted_engine(entry: &Entry) -> Engine {
    let mut store = ConsentStore::load(Platform::Unix, "/state");
    store.grant(&entry.name, &entry.launch_hash, "echo", ConsentScope::User);
    Engine::new(store, AuditLog::disabled(), 77)
}

/// Take a stdio grant, the relay listening at `address`.
fn take_stdio(engine: &mut Engine, entry: &Entry, connection: u64, pid: Option<u32>, address: &str) -> String {
    let pending = engine.activate(entry, connection, pid).expect("activation must be decided");
    assert_eq!(pending.kind(), GrantKind::Stdio);
    let relay = ConnectionInfo { transport: "unix-socket".to_string(), address: address.to_string() };
    engine.complete_stdio(pending, Ok(relay)).expect("activation must succeed").grant_id
}

fn audit_events(effects: &[Effect]) -> Vec<String> {
    effects
        .iter()
        .filter_map(|e| match e {
            Effect::Audit { event, .. } => Some(event.clone()),
            _ => None,
        })
        .collect()
}

#[test]
fn activation_without_consent_is_refused() {
    let entry = entry_from(stdio_card("com.example.echo", None));
    let mut engine = engine();
    match engine.activate(&entry, 1, Some(42)) {
        Err(ActivateError::ConsentRequired { name, state }) => {
            assert_eq!(name, "com.example.echo");
            assert_eq!(state, ConsentState::NotAsked);
        },
        other => panic!("expected consent to be required, got {other:?}"),
    }
    let effects = engine.take_effects();
    assert_eq!(audit_events(&effects), vec!["activate-refused".to_string()]);
    match &effects[0] {
        Effect::Audit { detail, client_pid, .. } => {
            assert_eq!(detail, "NotAsked");
            assert_eq!(*client_pid, Some(42));
        },
        _ => unreachable!(),
    }
}

#[test]
fn editing_the_launch_command_invalidates_consent() {
    let approved = entry_from(stdio_card("com.example.echo", None));
    let mut engine = granted_engine(&approved);
    // Swap the launch command behind the approval; the card is otherwise identical.
    let edited = entry_from(stdio_card("com.example.echo", Some(vec!["--now-different"])));
    let result = engine.activate(&edited, 1, Some(42));
    assert!(
        matches!(result, Err(ActivateError::ConsentRequired { state: ConsentState::Stale, .. })),
        "a card edited after approval must not launch"
    );
}

#[test]
fn activate_starts_a_server_and_release_stops_it() {
    let entry = entry_from(stdio_card("com.example.echo", None));
    let mut engine = granted_engine(&entry);
    let grant = take_stdio(&mut engine, &entry, 1, Some(42), "/run/relay-1");
    assert_eq!(grant, "g77-1");
    assert_eq!(engine.grant_count("com.example.echo"), 1);
    assert!(engine.is_running("com.example.echo"));

    assert!(engine.release(&grant));
    assert_eq!(engine.grant_count("com.example.echo"), 0);
    assert!(!engine.is_running("com.example.echo"), "last release must stop the server");
    let effects = engine.take_effects();
    assert_eq!(audit_events(&effects), vec!["activate".to_string(), "release".to_string()]);
    assert!(matches!(effects.last(), Some(Effect::StopStdio { grant_id }) if grant_id == "g77-1"));
    assert!(!engine.release(&grant), "a released grant is gone");
}

#[test]
fn two_clients_hold_independent_grants() {
    let entry = entry_from(stdio_card("com.example.echo", None));
    let mut engine = granted_engine(&entry);
    let a = take_stdio(&mut engine, &entry, 1, Some(11), "/run/relay-a");
    let b = take_stdio(&mut engine, &entry, 2, Some(22), "/run/relay-b");
    assert_eq!(engine.grant_count("com.example.echo"), 2);
    assert_ne!(a, b);

    engine.release(&a);
    assert_eq!(engine.grant_count("com.example.echo"), 1);
    assert!(engine.is_running("com.example.echo"));
    engine.release(&b);
    assert!(!engine.is_running("com.example.echo"));
}

#[test]
fn a_dead_connection_releases_the_grants_it_held() {
    let entry = entry_from(stdio_card("com.example.echo", None));
    let mut engine = granted_engine(&entry);
    take_stdio(&mut engine, &entry, 7, Some(11), "/run/r1");
    take_stdio(&mut engine, &entry, 7, Some(11), "/run/r2");
    take_stdio(&mut engine, &entry, 8, Some(22), "/run/r3");
    assert_eq!(engine.grant_count("com.example.echo"), 3);

    engine.release_connection(7);
    assert_eq!(engine.grant_count("com.example.echo"), 1, "only the dead client's grants go");
    assert_eq!(engine.holders("com.example.echo"), vec![Some(22)]);
    assert!(engine.is_running("com.example.echo"));

    engine.release_connection(8);
    assert!(!engine.is_running("com.example.echo"));
}

#[test]
fn deactivate_refuses_while_in_use_and_names_the_holders() {
    let entry = entry_from(stdio_card("com.example.echo", None));
    let mut engine = granted_engine(&entry);
    take_stdio(&mut engine, &entry, 1, Some(4242), "/run/r");
    take_stdio(&mut engine, &entry, 2, None, "/run/r2");

    match engine.deactivate("com.example.echo", false) {
        Err(holders) => {
            assert!(holders.iter().any(|h| h.contains("4242")), "refusal must say who is holding it, got {holders:?}");
            assert_eq!(holders, vec!["pid 4242".to_string(), "unknown client".to_string()]);
        },
        Ok(_) => panic!("deactivate must refuse while a grant is held"),
    }
    let released = engine.deactivate("com.example.echo", true).expect("force must succeed");
    assert_eq!(released, 2);
    assert!(!engine.is_running("com.example.echo"));
    let effects = engine.take_effects();
    assert_eq!(
        audit_events(&effects),
        vec!["activate", "activate", "release", "release", "deactivate"].into_iter().map(String::from).collect::<Vec<_>>()
    );
}

#[test]
fn an_orphaned_card_never_launches() {
    let gone = obj(vec![
        ("name", s("com.example.gone")),
        ("version", s("1.0.0")),
        ("description", s("launch command does not exist")),
        ("local", obj(vec![("launch", obj(vec![("type", s("stdio")), ("command", s("/definitely/not/here/server.exe"))]))])),
    ]);
    let entry = entry_from(gone);
    assert!(entry.orphaned);
    let mut engine = granted_engine(&entry);
    assert!(matches!(engine.activate(&entry, 1, None), Err(ActivateError::Orphaned(_))));
}

#[test]
fn a_shared_server_is_counted_and_idles_before_it_stops() {
    let entry = entry_from(shared_card("com.example.shared"));
    let mut engine = granted_engine(&entry);

    let first = engine.activate(&entry, 1, Some(1)).unwrap();
    assert_eq!(first.kind(), GrantKind::Endpoint);
    assert!(first.needs_start(), "the first grant starts the shared child");
    let a = engine.complete_shared(first, Ok(())).unwrap();
    assert_eq!(a.connection.transport, "unixsocket");
    assert_eq!(a.connection.address, "/run/shared.sock");

    let second = engine.activate(&entry, 2, Some(2)).unwrap();
    assert!(!second.needs_start(), "a running shared child is reused");
    let b = engine.complete_shared(second, Ok(())).unwrap();

    engine.release(&a.grant_id);
    assert!(engine.is_running("com.example.shared"));
    engine.release(&b.grant_id);
    assert_eq!(engine.grant_count("com.example.shared"), 0);
    assert!(engine.is_running("com.example.shared"), "the idle window keeps the server up");
    let effects = engine.take_effects();
    assert!(matches!(
        effects.last(),
        Some(Effect::ArmIdle { name, seconds }) if name == "com.example.shared" && *seconds == DEFAULT_IDLE_TIMEOUT_SECS
    ));

    // A grant inside the window cancels the pending stop and reuses the child.
    let third = engine.activate(&entry, 3, None).unwrap();
    assert!(!third.needs_start());
    assert!(matches!(engine.take_effects().last(), Some(Effect::CancelIdle { name }) if name == "com.example.shared"));
    let c = engine.complete_shared(third, Ok(())).unwrap();
    engine.release(&c.grant_id);

    // Once the window runs out with no grant, the server stops.
    engine.reap_idle(&vec!["com.example.shared".to_string()]);
    assert!(!engine.is_running("com.example.shared"));
    let effects = engine.take_effects();
    assert!(effects.iter().any(|e| matches!(e, Effect::StopShared { name } if name == "com.example.shared")));
    assert_eq!(audit_events(&effects).last().map(String::as_str), Some("idle-shutdown"));
}

#[test]
fn a_failed_start_takes_no_grant() {
    let entry = entry_from(stdio_card("com.example.echo", None));
    let mut engine = granted_engine(&entry);
    let pending = engine.activate(&entry, 1, None).unwrap();
    match engine.complete_stdio(pending, Err("spawn failed".to_string())) {
        Err(ActivateError::Io(m)) => assert_eq!(m, "spawn failed"),
        other => panic!("expected an I/O failure, got {other:?}"),
    }
    assert_eq!(engine.grant_count("com.example.echo"), 0);
}

#[test]
fn errors_read_as_sentences() {
    assert_eq!(ActivateError::UnknownServer("a.b".into()).message(), "unknown server: a.b");
    assert_eq!(
        ActivateError::ConsentRequired { name: "a.b".into(), state: ConsentState::Stale }.message(),
        "consent required for a.b (currently Stale); grant it interactively before activating"
    );
    assert_eq!(ActivateError::Orphaned("a.b".into()).message(), "a.b is orphaned: its launch command is missing");
    assert_eq!(
        ActivateError::NotActivatable("a.b".into()).message(),
        "a.b declares no launch command, so it cannot be started"
    );
}

#[test]
fn the_launch_plan_carries_the_whole_stanza() {
    let card = obj(vec![
        ("name", s("a.b")),
        ("version", s("1")),
        ("description", s("x")),
        (
            "local",
            obj(vec![(
                "launch",
                obj(vec![
                    ("type", s("stdio")),
                    ("command", s(ECHO_SERVER)),
                    ("args", Json::Array(vec![s("--serve"), s("-v")])),
                    ("cwd", s("/tmp")),
                    ("env", obj(vec![("A", s("1")), ("B", Json::Bool(true)), ("C", s("3"))])),
                ]),
            )]),
        ),
    ]);
    let entry = entry_from(card);
    let plan = launch_plan(&entry, true).unwrap();
    assert_eq!(plan.command, ECHO_SERVER);
    assert_eq!(plan.args, vec!["--serve".to_string(), "-v".to_string()]);
    assert_eq!(plan.cwd.as_deref(), Some("/tmp"));
    assert_eq!(plan.env, vec![("A".to_string(), "1".to_string()), ("C".to_string(), "3".to_string())]);
    assert!(plan.piped);
}

#[test]
fn grant_ids_are_distinct_and_name_one_grant() {
    let entry = entry_from(stdio_card("a.b", None));
    let mut engine = granted_engine(&entry);
    let first = take_stdio(&mut engine, &entry, 1, Some(10), "/tmp/one");
    let second = take_stdio(&mut engine, &entry, 2, Some(20), "/tmp/two");
    assert_eq!(first, "g77-1");
    assert_eq!(second, "g77-2");
    assert!(engine.release(&first));
    assert!(!engine.release(&first), "a released id names nothing");
    assert_eq!(engine.grant_count("a.b"), 1);
}

#[test]
fn an_activation_completes_only_on_the_engine_that_decided_it() {
    let entry = entry_from(stdio_card("a.b", None));
    let mut deciding = granted_engine(&entry);
    let pending = deciding.activate(&entry, 1, None).expect("activation must be decided");
    let mut other = granted_engine(&entry);
    let relay = ConnectionInfo { transport: "unix-socket".to_string(), address: "/tmp/x".to_string() };
    match other.complete_stdio(pending, Ok(relay)) {
        Err(e) => assert_eq!(e.message(), "grant g77-1 is not awaiting completion"),
        Ok(_) => panic!("a foreign activation must be refused"),
    }
    assert_eq!(other.grant_count("a.b"), 0);
}

#[test]
fn a_consent_query_reports_state_time_and_card_hash() {
    let entry = entry_from(stdio_card("a.b", None));
    let granted = granted_engine(&entry);
    let reply = consent_query_response(Json::Null, "a.b", &entry, &granted).result.unwrap();
    assert_eq!(reply.get("state"), Some(&s("granted")));
    assert_eq!(reply.get("cardHash"), Some(&s(&entry.launch_hash)));
    assert!(reply.get("grantedAt").is_some());
    assert!(reply.get("launchCommand").is_none());
    let none = consent_query_response(Json::Null, "a.b", &entry, &engine());
    assert_eq!(none.result.unwrap(), Json::Object(vec![("state".to_string(), s("not-asked"))]));
}
