//! Prompting, pipe security, signatures, request dispatch, the command line and setup.

use mcp_locator::activation::{ActivateError, ActivateResult, ConnectionInfo};
use mcp_locator::audit::AuditLog;
use mcp_locator::cli::{consent_line, dirs_line, flag_value, parse_roots};
use mcp_locator::consent::{ConsentRecord, ConsentState};
use mcp_locator::consent_ui::{dialog_outcome, Request as PromptRequest, ALLOW, ALLOW_BUTTON, DENY, DENY_BUTTON, DISMISSED};
use mcp_locator::dirs::{default_endpoint, Platform, Root, Tier};
use mcp_locator::env::Env;
use mcp_locator::install::{machine_acl_args, record_acl, record_created, run_user_setup, system_dir, user_targets, Report};
use mcp_locator::json::{Json, JsonNumber};
use mcp_locator::prompt::{
    consent_after_prompt, decision_from_exit, describe_client, image_name, is_low_integrity, Decision, Prompter,
};
use mcp_locator::rpc::{Request, Response, ServerState, INVALID_PARAMS, INVALID_REQUEST, METHOD_NOT_FOUND};
use mcp_locator::security::{broker_pipe_sddl, relay_pipe_sddl};
use mcp_locator::server::{
    activate_response, deactivate_response, release_response, route, state_of, Route, CONSENT_REQUIRED, IN_USE,
};
use mcp_locator::signature::{classify, verify, Trust, TRUST_E_BAD_DIGEST, TRUST_E_NOSIGNATURE};

fn s(v: &str) -> Json {
    Json::String(v.to_string())
}

fn obj(members: Vec<(&str, Json)>) -> Json {
    Json::Object(members.into_iter().map(|(k, v)| (k.to_string(), v)).collect())
}

fn env(pairs: &[(&str, &str)]) -> Env {
    Env::from_pairs(pairs.iter().map(|(k, v)| (k.to_string(), v.to_string())).collect())
}

fn request(method: &str, params: Option<Json>) -> Request {
    Request { jsonrpc: "2.0".to_string(), id: Json::Number(JsonNumber::PosInt(7)), method: method.to_string(), params }
}

fn error_of(r: &Response) -> (i32, String) {
    let e = r.error.as_ref().expect("an error response");
    (e.code, e.message.clone())
}

#[test]
fn denial_is_not_re_asked() {
    assert!(Prompter::should_ask(ConsentState::NotAsked));
    assert!(Prompter::should_ask(ConsentState::Stale));
    assert!(!Prompter::should_ask(ConsentState::Denied));
    assert!(!Prompter::should_ask(ConsentState::Granted));
}

#[test]
fn prompting_can_be_switched_off() {
    let everywhere = |_: &str| true;
    let off = env(&[("MCP_LOCATOR_NO_PROMPT", "1")]);
    assert!(!Prompter::discover(Platform::Unix, &off, Some("/opt/bin"), &everywhere).available());
    let on = Prompter::discover(Platform::Unix, &env(&[]), Some("/opt/bin"), &everywhere);
    assert_eq!(on.helper().as_deref(), Some("/opt/bin/mcp-locator-consent"));
    let missing = |_: &str| false;
    assert!(!Prompter::discover(Platform::Windows, &env(&[]), Some("C:\\b"), &missing).available());
}

#[test]
fn the_helper_answers_by_exit_code() {
    assert_eq!(decision_from_exit(Some(10)), Decision::Allow);
    assert_eq!(decision_from_exit(Some(20)), Decision::Deny);
    assert_eq!(decision_from_exit(Some(30)), Decision::Unanswered);
    assert_eq!(decision_from_exit(None), Decision::Unanswered);
}

#[test]
fn an_unwritten_grant_is_not_a_grant() {
    assert_eq!(consent_after_prompt(Decision::Allow, ConsentState::NotAsked, true), (ConsentState::Granted, Some("consent-granted")));
    assert_eq!(consent_after_prompt(Decision::Allow, ConsentState::Stale, false), (ConsentState::NotAsked, None));
    assert_eq!(consent_after_prompt(Decision::Deny, ConsentState::NotAsked, true), (ConsentState::Denied, Some("consent-denied")));
    assert_eq!(
        consent_after_prompt(Decision::Unanswered, ConsentState::Stale, true),
        (ConsentState::Stale, Some("consent-unanswered"))
    );
}

#[test]
fn low_integrity_is_a_windows_notion() {
    assert!(is_low_integrity(Platform::Windows, Some(0x1000)));
    assert!(!is_low_integrity(Platform::Windows, Some(0x2000)));
    assert!(!is_low_integrity(Platform::Windows, None));
    assert!(!is_low_integrity(Platform::Unix, Some(0)));
}

#[test]
fn clients_are_named_by_image_and_pid() {
    assert_eq!(image_name("C:\\Program Files\\Client\\client.exe"), "client.exe");
    assert_eq!(image_name("/usr/bin/assistant"), "assistant");
    assert_eq!(image_name("plain"), "plain");
    assert_eq!(describe_client("client.exe", 4242), "client.exe (pid 4242)");
}

#[test]
fn the_broker_pipe_admits_low_integrity_and_the_relay_does_not() {
    let sid = Some("S-1-5-21-1-2-3-1001");
    assert!(broker_pipe_sddl(sid).unwrap().contains("(ML;;NW;;;LW)"));
    assert!(relay_pipe_sddl(sid, false).unwrap().contains("(ML;;NW;;;ME)"));
}

#[test]
fn descriptors_name_the_account() {
    let sid = Some("S-1-5-21-9");
    assert_eq!(broker_pipe_sddl(sid).unwrap(), "D:(A;;GA;;;S-1-5-21-9)(A;;GA;;;SY)(A;;GA;;;BA)S:(ML;;NW;;;LW)");
    assert_eq!(relay_pipe_sddl(sid, true).unwrap(), "D:(A;;GA;;;S-1-5-21-9)S:(ML;;NW;;;LW)");
    assert!(broker_pipe_sddl(None).is_none());
    assert!(relay_pipe_sddl(None, false).is_none());
}

#[test]
fn a_missing_file_is_unknown_not_unsigned() {
    let never = |_: &str| -> (i32, u32, Option<String>) { panic!("nothing to check") };
    let trust = verify(Platform::Unix, "C:/nonexistent/mcp-locator-not-here.exe", false, &never);
    assert!(matches!(trust, Trust::Unknown { .. }), "{trust:?}");
    assert!(!trust.is_trusted());
    let trust = verify(Platform::Windows, "C:/nonexistent/mcp-locator-not-here.exe", false, &never);
    assert_eq!(trust, Trust::Unknown { reason: "C:/nonexistent/mcp-locator-not-here.exe is not a file".to_string() });
}

#[test]
fn only_a_good_signature_is_trusted() {
    assert!(!Trust::Unsigned.is_trusted());
    assert!(!Trust::Invalid { reason: "x".into() }.is_trusted());
    assert!(!Trust::Unknown { reason: "x".into() }.is_trusted());
    assert!(Trust::Signed { signer: "Contoso".into() }.is_trusted());
}

#[test]
fn every_state_says_something_a_person_can_act_on() {
    assert_eq!(Trust::Unsigned.describe(), "unsigned");
    assert!(Trust::Invalid { reason: "modified".into() }.describe().contains("INVALID"));
    assert_eq!(Trust::Signed { signer: "Contoso Ltd".into() }.describe(), "Contoso Ltd");
    assert_eq!(Trust::Unknown { reason: "why".into() }.describe(), "could not be checked — why");
}

#[test]
fn windows_verdicts_are_classified() {
    assert_eq!(classify(0, 0, Some("Contoso".into())), Trust::Signed { signer: "Contoso".into() });
    assert!(matches!(classify(0, 0, None), Trust::Unknown { .. }));
    assert_eq!(classify(TRUST_E_NOSIGNATURE, 0, None), Trust::Unsigned);
    assert_eq!(classify(TRUST_E_NOSIGNATURE, 5, None), Trust::Invalid { reason: "0x00000005".into() });
    assert_eq!(
        classify(TRUST_E_BAD_DIGEST, 0, None),
        Trust::Invalid { reason: "the file was modified after it was signed".into() }
    );
    assert_eq!(classify(-2146762485, 0, None), Trust::Invalid { reason: "0x800b010b".into() });
    let checked = |path: &str| {
        assert_eq!(path, "C:\\a.exe");
        (TRUST_E_NOSIGNATURE, 0u32, None)
    };
    assert_eq!(verify(Platform::Windows, "C:\\a.exe", true, &checked), Trust::Unsigned);
}

#[test]
fn requests_are_routed_with_their_parameters() {
    assert!(matches!(route(&request("locator/handshake", None)), Ok(Route::Handshake)));
    assert!(matches!(
        route(&request("locator/list", Some(obj(vec![("includeOrphaned", Json::Bool(true))])))),
        Ok(Route::List { include_orphaned: true })
    ));
    assert!(matches!(route(&request("locator/list", None)), Ok(Route::List { include_orphaned: false })));
    match route(&request("locator/deactivate", Some(obj(vec![("name", s("a.b")), ("force", Json::Bool(true))])))) {
        Ok(Route::Deactivate { name, force }) => {
            assert_eq!(name, "a.b");
            assert!(force);
        },
        other => panic!("unexpected {other:?}"),
    }
    match route(&request("locator/release", Some(obj(vec![("grantId", s("g1-2"))])))) {
        Ok(Route::Release { grant_id }) => assert_eq!(grant_id, "g1-2"),
        other => panic!("unexpected {other:?}"),
    }
}

#[test]
fn malformed_requests_are_answered_with_errors() {
    let mut bad_version = request("locator/handshake", None);
    bad_version.jsonrpc = "1.0".to_string();
    let r = route(&bad_version).unwrap_err();
    assert_eq!(error_of(&r), (INVALID_REQUEST, "jsonrpc must be \"2.0\"".to_string()));
    assert_eq!(r.id, Json::Number(JsonNumber::PosInt(7)));

    let r = route(&request("locator/status", Some(obj(vec![("name", Json::Bool(true))])))).unwrap_err();
    assert_eq!(error_of(&r), (INVALID_PARAMS, "`name` is required".to_string()));
    let r = route(&request("locator/release", None)).unwrap_err();
    assert_eq!(error_of(&r), (INVALID_PARAMS, "`grantId` is required".to_string()));
    let r = route(&request("locator/frobnicate", None)).unwrap_err();
    assert_eq!(error_of(&r), (METHOD_NOT_FOUND, "unknown method: locator/frobnicate".to_string()));
}

#[test]
fn answers_say_what_happened() {
    let id = || Json::Number(JsonNumber::PosInt(1));
    let refused = activate_response(
        id(),
        Err(ActivateError::ConsentRequired { name: "a.b".into(), state: ConsentState::NotAsked }),
    );
    assert_eq!(error_of(&refused).0, CONSENT_REQUIRED);
    let granted = activate_response(
        id(),
        Ok(ActivateResult {
            grant_id: "g1-1".into(),
            connection: ConnectionInfo { transport: "pipe".into(), address: "\\\\.\\pipe\\x".into() },
        }),
    );
    let result = granted.result.unwrap();
    assert_eq!(result.get("grantId"), Some(&s("g1-1")));
    assert_eq!(result.get("connection").unwrap().get("type"), Some(&s("pipe")));

    let busy = deactivate_response(id(), "a.b", Err(vec!["pid 1".into(), "unknown client".into()]));
    assert_eq!(error_of(&busy), (IN_USE, "a.b is in use by pid 1, unknown client; pass force to stop it anyway".to_string()));
    let done = deactivate_response(id(), "a.b", Ok(2));
    assert_eq!(done.result.unwrap(), Json::Object(vec![]));

    let unknown = release_response(id(), "g9", false);
    assert_eq!(error_of(&unknown), (INVALID_PARAMS, "unknown grant: g9".to_string()));
    assert_eq!(release_response(id(), "g9", true).result.unwrap(), Json::Object(vec![]));
}

#[test]
fn the_reported_state_follows_process_and_grants() {
    assert_eq!(state_of(true, true, 3), ServerState::Orphaned);
    assert_eq!(state_of(false, true, 0), ServerState::Idle);
    assert_eq!(state_of(false, true, 2), ServerState::Running);
    assert_eq!(state_of(false, false, 0), ServerState::Registered);
}

#[test]
fn flags_take_the_following_argument() {
    let args: Vec<String> = vec!["list", "--roots", "user=/u", "--all"].into_iter().map(String::from).collect();
    assert_eq!(flag_value(&args, "--roots").as_deref(), Some("user=/u"));
    assert_eq!(flag_value(&args, "--all"), None);
    assert_eq!(flag_value(&args, "--endpoint"), None);
}

#[test]
fn roots_parse_from_the_command_line() {
    let roots = parse_roots("system=/a,,user=/b=c").unwrap();
    let pairs: Vec<(Tier, &str)> = roots.iter().map(|r| (r.tier, r.path.as_str())).collect();
    assert_eq!(pairs, vec![(Tier::System, "/a"), (Tier::User, "/b=c")]);
    assert_eq!(parse_roots("user").unwrap_err(), "expected <tier>=<path>, got `user`");
    assert_eq!(parse_roots("user=/a,global=/b").unwrap_err(), "unknown tier `global`");
    assert!(parse_roots("").unwrap().is_empty());
}

#[test]
fn listings_read_plainly() {
    let record = ConsentRecord::not_asked();
    assert_eq!(consent_line("a.b", &record), "a.b  NotAsked  -");
    let root = Root { tier: Tier::Low, path: "/low".to_string() };
    assert_eq!(dirs_line(&root, false), "[Low] /low  (missing)");
    assert_eq!(dirs_line(&root, true), "[Low] /low");
}

#[test]
fn audit_lines_are_canonical_json() {
    assert_eq!(
        AuditLog::line_at("2024-01-01T00:00:00Z", "activate", "a.b", "sha256:00ff", Some(42), "g1-1"),
        r#"{"at":"2024-01-01T00:00:00Z","clientPid":42,"detail":"g1-1","event":"activate","launchHash":"sha256:00ff","server":"a.b"}"#
    );
    assert_eq!(
        AuditLog::line_at("t", "deactivate", "a.b", "", None, "force=true"),
        r#"{"at":"t","clientPid":null,"detail":"force=true","event":"deactivate","launchHash":"","server":"a.b"}"#
    );
    assert!(AuditLog::disabled().record("x", "y", "h", None, "").is_none());
    let log = AuditLog::new(Platform::Unix, "/state");
    assert_eq!(log.path().as_deref(), Some("/state/audit.log"));
    let line = log.record("x", "y", "sha256:ab", None, "").unwrap();
    assert!(line.contains("\"event\":\"x\""));
    assert!(line.contains("\"launchHash\":\"sha256:ab\""));
}

#[test]
fn per_user_setup_is_idempotent() {
    let targets = user_targets(Platform::Windows, &env(&[("LOCALAPPDATA", "C:\\L"), ("USERPROFILE", "C:\\U")]));
    let labelled: Vec<(&str, Option<&str>)> =
        targets.iter().map(|t| (t.path.as_str(), t.label.as_ref().map(|l| l.0.as_str()))).collect();
    assert_eq!(
        labelled,
        vec![
            ("C:\\L\\mcp-locator\\servers", None),
            ("C:\\U\\AppData\\LocalLow\\mcp-locator\\servers", Some("(OI)(CI)Low")),
            ("C:\\L\\mcp-locator\\state", Some("(OI)(CI)Medium")),
        ]
    );
    // A first run creates and labels; a second finds everything there and does nothing.
    let mut first = Report::new();
    assert!(record_created(&mut first, "/d", true, Ok(())));
    record_acl(&mut first, "/d", "intent", Ok(()));
    assert!(first.failures.is_empty(), "{:?}", first.failures);
    let mut second = Report::new();
    assert!(!record_created(&mut second, "/d", false, Ok(())));
    assert!(second.steps.is_empty(), "{:?}", second.steps);
    assert_eq!(first.steps, vec!["created /d".to_string(), "intent (/d)".to_string()]);
}

#[test]
fn setup_failures_are_reported() {
    let mut report = Report::new();
    assert!(!record_created(&mut report, "/d", true, Err("denied".into())));
    record_acl(&mut report, "/d", "intent", Err("bad".into()));
    assert_eq!(report.failures, vec!["create /d: denied".to_string(), "icacls /d: bad".to_string()]);
    assert_eq!(system_dir(Platform::MacOs, &env(&[])).as_deref(), Some("/Library/Application Support/mcp-locator/servers"));
    assert_eq!(machine_acl_args()[0], "/inheritance:r");
    assert_eq!(machine_acl_args()[2], "*S-1-5-18:(OI)(CI)F");
}

fn prompt_request() -> PromptRequest {
    PromptRequest {
        name: "com.example.notes".into(),
        title: "Example Notes".into(),
        tier: "user".into(),
        command: "C:\\notes\\notes-mcp.exe --serve".into(),
        ..PromptRequest::default()
    }
}

#[test]
fn a_stale_record_asks_a_different_question() {
    let mut req = prompt_request();
    assert!(req.instruction().starts_with("Allow AI clients"));
    req.stale = true;
    req.previous = "C:\\notes\\old.exe".into();
    assert!(req.instruction().contains("has changed"));
    assert!(req.content().contains("C:\\notes\\old.exe"));
    assert!(req.content().contains("notes-mcp.exe"));
}

#[test]
fn user_tier_carries_a_warning_and_system_tier_does_not() {
    let mut req = prompt_request();
    assert!(req.footer().contains("running as you"));
    req.tier = "system".into();
    assert!(req.footer().is_empty());
    req.tier = "low".into();
    assert!(req.footer().contains("sandboxed"));
}

#[test]
fn details_name_the_card_and_its_origin() {
    let mut req = prompt_request();
    req.card = "/etc/mcp-locator/servers/com.example.notes.card.json".into();
    let detail = req.expanded();
    assert!(detail.contains("notes-mcp.exe"));
    assert!(detail.contains("com.example.notes.card.json"));
    assert!(detail.ends_with("Identifier:  com.example.notes"));
}

#[test]
fn parse_rejects_a_request_without_a_server() {
    assert!(PromptRequest::parse(&vec!["--title".into(), "x".into()]).is_err());
    let ok = PromptRequest::parse(&vec!["--name".into(), "a.b".into()]).unwrap();
    assert_eq!(ok.title, "a.b");
}

#[test]
fn parse_reads_every_flag() {
    let args: Vec<String> =
        vec!["--stale", "--name", "a.b", "--previous", "old", "--bogus"].into_iter().map(String::from).collect();
    assert_eq!(PromptRequest::parse(&args).unwrap_err(), "--bogus needs a value");
    let args: Vec<String> = vec!["--name", "a.b", "--bogus", "x"].into_iter().map(String::from).collect();
    assert_eq!(PromptRequest::parse(&args).unwrap_err(), "unknown flag --bogus");
    let args: Vec<String> = vec!["--stale", "--name", "a.b", "--previous", "old"].into_iter().map(String::from).collect();
    let req = PromptRequest::parse(&args).unwrap();
    assert!(req.stale);
    assert_eq!(req.previous, "old");
    assert_eq!(
        req.content(),
        "The program it starts is not the one you approved. That can mean an update, or that something replaced it.\n\nWas:  old\nNow:  \n\nAllowing this applies to every AI client on this machine until you revoke it."
    );
}

#[test]
fn the_broker_listens_where_clients_look_for_it() {
    assert_eq!(
        default_endpoint(Platform::Unix, &env(&[("XDG_RUNTIME_DIR", "/run/user/1000")])),
        "/run/user/1000/mcp-locator/broker.sock"
    );
    assert_eq!(default_endpoint(Platform::Windows, &env(&[])), r"\\.\pipe\mcp-locator\broker\v1");
}

#[test]
fn the_dialog_answer_becomes_an_exit_code() {
    assert_eq!(dialog_outcome(0, ALLOW_BUTTON), Ok(ALLOW));
    assert_eq!(dialog_outcome(0, DENY_BUTTON), Ok(DENY));
    assert_eq!(dialog_outcome(0, 2), Ok(DISMISSED));
    assert_eq!(dialog_outcome(-2147024809, ALLOW_BUTTON), Err(-2147024809));
}

#[test]
fn a_low_integrity_client_cannot_raise_a_prompt() {
    let everywhere = |_: &str| true;
    let on = Prompter::discover(Platform::Windows, &env(&[]), Some("C:\\b"), &everywhere);
    assert!(on.may_prompt(Platform::Windows, Some(4), Some(0x2000)));
    assert!(!on.may_prompt(Platform::Windows, Some(4), Some(0x1000)));
    assert!(on.may_prompt(Platform::Windows, Some(4), None));
    assert!(on.may_prompt(Platform::Windows, None, None));
    let off = Prompter::discover(Platform::Windows, &env(&[]), Some("C:\\b"), &|_: &str| false);
    assert!(!off.may_prompt(Platform::Windows, None, None));
}

#[test]
fn a_second_per_user_run_does_nothing() {
    let targets = user_targets(Platform::Windows, &env(&[("LOCALAPPDATA", "C:\\L"), ("USERPROFILE", "C:\\U")]));
    let made = std::cell::RefCell::new(std::collections::BTreeSet::<String>::new());
    let present = |p: &str| made.borrow().contains(p);
    let create = |p: &str| -> Result<(), String> {
        made.borrow_mut().insert(p.to_string());
        Ok(())
    };
    let label = |_: &str, _: &str| -> Result<(), String> { Ok(()) };
    let first = run_user_setup(&targets, &present, &create, &label);
    assert_eq!(
        first.steps,
        vec![
            "created C:\\L\\mcp-locator\\servers".to_string(),
            "created C:\\U\\AppData\\LocalLow\\mcp-locator\\servers".to_string(),
            "low-tier registry: writable by sandboxed processes (C:\\U\\AppData\\LocalLow\\mcp-locator\\servers)".to_string(),
            "created C:\\L\\mcp-locator\\state".to_string(),
            "broker state: not writable from a sandbox (C:\\L\\mcp-locator\\state)".to_string(),
        ]
    );
    let second = run_user_setup(&targets, &present, &create, &label);
    assert!(second.steps.is_empty(), "{:?}", second.steps);
    assert!(second.failures.is_empty(), "{:?}", second.failures);
}
