//! Cards, canonical JSON, launch hashes and environment expansion.

use mcp_locator::canonical::canonicalize;
use mcp_locator::card::{is_reverse_dns, validate};
use mcp_locator::env::Env;
use mcp_locator::expand::{expand_card, expand_env};
use mcp_locator::hash::{hash_subject, launch_hash, launch_hash_from_digest};
use mcp_locator::json::{Json, JsonNumber};

fn s(v: &str) -> Json {
    Json::String(v.to_string())
}

fn n(v: u64) -> Json {
    Json::Number(JsonNumber::PosInt(v))
}

fn obj(members: Vec<(&str, Json)>) -> Json {
    Json::Object(members.into_iter().map(|(k, v)| (k.to_string(), v)).collect())
}

fn env(pairs: &[(&str, &str)]) -> Env {
    Env::from_pairs(pairs.iter().map(|(k, v)| (k.to_string(), v.to_string())).collect())
}

fn stdio_card(name: &str, command: &str) -> Json {
    obj(vec![
        ("name", s(name)),
        ("version", s("1.0.0")),
        ("description", s("x")),
        ("local", obj(vec![("launch", obj(vec![("type", s("stdio")), ("command", s(command))]))])),
    ])
}

#[test]
fn orders_keys_and_omits_whitespace() {
    assert_eq!(canonicalize(&obj(vec![("b", n(1)), ("a", n(2))])), r#"{"a":2,"b":1}"#);
    assert_eq!(
        canonicalize(&obj(vec![
            ("z", Json::Array(vec![n(1), n(2)])),
            ("a", obj(vec![("d", Json::Bool(false)), ("c", Json::Null)])),
        ])),
        r#"{"a":{"c":null,"d":false},"z":[1,2]}"#
    );
}

#[test]
fn escapes_match_the_json_shortcuts() {
    assert_eq!(canonicalize(&s("say \"hi\"\n")), r#""say \"hi\"\n""#);
    let control = String::from_utf8(vec![1]).unwrap();
    assert_eq!(canonicalize(&Json::String(control)), "\"\\u0001\"");
}

#[test]
fn non_ascii_stays_raw() {
    assert_eq!(canonicalize(&s("日本語")), "\"日本語\"");
}

#[test]
fn canonical_numbers_and_nesting() {
    assert_eq!(canonicalize(&Json::Number(JsonNumber::NegInt(-42))), "-42");
    assert_eq!(canonicalize(&Json::Array(vec![])), "[]");
    assert_eq!(canonicalize(&obj(vec![])), "{}");
    assert_eq!(canonicalize(&s("tab\there")), r#""tab\there""#);
}

#[test]
fn canonical_keys_sort_by_utf16_units() {
    // U+E000 sorts after U+1F600 in UTF-16 code units (a surrogate pair starts with 0xD83D).
    let value = obj(vec![("\u{e000}", n(1)), ("\u{1f600}", n(2))]);
    assert_eq!(canonicalize(&value), "{\"\u{1f600}\":2,\"\u{e000}\":1}");
}

#[test]
fn key_order_does_not_change_the_canonical_form() {
    let a = obj(vec![("x", n(1)), ("y", n(2)), ("w", n(3))]);
    let b = obj(vec![("w", n(3)), ("y", n(2)), ("x", n(1))]);
    assert_eq!(canonicalize(&a), canonicalize(&b));
}

#[test]
fn both_env_syntaxes_expand() {
    let lookup = env(&[("FOO", "bar")]);
    assert_eq!(expand_env("%FOO%/x", &lookup), "bar/x");
    assert_eq!(expand_env("${FOO}/x", &lookup), "bar/x");
}

#[test]
fn unknown_variables_are_left_verbatim() {
    let lookup = env(&[]);
    assert_eq!(expand_env("%NOPE%/x", &lookup), "%NOPE%/x");
    assert_eq!(expand_env("${NOPE}/x", &lookup), "${NOPE}/x");
}

#[test]
fn stray_percent_is_not_treated_as_a_variable() {
    let lookup = env(&[]);
    assert_eq!(expand_env("50% done", &lookup), "50% done");
    assert_eq!(expand_env("C:\\plain\\path.exe", &lookup), "C:\\plain\\path.exe");
}

#[test]
fn expansion_is_single_pass_and_takes_the_first_binding() {
    let lookup = env(&[("A", "%B%"), ("B", "x"), ("A", "second")]);
    assert_eq!(expand_env("%A%", &lookup), "%B%");
    assert_eq!(expand_env("${A}${B}", &lookup), "%B%x");
    assert_eq!(expand_env("%1X%", &lookup), "%1X%");
}

#[test]
fn expand_card_touches_only_launch_and_endpoint_strings() {
    let lookup = env(&[("HOME", "/home/u")]);
    let mut card = obj(vec![
        ("name", s("a.b")),
        ("description", s("%HOME%")),
        (
            "local",
            obj(vec![
                (
                    "launch",
                    obj(vec![
                        ("type", s("stdio")),
                        ("command", s("%HOME%/bin/srv")),
                        ("args", Json::Array(vec![s("${HOME}/cfg"), n(3)])),
                        ("env", obj(vec![("DATA", s("%HOME%/data"))])),
                    ]),
                ),
                ("endpoint", obj(vec![("type", s("pipe")), ("address", s("${HOME}/sock"))])),
            ]),
        ),
    ]);
    expand_card(&mut card, &lookup);
    let launch = card.get("local").unwrap().get("launch").unwrap();
    assert_eq!(launch.get("command"), Some(&s("/home/u/bin/srv")));
    assert_eq!(launch.get("args"), Some(&Json::Array(vec![s("/home/u/cfg"), n(3)])));
    assert_eq!(launch.get("env").unwrap().get("DATA"), Some(&s("/home/u/data")));
    assert_eq!(card.get("local").unwrap().get("endpoint").unwrap().get("address"), Some(&s("/home/u/sock")));
    assert_eq!(card.get("description"), Some(&s("%HOME%")));
}

#[test]
fn executable_launch_requires_an_endpoint() {
    let card = obj(vec![
        ("name", s("a.b")),
        ("version", s("1")),
        ("description", s("x")),
        ("local", obj(vec![("launch", obj(vec![("type", s("executable")), ("command", s("c"))]))])),
    ]);
    assert!(validate(&card).is_err());
    assert_eq!(validate(&card).unwrap_err(), "`executable` launch requires `local.endpoint`");
}

#[test]
fn a_card_with_nothing_to_connect_to_is_invalid() {
    let card = obj(vec![("name", s("a.b")), ("version", s("1")), ("description", s("x"))]);
    assert!(validate(&card).is_err());
    assert_eq!(validate(&card).unwrap_err(), "card declares no launch, endpoint, or remotes");
}

#[test]
fn validation_reports_each_kind_of_problem() {
    assert_eq!(validate(&s("x")).unwrap_err(), "card must be a JSON object");
    assert_eq!(validate(&obj(vec![])).unwrap_err(), "missing required field `name`");
    assert_eq!(
        validate(&obj(vec![("name", s("a.b")), ("version", s("1"))])).unwrap_err(),
        "missing required field `description`"
    );
    assert_eq!(
        validate(&obj(vec![("name", n(1)), ("version", s("1")), ("description", s("x"))])).unwrap_err(),
        "`name` must be a string"
    );
    assert_eq!(
        validate(&obj(vec![("name", s("Bad")), ("version", s("1")), ("description", s("x"))])).unwrap_err(),
        "`name` is not a reverse-DNS identifier: Bad"
    );
    assert_eq!(
        validate(&obj(vec![
            ("name", s("a.b")),
            ("version", n(1)),
            ("description", s("x")),
            ("remotes", Json::Array(vec![n(1)])),
        ]))
        .unwrap_err(),
        "card does not match the card schema"
    );
}

#[test]
fn a_valid_card_decodes() {
    let card = validate(&stdio_card("com.example.app", "app.exe")).unwrap();
    assert_eq!(card.name, "com.example.app");
    assert_eq!(card.version, "1.0.0");
    let launch = card.local.unwrap().launch.unwrap();
    assert_eq!(launch.command, "app.exe");
    assert!(launch.args.is_none());
}

#[test]
fn name_must_be_reverse_dns() {
    assert!(is_reverse_dns("com.example.app"));
    assert!(!is_reverse_dns("noDots"));
    assert!(!is_reverse_dns("com.Example.App"));
    assert!(!is_reverse_dns("com..app"));
}

#[test]
fn reverse_dns_edges() {
    assert!(is_reverse_dns("a.b"));
    assert!(is_reverse_dns("a-1.b-2"));
    assert!(!is_reverse_dns("-a.b"));
    assert!(!is_reverse_dns("a.b-"));
    assert!(!is_reverse_dns("a."));
    assert!(!is_reverse_dns(".a"));
    // Names are capped at 200 bytes in all.
    assert!(is_reverse_dns(&format!("{}.b", "a".repeat(198))));
    assert!(!is_reverse_dns(&format!("{}.b", "a".repeat(199))));
}

#[test]
fn identity_changes_do_not_affect_the_hash() {
    let base = stdio_card("a.b", "c");
    let bumped = obj(vec![
        ("name", s("a.b")),
        ("version", s("2.0.0")),
        ("description", s("x")),
        ("title", s("New")),
        ("local", obj(vec![("launch", obj(vec![("type", s("stdio")), ("command", s("c"))]))])),
    ]);
    assert_eq!(launch_hash(&base), launch_hash(&bumped));
}

#[test]
fn swapping_the_command_does_affect_the_hash() {
    let base = obj(vec![("local", obj(vec![("launch", obj(vec![("type", s("stdio")), ("command", s("c"))]))]))]);
    let swapped =
        obj(vec![("local", obj(vec![("launch", obj(vec![("type", s("stdio")), ("command", s("cmd.exe"))]))]))]);
    assert_ne!(launch_hash(&base), launch_hash(&swapped));
}

#[test]
fn a_card_with_no_local_block_still_hashes() {
    assert!(launch_hash(&obj(vec![("name", s("a.b"))])).starts_with("sha256:"));
}

#[test]
fn the_hash_covers_launch_and_endpoint_only() {
    let card = stdio_card("a.b", "c");
    assert_eq!(canonicalize(&hash_subject(&card)), r#"{"endpoint":null,"launch":{"command":"c","type":"stdio"}}"#);
    assert_eq!(
        launch_hash(&obj(vec![])),
        "sha256:ec39cbfaf718e317860fe2d17c57b5b98b279d60dab41792db4adb63004d89c5"
    );
    assert_eq!(
        launch_hash(&card),
        "sha256:c28aaf05ece20a0bb3bebe22d1191686bd0b88648672eb81c9912ef81943dd31"
    );
    assert_eq!(launch_hash(&card).len(), "sha256:".len() + 64);
}

#[test]
fn a_digest_is_written_as_lowercase_hex() {
    assert_eq!(launch_hash_from_digest(&[0x00, 0xab, 0x10, 0xff]), "sha256:00ab10ff");
    assert_eq!(launch_hash_from_digest(&[]), "sha256:");
}
