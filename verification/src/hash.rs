//! Launch hashing: the value consent is bound to.

use crate::canonical::{canon, canonicalize, hex_char};
use crate::json::{get_spec, Json, JsonV};
use sha2::{Digest, Sha256};
use vstd::prelude::*;

verus! {

/// The SHA-256 digest of a byte sequence.
pub uninterp spec fn sha256_spec(data: Seq<u8>) -> Seq<u8>;

/// `sha2::Sha256::digest`: the digest is a function of the input bytes alone and is 32 bytes
/// long. Nothing else about the function is stated.
#[verifier::external_body]
fn sha256(data: &[u8]) -> (r: Vec<u8>)
    ensures
        r@ == sha256_spec(data@),
        r@.len() == 32,
{
    Sha256::digest(data).to_vec()
}

/// `local[key]` of a card, or `null` when the card has no such member.
pub open spec fn pick(card: JsonV, key: Seq<char>) -> JsonV {
    match get_spec(card, "local"@) {
        Some(l) => match get_spec(l, key) {
            Some(v) => v,
            None => JsonV::Null,
        },
        None => JsonV::Null,
    }
}

/// What a launch hash covers: the launch stanza and the endpoint, and nothing else.
pub open spec fn hash_subject_spec(card: JsonV) -> JsonV {
    JsonV::Object(seq![("launch"@, pick(card, "launch"@)), ("endpoint"@, pick(card, "endpoint"@))])
}

/// Lowercase hexadecimal, two digits per byte.
pub open spec fn hex_string(bytes: Seq<u8>) -> Seq<char>
    decreases bytes.len(),
{
    if bytes.len() == 0 {
        Seq::empty()
    } else {
        hex_string(bytes.drop_last()) + seq![
            hex_char((bytes.last() / 16) as nat),
            hex_char((bytes.last() % 16) as nat),
        ]
    }
}

/// The text of a launch hash with the given digest.
pub open spec fn hash_text(digest: Seq<u8>) -> Seq<char> {
    "sha256:"@ + hex_string(digest)
}

/// The launch hash of a card.
pub open spec fn launch_hash_spec(card: JsonV) -> Seq<char> {
    hash_text(sha256_spec(vstd::utf8::encode_utf8(canon(hash_subject_spec(card)))))
}

fn hex_digit(d: u8) -> (c: char)
    requires
        d < 16,
    ensures
        c == hex_char(d as nat),
{
    if d < 10 {
        (d + 48u8) as char
    } else {
        (d + 87u8) as char
    }
}

/// The text of a launch hash whose digest is `digest`: `sha256:` and the digest in lowercase
/// hexadecimal.
pub fn launch_hash_from_digest(digest: &[u8]) -> (r: String)
    ensures
        r@ == hash_text(digest@),
{
    let mut out: Vec<char> = Vec::new();
    crate::text::push_str(&mut out, "sha256:");
    let ghost start = out@;
    let mut i: usize = 0;
    while i < digest.len()
        invariant
            i <= digest@.len(),
            start == "sha256:"@,
            out@ == start + hex_string(digest@.subrange(0, i as int)),
        decreases digest@.len() - i,
    {
        let b = digest[i];
        out.push(hex_digit(b / 16));
        out.push(hex_digit(b % 16));
        proof {
            let sub = digest@.subrange(0, i + 1);
            assert(sub.drop_last() =~= digest@.subrange(0, i as int));
            assert(sub.last() == b);
        }
        i = i + 1;
        assert(out@ =~= start + hex_string(digest@.subrange(0, i as int)));
    }
    assert(digest@.subrange(0, digest@.len() as int) =~= digest@);
    crate::text::string_from_chars(out.as_slice())
}

fn pick_member(card: &Json, key: &str) -> (r: Json)
    ensures
        r@ == pick(card@, key@),
{
    match card.get("local") {
        Some(l) => match l.get(key) {
            Some(v) => v.duplicate(),
            None => Json::Null,
        },
        None => Json::Null,
    }
}

/// The object a launch hash is taken over: `{"launch": .., "endpoint": ..}` from the card's
/// `local` block, `null` for whichever is missing.
pub fn hash_subject(card: &Json) -> (r: Json)
    ensures
        r@ == hash_subject_spec(card@),
{
    let launch = pick_member(card, "launch");
    let endpoint = pick_member(card, "endpoint");
    let mut members: Vec<(String, Json)> = Vec::new();
    members.push((crate::text::owned("launch"), launch));
    members.push((crate::text::owned("endpoint"), endpoint));
    proof {
        crate::json::lemma_view_members_index(members@);
        assert(crate::json::view_members(members@) =~= seq![
            ("launch"@, pick(card@, "launch"@)),
            ("endpoint"@, pick(card@, "endpoint"@)),
        ]);
    }
    Json::Object(members)
}

/// Hash of what would actually execute: the expanded launch stanza plus endpoint.
pub fn launch_hash(card: &Json) -> (r: String)
    ensures
        r@ == launch_hash_spec(card@),
{
    let subject = hash_subject(card);
    let text = canonicalize(&subject);
    let digest = sha256(text.as_str().as_bytes());
    launch_hash_from_digest(digest.as_slice())
}

/// A card's identity (name, version, title, description and everything outside `local.launch`
/// and `local.endpoint`) does not enter its launch hash: two cards with the same launch stanza
/// and endpoint have the same hash.
pub proof fn law_hash_covers_only_launch_and_endpoint(a: JsonV, b: JsonV)
    requires
        pick(a, "launch"@) == pick(b, "launch"@),
        pick(a, "endpoint"@) == pick(b, "endpoint"@),
    ensures
        launch_hash_spec(a) == launch_hash_spec(b),
{
}

/// A launch hash covers the card's launch stanza and its endpoint: the hash subject records,
/// under `launch` and `endpoint`, whatever the card's `local` block holds under those names, and
/// `null` where it holds nothing. So two cards whose endpoints (or launch stanzas) differ have
/// different hash subjects, and consent given for one reads as stale for the other.
pub proof fn law_hash_subject_records_launch_and_endpoint(card: JsonV, local: JsonV, key: Seq<char>)
    requires
        get_spec(card, "local"@) == Some(local),
        key == "launch"@ || key == "endpoint"@,
    ensures
        forall|x: JsonV| get_spec(local, key) == Some(x) ==> get_spec(hash_subject_spec(card), key) == Some(x),
        get_spec(local, key) is None ==> get_spec(hash_subject_spec(card), key) == Some(JsonV::Null),
{
    reveal_strlit("launch");
    reveal_strlit("endpoint");
    reveal_strlit("local");
    assert("launch"@.len() != "endpoint"@.len());
    let ms = seq![("launch"@, pick(card, "launch"@)), ("endpoint"@, pick(card, "endpoint"@))];
    assert(hash_subject_spec(card) == JsonV::Object(ms));
    assert(ms[0].0 == "launch"@);
    assert(ms.drop_first() =~= seq![("endpoint"@, pick(card, "endpoint"@))]);
    assert(ms.drop_first()[0].0 == "endpoint"@);
    if key == "launch"@ {
        assert(crate::json::member(ms, key) == Some(pick(card, "launch"@)));
    } else {
        assert(ms[0].0 != key);
        assert(crate::json::member(ms, key) == crate::json::member(ms.drop_first(), key));
        assert(crate::json::member(ms.drop_first(), key) == Some(pick(card, "endpoint"@)));
    }
}

/// Cards whose endpoints differ get different hash subjects. (A card whose endpoint is written
/// as `null` and one without an endpoint are the same to the hash: both record `null`.)
pub proof fn law_changed_endpoint_changes_hash_subject(a: JsonV, b: JsonV, la: JsonV, lb: JsonV)
    requires
        get_spec(a, "local"@) == Some(la),
        get_spec(b, "local"@) == Some(lb),
        get_spec(la, "endpoint"@) is Some,
        get_spec(lb, "endpoint"@) is Some,
        get_spec(la, "endpoint"@) != get_spec(lb, "endpoint"@),
    ensures
        hash_subject_spec(a) != hash_subject_spec(b),
{
    reveal_strlit("endpoint");
    law_hash_subject_records_launch_and_endpoint(a, la, "endpoint"@);
    law_hash_subject_records_launch_and_endpoint(b, lb, "endpoint"@);
    let ea = get_spec(la, "endpoint"@).unwrap();
    let eb = get_spec(lb, "endpoint"@).unwrap();
    assert(get_spec(hash_subject_spec(a), "endpoint"@) == Some(ea));
    assert(get_spec(hash_subject_spec(b), "endpoint"@) == Some(eb));
}

} // verus!
