//! The consent store.
//!
//! One record per server, written only by the broker and shared by every AI client: the user
//! answers once, not once per client.
//!
//! Consent binds to `launchHash`, not to the server name. If a card's launch stanza or endpoint
//! changes after approval, the record goes `stale` and the user is asked again. That rule is
//! what stops an approved card being swapped for `cmd.exe` behind the user's back.
//!
//! The store is shared with other processes through `consent.json`. The file itself is read and
//! written by the caller; this module decides when a re-read is due and what the records become
//! after each change, so that a write always modifies what is currently on disk.

use crate::dirs::{join, join_path, Platform};
use crate::json::str_eq;
use crate::text::{chars_of, owned};
use vstd::prelude::*;

verus! {

#[derive(Debug, Clone, Copy, PartialEq, Eq, Structural)]
pub enum ConsentState {
    Granted,
    Denied,
    NotAsked,
    Stale,
}

#[derive(Debug, Clone, Copy, PartialEq, Eq, Structural)]
pub enum ConsentScope {
    /// Applies to every AI client on the machine.
    User,
    /// Applies only to the client identified in the record.
    Client,
}

#[derive(Debug)]
pub struct ConsentRecord {
    pub state: ConsentState,
    pub granted_at: Option<String>,
    pub launch_hash: Option<String>,
    /// The approved command line, kept so a later change can be shown to the user as a
    /// before/after. The hash alone proves something changed but cannot say what.
    pub launch_command: Option<String>,
    pub scope: Option<ConsentScope>,
}

/// The value of a consent record.
pub struct RecordV {
    pub state: ConsentState,
    pub granted_at: Option<Seq<char>>,
    pub launch_hash: Option<Seq<char>>,
    pub launch_command: Option<Seq<char>>,
    pub scope: Option<ConsentScope>,
}

pub open spec fn opt_chars(o: Option<String>) -> Option<Seq<char>> {
    match o {
        Some(s) => Some(s@),
        None => None,
    }
}

fn clone_opt(o: &Option<String>) -> (r: Option<String>)
    ensures
        opt_chars(r) == opt_chars(*o),
{
    match o {
        Some(s) => Some(s.clone()),
        None => None,
    }
}

impl ConsentRecord {
    pub open spec fn view(self) -> RecordV {
        RecordV {
            state: self.state,
            granted_at: opt_chars(self.granted_at),
            launch_hash: opt_chars(self.launch_hash),
            launch_command: opt_chars(self.launch_command),
            scope: self.scope,
        }
    }

    /// The record of a server nobody has decided about.
    pub fn not_asked() -> (r: Self)
        ensures
            r@ == not_asked_spec(),
    {
        ConsentRecord {
            state: ConsentState::NotAsked,
            granted_at: None,
            launch_hash: None,
            launch_command: None,
            scope: None,
        }
    }

    /// A copy of this record.
    pub fn duplicate(&self) -> (r: Self)
        ensures
            r@ == self@,
    {
        ConsentRecord {
            state: self.state,
            granted_at: clone_opt(&self.granted_at),
            launch_hash: clone_opt(&self.launch_hash),
            launch_command: clone_opt(&self.launch_command),
            scope: self.scope,
        }
    }
}

pub open spec fn not_asked_spec() -> RecordV {
    RecordV {
        state: ConsentState::NotAsked,
        granted_at: None,
        launch_hash: None,
        launch_command: None,
        scope: None,
    }
}

/// Consent as it applies to a card with launch hash `hash`, given what is on record for its
/// name: nothing on record reads as not asked; a grant for another hash reads as stale; any
/// other record is returned as it is.
pub open spec fn evaluate_spec(on_record: Option<RecordV>, hash: Seq<char>) -> RecordV {
    match on_record {
        None => not_asked_spec(),
        Some(rec) => if rec.state != ConsentState::Granted {
            rec
        } else if rec.launch_hash == Some(hash) {
            rec
        } else {
            RecordV { state: ConsentState::Stale, ..rec }
        },
    }
}

/// Consent for server `name` with launch hash `hash` under the records `m`.
pub open spec fn consent_for(m: Map<Seq<char>, RecordV>, name: Seq<char>, hash: Seq<char>) -> RecordV {
    evaluate_spec(
        if m.contains_key(name) {
            Some(m[name])
        } else {
            None
        },
        hash,
    )
}

/// A grant is bound to the launch hash it was given for: the same hash reads as granted, any
/// other hash as stale, with the approved command still on record to show what changed.
pub proof fn law_grant_binds_to_launch_hash(
    m: Map<Seq<char>, RecordV>,
    name: Seq<char>,
    hash: Seq<char>,
    other: Seq<char>,
    command: Seq<char>,
    scope: ConsentScope,
    at: Seq<char>,
)
    requires
        other != hash,
    ensures
        consent_for(m.insert(name, granted_spec(at, hash, command, scope)), name, hash).state
            == ConsentState::Granted,
        consent_for(m.insert(name, granted_spec(at, hash, command, scope)), name, other).state
            == ConsentState::Stale,
        consent_for(m.insert(name, granted_spec(at, hash, command, scope)), name, other).launch_command
            == Some(command),
{
}

/// A denial is never reinterpreted: whatever the card's launch hash, it reads as denied.
pub proof fn law_denial_is_never_reinterpreted(
    m: Map<Seq<char>, RecordV>,
    name: Seq<char>,
    hash: Seq<char>,
    at: Seq<char>,
)
    ensures
        consent_for(m.insert(name, denied_spec(at)), name, hash).state == ConsentState::Denied,
{
}

/// Forgetting a server puts it back to "not asked".
pub proof fn law_forget_means_not_asked(m: Map<Seq<char>, RecordV>, name: Seq<char>, hash: Seq<char>)
    ensures
        consent_for(m.remove(name), name, hash) == not_asked_spec(),
{
}

/// A store with no records, such as an absent or unreadable file, reads as "not asked" for
/// every server, never as denied.
pub proof fn law_absent_store_reads_not_asked(name: Seq<char>, hash: Seq<char>)
    ensures
        consent_for(Map::empty(), name, hash) == not_asked_spec(),
{
}

/// Writing one server's decision leaves every other server's decision as it was.
pub proof fn law_write_keeps_other_decisions(
    m: Map<Seq<char>, RecordV>,
    name: Seq<char>,
    record: RecordV,
    other: Seq<char>,
    hash: Seq<char>,
)
    requires
        other != name,
    ensures
        consent_for(m.insert(name, record), other, hash) == consent_for(m, other, hash),
        consent_for(m.remove(name), other, hash) == consent_for(m, other, hash),
{
}

// ---------------------------------------------------------------------------------------------
// Ordered records
// ---------------------------------------------------------------------------------------------

/// Lexicographic order on character sequences (the order of `String`).
pub open spec fn chars_lt(a: Seq<char>, b: Seq<char>) -> bool
    decreases a.len(),
{
    if a.len() == 0 {
        b.len() > 0
    } else if b.len() == 0 {
        false
    } else if a[0] < b[0] {
        true
    } else if a[0] > b[0] {
        false
    } else {
        chars_lt(a.drop_first(), b.drop_first())
    }
}

pub proof fn lemma_chars_lt_irreflexive(a: Seq<char>)
    ensures
        !chars_lt(a, a),
    decreases a.len(),
{
    if a.len() > 0 {
        lemma_chars_lt_irreflexive(a.drop_first());
    }
}

pub proof fn lemma_chars_lt_transitive(a: Seq<char>, b: Seq<char>, c: Seq<char>)
    requires
        chars_lt(a, b),
        chars_lt(b, c),
    ensures
        chars_lt(a, c),
    decreases a.len(),
{
    if a.len() > 0 && b.len() > 0 && c.len() > 0 && a[0] == b[0] && b[0] == c[0] {
        lemma_chars_lt_transitive(a.drop_first(), b.drop_first(), c.drop_first());
    }
}

pub proof fn lemma_chars_lt_total(a: Seq<char>, b: Seq<char>)
    ensures
        a == b || chars_lt(a, b) || chars_lt(b, a),
    decreases a.len(),
{
    if a.len() > 0 && b.len() > 0 && a[0] == b[0] {
        lemma_chars_lt_total(a.drop_first(), b.drop_first());
        if a.drop_first() == b.drop_first() {
            assert(a =~= seq![a[0]] + a.drop_first());
            assert(b =~= seq![b[0]] + b.drop_first());
        }
    } else if a.len() == 0 && b.len() == 0 {
        assert(a =~= b);
    }
}

/// Names in strictly increasing order, so each name occurs once.
pub open spec fn sorted_names(s: Seq<(String, ConsentRecord)>) -> bool {
    forall|i: int, j: int| 0 <= i < j < s.len() ==> chars_lt(#[trigger] s[i].0@, #[trigger] s[j].0@)
}

/// The records as a map from server name to record.
pub open spec fn to_map(s: Seq<(String, ConsentRecord)>) -> Map<Seq<char>, RecordV>
    decreases s.len(),
{
    if s.len() == 0 {
        Map::empty()
    } else {
        to_map(s.drop_last()).insert(s.last().0@, s.last().1@)
    }
}

/// Where a name is on record, the map holds that entry's record.
pub proof fn lemma_to_map(s: Seq<(String, ConsentRecord)>)
    requires
        sorted_names(s),
    ensures
        forall|k: Seq<char>| #[trigger] to_map(s).contains_key(k) <==> exists|i: int| 0 <= i < s.len() && s[i].0@ == k,
        forall|i: int| 0 <= i < s.len() ==> #[trigger] to_map(s)[s[i].0@] == s[i].1@,
    decreases s.len(),
{
    if s.len() > 0 {
        let t = s.drop_last();
        assert(sorted_names(t));
        lemma_to_map(t);
        assert forall|k: Seq<char>| #[trigger] to_map(s).contains_key(k) <==> exists|i: int|
            0 <= i < s.len() && s[i].0@ == k by {
            if to_map(s).contains_key(k) && k != s.last().0@ {
                let i = choose|i: int| 0 <= i < t.len() && t[i].0@ == k;
                assert(s[i].0@ == k);
            }
            if exists|i: int| 0 <= i < s.len() && s[i].0@ == k {
                let i = choose|i: int| 0 <= i < s.len() && s[i].0@ == k;
                if i < s.len() - 1 {
                    assert(t[i].0@ == k);
                }
            }
        }
        assert forall|i: int| 0 <= i < s.len() implies #[trigger] to_map(s)[s[i].0@] == s[i].1@ by {
            if i < s.len() - 1 {
                assert(chars_lt(s[i].0@, s[s.len() - 1].0@));
                lemma_chars_lt_irreflexive(s[i].0@);
                assert(t[i] == s[i]);
            }
        }
    }
}

/// Lexicographic comparison of two strings.
pub fn chars_less(a: &str, b: &str) -> (r: bool)
    ensures
        r == chars_lt(a@, b@),
{
    let x = chars_of(a);
    let y = chars_of(b);
    let mut i: usize = 0;
    assert(x@.skip(0) =~= x@);
    assert(y@.skip(0) =~= y@);
    while i < x.len() && i < y.len()
        invariant
            x@ == a@,
            y@ == b@,
            i <= x@.len(),
            i <= y@.len(),
            chars_lt(a@, b@) == chars_lt(x@.skip(i as int), y@.skip(i as int)),
        decreases x@.len() - i,
    {
        if x[i] < y[i] {
            return true;
        }
        if x[i] > y[i] {
            return false;
        }
        assert(x@.skip(i as int).drop_first() =~= x@.skip(i + 1));
        assert(y@.skip(i as int).drop_first() =~= y@.skip(i + 1));
        i = i + 1;
    }
    i == x.len() && i < y.len()
}

/// Where the name at index `j` is replaced by an entry with the same name, the map changes in
/// that entry alone.
proof fn lemma_replace(s: Seq<(String, ConsentRecord)>, j: int, e: (String, ConsentRecord))
    requires
        sorted_names(s),
        0 <= j < s.len(),
        s[j].0@ == e.0@,
    ensures
        sorted_names(s.update(j, e)),
        to_map(s.update(j, e)) == to_map(s).insert(e.0@, e.1@),
{
    let t = s.update(j, e);
    assert(sorted_names(t)) by {
        assert forall|a: int, b: int| 0 <= a < b < t.len() implies chars_lt(#[trigger] t[a].0@, #[trigger] t[b].0@) by {
            assert(chars_lt(s[a].0@, s[b].0@));
        }
    }
    lemma_to_map(s);
    lemma_to_map(t);
    assert forall|k: Seq<char>| #[trigger] to_map(t).contains_key(k) <==> to_map(s).insert(e.0@, e.1@).contains_key(k) by {
        if k == e.0@ {
            assert(t[j].0@ == k);
        }
        if to_map(s).contains_key(k) {
            let i = choose|i: int| 0 <= i < s.len() && s[i].0@ == k;
            assert(t[i].0@ == k);
        }
        if to_map(t).contains_key(k) {
            let i = choose|i: int| 0 <= i < t.len() && t[i].0@ == k;
            assert(s[i].0@ == k);
        }
    }
    assert forall|k: Seq<char>| #[trigger] to_map(t).contains_key(k) implies to_map(t)[k] == to_map(s).insert(e.0@, e.1@)[k] by {
        let i = choose|i: int| 0 <= i < t.len() && t[i].0@ == k;
        if i != j {
            assert(t[i] == s[i]);
            assert(k != e.0@) by {
                if i < j {
                    assert(chars_lt(s[i].0@, s[j].0@));
                } else {
                    assert(chars_lt(s[j].0@, s[i].0@));
                }
                lemma_chars_lt_irreflexive(k);
            }
        }
    }
    assert(to_map(t) =~= to_map(s).insert(e.0@, e.1@));
}

/// Inserting a new name at its place in the order keeps the order and adds that entry.
proof fn lemma_insert(s: Seq<(String, ConsentRecord)>, j: int, e: (String, ConsentRecord))
    requires
        sorted_names(s),
        0 <= j <= s.len(),
        forall|k: int| 0 <= k < j ==> chars_lt(#[trigger] s[k].0@, e.0@),
        j < s.len() ==> chars_lt(e.0@, s[j].0@),
    ensures
        sorted_names(s.insert(j, e)),
        to_map(s.insert(j, e)) == to_map(s).insert(e.0@, e.1@),
{
    let t = s.insert(j, e);
    assert(sorted_names(t)) by {
        assert forall|a: int, b: int| 0 <= a < b < t.len() implies chars_lt(#[trigger] t[a].0@, #[trigger] t[b].0@) by {
            if b < j {
                assert(chars_lt(s[a].0@, s[b].0@));
            } else if b == j {
            } else if a < j {
                assert(t[b] == s[b - 1]);
                if b - 1 > j {
                    assert(chars_lt(s[j].0@, s[b - 1].0@));
                    lemma_chars_lt_transitive(e.0@, s[j].0@, s[b - 1].0@);
                }
                lemma_chars_lt_transitive(s[a].0@, e.0@, s[b - 1].0@);
            } else if a == j {
                assert(t[b] == s[b - 1]);
                if b - 1 > j {
                    assert(chars_lt(s[j].0@, s[b - 1].0@));
                    lemma_chars_lt_transitive(e.0@, s[j].0@, s[b - 1].0@);
                }
            } else {
                assert(chars_lt(s[a - 1].0@, s[b - 1].0@));
            }
        }
    }
    lemma_to_map(s);
    lemma_to_map(t);
    assert forall|k: Seq<char>| #[trigger] to_map(t).contains_key(k) <==> to_map(s).insert(e.0@, e.1@).contains_key(k) by {
        if k == e.0@ {
            assert(t[j].0@ == k);
        }
        if to_map(s).contains_key(k) {
            let i = choose|i: int| 0 <= i < s.len() && s[i].0@ == k;
            if i < j {
                assert(t[i].0@ == k);
            } else {
                assert(t[i + 1].0@ == k);
            }
        }
        if to_map(t).contains_key(k) {
            let i = choose|i: int| 0 <= i < t.len() && t[i].0@ == k;
            if i < j {
                assert(s[i].0@ == k);
            } else if i > j {
                assert(s[i - 1].0@ == k);
            }
        }
    }
    assert forall|k: Seq<char>| #[trigger] to_map(t).contains_key(k) implies to_map(t)[k] == to_map(s).insert(e.0@, e.1@)[k] by {
        let i = choose|i: int| 0 <= i < t.len() && t[i].0@ == k;
        if i != j {
            assert(k != e.0@) by {
                if i < j {
                    assert(t[i] == s[i]);
                    lemma_chars_lt_irreflexive(k);
                } else {
                    assert(t[i] == s[i - 1]);
                    if i - 1 > j {
                        assert(chars_lt(s[j].0@, s[i - 1].0@));
                        lemma_chars_lt_transitive(e.0@, s[j].0@, s[i - 1].0@);
                    }
                    lemma_chars_lt_irreflexive(k);
                }
            }
            if i < j {
                assert(t[i] == s[i]);
            } else {
                assert(t[i] == s[i - 1]);
            }
        }
    }
    assert(to_map(t) =~= to_map(s).insert(e.0@, e.1@));
}

/// Removing the entry at `j` keeps the order and drops that name from the map.
proof fn lemma_remove(s: Seq<(String, ConsentRecord)>, j: int)
    requires
        sorted_names(s),
        0 <= j < s.len(),
    ensures
        sorted_names(s.remove(j)),
        to_map(s.remove(j)) == to_map(s).remove(s[j].0@),
{
    let t = s.remove(j);
    let k0 = s[j].0@;
    assert(sorted_names(t)) by {
        assert forall|a: int, b: int| 0 <= a < b < t.len() implies chars_lt(#[trigger] t[a].0@, #[trigger] t[b].0@) by {
            let a2 = if a < j { a } else { a + 1 };
            let b2 = if b < j { b } else { b + 1 };
            assert(t[a] == s[a2]);
            assert(t[b] == s[b2]);
            assert(chars_lt(s[a2].0@, s[b2].0@));
        }
    }
    lemma_to_map(s);
    lemma_to_map(t);
    assert forall|k: Seq<char>| #[trigger] to_map(t).contains_key(k) <==> to_map(s).remove(k0).contains_key(k) by {
        if to_map(t).contains_key(k) {
            let i = choose|i: int| 0 <= i < t.len() && t[i].0@ == k;
            let i2 = if i < j { i } else { i + 1 };
            assert(t[i] == s[i2]);
            assert(k != k0) by {
                if i2 < j {
                    assert(chars_lt(s[i2].0@, s[j].0@));
                } else {
                    assert(chars_lt(s[j].0@, s[i2].0@));
                }
                lemma_chars_lt_irreflexive(k);
            }
        }
        if to_map(s).remove(k0).contains_key(k) {
            let i = choose|i: int| 0 <= i < s.len() && s[i].0@ == k;
            assert(i != j);
            if i < j {
                assert(t[i] == s[i]);
            } else {
                assert(t[i - 1] == s[i]);
            }
        }
    }
    assert forall|k: Seq<char>| #[trigger] to_map(t).contains_key(k) implies to_map(t)[k] == to_map(s).remove(k0)[k] by {
        let i = choose|i: int| 0 <= i < t.len() && t[i].0@ == k;
        let i2 = if i < j { i } else { i + 1 };
        assert(t[i] == s[i2]);
    }
    assert(to_map(t) =~= to_map(s).remove(k0));
}

// ---------------------------------------------------------------------------------------------
// Timestamps
// ---------------------------------------------------------------------------------------------

/// Howard Hinnant's civil-from-days: days since 1970-01-01 to a proleptic Gregorian date.
pub open spec fn civil_spec(days: int) -> (int, int, int) {
    let z = days + 719468;
    let era = z / 146097;
    let doe = z % 146097;
    let yoe = (doe - doe / 1460 + doe / 36524 - doe / 146096) / 365;
    let y = yoe + era * 400;
    let doy = doe - (365 * yoe + yoe / 4 - yoe / 100);
    let mp = (5 * doy + 2) / 153;
    let d = doy - (153 * mp + 2) / 5 + 1;
    let m = if mp < 10 {
        mp + 3
    } else {
        mp - 9
    };
    (if m <= 2 {
        y + 1
    } else {
        y
    }, m, d)
}

/// Zero padding on the left up to `width` characters.
pub open spec fn zero_pad(digits: Seq<char>, width: nat) -> Seq<char> {
    if digits.len() >= width {
        digits
    } else {
        Seq::new((width - digits.len()) as nat, |i: int| '0') + digits
    }
}

/// `format!("{:0width$}", n)`: the sign counts towards the width.
pub open spec fn padded(n: int, width: nat) -> Seq<char> {
    if n < 0 {
        seq!['-'] + zero_pad(crate::canonical::decimal((-n) as nat), (width - 1) as nat)
    } else {
        zero_pad(crate::canonical::decimal(n as nat), width)
    }
}

/// RFC 3339 UTC timestamp, to the second, of `secs` seconds after the Unix epoch.
pub open spec fn rfc3339_spec(secs: int) -> Seq<char> {
    let days = secs / 86400;
    let rem = secs % 86400;
    let (year, month, day) = civil_spec(days);
    padded(year, 4) + seq!['-'] + padded(month, 2) + seq!['-'] + padded(day, 2) + seq!['T']
        + padded(rem / 3600, 2) + seq![':'] + padded((rem % 3600) / 60, 2) + seq![':'] + padded(
        rem % 60,
        2,
    ) + seq!['Z']
}

/// Floor division and its remainder, for a positive divisor.
fn floor_div_mod(a: i64, b: i64) -> (r: (i64, i64))
    requires
        b > 0,
        b < 1000000,
    ensures
        r.0 == a / b,
        r.1 == a % b,
{
    let a2 = a as i128;
    let b2 = b as i128;
    let q: i128 = if a2 >= 0 {
        a2 / b2
    } else {
        let t = (-a2) + b2 - 1;
        let u = t / b2;
        proof {
            let ai = a as int;
            let bi = b as int;
            assert(-(((-ai) + bi - 1) / bi) == ai / bi) by (nonlinear_arith)
                requires
                    bi > 0,
                    ai < 0,
            {
            }
        }
        -u
    };
    let ghost qi = a as int / b as int;
    assert(q == qi);
    assert(-9223372036854775808 <= qi <= 9223372036854775807 && a as int - qi * (b as int) == a
        as int % b as int && 0 <= a as int - qi * (b as int) < b as int) by (nonlinear_arith)
        requires
            b as int > 0,
            qi == a as int / b as int,
            -9223372036854775808 <= a as int <= 9223372036854775807,
    {
    }
    let r = a2 - q * b2;
    (q as i64, r as i64)
}

/// Days since 1970-01-01 to a proleptic Gregorian (year, month, day).
pub fn civil_from_days(days: i64) -> (r: (i64, u32, u32))
    requires
        days <= i64::MAX - 719_468,
    ensures
        (r.0 as int, r.1 as int, r.2 as int) == civil_spec(days as int),
{
    let z = days + 719_468;
    let (era, doe) = floor_div_mod(z, 146_097);
    assert(0 <= doe < 146097);
    let yoe = (doe - doe / 1460 + doe / 36_524 - doe / 146_096) / 365;
    assert(0 <= yoe <= 400) by (nonlinear_arith)
        requires
            0 <= doe < 146097,
            yoe == (doe - doe / 1460 + doe / 36_524 - doe / 146_096) / 365,
    {
    }
    assert(-100000000000000 <= era <= 100000000000000) by (nonlinear_arith)
        requires
            era == z / 146097,
            -9223372036854775808 <= z <= 9223372036854775807,
    {
    }
    let y = yoe + era * 400;
    let doy = doe - (365 * yoe + yoe / 4 - yoe / 100);
    assert(0 <= doy < 366) by (nonlinear_arith)
        requires
            0 <= doe < 146097,
            yoe == (doe - doe / 1460 + doe / 36_524 - doe / 146_096) / 365,
            doy == doe - (365 * yoe + yoe / 4 - yoe / 100),
    {
    }
    let mp = (5 * doy + 2) / 153;
    let d = doy - (153 * mp + 2) / 5 + 1;
    assert(0 <= mp < 12 && 1 <= d <= 31) by (nonlinear_arith)
        requires
            0 <= doy < 366,
            mp == (5 * doy + 2) / 153,
            d == doy - (153 * mp + 2) / 5 + 1,
    {
    }
    let m = if mp < 10 {
        mp + 3
    } else {
        mp - 9
    };
    (if m <= 2 {
        y + 1
    } else {
        y
    }, m as u32, d as u32)
}

/// Appends `n` formatted with at least `width` characters, zero-padded after the sign.
fn push_padded(out: &mut Vec<char>, n: i64, width: usize)
    requires
        1 <= width <= 4,
    ensures
        final(out)@ == old(out)@ + padded(n as int, width as nat),
{
    let mut digits: Vec<char> = Vec::new();
    let negative = n < 0;
    let mag: u64 = if n == i64::MIN {
        9223372036854775808u64
    } else if negative {
        (-n) as u64
    } else {
        n as u64
    };
    crate::canonical::push_decimal(&mut digits, mag);
    assert(digits@ == crate::canonical::decimal(mag as nat));
    let ghost start = out@;
    let target: usize = if negative {
        out.push('-');
        width - 1
    } else {
        width
    };
    let ghost before_pad = out@;
    let mut k: usize = digits.len();
    while k < target
        invariant
            digits@.len() <= k <= target || (k == digits@.len() && target < k),
            out@ == before_pad + Seq::new((k - digits@.len()) as nat, |i: int| '0'),
        decreases target - k,
    {
        out.push('0');
        k = k + 1;
        assert(out@ =~= before_pad + Seq::new((k - digits@.len()) as nat, |i: int| '0'));
    }
    let ghost before_digits = out@;
    let mut t: usize = 0;
    while t < digits.len()
        invariant
            t <= digits@.len(),
            out@ == before_digits + digits@.subrange(0, t as int),
        decreases digits@.len() - t,
    {
        out.push(digits[t]);
        t = t + 1;
        assert(out@ =~= before_digits + digits@.subrange(0, t as int));
    }
    assert(digits@.subrange(0, digits@.len() as int) =~= digits@);
    proof {
        let zp = zero_pad(digits@, target as nat);
        if digits@.len() >= target {
            assert(Seq::new((k - digits@.len()) as nat, |i: int| '0') =~= Seq::<char>::empty());
            assert(out@ =~= before_pad + zp);
        } else {
            assert(out@ =~= before_pad + zp);
        }
        if negative {
            assert(out@ =~= start + padded(n as int, width as nat));
        } else {
            assert(out@ =~= start + padded(n as int, width as nat));
        }
    }
}

/// RFC 3339 timestamp in UTC of `secs` seconds after the Unix epoch.
pub fn rfc3339(secs: i64) -> (r: String)
    ensures
        r@ == rfc3339_spec(secs as int),
{
    let (days, rem) = floor_div_mod(secs, 86_400);
    assert(-1000000000000000 <= days <= 1000000000000000) by (nonlinear_arith)
        requires
            days == secs / 86400,
            -9223372036854775808 <= secs <= 9223372036854775807,
    {
    }
    let (year, month, day) = civil_from_days(days);
    let hour = rem / 3600;
    let minute = (rem % 3600) / 60;
    let second = rem % 60;
    let mut out: Vec<char> = Vec::new();
    push_padded(&mut out, year, 4);
    out.push('-');
    push_padded(&mut out, month as i64, 2);
    out.push('-');
    push_padded(&mut out, day as i64, 2);
    out.push('T');
    push_padded(&mut out, hour, 2);
    out.push(':');
    push_padded(&mut out, minute, 2);
    out.push(':');
    push_padded(&mut out, second, 2);
    out.push('Z');
    assert(out@ =~= rfc3339_spec(secs as int));
    crate::text::string_from_chars(out.as_slice())
}

#[verifier::external_type_specification]
#[verifier::external_body]
pub struct ExSystemTime(std::time::SystemTime);

#[verifier::external_type_specification]
#[verifier::external_body]
pub struct ExSystemTimeError(std::time::SystemTimeError);

/// `SystemTime::now`: the system clock at the time of the call. Nothing is stated about it.
#[verifier::external_body]
fn clock_now() -> std::time::SystemTime {
    std::time::SystemTime::now()
}

/// `SystemTime::duration_since` the Unix epoch: the time elapsed since then, or an error when
/// the clock reads earlier. Nothing is stated about the value, which depends on the clock.
#[verifier::external_body]
fn since_epoch(t: &std::time::SystemTime) -> std::result::Result<std::time::Duration, std::time::SystemTimeError> {
    t.duration_since(std::time::UNIX_EPOCH)
}

/// `Duration::as_secs`: the whole seconds of a duration. Nothing is stated about the value.
#[verifier::external_body]
fn whole_secs(d: &std::time::Duration) -> u64 {
    d.as_secs()
}

/// Seconds since the Unix epoch on the system clock, 0 if the clock reads earlier than that.
/// The value is whatever the clock reads at the call, so no clause states it.
fn unix_now() -> i64 {
    match since_epoch(&clock_now()) {
        Ok(d) => whole_secs(&d) as i64,
        Err(_) => 0,
    }
}

/// RFC 3339 timestamp in UTC of the current time.
pub fn rfc3339_now() -> (r: String)
    ensures
        exists|secs: i64| r@ == rfc3339_spec(secs as int),
{
    rfc3339(unix_now())
}

// ---------------------------------------------------------------------------------------------
// The store
// ---------------------------------------------------------------------------------------------

/// Identity of the store file as last read or written: modification time and length.
#[derive(Debug, Clone, Copy, PartialEq, Eq, Structural)]
pub struct FileIdentity {
    pub modified_secs: u64,
    pub modified_nanos: u32,
    pub len: u64,
}

/// The records of `consent.json`, kept in name order, plus the identity of the file as last
/// seen.
#[derive(Debug)]
pub struct ConsentStore {
    path: String,
    records: Vec<(String, ConsentRecord)>,
    seen: Option<FileIdentity>,
}

/// A granted record.
pub open spec fn granted_spec(
    at: Seq<char>,
    hash: Seq<char>,
    command: Seq<char>,
    scope: ConsentScope,
) -> RecordV {
    RecordV {
        state: ConsentState::Granted,
        granted_at: Some(at),
        launch_hash: Some(hash),
        launch_command: Some(command),
        scope: Some(scope),
    }
}

/// A denied record.
pub open spec fn denied_spec(at: Seq<char>) -> RecordV {
    RecordV {
        state: ConsentState::Denied,
        granted_at: Some(at),
        launch_hash: None,
        launch_command: None,
        scope: None,
    }
}

/// The records a list read from disk stands for; a later entry for the same name wins.
pub open spec fn disk_records(contents: Option<Seq<(String, ConsentRecord)>>) -> Map<Seq<char>, RecordV> {
    match contents {
        Some(s) => to_map(s),
        None => Map::empty(),
    }
}

/// The plain value of what a read of the store file gave.
pub open spec fn contents_view(contents: Option<Vec<(String, ConsentRecord)>>) -> Option<Seq<(String, ConsentRecord)>> {
    match contents {
        Some(v) => Some(v@),
        None => None,
    }
}

/// Whether a file with `identity` has to be read again by a store that last saw `seen`.
pub open spec fn changed(seen: Option<FileIdentity>, identity: Option<FileIdentity>) -> bool {
    !(identity == seen && seen is Some)
}

/// The records a store works from once it has looked at its file: what the file holds when
/// the file changed since the store last saw it, otherwise what the store already holds.
pub open spec fn current(
    held: Map<Seq<char>, RecordV>,
    seen: Option<FileIdentity>,
    identity: Option<FileIdentity>,
    contents: Option<Seq<(String, ConsentRecord)>>,
) -> Map<Seq<char>, RecordV> {
    if changed(seen, identity) {
        disk_records(contents)
    } else {
        held
    }
}

/// A write is a modification of what is current, not a replacement of it: a decision recorded
/// for one server leaves every other server's decision as the file (or, when the file has not
/// changed, the store) has it.
pub proof fn law_write_keeps_decisions_on_disk(
    held: Map<Seq<char>, RecordV>,
    seen: Option<FileIdentity>,
    identity: Option<FileIdentity>,
    contents: Option<Seq<(String, ConsentRecord)>>,
    name: Seq<char>,
    record: RecordV,
    other: Seq<char>,
)
    requires
        other != name,
    ensures
        current(held, seen, identity, contents).insert(name, record).contains_key(other)
            == current(held, seen, identity, contents).contains_key(other),
        current(held, seen, identity, contents).contains_key(other) ==> current(held, seen, identity, contents).insert(
            name,
            record,
        )[other] == current(held, seen, identity, contents)[other],
        changed(seen, identity) ==> current(held, seen, identity, contents).insert(name, record)
            == disk_records(contents).insert(name, record),
        current(held, seen, identity, contents).insert(name, record)[name] == record,
{
}

/// Forgetting a server, after looking at the file, leaves it unasked about for every card
/// hash, and leaves every other server's decision as it was current.
pub proof fn law_forget_after_refresh_means_not_asked(
    held: Map<Seq<char>, RecordV>,
    seen: Option<FileIdentity>,
    identity: Option<FileIdentity>,
    contents: Option<Seq<(String, ConsentRecord)>>,
    name: Seq<char>,
    hash: Seq<char>,
)
    ensures
        consent_for(current(held, seen, identity, contents).remove(name), name, hash).state == ConsentState::NotAsked,
        forall|other: Seq<char>| other != name ==> (#[trigger] current(held, seen, identity, contents).remove(name).contains_key(other))
            == current(held, seen, identity, contents).contains_key(other),
{
    law_forget_means_not_asked(current(held, seen, identity, contents), name, hash);
}

impl ConsentStore {
    #[verifier::type_invariant]
    spec fn ordered(self) -> bool {
        sorted_names(self.records@)
    }

    /// The records, by server name.
    pub closed spec fn view(&self) -> Map<Seq<char>, RecordV> {
        to_map(self.records@)
    }

    /// Identity of the store file as last read or written.
    pub closed spec fn seen(&self) -> Option<FileIdentity> {
        self.seen
    }

    /// Where the store file lives.
    pub closed spec fn path_spec(&self) -> Seq<char> {
        self.path@
    }

    /// The store kept in `state_dir`, before anything has been read from it. An absent or
    /// unreadable file means nothing has been decided yet: never denial.
    pub fn load(p: Platform, state_dir: &str) -> (r: Self)
        ensures
            r@ == Map::<Seq<char>, RecordV>::empty(),
            r.seen() is None,
            r.path_spec() == join_path(p, state_dir@, "consent.json"@),
    {
        let r = ConsentStore { path: join(p, state_dir, "consent.json"), records: Vec::new(), seen: None };
        assert(r@ =~= Map::<Seq<char>, RecordV>::empty());
        r
    }

    /// Where the store file lives.
    pub fn path(&self) -> (r: &str)
        ensures
            r@ == self.path_spec(),
    {
        self.path.as_str()
    }

    /// Whether the file has to be read again: it changed since it was last seen, or it has not
    /// been seen at all.
    pub fn needs_reload(&self, identity: Option<FileIdentity>) -> (r: bool)
        ensures
            r == !(identity == self.seen() && self.seen() is Some),
    {
        match (identity, self.seen) {
            (Some(a), Some(b)) => !(a.modified_secs == b.modified_secs && a.modified_nanos
                == b.modified_nanos && a.len == b.len),
            _ => true,
        }
    }

    /// Take what is on disk as the records: `contents` is what the file held (`None` when it
    /// could not be read or parsed), `identity` the file's identity when it was read.
    pub fn reload(&mut self, identity: Option<FileIdentity>, contents: Option<Vec<(String, ConsentRecord)>>)
        ensures
            final(self)@ == disk_records(match contents { Some(v) => Some(v@), None => None }),
            final(self).seen() == identity,
            final(self).path_spec() == old(self).path_spec(),
    {
        let mut fresh: Vec<(String, ConsentRecord)> = Vec::new();
        std::mem::swap(&mut self.records, &mut fresh);
        self.seen = identity;
        match contents {
            Some(v) => {
                let mut i: usize = 0;
                assert(v@.take(0) =~= Seq::<(String, ConsentRecord)>::empty());
                assert(self@ =~= to_map(v@.take(0)));
                while i < v.len()
                    invariant
                        i <= v@.len(),
                        self@ == to_map(v@.take(i as int)),
                        self.seen() == identity,
                        self.path_spec() == old(self).path_spec(),
                    decreases v@.len() - i,
                {
                    let name = &v[i].0;
                    let rec = v[i].1.duplicate();
                    self.put(name.as_str(), rec);
                    assert(v@.take(i + 1).drop_last() =~= v@.take(i as int));
                    i = i + 1;
                }
                assert(v@.take(v@.len() as int) =~= v@);
            },
            None => {
                assert(self@ =~= Map::<Seq<char>, RecordV>::empty());
            },
        }
    }

    /// Bring in a new reading of the file when it changed: `contents` is only looked at when
    /// `needs_reload(identity)` holds.
    pub fn refresh(&mut self, identity: Option<FileIdentity>, contents: Option<Vec<(String, ConsentRecord)>>)
        ensures
            if !(identity == old(self).seen() && old(self).seen() is Some) {
                &&& final(self)@ == disk_records(match contents { Some(v) => Some(v@), None => None })
                &&& final(self).seen() == identity
            } else {
                &&& final(self)@ == old(self)@
                &&& final(self).seen() == old(self).seen()
            },
            final(self).path_spec() == old(self).path_spec(),
    {
        if self.needs_reload(identity) {
            self.reload(identity, contents);
        }
    }

    /// Record that the file now has `identity` because this store wrote it, so the write is not
    /// mistaken for someone else's on the next refresh.
    pub fn note_written(&mut self, identity: Option<FileIdentity>)
        ensures
            final(self)@ == old(self)@,
            final(self).seen() == identity,
            final(self).path_spec() == old(self).path_spec(),
    {
        proof {
            use_type_invariant(&*self);
        }
        self.seen = identity;
    }

    /// Consent as it applies to one card. `Granted` decays to `Stale` when the launch stanza has
    /// changed since approval; `Denied` is returned verbatim, never reinterpreted.
    pub fn evaluate(&self, name: &str, launch_hash: &str) -> (r: ConsentRecord)
        ensures
            r@ == consent_for(self@, name@, launch_hash@),
    {
        proof {
            use_type_invariant(&*self);
            lemma_to_map(self.records@);
        }
        let mut i: usize = 0;
        while i < self.records.len()
            invariant
                i <= self.records@.len(),
                sorted_names(self.records@),
                forall|k: int| 0 <= k < i ==> (#[trigger] self.records@[k]).0@ != name@,
            decreases self.records@.len() - i,
        {
            if str_eq(self.records[i].0.as_str(), name) {
                proof {
                    lemma_to_map(self.records@);
                }
                let record = &self.records[i].1;
                if record.state != ConsentState::Granted {
                    return record.duplicate();
                }
                let same = match &record.launch_hash {
                    Some(stored) => str_eq(stored.as_str(), launch_hash),
                    None => false,
                };
                if same {
                    return record.duplicate();
                }
                let mut r = record.duplicate();
                r.state = ConsentState::Stale;
                return r;
            }
            i = i + 1;
        }
        proof {
            lemma_to_map(self.records@);
        }
        ConsentRecord::not_asked()
    }

    /// Record `record` under `name`, replacing whatever was there.
    fn put(&mut self, name: &str, record: ConsentRecord)
        ensures
            final(self)@ == old(self)@.insert(name@, record@),
            final(self).seen() == old(self).seen(),
            final(self).path_spec() == old(self).path_spec(),
    {
        proof {
            use_type_invariant(&*self);
        }
        let mut recs: Vec<(String, ConsentRecord)> = Vec::new();
        std::mem::swap(&mut self.records, &mut recs);
        let mut j: usize = 0;
        while j < recs.len() && chars_less(recs[j].0.as_str(), name)
            invariant
                j <= recs@.len(),
                sorted_names(recs@),
                forall|k: int| 0 <= k < j ==> chars_lt(#[trigger] recs@[k].0@, name@),
            decreases recs@.len() - j,
        {
            j = j + 1;
        }
        let ghost old_recs = recs@;
        let entry = (owned(name), record);
        if j < recs.len() && str_eq(recs[j].0.as_str(), name) {
            proof {
                lemma_replace(old_recs, j as int, entry);
            }
            recs.set(j, entry);
        } else {
            proof {
                if j < old_recs.len() {
                    lemma_chars_lt_total(old_recs[j as int].0@, name@);
                }
                lemma_insert(old_recs, j as int, entry);
            }
            recs.insert(j, entry);
        }
        self.records = recs;
    }

    /// Record a grant of `launch_hash` with the command it stands for, made at `granted_at`.
    pub fn grant_at(
        &mut self,
        name: &str,
        launch_hash: &str,
        launch_command: &str,
        scope: ConsentScope,
        granted_at: String,
    )
        ensures
            final(self)@ == old(self)@.insert(
                name@,
                granted_spec(granted_at@, launch_hash@, launch_command@, scope),
            ),
            final(self).seen() == old(self).seen(),
            final(self).path_spec() == old(self).path_spec(),
    {
        let record = ConsentRecord {
            state: ConsentState::Granted,
            granted_at: Some(granted_at),
            launch_hash: Some(owned(launch_hash)),
            launch_command: Some(owned(launch_command)),
            scope: Some(scope),
        };
        self.put(name, record);
    }

    /// Record a grant of `launch_hash`, stamped with the current time.
    pub fn grant(&mut self, name: &str, launch_hash: &str, launch_command: &str, scope: ConsentScope)
        ensures
            exists|secs: i64|
                final(self)@ == old(self)@.insert(
                    name@,
                    granted_spec(rfc3339_spec(secs as int), launch_hash@, launch_command@, scope),
                ),
            final(self).seen() == old(self).seen(),
            final(self).path_spec() == old(self).path_spec(),
    {
        let now = rfc3339_now();
        self.grant_at(name, launch_hash, launch_command, scope, now);
    }

    /// Record a denial made at `denied_at`.
    pub fn deny_at(&mut self, name: &str, denied_at: String)
        ensures
            final(self)@ == old(self)@.insert(name@, denied_spec(denied_at@)),
            final(self).seen() == old(self).seen(),
            final(self).path_spec() == old(self).path_spec(),
    {
        let record = ConsentRecord {
            state: ConsentState::Denied,
            granted_at: Some(denied_at),
            launch_hash: None,
            launch_command: None,
            scope: None,
        };
        self.put(name, record);
    }

    /// Record a denial, stamped with the current time.
    pub fn deny(&mut self, name: &str)
        ensures
            exists|secs: i64|
                final(self)@ == old(self)@.insert(name@, denied_spec(rfc3339_spec(secs as int))),
            final(self).seen() == old(self).seen(),
            final(self).path_spec() == old(self).path_spec(),
    {
        let now = rfc3339_now();
        self.deny_at(name, now);
    }

    /// Drop whatever is on record for `name`.
    pub fn forget(&mut self, name: &str)
        ensures
            final(self)@ == old(self)@.remove(name@),
            final(self).seen() == old(self).seen(),
            final(self).path_spec() == old(self).path_spec(),
    {
        proof {
            use_type_invariant(&*self);
            lemma_to_map(self.records@);
        }
        let mut recs: Vec<(String, ConsentRecord)> = Vec::new();
        std::mem::swap(&mut self.records, &mut recs);
        let ghost old_recs = recs@;
        let mut j: usize = 0;
        while j < recs.len()
            invariant
                j <= recs@.len(),
                recs@ == old_recs,
                sorted_names(old_recs),
                old_recs == old(self).records@,
                self.seen == old(self).seen,
                self.path == old(self).path,
                forall|k: int| 0 <= k < j ==> (#[trigger] recs@[k]).0@ != name@,
            decreases recs@.len() - j,
        {
            if str_eq(recs[j].0.as_str(), name) {
                proof {
                    lemma_remove(old_recs, j as int);
                }
                recs.remove(j);
                self.records = recs;
                return;
            }
            j = j + 1;
        }
        proof {
            lemma_to_map(old_recs);
        }
        assert(to_map(old_recs).remove(name@) =~= to_map(old_recs));
        self.records = recs;
    }

    /// Read-modify-write of a grant: bring in the file when it changed since it was last seen
    /// (`identity` and `contents` as for `refresh`), then record the grant over that, so the
    /// write modifies whatever is current rather than replacing it with an older map.
    pub fn refresh_and_grant(
        &mut self,
        identity: Option<FileIdentity>,
        contents: Option<Vec<(String, ConsentRecord)>>,
        name: &str,
        launch_hash: &str,
        launch_command: &str,
        scope: ConsentScope,
    )
        ensures
            exists|secs: i64|
                final(self)@ == current(old(self)@, old(self).seen(), identity, contents_view(contents)).insert(
                    name@,
                    granted_spec(rfc3339_spec(secs as int), launch_hash@, launch_command@, scope),
                ),
            final(self).seen() == if changed(old(self).seen(), identity) {
                identity
            } else {
                old(self).seen()
            },
            final(self).path_spec() == old(self).path_spec(),
    {
        self.refresh(identity, contents);
        self.grant(name, launch_hash, launch_command, scope);
    }

    /// Read-modify-write of a denial, as `refresh_and_grant` is of a grant.
    pub fn refresh_and_deny(
        &mut self,
        identity: Option<FileIdentity>,
        contents: Option<Vec<(String, ConsentRecord)>>,
        name: &str,
    )
        ensures
            exists|secs: i64|
                final(self)@ == current(old(self)@, old(self).seen(), identity, contents_view(contents)).insert(
                    name@,
                    denied_spec(rfc3339_spec(secs as int)),
                ),
            final(self).seen() == if changed(old(self).seen(), identity) {
                identity
            } else {
                old(self).seen()
            },
            final(self).path_spec() == old(self).path_spec(),
    {
        self.refresh(identity, contents);
        self.deny(name);
    }

    /// Read-modify-write of forgetting `name`, as `refresh_and_grant` is of a grant.
    pub fn refresh_and_forget(
        &mut self,
        identity: Option<FileIdentity>,
        contents: Option<Vec<(String, ConsentRecord)>>,
        name: &str,
    )
        ensures
            final(self)@ == current(old(self)@, old(self).seen(), identity, contents_view(contents)).remove(name@),
            final(self).seen() == if changed(old(self).seen(), identity) {
                identity
            } else {
                old(self).seen()
            },
            final(self).path_spec() == old(self).path_spec(),
    {
        self.refresh(identity, contents);
        self.forget(name);
    }

    /// Every record, in name order.
    pub fn records(&self) -> (r: &Vec<(String, ConsentRecord)>)
        ensures
            to_map(r@) == self@,
            sorted_names(r@),
    {
        proof {
            use_type_invariant(&*self);
        }
        &self.records
    }
}

} // verus!
