//! RFC 8785 (JCS) canonical JSON: the exact text that a launch hash is taken over.
//!
//! Objects are written with their members ordered by the UTF-16 code units of their names,
//! without whitespace; strings use the short JSON escapes where they exist and `\u00xx` with
//! lowercase hex for the other control characters, and every other character is written raw.

use crate::json::{view_items, view_members, Json, JsonNumber, JsonV};
use crate::json::{lemma_view_items_index, lemma_view_members_index};
use vstd::prelude::*;

verus! {

/// The decimal digit for `d` (`0 <= d < 10`).
pub open spec fn digit_char(d: nat) -> char {
    (d + 48) as char
}

/// Lowercase hexadecimal digit for `d` (`0 <= d < 16`).
pub open spec fn hex_char(d: nat) -> char {
    if d < 10 {
        (d + 48) as char
    } else {
        (d + 87) as char
    }
}

/// Decimal representation of a natural number, without leading zeros.
pub open spec fn decimal(n: nat) -> Seq<char>
    decreases n,
{
    if n < 10 {
        seq![digit_char(n)]
    } else {
        decimal(n / 10).push(digit_char(n % 10))
    }
}

proof fn lemma_decimal_len(n: nat)
    ensures
        decimal(n).len() >= 1,
        decimal(n).len() == 1 <==> n < 10,
    decreases n,
{
    if n >= 10 {
        lemma_decimal_len(n / 10);
    }
}

/// Distinct numbers have distinct decimal texts.
pub proof fn lemma_decimal_injective(a: nat, b: nat)
    requires
        decimal(a) == decimal(b),
    ensures
        a == b,
    decreases a,
{
    lemma_decimal_len(a);
    lemma_decimal_len(b);
    if a < 10 {
        assert(b < 10);
        assert(decimal(a) == seq![digit_char(a)]);
        assert(decimal(b) == seq![digit_char(b)]);
        assert(decimal(a)[0] == digit_char(a));
        assert(decimal(b)[0] == digit_char(b));
        assert(digit_char(a) as u32 == a + 48);
        assert(digit_char(b) as u32 == b + 48);
    } else {
        assert(b >= 10);
        assert(decimal(a) == decimal(a / 10).push(digit_char(a % 10)));
        assert(decimal(b) == decimal(b / 10).push(digit_char(b % 10)));
        assert(decimal(a).last() == digit_char(a % 10));
        assert(decimal(b).last() == digit_char(b % 10));
        assert(digit_char(a % 10) as u32 == a % 10 + 48);
        assert(digit_char(b % 10) as u32 == b % 10 + 48);
        assert(decimal(a).drop_last() =~= decimal(a / 10));
        assert(decimal(b).drop_last() =~= decimal(b / 10));
        lemma_decimal_injective(a / 10, b / 10);
        assert(a == 10 * (a / 10) + a % 10);
        assert(b == 10 * (b / 10) + b % 10);
    }
}

/// The text of a number: integers in decimal, anything else as it was given.
pub open spec fn number_text(n: JsonNumber) -> Seq<char> {
    match n {
        JsonNumber::PosInt(u) => decimal(u as nat),
        JsonNumber::NegInt(i) => if i < 0 {
            seq!['-'] + decimal((-i) as nat)
        } else {
            decimal(i as nat)
        },
        JsonNumber::Float(t) => t@,
    }
}

/// How one character is written inside a JSON string.
pub open spec fn escape_char(c: char) -> Seq<char> {
    if c == '"' {
        seq!['\\', '"']
    } else if c == '\\' {
        seq!['\\', '\\']
    } else if c == '\u{08}' {
        seq!['\\', 'b']
    } else if c == '\u{0c}' {
        seq!['\\', 'f']
    } else if c == '\n' {
        seq!['\\', 'n']
    } else if c == '\r' {
        seq!['\\', 'r']
    } else if c == '\t' {
        seq!['\\', 't']
    } else if (c as u32) < 0x20 {
        seq!['\\', 'u', '0', '0', hex_char((c as u32 / 16) as nat), hex_char((c as u32 % 16) as nat)]
    } else {
        seq![c]
    }
}

/// The escaped body of a string.
pub open spec fn escape_seq(s: Seq<char>) -> Seq<char>
    decreases s.len(),
{
    if s.len() == 0 {
        Seq::empty()
    } else {
        escape_seq(s.drop_last()) + escape_char(s.last())
    }
}

/// A string as a JSON string literal.
pub open spec fn quoted(s: Seq<char>) -> Seq<char> {
    seq!['"'] + escape_seq(s) + seq!['"']
}

/// UTF-16 code units of one character.
pub open spec fn utf16_char(c: char) -> Seq<u16> {
    let v = c as u32;
    if v < 0x10000 {
        seq![v as u16]
    } else {
        seq![(0xD800 + (v - 0x10000) / 1024) as u16, (0xDC00 + (v - 0x10000) % 1024) as u16]
    }
}

/// UTF-16 code units of a string.
pub open spec fn utf16_units(s: Seq<char>) -> Seq<u16>
    decreases s.len(),
{
    if s.len() == 0 {
        Seq::empty()
    } else {
        utf16_units(s.drop_last()) + utf16_char(s.last())
    }
}

/// Lexicographic "less than" on code-unit sequences; a proper prefix comes first.
pub open spec fn units_lt(a: Seq<u16>, b: Seq<u16>) -> bool
    decreases a.len(),
{
    if a.len() == 0 {
        b.len() > 0
    } else if b.len() == 0 {
        false
    } else if a[0] < b[0] {
        true
    } else if a[0] > b[0] {
        false
    } else {
        units_lt(a.drop_first(), b.drop_first())
    }
}

/// Where a member keyed `k` goes in an already ordered list: after every member whose key is
/// not greater, so that equal keys keep their original order.
pub open spec fn insert_pos(k: Seq<u16>, s: Seq<(Seq<u16>, Seq<char>)>) -> nat
    decreases s.len(),
{
    if s.len() == 0 {
        0
    } else if units_lt(k, s[0].0) {
        0
    } else {
        1 + insert_pos(k, s.drop_first())
    }
}

/// Stable ordering of rendered members by the UTF-16 code units of their names.
pub open spec fn sort_members(s: Seq<(Seq<u16>, Seq<char>)>) -> Seq<(Seq<u16>, Seq<char>)>
    decreases s.len(),
{
    if s.len() == 0 {
        s
    } else {
        let rest = sort_members(s.drop_last());
        rest.insert(insert_pos(s.last().0, rest) as int, s.last())
    }
}

/// Texts joined with commas.
pub open spec fn join(parts: Seq<Seq<char>>) -> Seq<char>
    decreases parts.len(),
{
    if parts.len() == 0 {
        Seq::empty()
    } else if parts.len() == 1 {
        parts[0]
    } else {
        join(parts.drop_last()) + seq![','] + parts.last()
    }
}

/// The second components of a sequence of pairs.
pub open spec fn texts(s: Seq<(Seq<u16>, Seq<char>)>) -> Seq<Seq<char>> {
    s.map_values(|p: (Seq<u16>, Seq<char>)| p.1)
}

/// Canonical text of a JSON value.
pub open spec fn canon(v: JsonV) -> Seq<char>
    decreases v,
{
    match v {
        JsonV::Null => seq!['n', 'u', 'l', 'l'],
        JsonV::Bool(b) => if b {
            seq!['t', 'r', 'u', 'e']
        } else {
            seq!['f', 'a', 'l', 's', 'e']
        },
        JsonV::Number(n) => number_text(n),
        JsonV::Str(s) => quoted(s),
        JsonV::Array(items) => seq!['['] + join(canon_list(items)) + seq![']'],
        JsonV::Object(members) => seq!['{'] + join(texts(sort_members(render_members(members))))
            + seq!['}'],
    }
}

/// Canonical texts of a list of values.
pub open spec fn canon_list(items: Seq<JsonV>) -> Seq<Seq<char>>
    decreases items,
{
    if items.len() == 0 {
        Seq::empty()
    } else {
        proof {
            assert(decreases_to!(items => items[items.len() - 1]));
        }
        canon_list(items.drop_last()).push(canon(items[items.len() - 1]))
    }
}

/// Each member as its sort key and its rendered `"name":value` text.
pub open spec fn render_members(members: Seq<(Seq<char>, JsonV)>) -> Seq<(Seq<u16>, Seq<char>)>
    decreases members,
{
    if members.len() == 0 {
        Seq::empty()
    } else {
        let m = members[members.len() - 1];
        proof {
            assert(decreases_to!(members => members[members.len() - 1]));
            assert(decreases_to!(members[members.len() - 1] => members[members.len() - 1].1));
        }
        render_members(members.drop_last()).push(
            (utf16_units(m.0), quoted(m.0) + seq![':'] + canon(m.1)),
        )
    }
}

/// The decimal digit character for `d`.
fn digit(d: u64) -> (c: char)
    requires
        d < 10,
    ensures
        c == digit_char(d as nat),
{
    ((d as u8) + 48u8) as char
}

/// The lowercase hexadecimal digit character for `d`.
pub(crate) fn hex_digit(d: u32) -> (c: char)
    requires
        d < 16,
    ensures
        c == hex_char(d as nat),
{
    if d < 10 {
        ((d as u8) + 48u8) as char
    } else {
        ((d as u8) + 87u8) as char
    }
}

/// Appends the decimal text of `n`.
pub(crate) fn push_decimal(out: &mut Vec<char>, n: u64)
    ensures
        final(out)@ == old(out)@ + decimal(n as nat),
    decreases n,
{
    if n < 10 {
        out.push(digit(n));
        assert(decimal(n as nat) == seq![digit_char(n as nat)]);
    } else {
        push_decimal(out, n / 10);
        out.push(digit(n % 10));
    }
}

/// Appends the text of a number.
fn push_number(out: &mut Vec<char>, n: &JsonNumber)
    ensures
        final(out)@ == old(out)@ + number_text(*n),
{
    match n {
        JsonNumber::PosInt(u) => push_decimal(out, *u),
        JsonNumber::NegInt(i) => {
            if *i < 0 {
                out.push('-');
                let mag: u64 = if *i == i64::MIN {
                    9223372036854775808u64
                } else {
                    (-*i) as u64
                };
                push_decimal(out, mag);
            } else {
                push_decimal(out, *i as u64);
            }
        },
        JsonNumber::Float(t) => crate::text::push_str(out, t.as_str()),
    }
}

/// Appends one character as it is written inside a JSON string.
fn push_escaped(out: &mut Vec<char>, c: char)
    ensures
        final(out)@ == old(out)@ + escape_char(c),
{
    if c == '"' {
        out.push('\\');
        out.push('"');
    } else if c == '\\' {
        out.push('\\');
        out.push('\\');
    } else if c == '\u{08}' {
        out.push('\\');
        out.push('b');
    } else if c == '\u{0c}' {
        out.push('\\');
        out.push('f');
    } else if c == '\n' {
        out.push('\\');
        out.push('n');
    } else if c == '\r' {
        out.push('\\');
        out.push('r');
    } else if c == '\t' {
        out.push('\\');
        out.push('t');
    } else if (c as u32) < 0x20 {
        let v = c as u32;
        out.push('\\');
        out.push('u');
        out.push('0');
        out.push('0');
        out.push(hex_digit(v / 16));
        out.push(hex_digit(v % 16));
    } else {
        out.push(c);
    }
}

/// Appends `s` as a JSON string literal.
fn push_quoted(out: &mut Vec<char>, s: &str)
    ensures
        final(out)@ == old(out)@ + quoted(s@),
{
    let cs = crate::text::chars_of(s);
    let ghost start = out@;
    out.push('"');
    let mut i: usize = 0;
    while i < cs.len()
        invariant
            cs@ == s@,
            i <= cs@.len(),
            out@ == start + seq!['"'] + escape_seq(cs@.subrange(0, i as int)),
        decreases cs@.len() - i,
    {
        push_escaped(out, cs[i]);
        proof {
            let sub = cs@.subrange(0, i + 1);
            assert(sub.drop_last() =~= cs@.subrange(0, i as int));
            assert(sub.last() == cs@[i as int]);
        }
        i = i + 1;
    }
    out.push('"');
    assert(cs@.subrange(0, cs@.len() as int) =~= cs@);
    assert(out@ =~= start + quoted(s@));
}

/// UTF-16 code units of a string.
pub(crate) fn utf16_of(s: &str) -> (r: Vec<u16>)
    ensures
        r@ == utf16_units(s@),
{
    let cs = crate::text::chars_of(s);
    let mut r: Vec<u16> = Vec::new();
    let mut i: usize = 0;
    while i < cs.len()
        invariant
            cs@ == s@,
            i <= cs@.len(),
            r@ == utf16_units(cs@.subrange(0, i as int)),
        decreases cs@.len() - i,
    {
        let v = cs[i] as u32;
        if v < 0x10000 {
            r.push(v as u16);
        } else {
            r.push((0xD800 + (v - 0x10000) / 1024) as u16);
            r.push((0xDC00 + (v - 0x10000) % 1024) as u16);
        }
        proof {
            let sub = cs@.subrange(0, i + 1);
            assert(sub.drop_last() =~= cs@.subrange(0, i as int));
            assert(sub.last() == cs@[i as int]);
            assert(r@ =~= utf16_units(sub));
        }
        i = i + 1;
    }
    assert(cs@.subrange(0, cs@.len() as int) =~= cs@);
    r
}

/// Lexicographic comparison of code-unit sequences.
fn units_less(a: &Vec<u16>, b: &Vec<u16>) -> (r: bool)
    ensures
        r == units_lt(a@, b@),
{
    let mut i: usize = 0;
    assert(a@.skip(0) =~= a@);
    assert(b@.skip(0) =~= b@);
    while i < a.len() && i < b.len()
        invariant
            i <= a@.len(),
            i <= b@.len(),
            units_lt(a@, b@) == units_lt(a@.skip(i as int), b@.skip(i as int)),
        decreases a@.len() - i,
    {
        if a[i] < b[i] {
            return true;
        }
        if a[i] > b[i] {
            return false;
        }
        assert(a@.skip(i as int).drop_first() =~= a@.skip(i + 1));
        assert(b@.skip(i as int).drop_first() =~= b@.skip(i + 1));
        i = i + 1;
    }
    i == a.len() && i < b.len()
}

/// The rendered members, one by one.
pub proof fn lemma_render_members_index(ms: Seq<(Seq<char>, JsonV)>)
    ensures
        render_members(ms).len() == ms.len(),
        forall|k: int|
            0 <= k < ms.len() ==> #[trigger] render_members(ms)[k] == (
                utf16_units(ms[k].0),
                quoted(ms[k].0) + seq![':'] + canon(ms[k].1),
            ),
    decreases ms.len(),
{
    if ms.len() > 0 {
        lemma_render_members_index(ms.drop_last());
    }
}

/// The canonical texts of a list, one by one.
pub proof fn lemma_canon_list_index(items: Seq<JsonV>)
    ensures
        canon_list(items).len() == items.len(),
        forall|k: int| 0 <= k < items.len() ==> #[trigger] canon_list(items)[k] == canon(items[k]),
    decreases items.len(),
{
    if items.len() > 0 {
        lemma_canon_list_index(items.drop_last());
    }
}

/// Joining one more part.
pub proof fn lemma_join_take(parts: Seq<Seq<char>>, j: int)
    requires
        0 <= j < parts.len(),
    ensures
        join(parts.take(j + 1)) == if j == 0 {
            parts[0]
        } else {
            join(parts.take(j)) + seq![','] + parts[j]
        },
{
    assert(parts.take(j + 1).drop_last() =~= parts.take(j));
}

/// Appends the canonical text of `value`.
fn write_value(value: &Json, out: &mut Vec<char>)
    ensures
        final(out)@ == old(out)@ + canon(value@),
    decreases *value,
{
    match value {
        Json::Null => {
            out.push('n');
            out.push('u');
            out.push('l');
            out.push('l');
            assert(out@ =~= old(out)@ + canon(value@));
        },
        Json::Bool(b) => {
            if *b {
                out.push('t');
                out.push('r');
                out.push('u');
                out.push('e');
            } else {
                out.push('f');
                out.push('a');
                out.push('l');
                out.push('s');
                out.push('e');
            }
            assert(out@ =~= old(out)@ + canon(value@));
        },
        Json::Number(n) => push_number(out, n),
        Json::String(s) => push_quoted(out, s.as_str()),
        Json::Array(items) => {
            let ghost start = out@;
            let ghost parts = canon_list(view_items(items@));
            proof {
                lemma_view_items_index(items@);
                lemma_canon_list_index(view_items(items@));
            }
            out.push('[');
            let mut i: usize = 0;
            while i < items.len()
                invariant
                    *value == Json::Array(*items),
                    i <= items@.len(),
                    parts == canon_list(view_items(items@)),
                    parts.len() == items@.len(),
                    forall|k: int| 0 <= k < items@.len() ==> #[trigger] parts[k] == canon(items@[k]@),
                    out@ == start + seq!['['] + join(parts.take(i as int)),
                decreases items@.len() - i,
            {
                proof {
                    assert(decreases_to!(*value => value->Array_0));
                    assert(decreases_to!(*items => items@));
                    assert(decreases_to!(items@ => items@[i as int]));
                    lemma_join_take(parts, i as int);
                }
                if i > 0 {
                    out.push(',');
                }
                write_value(&items[i], out);
                i = i + 1;
            }
            out.push(']');
            assert(parts.take(items@.len() as int) =~= parts);
            assert(out@ =~= start + canon(value@));
        },
        Json::Object(members) => {
            let ghost start = out@;
            let ghost vm = view_members(members@);
            let ghost rendered = render_members(vm);
            proof {
                lemma_view_members_index(members@);
                lemma_render_members_index(vm);
            }
            let mut keys: Vec<Vec<u16>> = Vec::new();
            let mut bodies: Vec<Vec<char>> = Vec::new();
            let mut i: usize = 0;
            while i < members.len()
                invariant
                    *value == Json::Object(*members),
                    i <= members@.len(),
                    vm == view_members(members@),
                    rendered == render_members(vm),
                    vm.len() == members@.len(),
                    rendered.len() == members@.len(),
                    forall|k: int|
                        0 <= k < members@.len() ==> #[trigger] vm[k] == (
                            members@[k].0@,
                            members@[k].1@,
                        ),
                    forall|k: int|
                        0 <= k < vm.len() ==> #[trigger] rendered[k] == (
                            utf16_units(vm[k].0),
                            quoted(vm[k].0) + seq![':'] + canon(vm[k].1),
                        ),
                    keys@.len() == i,
                    bodies@.len() == i,
                    forall|k: int| 0 <= k < i ==> (#[trigger] keys@[k])@ == rendered[k].0,
                    forall|k: int| 0 <= k < i ==> (#[trigger] bodies@[k])@ == rendered[k].1,
                decreases members@.len() - i,
            {
                proof {
                    assert(decreases_to!(*value => value->Object_0));
                    assert(decreases_to!(*members => members@));
                    assert(decreases_to!(members@ => members@[i as int]));
                    assert(decreases_to!(members@[i as int] => members@[i as int].1));
                }
                let name = members[i].0.as_str();
                keys.push(utf16_of(name));
                let mut body: Vec<char> = Vec::new();
                push_quoted(&mut body, name);
                body.push(':');
                write_value(&members[i].1, &mut body);
                bodies.push(body);
                i = i + 1;
            }
            let order = sort_order(&keys, Ghost(rendered));
            let ghost sorted = sort_members(rendered);
            let ghost parts = texts(sorted);
            out.push('{');
            let mut j: usize = 0;
            while j < order.len()
                invariant
                    j <= order@.len(),
                    order@.len() == rendered.len(),
                    sorted.len() == rendered.len(),
                    parts == texts(sorted),
                    bodies@.len() == rendered.len(),
                    forall|k: int| 0 <= k < rendered.len() ==> (#[trigger] bodies@[k])@ == rendered[k].1,
                    forall|k: int|
                        0 <= k < order@.len() ==> (#[trigger] order@[k]) < rendered.len()
                            && rendered[order@[k] as int] == sorted[k],
                    out@ == start + seq!['{'] + join(parts.take(j as int)),
                decreases order@.len() - j,
            {
                proof {
                    lemma_join_take(parts, j as int);
                }
                if j > 0 {
                    out.push(',');
                }
                let k = order[j];
                let body = &bodies[k];
                let mut t: usize = 0;
                let ghost before = out@;
                while t < body.len()
                    invariant
                        t <= body@.len(),
                        out@ == before + body@.subrange(0, t as int),
                    decreases body@.len() - t,
                {
                    out.push(body[t]);
                    t = t + 1;
                    assert(out@ =~= before + body@.subrange(0, t as int));
                }
                assert(body@.subrange(0, body@.len() as int) =~= body@);
                j = j + 1;
            }
            out.push('}');
            assert(parts.take(order@.len() as int) =~= parts);
            assert(out@ =~= start + canon(value@));
        },
    }
}

/// Indices of the rendered members in canonical order.
fn sort_order(keys: &Vec<Vec<u16>>, Ghost(rendered): Ghost<Seq<(Seq<u16>, Seq<char>)>>) -> (order: Vec<usize>)
    requires
        keys@.len() == rendered.len(),
        forall|k: int| 0 <= k < rendered.len() ==> (#[trigger] keys@[k])@ == rendered[k].0,
    ensures
        order@.len() == rendered.len(),
        sort_members(rendered).len() == rendered.len(),
        forall|k: int|
            0 <= k < order@.len() ==> (#[trigger] order@[k]) < rendered.len() && rendered[order@[k] as int]
                == sort_members(rendered)[k],
{
    let mut order: Vec<usize> = Vec::new();
    let mut i: usize = 0;
    while i < keys.len()
        invariant
            i <= keys@.len(),
            keys@.len() == rendered.len(),
            forall|k: int| 0 <= k < rendered.len() ==> (#[trigger] keys@[k])@ == rendered[k].0,
            order@.len() == i,
            sort_members(rendered.take(i as int)).len() == i,
            forall|k: int|
                0 <= k < i ==> (#[trigger] order@[k]) < i && rendered[order@[k] as int]
                    == sort_members(rendered.take(i as int))[k],
        decreases keys@.len() - i,
    {
        let ghost r = sort_members(rendered.take(i as int));
        let ghost e = rendered[i as int];
        proof {
            assert(rendered.take(i + 1).drop_last() =~= rendered.take(i as int));
            assert(rendered.take(i + 1).last() == e);
            assert(r.skip(0) =~= r);
        }
        let mut j: usize = 0;
        while j < order.len() && !units_less(&keys[i], &keys[order[j]])
            invariant
                j <= order@.len(),
                order@.len() == i,
                i < keys@.len(),
                keys@.len() == rendered.len(),
                forall|k: int| 0 <= k < rendered.len() ==> (#[trigger] keys@[k])@ == rendered[k].0,
                r == sort_members(rendered.take(i as int)),
                r.len() == i,
                e == rendered[i as int],
                forall|k: int|
                    0 <= k < i ==> (#[trigger] order@[k]) < i && rendered[order@[k] as int] == r[k],
                insert_pos(e.0, r) == j + insert_pos(e.0, r.skip(j as int)),
            decreases order@.len() - j,
        {
            assert(r.skip(j as int).drop_first() =~= r.skip(j + 1));
            assert(r.skip(j as int)[0] == r[j as int]);
            j = j + 1;
        }
        proof {
            if j < order@.len() {
                assert(r.skip(j as int)[0] == r[j as int]);
            }
            assert(insert_pos(e.0, r) == j);
        }
        let ghost prev = order@;
        order.insert(j, i);
        proof {
            let s = sort_members(rendered.take(i + 1));
            assert(s == r.insert(j as int, e));
            assert forall|k: int| 0 <= k < i + 1 implies (#[trigger] order@[k]) < i + 1 && rendered[order@[k] as int] == s[k] by {
                if k < j {
                    assert(order@[k] == prev[k]);
                } else if k == j {
                } else {
                    assert(order@[k] == prev[k - 1]);
                }
            }
        }
        i = i + 1;
    }
    assert(rendered.take(rendered.len() as int) =~= rendered);
    order
}

/// Serialize a value in JCS canonical form.
pub fn canonicalize(value: &Json) -> (r: String)
    ensures
        r@ == canon(value@),
{
    let mut out: Vec<char> = Vec::new();
    write_value(value, &mut out);
    assert(out@ =~= canon(value@));
    crate::text::string_from_chars(out.as_slice())
}

proof fn lemma_units_lt_irreflexive(a: Seq<u16>)
    ensures
        !units_lt(a, a),
    decreases a.len(),
{
    if a.len() > 0 {
        lemma_units_lt_irreflexive(a.drop_first());
    }
}

proof fn lemma_units_lt_transitive(a: Seq<u16>, b: Seq<u16>, c: Seq<u16>)
    requires
        units_lt(a, b),
        units_lt(b, c),
    ensures
        units_lt(a, c),
    decreases a.len(),
{
    if a.len() > 0 && b.len() > 0 && c.len() > 0 && a[0] == b[0] && b[0] == c[0] {
        lemma_units_lt_transitive(a.drop_first(), b.drop_first(), c.drop_first());
    }
}

proof fn lemma_units_lt_total(a: Seq<u16>, b: Seq<u16>)
    ensures
        a == b || units_lt(a, b) || units_lt(b, a),
    decreases a.len(),
{
    if a.len() > 0 && b.len() > 0 && a[0] == b[0] {
        lemma_units_lt_total(a.drop_first(), b.drop_first());
        if a.drop_first() == b.drop_first() {
            assert(a =~= seq![a[0]] + a.drop_first());
            assert(b =~= seq![b[0]] + b.drop_first());
        }
    } else if a.len() == 0 && b.len() == 0 {
        assert(a =~= b);
    }
}

proof fn lemma_units_lt_asymmetric(a: Seq<u16>, b: Seq<u16>)
    requires
        units_lt(a, b),
    ensures
        !units_lt(b, a),
{
    if units_lt(b, a) {
        lemma_units_lt_transitive(a, b, a);
        lemma_units_lt_irreflexive(a);
    }
}

/// Members whose keys never decrease from one to the next.
pub open spec fn keys_ordered(s: Seq<(Seq<u16>, Seq<char>)>) -> bool {
    forall|i: int, j: int| 0 <= i < j < s.len() ==> !units_lt(#[trigger] s[j].0, #[trigger] s[i].0)
}

proof fn lemma_insert_pos(k: Seq<u16>, s: Seq<(Seq<u16>, Seq<char>)>)
    ensures
        insert_pos(k, s) <= s.len(),
        forall|i: int| 0 <= i < insert_pos(k, s) ==> !units_lt(k, #[trigger] s[i].0),
        insert_pos(k, s) < s.len() ==> units_lt(k, s[insert_pos(k, s) as int].0),
    decreases s.len(),
{
    if s.len() > 0 && !units_lt(k, s[0].0) {
        lemma_insert_pos(k, s.drop_first());
        assert forall|i: int| 0 <= i < insert_pos(k, s) implies !units_lt(k, #[trigger] s[i].0) by {
            if i > 0 {
                assert(s[i] == s.drop_first()[i - 1]);
            }
        }
    }
}

proof fn lemma_sort_members(s: Seq<(Seq<u16>, Seq<char>)>)
    ensures
        keys_ordered(sort_members(s)),
        sort_members(s).to_multiset() == s.to_multiset(),
    decreases s.len(),
{
    broadcast use vstd::seq_lib::group_to_multiset_ensures;

    if s.len() > 0 {
        let rest = sort_members(s.drop_last());
        let x = s.last();
        lemma_sort_members(s.drop_last());
        lemma_insert_pos(x.0, rest);
        let p = insert_pos(x.0, rest) as int;
        let out = rest.insert(p, x);
        assert(out == sort_members(s));
        assert forall|i: int, j: int| 0 <= i < j < out.len() implies !units_lt(
            #[trigger] out[j].0,
            #[trigger] out[i].0,
        ) by {
            if j < p {
                assert(out[i] == rest[i] && out[j] == rest[j]);
            } else if j == p {
                assert(out[i] == rest[i]);
            } else if i == p {
                assert(out[j] == rest[j - 1]);
                if !units_lt(rest[p].0, rest[j - 1].0) {
                    lemma_units_lt_total(rest[p].0, rest[j - 1].0);
                }
                if units_lt(rest[p].0, rest[j - 1].0) {
                    lemma_units_lt_transitive(x.0, rest[p].0, rest[j - 1].0);
                }
                lemma_units_lt_asymmetric(x.0, rest[j - 1].0);
            } else if i < p {
                assert(out[i] == rest[i] && out[j] == rest[j - 1]);
            } else {
                assert(out[i] == rest[i - 1] && out[j] == rest[j - 1]);
            }
        }
        vstd::seq_lib::to_multiset_insert(rest, p, x);
        assert(s =~= s.drop_last().push(x));
    }
}

/// The members of every object in canonical text come ordered by the UTF-16 code units of
/// their names, and they are exactly the object's members, each rendered once.
pub proof fn law_canonical_members_in_key_order(members: Seq<(Seq<char>, JsonV)>)
    ensures
        keys_ordered(sort_members(render_members(members))),
        sort_members(render_members(members)).to_multiset() == render_members(
            members,
        ).to_multiset(),
{
    lemma_sort_members(render_members(members));
}

/// Whitespace between JSON tokens.
pub open spec fn is_ws(c: char) -> bool {
    c == ' ' || c == '\n' || c == '\r' || c == '\t'
}

/// A text with no whitespace character in it.
pub open spec fn ws_free(s: Seq<char>) -> bool {
    forall|i: int| 0 <= i < s.len() ==> !is_ws(#[trigger] s[i])
}

/// A text with no space character in it.
pub open spec fn space_free(s: Seq<char>) -> bool {
    forall|i: int| 0 <= i < s.len() ==> #[trigger] s[i] != ' '
}

/// A value none of whose strings or member names holds a space, and whose non-integer numbers
/// are written without whitespace: one whose canonical text can only have whitespace where
/// the value's own strings put it.
pub open spec fn spaceless(v: JsonV) -> bool
    decreases v,
{
    match v {
        JsonV::Number(JsonNumber::Float(t)) => ws_free(t@),
        JsonV::Str(s) => space_free(s),
        JsonV::Array(items) => forall|k: int| 0 <= k < items.len() ==> spaceless(#[trigger] items[k]),
        JsonV::Object(ms) => forall|k: int|
            0 <= k < ms.len() ==> space_free((#[trigger] ms[k]).0) && spaceless(ms[k].1),
        _ => true,
    }
}

proof fn lemma_ws_concat(a: Seq<char>, b: Seq<char>)
    requires
        ws_free(a),
        ws_free(b),
    ensures
        ws_free(a + b),
{
    assert forall|i: int| 0 <= i < (a + b).len() implies !is_ws(#[trigger] (a + b)[i]) by {
        if i < a.len() {
            assert((a + b)[i] == a[i]);
        } else {
            assert((a + b)[i] == b[i - a.len()]);
        }
    }
}

proof fn lemma_decimal_ws(n: nat)
    ensures
        ws_free(decimal(n)),
    decreases n,
{
    if n < 10 {
        assert(digit_char(n) as u32 == n + 48);
    } else {
        lemma_decimal_ws(n / 10);
        assert(digit_char(n % 10) as u32 == n % 10 + 48);
        lemma_ws_concat(decimal(n / 10), seq![digit_char(n % 10)]);
    }
}

proof fn lemma_escape_ws(s: Seq<char>)
    requires
        space_free(s),
    ensures
        ws_free(escape_seq(s)),
    decreases s.len(),
{
    if s.len() > 0 {
        let c = s.last();
        assert(space_free(s.drop_last())) by {
            assert forall|i: int| 0 <= i < s.drop_last().len() implies #[trigger] s.drop_last()[i] != ' ' by {
                assert(s.drop_last()[i] == s[i]);
            }
        }
        lemma_escape_ws(s.drop_last());
        assert(c != ' ');
        let e = escape_char(c);
        assert(ws_free(e)) by {
            if (c as u32) < 0x20 && c != '\u{08}' && c != '\u{0c}' && c != '\n' && c != '\r' && c != '\t' {
                let h = (c as u32 / 16) as nat;
                let l = (c as u32 % 16) as nat;
                assert(hex_char(h) as u32 == h + 48);
                if l < 10 {
                    assert(hex_char(l) as u32 == l + 48);
                } else {
                    assert(hex_char(l) as u32 == l + 87);
                }
            }
        }
        lemma_ws_concat(escape_seq(s.drop_last()), e);
    }
}

proof fn lemma_quoted_ws(s: Seq<char>)
    requires
        space_free(s),
    ensures
        ws_free(quoted(s)),
{
    lemma_escape_ws(s);
    lemma_ws_concat(seq!['"'], escape_seq(s));
    lemma_ws_concat(seq!['"'] + escape_seq(s), seq!['"']);
}

proof fn lemma_join_ws(parts: Seq<Seq<char>>)
    requires
        forall|k: int| 0 <= k < parts.len() ==> ws_free(#[trigger] parts[k]),
    ensures
        ws_free(join(parts)),
    decreases parts.len(),
{
    if parts.len() > 1 {
        let t = parts.drop_last();
        assert forall|k: int| 0 <= k < t.len() implies ws_free(#[trigger] t[k]) by {
            assert(t[k] == parts[k]);
        }
        lemma_join_ws(t);
        assert(ws_free(parts.last()));
        lemma_ws_concat(join(t), seq![',']);
        lemma_ws_concat(join(t) + seq![','], parts.last());
    } else if parts.len() == 1 {
        assert(ws_free(parts[0]));
    }
}

proof fn lemma_sort_members_keeps(s: Seq<(Seq<u16>, Seq<char>)>)
    requires
        forall|k: int| 0 <= k < s.len() ==> ws_free(#[trigger] s[k].1),
    ensures
        sort_members(s).len() == s.len(),
        forall|k: int| 0 <= k < sort_members(s).len() ==> ws_free(#[trigger] sort_members(s)[k].1),
    decreases s.len(),
{
    if s.len() > 0 {
        let t = s.drop_last();
        assert forall|k: int| 0 <= k < t.len() implies ws_free(#[trigger] t[k].1) by {
            assert(t[k] == s[k]);
        }
        lemma_sort_members_keeps(t);
        let rest = sort_members(t);
        lemma_insert_pos(s.last().0, rest);
        let p = insert_pos(s.last().0, rest) as int;
        let out = rest.insert(p, s.last());
        assert(ws_free(s[s.len() - 1].1));
        assert forall|k: int| 0 <= k < out.len() implies ws_free(#[trigger] out[k].1) by {
            if k < p {
                assert(out[k] == rest[k]);
            } else if k > p {
                assert(out[k] == rest[k - 1]);
            }
        }
    }
}

/// Canonical text adds no whitespace: the text of a value whose strings hold no space (and
/// whose non-integer numbers are written without whitespace) has no whitespace at all. Line
/// breaks and tabs inside strings are always escaped.
pub proof fn law_canonical_text_has_no_whitespace(v: JsonV)
    requires
        spaceless(v),
    ensures
        ws_free(canon(v)),
    decreases v,
{
    match v {
        JsonV::Null => {},
        JsonV::Bool(b) => {},
        JsonV::Number(n) => {
            match n {
                JsonNumber::PosInt(u) => lemma_decimal_ws(u as nat),
                JsonNumber::NegInt(i) => {
                    if i < 0 {
                        lemma_decimal_ws((-i) as nat);
                        lemma_ws_concat(seq!['-'], decimal((-i) as nat));
                    } else {
                        lemma_decimal_ws(i as nat);
                    }
                },
                JsonNumber::Float(t) => {},
            }
        },
        JsonV::Str(s) => lemma_quoted_ws(s),
        JsonV::Array(items) => {
            lemma_canon_list_index(items);
            let parts = canon_list(items);
            assert forall|k: int| 0 <= k < parts.len() implies ws_free(#[trigger] parts[k]) by {
                assert(spaceless(items[k]));
                law_canonical_text_has_no_whitespace(items[k]);
            }
            lemma_join_ws(parts);
            lemma_ws_concat(seq!['['], join(parts));
            lemma_ws_concat(seq!['['] + join(parts), seq![']']);
        },
        JsonV::Object(ms) => {
            lemma_render_members_index(ms);
            let r = render_members(ms);
            assert forall|k: int| 0 <= k < r.len() implies ws_free(#[trigger] r[k].1) by {
                assert(0 <= k < ms.len());
                let m = ms[k];
                assert(space_free(m.0) && spaceless(m.1));
                law_canonical_text_has_no_whitespace(ms[k].1);
                lemma_quoted_ws(ms[k].0);
                lemma_ws_concat(quoted(ms[k].0), seq![':']);
                lemma_ws_concat(quoted(ms[k].0) + seq![':'], canon(ms[k].1));
            }
            lemma_sort_members_keeps(r);
            let sorted = sort_members(r);
            let parts = texts(sorted);
            assert forall|k: int| 0 <= k < parts.len() implies ws_free(#[trigger] parts[k]) by {
                assert(parts[k] == sorted[k].1);
            }
            lemma_join_ws(parts);
            lemma_ws_concat(seq!['{'], join(parts));
            lemma_ws_concat(seq!['{'] + join(parts), seq!['}']);
        },
    }
}

} // verus!
