//! Canonical JSON of the personal profile: minified, object keys sorted,
//! strings written as serde_json writes them; and the checks a runtime
//! profile must pass.
use vstd::prelude::*;
use vstd::string::{StrSliceExecFns, StringExecFns};
use crate::text::str_eq;

verus! {

/// A parsed JSON document. Numbers keep the text a JSON writer prints for
/// them; object members keep their document order.
#[derive(Debug)]
pub enum JsonValue {
    Null,
    Bool(bool),
    Number(String),
    Str(String),
    Array(Vec<JsonValue>),
    Object(Vec<(String, JsonValue)>),
}

/// How a JSON writer escapes one character of a string.
pub open spec fn escape_char(c: char) -> Seq<char> {
    if c == '"' {
        seq!['\\', '"']
    } else if c == '\\' {
        seq!['\\', '\\']
    } else if c == '\u{8}' {
        seq!['\\', 'b']
    } else if c == '\u{c}' {
        seq!['\\', 'f']
    } else if c == '\n' {
        seq!['\\', 'n']
    } else if c == '\r' {
        seq!['\\', 'r']
    } else if c == '\t' {
        seq!['\\', 't']
    } else if (c as u32) < 0x20 {
        seq!['\\', 'u', '0', '0'] + crate::text::hex2(c as u32 as u8)
    } else {
        seq![c]
    }
}

/// The escaped characters of `s`.
pub open spec fn escaped(s: Seq<char>) -> Seq<char>
    decreases s.len(),
{
    if s.len() == 0 { Seq::empty() } else { escaped(s.drop_last()) + escape_char(s.last()) }
}

/// A JSON string literal.
pub open spec fn quoted(s: Seq<char>) -> Seq<char> {
    seq!['"'] + escaped(s) + seq!['"']
}

/// `a` sorts strictly before `b`, comparing characters by code point.
pub open spec fn key_less(a: Seq<char>, b: Seq<char>) -> bool
    decreases a.len(),
{
    if a.len() == 0 {
        b.len() > 0
    } else if b.len() == 0 {
        false
    } else if a[0] != b[0] {
        (a[0] as u32) < (b[0] as u32)
    } else {
        key_less(a.drop_first(), b.drop_first())
    }
}

/// Insert a rendered member into members sorted by key: before the first
/// member whose key sorts after it.
pub open spec fn insert_member(sorted: Seq<(Seq<char>, Seq<char>)>, m: (Seq<char>, Seq<char>)) -> Seq<(Seq<char>, Seq<char>)>
    decreases sorted.len(),
{
    if sorted.len() == 0 {
        seq![m]
    } else if key_less(m.0, sorted[0].0) {
        seq![m] + sorted
    } else {
        seq![sorted[0]] + insert_member(sorted.drop_first(), m)
    }
}

/// Members sorted by key (a stable sort).
pub open spec fn sort_members(ms: Seq<(Seq<char>, Seq<char>)>) -> Seq<(Seq<char>, Seq<char>)>
    decreases ms.len(),
{
    if ms.len() == 0 { Seq::empty() } else { insert_member(sort_members(ms.drop_last()), ms.last()) }
}

/// Members as `"key":value`, comma-separated.
pub open spec fn join_members(ms: Seq<(Seq<char>, Seq<char>)>) -> Seq<char>
    decreases ms.len(),
{
    if ms.len() == 0 {
        Seq::empty()
    } else if ms.len() == 1 {
        quoted(ms[0].0) + seq![':'] + ms[0].1
    } else {
        join_members(ms.drop_last()) + seq![','] + quoted(ms.last().0) + seq![':'] + ms.last().1
    }
}

/// Rendered texts comma-separated.
pub open spec fn join_items(ts: Seq<Seq<char>>) -> Seq<char>
    decreases ts.len(),
{
    if ts.len() == 0 {
        Seq::empty()
    } else if ts.len() == 1 {
        ts[0]
    } else {
        join_items(ts.drop_last()) + seq![','] + ts.last()
    }
}

/// Canonical text of a value.
pub open spec fn canonical(v: JsonValue) -> Seq<char>
    decreases v, 0nat,
{
    match v {
        JsonValue::Null => seq!['n', 'u', 'l', 'l'],
        JsonValue::Bool(b) => if b { seq!['t', 'r', 'u', 'e'] } else { seq!['f', 'a', 'l', 's', 'e'] },
        JsonValue::Number(t) => t@,
        JsonValue::Str(s) => quoted(s@),
        JsonValue::Array(items) => seq!['['] + join_items(rendered_items(items@, items@.len())) + seq![']'],
        JsonValue::Object(members) => seq!['{'] + join_members(sort_members(rendered_members(members@, members@.len())))
            + seq!['}'],
    }
}

/// Canonical texts of the first `n` items.
pub open spec fn rendered_items(items: Seq<JsonValue>, n: nat) -> Seq<Seq<char>>
    decreases items, n,
{
    if n == 0 || n > items.len() {
        Seq::empty()
    } else {
        rendered_items(items, (n - 1) as nat).push(canonical(items[n - 1]))
    }
}

/// Keys and canonical value texts of the first `n` members.
pub open spec fn rendered_members(members: Seq<(String, JsonValue)>, n: nat) -> Seq<(Seq<char>, Seq<char>)>
    decreases members, n,
{
    if n == 0 || n > members.len() {
        Seq::empty()
    } else {
        rendered_members(members, (n - 1) as nat).push((members[n - 1].0@, canonical(members[n - 1].1)))
    }
}

/// Calls `serde_json::to_string` on a string slice. serde_json writes a
/// string as a literal: `"`, then each character as itself except `"` and
/// `\` (each after a backslash), U+0008, U+000C, line feed, carriage return
/// and tab (as `\b`, `\f`, `\n`, `\r`, `\t`) and the other characters
/// below U+0020 (as `\u00` and two lower-case hex digits), then `"`.
/// Serialising a string slice does not fail.
#[verifier::external_body]
fn json_string_literal(s: &str) -> (r: String)
    ensures
        r@ == quoted(s@),
{
    match serde_json::to_string(s) {
        Ok(t) => t,
        Err(_) => String::new(),
    }
}

/// Append `s` as a JSON string literal.
pub fn push_quoted(out: &mut String, s: &str)
    ensures
        final(out)@ == old(out)@ + quoted(s@),
{
    let lit = json_string_literal(s);
    out.append(lit.as_str());
}

/// Whether `a` sorts strictly before `b`, character by character.
pub fn key_less_exec(a: &str, b: &str) -> (r: bool)
    ensures
        r == key_less(a@, b@),
{
    let na = a.unicode_len();
    let nb = b.unicode_len();
    assert(a@.skip(0) =~= a@);
    assert(b@.skip(0) =~= b@);
    let mut i: usize = 0;
    while i < na && i < nb
        invariant
            i <= na,
            i <= nb,
            na == a@.len(),
            nb == b@.len(),
            key_less(a@, b@) == key_less(a@.skip(i as int), b@.skip(i as int)),
        decreases na - i,
    {
        let ca = a.get_char(i);
        let cb = b.get_char(i);
        proof {
            assert(a@.skip(i as int)[0] == ca);
            assert(b@.skip(i as int)[0] == cb);
            assert(a@.skip(i as int).drop_first() =~= a@.skip(i + 1));
            assert(b@.skip(i as int).drop_first() =~= b@.skip(i + 1));
        }
        if ca != cb {
            return (ca as u32) < (cb as u32);
        }
        i += 1;
    }
    proof {
        if i == na {
            assert(a@.skip(i as int).len() == 0);
        } else {
            assert(b@.skip(i as int).len() == 0);
        }
    }
    i == na && i < nb
}

/// The texts of rendered members.
pub open spec fn pair_views(v: Seq<(String, String)>) -> Seq<(Seq<char>, Seq<char>)> {
    Seq::new(v.len(), |i: int| (v[i].0@, v[i].1@))
}

pub open spec fn string_views(v: Seq<String>) -> Seq<Seq<char>> {
    Seq::new(v.len(), |i: int| v[i]@)
}

/// Index of the first member whose key sorts after `k`, from `j`.
pub open spec fn insert_pos(sorted: Seq<(Seq<char>, Seq<char>)>, k: Seq<char>, j: int) -> int
    decreases sorted.len() - j,
{
    if j < 0 || j >= sorted.len() {
        sorted.len() as int
    } else if key_less(k, sorted[j].0) {
        j
    } else {
        insert_pos(sorted, k, j + 1)
    }
}

proof fn lemma_insert_member_at(sorted: Seq<(Seq<char>, Seq<char>)>, m: (Seq<char>, Seq<char>))
    ensures
        0 <= insert_pos(sorted, m.0, 0) <= sorted.len(),
        insert_member(sorted, m) == sorted.take(insert_pos(sorted, m.0, 0)).push(m)
            + sorted.skip(insert_pos(sorted, m.0, 0)),
    decreases sorted.len(),
{
    if sorted.len() == 0 {
        assert(sorted.take(0).push(m) + sorted.skip(0) =~= seq![m]);
    } else if key_less(m.0, sorted[0].0) {
        assert(sorted.take(0).push(m) + sorted.skip(0) =~= seq![m] + sorted);
    } else {
        let rest = sorted.drop_first();
        lemma_insert_member_at(rest, m);
        lemma_insert_pos_shift(sorted, m.0, 1);
        let p = insert_pos(rest, m.0, 0);
        assert(insert_pos(sorted, m.0, 0) == insert_pos(sorted, m.0, 1));
        assert(insert_pos(sorted, m.0, 1) == p + 1);
        assert(seq![sorted[0]] + (rest.take(p).push(m) + rest.skip(p))
            =~= sorted.take(p + 1).push(m) + sorted.skip(p + 1));
    }
}

proof fn lemma_insert_pos_shift(sorted: Seq<(Seq<char>, Seq<char>)>, k: Seq<char>, j: int)
    requires
        1 <= j <= sorted.len(),
    ensures
        insert_pos(sorted, k, j) == insert_pos(sorted.drop_first(), k, j - 1) + 1,
    decreases sorted.len() - j,
{
    if j < sorted.len() {
        assert(sorted.drop_first()[j - 1] == sorted[j]);
        if !key_less(k, sorted[j].0) {
            lemma_insert_pos_shift(sorted, k, j + 1);
        }
    }
}

/// No key sorts before itself.
proof fn lemma_key_less_irreflexive(a: Seq<char>)
    ensures
        !key_less(a, a),
    decreases a.len(),
{
    if a.len() > 0 {
        lemma_key_less_irreflexive(a.drop_first());
    }
}

/// Sorting before is transitive.
proof fn lemma_key_less_transitive(a: Seq<char>, b: Seq<char>, c: Seq<char>)
    requires
        key_less(a, b),
        key_less(b, c),
    ensures
        key_less(a, c),
    decreases a.len(),
{
    if a.len() > 0 && a[0] == b[0] && b[0] == c[0] {
        lemma_key_less_transitive(a.drop_first(), b.drop_first(), c.drop_first());
    }
}

/// Keys never decrease along `ms`.
pub open spec fn keys_sorted(ms: Seq<(Seq<char>, Seq<char>)>) -> bool {
    forall|i: int, j: int| 0 <= i < j < ms.len() ==> !key_less(#[trigger] ms[j].0, #[trigger] ms[i].0)
}

proof fn lemma_insert_pos_char(sorted: Seq<(Seq<char>, Seq<char>)>, k: Seq<char>, j: int)
    requires
        0 <= j <= sorted.len(),
    ensures
        j <= insert_pos(sorted, k, j) <= sorted.len(),
        forall|i: int| j <= i < insert_pos(sorted, k, j) ==> !key_less(k, #[trigger] sorted[i].0),
        insert_pos(sorted, k, j) < sorted.len() ==> key_less(k, sorted[insert_pos(sorted, k, j)].0),
    decreases sorted.len() - j,
{
    if j < sorted.len() && !key_less(k, sorted[j].0) {
        lemma_insert_pos_char(sorted, k, j + 1);
    }
}

proof fn lemma_insert_member_sorted(sorted: Seq<(Seq<char>, Seq<char>)>, m: (Seq<char>, Seq<char>))
    requires
        keys_sorted(sorted),
    ensures
        keys_sorted(insert_member(sorted, m)),
        insert_member(sorted, m).to_multiset() == sorted.to_multiset().insert(m),
{
    lemma_insert_member_at(sorted, m);
    lemma_insert_pos_char(sorted, m.0, 0);
    let p = insert_pos(sorted, m.0, 0);
    let r = insert_member(sorted, m);
    assert(r =~= sorted.insert(p, m));
    vstd::seq_lib::to_multiset_insert(sorted, p, m);
    assert forall|i: int, j: int| 0 <= i < j < r.len() implies !key_less(#[trigger] r[j].0, #[trigger] r[i].0) by {
        if j < p {
            assert(r[i] == sorted[i] && r[j] == sorted[j]);
        } else if j == p {
            assert(r[i] == sorted[i] && r[j] == m);
        } else if i == p {
            assert(r[i] == m && r[j] == sorted[j - 1]);
            if key_less(sorted[j - 1].0, m.0) {
                lemma_key_less_transitive(sorted[j - 1].0, m.0, sorted[p].0);
                if p == j - 1 {
                    lemma_key_less_irreflexive(sorted[p].0);
                }
            }
        } else if i < p {
            assert(r[i] == sorted[i] && r[j] == sorted[j - 1]);
        } else {
            assert(r[i] == sorted[i - 1] && r[j] == sorted[j - 1]);
        }
    }
}

/// Canonical objects list their members by key in lexicographic order
/// (code point by code point), each member as often as the object has it.
pub proof fn lemma_members_sorted_by_key(ms: Seq<(Seq<char>, Seq<char>)>)
    ensures
        keys_sorted(sort_members(ms)),
        sort_members(ms).to_multiset() == ms.to_multiset(),
    decreases ms.len(),
{
    if ms.len() == 0 {
        assert(sort_members(ms) =~= ms);
    } else {
        lemma_members_sorted_by_key(ms.drop_last());
        lemma_insert_member_sorted(sort_members(ms.drop_last()), ms.last());
        vstd::seq_lib::to_multiset_build(ms.drop_last(), ms.last());
        assert(ms.drop_last().push(ms.last()) =~= ms);
    }
}

/// Insert `m` into members sorted by key, after every member whose key
/// does not sort after it.
fn insert_member_exec(sorted: &mut Vec<(String, String)>, m: (String, String))
    ensures
        pair_views(final(sorted)@) == insert_member(pair_views(old(sorted)@), (m.0@, m.1@)),
{
    let ghost sv = pair_views(sorted@);
    let mut j: usize = 0;
    while j < sorted.len()
        invariant
            j <= sorted@.len(),
            sv == pair_views(sorted@),
            sorted@ == old(sorted)@,
            insert_pos(sv, m.0@, 0) == insert_pos(sv, m.0@, j as int),
        ensures
            j <= sorted@.len(),
            insert_pos(sv, m.0@, 0) == insert_pos(sv, m.0@, j as int),
            j < sorted@.len() ==> key_less(m.0@, sv[j as int].0),
        decreases sorted@.len() - j,
    {
        if key_less_exec(m.0.as_str(), sorted[j].0.as_str()) {
            break;
        }
        j += 1;
    }
    proof {
        lemma_insert_member_at(sv, (m.0@, m.1@));
        if j < sorted@.len() {
            assert(insert_pos(sv, m.0@, j as int) == j);
        }
    }
    let ghost mv = (m.0@, m.1@);
    sorted.insert(j, m);
    assert(pair_views(sorted@) =~= sv.take(j as int).push(mv) + sv.skip(j as int));
}

/// Members sorted by key.
fn sort_members_exec(ms: Vec<(String, String)>) -> (r: Vec<(String, String)>)
    ensures
        pair_views(r@) == sort_members(pair_views(ms@)),
{
    let ghost mv = pair_views(ms@);
    let n = ms.len();
    let mut sorted: Vec<(String, String)> = Vec::new();
    let mut items = ms;
    let mut k: usize = 0;
    assert(pair_views(sorted@) =~= sort_members(mv.take(0)));
    assert(pair_views(items@) =~= mv.skip(0));
    while items.len() > 0
        invariant
            items@.len() + k == n,
            n == mv.len(),
            pair_views(items@) == mv.skip(k as int),
            pair_views(sorted@) == sort_members(mv.take(k as int)),
        decreases items@.len(),
    {
        let ghost before = items@;
        let m = items.remove(0);
        proof {
            assert(mv.skip(k as int)[0] == mv[k as int]);
            assert(pair_views(before)[0] == (m.0@, m.1@));
            assert(items@ == before.remove(0));
            assert(pair_views(items@) =~= pair_views(before).drop_first());
            assert(mv.skip(k as int).drop_first() =~= mv.skip(k + 1));
        }
        insert_member_exec(&mut sorted, m);
        proof {
            assert(mv.take(k + 1).drop_last() =~= mv.take(k as int));
            assert(mv.take(k + 1).last() == mv[k as int]);
        }
        k += 1;
    }
    assert(mv.take(k as int) =~= mv);
    sorted
}

fn push_joined_items(out: &mut String, texts: &Vec<String>)
    ensures
        final(out)@ == old(out)@ + join_items(string_views(texts@)),
{
    proof {
        reveal_strlit(",");
    }
    let ghost tv = string_views(texts@);
    let mut i: usize = 0;
    while i < texts.len()
        invariant
            i <= texts@.len(),
            tv == string_views(texts@),
            out@ == old(out)@ + join_items(tv.take(i as int)),
        decreases texts@.len() - i,
    {
        proof {
            reveal_strlit(",");
        }
        if i > 0 {
            out.append(",");
        }
        out.append(texts[i].as_str());
        proof {
            let t = tv.take(i + 1);
            assert(t.drop_last() =~= tv.take(i as int));
            if i == 0 {
                assert(tv.take(0) =~= Seq::<Seq<char>>::empty());
            }
            assert(out@ =~= old(out)@ + join_items(t));
        }
        i += 1;
    }
    assert(tv.take(i as int) =~= tv);
}

fn push_joined_members(out: &mut String, ms: &Vec<(String, String)>)
    ensures
        final(out)@ == old(out)@ + join_members(pair_views(ms@)),
{
    proof {
        reveal_strlit(",");
        reveal_strlit(":");
    }
    let ghost mv = pair_views(ms@);
    let mut i: usize = 0;
    while i < ms.len()
        invariant
            i <= ms@.len(),
            mv == pair_views(ms@),
            out@ == old(out)@ + join_members(mv.take(i as int)),
        decreases ms@.len() - i,
    {
        proof {
            reveal_strlit(",");
            reveal_strlit(":");
        }
        let ghost before = out@;
        if i > 0 {
            out.append(",");
        }
        push_quoted(out, ms[i].0.as_str());
        out.append(":");
        out.append(ms[i].1.as_str());
        proof {
            let t = mv.take(i + 1);
            assert(t.drop_last() =~= mv.take(i as int));
            if i == 0 {
                assert(mv.take(0) =~= Seq::<(Seq<char>, Seq<char>)>::empty());
            }
            assert(out@ =~= old(out)@ + join_members(t));
        }
        i += 1;
    }
    assert(mv.take(i as int) =~= mv);
}

/// The canonical text of a value.
pub fn canonicalize(v: &JsonValue) -> (r: String)
    ensures
        r@ == canonical(*v),
    decreases v,
{
    match v {
        JsonValue::Null => {
            proof {
                reveal_strlit("null");
            }
            let r = String::from_str("null");
            assert(r@ =~= canonical(*v));
            r
        },
        JsonValue::Bool(b) => {
            proof {
                reveal_strlit("true");
                reveal_strlit("false");
            }
            let r = String::from_str(if *b { "true" } else { "false" });
            assert(r@ =~= canonical(*v));
            r
        },
        JsonValue::Number(t) => t.clone(),
        JsonValue::Str(s) => {
            let mut r = String::new();
            push_quoted(&mut r, s.as_str());
            r
        },
        JsonValue::Array(items) => {
            let mut texts: Vec<String> = Vec::new();
            let mut i: usize = 0;
            while i < items.len()
                invariant
                    i <= items@.len(),
                    *v is Array,
                    v->Array_0 == *items,
                    string_views(texts@) == rendered_items(items@, i as nat),
                decreases items@.len() - i,
            {
                proof {
                    broadcast use vstd::std_specs::vec::axiom_vec_index_decreases;
                    assert(decreases_to!(*items => items[i as int]));
                    assert(v->Array_0 == *items);
                    assert(decreases_to!(*v => v->Array_0));
                }
                let t = canonicalize(&items[i]);
                let ghost before = texts@;
                texts.push(t);
                assert(string_views(texts@) =~= string_views(before).push(t@));
                i += 1;
            }
            proof {
                reveal_strlit("[");
                reveal_strlit("]");
            }
            let mut r = String::from_str("[");
            push_joined_items(&mut r, &texts);
            r.append("]");
            assert(r@ =~= canonical(*v));
            r
        },
        JsonValue::Object(members) => {
            let mut rendered: Vec<(String, String)> = Vec::new();
            let mut i: usize = 0;
            while i < members.len()
                invariant
                    i <= members@.len(),
                    *v is Object,
                    v->Object_0 == *members,
                    pair_views(rendered@) == rendered_members(members@, i as nat),
                decreases members@.len() - i,
            {
                proof {
                    broadcast use vstd::std_specs::vec::axiom_vec_index_decreases;
                    assert(decreases_to!(*members => members[i as int]));
                    assert(decreases_to!(members[i as int] => members[i as int].1));
                    assert(v->Object_0 == *members);
                    assert(decreases_to!(*v => v->Object_0));
                }
                let t = canonicalize(&members[i].1);
                let k = members[i].0.clone();
                let ghost before = rendered@;
                rendered.push((k, t));
                assert(pair_views(rendered@) =~= pair_views(before).push((members@[i as int].0@, t@)));
                i += 1;
            }
            let sorted = sort_members_exec(rendered);
            proof {
                reveal_strlit("{");
                reveal_strlit("}");
            }
            let mut r = String::from_str("{");
            push_joined_members(&mut r, &sorted);
            r.append("}");
            assert(r@ =~= canonical(*v));
            r
        },
    }
}

/// The value under `key` of an object (its first member with that key);
/// nothing for other values.
pub open spec fn member(v: JsonValue, key: Seq<char>) -> Option<JsonValue> {
    match v {
        JsonValue::Object(ms) => member_from(ms@, key, 0),
        _ => None,
    }
}

pub open spec fn member_from(ms: Seq<(String, JsonValue)>, key: Seq<char>, i: int) -> Option<JsonValue>
    decreases ms.len() - i,
{
    if i < 0 || i >= ms.len() {
        None
    } else if ms[i].0@ == key {
        Some(ms[i].1)
    } else {
        member_from(ms, key, i + 1)
    }
}

/// The string under `key` of an object, if that member is a string.
pub open spec fn str_member(v: JsonValue, key: Seq<char>) -> Option<Seq<char>> {
    match member(v, key) {
        Some(JsonValue::Str(s)) => Some(s@),
        _ => None,
    }
}

/// The string under `key` of an object, if that member is a string.
pub fn get_str<'a>(v: &'a JsonValue, key: &str) -> (r: Option<&'a String>)
    ensures
        match r {
            Some(s) => str_member(*v, key@) == Some(s@),
            None => str_member(*v, key@) is None,
        },
{
    match v {
        JsonValue::Object(ms) => {
            let mut i: usize = 0;
            while i < ms.len()
                invariant
                    i <= ms@.len(),
                    *v is Object,
                    v->Object_0 == *ms,
                    member(*v, key@) == member_from(ms@, key@, i as int),
                decreases ms@.len() - i,
            {
                if str_eq(ms[i].0.as_str(), key) {
                    return match &ms[i].1 {
                        JsonValue::Str(s) => Some(s),
                        _ => None,
                    };
                }
                i += 1;
            }
            None
        },
        _ => None,
    }
}

/// The profile still names the placeholder backend.
pub open spec fn placeholder_backend(v: JsonValue) -> bool {
    str_member(v, "decoder_backend"@) == Some("TBD-A00"@)
}

/// Whether the profile names the placeholder backend and must be rejected
/// by any normal handshake or doctor.
pub fn is_placeholder_backend(profile: &JsonValue) -> (r: bool)
    ensures
        r == placeholder_backend(*profile),
{
    match get_str(profile, "decoder_backend") {
        Some(s) => str_eq(s.as_str(), "TBD-A00"),
        None => false,
    }
}

/// How `Debug` renders a string: quoted, with its special characters
/// escaped.
pub uninterp spec fn str_debug(s: Seq<char>) -> Seq<char>;

/// Calls `format!("{:?}", s)`, the standard `Debug` rendering of a string.
/// The rendering is named rather than described: which characters it
/// escapes depends on Unicode tables.
#[verifier::external_body]
fn debug_str(s: &str) -> (r: String)
    ensures
        r@ == str_debug(s@),
{
    format!("{s:?}")
}

pub open spec fn not_canonical_message() -> Seq<char> {
    "profile bytes are not in canonical form"@
}

pub open spec fn placeholder_message() -> Seq<char> {
    "decoder_backend is the TBD-A00 placeholder \u{2014} rejected outside A0.0 tooling (ERR-02)"@
}

/// The verdict on a runtime profile whose text is `text` and which parsed
/// as `parsed` (or failed to parse with `parsed`'s error): it must parse,
/// be in canonical form, not name the placeholder backend, and name one of
/// the two closed backends.
pub open spec fn profile_verdict(text: Seq<char>, parsed: Result<JsonValue, Seq<char>>) -> Result<(), Seq<char>> {
    match parsed {
        Err(e) => Err("profile parse: "@ + e),
        Ok(v) => if canonical(v) != text {
            Err(not_canonical_message())
        } else if placeholder_backend(v) {
            Err(placeholder_message())
        } else {
            match str_member(v, "decoder_backend"@) {
                Some(b) => if b == "cuvid-lowdelay"@ || b == "sw1-lowdelay"@ {
                    Ok(())
                } else {
                    Err("unknown decoder_backend: Some("@ + str_debug(b) + ")"@)
                },
                None => Err("unknown decoder_backend: None"@),
            }
        },
    }
}

pub open spec fn parse_view(p: Result<JsonValue, String>) -> Result<JsonValue, Seq<char>> {
    match p {
        Ok(v) => Ok(v),
        Err(e) => Err(e@),
    }
}

/// Validate a runtime profile: `text` is the document and `parsed` what
/// parsing it gave. Returns the parsed document when it passes.
pub fn validate_runtime_profile(text: &str, parsed: Result<JsonValue, String>) -> (r: Result<JsonValue, String>)
    ensures
        match profile_verdict(text@, parse_view(parsed)) {
            Ok(_) => r matches Ok(v) && parsed == Ok::<JsonValue, String>(v),
            Err(e) => r matches Err(m) && m@ == e,
        },
{
    let v = match parsed {
        Err(e) => {
            let mut m = String::from_str("profile parse: ");
            m.append(e.as_str());
            return Err(m);
        },
        Ok(v) => v,
    };
    let c = canonicalize(&v);
    if !str_eq(c.as_str(), text) {
        return Err(String::from_str("profile bytes are not in canonical form"));
    }
    if is_placeholder_backend(&v) {
        return Err(String::from_str("decoder_backend is the TBD-A00 placeholder \u{2014} rejected outside A0.0 tooling (ERR-02)"));
    }
    let verdict = match get_str(&v, "decoder_backend") {
        Some(b) => {
            if str_eq(b.as_str(), "cuvid-lowdelay") || str_eq(b.as_str(), "sw1-lowdelay") {
                None
            } else {
                let mut m = String::from_str("unknown decoder_backend: Some(");
                m.append(debug_str(b.as_str()).as_str());
                m.append(")");
                Some(m)
            }
        },
        None => Some(String::from_str("unknown decoder_backend: None")),
    };
    match verdict {
        None => Ok(v),
        Some(m) => Err(m),
    }
}

} // verus!
