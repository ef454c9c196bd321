//! A JSON document model: values as read from `project.json`, settings files
//! and request payloads. Objects keep their keys in ascending order, as the
//! default JSON map of the ecosystem (a B-tree) does.

use vstd::prelude::*;
use crate::text::{seq_lt, decimal, signed_decimal, text_lt, text_eq, push_char, u64_to_text,
    i64_to_text, lemma_seq_lt_irreflexive, lemma_seq_lt_transitive, lemma_seq_lt_total,
    lemma_seq_lt_asymmetric};

verus! {

/// A JSON number: a non-negative integer, a negative integer, or a float
/// carried as the text that the JSON number formatter writes for it.
pub enum JsonNum {
    PosInt(u64),
    NegInt(i64),
    Float(String),
}

/// A JSON value.
pub enum Json {
    Null,
    Bool(bool),
    Number(JsonNum),
    Str(String),
    Array(Vec<Json>),
    Object(JsonMap),
}

/// A JSON object: entries with distinct keys in ascending key order.
pub struct JsonMap {
    entries: Vec<(String, Json)>,
}

/// Mathematical view of a JSON number.
pub enum NumV {
    PosInt(u64),
    NegInt(i64),
    Float(Seq<char>),
}

/// Mathematical view of a JSON value.
pub enum JsonV {
    Null,
    Bool(bool),
    Num(NumV),
    Str(Seq<char>),
    Arr(Seq<JsonV>),
    Obj(Seq<(Seq<char>, JsonV)>),
}

// ---------------------------------------------------------------------------
// Views
// ---------------------------------------------------------------------------

impl JsonNum {
    pub open spec fn view(&self) -> NumV {
        match self {
            JsonNum::PosInt(u) => NumV::PosInt(*u),
            JsonNum::NegInt(i) => NumV::NegInt(*i),
            JsonNum::Float(s) => NumV::Float(s@),
        }
    }
}

pub open spec fn view_items(s: Seq<Json>) -> Seq<JsonV>
    decreases s,
{
    if s.len() == 0 {
        Seq::empty()
    } else {
        view_items(s.drop_last()).push(view_json(s.last()))
    }
}

pub open spec fn view_entries(s: Seq<(String, Json)>) -> Seq<(Seq<char>, JsonV)>
    decreases s,
{
    if s.len() == 0 {
        Seq::empty()
    } else {
        view_entries(s.drop_last()).push((s.last().0@, view_json(s.last().1)))
    }
}

pub open spec fn view_json(j: Json) -> JsonV
    decreases j,
{
    match j {
        Json::Null => JsonV::Null,
        Json::Bool(b) => JsonV::Bool(b),
        Json::Number(n) => JsonV::Num(n.view()),
        Json::Str(s) => JsonV::Str(s@),
        Json::Array(v) => JsonV::Arr(view_items(v@)),
        Json::Object(m) => JsonV::Obj(m.view()),
    }
}

impl Json {
    pub open spec fn view(&self) -> JsonV {
        view_json(*self)
    }
}

impl JsonMap {
    /// The entries, in order.
    pub closed spec fn view(&self) -> Seq<(Seq<char>, JsonV)>
        decreases self,
    {
        view_entries(self.entries@)
    }

    #[verifier::type_invariant]
    closed spec fn keys_ascending(&self) -> bool {
        strictly_ascending(self.view())
    }
}

pub proof fn lemma_view_items(s: Seq<Json>)
    ensures
        view_items(s).len() == s.len(),
        forall|i: int| 0 <= i < s.len() ==> #[trigger] view_items(s)[i] == view_json(s[i]),
    decreases s.len(),
{
    if s.len() > 0 {
        lemma_view_items(s.drop_last());
    }
}

pub proof fn lemma_view_entries(s: Seq<(String, Json)>)
    ensures
        view_entries(s).len() == s.len(),
        forall|i: int|
            0 <= i < s.len() ==> #[trigger] view_entries(s)[i] == (s[i].0@, view_json(s[i].1)),
    decreases s.len(),
{
    if s.len() > 0 {
        lemma_view_entries(s.drop_last());
    }
}

// ---------------------------------------------------------------------------
// Specifications of the object operations
// ---------------------------------------------------------------------------

/// Keys strictly ascending (hence distinct).
pub open spec fn strictly_ascending(es: Seq<(Seq<char>, JsonV)>) -> bool {
    forall|i: int, j: int| 0 <= i < j < es.len() ==> seq_lt(#[trigger] es[i].0, #[trigger] es[j].0)
}

/// The value stored under `k`, if any (the first entry with that key).
pub open spec fn obj_lookup(es: Seq<(Seq<char>, JsonV)>, k: Seq<char>) -> Option<JsonV>
    decreases es.len(),
{
    if es.len() == 0 {
        None
    } else if es[0].0 == k {
        Some(es[0].1)
    } else {
        obj_lookup(es.drop_first(), k)
    }
}

/// Insertion into an ordered object: replaces the value of an existing key,
/// otherwise places the new entry before the first greater key.
pub open spec fn obj_insert(es: Seq<(Seq<char>, JsonV)>, k: Seq<char>, v: JsonV) -> Seq<(Seq<char>, JsonV)>
    decreases es.len(),
{
    if es.len() == 0 {
        seq![(k, v)]
    } else if es[0].0 == k {
        seq![(k, v)] + es.drop_first()
    } else if seq_lt(k, es[0].0) {
        seq![(k, v)] + es
    } else {
        seq![es[0]] + obj_insert(es.drop_first(), k, v)
    }
}

/// Adds an entry when there is a value.
pub open spec fn put(es: Seq<(Seq<char>, JsonV)>, k: Seq<char>, v: Option<JsonV>) -> Seq<
    (Seq<char>, JsonV),
> {
    match v {
        Some(x) => obj_insert(es, k, x),
        None => es,
    }
}

/// The first `n` optional entries of `ps`, put one after another into an
/// empty object.
pub open spec fn puts(ps: Seq<(Seq<char>, Option<JsonV>)>, n: nat) -> Seq<(Seq<char>, JsonV)>
    decreases n,
{
    if n == 0 {
        Seq::empty()
    } else {
        put(puts(ps, (n - 1) as nat), ps[n - 1].0, ps[n - 1].1)
    }
}

/// Removal of every entry with key `k`.
pub open spec fn obj_remove(es: Seq<(Seq<char>, JsonV)>, k: Seq<char>) -> Seq<(Seq<char>, JsonV)> {
    es.filter(key_differs(k))
}

pub open spec fn key_differs(k: Seq<char>) -> spec_fn((Seq<char>, JsonV)) -> bool {
    |e: (Seq<char>, JsonV)| e.0 != k
}

pub open spec fn obj_keys(es: Seq<(Seq<char>, JsonV)>) -> Seq<Seq<char>> {
    es.map_values(|e: (Seq<char>, JsonV)| e.0)
}

// Accessors on views, named after the methods of the JSON value type.
pub open spec fn jv_get(j: JsonV, k: Seq<char>) -> Option<JsonV> {
    match j {
        JsonV::Obj(es) => obj_lookup(es, k),
        _ => None,
    }
}

pub open spec fn jv_as_str(j: JsonV) -> Option<Seq<char>> {
    match j {
        JsonV::Str(s) => Some(s),
        _ => None,
    }
}

pub open spec fn jv_as_bool(j: JsonV) -> Option<bool> {
    match j {
        JsonV::Bool(b) => Some(b),
        _ => None,
    }
}

pub open spec fn jv_as_u64(j: JsonV) -> Option<u64> {
    match j {
        JsonV::Num(NumV::PosInt(u)) => Some(u),
        _ => None,
    }
}

pub open spec fn jv_as_i64(j: JsonV) -> Option<i64> {
    match j {
        JsonV::Num(NumV::PosInt(u)) => if u <= i64::MAX {
            Some(u as i64)
        } else {
            None
        },
        JsonV::Num(NumV::NegInt(i)) => Some(i),
        _ => None,
    }
}

/// Text of a number, as its `Display` writes it.
pub open spec fn num_text(n: NumV) -> Seq<char> {
    match n {
        NumV::PosInt(u) => decimal(u as nat),
        NumV::NegInt(i) => signed_decimal(i as int),
        NumV::Float(t) => t,
    }
}

pub open spec fn hex_digit(d: int) -> char {
    if d < 10 {
        (d + 48) as char
    } else {
        (d + 87) as char
    }
}

/// How the compact JSON writer escapes one character inside a string.
pub open spec fn escape_char(c: char) -> Seq<char> {
    if c == '"' {
        seq!['\\', '"']
    } else if c == '\\' {
        seq!['\\', '\\']
    } else if c == '\u{8}' {
        seq!['\\', 'b']
    } else if c == '\u{C}' {
        seq!['\\', 'f']
    } else if c == '\n' {
        seq!['\\', 'n']
    } else if c == '\r' {
        seq!['\\', 'r']
    } else if c == '\t' {
        seq!['\\', 't']
    } else if (c as int) < 32 {
        seq!['\\', 'u', '0', '0', hex_digit((c as int) / 16), hex_digit((c as int) % 16)]
    } else {
        seq![c]
    }
}

pub open spec fn escape_text(s: Seq<char>) -> Seq<char>
    decreases s.len(),
{
    if s.len() == 0 {
        Seq::empty()
    } else {
        escape_text(s.drop_last()) + escape_char(s.last())
    }
}

pub open spec fn quoted(s: Seq<char>) -> Seq<char> {
    seq!['"'] + escape_text(s) + seq!['"']
}

/// The compact JSON text of a value (no whitespace, keys in entry order).
pub open spec fn json_text(j: JsonV) -> Seq<char>
    decreases j,
{
    match j {
        JsonV::Null => seq!['n', 'u', 'l', 'l'],
        JsonV::Bool(b) => if b {
            seq!['t', 'r', 'u', 'e']
        } else {
            seq!['f', 'a', 'l', 's', 'e']
        },
        JsonV::Num(n) => num_text(n),
        JsonV::Str(s) => quoted(s),
        JsonV::Arr(items) => seq!['['] + items_text(items) + seq![']'],
        JsonV::Obj(es) => seq!['{'] + entries_text(es) + seq!['}'],
    }
}

/// Comma-separated texts of the items.
pub open spec fn items_text(items: Seq<JsonV>) -> Seq<char>
    decreases items,
{
    if items.len() == 0 {
        Seq::empty()
    } else if items.len() == 1 {
        json_text(items[0])
    } else {
        items_text(items.drop_last()) + seq![','] + json_text(items.last())
    }
}

/// Comma-separated `"key":value` texts of the entries.
pub open spec fn entries_text(es: Seq<(Seq<char>, JsonV)>) -> Seq<char>
    decreases es,
{
    if es.len() == 0 {
        Seq::empty()
    } else if es.len() == 1 {
        quoted(es[0].0) + seq![':'] + json_text(es[0].1)
    } else {
        entries_text(es.drop_last()) + seq![','] + quoted(es.last().0) + seq![':'] + json_text(
            es.last().1,
        )
    }
}

// ---------------------------------------------------------------------------
// Lemmas on ordered objects
// ---------------------------------------------------------------------------

proof fn lemma_lookup_absent(es: Seq<(Seq<char>, JsonV)>, k: Seq<char>)
    requires
        forall|i: int| 0 <= i < es.len() ==> #[trigger] es[i].0 != k,
    ensures
        obj_lookup(es, k) is None,
    decreases es.len(),
{
    if es.len() > 0 {
        assert forall|i: int| 0 <= i < es.drop_first().len() implies #[trigger] es.drop_first()[i].0
            != k by {
            assert(es.drop_first()[i] == es[i + 1]);
        }
        lemma_lookup_absent(es.drop_first(), k);
    }
}

/// In an ascending object, the lookup of a key finds the entry at its index.
pub proof fn lemma_lookup_index(es: Seq<(Seq<char>, JsonV)>, i: int)
    requires
        strictly_ascending(es),
        0 <= i < es.len(),
    ensures
        obj_lookup(es, es[i].0) == Some(es[i].1),
    decreases i,
{
    if i > 0 {
        assert(seq_lt(es[0].0, es[i].0));
        lemma_seq_lt_irreflexive(es[0].0);
        let t = es.drop_first();
        assert forall|a: int, b: int| 0 <= a < b < t.len() implies seq_lt(
            #[trigger] t[a].0,
            #[trigger] t[b].0,
        ) by {
            assert(t[a] == es[a + 1] && t[b] == es[b + 1]);
        }
        lemma_lookup_index(t, i - 1);
    }
}

/// What an optional insertion does to lookups.
pub proof fn lemma_put(es: Seq<(Seq<char>, JsonV)>, k: Seq<char>, v: Option<JsonV>)
    requires
        strictly_ascending(es),
    ensures
        strictly_ascending(put(es, k, v)),
        obj_lookup(put(es, k, v), k) == match v {
            Some(x) => Some(x),
            None => obj_lookup(es, k),
        },
        forall|k2: Seq<char>| k2 != k ==> obj_lookup(put(es, k, v), k2) == obj_lookup(es, k2),
{
    match v {
        Some(x) => lemma_insert_props(es, k, x),
        None => {},
    }
}

/// Entries with distinct keys, put into an empty object: each key reads back
/// its own value (nothing when its value is absent), and no other key is there.
pub proof fn lemma_puts(ps: Seq<(Seq<char>, Option<JsonV>)>, n: nat)
    requires
        n <= ps.len(),
        forall|i: int, j: int| 0 <= i < j < n ==> ps[i].0 != ps[j].0,
    ensures
        strictly_ascending(puts(ps, n)),
        forall|i: int| 0 <= i < n ==> obj_lookup(puts(ps, n), #[trigger] ps[i].0) == ps[i].1,
        forall|k: Seq<char>|
            #[trigger] obj_lookup(puts(ps, n), k) is Some ==> exists|i: int| 0 <= i < n && ps[i].0 == k,
    decreases n,
{
    if n > 0 {
        let m = (n - 1) as nat;
        let pre = puts(ps, m);
        lemma_puts(ps, m);
        lemma_put(pre, ps[m as int].0, ps[m as int].1);
        assert forall|i: int| 0 <= i < n implies obj_lookup(puts(ps, n), #[trigger] ps[i].0)
            == ps[i].1 by {
            if i < m {
                assert(ps[i].0 != ps[m as int].0);
            } else if ps[m as int].1 is None {
                if obj_lookup(pre, ps[i].0) is Some {
                    let j = choose|j: int| 0 <= j < m && ps[j].0 == ps[i].0;
                    assert(ps[j].0 != ps[m as int].0);
                }
            }
        }
        assert forall|k: Seq<char>| #[trigger] obj_lookup(puts(ps, n), k) is Some implies exists|
            i: int,
        | 0 <= i < n && ps[i].0 == k by {
            if k != ps[m as int].0 {
                assert(obj_lookup(pre, k) is Some);
            }
        }
    }
}

/// Lookup in an object with one more entry at the end: an earlier entry wins.
pub proof fn lemma_lookup_push(es: Seq<(Seq<char>, JsonV)>, e: (Seq<char>, JsonV), k: Seq<char>)
    ensures
        obj_lookup(es.push(e), k) == match obj_lookup(es, k) {
            Some(v) => Some(v),
            None => if e.0 == k {
                Some(e.1)
            } else {
                None
            },
        },
    decreases es.len(),
{
    let p = es.push(e);
    if es.len() == 0 {
        assert(p[0] == e);
        assert(p.drop_first() =~= Seq::<(Seq<char>, JsonV)>::empty());
        assert(obj_lookup(p.drop_first(), k) is None);
    } else {
        assert(p[0] == es[0]);
        assert(p.drop_first() =~= es.drop_first().push(e));
        lemma_lookup_push(es.drop_first(), e, k);
        if es[0].0 != k {
            assert(obj_lookup(p, k) == obj_lookup(p.drop_first(), k));
            assert(obj_lookup(es, k) == obj_lookup(es.drop_first(), k));
        }
    }
}

/// A key found by lookup is at some index.
pub proof fn lemma_lookup_some(es: Seq<(Seq<char>, JsonV)>, k: Seq<char>)
    requires
        obj_lookup(es, k) is Some,
    ensures
        exists|i: int| 0 <= i < es.len() && es[i].0 == k && obj_lookup(es, k) == Some(es[i].1),
    decreases es.len(),
{
    if es[0].0 != k {
        lemma_lookup_some(es.drop_first(), k);
        let i = choose|i: int|
            0 <= i < es.drop_first().len() && es.drop_first()[i].0 == k && obj_lookup(
                es.drop_first(),
                k,
            ) == Some(es.drop_first()[i].1);
        assert(es[i + 1] == es.drop_first()[i]);
    }
}

/// Inserting into an ordered object keeps it ordered; the key then reads
/// back the inserted value, every other key reads as before, and every key
/// was inserted or there before.
pub proof fn lemma_insert_props(es: Seq<(Seq<char>, JsonV)>, k: Seq<char>, v: JsonV)
    requires
        strictly_ascending(es),
    ensures
        strictly_ascending(obj_insert(es, k, v)),
        obj_lookup(obj_insert(es, k, v), k) == Some(v),
        forall|k2: Seq<char>| k2 != k ==> obj_lookup(obj_insert(es, k, v), k2) == obj_lookup(es, k2),
        forall|i: int|
            0 <= i < obj_insert(es, k, v).len() ==> (#[trigger] obj_insert(es, k, v)[i].0 == k
                || exists|j: int| 0 <= j < es.len() && es[j].0 == obj_insert(es, k, v)[i].0),
    decreases es.len(),
{
    let r = obj_insert(es, k, v);
    if es.len() == 0 {
        assert forall|k2: Seq<char>| k2 != k implies obj_lookup(r, k2) == obj_lookup(es, k2) by {
            assert(r[0].0 == k);
            assert(r.drop_first().len() == 0);
            assert(obj_lookup(r.drop_first(), k2) is None);
        }
    } else if es[0].0 == k {
        let t = es.drop_first();
        assert(r.drop_first() =~= t);
        assert forall|k2: Seq<char>| k2 != k implies obj_lookup(r, k2) == obj_lookup(es, k2) by {
            assert(r[0].0 == k);
        }
        assert forall|a: int, b: int| 0 <= a < b < r.len() implies seq_lt(
            #[trigger] r[a].0,
            #[trigger] r[b].0,
        ) by {
            if a == 0 {
                assert(r[b] == es[b]);
            } else {
                assert(r[a] == es[a] && r[b] == es[b]);
            }
        }
        assert forall|k2: Seq<char>| k2 != k implies obj_lookup(r, k2) == obj_lookup(es, k2) by {
            assert(r.drop_first() =~= es.drop_first());
        }
        assert forall|i: int| 0 <= i < r.len() implies (#[trigger] r[i].0 == k || exists|j: int|
            0 <= j < es.len() && es[j].0 == r[i].0) by {
            if i > 0 {
                assert(r[i] == es[i]);
            }
        }
    } else if seq_lt(k, es[0].0) {
        assert forall|a: int, b: int| 0 <= a < b < r.len() implies seq_lt(
            #[trigger] r[a].0,
            #[trigger] r[b].0,
        ) by {
            if a == 0 {
                assert(r[b] == es[b - 1]);
                if b - 1 > 0 {
                    assert(seq_lt(es[0].0, es[b - 1].0));
                    lemma_seq_lt_transitive(k, es[0].0, es[b - 1].0);
                }
            } else {
                assert(r[a] == es[a - 1] && r[b] == es[b - 1]);
            }
        }
        assert forall|k2: Seq<char>| k2 != k implies obj_lookup(r, k2) == obj_lookup(es, k2) by {
            assert(r.drop_first() =~= es);
        }
        assert forall|i: int| 0 <= i < r.len() implies (#[trigger] r[i].0 == k || exists|j: int|
            0 <= j < es.len() && es[j].0 == r[i].0) by {
            if i > 0 {
                assert(r[i] == es[i - 1]);
            }
        }
        assert(r.drop_first() =~= es);
        lemma_seq_lt_irreflexive(k);
        assert forall|i: int| 0 <= i < es.len() implies #[trigger] es[i].0 != k by {
            if i > 0 {
                assert(seq_lt(es[0].0, es[i].0));
                lemma_seq_lt_transitive(k, es[0].0, es[i].0);
            }
        }
    } else {
        let t = es.drop_first();
        assert forall|a: int, b: int| 0 <= a < b < t.len() implies seq_lt(
            #[trigger] t[a].0,
            #[trigger] t[b].0,
        ) by {
            assert(t[a] == es[a + 1] && t[b] == es[b + 1]);
        }
        lemma_insert_props(t, k, v);
        let rt = obj_insert(t, k, v);
        assert(r =~= seq![es[0]] + rt);
        assert(r.drop_first() =~= rt);
        lemma_seq_lt_total(k, es[0].0);
        assert forall|k2: Seq<char>| k2 != k implies obj_lookup(r, k2) == obj_lookup(es, k2) by {
            if es[0].0 != k2 {
                assert(obj_lookup(rt, k2) == obj_lookup(t, k2));
            }
        }
        assert forall|a: int, b: int| 0 <= a < b < r.len() implies seq_lt(
            #[trigger] r[a].0,
            #[trigger] r[b].0,
        ) by {
            if a == 0 {
                assert(r[b] == rt[b - 1]);
                if rt[b - 1].0 != k {
                    let j = choose|j: int| 0 <= j < t.len() && t[j].0 == rt[b - 1].0;
                    assert(t[j] == es[j + 1]);
                }
            } else {
                assert(r[a] == rt[a - 1] && r[b] == rt[b - 1]);
            }
        }
        assert forall|i: int| 0 <= i < r.len() implies (#[trigger] r[i].0 == k || exists|j: int|
            0 <= j < es.len() && es[j].0 == r[i].0) by {
            if i > 0 {
                assert(r[i] == rt[i - 1]);
                if rt[i - 1].0 != k {
                    let j = choose|j: int| 0 <= j < t.len() && t[j].0 == rt[i - 1].0;
                    assert(t[j] == es[j + 1]);
                }
            }
        }
        assert(r.drop_first() =~= rt);
    }
}

/// Removing a key from an ordered object keeps it ordered; the key then
/// reads as absent and every other key reads as before.
pub proof fn lemma_remove_props(es: Seq<(Seq<char>, JsonV)>, k: Seq<char>)
    requires
        strictly_ascending(es),
    ensures
        strictly_ascending(obj_remove(es, k)),
        obj_lookup(obj_remove(es, k), k) is None,
        forall|k2: Seq<char>| k2 != k ==> obj_lookup(obj_remove(es, k), k2) == obj_lookup(es, k2),
    decreases es.len(),
{
    let f = key_differs(k);
    let r = obj_remove(es, k);
    if es.len() == 0 {
        assert(r =~= es);
    } else {
        let t = es.drop_first();
        assert forall|a: int, b: int| 0 <= a < b < t.len() implies seq_lt(
            #[trigger] t[a].0,
            #[trigger] t[b].0,
        ) by {
            assert(t[a] == es[a + 1] && t[b] == es[b + 1]);
        }
        lemma_remove_props(t, k);
        let rt = obj_remove(t, k);
        assert(es =~= seq![es[0]] + t);
        assert(es == seq![es[0]] + t);
        t.lemma_filter_prepend(es[0], f);
        assert(r == (if f(es[0]) {
            seq![es[0]]
        } else {
            Seq::empty()
        }) + rt);
        if es[0].0 != k {
            assert(r =~= seq![es[0]] + rt);
            assert(r.drop_first() =~= rt);
            assert forall|k2: Seq<char>| k2 != k implies obj_lookup(r, k2) == obj_lookup(es, k2) by {
                if es[0].0 != k2 {
                    assert(obj_lookup(rt, k2) == obj_lookup(t, k2));
                }
            }
            assert forall|a: int, b: int| 0 <= a < b < r.len() implies seq_lt(
                #[trigger] r[a].0,
                #[trigger] r[b].0,
            ) by {
                if a == 0 {
                    assert(r[b] == rt[b - 1]);
                    assert(rt.contains(rt[b - 1]));
                    t.lemma_filter_contains_rev(f, rt[b - 1]);
                    let j = choose|j: int| 0 <= j < t.len() && t[j] == rt[b - 1];
                    assert(t[j] == es[j + 1]);
                } else {
                    assert(r[a] == rt[a - 1] && r[b] == rt[b - 1]);
                }
            }
        } else {
            assert(r =~= rt);
            assert forall|k2: Seq<char>| k2 != k implies obj_lookup(r, k2) == obj_lookup(es, k2) by {
                assert(obj_lookup(rt, k2) == obj_lookup(t, k2));
            }
        }
    }
}

// ---------------------------------------------------------------------------
// Executable operations
// ---------------------------------------------------------------------------

impl JsonNum {
    pub fn deep_clone(&self) -> (r: JsonNum)
        ensures
            r.view() == self.view(),
    {
        match self {
            JsonNum::PosInt(u) => JsonNum::PosInt(*u),
            JsonNum::NegInt(i) => JsonNum::NegInt(*i),
            JsonNum::Float(t) => JsonNum::Float(t.clone()),
        }
    }

    /// The number's text (`Number::to_string`).
    pub fn to_text(&self) -> (r: String)
        ensures
            r@ == num_text(self.view()),
    {
        match self {
            JsonNum::PosInt(u) => u64_to_text(*u),
            JsonNum::NegInt(i) => i64_to_text(*i),
            JsonNum::Float(t) => t.clone(),
        }
    }
}

impl Json {
    /// A copy of the value.
    pub fn deep_clone(&self) -> (r: Json)
        ensures
            r.view() == self.view(),
        decreases self,
    {
        match self {
            Json::Null => Json::Null,
            Json::Bool(b) => Json::Bool(*b),
            Json::Number(n) => Json::Number(n.deep_clone()),
            Json::Str(s) => Json::Str(s.clone()),
            Json::Array(v) => {
                let mut out: Vec<Json> = Vec::new();
                let mut i: usize = 0;
                while i < v.len()
                    invariant
                        i <= v.len(),
                        *self == Json::Array(*v),
                        out.len() == i,
                        forall|k: int| 0 <= k < i ==> #[trigger] view_json(out@[k]) == view_json(v@[k]),
                    decreases v.len() - i,
                {
                    proof {
                        vstd::std_specs::vec::axiom_vec_index_decreases(*v, i as int);
                        assert(decreases_to!(*self => (*self)->Array_0));
                    }
                    let c = v[i].deep_clone();
                    out.push(c);
                    i += 1;
                }
                proof {
                    lemma_view_items(out@);
                    lemma_view_items(v@);
                    assert(view_items(out@) =~= view_items(v@));
                }
                Json::Array(out)
            },
            Json::Object(m) => {
                proof {
                    assert(decreases_to!(*self => (*self)->Object_0));
                }
                Json::Object(m.deep_clone())
            },
        }
    }

    /// `Value::get` with a key: the member of an object, `None` for other values.
    pub fn get(&self, key: &str) -> (r: Option<&Json>)
        ensures
            match r {
                Some(v) => jv_get(self.view(), key@) == Some(v.view()),
                None => jv_get(self.view(), key@) is None,
            },
    {
        match self {
            Json::Object(m) => m.get(key),
            _ => None,
        }
    }

    /// `Value::as_str`.
    pub fn as_str(&self) -> (r: Option<&str>)
        ensures
            match r {
                Some(s) => jv_as_str(self.view()) == Some(s@),
                None => jv_as_str(self.view()) is None,
            },
    {
        match self {
            Json::Str(s) => Some(s.as_str()),
            _ => None,
        }
    }

    /// `Value::as_bool`.
    pub fn as_bool(&self) -> (r: Option<bool>)
        ensures
            r == jv_as_bool(self.view()),
    {
        match self {
            Json::Bool(b) => Some(*b),
            _ => None,
        }
    }

    /// `Value::as_u64`.
    pub fn as_u64(&self) -> (r: Option<u64>)
        ensures
            r == jv_as_u64(self.view()),
    {
        match self {
            Json::Number(JsonNum::PosInt(u)) => Some(*u),
            _ => None,
        }
    }

    /// `Value::as_i64`.
    pub fn as_i64(&self) -> (r: Option<i64>)
        ensures
            r == jv_as_i64(self.view()),
    {
        match self {
            Json::Number(JsonNum::PosInt(u)) => if *u <= 9223372036854775807u64 {
                Some(*u as i64)
            } else {
                None
            },
            Json::Number(JsonNum::NegInt(i)) => Some(*i),
            _ => None,
        }
    }

    /// `Value::as_object`.
    pub fn as_object(&self) -> (r: Option<&JsonMap>)
        ensures
            match r {
                Some(m) => self.view() == JsonV::Obj(m.view()),
                None => !(self.view() is Obj),
            },
    {
        match self {
            Json::Object(m) => Some(m),
            _ => None,
        }
    }

    /// `Value::as_array`.
    pub fn as_array(&self) -> (r: Option<&Vec<Json>>)
        ensures
            match r {
                Some(v) => self.view() == JsonV::Arr(view_items(v@)),
                None => !(self.view() is Arr),
            },
    {
        match self {
            Json::Array(v) => Some(v),
            _ => None,
        }
    }

    /// `Value::is_null`.
    pub fn is_null(&self) -> (r: bool)
        ensures
            r == (self.view() is Null),
    {
        match self {
            Json::Null => true,
            _ => false,
        }
    }
}

impl JsonMap {
    /// A copy of the object.
    pub fn deep_clone(&self) -> (r: JsonMap)
        ensures
            r.view() == self.view(),
        decreases self,
    {
        proof {
            use_type_invariant(self);
            lemma_view_entries(self.entries@);
        }
        let mut out: Vec<(String, Json)> = Vec::new();
        let mut i: usize = 0;
        while i < self.entries.len()
            invariant
                i <= self.entries.len(),
                out.len() == i,
                forall|k: int|
                    0 <= k < i ==> (#[trigger] out@[k]).0@ == self.entries@[k].0@ && view_json(out@[k].1)
                        == view_json(self.entries@[k].1),
            decreases self.entries.len() - i,
        {
            proof {
                vstd::std_specs::vec::axiom_vec_index_decreases(self.entries, i as int);
                assert(decreases_to!(*self => self.entries));
                assert(decreases_to!(self.entries[i as int] => self.entries[i as int].1));
            }
            let k = self.entries[i].0.clone();
            let v = self.entries[i].1.deep_clone();
            out.push((k, v));
            i += 1;
        }
        proof {
            lemma_view_entries(out@);
            assert(view_entries(out@) =~= view_entries(self.entries@));
        }
        JsonMap { entries: out }
    }

    /// An empty object.
    pub fn new() -> (r: JsonMap)
        ensures
            r.view() == Seq::<(Seq<char>, JsonV)>::empty(),
    {
        JsonMap { entries: Vec::new() }
    }

    pub fn len(&self) -> (r: usize)
        ensures
            r == self.view().len(),
            strictly_ascending(self.view()),
    {
        proof {
            use_type_invariant(self);
            lemma_view_entries(self.entries@);
        }
        self.entries.len()
    }

    pub fn is_empty(&self) -> (r: bool)
        ensures
            r == (self.view().len() == 0),
    {
        self.len() == 0
    }

    /// The key and value of the `i`-th entry.
    pub fn entry(&self, i: usize) -> (r: (&String, &Json))
        requires
            i < self.view().len(),
        ensures
            (r.0@, r.1.view()) == self.view()[i as int],
    {
        proof {
            lemma_view_entries(self.entries@);
        }
        let e = &self.entries[i];
        (&e.0, &e.1)
    }

    /// The value stored under `key` (`Map::get`).
    pub fn get(&self, key: &str) -> (r: Option<&Json>)
        ensures
            match r {
                Some(v) => obj_lookup(self.view(), key@) == Some(v.view()),
                None => obj_lookup(self.view(), key@) is None,
            },
    {
        proof {
            use_type_invariant(self);
            lemma_view_entries(self.entries@);
        }
        let mut i: usize = 0;
        while i < self.entries.len()
            invariant
                i <= self.entries.len(),
                strictly_ascending(self.view()),
                view_entries(self.entries@).len() == self.entries@.len(),
                forall|k: int|
                    0 <= k < self.entries@.len() ==> #[trigger] view_entries(self.entries@)[k] == (
                    self.entries@[k].0@, view_json(self.entries@[k].1)),
                forall|k: int| 0 <= k < i ==> #[trigger] self.view()[k].0 != key@,
            decreases self.entries.len() - i,
        {
            if text_eq(self.entries[i].0.as_str(), key) {
                proof {
                    lemma_lookup_index(self.view(), i as int);
                }
                return Some(&self.entries[i].1);
            }
            i += 1;
        }
        proof {
            lemma_lookup_absent(self.view(), key@);
        }
        None
    }

    /// Whether the object has an entry for `key`.
    pub fn contains_key(&self, key: &str) -> (r: bool)
        ensures
            r == (obj_lookup(self.view(), key@) is Some),
    {
        self.get(key).is_some()
    }

    /// Stores `value` under `key`, replacing an existing value (`Map::insert`).
    pub fn insert(&mut self, key: String, value: Json)
        ensures
            final(self).view() == obj_insert(old(self).view(), key@, value.view()),
    {
        proof {
            use_type_invariant(&*self);
            lemma_view_entries(self.entries@);
        }
        let ghost es = self.view();
        let ghost vv = value.view();
        let ghost r = obj_insert(es, key@, vv);
        let n = self.entries.len();
        let mut out: Vec<(String, Json)> = Vec::new();
        let mut i: usize = 0;
        assert(es.skip(0) =~= es);
        assert(es.take(0) + obj_insert(es.skip(0), key@, vv) =~= r);
        // copy the entries with smaller keys
        while i < n && text_lt(self.entries[i].0.as_str(), key.as_str())
            invariant
                n == self.entries@.len(),
                es == self.view(),
                vv == value.view(),
                r == obj_insert(es, key@, vv),
                es.len() == n,
                strictly_ascending(es),
                i <= n,
                forall|k: int| 0 <= k < n ==> #[trigger] es[k] == (
                    self.entries@[k].0@, view_json(self.entries@[k].1)),
                out@.len() == i,
                forall|k: int| 0 <= k < i ==> (#[trigger] out@[k].0@, view_json(out@[k].1)) == es[k],
                r == es.take(i as int) + obj_insert(es.skip(i as int), key@, vv),
            decreases n - i,
        {
            let ghost t = es.skip(i as int);
            proof {
                assert(t[0] == es[i as int]);
                lemma_seq_lt_asymmetric(es[i as int].0, key@);
                lemma_seq_lt_irreflexive(key@);
                assert(t.drop_first() =~= es.skip(i + 1));
                assert(es.take(i + 1) =~= es.take(i as int) + seq![es[i as int]]);
                assert(r =~= es.take(i + 1) + obj_insert(es.skip(i + 1), key@, vv));
            }
            let k = self.entries[i].0.clone();
            let v = self.entries[i].1.deep_clone();
            out.push((k, v));
            i += 1;
        }
        // the new entry, skipping an equal key
        let ghost t = es.skip(i as int);
        let mut j = i;
        if i < n && text_eq(self.entries[i].0.as_str(), key.as_str()) {
            j = i + 1;
            proof {
                assert(t[0] == es[i as int]);
                assert(t.drop_first() =~= es.skip(i + 1));
            }
        } else {
            proof {
                if i < n {
                    assert(t[0] == es[i as int]);
                    lemma_seq_lt_total(es[i as int].0, key@);
                }
            }
        }
        assert(obj_insert(t, key@, vv) == seq![(key@, vv)] + es.skip(j as int));
        assert(r =~= es.take(i as int) + seq![(key@, vv)] + es.skip(j as int));
        proof {
            assert forall|k: int| 0 <= k < i implies r[k] == es[k] by {
                assert(r[k] == es.take(i as int)[k]);
            }
        }
        let ghost key_view = key@;
        out.push((key, value));
        assert(out@[i as int].0@ == key_view);
        // copy the rest
        let ghost start = j as int;
        while j < n
            invariant
                n == self.entries@.len(),
                es == self.view(),
                es.len() == n,
                i <= start <= j <= n,
                r == es.take(i as int) + seq![(key@, vv)] + es.skip(start),
                out@.len() == i + 1 + (j - start),
                forall|k: int| 0 <= k < n ==> #[trigger] es[k] == (
                    self.entries@[k].0@, view_json(self.entries@[k].1)),
                forall|k: int| 0 <= k < out@.len() ==> (#[trigger] out@[k].0@, view_json(out@[k].1)) == r[k],
            decreases n - j,
        {
            let k = self.entries[j].0.clone();
            let v = self.entries[j].1.deep_clone();
            out.push((k, v));
            proof {
                assert(r[i + 1 + (j - start)] == es[j as int]);
            }
            j += 1;
        }
        proof {
            lemma_view_entries(out@);
            assert(view_entries(out@) =~= r);
            lemma_insert_props(es, key@, vv);
        }
        self.entries = out;
    }
}


impl JsonMap {
    /// Removes the entry for `key`, if any (`Map::remove`).
    pub fn remove(&mut self, key: &str)
        ensures
            final(self).view() == obj_remove(old(self).view(), key@),
    {
        proof {
            use_type_invariant(&*self);
            lemma_view_entries(self.entries@);
        }
        let ghost es = self.view();
        let ghost f = key_differs(key@);
        let n = self.entries.len();
        let mut out: Vec<(String, Json)> = Vec::new();
        let mut i: usize = 0;
        assert(es.take(0).filter(f) =~= Seq::<(Seq<char>, JsonV)>::empty()) by {
            reveal(Seq::filter);
        }
        while i < n
            invariant
                n == self.entries@.len(),
                es == self.view(),
                es.len() == n,
                f == key_differs(key@),
                i <= n,
                forall|k: int| 0 <= k < n ==> #[trigger] es[k] == (
                    self.entries@[k].0@, view_json(self.entries@[k].1)),
                view_entries(out@) == es.take(i as int).filter(f),
            decreases n - i,
        {
            let ghost before = out@;
            proof {
                assert(es.take(i + 1) =~= es.take(i as int).push(es[i as int]));
                es.take(i as int).lemma_filter_push(es[i as int], f);
            }
            if !text_eq(self.entries[i].0.as_str(), key) {
                let k = self.entries[i].0.clone();
                let v = self.entries[i].1.deep_clone();
                out.push((k, v));
                proof {
                    assert(out@.drop_last() =~= before);
                }
            }
            i += 1;
        }
        proof {
            assert(es.take(n as int) =~= es);
            lemma_remove_props(es, key@);
        }
        self.entries = out;
    }
}

/// Appends the escaped form of `s` (without quotes).
fn write_escaped(s: &str, out: &mut String)
    ensures
        final(out)@ == old(out)@ + escape_text(s@),
{
    let n = s.unicode_len();
    let mut i: usize = 0;
    assert(s@.take(0) =~= Seq::<char>::empty());
    while i < n
        invariant
            n == s@.len(),
            i <= n,
            out@ == old(out)@ + escape_text(s@.take(i as int)),
        decreases n - i,
    {
        let c = s.get_char(i);
        let ghost before = out@;
        if c == '"' {
            push_char(out, '\\');
            push_char(out, '"');
        } else if c == '\\' {
            push_char(out, '\\');
            push_char(out, '\\');
        } else if c == '\u{8}' {
            push_char(out, '\\');
            push_char(out, 'b');
        } else if c == '\u{C}' {
            push_char(out, '\\');
            push_char(out, 'f');
        } else if c == '\n' {
            push_char(out, '\\');
            push_char(out, 'n');
        } else if c == '\r' {
            push_char(out, '\\');
            push_char(out, 'r');
        } else if c == '\t' {
            push_char(out, '\\');
            push_char(out, 't');
        } else if (c as u32) < 32 {
            let u = c as u32;
            let hi = (u / 16) as u8;
            let lo = (u % 16) as u8;
            push_char(out, '\\');
            push_char(out, 'u');
            push_char(out, '0');
            push_char(out, '0');
            push_char(out, (hi + 48) as char);
            let l = if lo < 10 {
                (lo + 48) as char
            } else {
                (lo + 87) as char
            };
            push_char(out, l);
            assert(hex_digit((c as int) / 16) == (hi + 48) as char);
            assert(hex_digit((c as int) % 16) == l);
        } else {
            push_char(out, c);
        }
        proof {
            assert(out@ =~= before + escape_char(c));
            assert(s@.take(i + 1).drop_last() =~= s@.take(i as int));
            assert(s@.take(i + 1).last() == c);
        }
        i += 1;
    }
    assert(s@.take(n as int) =~= s@);
}

/// Appends the compact JSON text of `j`.
fn write_json(j: &Json, out: &mut String)
    ensures
        final(out)@ == old(out)@ + json_text(j.view()),
    decreases j,
{
    match j {
        Json::Null => {
            out.append("null");
            proof { reveal_strlit("null"); }
            assert(out@ =~= old(out)@ + seq!['n', 'u', 'l', 'l']);
        },
        Json::Bool(b) => {
            if *b {
                out.append("true");
                proof { reveal_strlit("true"); }
                assert(out@ =~= old(out)@ + seq!['t', 'r', 'u', 'e']);
            } else {
                out.append("false");
                proof { reveal_strlit("false"); }
                assert(out@ =~= old(out)@ + seq!['f', 'a', 'l', 's', 'e']);
            }
        },
        Json::Number(n) => {
            let t = n.to_text();
            out.append(t.as_str());
        },
        Json::Str(s) => {
            push_char(out, '"');
            write_escaped(s.as_str(), out);
            push_char(out, '"');
            assert(out@ =~= old(out)@ + quoted(s@));
        },
        Json::Array(v) => {
            push_char(out, '[');
            let ghost start = out@;
            let mut i: usize = 0;
            proof {
                lemma_view_items(v@);
                assert(v@.take(0) =~= Seq::<Json>::empty());
            }
            while i < v.len()
                invariant
                    i <= v.len(),
                    *j == Json::Array(*v),
                    out@ == start + items_text(view_items(v@.take(i as int))),
                decreases v.len() - i,
            {
                proof {
                    vstd::std_specs::vec::axiom_vec_index_decreases(*v, i as int);
                    assert(decreases_to!(*j => (*j)->Array_0));
                }
                let ghost before = out@;
                let ghost pre = view_items(v@.take(i as int));
                if i > 0 {
                    push_char(out, ',');
                }
                write_json(&v[i], out);
                proof {
                    let t = v@.take(i + 1);
                    assert(t.drop_last() =~= v@.take(i as int));
                    assert(t.last() == v@[i as int]);
                    let vt = view_items(t);
                    assert(vt == pre.push(view_json(v@[i as int])));
                    assert(vt.drop_last() =~= pre);
                    lemma_view_items(t);
                    lemma_view_items(v@.take(i as int));
                    if i == 0 {
                        assert(out@ =~= start + items_text(vt));
                    } else {
                        assert(out@ =~= start + items_text(vt));
                    }
                }
                i += 1;
            }
            push_char(out, ']');
            proof {
                assert(v@.take(v@.len() as int) =~= v@);
                assert(out@ =~= old(out)@ + json_text(j.view()));
            }
        },
        Json::Object(m) => {
            proof {
                assert(decreases_to!(*j => (*j)->Object_0));
            }
            push_char(out, '{');
            write_entries(m, out);
            push_char(out, '}');
            assert(out@ =~= old(out)@ + json_text(j.view()));
        },
    }
}

fn write_entries(m: &JsonMap, out: &mut String)
    ensures
        final(out)@ == old(out)@ + entries_text(m.view()),
    decreases m,
{
    proof {
        lemma_view_entries(m.entries@);
    }
    let ghost start = out@;
    let ghost es = m.view();
    let mut i: usize = 0;
    assert(m.entries@.take(0) =~= Seq::<(String, Json)>::empty());
    while i < m.entries.len()
        invariant
            i <= m.entries.len(),
            es == m.view(),
            out@ == start + entries_text(view_entries(m.entries@.take(i as int))),
        decreases m.entries.len() - i,
    {
        proof {
            vstd::std_specs::vec::axiom_vec_index_decreases(m.entries, i as int);
            assert(decreases_to!(*m => m.entries));
            assert(decreases_to!(m.entries[i as int] => m.entries[i as int].1));
        }
        let ghost pre = view_entries(m.entries@.take(i as int));
        if i > 0 {
            push_char(out, ',');
        }
        push_char(out, '"');
        write_escaped(m.entries[i].0.as_str(), out);
        push_char(out, '"');
        push_char(out, ':');
        write_json(&m.entries[i].1, out);
        proof {
            let t = m.entries@.take(i + 1);
            assert(t.drop_last() =~= m.entries@.take(i as int));
            assert(t.last() == m.entries@[i as int]);
            let vt = view_entries(t);
            assert(vt.drop_last() =~= pre);
            lemma_view_entries(m.entries@.take(i as int));
            assert(out@ =~= start + entries_text(vt));
        }
        i += 1;
    }
    assert(m.entries@.take(m.entries@.len() as int) =~= m.entries@);
}

impl Json {
    /// The compact JSON text of the value (`Value::to_string`).
    pub fn to_text(&self) -> (r: String)
        ensures
            r@ == json_text(self.view()),
    {
        let mut out = String::new();
        write_json(self, &mut out);
        assert(out@ =~= json_text(self.view()));
        out
    }
}

} // verus!
