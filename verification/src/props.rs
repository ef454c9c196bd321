//! Per-wallpaper properties: the definitions under `general.properties` of a
//! `project.json`, the user's saved overrides, and the `--set-property`
//! flags that hand the values to the engine.

use vstd::prelude::*;
use crate::json::{Json, JsonMap, JsonNum, JsonV, NumV, view_items, lemma_view_items, obj_lookup,
    obj_insert, obj_remove, strictly_ascending, jv_get, jv_as_i64, num_text, json_text,
    lemma_insert_props, lemma_remove_props, lemma_lookup_push, lemma_lookup_some};
use crate::text::{seq_lt, all_digits, ascii_lowercase, unicode_lowercase, to_lowercase,
    to_ascii_lowercase, owned, text_eq, starts_with, all_ascii_digits, lemma_seq_lt_irreflexive};
use crate::paths::{path_join, workshop_rel, join_path, workshop_dir_in};

verus! {

/// One choice of a combo property.
pub struct PropOption {
    pub label: String,
    pub value: String,
}

/// A property definition with its current value. The numeric bounds are the
/// JSON numbers of the project file.
pub struct PropDef {
    pub key: String,
    /// bool | slider | combo | color | text | file | textinput | scenetexture | other
    pub ptype: String,
    pub text: String,
    /// Current value (the default, or a saved override).
    pub value: Json,
    pub min: Option<JsonNum>,
    pub max: Option<JsonNum>,
    pub step: Option<JsonNum>,
    pub options: Option<Vec<PropOption>>,
    pub order: i64,
    /// Scheme colour and other pure UI chrome, hidden by default.
    pub hidden: bool,
}

/// Mathematical view of a property definition.
pub struct PropDefView {
    pub key: Seq<char>,
    pub ptype: Seq<char>,
    pub text: Seq<char>,
    pub value: JsonV,
    pub min: Option<NumV>,
    pub max: Option<NumV>,
    pub step: Option<NumV>,
    pub options: Option<Seq<(Seq<char>, Seq<char>)>>,
    pub order: i64,
    pub hidden: bool,
}

impl PropOption {
    pub open spec fn view(&self) -> (Seq<char>, Seq<char>) {
        (self.label@, self.value@)
    }

    /// A copy of the choice.
    pub fn copy(&self) -> (r: PropOption)
        ensures
            r.view() == self.view(),
    {
        PropOption { label: self.label.clone(), value: self.value.clone() }
    }
}

pub open spec fn options_view(v: Seq<PropOption>) -> Seq<(Seq<char>, Seq<char>)> {
    v.map_values(|o: PropOption| o.view())
}

pub open spec fn num_view(n: Option<JsonNum>) -> Option<NumV> {
    match n {
        Some(x) => Some(x.view()),
        None => None,
    }
}

impl PropDef {
    pub open spec fn view(&self) -> PropDefView {
        PropDefView {
            key: self.key@,
            ptype: self.ptype@,
            text: self.text@,
            value: self.value.view(),
            min: num_view(self.min),
            max: num_view(self.max),
            step: num_view(self.step),
            options: match self.options {
                Some(v) => Some(options_view(v@)),
                None => None,
            },
            order: self.order,
            hidden: self.hidden,
        }
    }

    /// A copy of the definition.
    pub fn copy(&self) -> (r: PropDef)
        ensures
            r.view() == self.view(),
    {
        let options = match &self.options {
            Some(v) => {
                let mut out: Vec<PropOption> = Vec::new();
                let mut i: usize = 0;
                while i < v.len()
                    invariant
                        i <= v.len(),
                        out.len() == i,
                        forall|k: int| 0 <= k < i ==> #[trigger] out@[k].view() == v@[k].view(),
                    decreases v.len() - i,
                {
                    out.push(v[i].copy());
                    i += 1;
                }
                assert(options_view(out@) =~= options_view(v@));
                Some(out)
            },
            None => None,
        };
        PropDef {
            key: self.key.clone(),
            ptype: self.ptype.clone(),
            text: self.text.clone(),
            value: self.value.deep_clone(),
            min: copy_num(&self.min),
            max: copy_num(&self.max),
            step: copy_num(&self.step),
            options,
            order: self.order,
            hidden: self.hidden,
        }
    }
}

fn copy_num(n: &Option<JsonNum>) -> (r: Option<JsonNum>)
    ensures
        num_view(r) == num_view(*n),
{
    match n {
        Some(x) => Some(x.deep_clone()),
        None => None,
    }
}

pub open spec fn defs_view(v: Seq<PropDef>) -> Seq<PropDefView> {
    v.map_values(|d: PropDef| d.view())
}

// ---------------------------------------------------------------------------
// What a project file declares
// ---------------------------------------------------------------------------

/// Scheme colour and the localised UI-chrome entries are hidden.
pub open spec fn hidden_prop(key: Seq<char>, text: Seq<char>) -> bool {
    ||| ascii_lowercase(key) == "schemecolor"@
    ||| (text.len() >= "ui_browse_properties_"@.len() && text.take(
        "ui_browse_properties_"@.len() as int,
    ) == "ui_browse_properties_"@)
    ||| ascii_lowercase(text) == "ui_browse_properties_scheme_color"@
}

/// The text of a member that is a string, if it is one.
pub open spec fn str_member(es: Seq<(Seq<char>, JsonV)>, k: Seq<char>) -> Option<Seq<char>> {
    match obj_lookup(es, k) {
        Some(JsonV::Str(s)) => Some(s),
        _ => None,
    }
}

/// A member that is an integer that fits in `i64`.
pub open spec fn i64_member(es: Seq<(Seq<char>, JsonV)>, k: Seq<char>) -> Option<i64> {
    match obj_lookup(es, k) {
        Some(v) => jv_as_i64(v),
        None => None,
    }
}

/// A member that is a number.
pub open spec fn num_member(es: Seq<(Seq<char>, JsonV)>, k: Seq<char>) -> Option<NumV> {
    match obj_lookup(es, k) {
        Some(JsonV::Num(n)) => Some(n),
        _ => None,
    }
}

/// The lowercased `type` of a property; a missing or non-text type is a group.
pub open spec fn ptype_of(es: Seq<(Seq<char>, JsonV)>) -> Seq<char> {
    unicode_lowercase(
        match str_member(es, "type"@) {
            Some(t) => t,
            None => "group"@,
        },
    )
}

/// `order`, else `index`, else 0.
pub open spec fn order_of(es: Seq<(Seq<char>, JsonV)>) -> i64 {
    match i64_member(es, "order"@) {
        Some(o) => o,
        None => match i64_member(es, "index"@) {
            Some(o) => o,
            None => 0,
        },
    }
}

/// The value text of a combo choice: a string, a number's text, or `true`/`false`.
pub open spec fn choice_value(v: Option<JsonV>) -> Option<Seq<char>> {
    match v {
        Some(JsonV::Str(s)) => Some(s),
        Some(JsonV::Num(n)) => Some(num_text(n)),
        Some(JsonV::Bool(b)) => Some(
            if b {
                "true"@
            } else {
                "false"@
            },
        ),
        _ => None,
    }
}

/// A combo choice read from one item of `options`; items that are not
/// objects, or whose value is missing or of another kind, are skipped.
pub open spec fn choice_of(item: JsonV) -> Option<(Seq<char>, Seq<char>)> {
    match item {
        JsonV::Obj(es) => match choice_value(obj_lookup(es, "value"@)) {
            Some(v) => Some(
                (
                    match str_member(es, "label"@) {
                        Some(l) => l,
                        None => Seq::empty(),
                    },
                    v,
                ),
            ),
            None => None,
        },
        _ => None,
    }
}

pub open spec fn choices_of(items: Seq<JsonV>) -> Seq<(Seq<char>, Seq<char>)>
    decreases items.len(),
{
    if items.len() == 0 {
        Seq::empty()
    } else {
        let rest = choices_of(items.drop_last());
        match choice_of(items.last()) {
            Some(c) => rest.push(c),
            None => rest,
        }
    }
}

/// The definition of one property, or `None` for entries that are not
/// objects and for groups and untyped entries (section headers).
pub open spec fn prop_of(key: Seq<char>, meta: JsonV) -> Option<PropDefView> {
    match meta {
        JsonV::Obj(es) => {
            let t = ptype_of(es);
            if t == "group"@ || t.len() == 0 {
                None
            } else {
                let text = match str_member(es, "text"@) {
                    Some(s) => s,
                    None => key,
                };
                Some(
                    PropDefView {
                        key,
                        ptype: t,
                        text,
                        value: match obj_lookup(es, "value"@) {
                            Some(v) => v,
                            None => JsonV::Null,
                        },
                        min: num_member(es, "min"@),
                        max: num_member(es, "max"@),
                        step: num_member(es, "step"@),
                        options: match obj_lookup(es, "options"@) {
                            Some(JsonV::Arr(items)) => Some(choices_of(items)),
                            _ => None,
                        },
                        order: order_of(es),
                        hidden: hidden_prop(key, text),
                    },
                )
            }
        },
        _ => None,
    }
}

/// The definitions of a properties object, in entry order.
pub open spec fn parsed_props(es: Seq<(Seq<char>, JsonV)>) -> Seq<PropDefView>
    decreases es.len(),
{
    if es.len() == 0 {
        Seq::empty()
    } else {
        let rest = parsed_props(es.drop_last());
        match prop_of(es.last().0, es.last().1) {
            Some(d) => rest.push(d),
            None => rest,
        }
    }
}

/// The `general.properties` object of a project, if it is an object.
pub open spec fn properties_of(data: JsonV) -> Option<Seq<(Seq<char>, JsonV)>> {
    match jv_get(data, "general"@) {
        Some(g) => match jv_get(g, "properties"@) {
            Some(JsonV::Obj(es)) => Some(es),
            _ => None,
        },
        None => None,
    }
}

pub open spec fn listed_props(data: JsonV) -> Seq<PropDefView> {
    match properties_of(data) {
        Some(es) => parsed_props(es),
        None => Seq::empty(),
    }
}

/// Display order: by `order`, then by key.
pub open spec fn shown_before(a: PropDefView, b: PropDefView) -> bool {
    a.order < b.order || (a.order == b.order && seq_lt(a.key, b.key))
}

pub open spec fn in_display_order(s: Seq<PropDefView>) -> bool {
    forall|i: int, j: int| 0 <= i < j < s.len() ==> shown_before(#[trigger] s[i], #[trigger] s[j])
}

// ---------------------------------------------------------------------------
// Parsing
// ---------------------------------------------------------------------------

/// Whether a property is UI chrome that is hidden by default.
pub fn is_hidden_prop(key: &str, text: &str) -> (r: bool)
    ensures
        r == hidden_prop(key@, text@),
{
    let k = to_ascii_lowercase(key);
    if text_eq(k.as_str(), "schemecolor") {
        return true;
    }
    if starts_with(text, "ui_browse_properties_") {
        return true;
    }
    let t = to_ascii_lowercase(text);
    text_eq(t.as_str(), "ui_browse_properties_scheme_color")
}

fn str_member_of<'a>(m: &'a JsonMap, k: &str) -> (r: Option<&'a str>)
    ensures
        match r {
            Some(s) => str_member(m.view(), k@) == Some(s@),
            None => str_member(m.view(), k@) is None,
        },
{
    match m.get(k) {
        Some(v) => v.as_str(),
        None => None,
    }
}

fn i64_member_of(m: &JsonMap, k: &str) -> (r: Option<i64>)
    ensures
        r == i64_member(m.view(), k@),
{
    match m.get(k) {
        Some(v) => v.as_i64(),
        None => None,
    }
}

fn num_member_of(m: &JsonMap, k: &str) -> (r: Option<JsonNum>)
    ensures
        num_view(r) == num_member(m.view(), k@),
{
    match m.get(k) {
        Some(Json::Number(n)) => Some(n.deep_clone()),
        _ => None,
    }
}

/// One combo choice of an `options` item.
fn choice_from(item: &Json) -> (r: Option<PropOption>)
    ensures
        match r {
            Some(o) => choice_of(item.view()) == Some(o.view()),
            None => choice_of(item.view()) is None,
        },
{
    let m = match item.as_object() {
        Some(m) => m,
        None => return None,
    };
    let value = match m.get("value") {
        Some(Json::Str(s)) => s.clone(),
        Some(Json::Number(n)) => n.to_text(),
        Some(Json::Bool(b)) => if *b {
            owned("true")
        } else {
            owned("false")
        },
        _ => return None,
    };
    let label = match str_member_of(m, "label") {
        Some(l) => owned(l),
        None => String::new(),
    };
    Some(PropOption { label, value })
}

/// The combo choices of an `options` array.
fn choices_from(items: &Vec<Json>) -> (r: Vec<PropOption>)
    ensures
        options_view(r@) == choices_of(view_items(items@)),
{
    proof {
        lemma_view_items(items@);
    }
    let ghost vi = view_items(items@);
    let mut out: Vec<PropOption> = Vec::new();
    let mut i: usize = 0;
    assert(vi.take(0) =~= Seq::<JsonV>::empty());
    while i < items.len()
        invariant
            i <= items.len(),
            vi == view_items(items@),
            vi.len() == items.len(),
            forall|k: int| 0 <= k < items.len() ==> #[trigger] vi[k] == items@[k].view(),
            options_view(out@) == choices_of(vi.take(i as int)),
        decreases items.len() - i,
    {
        let c = choice_from(&items[i]);
        proof {
            assert(vi.take(i + 1).drop_last() =~= vi.take(i as int));
            assert(vi.take(i + 1).last() == vi[i as int]);
        }
        match c {
            Some(o) => {
                let ghost before = out@;
                out.push(o);
                assert(options_view(out@) =~= options_view(before).push(o.view()));
            },
            None => {},
        }
        i += 1;
    }
    assert(vi.take(items.len() as int) =~= vi);
    out
}

/// The definition of one entry of `general.properties`.
fn prop_from(key: &String, meta: &Json) -> (r: Option<PropDef>)
    ensures
        match r {
            Some(d) => prop_of(key@, meta.view()) == Some(d.view()),
            None => prop_of(key@, meta.view()) is None,
        },
{
    let m = match meta.as_object() {
        Some(m) => m,
        None => return None,
    };
    let ptype = match str_member_of(m, "type") {
        Some(t) => to_lowercase(t),
        None => to_lowercase("group"),
    };
    if text_eq(ptype.as_str(), "group") || ptype.as_str().is_empty() {
        return None;
    }
    let text = match str_member_of(m, "text") {
        Some(t) => owned(t),
        None => key.clone(),
    };
    let order = match i64_member_of(m, "order") {
        Some(o) => o,
        None => match i64_member_of(m, "index") {
            Some(o) => o,
            None => 0,
        },
    };
    let value = match m.get("value") {
        Some(v) => v.deep_clone(),
        None => Json::Null,
    };
    let options = match m.get("options") {
        Some(Json::Array(items)) => Some(choices_from(items)),
        _ => None,
    };
    let hidden = is_hidden_prop(key.as_str(), text.as_str());
    Some(
        PropDef {
            key: key.clone(),
            ptype,
            text,
            value,
            min: num_member_of(m, "min"),
            max: num_member_of(m, "max"),
            step: num_member_of(m, "step"),
            options,
            order,
            hidden,
        },
    )
}

/// The property definitions of a project (defaults only), ordered by
/// `order` and then by key. Entries that are not objects, groups and
/// untyped entries are left out.
pub fn parse_properties_from_project(data: &Json) -> (r: Vec<PropDef>)
    ensures
        defs_view(r@).to_multiset() == listed_props(data.view()).to_multiset(),
        in_display_order(defs_view(r@)),
{
    let props = match data.get("general") {
        Some(g) => match g.get("properties") {
            Some(p) => match p.as_object() {
                Some(m) => m,
                None => {
                    assert(defs_view(Seq::<PropDef>::empty()) =~= Seq::<PropDefView>::empty());
                    return Vec::new();
                },
            },
            None => {
                assert(defs_view(Seq::<PropDef>::empty()) =~= Seq::<PropDefView>::empty());
                return Vec::new();
            },
        },
        None => {
            assert(defs_view(Seq::<PropDef>::empty()) =~= Seq::<PropDefView>::empty());
            return Vec::new();
        },
    };
    let n = props.len();
    let ghost es = props.view();
    let mut out: Vec<PropDef> = Vec::new();
    let mut i: usize = 0;
    assert(es.take(0) =~= Seq::<(Seq<char>, JsonV)>::empty());
    assert(defs_view(out@) =~= Seq::<PropDefView>::empty());
    while i < n
        invariant
            n == es.len(),
            es == props.view(),
            strictly_ascending(es),
            i <= n,
            defs_view(out@).to_multiset() == parsed_props(es.take(i as int)).to_multiset(),
            in_display_order(defs_view(out@)),
            forall|m: int, k: int|
                0 <= m < out@.len() && i <= k < n ==> seq_lt(
                    #[trigger] out@[m].key@,
                    #[trigger] es[k].0,
                ),
        decreases n - i,
    {
        let (k, meta) = props.entry(i);
        let d = prop_from(k, meta);
        let ghost t = es.take(i + 1);
        proof {
            assert(t.drop_last() =~= es.take(i as int));
            assert(t.last() == es[i as int]);
        }
        match d {
            Some(d) => {
                let ghost dv = d.view();
                let ghost old_out = out@;
                let ghost ov = defs_view(old_out);
                // insert after every definition not shown after it
                let mut p: usize = 0;
                while p < out.len() && out[p].order <= d.order
                    invariant
                        p <= out@.len(),
                        out@ == old_out,
                        dv == d.view(),
                        forall|m: int| 0 <= m < p ==> (#[trigger] out@[m]).order <= dv.order,
                    decreases out@.len() - p,
                {
                    p += 1;
                }
                out.insert(p, d);
                proof {
                    let nv = defs_view(out@);
                    assert(nv =~= ov.insert(p as int, dv));
                    vstd::seq_lib::to_multiset_insert(ov, p as int, dv);
                    let pre = parsed_props(es.take(i as int));
                    assert(parsed_props(t) == pre.push(dv));
                    pre.to_multiset_ensures();
                    assert(dv.key == es[i as int].0);
                    assert forall|a: int, b: int| 0 <= a < b < nv.len() implies shown_before(
                        #[trigger] nv[a],
                        #[trigger] nv[b],
                    ) by {
                        if b < p {
                            assert(nv[a] == ov[a] && nv[b] == ov[b]);
                        } else if b == p {
                            assert(nv[a] == ov[a]);
                            assert(old_out[a].order <= dv.order);
                            assert(seq_lt(old_out[a].key@, es[i as int].0));
                        } else if a == p {
                            assert(nv[b] == ov[b - 1]);
                            assert(old_out[p as int].order > dv.order);
                            if b - 1 > p {
                                assert(shown_before(ov[p as int], ov[b - 1]));
                            }
                        } else if a < p {
                            assert(nv[a] == ov[a] && nv[b] == ov[b - 1]);
                        } else {
                            assert(nv[a] == ov[a - 1] && nv[b] == ov[b - 1]);
                        }
                    }
                    assert forall|m: int, k2: int|
                        0 <= m < out@.len() && i + 1 <= k2 < n implies seq_lt(
                        #[trigger] out@[m].key@,
                        #[trigger] es[k2].0,
                    ) by {
                        if m < p {
                            assert(out@[m] == old_out[m]);
                        } else if m == p {
                            assert(seq_lt(es[i as int].0, es[k2].0));
                        } else {
                            assert(out@[m] == old_out[m - 1]);
                        }
                    }
                }
            },
            None => {
                proof {
                    assert(parsed_props(t) == parsed_props(es.take(i as int)));
                    assert forall|m: int, k2: int|
                        0 <= m < out@.len() && i + 1 <= k2 < n implies seq_lt(
                        #[trigger] out@[m].key@,
                        #[trigger] es[k2].0,
                    ) by {
                        assert(i <= k2);
                    }
                }
            },
        }
        i += 1;
    }
    assert(es.take(n as int) =~= es);
    out
}

// ---------------------------------------------------------------------------
// Saved overrides and engine flags
// ---------------------------------------------------------------------------

/// The text of a value as the engine takes it: strings as they are,
/// numbers as written, booleans as `1`/`0`, null as nothing, arrays and
/// objects as compact JSON.
pub open spec fn stringish(v: JsonV) -> Seq<char> {
    match v {
        JsonV::Str(s) => s,
        JsonV::Num(n) => num_text(n),
        JsonV::Bool(b) => if b {
            "1"@
        } else {
            "0"@
        },
        JsonV::Null => Seq::empty(),
        _ => json_text(v),
    }
}

/// The flag value of one saved entry; empty keys, the scheme colour and
/// null values give none.
pub open spec fn flag_value(k: Seq<char>, v: JsonV) -> Option<Seq<char>> {
    if k.len() == 0 || k == "schemecolor"@ || v is Null {
        None
    } else {
        Some(stringish(v))
    }
}

/// The `--set-property` pairs of a value map, in entry order.
pub open spec fn flags_of(es: Seq<(Seq<char>, JsonV)>) -> Seq<(Seq<char>, Seq<char>)>
    decreases es.len(),
{
    if es.len() == 0 {
        Seq::empty()
    } else {
        let rest = flags_of(es.drop_last());
        match flag_value(es.last().0, es.last().1) {
            Some(s) => rest.push((es.last().0, s)),
            None => rest,
        }
    }
}

pub open spec fn pairs_view(v: Seq<(String, String)>) -> Seq<(Seq<char>, Seq<char>)> {
    v.map_values(|p: (String, String)| (p.0@, p.1@))
}

/// Applying a launch patch entry by entry: a null value removes the key,
/// any other value replaces or adds it.
pub open spec fn merge_entries(
    base: Seq<(Seq<char>, JsonV)>,
    patch: Seq<(Seq<char>, JsonV)>,
) -> Seq<(Seq<char>, JsonV)>
    decreases patch.len(),
{
    if patch.len() == 0 {
        base
    } else {
        let b = merge_entries(base, patch.drop_last());
        let e = patch.last();
        if e.1 is Null {
            obj_remove(b, e.0)
        } else {
            obj_insert(b, e.0, e.1)
        }
    }
}

/// A patch that is not an object changes nothing.
pub open spec fn merged_overrides(base: Seq<(Seq<char>, JsonV)>, patch: JsonV) -> Seq<
    (Seq<char>, JsonV),
> {
    match patch {
        JsonV::Obj(pes) => merge_entries(base, pes),
        _ => base,
    }
}

/// The value of one key after a merge, as the patch decides it.
pub open spec fn merged_value(base: Seq<(Seq<char>, JsonV)>, patch: JsonV, k: Seq<char>) -> Option<
    JsonV,
> {
    match jv_get(patch, k) {
        Some(JsonV::Null) => None,
        Some(v) => Some(v),
        None => obj_lookup(base, k),
    }
}

/// A definition with its value replaced by a saved override, if there is one.
pub open spec fn overridden(d: PropDefView, ov: Seq<(Seq<char>, JsonV)>) -> PropDefView {
    match obj_lookup(ov, d.key) {
        Some(v) => PropDefView { value: v, ..d },
        None => d,
    }
}

/// The object of current values: each definition's key and value, a later
/// definition replacing an earlier one with the same key.
pub open spec fn values_entries(ds: Seq<PropDefView>) -> Seq<(Seq<char>, JsonV)>
    decreases ds.len(),
{
    if ds.len() == 0 {
        Seq::empty()
    } else {
        obj_insert(values_entries(ds.drop_last()), ds.last().key, ds.last().value)
    }
}

/// The overrides read from a file: its top-level object, or nothing.
pub open spec fn overrides_view(parsed: Option<JsonV>) -> Seq<(Seq<char>, JsonV)> {
    match parsed {
        Some(JsonV::Obj(es)) => es,
        _ => Seq::empty(),
    }
}

/// The text of a value as the engine takes it.
pub fn as_stringish(v: &Json) -> (r: String)
    ensures
        r@ == stringish(v.view()),
{
    match v {
        Json::Str(s) => s.clone(),
        Json::Number(n) => n.to_text(),
        Json::Bool(b) => if *b {
            owned("1")
        } else {
            owned("0")
        },
        Json::Null => String::new(),
        _ => v.to_text(),
    }
}

/// The `--set-property key=value` pairs of a value map, in key order;
/// empty keys, the scheme colour and null values are left out.
pub fn to_set_property_flags(props: &JsonMap) -> (r: Vec<(String, String)>)
    ensures
        pairs_view(r@) == flags_of(props.view()),
{
    let n = props.len();
    let ghost es = props.view();
    let mut out: Vec<(String, String)> = Vec::new();
    let mut i: usize = 0;
    assert(es.take(0) =~= Seq::<(Seq<char>, JsonV)>::empty());
    assert(pairs_view(out@) =~= Seq::<(Seq<char>, Seq<char>)>::empty());
    while i < n
        invariant
            n == es.len(),
            es == props.view(),
            i <= n,
            pairs_view(out@) == flags_of(es.take(i as int)),
        decreases n - i,
    {
        let (k, v) = props.entry(i);
        proof {
            assert(es.take(i + 1).drop_last() =~= es.take(i as int));
            assert(es.take(i + 1).last() == es[i as int]);
        }
        if !(k.as_str().is_empty() || text_eq(k.as_str(), "schemecolor") || v.is_null()) {
            let s = as_stringish(v);
            let ghost before = out@;
            out.push((k.clone(), s));
            assert(pairs_view(out@) =~= pairs_view(before).push((k@, s@)));
        }
        i += 1;
    }
    assert(es.take(n as int) =~= es);
    out
}

/// Merges a launch patch into saved overrides: a null value removes the
/// key, any other value replaces it; a patch that is not an object changes
/// nothing.
pub fn merge_override_maps(base: JsonMap, patch: &Json) -> (r: JsonMap)
    ensures
        r.view() == merged_overrides(base.view(), patch.view()),
{
    let mut out = base;
    let ghost b0 = out.view();
    match patch.as_object() {
        Some(pm) => {
            let n = pm.len();
            let ghost pes = pm.view();
            let mut i: usize = 0;
            assert(pes.take(0) =~= Seq::<(Seq<char>, JsonV)>::empty());
            while i < n
                invariant
                    n == pes.len(),
                    pes == pm.view(),
                    i <= n,
                    out.view() == merge_entries(b0, pes.take(i as int)),
                decreases n - i,
            {
                let (k, v) = pm.entry(i);
                proof {
                    assert(pes.take(i + 1).drop_last() =~= pes.take(i as int));
                    assert(pes.take(i + 1).last() == pes[i as int]);
                }
                if v.is_null() {
                    out.remove(k.as_str());
                } else {
                    out.insert(k.clone(), v.deep_clone());
                }
                i += 1;
            }
            assert(pes.take(n as int) =~= pes);
        },
        None => {},
    }
    out
}

/// The overrides to launch with: the saved ones, merged with the launch
/// payload's properties when it carries any.
pub fn launch_overrides(saved: JsonMap, launch_props: Option<&Json>) -> (r: JsonMap)
    ensures
        r.view() == match launch_props {
            Some(p) => merged_overrides(saved.view(), p.view()),
            None => saved.view(),
        },
{
    match launch_props {
        Some(p) => merge_override_maps(saved, p),
        None => saved,
    }
}

/// Saved overrides from the parsed contents of their file: the top-level
/// object, or none when the file is missing, unreadable or not an object.
pub fn overrides_of(parsed: Option<Json>) -> (r: JsonMap)
    ensures
        r.view() == overrides_view(
            match parsed {
                Some(j) => Some(j.view()),
                None => None,
            },
        ),
{
    match parsed {
        Some(Json::Object(m)) => m,
        _ => JsonMap::new(),
    }
}

/// Replaces each definition's value by its saved override, if any.
pub fn apply_overrides(defs: &mut Vec<PropDef>, overrides: &JsonMap)
    ensures
        final(defs)@.len() == old(defs)@.len(),
        forall|i: int|
            0 <= i < old(defs)@.len() ==> (#[trigger] final(defs)@[i]).view() == overridden(
                old(defs)@[i].view(),
                overrides.view(),
            ),
{
    let n = defs.len();
    let mut i: usize = 0;
    while i < n
        invariant
            n == old(defs)@.len(),
            defs@.len() == n,
            i <= n,
            forall|k: int|
                0 <= k < i ==> (#[trigger] defs@[k]).view() == overridden(
                    old(defs)@[k].view(),
                    overrides.view(),
                ),
            forall|k: int| i <= k < n ==> #[trigger] defs@[k] == old(defs)@[k],
        decreases n - i,
    {
        match overrides.get(defs[i].key.as_str()) {
            Some(v) => {
                let mut d = defs[i].copy();
                d.value = v.deep_clone();
                defs.set(i, d);
            },
            None => {},
        }
        i += 1;
    }
}

/// The object of current values, keyed by property key.
pub fn values_object(defs: &[PropDef]) -> (r: Json)
    ensures
        r.view() == JsonV::Obj(values_entries(defs_view(defs@))),
{
    let mut m = JsonMap::new();
    let mut i: usize = 0;
    assert(defs_view(defs@.take(0)) =~= Seq::<PropDefView>::empty());
    while i < defs.len()
        invariant
            i <= defs@.len(),
            m.view() == values_entries(defs_view(defs@.take(i as int))),
        decreases defs@.len() - i,
    {
        proof {
            let t = defs_view(defs@.take(i + 1));
            assert(t.drop_last() =~= defs_view(defs@.take(i as int)));
            assert(t.last() == defs@[i as int].view());
        }
        m.insert(defs[i].key.clone(), defs[i].value.deep_clone());
        i += 1;
    }
    assert(defs@.take(defs@.len() as int) =~= defs@);
    Json::Object(m)
}

/// Property overrides are stored under numeric workshop ids only.
pub fn check_props_id(id: &str) -> (r: Result<(), String>)
    ensures
        r is Ok <==> all_digits(id@),
        r matches Err(e) ==> e@ == "invalid id"@,
{
    if all_ascii_digits(id) {
        Ok(())
    } else {
        Err(owned("invalid id"))
    }
}

/// `<workshop folder under base>/<id>/project.json`.
pub fn workshop_project_in(base: &str, id: &str) -> (r: String)
    ensures
        r@ == path_join(path_join(path_join(base@, workshop_rel()), id@), "project.json"@),
{
    let dir = workshop_dir_in(base);
    let item = join_path(dir.as_str(), id);
    join_path(item.as_str(), "project.json")
}

// ---------------------------------------------------------------------------
// Laws
// ---------------------------------------------------------------------------

proof fn lemma_merge_ascending(base: Seq<(Seq<char>, JsonV)>, patch: Seq<(Seq<char>, JsonV)>)
    requires
        strictly_ascending(base),
    ensures
        strictly_ascending(merge_entries(base, patch)),
    decreases patch.len(),
{
    if patch.len() > 0 {
        lemma_merge_ascending(base, patch.drop_last());
        let b = merge_entries(base, patch.drop_last());
        lemma_insert_props(b, patch.last().0, patch.last().1);
        lemma_remove_props(b, patch.last().0);
    }
}

proof fn lemma_merge_entries_lookup(
    base: Seq<(Seq<char>, JsonV)>,
    patch: Seq<(Seq<char>, JsonV)>,
    k: Seq<char>,
)
    requires
        strictly_ascending(base),
        strictly_ascending(patch),
    ensures
        obj_lookup(merge_entries(base, patch), k) == match obj_lookup(patch, k) {
            Some(JsonV::Null) => None,
            Some(v) => Some(v),
            None => obj_lookup(base, k),
        },
    decreases patch.len(),
{
    if patch.len() > 0 {
        let pre = patch.drop_last();
        let e = patch.last();
        let n = patch.len() - 1;
        assert(strictly_ascending(pre)) by {
            assert forall|a: int, b: int| 0 <= a < b < pre.len() implies seq_lt(
                #[trigger] pre[a].0,
                #[trigger] pre[b].0,
            ) by {
                assert(pre[a] == patch[a] && pre[b] == patch[b]);
            }
        }
        lemma_merge_entries_lookup(base, pre, k);
        lemma_merge_ascending(base, pre);
        let b = merge_entries(base, pre);
        lemma_insert_props(b, e.0, e.1);
        lemma_remove_props(b, e.0);
        assert(patch =~= pre.push(e));
        lemma_lookup_push(pre, e, k);
        if e.0 == k && obj_lookup(pre, k) is Some {
            lemma_lookup_some(pre, k);
            let j = choose|j: int| 0 <= j < pre.len() && pre[j].0 == k && obj_lookup(pre, k) == Some(
                pre[j].1,
            );
            assert(pre[j] == patch[j]);
            assert(seq_lt(patch[j].0, patch[n].0));
            lemma_seq_lt_irreflexive(k);
        }
    }
}

/// What a merge leaves under each key: a null in the patch removes the key,
/// another value in the patch replaces it, and a key the patch does not name
/// keeps its saved value.
pub proof fn law_merge_lookup(base: Seq<(Seq<char>, JsonV)>, patch: JsonV, k: Seq<char>)
    requires
        strictly_ascending(base),
        patch matches JsonV::Obj(pes) ==> strictly_ascending(pes),
    ensures
        obj_lookup(merged_overrides(base, patch), k) == merged_value(base, patch, k),
        strictly_ascending(merged_overrides(base, patch)),
{
    match patch {
        JsonV::Obj(pes) => {
            lemma_merge_entries_lookup(base, pes, k);
            lemma_merge_ascending(base, pes);
        },
        _ => {},
    }
}

/// A patch that is not an object leaves the overrides as they were.
pub proof fn law_merge_non_object(base: Seq<(Seq<char>, JsonV)>, patch: JsonV)
    requires
        !(patch is Obj),
    ensures
        merged_overrides(base, patch) == base,
{
}

/// The engine never receives the scheme colour, an empty key or a null value.
pub proof fn law_flags_skip_chrome(es: Seq<(Seq<char>, JsonV)>)
    ensures
        forall|i: int|
            0 <= i < flags_of(es).len() ==> (#[trigger] flags_of(es)[i]).0.len() > 0
                && flags_of(es)[i].0 != "schemecolor"@,
        forall|i: int|
            0 <= i < flags_of(es).len() ==> exists|j: int|
                0 <= j < es.len() && es[j].0 == (#[trigger] flags_of(es)[i]).0 && !(es[j].1 is Null)
                    && flags_of(es)[i].1 == stringish(es[j].1),
    decreases es.len(),
{
    if es.len() > 0 {
        let pre = es.drop_last();
        law_flags_skip_chrome(pre);
        let f = flags_of(es);
        let fp = flags_of(pre);
        assert forall|i: int| 0 <= i < f.len() implies exists|j: int|
            0 <= j < es.len() && es[j].0 == (#[trigger] f[i]).0 && !(es[j].1 is Null) && f[i].1
                == stringish(es[j].1) by {
            if i < fp.len() {
                assert(f[i] == fp[i]);
                let j = choose|j: int|
                    0 <= j < pre.len() && pre[j].0 == fp[i].0 && !(pre[j].1 is Null) && fp[i].1
                        == stringish(pre[j].1);
                assert(pre[j] == es[j]);
            } else {
                assert(es[es.len() - 1] == es.last());
            }
        }
    }
}

/// The flags of a map with distinct keys have distinct keys, in ascending
/// order, so collecting them into a map keyed by property loses none.
pub proof fn law_flag_keys_ascending(es: Seq<(Seq<char>, JsonV)>)
    requires
        strictly_ascending(es),
    ensures
        forall|i: int, j: int|
            0 <= i < j < flags_of(es).len() ==> seq_lt(
                #[trigger] flags_of(es)[i].0,
                #[trigger] flags_of(es)[j].0,
            ),
    decreases es.len(),
{
    if es.len() > 0 {
        let pre = es.drop_last();
        assert(strictly_ascending(pre)) by {
            assert forall|a: int, b: int| 0 <= a < b < pre.len() implies seq_lt(
                #[trigger] pre[a].0,
                #[trigger] pre[b].0,
            ) by {
                assert(pre[a] == es[a] && pre[b] == es[b]);
            }
        }
        law_flag_keys_ascending(pre);
        law_flags_skip_chrome(pre);
        let f = flags_of(es);
        let fp = flags_of(pre);
        let last = es.len() - 1;
        assert(es[last] == es.last());
        assert forall|i: int, j: int| 0 <= i < j < f.len() implies seq_lt(
            #[trigger] f[i].0,
            #[trigger] f[j].0,
        ) by {
            if j < fp.len() {
                assert(f[i] == fp[i] && f[j] == fp[j]);
            } else {
                assert(f[i] == fp[i]);
                assert(f[j].0 == es[last].0);
                let k = choose|k: int|
                    0 <= k < pre.len() && pre[k].0 == fp[i].0 && !(pre[k].1 is Null) && fp[i].1
                        == stringish(pre[k].1);
                assert(pre[k] == es[k]);
            }
        }
    }
}

/// After overrides are applied, a definition whose key has a saved value
/// shows that value, and every other field stays as parsed.
pub proof fn law_override_shows_saved(d: PropDefView, ov: Seq<(Seq<char>, JsonV)>)
    ensures
        overridden(d, ov).key == d.key,
        overridden(d, ov).order == d.order,
        overridden(d, ov).hidden == d.hidden,
        overridden(d, ov).value == match obj_lookup(ov, d.key) {
            Some(v) => v,
            None => d.value,
        },
{
}

} // verus!
