//! The decisions of the local control service and of the desktop shell:
//! reading a launch query into playback settings, checking the requested
//! id, choosing the folder to open, and seeding the library at start.

use vstd::prelude::*;
use crate::text::{all_digits, is_digit, trimmed, trim, to_lowercase, unicode_lowercase, text_eq,
    owned, is_ascii_text, ascii_lowercase, decimal, digit_char};
use crate::json::{Json, JsonMap, JsonNum, JsonV, NumV, puts, lemma_puts};
use crate::settings::{PlaybackSettings, SettingsView, merge, merged, truthy, volume_of, fps_of,
    is_scaling, silence_if_muted, lemma_setting_keys_distinct};
use crate::library::{Wallpaper, WallpaperView, items_view};
use crate::paths::{path_join, workshop_rel, join_path};

verus! {

/// The query of `/launch` and `/settings/set`: every field as given, as text.
pub struct LaunchQ {
    pub id: Option<String>,
    pub volume: Option<String>,
    pub fps: Option<String>,
    pub silent: Option<String>,
    pub scaling: Option<String>,
    pub no_fullscreen_pause: Option<String>,
    pub disable_mouse: Option<String>,
    pub noautomute: Option<String>,
}

pub struct LaunchQView {
    pub id: Option<Seq<char>>,
    pub volume: Option<Seq<char>>,
    pub fps: Option<Seq<char>>,
    pub silent: Option<Seq<char>>,
    pub scaling: Option<Seq<char>>,
    pub no_fullscreen_pause: Option<Seq<char>>,
    pub disable_mouse: Option<Seq<char>>,
    pub noautomute: Option<Seq<char>>,
}

pub open spec fn opt_text(o: Option<String>) -> Option<Seq<char>> {
    match o {
        Some(s) => Some(s@),
        None => None,
    }
}

impl LaunchQ {
    pub open spec fn view(&self) -> LaunchQView {
        LaunchQView {
            id: opt_text(self.id),
            volume: opt_text(self.volume),
            fps: opt_text(self.fps),
            silent: opt_text(self.silent),
            scaling: opt_text(self.scaling),
            no_fullscreen_pause: opt_text(self.no_fullscreen_pause),
            disable_mouse: opt_text(self.disable_mouse),
            noautomute: opt_text(self.noautomute),
        }
    }
}

// ---------------------------------------------------------------------------
// Unsigned integers in query texts
// ---------------------------------------------------------------------------

/// The number written by a run of decimal digits.
pub open spec fn digits_value(d: Seq<char>) -> nat
    decreases d.len(),
{
    if d.len() == 0 {
        0
    } else {
        digits_value(d.drop_last()) * 10 + ((d.last() as int - 48) as nat)
    }
}

/// The digits of an unsigned number: an optional leading `+` is dropped.
pub open spec fn unsigned_digits(s: Seq<char>) -> Seq<char> {
    if s.len() > 0 && s[0] == '+' {
        s.drop_first()
    } else {
        s
    }
}

/// `u64::from_str`: an optional `+` and at least one decimal digit, nothing
/// else, and a value that fits in 64 bits.
pub open spec fn parsed_u64(s: Seq<char>) -> Option<u64> {
    let d = unsigned_digits(s);
    if d.len() > 0 && all_digits(d) && digits_value(d) <= u64::MAX {
        Some(digits_value(d) as u64)
    } else {
        None
    }
}

pub open spec fn parsed_opt(t: Option<Seq<char>>) -> Option<u64> {
    match t {
        Some(x) => parsed_u64(x),
        None => None,
    }
}

proof fn lemma_digits_value_prefix(d: Seq<char>, i: int)
    requires
        0 <= i <= d.len(),
        all_digits(d),
    ensures
        digits_value(d.take(i)) <= digits_value(d),
    decreases d.len(),
{
    if i < d.len() {
        let dl = d.drop_last();
        assert(all_digits(dl)) by {
            assert forall|k: int| 0 <= k < dl.len() implies #[trigger] is_digit(dl[k]) by {
                assert(dl[k] == d[k]);
            }
        }
        lemma_digits_value_prefix(dl, i);
        assert(dl.take(i) =~= d.take(i));
    } else {
        assert(d.take(i) =~= d);
    }
}

/// Parses an unsigned 64-bit number (`str::parse::<u64>`).
pub fn parse_u64(s: &str) -> (r: Option<u64>)
    ensures
        r == parsed_u64(s@),
{
    let n = s.unicode_len();
    let mut start: usize = 0;
    if n > 0 && s.get_char(0) == '+' {
        start = 1;
    }
    let ghost d = unsigned_digits(s@);
    assert(d =~= s@.skip(start as int));
    if start == n {
        return None;
    }
    let mut acc: u64 = 0;
    let mut i: usize = start;
    assert(d.take(0) =~= Seq::<char>::empty());
    while i < n
        invariant
            start <= i <= n,
            n == s@.len(),
            start < n,
            d == s@.skip(start as int),
            d == unsigned_digits(s@),
            d.len() == n - start,
            all_digits(d.take(i - start)),
            acc == digits_value(d.take(i - start)),
        decreases n - i,
    {
        let c = s.get_char(i);
        assert(d[i - start] == c);
        if !('0' <= c && c <= '9') {
            assert(!is_digit(d[i - start]));
            return None;
        }
        let dg: u64 = ((c as u32) - 48) as u64;
        let ghost t = d.take(i + 1 - start);
        assert(t.drop_last() =~= d.take(i - start));
        assert(t.last() == c);
        assert(all_digits(t)) by {
            assert forall|k: int| 0 <= k < t.len() implies #[trigger] is_digit(t[k]) by {
                if k < t.len() - 1 {
                    assert(t[k] == d.take(i - start)[k]);
                }
            }
        }
        match acc.checked_mul(10) {
            Some(m) => match m.checked_add(dg) {
                Some(a) => {
                    acc = a;
                },
                None => {
                    proof {
                        if all_digits(d) {
                            lemma_digits_value_prefix(d, i + 1 - start);
                        }
                    }
                    return None;
                },
            },
            None => {
                proof {
                    if all_digits(d) {
                        lemma_digits_value_prefix(d, i + 1 - start);
                    }
                }
                return None;
            },
        }
        i += 1;
    }
    assert(d.take(n - start) =~= d);
    Some(acc)
}

// ---------------------------------------------------------------------------
// Launch queries
// ---------------------------------------------------------------------------

/// Whether a query text switches something on: `1`, `true`, `yes` or `on`, in any case.
pub fn parse_bool_s(v: &str) -> (r: bool)
    ensures
        r == truthy(unicode_lowercase(v@)),
        is_ascii_text(v@) ==> r == truthy(ascii_lowercase(v@)),
{
    let l = to_lowercase(v);
    let s = l.as_str();
    text_eq(s, "1") || text_eq(s, "true") || text_eq(s, "yes") || text_eq(s, "on")
}

pub open spec fn num_json(n: Option<u64>) -> Option<JsonV> {
    match n {
        Some(x) => Some(JsonV::Num(NumV::PosInt(x))),
        None => None,
    }
}

pub open spec fn switch_json(t: Option<Seq<char>>) -> Option<JsonV> {
    match t {
        Some(x) => Some(JsonV::Bool(truthy(unicode_lowercase(x)))),
        None => None,
    }
}

pub open spec fn text_json(t: Option<Seq<char>>) -> Option<JsonV> {
    match t {
        Some(x) => Some(JsonV::Str(x)),
        None => None,
    }
}

/// The settings patch a query stands for: numbers that parse, switches
/// read as on/off, the scaling text as given.
pub open spec fn query_patch(q: LaunchQView) -> Seq<(Seq<char>, JsonV)> {
    puts(query_entries(q), 7)
}

/// The members a query sets, in field order (none for a field it leaves alone).
pub open spec fn query_entries(q: LaunchQView) -> Seq<(Seq<char>, Option<JsonV>)> {
    seq![
        ("volume"@, num_json(parsed_opt(q.volume))),
        ("fps"@, num_json(parsed_opt(q.fps))),
        ("silent"@, switch_json(q.silent)),
        ("scaling"@, text_json(q.scaling)),
        ("no_fullscreen_pause"@, switch_json(q.no_fullscreen_pause)),
        ("disable_mouse"@, switch_json(q.disable_mouse)),
        ("noautomute"@, switch_json(q.noautomute)),
    ]
}

/// `base` with what a query sets: a volume or frame rate that parses, each
/// switch that is given, and a known scaling mode; a silenced volume makes
/// the settings silent.
pub open spec fn query_settings(base: SettingsView, q: LaunchQView) -> SettingsView {
    let sw = |t: Option<Seq<char>>, cur: bool|
        match t {
            Some(x) => truthy(unicode_lowercase(x)),
            None => cur,
        };
    silence_if_muted(
        SettingsView {
            volume: match parsed_opt(q.volume) {
                Some(n) => volume_of(n),
                None => base.volume,
            },
            fps: match parsed_opt(q.fps) {
                Some(n) => fps_of(n),
                None => base.fps,
            },
            silent: sw(q.silent, base.silent),
            scaling: match q.scaling {
                Some(t) => if is_scaling(t) {
                    t
                } else {
                    base.scaling
                },
                None => base.scaling,
            },
            no_fullscreen_pause: sw(q.no_fullscreen_pause, base.no_fullscreen_pause),
            disable_mouse: sw(q.disable_mouse, base.disable_mouse),
            noautomute: sw(q.noautomute, base.noautomute),
        },
    )
}

/// Reading a query is merging its patch into the settings.
pub proof fn law_query_is_patch_merge(base: SettingsView, q: LaunchQView)
    ensures
        merged(base, JsonV::Obj(query_patch(q))) == query_settings(base, q),
{
    let ps = query_entries(q);
    lemma_setting_keys_distinct(ps);
    lemma_puts(ps, 7);
    assert(ps[0].0 == "volume"@ && ps[1].0 == "fps"@ && ps[2].0 == "silent"@ && ps[3].0
        == "scaling"@);
    assert(ps[4].0 == "no_fullscreen_pause"@ && ps[5].0 == "disable_mouse"@ && ps[6].0
        == "noautomute"@);
}

/// The settings a launch query asks for, on top of `base`.
pub fn opts_from_query(base: &PlaybackSettings, q: &LaunchQ) -> (r: PlaybackSettings)
    ensures
        r.view() == query_settings(base.view(), q.view()),
{
    let mut patch = JsonMap::new();
    match &q.volume {
        Some(v) => match parse_u64(v.as_str()) {
            Some(n) => patch.insert(owned("volume"), Json::Number(JsonNum::PosInt(n))),
            None => {},
        },
        None => {},
    }
    match &q.fps {
        Some(v) => match parse_u64(v.as_str()) {
            Some(n) => patch.insert(owned("fps"), Json::Number(JsonNum::PosInt(n))),
            None => {},
        },
        None => {},
    }
    match &q.silent {
        Some(v) => patch.insert(owned("silent"), Json::Bool(parse_bool_s(v.as_str()))),
        None => {},
    }
    match &q.scaling {
        Some(v) => patch.insert(owned("scaling"), Json::Str(v.clone())),
        None => {},
    }
    match &q.no_fullscreen_pause {
        Some(v) => patch.insert(owned("no_fullscreen_pause"), Json::Bool(parse_bool_s(v.as_str()))),
        None => {},
    }
    match &q.disable_mouse {
        Some(v) => patch.insert(owned("disable_mouse"), Json::Bool(parse_bool_s(v.as_str()))),
        None => {},
    }
    match &q.noautomute {
        Some(v) => patch.insert(owned("noautomute"), Json::Bool(parse_bool_s(v.as_str()))),
        None => {},
    }
    assert(patch.view() == query_patch(q.view())) by {
        reveal_with_fuel(puts, 8);
    }
    let pj = Json::Object(patch);
    let r = merge(base, &pj);
    proof {
        law_query_is_patch_merge(base.view(), q.view());
    }
    r
}

// ---------------------------------------------------------------------------
// Requested ids
// ---------------------------------------------------------------------------

/// The id of a launch: it must be given and not blank.
pub fn launch_target(id: Option<String>) -> (r: Result<String, String>)
    ensures
        r is Ok <==> (id matches Some(s) && trimmed(s@).len() > 0),
        r matches Ok(s) ==> (id matches Some(t) && s@ == t@),
        r matches Err(e) ==> e@ == "missing id"@,
{
    match id {
        Some(s) => {
            let t = trim(s.as_str());
            if t.as_str().is_empty() {
                Err(owned("missing id"))
            } else {
                Ok(s)
            }
        },
        None => {
            assert(trimmed(Seq::<char>::empty()).len() == 0);
            Err(owned("missing id"))
        },
    }
}

/// The id of a folder to open: it must be given and not empty.
pub fn open_target(id: Option<String>) -> (r: Result<String, String>)
    ensures
        r is Ok <==> (id matches Some(s) && s@.len() > 0),
        r matches Ok(s) ==> (id matches Some(t) && s@ == t@),
        r matches Err(e) ==> e@ == "missing id"@,
{
    match id {
        Some(s) => if s.as_str().is_empty() {
            Err(owned("missing id"))
        } else {
            Ok(s)
        },
        None => Err(owned("missing id")),
    }
}

// ---------------------------------------------------------------------------
// The folder of a wallpaper
// ---------------------------------------------------------------------------

/// The folder of the first indexed wallpaper with this id.
pub open spec fn dir_for_id(items: Seq<WallpaperView>, id: Seq<char>) -> Option<Seq<char>>
    decreases items.len(),
{
    if items.len() == 0 {
        None
    } else if items[0].id == id {
        Some(items[0].dir)
    } else {
        dir_for_id(items.drop_first(), id)
    }
}

/// Where the workshop keeps an item that is not indexed.
pub open spec fn default_folder(home: Seq<char>, id: Seq<char>) -> Seq<char> {
    path_join(home, workshop_rel() + seq!['/'] + id)
}

proof fn lemma_dir_for_id(v: Seq<WallpaperView>, id: Seq<char>, i: int)
    requires
        0 <= i <= v.len(),
        forall|k: int| 0 <= k < i ==> (#[trigger] v[k]).id != id,
    ensures
        i < v.len() && v[i].id == id ==> dir_for_id(v, id) == Some(v[i].dir),
        i == v.len() ==> dir_for_id(v, id) is None,
    decreases i,
{
    if i > 0 {
        let t = v.drop_first();
        assert forall|k: int| 0 <= k < i - 1 implies (#[trigger] t[k]).id != id by {
            assert(t[k] == v[k + 1]);
        }
        assert(v[0].id != id);
        lemma_dir_for_id(t, id, i - 1);
        if i < v.len() {
            assert(t[i - 1] == v[i]);
        }
    }
}

/// The folder to open for an id: the indexed folder of that wallpaper, or
/// its place in the workshop folder under `home` (empty when there is no
/// home directory).
pub fn folder_for(items: &Vec<Wallpaper>, id: &str, home: &str) -> (r: String)
    ensures
        r@ == match dir_for_id(items_view(items@), id@) {
            Some(d) => d,
            None => default_folder(home@, id@),
        },
{
    let ghost v = items_view(items@);
    let mut i: usize = 0;
    while i < items.len()
        invariant
            i <= items@.len(),
            v == items_view(items@),
            forall|k: int| 0 <= k < i ==> (#[trigger] v[k]).id != id@,
        decreases items@.len() - i,
    {
        if text_eq(items[i].id.as_str(), id) {
            proof {
                lemma_dir_for_id(v, id@, i as int);
            }
            return items[i].dir.clone();
        }
        i += 1;
    }
    proof {
        lemma_dir_for_id(v, id@, i as int);
    }
    let mut rel = owned(".local/share/Steam/steamapps/workshop/content/431960/");
    rel.append(id);
    proof {
        reveal_strlit(".local/share/Steam/steamapps/workshop/content/431960/");
        reveal_strlit(".local/share/Steam/steamapps/workshop/content/431960");
        assert(rel@ =~= workshop_rel() + seq!['/'] + id@);
    }
    join_path(home, rel.as_str())
}

// ---------------------------------------------------------------------------
// Seeding the library at start
// ---------------------------------------------------------------------------

/// What the shell does with the library when it starts.
pub enum Seed {
    /// Nothing indexed and no cache: walk the workshop folder.
    RescanAll,
    /// Nothing in memory: take the cache, then make missing thumbs and save it.
    AdoptCache,
    /// Make the missing thumbs of the records in memory and save them.
    RefreshThumbs,
    /// Nothing to do.
    Keep,
}

/// A record whose grid thumb is still to be made.
pub open spec fn wants_thumb(w: WallpaperView) -> bool {
    w.thumb.len() == 0 && w.preview.len() > 0
}

pub open spec fn any_wants_thumb(v: Seq<WallpaperView>) -> bool {
    exists|i: int| 0 <= i < v.len() && wants_thumb(#[trigger] v[i])
}

/// Whether some record still lacks its grid thumb.
pub fn needs_thumbs(items: &Vec<Wallpaper>) -> (r: bool)
    ensures
        r == any_wants_thumb(items_view(items@)),
{
    let ghost v = items_view(items@);
    let mut i: usize = 0;
    while i < items.len()
        invariant
            i <= items@.len(),
            v == items_view(items@),
            forall|k: int| 0 <= k < i ==> !wants_thumb(#[trigger] v[k]),
        decreases items@.len() - i,
    {
        if items[i].thumb.as_str().is_empty() && !items[i].preview.as_str().is_empty() {
            assert(wants_thumb(v[i as int]));
            return true;
        }
        i += 1;
    }
    false
}

/// How to seed the library: from what is in memory, else from the cache,
/// which is read only when nothing is in memory (`None` when it was not).
pub fn seed_plan(in_memory: &Vec<Wallpaper>, cache: Option<&Vec<Wallpaper>>) -> (r: Seed)
    ensures
        in_memory@.len() > 0 ==> r == (if any_wants_thumb(items_view(in_memory@)) {
            Seed::RefreshThumbs
        } else {
            Seed::Keep
        }),
        in_memory@.len() == 0 ==> r == (match cache {
            Some(c) => if c@.len() > 0 {
                Seed::AdoptCache
            } else {
                Seed::RescanAll
            },
            None => Seed::RescanAll,
        }),
{
    if in_memory.len() > 0 {
        if needs_thumbs(in_memory) {
            Seed::RefreshThumbs
        } else {
            Seed::Keep
        }
    } else {
        match cache {
            Some(c) => if c.len() > 0 {
                Seed::AdoptCache
            } else {
                Seed::RescanAll
            },
            None => Seed::RescanAll,
        }
    }
}

/// The previous index handed to a rescan: the records in memory, or none
/// when nothing is indexed yet.
pub fn rescan_prev(items: &Vec<Wallpaper>) -> (r: Option<Vec<Wallpaper>>)
    ensures
        r is None <==> items@.len() == 0,
        r matches Some(v) ==> items_view(v@) == items_view(items@),
{
    if items.len() == 0 {
        return None;
    }
    let mut out: Vec<Wallpaper> = Vec::new();
    let mut i: usize = 0;
    while i < items.len()
        invariant
            i <= items@.len(),
            out@.len() == i,
            forall|k: int| 0 <= k < i ==> (#[trigger] out@[k]).view() == items@[k].view(),
        decreases items@.len() - i,
    {
        out.push(items[i].copy());
        i += 1;
    }
    assert(items_view(out@) =~= items_view(items@));
    Some(out)
}

proof fn lemma_digit_value(d: nat)
    requires
        d < 10,
    ensures
        is_digit(digit_char(d)),
        digit_char(d) as int - 48 == d,
{
    assert('0' as int == 48 && '1' as int == 49 && '2' as int == 50 && '3' as int == 51);
    assert('4' as int == 52 && '5' as int == 53 && '6' as int == 54 && '7' as int == 55);
    assert('8' as int == 56 && '9' as int == 57);
}

proof fn lemma_decimal_digits(n: nat)
    ensures
        decimal(n).len() > 0,
        all_digits(decimal(n)),
        digits_value(decimal(n)) == n,
    decreases n,
{
    let d = decimal(n);
    lemma_digit_value(n % 10);
    assert(n == (n / 10) * 10 + n % 10) by (nonlinear_arith);
    if n < 10 {
        assert(n % 10 == n) by (nonlinear_arith)
            requires
                n < 10,
        ;
        assert(d.drop_last() =~= Seq::<char>::empty());
        assert(d.last() == digit_char(n));
        assert(digits_value(Seq::<char>::empty()) == 0);
        assert(digits_value(d) == digits_value(d.drop_last()) * 10 + ((d.last() as int - 48) as nat));
    } else {
        lemma_decimal_digits(n / 10);
        let pre = decimal(n / 10);
        assert(d.drop_last() =~= pre);
        assert(d.last() == digit_char(n % 10));
        assert(digits_value(d) == (n / 10) * 10 + n % 10);
        assert forall|i: int| 0 <= i < d.len() implies #[trigger] is_digit(d[i]) by {
            if i < pre.len() {
                assert(d[i] == pre[i]);
            }
        }
    }
}

/// Writing a number in decimal and reading it back gives the number, with
/// or without a leading `+`.
pub proof fn law_parse_decimal(n: u64)
    ensures
        parsed_u64(decimal(n as nat)) == Some(n),
        parsed_u64(seq!['+'] + decimal(n as nat)) == Some(n),
{
    lemma_decimal_digits(n as nat);
    let d = decimal(n as nat);
    assert(is_digit(d[0]));
    assert((seq!['+'] + d).drop_first() =~= d);
}

/// What a launch query sets, field by field: a volume or frame rate that
/// parses as an unsigned number, cut to 32 bits, capped at 100 or kept
/// within 1..=240; each switch given, on exactly when its lowercase is `1`,
/// `true`, `yes` or `on`; the scaling when it is `stretch`, `fit`, `fill` or
/// `default`; anything else keeps the base value, and a volume of 0 makes
/// the result silent.
pub proof fn law_query_fields(base: SettingsView, q: LaunchQView)
    ensures
        ({
            let m = query_settings(base, q);
            let on = |t: Seq<char>|
                {
                    let l = unicode_lowercase(t);
                    l == "1"@ || l == "true"@ || l == "yes"@ || l == "on"@
                };
            &&& m.volume == match q.volume {
                Some(t) => match parsed_u64(t) {
                    Some(n) => if (n as u32) < 100 {
                        n as u32
                    } else {
                        100u32
                    },
                    None => base.volume,
                },
                None => base.volume,
            }
            &&& m.fps == match q.fps {
                Some(t) => match parsed_u64(t) {
                    Some(n) => if (n as u32) < 1 {
                        1u32
                    } else if (n as u32) > 240 {
                        240u32
                    } else {
                        n as u32
                    },
                    None => base.fps,
                },
                None => base.fps,
            }
            &&& m.silent == (m.volume == 0 || match q.silent {
                Some(t) => on(t),
                None => base.silent,
            })
            &&& m.no_fullscreen_pause == match q.no_fullscreen_pause {
                Some(t) => on(t),
                None => base.no_fullscreen_pause,
            }
            &&& m.disable_mouse == match q.disable_mouse {
                Some(t) => on(t),
                None => base.disable_mouse,
            }
            &&& m.noautomute == match q.noautomute {
                Some(t) => on(t),
                None => base.noautomute,
            }
            &&& m.scaling == match q.scaling {
                Some(t) => if t == "stretch"@ || t == "fit"@ || t == "fill"@ || t == "default"@ {
                    t
                } else {
                    base.scaling
                },
                None => base.scaling,
            }
        }),
{
}

} // verus!
