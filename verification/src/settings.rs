//! Playback settings: defaults, reading them from the settings file's JSON,
//! and merging overrides from a launch request.

use vstd::prelude::*;
use crate::text::{owned, text_eq, unicode_lowercase};
use crate::daemon::parse_bool_s;
use crate::json::{Json, JsonV, NumV, jv_get, jv_as_u64, jv_as_bool, jv_as_str, puts, lemma_puts};

verus! {

/// How the engine plays wallpapers.
pub struct PlaybackSettings {
    pub volume: u32,
    pub fps: u32,
    pub silent: bool,
    pub scaling: String,
    pub no_fullscreen_pause: bool,
    pub disable_mouse: bool,
    pub noautomute: bool,
}

/// Mathematical view of [`PlaybackSettings`].
pub struct SettingsView {
    pub volume: u32,
    pub fps: u32,
    pub silent: bool,
    pub scaling: Seq<char>,
    pub no_fullscreen_pause: bool,
    pub disable_mouse: bool,
    pub noautomute: bool,
}

impl PlaybackSettings {
    pub open spec fn view(&self) -> SettingsView {
        SettingsView {
            volume: self.volume,
            fps: self.fps,
            silent: self.silent,
            scaling: self.scaling@,
            no_fullscreen_pause: self.no_fullscreen_pause,
            disable_mouse: self.disable_mouse,
            noautomute: self.noautomute,
        }
    }

    /// A copy of the settings.
    pub fn copy(&self) -> (r: PlaybackSettings)
        ensures
            r.view() == self.view(),
    {
        PlaybackSettings {
            volume: self.volume,
            fps: self.fps,
            silent: self.silent,
            scaling: self.scaling.clone(),
            no_fullscreen_pause: self.no_fullscreen_pause,
            disable_mouse: self.disable_mouse,
            noautomute: self.noautomute,
        }
    }
}

/// The defaults: volume 15, 30 fps, sound on, `fill` scaling, every switch off.
pub open spec fn default_settings() -> SettingsView {
    SettingsView {
        volume: 15,
        fps: 30,
        silent: false,
        scaling: "fill"@,
        no_fullscreen_pause: false,
        disable_mouse: false,
        noautomute: false,
    }
}

impl Default for PlaybackSettings {
    fn default() -> (r: PlaybackSettings)
        ensures
            r.view() == default_settings(),
    {
        PlaybackSettings {
            volume: 15,
            fps: 30,
            silent: false,
            scaling: owned("fill"),
            no_fullscreen_pause: false,
            disable_mouse: false,
            noautomute: false,
        }
    }
}

/// The scaling modes the engine knows.
pub open spec fn is_scaling(s: Seq<char>) -> bool {
    s == "stretch"@ || s == "fit"@ || s == "fill"@ || s == "default"@
}

/// Settings the rest of the library can rely on.
pub open spec fn valid_settings(s: SettingsView) -> bool {
    &&& s.volume <= 100
    &&& 1 <= s.fps <= 240
    &&& s.volume == 0 ==> s.silent
    &&& is_scaling(s.scaling)
}

/// A text read as a switch: `1`, `true`, `yes` or `on`, in any case.
pub open spec fn truthy(lower: Seq<char>) -> bool {
    lower == "1"@ || lower == "true"@ || lower == "yes"@ || lower == "on"@
}

pub open spec fn u64_field(v: JsonV, k: Seq<char>) -> Option<u64> {
    match jv_get(v, k) {
        Some(x) => jv_as_u64(x),
        None => None,
    }
}

pub open spec fn bool_field(v: JsonV, k: Seq<char>) -> Option<bool> {
    match jv_get(v, k) {
        Some(x) => jv_as_bool(x),
        None => None,
    }
}

pub open spec fn text_field(v: JsonV, k: Seq<char>) -> Option<Seq<char>> {
    match jv_get(v, k) {
        Some(x) => jv_as_str(x),
        None => None,
    }
}

/// A volume from a request: the number cut to 32 bits, at most 100.
pub open spec fn volume_of(n: u64) -> u32 {
    if (n as u32) < 100 {
        n as u32
    } else {
        100
    }
}

/// A frame rate from a request: the number cut to 32 bits, within 1..=240.
pub open spec fn fps_of(n: u64) -> u32 {
    if (n as u32) < 1 {
        1
    } else if (n as u32) > 240 {
        240
    } else {
        n as u32
    }
}

/// A switch given as a boolean.
pub open spec fn switch_bool(v: JsonV, k: Seq<char>, cur: bool) -> bool {
    match bool_field(v, k) {
        Some(b) => b,
        None => cur,
    }
}

/// A switch given as a boolean or as a text.
pub open spec fn switch_any(v: JsonV, k: Seq<char>, cur: bool) -> bool {
    match text_field(v, k) {
        Some(t) => truthy(unicode_lowercase(t)),
        None => switch_bool(v, k, cur),
    }
}

/// A silenced volume makes the settings silent.
pub open spec fn silence_if_muted(s: SettingsView) -> SettingsView {
    if s.volume == 0 {
        SettingsView { silent: true, ..s }
    } else {
        s
    }
}

/// The settings in a settings file's JSON `v`: each known field of the right
/// type replaces the default.
pub open spec fn settings_from(v: JsonV) -> SettingsView {
    let d = default_settings();
    silence_if_muted(
        SettingsView {
            volume: match u64_field(v, "volume"@) {
                Some(n) => volume_of(n),
                None => d.volume,
            },
            fps: match u64_field(v, "fps"@) {
                Some(n) => fps_of(n),
                None => d.fps,
            },
            silent: switch_bool(v, "silent"@, d.silent),
            scaling: match text_field(v, "scaling"@) {
                Some(t) => if is_scaling(t) {
                    t
                } else {
                    d.scaling
                },
                None => d.scaling,
            },
            no_fullscreen_pause: switch_bool(v, "no_fullscreen_pause"@, d.no_fullscreen_pause),
            disable_mouse: switch_bool(v, "disable_mouse"@, d.disable_mouse),
            noautomute: switch_bool(v, "noautomute"@, d.noautomute),
        },
    )
}

/// The JSON object a settings record is stored as: one member per field,
/// numbers for the volume and frame rate, booleans for the switches.
pub open spec fn settings_json(s: SettingsView) -> Seq<(Seq<char>, JsonV)> {
    puts(settings_entries(s), 7)
}

/// The members of a stored settings record, in field order.
pub open spec fn settings_entries(s: SettingsView) -> Seq<(Seq<char>, Option<JsonV>)> {
    seq![
        ("volume"@, Some(JsonV::Num(NumV::PosInt(s.volume as u64)))),
        ("fps"@, Some(JsonV::Num(NumV::PosInt(s.fps as u64)))),
        ("silent"@, Some(JsonV::Bool(s.silent))),
        ("scaling"@, Some(JsonV::Str(s.scaling))),
        ("no_fullscreen_pause"@, Some(JsonV::Bool(s.no_fullscreen_pause))),
        ("disable_mouse"@, Some(JsonV::Bool(s.disable_mouse))),
        ("noautomute"@, Some(JsonV::Bool(s.noautomute))),
    ]
}

/// The member names of the settings, in field order, are distinct.
pub proof fn lemma_setting_keys_distinct(ps: Seq<(Seq<char>, Option<JsonV>)>)
    requires
        ps.len() == 7,
        ps[0].0 == "volume"@,
        ps[1].0 == "fps"@,
        ps[2].0 == "silent"@,
        ps[3].0 == "scaling"@,
        ps[4].0 == "no_fullscreen_pause"@,
        ps[5].0 == "disable_mouse"@,
        ps[6].0 == "noautomute"@,
    ensures
        forall|i: int, j: int| 0 <= i < j < 7 ==> ps[i].0 != ps[j].0,
{
    reveal_strlit("volume");
    reveal_strlit("fps");
    reveal_strlit("silent");
    reveal_strlit("scaling");
    reveal_strlit("no_fullscreen_pause");
    reveal_strlit("disable_mouse");
    reveal_strlit("noautomute");
    // each name differs from the others in its first letter or its length
    let first = |i: int| ps[i].0[0];
    let len = |i: int| ps[i].0.len();
    assert(first(0) == 'v' && first(1) == 'f' && first(2) == 's' && first(3) == 's');
    assert(first(4) == 'n' && first(5) == 'd' && first(6) == 'n');
    assert(len(2) == 6 && len(3) == 7 && len(4) == 19 && len(6) == 10);
    assert forall|i: int, j: int| 0 <= i < j < 7 implies ps[i].0 != ps[j].0 by {
        assert(first(i) != first(j) || len(i) != len(j));
    }
}

/// `base` with the overrides of a launch request's JSON `patch`; switches
/// other than `noautomute` may also be given as texts.
pub open spec fn merged(base: SettingsView, patch: JsonV) -> SettingsView {
    silence_if_muted(
        SettingsView {
            volume: match u64_field(patch, "volume"@) {
                Some(n) => volume_of(n),
                None => base.volume,
            },
            fps: match u64_field(patch, "fps"@) {
                Some(n) => fps_of(n),
                None => base.fps,
            },
            silent: switch_any(patch, "silent"@, base.silent),
            scaling: match text_field(patch, "scaling"@) {
                Some(t) => if is_scaling(t) {
                    t
                } else {
                    base.scaling
                },
                None => base.scaling,
            },
            no_fullscreen_pause: switch_any(patch, "no_fullscreen_pause"@, base.no_fullscreen_pause),
            disable_mouse: switch_any(patch, "disable_mouse"@, base.disable_mouse),
            noautomute: switch_bool(patch, "noautomute"@, base.noautomute),
        },
    )
}

fn u64_field_of(v: &Json, k: &str) -> (r: Option<u64>)
    ensures
        r == u64_field(v.view(), k@),
{
    match v.get(k) {
        Some(x) => x.as_u64(),
        None => None,
    }
}

fn bool_field_of(v: &Json, k: &str) -> (r: Option<bool>)
    ensures
        r == bool_field(v.view(), k@),
{
    match v.get(k) {
        Some(x) => x.as_bool(),
        None => None,
    }
}

fn text_field_of<'a>(v: &'a Json, k: &str) -> (r: Option<&'a str>)
    ensures
        match r {
            Some(t) => text_field(v.view(), k@) == Some(t@),
            None => text_field(v.view(), k@) is None,
        },
{
    match v.get(k) {
        Some(x) => x.as_str(),
        None => None,
    }
}

fn volume_from(n: u64) -> (r: u32)
    ensures
        r == volume_of(n),
{
    let t = n as u32;
    if t < 100 {
        t
    } else {
        100
    }
}

fn fps_from(n: u64) -> (r: u32)
    ensures
        r == fps_of(n),
{
    let t = n as u32;
    if t < 1 {
        1
    } else if t > 240 {
        240
    } else {
        t
    }
}

fn is_scaling_text(s: &str) -> (r: bool)
    ensures
        r == is_scaling(s@),
{
    text_eq(s, "stretch") || text_eq(s, "fit") || text_eq(s, "fill") || text_eq(s, "default")
}


fn switch_bool_of(v: &Json, k: &str, cur: bool) -> (r: bool)
    ensures
        r == switch_bool(v.view(), k@, cur),
{
    match bool_field_of(v, k) {
        Some(b) => b,
        None => cur,
    }
}

fn switch_any_of(v: &Json, k: &str, cur: bool) -> (r: bool)
    ensures
        r == switch_any(v.view(), k@, cur),
{
    match text_field_of(v, k) {
        Some(t) => parse_bool_s(t),
        None => switch_bool_of(v, k, cur),
    }
}

/// The settings stored in a settings file whose JSON is `v`.
pub fn settings_from_json(v: &Json) -> (r: PlaybackSettings)
    ensures
        r.view() == settings_from(v.view()),
{
    let mut s = PlaybackSettings::default();
    match u64_field_of(v, "volume") {
        Some(n) => s.volume = volume_from(n),
        None => {},
    }
    match u64_field_of(v, "fps") {
        Some(n) => s.fps = fps_from(n),
        None => {},
    }
    s.silent = switch_bool_of(v, "silent", s.silent);
    match text_field_of(v, "scaling") {
        Some(t) => if is_scaling_text(t) {
            s.scaling = owned(t);
        },
        None => {},
    }
    s.no_fullscreen_pause = switch_bool_of(v, "no_fullscreen_pause", s.no_fullscreen_pause);
    s.disable_mouse = switch_bool_of(v, "disable_mouse", s.disable_mouse);
    s.noautomute = switch_bool_of(v, "noautomute", s.noautomute);
    if s.volume == 0 {
        s.silent = true;
    }
    s
}

/// The settings `base` with the overrides of a launch request's JSON `patch`.
pub fn merge(base: &PlaybackSettings, patch: &Json) -> (r: PlaybackSettings)
    ensures
        r.view() == merged(base.view(), patch.view()),
{
    let mut s = base.copy();
    match u64_field_of(patch, "volume") {
        Some(n) => s.volume = volume_from(n),
        None => {},
    }
    match u64_field_of(patch, "fps") {
        Some(n) => s.fps = fps_from(n),
        None => {},
    }
    s.silent = switch_any_of(patch, "silent", s.silent);
    match text_field_of(patch, "scaling") {
        Some(t) => if is_scaling_text(t) {
            s.scaling = owned(t);
        },
        None => {},
    }
    s.no_fullscreen_pause = switch_any_of(patch, "no_fullscreen_pause", s.no_fullscreen_pause);
    s.disable_mouse = switch_any_of(patch, "disable_mouse", s.disable_mouse);
    s.noautomute = switch_bool_of(patch, "noautomute", s.noautomute);
    if s.volume == 0 {
        s.silent = true;
    }
    s
}

// ---------------------------------------------------------------------------
// Laws
// ---------------------------------------------------------------------------

/// The defaults are valid settings.
pub proof fn law_default_valid()
    ensures
        valid_settings(default_settings()),
{
}

/// Whatever a settings file holds, the settings read from it are valid.
pub proof fn law_loaded_settings_valid(v: JsonV)
    ensures
        valid_settings(settings_from(v)),
{
}

/// Merging overrides into valid settings gives valid settings.
pub proof fn law_merge_keeps_valid(base: SettingsView, patch: JsonV)
    requires
        valid_settings(base),
    ensures
        valid_settings(merged(base, patch)),
{
}

/// Merging the same overrides twice is merging them once.
pub proof fn law_merge_idempotent(base: SettingsView, patch: JsonV)
    ensures
        merged(merged(base, patch), patch) == merged(base, patch),
{
}

/// A request without overrides leaves valid settings as they are.
pub proof fn law_merge_nothing(base: SettingsView, patch: JsonV)
    requires
        valid_settings(base),
        !(patch is Obj),
    ensures
        merged(base, patch) == base,
{
}

/// Reading a settings file is merging its JSON into the defaults, except
/// that a file cannot give a switch as a text.
pub proof fn law_load_is_merge_into_defaults(v: JsonV)
    requires
        text_field(v, "silent"@) is None,
        text_field(v, "no_fullscreen_pause"@) is None,
        text_field(v, "disable_mouse"@) is None,
    ensures
        settings_from(v) == merged(default_settings(), v),
{
}

/// Valid settings, stored as JSON, load back unchanged.
pub proof fn law_stored_settings_load_back(s: SettingsView)
    requires
        valid_settings(s),
    ensures
        settings_from(JsonV::Obj(settings_json(s))) == s,
{
    let ps = settings_entries(s);
    lemma_setting_keys_distinct(ps);
    lemma_puts(ps, 7);
    assert(ps[0].0 == "volume"@ && ps[1].0 == "fps"@ && ps[2].0 == "silent"@ && ps[3].0
        == "scaling"@);
    assert(ps[4].0 == "no_fullscreen_pause"@ && ps[5].0 == "disable_mouse"@ && ps[6].0
        == "noautomute"@);
}

/// A text switch word: `1`, `true`, `yes` or `on`.
pub open spec fn switch_word(l: Seq<char>) -> bool {
    l == "1"@ || l == "true"@ || l == "yes"@ || l == "on"@
}

/// What a launch patch does to each setting: an unsigned volume, cut to 32
/// bits, is capped at 100; an unsigned frame rate, cut to 32 bits, is kept
/// within 1..=240; `silent`, `no_fullscreen_pause` and `disable_mouse` take a
/// boolean, or a text that turns them on exactly when its lowercase is `1`,
/// `true`, `yes` or `on`; `noautomute` takes only a boolean; the scaling takes
/// `stretch`, `fit`, `fill` or `default`; anything else keeps the base
/// value, and a volume of 0 makes the result silent.
pub proof fn law_merge_fields(base: SettingsView, patch: JsonV)
    ensures
        ({
            let m = merged(base, patch);
            let switch = |k: Seq<char>, cur: bool|
                match jv_get(patch, k) {
                    Some(JsonV::Str(t)) => switch_word(unicode_lowercase(t)),
                    Some(JsonV::Bool(b)) => b,
                    _ => cur,
                };
            &&& m.volume == match jv_get(patch, "volume"@) {
                Some(JsonV::Num(NumV::PosInt(n))) => if (n as u32) < 100 {
                    n as u32
                } else {
                    100u32
                },
                _ => base.volume,
            }
            &&& m.fps == match jv_get(patch, "fps"@) {
                Some(JsonV::Num(NumV::PosInt(n))) => if (n as u32) < 1 {
                    1u32
                } else if (n as u32) > 240 {
                    240u32
                } else {
                    n as u32
                },
                _ => base.fps,
            }
            &&& m.silent == (m.volume == 0 || switch("silent"@, base.silent))
            &&& m.no_fullscreen_pause == switch("no_fullscreen_pause"@, base.no_fullscreen_pause)
            &&& m.disable_mouse == switch("disable_mouse"@, base.disable_mouse)
            &&& m.noautomute == match jv_get(patch, "noautomute"@) {
                Some(JsonV::Bool(b)) => b,
                _ => base.noautomute,
            }
            &&& m.scaling == match jv_get(patch, "scaling"@) {
                Some(JsonV::Str(t)) => if t == "stretch"@ || t == "fit"@ || t == "fill"@ || t
                    == "default"@ {
                    t
                } else {
                    base.scaling
                },
                _ => base.scaling,
            }
        }),
{
}

/// What a settings file holds: each field of the right type replaces the
/// default (volume 15, 30 fps, sound on, `fill`, switches off), with the
/// same limits as a launch patch, but switches are booleans only; a volume
/// of 0 makes the settings silent.
pub proof fn law_settings_file_fields(v: JsonV)
    ensures
        ({
            let s = settings_from(v);
            let switch = |k: Seq<char>|
                match jv_get(v, k) {
                    Some(JsonV::Bool(b)) => b,
                    _ => false,
                };
            &&& s.volume == match jv_get(v, "volume"@) {
                Some(JsonV::Num(NumV::PosInt(n))) => if (n as u32) < 100 {
                    n as u32
                } else {
                    100u32
                },
                _ => 15u32,
            }
            &&& s.fps == match jv_get(v, "fps"@) {
                Some(JsonV::Num(NumV::PosInt(n))) => if (n as u32) < 1 {
                    1u32
                } else if (n as u32) > 240 {
                    240u32
                } else {
                    n as u32
                },
                _ => 30u32,
            }
            &&& s.silent == (s.volume == 0 || switch("silent"@))
            &&& s.no_fullscreen_pause == switch("no_fullscreen_pause"@)
            &&& s.disable_mouse == switch("disable_mouse"@)
            &&& s.noautomute == switch("noautomute"@)
            &&& s.scaling == match jv_get(v, "scaling"@) {
                Some(JsonV::Str(t)) => if t == "stretch"@ || t == "fit"@ || t == "fill"@ || t
                    == "default"@ {
                    t
                } else {
                    "fill"@
                },
                _ => "fill"@,
            }
        }),
{
}

} // verus!
