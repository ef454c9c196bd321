//! The engine's command line, the monitor list reported by the compositor,
//! and the choice of the Wayland display.

use vstd::prelude::*;
use crate::text::{decimal, owned, push_char, starts_with, contains_char, text_lt, seq_le,
    u64_to_text, lemma_seq_lt_total, lemma_seq_le_transitive};
use crate::texts::texts_view;
use crate::json::{Json, JsonV, jv_get, jv_as_str, jv_as_u64, jv_as_i64, view_items, view_json};
use crate::paths::{path_join, base_dir, assets_dir};
use crate::settings::{PlaybackSettings, SettingsView};

verus! {

/// A monitor as the compositor reports it.
pub struct MonitorInfo {
    pub name: String,
    pub width: u32,
    pub height: u32,
    pub id: i64,
}

/// Mathematical view of a [`MonitorInfo`].
pub struct MonitorView {
    pub name: Seq<char>,
    pub width: u32,
    pub height: u32,
    pub id: i64,
}

impl MonitorInfo {
    pub open spec fn view(&self) -> MonitorView {
        MonitorView { name: self.name@, width: self.width, height: self.height, id: self.id }
    }
}

pub open spec fn monitors_view(v: Seq<MonitorInfo>) -> Seq<MonitorView> {
    v.map_values(|m: MonitorInfo| m.view())
}

pub open spec fn props_view(v: Seq<(String, String)>) -> Seq<(Seq<char>, Seq<char>)> {
    v.map_values(|p: (String, String)| (p.0@, p.1@))
}

// ---------------------------------------------------------------------------
// Command line
// ---------------------------------------------------------------------------

/// Frame rate, sound and switches.
pub open spec fn settings_args(o: SettingsView) -> Seq<Seq<char>> {
    seq!["--fps"@, decimal(o.fps as nat)] + (if o.silent || o.volume == 0 {
        seq!["--silent"@]
    } else {
        seq!["--volume"@, decimal(o.volume as nat)]
    }) + (if o.no_fullscreen_pause {
        seq!["--no-fullscreen-pause"@]
    } else {
        Seq::empty()
    }) + (if o.disable_mouse {
        seq!["--disable-mouse"@]
    } else {
        Seq::empty()
    }) + (if o.noautomute {
        seq!["--noautomute"@]
    } else {
        Seq::empty()
    })
}

/// `--set-property key=value` for each property with a key.
pub open spec fn property_args(ps: Seq<(Seq<char>, Seq<char>)>) -> Seq<Seq<char>>
    decreases ps.len(),
{
    if ps.len() == 0 {
        Seq::empty()
    } else {
        property_args(ps.drop_last()) + if ps.last().0.len() == 0 {
            Seq::<Seq<char>>::empty()
        } else {
            seq!["--set-property"@, ps.last().0 + seq!['='] + ps.last().1]
        }
    }
}

pub open spec fn scaling_args(o: SettingsView) -> Seq<Seq<char>> {
    if o.scaling.len() > 0 {
        seq!["--scaling"@, o.scaling]
    } else {
        Seq::empty()
    }
}

/// The wallpaper on every monitor, or on the default output when there is none.
pub open spec fn screen_args(id: Seq<char>, o: SettingsView, ms: Seq<Seq<char>>) -> Seq<Seq<char>> {
    if ms.len() == 0 {
        scaling_args(o) + seq![id]
    } else {
        monitor_args(id, o, ms)
    }
}

pub open spec fn monitor_args(id: Seq<char>, o: SettingsView, ms: Seq<Seq<char>>) -> Seq<Seq<char>>
    decreases ms.len(),
{
    if ms.len() == 0 {
        Seq::empty()
    } else {
        monitor_args(id, o, ms.drop_last()) + seq!["--screen-root"@, ms.last(), "--bg"@, id]
            + scaling_args(o)
    }
}

/// The names of the monitors, in order.
pub open spec fn monitor_names(ms: Seq<MonitorView>) -> Seq<Seq<char>> {
    ms.map_values(|m: MonitorView| m.name)
}

/// The engine's arguments to play wallpaper `id`.
pub open spec fn engine_args(
    assets: Seq<char>,
    id: Seq<char>,
    o: SettingsView,
    ms: Seq<MonitorView>,
    ps: Seq<(Seq<char>, Seq<char>)>,
) -> Seq<Seq<char>> {
    seq!["--assets-dir"@, assets] + settings_args(o) + property_args(ps) + screen_args(
        id,
        o,
        monitor_names(ms),
    )
}

fn push_text(v: &mut Vec<String>, s: &str)
    ensures
        texts_view(final(v)@) == texts_view(old(v)@).push(s@),
{
    proof {
        crate::texts::lemma_push_view(v@);
    }
    v.push(owned(s));
}

fn push_owned(v: &mut Vec<String>, s: String)
    ensures
        texts_view(final(v)@) == texts_view(old(v)@).push(s@),
{
    proof {
        crate::texts::lemma_push_view(v@);
    }
    v.push(s);
}

/// The engine's arguments to play wallpaper `id` with the assets in `assets`.
pub fn build_args_with(
    assets: &str,
    id: &str,
    opts: &PlaybackSettings,
    monitors: &[MonitorInfo],
    properties: &[(String, String)],
) -> (r: Vec<String>)
    ensures
        texts_view(r@) == engine_args(assets@, id@, opts.view(), monitors_view(monitors@), props_view(properties@)),
{
    let mut args: Vec<String> = Vec::new();
    push_text(&mut args, "--assets-dir");
    push_text(&mut args, assets);
    push_text(&mut args, "--fps");
    push_owned(&mut args, u64_to_text(opts.fps as u64));
    if opts.silent || opts.volume == 0 {
        push_text(&mut args, "--silent");
    } else {
        push_text(&mut args, "--volume");
        push_owned(&mut args, u64_to_text(opts.volume as u64));
    }
    if opts.no_fullscreen_pause {
        push_text(&mut args, "--no-fullscreen-pause");
    }
    if opts.disable_mouse {
        push_text(&mut args, "--disable-mouse");
    }
    if opts.noautomute {
        push_text(&mut args, "--noautomute");
    }
    let ghost head = texts_view(args@);
    assert(head =~= seq!["--assets-dir"@, assets@] + settings_args(opts.view()));
    let ghost ps = props_view(properties@);
    let mut i: usize = 0;
    assert(ps.take(0) =~= Seq::<(Seq<char>, Seq<char>)>::empty());
    while i < properties.len()
        invariant
            i <= properties@.len(),
            ps == props_view(properties@),
            texts_view(args@) == head + property_args(ps.take(i as int)),
        decreases properties@.len() - i,
    {
        let (k, v) = &properties[i];
        assert(ps.take(i + 1).drop_last() =~= ps.take(i as int));
        assert(ps.take(i + 1).last() == (k@, v@));
        let ghost before = texts_view(args@);
        let ghost step = property_args(ps.take(i + 1));
        assert(step == property_args(ps.take(i as int)) + if k@.len() == 0 {
            Seq::<Seq<char>>::empty()
        } else {
            seq!["--set-property"@, k@ + seq!['='] + v@]
        });
        if !k.as_str().is_empty() {
            push_text(&mut args, "--set-property");
            let mut kv = k.clone();
            push_char(&mut kv, '=');
            kv.append(v.as_str());
            assert(kv@ =~= k@ + seq!['='] + v@);
            push_owned(&mut args, kv);
            assert(texts_view(args@) =~= before + seq!["--set-property"@, k@ + seq!['='] + v@]);
        } else {
            assert(step =~= property_args(ps.take(i as int)));
        }
        assert(texts_view(args@) =~= head + property_args(ps.take(i + 1)));
        i += 1;
    }
    assert(ps.take(properties@.len() as int) =~= ps);
    let ghost mid = texts_view(args@);
    let ghost names = monitor_names(monitors_view(monitors@));
    let has_scaling = !opts.scaling.as_str().is_empty();
    if monitors.len() > 0 {
        let mut j: usize = 0;
        assert(names.take(0) =~= Seq::<Seq<char>>::empty());
        while j < monitors.len()
            invariant
                j <= monitors@.len(),
                names == monitor_names(monitors_view(monitors@)),
                has_scaling == (opts.scaling@.len() > 0),
                texts_view(args@) == mid + monitor_args(id@, opts.view(), names.take(j as int)),
            decreases monitors@.len() - j,
        {
            assert(names.take(j + 1).drop_last() =~= names.take(j as int));
            assert(names.take(j + 1).last() == monitors@[j as int].name@);
            push_text(&mut args, "--screen-root");
            push_owned(&mut args, monitors[j].name.clone());
            push_text(&mut args, "--bg");
            push_text(&mut args, id);
            if has_scaling {
                push_text(&mut args, "--scaling");
                push_owned(&mut args, opts.scaling.clone());
            }
            assert(texts_view(args@) =~= mid + monitor_args(id@, opts.view(), names.take(j + 1)));
            j += 1;
        }
        assert(names.take(monitors@.len() as int) =~= names);
    } else {
        if has_scaling {
            push_text(&mut args, "--scaling");
            push_owned(&mut args, opts.scaling.clone());
        }
        push_text(&mut args, id);
        assert(names.len() == 0);
    }
    assert(texts_view(args@) =~= engine_args(assets@, id@, opts.view(), monitors_view(monitors@), ps));
    args
}

/// The engine's arguments to play wallpaper `id`, with the user's assets folder.
pub fn build_args(
    id: &str,
    opts: &PlaybackSettings,
    monitors: &[MonitorInfo],
    properties: &[(String, String)],
) -> (r: Vec<String>)
    ensures
        exists|h: Option<Seq<char>>|
            texts_view(r@) == engine_args(
                path_join(base_dir(h), ".local/share/Steam/steamapps/common/wallpaper_engine/assets"@),
                id@,
                opts.view(),
                monitors_view(monitors@),
                props_view(properties@),
            ),
{
    let assets = assets_dir();
    build_args_with(assets.as_str(), id, opts, monitors, properties)
}

// ---------------------------------------------------------------------------
// Monitors
// ---------------------------------------------------------------------------

/// A monitor from one entry of the compositor's JSON list: it needs a text
/// `name`, numeric `width` and `height` (cut to 32 bits), and an `id` member,
/// read as 0 when it is not an integer.
pub open spec fn monitor_of(j: JsonV) -> Option<MonitorView> {
    match (jv_get(j, "name"@), jv_get(j, "width"@), jv_get(j, "height"@), jv_get(j, "id"@)) {
        (Some(n), Some(w), Some(h), Some(i)) => match (jv_as_str(n), jv_as_u64(w), jv_as_u64(h)) {
            (Some(name), Some(width), Some(height)) => Some(
                MonitorView {
                    name,
                    width: width as u32,
                    height: height as u32,
                    id: match jv_as_i64(i) {
                        Some(x) => x,
                        None => 0,
                    },
                },
            ),
            _ => None,
        },
        _ => None,
    }
}

pub open spec fn monitors_of_items(items: Seq<JsonV>) -> Seq<MonitorView>
    decreases items.len(),
{
    if items.len() == 0 {
        Seq::empty()
    } else {
        match monitor_of(items.last()) {
            Some(m) => monitors_of_items(items.drop_last()).push(m),
            None => monitors_of_items(items.drop_last()),
        }
    }
}

/// The monitors in the compositor's JSON answer: the usable entries of a list.
pub open spec fn monitors_of(j: JsonV) -> Seq<MonitorView> {
    match j {
        JsonV::Arr(items) => monitors_of_items(items),
        _ => Seq::empty(),
    }
}

fn monitor_from(j: &Json) -> (r: Option<MonitorInfo>)
    ensures
        match r {
            Some(m) => monitor_of(j.view()) == Some(m.view()),
            None => monitor_of(j.view()) is None,
        },
{
    let n = match j.get("name") {
        Some(x) => x,
        None => return None,
    };
    let w = match j.get("width") {
        Some(x) => x,
        None => return None,
    };
    let h = match j.get("height") {
        Some(x) => x,
        None => return None,
    };
    let i = match j.get("id") {
        Some(x) => x,
        None => return None,
    };
    let name = match n.as_str() {
        Some(s) => s,
        None => return None,
    };
    let width = match w.as_u64() {
        Some(x) => x,
        None => return None,
    };
    let height = match h.as_u64() {
        Some(x) => x,
        None => return None,
    };
    let id = match i.as_i64() {
        Some(x) => x,
        None => 0,
    };
    Some(MonitorInfo { name: owned(name), width: width as u32, height: height as u32, id })
}

/// The monitors listed in the compositor's JSON answer.
pub fn monitors_from_json(v: &Json) -> (r: Vec<MonitorInfo>)
    ensures
        monitors_view(r@) == monitors_of(v.view()),
{
    let mut out: Vec<MonitorInfo> = Vec::new();
    match v.as_array() {
        Some(items) => {
            proof {
                crate::json::lemma_view_items(items@);
            }
            let ghost iv = view_items(items@);
            let mut i: usize = 0;
            assert(iv.take(0) =~= Seq::<JsonV>::empty());
            assert(monitors_view(out@) =~= Seq::<MonitorView>::empty());
            while i < items.len()
                invariant
                    i <= items@.len(),
                    iv == view_items(items@),
                    iv.len() == items@.len(),
                    forall|k: int| 0 <= k < items@.len() ==> #[trigger] iv[k] == view_json(items@[k]),
                    monitors_view(out@) == monitors_of_items(iv.take(i as int)),
                decreases items@.len() - i,
            {
                assert(iv.take(i + 1).drop_last() =~= iv.take(i as int));
                assert(iv.take(i + 1).last() == items@[i as int].view());
                match monitor_from(&items[i]) {
                    Some(m) => {
                        let ghost before = monitors_view(out@);
                        let ghost mv = m.view();
                        out.push(m);
                        assert(monitors_view(out@) =~= before.push(mv));
                    },
                    None => {},
                }
                i += 1;
            }
            assert(iv.take(items@.len() as int) =~= iv);
        },
        None => {
            assert(monitors_view(out@) =~= Seq::<MonitorView>::empty());
        },
    }
    out
}

// ---------------------------------------------------------------------------
// Wayland display
// ---------------------------------------------------------------------------

/// A runtime-directory entry that names a Wayland socket: `wayland-…` without a dot.
pub open spec fn is_wayland_socket(name: Seq<char>) -> bool {
    name.len() >= 8 && name.take(8) == "wayland-"@ && !name.contains('.')
}

/// The display to use: `WAYLAND_DISPLAY` when its socket exists, otherwise
/// the least socket name among the runtime-directory entries.
pub open spec fn display_choice(
    env: Option<Seq<char>>,
    env_exists: bool,
    entries: Seq<Seq<char>>,
    r: Option<Seq<char>>,
) -> bool {
    if env is Some && env_exists {
        r == env
    } else {
        match r {
            Some(d) => entries.contains(d) && is_wayland_socket(d) && forall|k: int|
                0 <= k < entries.len() && is_wayland_socket(#[trigger] entries[k]) ==> seq_le(
                    d,
                    entries[k],
                ),
            None => forall|k: int| 0 <= k < entries.len() ==> !is_wayland_socket(#[trigger] entries[k]),
        }
    }
}

fn wayland_socket(name: &str) -> (r: bool)
    ensures
        r == is_wayland_socket(name@),
{
    proof {
        reveal_strlit("wayland-");
    }
    starts_with(name, "wayland-") && !contains_char(name, '.')
}

/// Chooses the Wayland display from the `WAYLAND_DISPLAY` variable (and
/// whether its socket exists in the runtime directory) and the names of the
/// runtime directory's entries.
pub fn choose_wayland_display(env: Option<&str>, env_exists: bool, entries: &Vec<String>) -> (r: Option<String>)
    ensures
        display_choice(
            match env { Some(e) => Some(e@), None => None },
            env_exists,
            texts_view(entries@),
            match r { Some(d) => Some(d@), None => None },
        ),
{
    match env {
        Some(e) => if env_exists {
            return Some(owned(e));
        },
        None => {},
    }
    let ghost ev = texts_view(entries@);
    let mut best: Option<usize> = None;
    let mut i: usize = 0;
    while i < entries.len()
        invariant
            i <= entries@.len(),
            ev == texts_view(entries@),
            match best {
                Some(b) => b < i && is_wayland_socket(ev[b as int]) && forall|k: int|
                    0 <= k < i && is_wayland_socket(#[trigger] ev[k]) ==> seq_le(ev[b as int], ev[k]),
                None => forall|k: int| 0 <= k < i ==> !is_wayland_socket(#[trigger] ev[k]),
            },
        decreases entries@.len() - i,
    {
        assert(ev[i as int] == entries@[i as int]@);
        if wayland_socket(entries[i].as_str()) {
            match best {
                Some(b) => {
                    if text_lt(entries[i].as_str(), entries[b].as_str()) {
                        proof {
                            assert(ev[b as int] == entries@[b as int]@);
                            assert forall|k: int| 0 <= k < i + 1 && is_wayland_socket(#[trigger] ev[k]) implies seq_le(
                                ev[i as int],
                                ev[k],
                            ) by {
                                if k < i {
                                    lemma_seq_le_transitive(ev[i as int], ev[b as int], ev[k]);
                                }
                            }
                        }
                        best = Some(i);
                    } else {
                        proof {
                            assert(ev[b as int] == entries@[b as int]@);
                            lemma_seq_lt_total(ev[i as int], ev[b as int]);
                        }
                    }
                },
                None => {
                    best = Some(i);
                },
            }
        }
        i += 1;
    }
    match best {
        Some(b) => {
            assert(ev[b as int] == entries@[b as int]@);
            assert(ev.contains(ev[b as int]));
            Some(entries[b].clone())
        },
        None => None,
    }
}

/// The user id of this process (`getuid`).
#[verifier::external_body]
fn current_uid() -> u32 {
    nix::unistd::getuid().as_raw()
}

/// The runtime directory used when `XDG_RUNTIME_DIR` is unset: `/run/user/<uid>`.
pub fn default_runtime_dir() -> (r: String)
    ensures
        exists|uid: u32| r@ == "/run/user/"@ + decimal(uid as nat),
{
    let uid = current_uid();
    let mut s = owned("/run/user/");
    s.append(u64_to_text(uid as u64).as_str());
    s
}

// ---------------------------------------------------------------------------
// Laws
// ---------------------------------------------------------------------------

/// The start of the engine's command line: the assets folder and the frame
/// rate; then `--silent` when the settings are silent or muted, and
/// `--volume <v>` otherwise; then the switches that are on, in the order
/// no-fullscreen-pause, disable-mouse, noautomute, and nothing else; the
/// properties and the screens follow.
pub proof fn law_engine_args_head(
    assets: Seq<char>,
    id: Seq<char>,
    o: SettingsView,
    ms: Seq<MonitorView>,
    ps: Seq<(Seq<char>, Seq<char>)>,
)
    ensures
        ({
            let r = engine_args(assets, id, o, ms, ps);
            let quiet = o.silent || o.volume == 0;
            let k: int = if quiet { 5 } else { 6 };
            let a: int = if o.no_fullscreen_pause { 1 } else { 0 };
            let b: int = if o.disable_mouse { 1 } else { 0 };
            let c: int = if o.noautomute { 1 } else { 0 };
            let rest = property_args(ps) + screen_args(id, o, monitor_names(ms));
            &&& r.len() == k + a + b + c + rest.len()
            &&& r[0] == "--assets-dir"@
            &&& r[1] == assets
            &&& r[2] == "--fps"@
            &&& r[3] == decimal(o.fps as nat)
            &&& quiet ==> r[4] == "--silent"@
            &&& !quiet ==> r[4] == "--volume"@ && r[5] == decimal(o.volume as nat)
            &&& o.no_fullscreen_pause ==> r[k] == "--no-fullscreen-pause"@
            &&& o.disable_mouse ==> r[k + a] == "--disable-mouse"@
            &&& o.noautomute ==> r[k + a + b] == "--noautomute"@
            &&& r.subrange(k + a + b + c, r.len() as int) == rest
        }),
{
    let r = engine_args(assets, id, o, ms, ps);
    let quiet = o.silent || o.volume == 0;
    let sound: Seq<Seq<char>> = if quiet {
        seq!["--silent"@]
    } else {
        seq!["--volume"@, decimal(o.volume as nat)]
    };
    let s1: Seq<Seq<char>> = if o.no_fullscreen_pause {
        seq!["--no-fullscreen-pause"@]
    } else {
        Seq::empty()
    };
    let s2: Seq<Seq<char>> = if o.disable_mouse {
        seq!["--disable-mouse"@]
    } else {
        Seq::empty()
    };
    let s3: Seq<Seq<char>> = if o.noautomute {
        seq!["--noautomute"@]
    } else {
        Seq::empty()
    };
    let head = seq!["--assets-dir"@, assets, "--fps"@, decimal(o.fps as nat)] + sound + s1 + s2 + s3;
    let rest = property_args(ps) + screen_args(id, o, monitor_names(ms));
    assert(settings_args(o) == seq!["--fps"@, decimal(o.fps as nat)] + sound + s1 + s2 + s3);
    assert(r =~= head + rest);
    assert(r.subrange(head.len() as int, r.len() as int) =~= rest);
}

/// One screen's group: the monitor, the wallpaper, and the scaling when set.
pub open spec fn screen_group(id: Seq<char>, o: SettingsView, name: Seq<char>) -> Seq<Seq<char>> {
    seq!["--screen-root"@, name, "--bg"@, id] + scaling_args(o)
}

proof fn lemma_monitor_groups(id: Seq<char>, o: SettingsView, names: Seq<Seq<char>>, g: int)
    requires
        g == 4 + scaling_args(o).len(),
    ensures
        monitor_args(id, o, names).len() == g * names.len(),
        forall|i: int|
            0 <= i < names.len() ==> monitor_args(id, o, names).subrange(g * i, g * i + g)
                == screen_group(id, o, #[trigger] names[i]),
    decreases names.len(),
{
    if names.len() > 0 {
        let pre = names.drop_last();
        let n = names.len() - 1;
        lemma_monitor_groups(id, o, pre, g);
        let m = monitor_args(id, o, names);
        let mp = monitor_args(id, o, pre);
        let grp = screen_group(id, o, names.last());
        assert(m =~= mp + grp);
        assert(g * names.len() == g * n + g) by (nonlinear_arith)
            requires
                n == names.len() - 1,
        ;
        assert forall|i: int| 0 <= i < names.len() implies m.subrange(g * i, g * i + g)
            == screen_group(id, o, #[trigger] names[i]) by {
            if i < n {
                assert(g * i + g <= g * n) by (nonlinear_arith)
                    requires
                        i < n,
                        g >= 0,
                ;
                assert(0 <= g * i) by (nonlinear_arith)
                    requires
                        0 <= i,
                        g >= 0,
                ;
                assert(pre[i] == names[i]);
                assert(m.subrange(g * i, g * i + g) =~= mp.subrange(g * i, g * i + g));
            } else {
                assert(m.subrange(g * i, g * i + g) =~= grp);
            }
        }
    }
}

/// The screens part of the command line: with no monitor, the scaling
/// (when set) and the wallpaper; otherwise, for each monitor in order, the
/// group `--screen-root <name> --bg <id>` followed by `--scaling <mode>`
/// when a scaling is set.
pub proof fn law_screen_args(id: Seq<char>, o: SettingsView, names: Seq<Seq<char>>)
    ensures
        names.len() == 0 ==> screen_args(id, o, names) == if o.scaling.len() > 0 {
            seq!["--scaling"@, o.scaling, id]
        } else {
            seq![id]
        },
        names.len() > 0 && o.scaling.len() > 0 ==> {
            &&& screen_args(id, o, names).len() == 6 * names.len()
            &&& forall|i: int|
                0 <= i < names.len() ==> screen_args(id, o, names).subrange(6 * i, 6 * i + 6)
                    == seq!["--screen-root"@, #[trigger] names[i], "--bg"@, id, "--scaling"@, o.scaling]
        },
        names.len() > 0 && o.scaling.len() == 0 ==> {
            &&& screen_args(id, o, names).len() == 4 * names.len()
            &&& forall|i: int|
                0 <= i < names.len() ==> screen_args(id, o, names).subrange(4 * i, 4 * i + 4)
                    == seq!["--screen-root"@, #[trigger] names[i], "--bg"@, id]
        },
{
    if names.len() == 0 {
        if o.scaling.len() > 0 {
            assert(screen_args(id, o, names) =~= seq!["--scaling"@, o.scaling, id]);
        } else {
            assert(screen_args(id, o, names) =~= seq![id]);
        }
    } else {
        let g: int = 4 + scaling_args(o).len() as int;
        lemma_monitor_groups(id, o, names, g);
        assert forall|i: int| 0 <= i < names.len() implies screen_group(id, o, #[trigger] names[i])
            == if o.scaling.len() > 0 {
            seq!["--screen-root"@, names[i], "--bg"@, id, "--scaling"@, o.scaling]
        } else {
            seq!["--screen-root"@, names[i], "--bg"@, id]
        } by {
            if o.scaling.len() > 0 {
                assert(screen_group(id, o, names[i]) =~= seq!["--screen-root"@, names[i], "--bg"@,
                    id, "--scaling"@, o.scaling]);
            } else {
                assert(screen_group(id, o, names[i]) =~= seq!["--screen-root"@, names[i], "--bg"@,
                    id]);
            }
        }
    }
}

/// The property flags come in pairs: `--set-property` then `key=value`;
/// every pair is a property with a key, and every property with a key gives
/// a pair (an empty key gives none).
pub proof fn law_property_args(ps: Seq<(Seq<char>, Seq<char>)>)
    ensures
        property_args(ps).len() % 2 == 0,
        forall|j: int|
            0 <= j < property_args(ps).len() && j % 2 == 0 ==> #[trigger] property_args(ps)[j]
                == "--set-property"@,
        forall|j: int|
            0 <= j < property_args(ps).len() && j % 2 == 1 ==> exists|i: int|
                0 <= i < ps.len() && ps[i].0.len() > 0 && #[trigger] property_args(ps)[j] == ps[i].0
                    + seq!['='] + ps[i].1,
        forall|i: int|
            0 <= i < ps.len() && (#[trigger] ps[i]).0.len() > 0 ==> exists|j: int|
                0 <= j < property_args(ps).len() && j % 2 == 1 && property_args(ps)[j] == ps[i].0
                    + seq!['='] + ps[i].1,
    decreases ps.len(),
{
    if ps.len() > 0 {
        let pre = ps.drop_last();
        let last = ps.last();
        law_property_args(pre);
        let a = property_args(pre);
        let pa = property_args(ps);
        let n = ps.len() - 1;
        assert(ps[n] == last);
        assert forall|i: int| 0 <= i < n implies pre[i] == ps[i] by {}
        if last.0.len() == 0 {
            assert(pa =~= a);
            assert forall|j: int| 0 <= j < pa.len() && j % 2 == 1 implies exists|i: int|
                0 <= i < ps.len() && ps[i].0.len() > 0 && #[trigger] pa[j] == ps[i].0 + seq!['=']
                    + ps[i].1 by {
                let i = choose|i: int|
                    0 <= i < pre.len() && pre[i].0.len() > 0 && a[j] == pre[i].0 + seq!['=']
                        + pre[i].1;
                assert(ps[i] == pre[i]);
            }
            assert forall|i: int| 0 <= i < ps.len() && (#[trigger] ps[i]).0.len() > 0 implies exists|
                j: int,
            | 0 <= j < pa.len() && j % 2 == 1 && pa[j] == ps[i].0 + seq!['='] + ps[i].1 by {
                assert(i < n);
                assert(pre[i] == ps[i]);
            }
        } else {
            let kv = last.0 + seq!['='] + last.1;
            assert(pa =~= a + seq!["--set-property"@, kv]);
            assert forall|j: int| 0 <= j < pa.len() && j % 2 == 1 implies exists|i: int|
                0 <= i < ps.len() && ps[i].0.len() > 0 && #[trigger] pa[j] == ps[i].0 + seq!['=']
                    + ps[i].1 by {
                if j < a.len() {
                    assert(pa[j] == a[j]);
                    let i = choose|i: int|
                        0 <= i < pre.len() && pre[i].0.len() > 0 && a[j] == pre[i].0 + seq!['=']
                            + pre[i].1;
                    assert(ps[i] == pre[i]);
                } else {
                    assert(j == a.len() + 1);
                    assert(pa[j] == kv);
                }
            }
            assert forall|i: int| 0 <= i < ps.len() && (#[trigger] ps[i]).0.len() > 0 implies exists|
                j: int,
            | 0 <= j < pa.len() && j % 2 == 1 && pa[j] == ps[i].0 + seq!['='] + ps[i].1 by {
                if i < n {
                    assert(pre[i] == ps[i]);
                    let j = choose|j: int|
                        0 <= j < a.len() && j % 2 == 1 && a[j] == pre[i].0 + seq!['='] + pre[i].1;
                    assert(pa[j] == a[j]);
                } else {
                    assert(pa[a.len() + 1int] == kv);
                }
            }
            assert forall|j: int| 0 <= j < pa.len() && j % 2 == 0 implies #[trigger] pa[j]
                == "--set-property"@ by {
                if j < a.len() {
                    assert(pa[j] == a[j]);
                }
            }
        }
    }
}

} // verus!
