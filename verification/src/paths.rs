//! Where things live: the Steam workshop folder, the index cache, grid
//! thumbs, saved property overrides, playback settings and engine assets,
//! all under the user's home directory.

use vstd::prelude::*;
use crate::text::{push_char, owned};

verus! {

/// The workshop folder of Wallpaper Engine (app 431960), relative to home.
pub open spec fn workshop_rel() -> Seq<char> {
    ".local/share/Steam/steamapps/workshop/content/431960"@
}

/// `PathBuf::push` on Unix: an absolute `rel` replaces `base`; otherwise
/// `rel` is appended, with a `/` between unless `base` is empty or already
/// ends with one.
pub open spec fn path_join(base: Seq<char>, rel: Seq<char>) -> Seq<char> {
    if rel.len() > 0 && rel[0] == '/' {
        rel
    } else if base.len() == 0 || base.last() == '/' {
        base + rel
    } else {
        base + seq!['/'] + rel
    }
}

/// The directory the library works under: the home directory, or `/` when
/// there is none.
pub open spec fn base_dir(home: Option<Seq<char>>) -> Seq<char> {
    match home {
        Some(h) => h,
        None => seq!['/'],
    }
}

/// Joins a relative or absolute path onto a base path.
pub fn join_path(base: &str, rel: &str) -> (r: String)
    ensures
        r@ == path_join(base@, rel@),
{
    let mut out = owned(base);
    let rel_absolute = rel.unicode_len() > 0 && rel.get_char(0) == '/';
    if rel_absolute {
        return owned(rel);
    }
    let n = base.unicode_len();
    if n > 0 && base.get_char(n - 1) != '/' {
        push_char(&mut out, '/');
    }
    out.append(rel);
    proof {
        if n > 0 {
            assert(base@.last() == base@[n - 1]);
        }
    }
    out
}

/// The user's home directory (`dirs::home_dir`), as text. Depends on the
/// environment; when present it is not empty.
#[verifier::external_body]
fn home_dir() -> (r: Option<String>)
    ensures
        r matches Some(h) ==> h@.len() > 0,
{
    dirs::home_dir().map(|p| p.to_string_lossy().into_owned())
}

/// The home directory, or `/` when there is none.
pub fn base() -> (r: String)
    ensures
        r@.len() > 0,
        exists|h: Option<Seq<char>>| r@ == base_dir(h),
{
    match home_dir() {
        Some(h) => {
            assert(h@ == base_dir(Some(h@)));
            h
        },
        None => {
            let mut s = String::new();
            push_char(&mut s, '/');
            assert(s@ =~= base_dir(None));
            s
        },
    }
}

/// `<base>/.local/share/Steam/steamapps/workshop/content/431960`.
pub fn workshop_dir_in(base: &str) -> (r: String)
    ensures
        r@ == path_join(base@, workshop_rel()),
{
    join_path(base, ".local/share/Steam/steamapps/workshop/content/431960")
}

/// The Steam workshop folder of Wallpaper Engine (app 431960).
pub fn workshop_dir() -> (r: String)
    ensures
        exists|h: Option<Seq<char>>| r@ == path_join(base_dir(h), workshop_rel()),
{
    let b = base();
    workshop_dir_in(b.as_str())
}

/// `<base>/.cache/lwe_index.json`.
pub fn cache_path_in(base: &str) -> (r: String)
    ensures
        r@ == path_join(base@, ".cache/lwe_index.json"@),
{
    join_path(base, ".cache/lwe_index.json")
}

/// The index cache file.
pub fn cache_path() -> (r: String)
    ensures
        exists|h: Option<Seq<char>>| r@ == path_join(base_dir(h), ".cache/lwe_index.json"@),
{
    let b = base();
    cache_path_in(b.as_str())
}

/// `<base>/.cache/lwe_thumbs`.
pub fn thumbs_dir_in(base: &str) -> (r: String)
    ensures
        r@ == path_join(base@, ".cache/lwe_thumbs"@),
{
    join_path(base, ".cache/lwe_thumbs")
}

/// The folder of grid thumbs.
pub fn thumbs_dir() -> (r: String)
    ensures
        exists|h: Option<Seq<char>>| r@ == path_join(base_dir(h), ".cache/lwe_thumbs"@),
{
    let b = base();
    thumbs_dir_in(b.as_str())
}

/// `<base>/.cache/lwe_props`.
pub fn props_dir_in(base: &str) -> (r: String)
    ensures
        r@ == path_join(base@, ".cache/lwe_props"@),
{
    join_path(base, ".cache/lwe_props")
}

/// The folder of saved property overrides.
pub fn props_dir() -> (r: String)
    ensures
        exists|h: Option<Seq<char>>| r@ == path_join(base_dir(h), ".cache/lwe_props"@),
{
    let b = base();
    props_dir_in(b.as_str())
}

/// `<base>/.cache/lwe_settings.json`.
pub fn settings_path_in(base: &str) -> (r: String)
    ensures
        r@ == path_join(base@, ".cache/lwe_settings.json"@),
{
    join_path(base, ".cache/lwe_settings.json")
}

/// The playback settings file.
pub fn settings_path() -> (r: String)
    ensures
        exists|h: Option<Seq<char>>| r@ == path_join(base_dir(h), ".cache/lwe_settings.json"@),
{
    let b = base();
    settings_path_in(b.as_str())
}

/// `<base>/.local/share/Steam/steamapps/common/wallpaper_engine/assets`.
pub fn assets_dir_in(base: &str) -> (r: String)
    ensures
        r@ == path_join(base@, ".local/share/Steam/steamapps/common/wallpaper_engine/assets"@),
{
    join_path(base, ".local/share/Steam/steamapps/common/wallpaper_engine/assets")
}

/// The Wallpaper Engine assets folder the engine is pointed at.
pub fn assets_dir() -> (r: String)
    ensures
        exists|h: Option<Seq<char>>|
            r@ == path_join(base_dir(h), ".local/share/Steam/steamapps/common/wallpaper_engine/assets"@),
{
    let b = base();
    assets_dir_in(b.as_str())
}

/// `<dir>/<name>.<ext>`: a file named after an id inside a folder.
pub fn file_in(dir: &str, name: &str, ext: &str) -> (r: String)
    ensures
        r@ == path_join(dir@, name@ + seq!['.'] + ext@),
{
    let mut f = owned(name);
    push_char(&mut f, '.');
    f.append(ext);
    join_path(dir, f.as_str())
}

/// The saved property overrides of a wallpaper: `<props_dir>/<id>.json`.
pub fn props_path(id: &str) -> (r: String)
    ensures
        exists|h: Option<Seq<char>>|
            r@ == path_join(path_join(base_dir(h), ".cache/lwe_props"@), id@ + ".json"@),
{
    let dir = props_dir();
    proof {
        reveal_strlit("json");
        reveal_strlit(".json");
        assert(seq!['.'] + "json"@ =~= ".json"@);
    }
    let r = file_in(dir.as_str(), id, "json");
    assert(id@ + seq!['.'] + "json"@ =~= id@ + ".json"@);
    r
}

} // verus!
