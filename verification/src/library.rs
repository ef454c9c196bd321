//! The wallpaper library index: the record kept per workshop item, the
//! incremental rescan that merges a new look at the workshop folder into the
//! previous index, and the removal of an item from the index.

use vstd::prelude::*;
use crate::text::{all_digits, all_ascii_digits, seq_lt, seq_le, sorted_texts, text_eq, trimmed,
    trim, owned, push_char, to_lowercase, unicode_lowercase};
use crate::json::{Json, JsonMap, JsonV, obj_lookup, jv_get, jv_as_str, view_items, view_json};
use crate::paths::{path_join, file_in};
use crate::size::{size_text, fmt_size};
use crate::texts::{texts_view, strictly_sorted, contains_text, texts_equal, copy_texts,
    sort_texts, lemma_push_distinct, lemma_sorted_distinct_strict};

verus! {

/// One wallpaper of the library, as stored in the index cache.
pub struct Wallpaper {
    pub id: String,
    pub title: String,
    pub wtype: String,
    pub tags: Vec<String>,
    /// Full workshop preview (detail panel).
    pub preview: String,
    /// Small static JPEG for the grid; empty means "use the preview".
    pub thumb: String,
    pub dir: String,
    /// Bit pattern of the `f64` modification time of `project.json`, in seconds.
    pub mtime_bits: u64,
    pub file: String,
    pub description: String,
    pub size_bytes: u64,
    pub size: String,
    pub audio: bool,
}

/// Mathematical view of a [`Wallpaper`].
pub struct WallpaperView {
    pub id: Seq<char>,
    pub title: Seq<char>,
    pub wtype: Seq<char>,
    pub tags: Seq<Seq<char>>,
    pub preview: Seq<char>,
    pub thumb: Seq<char>,
    pub dir: Seq<char>,
    pub mtime_bits: u64,
    pub file: Seq<char>,
    pub description: Seq<char>,
    pub size_bytes: u64,
    pub size: Seq<char>,
    pub audio: bool,
}

impl Wallpaper {
    pub open spec fn view(&self) -> WallpaperView {
        WallpaperView {
            id: self.id@,
            title: self.title@,
            wtype: self.wtype@,
            tags: texts_view(self.tags@),
            preview: self.preview@,
            thumb: self.thumb@,
            dir: self.dir@,
            mtime_bits: self.mtime_bits,
            file: self.file@,
            description: self.description@,
            size_bytes: self.size_bytes,
            size: self.size@,
            audio: self.audio,
        }
    }

    /// A copy of the record.
    pub fn copy(&self) -> (r: Wallpaper)
        ensures
            r.view() == self.view(),
    {
        Wallpaper {
            id: self.id.clone(),
            title: self.title.clone(),
            wtype: self.wtype.clone(),
            tags: copy_texts(&self.tags),
            preview: self.preview.clone(),
            thumb: self.thumb.clone(),
            dir: self.dir.clone(),
            mtime_bits: self.mtime_bits,
            file: self.file.clone(),
            description: self.description.clone(),
            size_bytes: self.size_bytes,
            size: self.size.clone(),
            audio: self.audio,
        }
    }
}

pub open spec fn items_view(v: Seq<Wallpaper>) -> Seq<WallpaperView> {
    v.map_values(|w: Wallpaper| w.view())
}

pub open spec fn ids_of(v: Seq<WallpaperView>) -> Seq<Seq<char>> {
    v.map_values(|w: WallpaperView| w.id)
}

/// The record that a map keyed by id, filled from `v` in order, holds for
/// `id`: the last record with that id.
pub open spec fn last_with_id(v: Seq<WallpaperView>, id: Seq<char>) -> Option<WallpaperView>
    decreases v.len(),
{
    if v.len() == 0 {
        None
    } else if v.last().id == id {
        Some(v.last())
    } else {
        last_with_id(v.drop_last(), id)
    }
}

/// Whether a freshly parsed record changes what the gallery shows of the old one.
pub open spec fn shown_fields_differ(old: WallpaperView, new: WallpaperView) -> bool {
    old.title != new.title || old.wtype != new.wtype || old.preview != new.preview || old.tags
        != new.tags
}

proof fn lemma_last_with_id_in(v: Seq<WallpaperView>, id: Seq<char>)
    ensures
        last_with_id(v, id) is Some <==> ids_of(v).contains(id),
        last_with_id(v, id) matches Some(w) ==> w.id == id,
    decreases v.len(),
{
    if v.len() > 0 {
        lemma_last_with_id_in(v.drop_last(), id);
        if v.last().id == id {
            assert(ids_of(v)[v.len() - 1] == id);
        } else {
            if ids_of(v.drop_last()).contains(id) {
                let k = choose|k: int| 0 <= k < ids_of(v.drop_last()).len() && ids_of(v.drop_last())[k] == id;
                assert(ids_of(v)[k] == id);
            }
            if ids_of(v).contains(id) {
                let k = choose|k: int| 0 <= k < ids_of(v).len() && ids_of(v)[k] == id;
                assert(k != v.len() - 1);
                assert(ids_of(v.drop_last())[k] == id);
            }
        }
    }
}

/// What the rescan asks of the caller after looking at an unchanged project.
pub enum KeepDecision {
    /// The previous record was kept; `needs_thumb` asks for a grid thumb to be made.
    Kept { needs_thumb: bool },
    /// The project has to be parsed again.
    Reparse,
}

/// The result of a rescan.
pub struct RescanResult {
    pub ok: bool,
    pub items: Vec<Wallpaper>,
    pub added: Vec<String>,
    pub removed: Vec<String>,
    pub updated: Vec<String>,
    pub skipped_incomplete: Vec<String>,
    pub count: usize,
    /// Bit pattern of the `f64` time of the scan, in seconds.
    pub scanned_at_bits: u64,
    pub error: Option<String>,
}

/// Recording a folder's outcome in a list that does not hold it yet.
proof fn lemma_close(list: Seq<Seq<char>>, present: Seq<Seq<char>>, p: Seq<char>)
    requires
        list.no_duplicates(),
        !list.contains(p),
        present.contains(p),
        forall|id: Seq<char>| #[trigger] list.contains(id) ==> present.contains(id),
    ensures
        list.push(p).no_duplicates(),
        forall|id: Seq<char>| #[trigger] list.push(p).contains(id) ==> present.contains(id),
{
    lemma_push_distinct(list, p);
}

/// Keeping a folder's previous record adds that folder's id, once.
proof fn lemma_kept_id(
    prev: Seq<WallpaperView>,
    name: Seq<char>,
    before: Seq<WallpaperView>,
    after: Seq<WallpaperView>,
    present: Seq<Seq<char>>,
)
    requires
        after == match last_with_id(prev, name) {
            Some(w) => before.push(w),
            None => before,
        },
        ids_of(before).no_duplicates(),
        !ids_of(before).contains(name),
        present.contains(name),
        forall|id: Seq<char>| #[trigger] ids_of(before).contains(id) ==> present.contains(id),
    ensures
        ids_of(after).no_duplicates(),
        forall|id: Seq<char>| #[trigger] ids_of(after).contains(id) ==> present.contains(id),
{
    lemma_last_with_id_in(prev, name);
    match last_with_id(prev, name) {
        Some(w) => {
            assert(ids_of(after) =~= ids_of(before).push(name));
            lemma_close(ids_of(before), present, name);
        },
        None => {},
    }
}

/// The state of an incremental rescan of the workshop folder: the previous
/// index, and what has been found so far, directory by directory.
pub struct Rescan {
    pub prev: Vec<Wallpaper>,
    pub present: Vec<String>,
    pub incomplete: Vec<String>,
    pub added: Vec<String>,
    pub updated: Vec<String>,
    pub items: Vec<Wallpaper>,
    /// The folder visited last, until its outcome is recorded.
    pub pending: Ghost<Option<Seq<char>>>,
}

impl Rescan {
    pub open spec fn prev_v(&self) -> Seq<WallpaperView> {
        items_view(self.prev@)
    }

    pub open spec fn items_v(&self) -> Seq<WallpaperView> {
        items_view(self.items@)
    }

    /// The reports agree with the previous index: an added id had no
    /// record, an updated id had one.
    pub open spec fn reports_consistent(&self) -> bool {
        &&& forall|id: Seq<char>|
            #[trigger] texts_view(self.added@).contains(id) ==> !ids_of(self.prev_v()).contains(id)
        &&& forall|id: Seq<char>|
            #[trigger] texts_view(self.updated@).contains(id) ==> ids_of(self.prev_v()).contains(id)
    }

    /// Each folder is visited once and gets at most one outcome: the lists
    /// and the kept records name visited folders, each at most once, and the
    /// folder awaiting its outcome is in none of them yet.
    pub open spec fn well_formed(&self) -> bool {
        let present = texts_view(self.present@);
        let added = texts_view(self.added@);
        let updated = texts_view(self.updated@);
        let incomplete = texts_view(self.incomplete@);
        let ids = ids_of(self.items_v());
        &&& present.no_duplicates()
        &&& added.no_duplicates()
        &&& updated.no_duplicates()
        &&& incomplete.no_duplicates()
        &&& ids.no_duplicates()
        &&& forall|id: Seq<char>| #[trigger] added.contains(id) ==> present.contains(id)
        &&& forall|id: Seq<char>| #[trigger] updated.contains(id) ==> present.contains(id)
        &&& forall|id: Seq<char>| #[trigger] incomplete.contains(id) ==> present.contains(id)
        &&& forall|id: Seq<char>| #[trigger] ids.contains(id) ==> present.contains(id)
        &&& match self.pending@ {
            Some(p) => {
                &&& present.contains(p)
                &&& !added.contains(p)
                &&& !updated.contains(p)
                &&& !incomplete.contains(p)
                &&& !ids.contains(p)
            },
            None => true,
        }
    }

    /// A rescan against the previous index `prev`.
    pub fn new(prev: Vec<Wallpaper>) -> (r: Rescan)
        ensures
            r.well_formed(),
            r.pending@ is None,
            r.prev_v() == items_view(prev@),
            r.present@.len() == 0,
            r.incomplete@.len() == 0,
            r.added@.len() == 0,
            r.updated@.len() == 0,
            r.items@.len() == 0,
            r.reports_consistent(),
    {
        Rescan {
            prev,
            present: Vec::new(),
            incomplete: Vec::new(),
            added: Vec::new(),
            updated: Vec::new(),
            items: Vec::new(),
            pending: Ghost(None),
        }
    }

    /// The previous record for `id` (the last one with that id).
    pub fn previous(&self, id: &str) -> (r: Option<&Wallpaper>)
        ensures
            match r {
                Some(w) => last_with_id(self.prev_v(), id@) == Some(w.view()),
                None => last_with_id(self.prev_v(), id@) is None,
            },
    {
        let mut i = self.prev.len();
        assert(self.prev_v().take(i as int) =~= self.prev_v());
        while i > 0
            invariant
                i <= self.prev@.len(),
                last_with_id(self.prev_v(), id@) == last_with_id(self.prev_v().take(i as int), id@),
            decreases i,
        {
            let ghost t = self.prev_v().take(i as int);
            assert(t.last() == self.prev@[i - 1].view());
            assert(t.drop_last() =~= self.prev_v().take(i - 1));
            if text_eq(self.prev[i - 1].id.as_str(), id) {
                return Some(&self.prev[i - 1]);
            }
            i -= 1;
        }
        None
    }

    /// Registers a workshop directory named `name`, which then awaits its
    /// outcome. Names that are not all digits are not workshop items, and a
    /// folder is taken once; others are ignored (`false`).
    pub fn visit(&mut self, name: &str) -> (accepted: bool)
        requires
            old(self).well_formed(),
        ensures
            accepted == (all_digits(name@) && !texts_view(old(self).present@).contains(name@)),
            final(self).pending@ == if accepted {
                Some(name@)
            } else {
                old(self).pending@
            },
            final(self).well_formed(),
            texts_view(final(self).present@) == if accepted {
                texts_view(old(self).present@).push(name@)
            } else {
                texts_view(old(self).present@)
            },
            final(self).prev == old(self).prev,
            final(self).incomplete == old(self).incomplete,
            final(self).added == old(self).added,
            final(self).updated == old(self).updated,
            final(self).items == old(self).items,
    {
        if all_ascii_digits(name) && !contains_text(&self.present, name) {
            proof {
                crate::texts::lemma_push_view(self.present@);
                lemma_push_distinct(texts_view(self.present@), name@);
            }
            self.present.push(name.to_owned());
            self.pending = Ghost(Some(name@));
            true
        } else {
            false
        }
    }

    /// Records a directory whose `project.json` is missing or unreadable:
    /// it counts as incomplete and its previous record, if any, is kept.
    pub fn missing_project(&mut self, name: &str)
        requires
            old(self).well_formed(),
            old(self).pending@ == Some(name@),
        ensures
            final(self).pending@ is None,
            final(self).well_formed(),
            texts_view(final(self).incomplete@) == texts_view(old(self).incomplete@).push(name@),
            final(self).items_v() == match last_with_id(old(self).prev_v(), name@) {
                Some(w) => old(self).items_v().push(w),
                None => old(self).items_v(),
            },
            final(self).prev == old(self).prev,
            final(self).present == old(self).present,
            final(self).added == old(self).added,
            final(self).updated == old(self).updated,
    {
        proof {
            crate::texts::lemma_push_view(self.incomplete@);
            lemma_close(texts_view(self.incomplete@), texts_view(self.present@), name@);
        }
        self.incomplete.push(name.to_owned());
        self.keep_previous(name);
        proof {
            lemma_kept_id(old(self).prev_v(), name@, old(self).items_v(), self.items_v(),
                texts_view(self.present@));
        }
        self.pending = Ghost(None);
    }

    fn keep_previous(&mut self, name: &str)
        ensures
            final(self).items_v() == match last_with_id(old(self).prev_v(), name@) {
                Some(w) => old(self).items_v().push(w),
                None => old(self).items_v(),
            },
            final(self).prev == old(self).prev,
            final(self).present == old(self).present,
            final(self).incomplete == old(self).incomplete,
            final(self).added == old(self).added,
            final(self).updated == old(self).updated,
            final(self).pending == old(self).pending,
    {
        let kept = match self.previous(name) {
            Some(w) => Some(w.copy()),
            None => None,
        };
        match kept {
            Some(w) => {
                let ghost wv = w.view();
                self.items.push(w);
                assert(self.items_v() =~= old(self).items_v().push(wv));
            },
            None => {},
        }
    }

    /// Looks at a directory whose `project.json` was read; `mtime_close` tells
    /// whether its modification time is within a millisecond of the previous
    /// record's. An unchanged project with a title keeps its previous record.
    pub fn keep_if_unchanged(&mut self, name: &str, mtime_close: bool) -> (r: KeepDecision)
        requires
            old(self).well_formed(),
            old(self).pending@ == Some(name@),
        ensures
            final(self).well_formed(),
            final(self).pending@ == if r is Kept {
                None
            } else {
                old(self).pending@
            },
            match last_with_id(old(self).prev_v(), name@) {
                Some(w) => if mtime_close && w.title.len() > 0 {
                    &&& final(self).items_v() == old(self).items_v().push(w)
                    &&& r == (KeepDecision::Kept {
                        needs_thumb: w.thumb.len() == 0 && w.preview.len() > 0,
                    })
                } else {
                    final(self).items_v() == old(self).items_v() && r == KeepDecision::Reparse
                },
                None => final(self).items_v() == old(self).items_v() && r == KeepDecision::Reparse,
            },
            final(self).prev == old(self).prev,
            final(self).present == old(self).present,
            final(self).incomplete == old(self).incomplete,
            final(self).added == old(self).added,
            final(self).updated == old(self).updated,
    {
        let kept = match self.previous(name) {
            Some(w) => if mtime_close && !w.title.as_str().is_empty() {
                Some(w.copy())
            } else {
                None
            },
            None => None,
        };
        match kept {
            Some(w) => {
                let needs_thumb = w.thumb.as_str().is_empty() && !w.preview.as_str().is_empty();
                let ghost wv = w.view();
                self.items.push(w);
                assert(self.items_v() =~= old(self).items_v().push(wv));
                proof {
                    lemma_kept_id(old(self).prev_v(), name@, old(self).items_v(), self.items_v(),
                        texts_view(self.present@));
                }
                self.pending = Ghost(None);
                KeepDecision::Kept { needs_thumb }
            },
            None => KeepDecision::Reparse,
        }
    }

    /// Sets the grid thumb of the record kept last.
    pub fn set_last_thumb(&mut self, thumb: String)
        requires
            old(self).items@.len() > 0,
            old(self).well_formed(),
        ensures
            final(self).well_formed(),
            final(self).pending == old(self).pending,
            final(self).items_v() == old(self).items_v().update(
                old(self).items@.len() - 1,
                WallpaperView { thumb: thumb@, ..old(self).items_v().last() },
            ),
            final(self).prev == old(self).prev,
            final(self).present == old(self).present,
            final(self).incomplete == old(self).incomplete,
            final(self).added == old(self).added,
            final(self).updated == old(self).updated,
    {
        let n = self.items.len();
        let mut w = self.items.pop().unwrap();
        let ghost tv = thumb@;
        w.thumb = thumb;
        self.items.push(w);
        assert(self.items_v() =~= old(self).items_v().update(
            n - 1,
            WallpaperView { thumb: tv, ..old(self).items_v().last() },
        ));
        assert(ids_of(self.items_v()) =~= ids_of(old(self).items_v()));
    }

    /// Records the outcome of parsing the project of `name`: a new item is
    /// added, a changed one updated; one that cannot be parsed is incomplete
    /// and keeps its previous record.
    pub fn parsed(&mut self, name: &str, parsed: Option<Wallpaper>)
        requires
            old(self).well_formed(),
            old(self).pending@ == Some(name@),
            parsed matches Some(p) ==> p.id@ == name@,
        ensures
            final(self).pending@ is None,
            final(self).well_formed(),
            final(self).prev == old(self).prev,
            final(self).present == old(self).present,
            old(self).reports_consistent() ==> final(self).reports_consistent(),
            parsed matches Some(p) ==> (texts_view(final(self).added@).contains(name@)
                <==> last_with_id(old(self).prev_v(), name@) is None),
            parsed matches Some(p) ==> (texts_view(final(self).updated@).contains(name@) <==> (
            last_with_id(old(self).prev_v(), name@) matches Some(o) && (o.title != p.view().title
                || o.wtype != p.view().wtype || o.preview != p.view().preview || o.tags
                != p.view().tags))),
            match parsed {
                Some(p) => {
                    &&& final(self).items_v() == old(self).items_v().push(p.view())
                    &&& final(self).incomplete == old(self).incomplete
                    &&& texts_view(final(self).added@) == match last_with_id(old(self).prev_v(), name@) {
                        None => texts_view(old(self).added@).push(name@),
                        Some(_) => texts_view(old(self).added@),
                    }
                    &&& texts_view(final(self).updated@) == match last_with_id(old(self).prev_v(), name@) {
                        Some(o) => if shown_fields_differ(o, p.view()) {
                            texts_view(old(self).updated@).push(name@)
                        } else {
                            texts_view(old(self).updated@)
                        },
                        None => texts_view(old(self).updated@),
                    }
                },
                None => {
                    &&& texts_view(final(self).incomplete@) == texts_view(old(self).incomplete@).push(name@)
                    &&& final(self).items_v() == match last_with_id(old(self).prev_v(), name@) {
                        Some(w) => old(self).items_v().push(w),
                        None => old(self).items_v(),
                    }
                    &&& final(self).added == old(self).added
                    &&& final(self).updated == old(self).updated
                },
            },
    {
        match parsed {
            Some(p) => {
                let changed = match self.previous(name) {
                    None => {
                        proof {
                            crate::texts::lemma_push_view(self.added@);
                            lemma_close(texts_view(self.added@), texts_view(self.present@), name@);
                        }
                        self.added.push(name.to_owned());
                        false
                    },
                    Some(o) => !text_eq(o.title.as_str(), p.title.as_str()) || !text_eq(
                        o.wtype.as_str(),
                        p.wtype.as_str(),
                    ) || !text_eq(o.preview.as_str(), p.preview.as_str()) || !texts_equal(
                        &o.tags,
                        &p.tags,
                    ),
                };
                if changed {
                    proof {
                        crate::texts::lemma_push_view(self.updated@);
                        lemma_close(texts_view(self.updated@), texts_view(self.present@), name@);
                    }
                    self.updated.push(name.to_owned());
                }
                let ghost pv = p.view();
                let ghost ids0 = ids_of(self.items_v());
                self.items.push(p);
                assert(self.items_v() =~= old(self).items_v().push(pv));
                proof {
                    assert(ids_of(self.items_v()) =~= ids0.push(name@));
                    lemma_close(ids0, texts_view(self.present@), name@);
                }
                self.pending = Ghost(None);
            },
            None => {
                self.missing_project(name);
            },
        }
        proof {
            lemma_last_with_id_in(old(self).prev_v(), name@);
            let a0 = texts_view(old(self).added@);
            let u0 = texts_view(old(self).updated@);
            crate::texts::lemma_push_contains(a0, name@);
            crate::texts::lemma_push_contains(u0, name@);
            assert forall|id: Seq<char>| #[trigger] a0.push(name@).contains(id) implies (a0.contains(
                id,
            ) || id == name@) by {
                let k = choose|k: int| 0 <= k < a0.push(name@).len() && a0.push(name@)[k] == id;
                if k < a0.len() {
                    assert(a0[k] == id);
                }
            }
            assert forall|id: Seq<char>| #[trigger] u0.push(name@).contains(id) implies (u0.contains(
                id,
            ) || id == name@) by {
                let k = choose|k: int| 0 <= k < u0.push(name@).len() && u0.push(name@)[k] == id;
                if k < u0.len() {
                    assert(u0[k] == id);
                }
            }
        }
    }

    /// The result of the rescan made at time `scanned_at_bits` (the bits of
    /// an `f64` of seconds): the lists sorted, and the ids of the previous
    /// index that were not seen again, each once and in order.
    pub fn finish(self, scanned_at_bits: u64) -> (r: RescanResult)
        requires
            self.well_formed(),
        ensures
            r.ok,
            r.error is None,
            r.scanned_at_bits == scanned_at_bits,
            items_view(r.items@) == self.items_v(),
            r.count == r.items@.len(),
            ids_of(items_view(r.items@)).no_duplicates(),
            strictly_sorted(texts_view(r.added@)),
            texts_view(r.added@).to_multiset() == texts_view(self.added@).to_multiset(),
            strictly_sorted(texts_view(r.updated@)),
            texts_view(r.updated@).to_multiset() == texts_view(self.updated@).to_multiset(),
            strictly_sorted(texts_view(r.skipped_incomplete@)),
            texts_view(r.skipped_incomplete@).to_multiset() == texts_view(
                self.incomplete@,
            ).to_multiset(),
            strictly_sorted(texts_view(r.removed@)),
            forall|id: Seq<char>|
                texts_view(r.removed@).contains(id) <==> (ids_of(self.prev_v()).contains(id)
                    && !texts_view(self.present@).contains(id)),
            self.reports_consistent() ==> forall|id: Seq<char>|
                #[trigger] texts_view(r.added@).contains(id) ==> !ids_of(self.prev_v()).contains(id),
            self.reports_consistent() ==> forall|id: Seq<char>|
                #[trigger] texts_view(r.updated@).contains(id) ==> ids_of(self.prev_v()).contains(id),
    {
        let removed = removed_ids(&self.prev, &self.present);
        let added = sort_texts(self.added);
        let updated = sort_texts(self.updated);
        let incomplete = sort_texts(self.incomplete);
        let count = self.items.len();
        proof {
            lemma_sorted_distinct_strict(texts_view(added@), texts_view(self.added@));
            lemma_sorted_distinct_strict(texts_view(updated@), texts_view(self.updated@));
            lemma_sorted_distinct_strict(texts_view(incomplete@), texts_view(self.incomplete@));
            texts_view(added@).to_multiset_ensures();
            texts_view(self.added@).to_multiset_ensures();
            texts_view(updated@).to_multiset_ensures();
            texts_view(self.updated@).to_multiset_ensures();
            assert forall|id: Seq<char>| #[trigger] texts_view(added@).contains(id) implies texts_view(
                self.added@,
            ).contains(id) by {
                assert(texts_view(added@).to_multiset().count(id) > 0);
                assert(texts_view(self.added@).to_multiset().count(id) > 0);
            }
            assert forall|id: Seq<char>| #[trigger] texts_view(updated@).contains(id) implies texts_view(
                self.updated@,
            ).contains(id) by {
                assert(texts_view(updated@).to_multiset().count(id) > 0);
                assert(texts_view(self.updated@).to_multiset().count(id) > 0);
            }
        }
        RescanResult {
            ok: true,
            items: self.items,
            added,
            removed,
            updated,
            skipped_incomplete: incomplete,
            count,
            scanned_at_bits,
            error: None,
        }
    }
}

/// The ids of `prev` that are not in `present`, ascending, each once.
pub fn removed_ids(prev: &Vec<Wallpaper>, present: &Vec<String>) -> (r: Vec<String>)
    ensures
        strictly_sorted(texts_view(r@)),
        forall|id: Seq<char>|
            texts_view(r@).contains(id) <==> (ids_of(items_view(prev@)).contains(id)
                && !texts_view(present@).contains(id)),
{
    let mut gone: Vec<String> = Vec::new();
    let mut i: usize = 0;
    while i < prev.len()
        invariant
            i <= prev.len(),
            forall|id: Seq<char>|
                texts_view(gone@).contains(id) <==> (ids_of(items_view(prev@)).take(i as int).contains(id)
                    && !texts_view(present@).contains(id)),
        decreases prev.len() - i,
    {
        let ghost before = texts_view(gone@);
        let ghost idv = prev@[i as int].id@;
        let pushed = !contains_text(present, prev[i].id.as_str());
        if pushed {
            proof {
                crate::texts::lemma_push_view(gone@);
            }
            gone.push(prev[i].id.clone());
        }
        proof {
            let ids = ids_of(items_view(prev@));
            let t1 = ids.take(i + 1);
            let t0 = ids.take(i as int);
            let g = texts_view(gone@);
            let pres = texts_view(present@);
            assert(t1 =~= t0.push(idv));
            if pushed {
                assert(g == before.push(idv));
            } else {
                assert(g == before);
            }
            assert forall|id: Seq<char>| g.contains(id) implies t1.contains(id) && !pres.contains(id) by {
                let k = choose|k: int| 0 <= k < g.len() && g[k] == id;
                if k < before.len() {
                    assert(before[k] == id);
                    assert(before.contains(id));
                    let m = choose|m: int| 0 <= m < t0.len() && t0[m] == id;
                    assert(t1[m] == id);
                } else {
                    assert(id == idv);
                    assert(t1[i as int] == id);
                }
            }
            assert forall|id: Seq<char>| t1.contains(id) && !pres.contains(id) implies g.contains(id) by {
                let k = choose|k: int| 0 <= k < t1.len() && t1[k] == id;
                if k < i {
                    assert(t0[k] == id);
                    assert(t0.contains(id));
                    let m = choose|m: int| 0 <= m < before.len() && before[m] == id;
                    assert(g[m] == id);
                } else {
                    assert(id == idv);
                    assert(g[g.len() - 1] == id);
                }
            }
        }
        i += 1;
    }
    proof {
        let ids = ids_of(items_view(prev@));
        assert(ids.take(prev@.len() as int) =~= ids);
    }
    let sorted = sort_texts(gone);
    proof {
        assert forall|id: Seq<char>| texts_view(sorted@).contains(id) <==> texts_view(gone@).contains(id) by {
            vstd::seq_lib::to_multiset_contains(texts_view(sorted@), id);
            vstd::seq_lib::to_multiset_contains(texts_view(gone@), id);
        }
    }
    dedup_sorted(sorted)
}

/// Drops repeated texts from an ascending list.
fn dedup_sorted(v: Vec<String>) -> (r: Vec<String>)
    requires
        sorted_texts(texts_view(v@)),
    ensures
        strictly_sorted(texts_view(r@)),
        forall|id: Seq<char>| texts_view(r@).contains(id) <==> texts_view(v@).contains(id),
{
    let mut out: Vec<String> = Vec::new();
    let mut i: usize = 0;
    while i < v.len()
        invariant
            i <= v.len(),
            sorted_texts(texts_view(v@)),
            strictly_sorted(texts_view(out@)),
            out@.len() > 0 ==> i > 0 && out@.last()@ == v@[i - 1]@,
            out@.len() == 0 ==> i == 0,
            forall|id: Seq<char>|
                texts_view(out@).contains(id) <==> texts_view(v@).take(i as int).contains(id),
        decreases v.len() - i,
    {
        let ghost before = texts_view(out@);
        let ghost vi = v@[i as int]@;
        assert(forall|id: Seq<char>| before.contains(id) <==> texts_view(v@).take(i as int).contains(id));
        let skip = out.len() > 0 && text_eq(out[out.len() - 1].as_str(), v[i].as_str());
        if !skip {
            proof {
                crate::texts::lemma_push_view(out@);
                if before.len() > 0 {
                    assert(seq_le(texts_view(v@)[i - 1], texts_view(v@)[i as int]));
                    assert(before.last() == texts_view(v@)[i - 1]);
                    assert(seq_lt(before.last(), vi));
                    assert forall|a: int| 0 <= a < before.len() - 1 implies seq_lt(
                        #[trigger] before[a],
                        vi,
                    ) by {
                        assert(seq_lt(before[a], before.last()));
                        crate::text::lemma_seq_lt_transitive(before[a], before.last(), vi);
                    }
                }
            }
            out.push(v[i].clone());
        }
        proof {
            let t = texts_view(v@);
            let t1 = t.take(i + 1);
            let t0 = t.take(i as int);
            let g = texts_view(out@);
            assert(t1 =~= t0.push(vi));
            if !skip {
                assert(g == before.push(vi));
            } else {
                assert(g == before);
                assert(before[before.len() - 1] == vi);
            }
            assert forall|id: Seq<char>| g.contains(id) implies t1.contains(id) by {
                let k = choose|k: int| 0 <= k < g.len() && g[k] == id;
                if k < before.len() {
                    assert(before[k] == id);
                    assert(before.contains(id));
                    let m = choose|m: int| 0 <= m < t0.len() && t0[m] == id;
                    assert(t1[m] == id);
                } else {
                    assert(t1[i as int] == id);
                }
            }
            assert forall|id: Seq<char>| t1.contains(id) implies g.contains(id) by {
                let k = choose|k: int| 0 <= k < t1.len() && t1[k] == id;
                if k < i {
                    assert(t0[k] == id);
                    assert(t0.contains(id));
                    assert(before.contains(id) <==> t0.contains(id));
                    assert(before.contains(id));
                    let m = choose|m: int| 0 <= m < before.len() && before[m] == id;
                    assert(g[m] == id);
                } else if skip {
                    assert(g[before.len() - 1] == id);
                } else {
                    assert(g[g.len() - 1] == id);
                }
            }
        }
        i += 1;
    }
    assert(texts_view(v@).take(v@.len() as int) =~= texts_view(v@));
    out
}


// ---------------------------------------------------------------------------
// Tags
// ---------------------------------------------------------------------------

/// A tag from a text: the trimmed text, unless that is empty.
pub open spec fn text_tag(s: Seq<char>) -> Option<Seq<char>> {
    if trimmed(s).len() > 0 {
        Some(trimmed(s))
    } else {
        None
    }
}

/// A tag from an object member, if it is a text with a non-blank tag.
pub open spec fn member_tag(v: Option<JsonV>) -> Option<Seq<char>> {
    match v {
        Some(JsonV::Str(s)) => text_tag(s),
        _ => None,
    }
}

/// A tag object yields the first non-blank of `label`, `value`, `category`, `name`.
pub open spec fn object_tag(es: Seq<(Seq<char>, JsonV)>) -> Option<Seq<char>> {
    if member_tag(obj_lookup(es, "label"@)) is Some {
        member_tag(obj_lookup(es, "label"@))
    } else if member_tag(obj_lookup(es, "value"@)) is Some {
        member_tag(obj_lookup(es, "value"@))
    } else if member_tag(obj_lookup(es, "category"@)) is Some {
        member_tag(obj_lookup(es, "category"@))
    } else {
        member_tag(obj_lookup(es, "name"@))
    }
}

pub open spec fn item_tag(j: JsonV) -> Option<Seq<char>> {
    match j {
        JsonV::Str(s) => text_tag(s),
        JsonV::Obj(es) => object_tag(es),
        _ => None,
    }
}

/// The tags found in the items of a tag list, in order.
pub open spec fn item_tags(items: Seq<JsonV>) -> Seq<Seq<char>>
    decreases items.len(),
{
    if items.len() == 0 {
        Seq::empty()
    } else {
        match item_tag(items.last()) {
            Some(t) => item_tags(items.drop_last()).push(t),
            None => item_tags(items.drop_last()),
        }
    }
}

/// The tags of a `tags` field: a single text, or a list of texts and tag objects.
pub open spec fn normalized_tags(j: JsonV) -> Seq<Seq<char>> {
    match j {
        JsonV::Str(s) => match text_tag(s) {
            Some(t) => seq![t],
            None => Seq::empty(),
        },
        JsonV::Arr(items) => item_tags(items),
        _ => Seq::empty(),
    }
}

fn text_tag_of(s: &str) -> (r: Option<String>)
    ensures
        match r {
            Some(t) => text_tag(s@) == Some(t@),
            None => text_tag(s@) is None,
        },
{
    let t = trim(s);
    if t.as_str().is_empty() {
        None
    } else {
        Some(t)
    }
}

fn member_tag_of(v: Option<&Json>) -> (r: Option<String>)
    ensures
        match r {
            Some(t) => member_tag(match v { Some(j) => Some(j.view()), None => None }) == Some(t@),
            None => member_tag(match v { Some(j) => Some(j.view()), None => None }) is None,
        },
{
    match v {
        Some(Json::Str(s)) => text_tag_of(s.as_str()),
        _ => None,
    }
}

fn object_tag_of(m: &JsonMap) -> (r: Option<String>)
    ensures
        match r {
            Some(t) => object_tag(m.view()) == Some(t@),
            None => object_tag(m.view()) is None,
        },
{
    let a = member_tag_of(m.get("label"));
    if a.is_some() {
        return a;
    }
    let b = member_tag_of(m.get("value"));
    if b.is_some() {
        return b;
    }
    let c = member_tag_of(m.get("category"));
    if c.is_some() {
        return c;
    }
    member_tag_of(m.get("name"))
}

/// The tags of a workshop project's `tags` field.
pub fn normalize_tags(tags: &Json) -> (r: Vec<String>)
    ensures
        texts_view(r@) == normalized_tags(tags.view()),
{
    match tags {
        Json::Str(s) => {
            let mut out: Vec<String> = Vec::new();
            match text_tag_of(s.as_str()) {
                Some(t) => {
                    let ghost tv = t@;
                    out.push(t);
                    assert(texts_view(out@) =~= seq![tv]);
                },
                None => {
                    assert(texts_view(out@) =~= Seq::<Seq<char>>::empty());
                },
            }
            out
        },
        Json::Array(items) => {
            let mut out: Vec<String> = Vec::new();
            let mut i: usize = 0;
            proof {
                crate::json::lemma_view_items(items@);
            }
            assert(view_items(items@).take(0) =~= Seq::<JsonV>::empty());
            assert(texts_view(out@) =~= Seq::<Seq<char>>::empty());
            while i < items.len()
                invariant
                    i <= items.len(),
                    view_items(items@).len() == items@.len(),
                    forall|k: int| 0 <= k < items@.len() ==> #[trigger] view_items(items@)[k] == view_json(items@[k]),
                    texts_view(out@) == item_tags(view_items(items@).take(i as int)),
                decreases items.len() - i,
            {
                let ghost pre = view_items(items@).take(i as int);
                let ghost cur = view_items(items@).take(i + 1);
                assert(cur.drop_last() =~= pre);
                assert(cur.last() == items@[i as int].view());
                let found = match &items[i] {
                    Json::Str(s) => text_tag_of(s.as_str()),
                    Json::Object(m) => object_tag_of(m),
                    _ => None,
                };
                match found {
                    Some(t) => {
                        proof {
                            crate::texts::lemma_push_view(out@);
                        }
                        out.push(t);
                    },
                    None => {},
                }
                i += 1;
            }
            assert(view_items(items@).take(items@.len() as int) =~= view_items(items@));
            out
        },
        _ => {
            let out: Vec<String> = Vec::new();
            assert(texts_view(out@) =~= Seq::<Seq<char>>::empty());
            out
        },
    }
}

// ---------------------------------------------------------------------------
// Projects
// ---------------------------------------------------------------------------

/// The smallest `project.json` that counts as a finished download, in bytes.
pub const MIN_PROJECT_BYTES: u64 = 64;

/// What the index takes from a workshop item's `project.json`.
pub struct ProjectSummary {
    pub id: String,
    pub title: String,
    /// The trimmed, lowercased `type` (`?` when absent); may be empty.
    pub wtype: String,
    pub file: String,
    pub description: String,
    pub tags: Vec<String>,
}

pub open spec fn str_field(data: JsonV, key: Seq<char>) -> Option<Seq<char>> {
    match jv_get(data, key) {
        Some(v) => jv_as_str(v),
        None => None,
    }
}

pub open spec fn project_wtype(data: JsonV) -> Seq<char> {
    unicode_lowercase(trimmed(
        match str_field(data, "type"@) {
            Some(t) => t,
            None => "?"@,
        },
    ))
}

pub open spec fn project_title(name: Seq<char>, data: JsonV) -> Seq<char> {
    match str_field(data, "title"@) {
        Some(t) => if trimmed(t).len() > 0 {
            trimmed(t)
        } else {
            name
        },
        None => name,
    }
}

pub open spec fn project_file(data: JsonV) -> Seq<char> {
    match str_field(data, "file"@) {
        Some(f) => f,
        None => Seq::empty(),
    }
}

pub open spec fn project_description(data: JsonV) -> Seq<char> {
    match str_field(data, "description"@) {
        Some(d) => trimmed(d),
        None => Seq::empty(),
    }
}

pub open spec fn project_tags(data: JsonV) -> Seq<Seq<char>> {
    match jv_get(data, "tags"@) {
        Some(t) => normalized_tags(t),
        None => Seq::empty(),
    }
}

/// A project that is still downloading: no type and no file yet.
pub open spec fn is_stub(data: JsonV) -> bool {
    (project_wtype(data).len() == 0 || project_wtype(data) == "?"@) && project_file(data).len() == 0
}

/// Whether a workshop folder holds a usable project.
pub open spec fn project_usable(name: Seq<char>, project_len: u64, data: JsonV) -> bool {
    &&& all_digits(name)
    &&& project_len >= MIN_PROJECT_BYTES
    &&& data is Obj
    &&& !is_stub(data)
}

fn str_field_of<'a>(data: &'a Json, key: &str) -> (r: Option<&'a str>)
    ensures
        match r {
            Some(s) => str_field(data.view(), key@) == Some(s@),
            None => str_field(data.view(), key@) is None,
        },
{
    match data.get(key) {
        Some(v) => v.as_str(),
        None => None,
    }
}

/// Reads the summary of the project of workshop folder `name`, whose
/// `project.json` has `project_len` bytes and holds `data`; `None` for a
/// folder that is not a finished workshop item.
pub fn project_summary(name: &str, project_len: u64, data: &Json) -> (r: Option<ProjectSummary>)
    ensures
        r is Some <==> project_usable(name@, project_len, data.view()),
        r matches Some(p) ==> {
            &&& p.id@ == name@
            &&& p.title@ == project_title(name@, data.view())
            &&& p.wtype@ == project_wtype(data.view())
            &&& p.file@ == project_file(data.view())
            &&& p.description@ == project_description(data.view())
            &&& texts_view(p.tags@) == project_tags(data.view())
        },
{
    if !all_ascii_digits(name) || project_len < MIN_PROJECT_BYTES || data.as_object().is_none() {
        return None;
    }
    let wtype_raw = match str_field_of(data, "type") {
        Some(t) => owned(t),
        None => {
            let q = owned("?");
            q
        },
    };
    let wtype = to_lowercase(trim(wtype_raw.as_str()).as_str());
    let title = match str_field_of(data, "title") {
        Some(t) => {
            let tt = trim(t);
            if tt.as_str().is_empty() {
                owned(name)
            } else {
                tt
            }
        },
        None => owned(name),
    };
    let file = match str_field_of(data, "file") {
        Some(f) => owned(f),
        None => String::new(),
    };
    let stub = (wtype.as_str().is_empty() || text_eq(wtype.as_str(), "?")) && file.as_str().is_empty();
    if stub {
        return None;
    }
    let description = match str_field_of(data, "description") {
        Some(d) => trim(d),
        None => String::new(),
    };
    let tags = match data.get("tags") {
        Some(t) => normalize_tags(t),
        None => {
            let v: Vec<String> = Vec::new();
            assert(texts_view(v@) =~= Seq::<Seq<char>>::empty());
            v
        },
    };
    Some(ProjectSummary { id: owned(name), title, wtype, file, description, tags })
}

/// The file extensions that mark a wallpaper with sound.
pub open spec fn is_audio_ext(e: Seq<char>) -> bool {
    e == ".mp3"@ || e == ".ogg"@ || e == ".wav"@ || e == ".flac"@ || e == ".m4a"@ || e == ".opus"@
        || e == ".aac"@
}

/// What `Path::extension` returns for a path: the part of the file name
/// after its last dot.
pub uninterp spec fn std_path_extension(p: Seq<char>) -> Option<Seq<char>>;

/// `Path::extension`, as text.
#[verifier::external_body]
fn path_extension(p: &str) -> (r: Option<String>)
    ensures
        match r {
            Some(e) => std_path_extension(p@) == Some(e@),
            None => std_path_extension(p@) is None,
        },
{
    std::path::Path::new(p).extension().map(|e| e.to_string_lossy().into_owned())
}

/// Whether a path names an audio file: its extension, lowercased, is one of
/// the audio extensions.
pub open spec fn audio_path(p: Seq<char>) -> bool {
    match std_path_extension(p) {
        Some(e) => is_audio_ext(seq!['.'] + unicode_lowercase(e)),
        None => false,
    }
}

fn is_audio_ext_text(e: &str) -> (r: bool)
    ensures
        r == is_audio_ext(e@),
{
    text_eq(e, ".mp3") || text_eq(e, ".ogg") || text_eq(e, ".wav") || text_eq(e, ".flac")
        || text_eq(e, ".m4a") || text_eq(e, ".opus") || text_eq(e, ".aac")
}

/// Whether the file at path `p` is an audio file.
pub fn is_audio_path(p: &str) -> (r: bool)
    ensures
        r == audio_path(p@),
{
    match path_extension(p) {
        Some(e) => {
            let lower = to_lowercase(e.as_str());
            let mut dotted = String::new();
            push_char(&mut dotted, '.');
            dotted.append(lower.as_str());
            assert(dotted@ =~= seq!['.'] + unicode_lowercase(e@));
            is_audio_ext_text(dotted.as_str())
        },
        None => false,
    }
}

/// Running totals of a walk over a wallpaper folder.
pub struct DirStats {
    /// Total size of the files, saturating at `u64::MAX`.
    pub total: u64,
    /// Whether the wallpaper has sound.
    pub audio: bool,
}

/// The totals before the walk: a video always has sound; otherwise the
/// project's main file decides first.
pub fn dir_stats_start(wtype: &str, file_field: &str) -> (r: DirStats)
    ensures
        r.total == 0,
        r.audio == (wtype@ == "video"@ || (file_field@.len() > 0 && audio_path(file_field@))),
{
    if text_eq(wtype, "video") {
        return DirStats { total: 0, audio: true };
    }
    let audio = !file_field.is_empty() && is_audio_path(file_field);
    DirStats { total: 0, audio }
}

impl DirStats {
    /// Adds one file found by the walk: its size, when it could be read, and
    /// its path, when it is text.
    pub fn add_file(&mut self, len: Option<u64>, path: Option<&str>)
        ensures
            final(self).total == match len {
                Some(l) => if old(self).total + l > u64::MAX {
                    u64::MAX
                } else {
                    (old(self).total + l) as u64
                },
                None => old(self).total,
            },
            final(self).audio == (old(self).audio || match path {
                Some(p) => audio_path(p@),
                None => false,
            }),
    {
        match len {
            Some(l) => {
                self.total = self.total.saturating_add(l);
            },
            None => {},
        }
        if !self.audio {
            match path {
                Some(p) => {
                    self.audio = is_audio_path(p);
                },
                None => {},
            }
        }
    }
}

/// Builds the index record of a usable project from what the walk, the
/// preview search and the thumb maker found.
pub fn wallpaper_from(
    summary: ProjectSummary,
    size_bytes: u64,
    audio: bool,
    dir: String,
    preview: String,
    thumb: String,
    mtime_bits: u64,
) -> (r: Wallpaper)
    ensures
        r.id@ == summary.id@,
        r.title@ == summary.title@,
        r.wtype@ == if summary.wtype@.len() == 0 { "?"@ } else { summary.wtype@ },
        texts_view(r.tags@) == texts_view(summary.tags@),
        r.preview@ == preview@,
        r.thumb@ == thumb@,
        r.dir@ == dir@,
        r.mtime_bits == mtime_bits,
        r.file@ == summary.file@,
        r.description@ == summary.description@,
        r.size_bytes == size_bytes,
        r.size@ == size_text(size_bytes as nat),
        r.audio == audio,
{
    let wtype = if summary.wtype.as_str().is_empty() {
        owned("?")
    } else {
        summary.wtype
    };
    Wallpaper {
        id: summary.id,
        title: summary.title,
        wtype,
        tags: summary.tags,
        preview,
        thumb,
        dir,
        mtime_bits,
        file: summary.file,
        description: summary.description,
        size_bytes,
        size: fmt_size(size_bytes),
        audio,
    }
}

/// The files tried, in order, as a project's preview image: the project's
/// own `preview` first, then the usual names.
pub fn preview_candidates(data: &Json) -> (r: Vec<String>)
    ensures
        texts_view(r@) == match str_field(data.view(), "preview"@) {
            Some(p) => seq![p] + preview_names(),
            None => preview_names(),
        },
{
    let mut out: Vec<String> = Vec::new();
    match str_field_of(data, "preview") {
        Some(p) => out.push(owned(p)),
        None => {},
    }
    out.push(owned("preview.jpg"));
    out.push(owned("preview.jpeg"));
    out.push(owned("preview.png"));
    out.push(owned("preview.gif"));
    out.push(owned("preview.webp"));
    assert(texts_view(out@) =~= match str_field(data.view(), "preview"@) {
        Some(p) => seq![p] + preview_names(),
        None => preview_names(),
    });
    out
}

pub open spec fn preview_names() -> Seq<Seq<char>> {
    seq!["preview.jpg"@, "preview.jpeg"@, "preview.png"@, "preview.gif"@, "preview.webp"@]
}

// ---------------------------------------------------------------------------
// Grid thumbs
// ---------------------------------------------------------------------------

/// A thumb is made only for an item with an id and a preview.
pub fn thumb_wanted(id: &str, preview: &str) -> (r: bool)
    ensures
        r == (id@.len() > 0 && preview@.len() > 0),
{
    !id.is_empty() && !preview.is_empty()
}

/// An existing thumb is reused when it is not empty and not older than the
/// preview (`out_not_older` is `None` when a modification time is unknown).
pub fn thumb_reusable(out_len: u64, out_not_older: Option<bool>) -> (r: bool)
    ensures
        r == (out_len > 0 && out_not_older != Some(false)),
{
    out_len > 0 && match out_not_older {
        Some(b) => b,
        None => true,
    }
}

/// The arguments of the image converter that writes a thumb: the first
/// frame, oriented, shrunk to fit 384x384, stripped, at quality 78.
pub fn thumb_command_args(preview: &str, out: &str) -> (r: Vec<String>)
    ensures
        texts_view(r@) == seq![preview@ + "[0]"@, "-auto-orient"@, "-resize"@, "384x384>"@,
            "-strip"@, "-quality"@, "78"@, out@],
{
    let mut frame = owned(preview);
    frame.append("[0]");
    let mut v: Vec<String> = Vec::new();
    v.push(frame);
    v.push(owned("-auto-orient"));
    v.push(owned("-resize"));
    v.push(owned("384x384>"));
    v.push(owned("-strip"));
    v.push(owned("-quality"));
    v.push(owned("78"));
    v.push(owned(out));
    assert(texts_view(v@) =~= seq![preview@ + "[0]"@, "-auto-orient"@, "-resize"@, "384x384>"@,
        "-strip"@, "-quality"@, "78"@, out@]);
    v
}

/// The thumb file of an item: `<thumbs_dir>/<id>.jpg`.
pub fn thumb_path_in(thumbs_dir: &str, id: &str) -> (r: String)
    ensures
        r@ == path_join(thumbs_dir@, id@ + seq!['.'] + "jpg"@),
{
    file_in(thumbs_dir, id, "jpg")
}

// ---------------------------------------------------------------------------
// Removal
// ---------------------------------------------------------------------------

/// The result of removing an item from the local library.
pub struct RemoveLocalResult {
    pub id: String,
    pub disk_deleted: bool,
    pub cache_removed: bool,
    pub count: usize,
}

/// A workshop id names a folder to delete only if it is a non-empty run of digits.
pub fn check_workshop_id(id: &str) -> (r: Result<(), String>)
    ensures
        r is Err <==> (id@.len() == 0 || !all_digits(id@)),
        r matches Err(e) ==> e@ == "invalid workshop id"@,
{
    if id.is_empty() || !all_ascii_digits(id) {
        Err(owned("invalid workshop id"))
    } else {
        Ok(())
    }
}

/// Drops every record of `id` from the index; tells whether one was dropped.
pub fn remove_from_index(items: &mut Vec<Wallpaper>, id: &str) -> (removed: bool)
    ensures
        items_view(final(items)@) == items_view(old(items)@).filter(|w: WallpaperView| w.id != id@),
        removed == (final(items)@.len() != old(items)@.len()),
{
    let ghost f = |w: WallpaperView| w.id != id@;
    let ghost orig = items_view(items@);
    let before = items.len();
    let mut kept: Vec<Wallpaper> = Vec::new();
    let mut i: usize = 0;
    assert(orig.take(0).filter(f) =~= Seq::<WallpaperView>::empty()) by {
        reveal(Seq::filter);
    }
    while i < items.len()
        invariant
            i <= items.len(),
            orig == items_view(items@),
            f == (|w: WallpaperView| w.id != id@),
            items_view(kept@) == orig.take(i as int).filter(f),
        decreases items.len() - i,
    {
        proof {
            assert(orig.take(i + 1) =~= orig.take(i as int).push(orig[i as int]));
            orig.take(i as int).lemma_filter_push(orig[i as int], f);
        }
        if !text_eq(items[i].id.as_str(), id) {
            let ghost before_kept = items_view(kept@);
            let w = items[i].copy();
            kept.push(w);
            assert(items_view(kept@) =~= before_kept.push(orig[i as int]));
        }
        i += 1;
    }
    assert(orig.take(orig.len() as int) =~= orig);
    *items = kept;
    items.len() != before
}

/// What `Path::starts_with` returns: whether the leading components of the
/// first path are those of the second.
pub uninterp spec fn std_path_starts_with(p: Seq<char>, base: Seq<char>) -> bool;

/// What `==` on two paths returns: whether their components are equal.
pub uninterp spec fn std_path_eq(a: Seq<char>, b: Seq<char>) -> bool;

/// `Path::starts_with`.
#[verifier::external_body]
fn path_starts_with(p: &str, base: &str) -> (r: bool)
    ensures
        r == std_path_starts_with(p@, base@),
{
    std::path::Path::new(p).starts_with(base)
}

/// `==` on two paths.
#[verifier::external_body]
fn path_eq(a: &str, b: &str) -> (r: bool)
    ensures
        r == std_path_eq(a@, b@),
{
    std::path::Path::new(a) == std::path::Path::new(b)
}

/// Deleting a wallpaper folder is allowed only for a folder inside the
/// workshop folder and not the workshop folder itself (both resolved).
pub fn delete_guard(workshop_abs: &str, item_abs: &str) -> (r: Result<(), String>)
    ensures
        !std_path_starts_with(item_abs@, workshop_abs@) ==> (r matches Err(e)
            && e@ == "refusing to delete path outside workshop content"@),
        std_path_starts_with(item_abs@, workshop_abs@) && std_path_eq(item_abs@, workshop_abs@)
            ==> (r matches Err(e) && e@ == "refusing to delete workshop root"@),
        r is Ok <==> (std_path_starts_with(item_abs@, workshop_abs@) && !std_path_eq(
            item_abs@,
            workshop_abs@,
        )),
{
    if !path_starts_with(item_abs, workshop_abs) {
        return Err(owned("refusing to delete path outside workshop content"));
    }
    if path_eq(item_abs, workshop_abs) {
        return Err(owned("refusing to delete workshop root"));
    }
    Ok(())
}

/// Drops `id` from the index after its folder was handled, and reports what
/// happened.
pub fn removal_result(id: &str, disk_deleted: bool, items: &mut Vec<Wallpaper>) -> (r:
    RemoveLocalResult)
    ensures
        items_view(final(items)@) == items_view(old(items)@).filter(|w: WallpaperView| w.id != id@),
        r.id@ == id@,
        r.disk_deleted == disk_deleted,
        r.cache_removed == (final(items)@.len() != old(items)@.len()),
        r.count == final(items)@.len(),
{
    let cache_removed = remove_from_index(items, id);
    RemoveLocalResult { id: owned(id), disk_deleted, cache_removed, count: items.len() }
}

/// A reparsed item is reported as updated exactly when its title, type,
/// preview or tags differ from the previous record's.
pub proof fn law_update_fields(o: WallpaperView, p: WallpaperView)
    ensures
        shown_fields_differ(o, p) <==> (o.title != p.title || o.wtype != p.wtype || o.preview
            != p.preview || o.tags != p.tags),
{
}

/// A path names an audio file exactly when it has an extension whose
/// lowercase is `mp3`, `ogg`, `wav`, `flac`, `m4a`, `opus` or `aac`.
pub proof fn law_audio_extensions(p: Seq<char>)
    ensures
        audio_path(p) <==> (std_path_extension(p) matches Some(e) && {
            let l = unicode_lowercase(e);
            l == "mp3"@ || l == "ogg"@ || l == "wav"@ || l == "flac"@ || l == "m4a"@ || l
                == "opus"@ || l == "aac"@
        }),
{
    reveal_strlit("mp3");
    reveal_strlit("ogg");
    reveal_strlit("wav");
    reveal_strlit("flac");
    reveal_strlit("m4a");
    reveal_strlit("opus");
    reveal_strlit("aac");
    reveal_strlit(".mp3");
    reveal_strlit(".ogg");
    reveal_strlit(".wav");
    reveal_strlit(".flac");
    reveal_strlit(".m4a");
    reveal_strlit(".opus");
    reveal_strlit(".aac");
    match std_path_extension(p) {
        Some(e) => {
            let l = unicode_lowercase(e);
            let d = seq!['.'] + l;
            assert(d.drop_first() =~= l);
            assert(seq!['.'] + "mp3"@ =~= ".mp3"@);
            assert(seq!['.'] + "ogg"@ =~= ".ogg"@);
            assert(seq!['.'] + "wav"@ =~= ".wav"@);
            assert(seq!['.'] + "flac"@ =~= ".flac"@);
            assert(seq!['.'] + "m4a"@ =~= ".m4a"@);
            assert(seq!['.'] + "opus"@ =~= ".opus"@);
            assert(seq!['.'] + "aac"@ =~= ".aac"@);
            assert(".mp3"@.drop_first() =~= "mp3"@);
            assert(".ogg"@.drop_first() =~= "ogg"@);
            assert(".wav"@.drop_first() =~= "wav"@);
            assert(".flac"@.drop_first() =~= "flac"@);
            assert(".m4a"@.drop_first() =~= "m4a"@);
            assert(".opus"@.drop_first() =~= "opus"@);
            assert(".aac"@.drop_first() =~= "aac"@);
        },
        None => {},
    }
}

/// What the index takes from a project file: a folder is used when its name
/// is all digits, its `project.json` has at least 64 bytes and holds an
/// object, and that object has a `file` or a type other than blank or `?`;
/// the type is the trimmed, lowercased `type` (`?` when missing), the title
/// the trimmed `title` (the folder name when missing or blank), the file the
/// `file` member (empty when missing), and the description the trimmed
/// `description` (empty when missing).
pub proof fn law_project_fields(name: Seq<char>, project_len: u64, data: JsonV)
    ensures
        ({
            let text = |k: Seq<char>|
                match jv_get(data, k) {
                    Some(JsonV::Str(t)) => Some(t),
                    _ => None,
                };
            let wtype = unicode_lowercase(
                trimmed(
                    match text("type"@) {
                        Some(t) => t,
                        None => "?"@,
                    },
                ),
            );
            let file = match text("file"@) {
                Some(f) => f,
                None => Seq::empty(),
            };
            &&& project_wtype(data) == wtype
            &&& project_file(data) == file
            &&& project_title(name, data) == match text("title"@) {
                Some(t) => if trimmed(t).len() > 0 {
                    trimmed(t)
                } else {
                    name
                },
                None => name,
            }
            &&& project_description(data) == match text("description"@) {
                Some(d) => trimmed(d),
                None => Seq::empty(),
            }
            &&& project_usable(name, project_len, data) <==> (all_digits(name) && project_len >= 64
                && data is Obj && !((wtype.len() == 0 || wtype == "?"@) && file.len() == 0))
        }),
{
}

/// The tag rules: a text tag is its trimmed text, dropped when blank; a tag
/// object gives the first non-blank of `label`, `value`, `category`, `name`
/// (trimmed); other items give nothing; a single text stands for a list of
/// one, and anything else but a list gives no tags.
pub proof fn law_tag_rules(j: JsonV)
    ensures
        ({
            let pick = |t: Option<JsonV>|
                match t {
                    Some(JsonV::Str(x)) => if trimmed(x).len() > 0 {
                        Some(trimmed(x))
                    } else {
                        None
                    },
                    _ => None,
                };
            &&& match j {
                JsonV::Str(t) => item_tag(j) == pick(Some(j)),
                JsonV::Obj(es) => item_tag(j) == if pick(obj_lookup(es, "label"@)) is Some {
                    pick(obj_lookup(es, "label"@))
                } else if pick(obj_lookup(es, "value"@)) is Some {
                    pick(obj_lookup(es, "value"@))
                } else if pick(obj_lookup(es, "category"@)) is Some {
                    pick(obj_lookup(es, "category"@))
                } else {
                    pick(obj_lookup(es, "name"@))
                },
                _ => item_tag(j) is None,
            }
            &&& match j {
                JsonV::Str(t) => normalized_tags(j) == match pick(Some(j)) {
                    Some(x) => seq![x],
                    None => Seq::empty(),
                },
                JsonV::Arr(items) => normalized_tags(j) == item_tags(items),
                _ => normalized_tags(j) == Seq::<Seq<char>>::empty(),
            }
        }),
{
}

} // verus!
