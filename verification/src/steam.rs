//! Browsing the Steam Workshop: the card shown for a workshop item, its type
//! label, what a search asks Steam for, and the steps of following a
//! download until the item is installed.

use vstd::prelude::*;
use crate::text::{trimmed, trim, owned, text_eq, to_ascii_lowercase, ascii_lowercase, u64_to_text,
    decimal};
use crate::texts::{texts_view, copy_texts};
use crate::size::{size_text, fmt_size};

verus! {

/// Wallpaper Engine's Steam app id, the consumer app of its workshop items.
pub const WP_APP_ID: u32 = 431960;

/// The kinds of workshop file Steam knows.
#[derive(Clone, Copy, Debug)]
pub enum FileKind {
    Community,
    Microtransaction,
    Collection,
    Art,
    Video,
    Screenshot,
    Game,
    Software,
    Concept,
    WebGuide,
    IntegratedGuide,
    Merch,
    ControllerBinding,
    SteamworksAccessInvite,
    SteamVideo,
    GameManagedItem,
    Clip,
}

/// What a workshop query returns for one item: the fields the cards use.
pub struct UgcResult {
    pub published_file_id: u64,
    pub title: String,
    pub description: String,
    /// The owner's 64-bit Steam id.
    pub owner: u64,
    pub time_created: u32,
    pub time_updated: u32,
    pub tags: Vec<String>,
    pub file_name: String,
    pub file_type: FileKind,
    pub file_size: u32,
    pub url: String,
    pub num_upvotes: u32,
    pub num_downvotes: u32,
    /// Bit pattern of the `f32` score (the bayesian average of up votes).
    pub score_bits: u32,
}

/// A workshop item as the gallery shows it; the fields match the library's
/// wallpaper records, and `dir` is filled only once the item is installed.
pub struct WorkshopItem {
    pub id: String,
    pub title: String,
    pub wtype: String,
    pub tags: Vec<String>,
    pub preview: String,
    pub thumb: String,
    pub dir: String,
    pub size_bytes: u64,
    pub size: String,
    pub description: String,
    pub author: String,
    pub file_name: String,
    pub file_size: u64,
    pub upvotes: u32,
    pub downvotes: u32,
    /// Bit pattern of the `f32` score.
    pub score_bits: u32,
    pub time_created: u32,
    pub time_updated: u32,
    pub url: String,
    pub subscribed: bool,
    pub installed: bool,
}

pub struct UgcView {
    pub published_file_id: u64,
    pub title: Seq<char>,
    pub description: Seq<char>,
    pub owner: u64,
    pub time_created: u32,
    pub time_updated: u32,
    pub tags: Seq<Seq<char>>,
    pub file_name: Seq<char>,
    pub file_type: FileKind,
    pub file_size: u32,
    pub url: Seq<char>,
    pub num_upvotes: u32,
    pub num_downvotes: u32,
    pub score_bits: u32,
}

pub struct WorkshopItemView {
    pub id: Seq<char>,
    pub title: Seq<char>,
    pub wtype: Seq<char>,
    pub tags: Seq<Seq<char>>,
    pub preview: Seq<char>,
    pub thumb: Seq<char>,
    pub dir: Seq<char>,
    pub size_bytes: u64,
    pub size: Seq<char>,
    pub description: Seq<char>,
    pub author: Seq<char>,
    pub file_name: Seq<char>,
    pub file_size: u64,
    pub upvotes: u32,
    pub downvotes: u32,
    pub score_bits: u32,
    pub time_created: u32,
    pub time_updated: u32,
    pub url: Seq<char>,
    pub subscribed: bool,
    pub installed: bool,
}

impl UgcResult {
    pub open spec fn view(&self) -> UgcView {
        UgcView {
            published_file_id: self.published_file_id,
            title: self.title@,
            description: self.description@,
            owner: self.owner,
            time_created: self.time_created,
            time_updated: self.time_updated,
            tags: texts_view(self.tags@),
            file_name: self.file_name@,
            file_type: self.file_type,
            file_size: self.file_size,
            url: self.url@,
            num_upvotes: self.num_upvotes,
            num_downvotes: self.num_downvotes,
            score_bits: self.score_bits,
        }
    }
}

impl WorkshopItem {
    pub open spec fn view(&self) -> WorkshopItemView {
        WorkshopItemView {
            id: self.id@,
            title: self.title@,
            wtype: self.wtype@,
            tags: texts_view(self.tags@),
            preview: self.preview@,
            thumb: self.thumb@,
            dir: self.dir@,
            size_bytes: self.size_bytes,
            size: self.size@,
            description: self.description@,
            author: self.author@,
            file_name: self.file_name@,
            file_size: self.file_size,
            upvotes: self.upvotes,
            downvotes: self.downvotes,
            score_bits: self.score_bits,
            time_created: self.time_created,
            time_updated: self.time_updated,
            url: self.url@,
            subscribed: self.subscribed,
            installed: self.installed,
        }
    }
}

// ---------------------------------------------------------------------------
// Type labels
// ---------------------------------------------------------------------------

/// The label shown for a kind of workshop file.
pub open spec fn file_kind_label(k: FileKind) -> Seq<char> {
    match k {
        FileKind::Community => "scene"@,
        FileKind::Video => "video"@,
        FileKind::WebGuide => "web"@,
        FileKind::Collection => "collection"@,
        FileKind::Art => "art"@,
        FileKind::Game => "game"@,
        FileKind::Software => "software"@,
        FileKind::Concept => "concept"@,
        FileKind::Screenshot => "screenshot"@,
        FileKind::IntegratedGuide => "guide"@,
        FileKind::GameManagedItem => "managed"@,
        FileKind::Clip => "clip"@,
        FileKind::SteamVideo => "steam-video"@,
        FileKind::ControllerBinding => "controller"@,
        FileKind::Microtransaction => "mtx"@,
        FileKind::Merch => "merch"@,
        FileKind::SteamworksAccessInvite => "invite"@,
    }
}

/// The label shown for a kind of workshop file.
pub fn file_type_label(ft: &FileKind) -> (r: &'static str)
    ensures
        r@ == file_kind_label(*ft),
{
    match ft {
        FileKind::Community => "scene",
        FileKind::Video => "video",
        FileKind::WebGuide => "web",
        FileKind::Collection => "collection",
        FileKind::Art => "art",
        FileKind::Game => "game",
        FileKind::Software => "software",
        FileKind::Concept => "concept",
        FileKind::Screenshot => "screenshot",
        FileKind::IntegratedGuide => "guide",
        FileKind::GameManagedItem => "managed",
        FileKind::Clip => "clip",
        FileKind::SteamVideo => "steam-video",
        FileKind::ControllerBinding => "controller",
        FileKind::Microtransaction => "mtx",
        FileKind::Merch => "merch",
        FileKind::SteamworksAccessInvite => "invite",
    }
}

/// The wallpaper kinds authors tag their items with.
pub open spec fn known_kind(l: Seq<char>) -> bool {
    l == "scene"@ || l == "video"@ || l == "web"@ || l == "application"@ || l == "collection"@
}

/// The first tag naming a wallpaper kind, lowercased.
pub open spec fn first_kind_tag(tags: Seq<Seq<char>>) -> Option<Seq<char>>
    decreases tags.len(),
{
    if tags.len() == 0 {
        None
    } else if known_kind(ascii_lowercase(tags[0])) {
        Some(ascii_lowercase(tags[0]))
    } else {
        first_kind_tag(tags.drop_first())
    }
}

/// An author tag naming the wallpaper kind wins over the file kind, which
/// is `Community` for almost every Wallpaper Engine item.
pub open spec fn wallpaper_kind(tags: Seq<Seq<char>>, ft: FileKind) -> Seq<char> {
    match first_kind_tag(tags) {
        Some(t) => t,
        None => file_kind_label(ft),
    }
}

proof fn lemma_first_kind_tag(tags: Seq<Seq<char>>, i: int)
    requires
        0 <= i <= tags.len(),
        forall|k: int| 0 <= k < i ==> !known_kind(ascii_lowercase(#[trigger] tags[k])),
    ensures
        i < tags.len() && known_kind(ascii_lowercase(tags[i])) ==> first_kind_tag(tags) == Some(
            ascii_lowercase(tags[i]),
        ),
        i == tags.len() ==> first_kind_tag(tags) is None,
    decreases i,
{
    if i > 0 {
        let t = tags.drop_first();
        assert forall|k: int| 0 <= k < i - 1 implies !known_kind(ascii_lowercase(#[trigger] t[k])) by {
            assert(t[k] == tags[k + 1]);
        }
        assert(!known_kind(ascii_lowercase(tags[0])));
        lemma_first_kind_tag(t, i - 1);
        if i < tags.len() {
            assert(t[i - 1] == tags[i]);
        }
    }
}

/// The type label of a query result.
pub fn wallpaper_type(qr: &UgcResult) -> (r: String)
    ensures
        r@ == wallpaper_kind(qr.view().tags, qr.file_type),
{
    let ghost tv = texts_view(qr.tags@);
    let mut i: usize = 0;
    while i < qr.tags.len()
        invariant
            i <= qr.tags@.len(),
            tv == texts_view(qr.tags@),
            tv.len() == qr.tags@.len(),
            forall|k: int| 0 <= k < i ==> !known_kind(ascii_lowercase(#[trigger] tv[k])),
        decreases qr.tags@.len() - i,
    {
        let l = to_ascii_lowercase(qr.tags[i].as_str());
        let s = l.as_str();
        assert(tv[i as int] == qr.tags@[i as int]@);
        if text_eq(s, "scene") || text_eq(s, "video") || text_eq(s, "web") || text_eq(
            s,
            "application",
        ) || text_eq(s, "collection") {
            proof {
                lemma_first_kind_tag(tv, i as int);
            }
            return l;
        }
        i += 1;
    }
    proof {
        lemma_first_kind_tag(tv, i as int);
    }
    owned(file_type_label(&qr.file_type))
}

// ---------------------------------------------------------------------------
// Cards
// ---------------------------------------------------------------------------

/// The card of a query result, with its preview URL and the subscription,
/// install state and folder found at query time.
pub open spec fn workshop_card(
    qr: UgcView,
    preview: Seq<char>,
    subscribed: bool,
    installed: bool,
    dir: Seq<char>,
) -> WorkshopItemView {
    WorkshopItemView {
        id: decimal(qr.published_file_id as nat),
        title: qr.title,
        wtype: wallpaper_kind(qr.tags, qr.file_type),
        tags: qr.tags,
        preview,
        thumb: preview,
        dir,
        size_bytes: qr.file_size as u64,
        size: if qr.file_size > 0 {
            size_text(qr.file_size as nat)
        } else {
            Seq::empty()
        },
        description: qr.description,
        author: decimal(qr.owner as nat),
        file_name: qr.file_name,
        file_size: qr.file_size as u64,
        upvotes: qr.num_upvotes,
        downvotes: qr.num_downvotes,
        score_bits: qr.score_bits,
        time_created: qr.time_created,
        time_updated: qr.time_updated,
        url: qr.url,
        subscribed,
        installed,
    }
}

/// The card of a query result.
pub fn item_from_query(
    qr: &UgcResult,
    preview_url: String,
    subscribed: bool,
    installed: bool,
    dir: String,
) -> (r: WorkshopItem)
    ensures
        r.view() == workshop_card(qr.view(), preview_url@, subscribed, installed, dir@),
{
    let size_b = qr.file_size as u64;
    let size = if size_b > 0 {
        fmt_size(size_b)
    } else {
        String::new()
    };
    WorkshopItem {
        id: u64_to_text(qr.published_file_id),
        title: qr.title.clone(),
        wtype: wallpaper_type(qr),
        tags: copy_texts(&qr.tags),
        preview: preview_url.clone(),
        thumb: preview_url,
        dir,
        size_bytes: size_b,
        size,
        description: qr.description.clone(),
        author: u64_to_text(qr.owner),
        file_name: qr.file_name.clone(),
        file_size: size_b,
        upvotes: qr.num_upvotes,
        downvotes: qr.num_downvotes,
        score_bits: qr.score_bits,
        time_created: qr.time_created,
        time_updated: qr.time_updated,
        url: qr.url.clone(),
        subscribed,
        installed,
    }
}

// ---------------------------------------------------------------------------
// Queries
// ---------------------------------------------------------------------------

/// What the gallery asks for: a page, a search text, tags to require and
/// tags to exclude.
pub struct QueryArgs {
    pub page: Option<u32>,
    pub search_text: Option<String>,
    pub required_tags: Option<Vec<String>>,
    pub excluded_tags: Option<Vec<String>>,
}

/// The workshop query to send: the page (from 1), whether results are
/// ranked by text search (else by publication date), the search text, and
/// the tags to require and exclude.
pub struct QueryPlan {
    pub page: u32,
    pub by_text: bool,
    pub search_text: Option<String>,
    pub required_tags: Vec<String>,
    pub excluded_tags: Vec<String>,
}

pub open spec fn tags_given(t: Option<Vec<String>>) -> Seq<Seq<char>> {
    match t {
        Some(v) => texts_view(v@),
        None => Seq::empty(),
    }
}

pub open spec fn plan_page(page: Option<u32>) -> u32 {
    match page {
        Some(p) => if p < 1 {
            1
        } else {
            p
        },
        None => 1,
    }
}

fn tags_or_none(t: &Option<Vec<String>>) -> (r: Vec<String>)
    ensures
        texts_view(r@) == tags_given(*t),
{
    match t {
        Some(v) => copy_texts(v),
        None => {
            let e: Vec<String> = Vec::new();
            assert(texts_view(e@) =~= Seq::<Seq<char>>::empty());
            e
        },
    }
}

/// The query for the gallery's arguments (defaults when there are none):
/// a text search ranks by text only when the text is not blank, a search
/// text is sent when it is not empty, and absent tag lists add no tags.
pub fn query_plan(args: Option<QueryArgs>) -> (r: QueryPlan)
    ensures
        match args {
            Some(a) => {
                &&& r.page == plan_page(a.page)
                &&& r.by_text == (a.search_text matches Some(s) && trimmed(s@).len() > 0)
                &&& match r.search_text {
                    Some(s) => a.search_text matches Some(t) && t@.len() > 0 && s@ == t@,
                    None => !(a.search_text matches Some(t) && t@.len() > 0),
                }
                &&& texts_view(r.required_tags@) == tags_given(a.required_tags)
                &&& texts_view(r.excluded_tags@) == tags_given(a.excluded_tags)
            },
            None => {
                &&& r.page == 1
                &&& !r.by_text
                &&& r.search_text is None
                &&& r.required_tags@.len() == 0
                &&& r.excluded_tags@.len() == 0
            },
        },
{
    match args {
        Some(a) => {
            let page = match a.page {
                Some(p) => if p < 1 {
                    1
                } else {
                    p
                },
                None => 1,
            };
            let (by_text, search_text) = match &a.search_text {
                Some(s) => {
                    let t = trim(s.as_str());
                    let send = if s.as_str().is_empty() {
                        None
                    } else {
                        Some(s.clone())
                    };
                    (!t.as_str().is_empty(), send)
                },
                None => (false, None),
            };
            QueryPlan {
                page,
                by_text,
                search_text,
                required_tags: tags_or_none(&a.required_tags),
                excluded_tags: tags_or_none(&a.excluded_tags),
            }
        },
        None => QueryPlan {
            page: 1,
            by_text: false,
            search_text: None,
            required_tags: Vec::new(),
            excluded_tags: Vec::new(),
        },
    }
}

// ---------------------------------------------------------------------------
// Following a download
// ---------------------------------------------------------------------------

/// Steam's item-state flag of an installed item.
pub const ITEM_INSTALLED: u32 = 4;
/// Steam's item-state flag of an item being downloaded.
pub const ITEM_DOWNLOADING: u32 = 16;
/// The six item-state flags Steam defines (subscribed, legacy, installed,
/// needs update, downloading, download pending).
pub const ITEM_ALL: u32 = 63;

/// One look at a download that is being followed.
#[derive(Clone, Copy, Debug)]
pub enum PollStep {
    /// Followed for too long: report a timeout and stop.
    TimedOut,
    /// Installed: report the install and stop.
    Installed,
    /// Downloading: report the progress and look again.
    Downloading,
    /// Some other state (subscribed, queued, needs update): report it and look again.
    Pending,
    /// No state yet: look again.
    Idle,
}

/// What to do after looking at an item's state bits: a flag is set when
/// the bits contain it, and the state is empty when no known flag is set.
pub fn poll_step(timed_out: bool, state_bits: u32) -> (r: PollStep)
    ensures
        r == (if timed_out {
            PollStep::TimedOut
        } else if state_bits & ITEM_INSTALLED == ITEM_INSTALLED {
            PollStep::Installed
        } else if state_bits & ITEM_DOWNLOADING == ITEM_DOWNLOADING {
            PollStep::Downloading
        } else if state_bits & ITEM_ALL != 0 {
            PollStep::Pending
        } else {
            PollStep::Idle
        }),
{
    if timed_out {
        PollStep::TimedOut
    } else if state_bits & ITEM_INSTALLED == ITEM_INSTALLED {
        PollStep::Installed
    } else if state_bits & ITEM_DOWNLOADING == ITEM_DOWNLOADING {
        PollStep::Downloading
    } else if state_bits & ITEM_ALL != 0 {
        PollStep::Pending
    } else {
        PollStep::Idle
    }
}

/// One of the wallpaper kinds an author tag can name, lowercased.
pub open spec fn kind_word(l: Seq<char>) -> bool {
    l == "scene"@ || l == "video"@ || l == "web"@ || l == "application"@ || l == "collection"@
}

/// The type label of a workshop item: the ASCII-lowercased first tag that
/// names a wallpaper kind (`scene`, `video`, `web`, `application`,
/// `collection`, in any case); without one, the label of its file kind.
pub proof fn law_wallpaper_kind(tags: Seq<Seq<char>>, ft: FileKind, i: int)
    ensures
        0 <= i < tags.len() && kind_word(ascii_lowercase(tags[i])) && (forall|k: int|
            0 <= k < i ==> !kind_word(ascii_lowercase(#[trigger] tags[k]))) ==> wallpaper_kind(
            tags,
            ft,
        ) == ascii_lowercase(tags[i]),
        (forall|k: int| 0 <= k < tags.len() ==> !kind_word(ascii_lowercase(#[trigger] tags[k])))
            ==> wallpaper_kind(tags, ft) == file_kind_label(ft),
{
    if 0 <= i < tags.len() && kind_word(ascii_lowercase(tags[i])) && (forall|k: int|
        0 <= k < i ==> !kind_word(ascii_lowercase(#[trigger] tags[k]))) {
        assert forall|k: int| 0 <= k < i implies !known_kind(ascii_lowercase(#[trigger] tags[k])) by {
            assert(!kind_word(ascii_lowercase(tags[k])));
        }
        lemma_first_kind_tag(tags, i);
    }
    if forall|k: int| 0 <= k < tags.len() ==> !kind_word(ascii_lowercase(#[trigger] tags[k])) {
        assert forall|k: int| 0 <= k < tags.len() implies !known_kind(
            ascii_lowercase(#[trigger] tags[k]),
        ) by {
            assert(!kind_word(ascii_lowercase(tags[k])));
        }
        lemma_first_kind_tag(tags, tags.len() as int);
    }
}

/// The file kinds that are wallpaper kinds carry the wallpaper kinds' own
/// labels: Community (almost every Wallpaper Engine item) is `scene`, then
/// `video`, `web` and `collection`.
pub proof fn law_file_kind_labels()
    ensures
        file_kind_label(FileKind::Community) == "scene"@,
        file_kind_label(FileKind::Video) == "video"@,
        file_kind_label(FileKind::WebGuide) == "web"@,
        file_kind_label(FileKind::Collection) == "collection"@,
        kind_word(file_kind_label(FileKind::Community)),
        kind_word(file_kind_label(FileKind::WebGuide)),
{
}

/// A card shows the result's own fields: its id and its owner in decimal,
/// its title, tags, file name, counts and times unchanged, the preview URL
/// both as preview and as grid thumb, the file size in bytes and, when it is
/// not zero, as text, and the subscription and install state and folder
/// found at query time.
pub proof fn law_workshop_card(qr: UgcView, preview: Seq<char>, subscribed: bool, installed: bool, dir: Seq<char>)
    ensures
        ({
            let c = workshop_card(qr, preview, subscribed, installed, dir);
            &&& c.id == decimal(qr.published_file_id as nat)
            &&& c.author == decimal(qr.owner as nat)
            &&& c.title == qr.title && c.description == qr.description
            &&& c.tags == qr.tags && c.file_name == qr.file_name && c.url == qr.url
            &&& c.preview == preview && c.thumb == preview && c.dir == dir
            &&& c.size_bytes == qr.file_size && c.file_size == qr.file_size
            &&& (c.size.len() == 0 <==> qr.file_size == 0)
            &&& qr.file_size > 0 ==> c.size == size_text(qr.file_size as nat)
            &&& c.upvotes == qr.num_upvotes && c.downvotes == qr.num_downvotes
            &&& c.score_bits == qr.score_bits
            &&& c.time_created == qr.time_created && c.time_updated == qr.time_updated
            &&& c.subscribed == subscribed && c.installed == installed
        }),
{
    if qr.file_size > 0 {
        crate::size::law_size_units(qr.file_size as nat);
        let n = qr.file_size as nat;
        if n < 1024 {
            assert(size_text(n).len() > 0);
        } else if n < 0x10_0000 {
            let k = choose|k: nat| size_text(n) == decimal(k) + " KB"@ && 2 * (k * 1024 - n) <= 1024
                && 2 * (n - k * 1024) <= 1024;
            assert(size_text(n).len() > 0);
        } else if n < 0x4000_0000 {
            let t = choose|t: nat|
                size_text(n) == crate::size::one_decimal(t) + " MB"@ && 2 * (t * 0x10_0000 - 10
                    * n) <= 0x10_0000 && 2 * (10 * n - t * 0x10_0000) <= 0x10_0000;
            assert(size_text(n).len() > 0);
        } else {
            let t = choose|t: nat| size_text(n) == crate::size::one_decimal(t) + " GB"@;
            assert(size_text(n).len() > 0);
        }
    }
}

} // verus!
