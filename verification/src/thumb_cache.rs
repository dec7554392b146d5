//! The file browser's preview store: which previews are cached, which are
//! waiting for a read, which reads are running, and which answers to
//! forget when the store is full.
//!
//! # Keying
//!
//! A key is `(uri, stamp, size, version)`. A file that changed arrives
//! from its listing with a new stamp and so misses; bumping
//! [`CACHE_VERSION`] invalidates every live entry the same way.
//!
//! # Visibility gating
//!
//! A request never reads directly: it parks a `Queued` slot stamped with
//! the current frame ([`ThumbnailCache::begin_frame`]) and a fresh
//! request sequence number. At most `max_in_flight` reads run at once.
//! When a read may start ([`ThumbnailCache::next_start`]), every queued
//! key not requested during the current frame is dropped unread, and the
//! most recently requested of the rest is started. Rows that scrolled off
//! screen simply stop being re-requested, so their reads never happen.
//!
//! # Bounds
//!
//! Decoded previews are bulky, so the store keeps a byte budget and an
//! entry ceiling, evicting the least recently touched settled entries
//! first. Queued and running slots are never evicted, and neither is the
//! entry the current operation just touched, so a preview bigger than the
//! whole budget is kept (overshooting) rather than re-read forever.
//!
//! # Retries
//!
//! There are none: `Absent` and `Failed` answers are cached like any
//! other, so a broken package is not re-read every frame it is visible.
use vstd::prelude::*;

use std::sync::Arc;

use crate::sharing::share_arc;
use crate::text::str_eq;
use crate::thumbs::{decode_preview, decode_preview_spec, ThumbState, ThumbnailImage, ThumbnailImageView, CACHE_VERSION};

verus! {

broadcast use vstd::string::group_string_axioms;

/// Decoded bytes the cache holds before evicting (32 MiB, roughly 500
/// previews at the default size).
pub const DEFAULT_BYTE_BUDGET: usize = 33554432;

/// Ceiling on cached answers, bounding the cheap negative ones.
pub const DEFAULT_MAX_ENTRIES: usize = 4096;

/// Reads allowed to run at once.
pub const DEFAULT_MAX_IN_FLIGHT: usize = 2;

/// Whether an entry could carry an embedded preview: a file (not a
/// directory) whose extension names a package format, `atmr` or `3mf`.
pub open spec fn may_have_thumbnail(is_dir: bool, extension: Seq<char>) -> bool {
    !is_dir && (extension == seq!['a', 't', 'm', 'r'] || extension == seq!['3', 'm', 'f'])
}

/// Whether an entry could possibly have an embedded preview. Directories
/// and mesh formats without a package wrapper (`.stl`, `.obj`) never do,
/// so they are answered without touching a provider.
pub fn can_have_thumbnail(is_dir: bool, extension: &str) -> (r: bool)
    ensures
        r == may_have_thumbnail(is_dir, extension@),
{
    proof {
        reveal_strlit("atmr");
        reveal_strlit("3mf");
        assert("atmr"@ =~= seq!['a', 't', 'm', 'r']);
        assert("3mf"@ =~= seq!['3', 'm', 'f']);
    }
    !is_dir && (str_eq(extension, "atmr") || str_eq(extension, "3mf"))
}

/// Identity of one cached preview.
#[derive(Debug, Clone, PartialEq, Eq, Hash)]
pub struct ThumbKey {
    pub uri: String,
    /// The listing's change stamp, when the provider has one.
    pub stamp: Option<String>,
    /// Longest edge of the preview box, in pixels.
    pub size: u32,
    pub version: u32,
}

/// The mathematical content of a [`ThumbKey`].
pub struct ThumbKeyView {
    pub uri: Seq<char>,
    pub stamp: Option<Seq<char>>,
    pub size: u32,
    pub version: u32,
}

/// The view of an optional string.
pub open spec fn opt_str_view(s: Option<String>) -> Option<Seq<char>> {
    match s {
        Some(t) => Some(t@),
        None => None,
    }
}

impl View for ThumbKey {
    type V = ThumbKeyView;

    open spec fn view(&self) -> ThumbKeyView {
        ThumbKeyView { uri: self.uri@, stamp: opt_str_view(self.stamp), size: self.size, version: self.version }
    }
}

impl ThumbKey {
    /// The key of a listed entry at a preview box of `size` pixels (a
    /// zero size asks for one pixel).
    pub fn for_entry(uri: &str, stamp: Option<&str>, size: u32) -> (k: ThumbKey)
        ensures
            k@ == (ThumbKeyView {
                uri: uri@,
                stamp: match stamp {
                    Some(s) => Some(s@),
                    None => None,
                },
                size: if size == 0 {
                    1u32
                } else {
                    size
                },
                version: CACHE_VERSION,
            }),
    {
        let stamp = match stamp {
            Some(s) => Some(s.to_string()),
            None => None,
        };
        ThumbKey { uri: uri.to_string(), stamp, size: if size == 0 { 1 } else { size }, version: CACHE_VERSION }
    }

    /// An exact copy.
    pub fn duplicate(&self) -> (r: ThumbKey)
        ensures
            r@ == self@,
    {
        let stamp = match &self.stamp {
            Some(s) => Some(s.clone()),
            None => None,
        };
        ThumbKey { uri: self.uri.clone(), stamp, size: self.size, version: self.version }
    }

    /// Whether two keys name the same preview.
    pub fn same_as(&self, other: &ThumbKey) -> (r: bool)
        ensures
            r == (self@ == other@),
    {
        if self.size != other.size || self.version != other.version {
            return false;
        }
        if !str_eq(self.uri.as_str(), other.uri.as_str()) {
            return false;
        }
        match (&self.stamp, &other.stamp) {
            (Some(a), Some(b)) => str_eq(a.as_str(), b.as_str()),
            (None, None) => true,
            _ => false,
        }
    }
}

/// Where one cached key stands.
#[derive(Debug)]
pub enum SlotState {
    /// Requested, waiting for a read slot.
    Queued,
    /// Its read is running.
    InFlight,
    /// A decoded preview.
    Ready(Arc<ThumbnailImage>),
    /// There is legitimately no preview.
    Absent,
    /// The read or the decode failed; the message says why.
    Failed(String),
}

/// The mathematical content of a [`SlotState`].
pub enum SlotStateView {
    Queued,
    InFlight,
    Ready(ThumbnailImageView),
    Absent,
    Failed(Seq<char>),
}

impl View for SlotState {
    type V = SlotStateView;

    open spec fn view(&self) -> SlotStateView {
        match self {
            SlotState::Queued => SlotStateView::Queued,
            SlotState::InFlight => SlotStateView::InFlight,
            SlotState::Ready(image) => SlotStateView::Ready(image@),
            SlotState::Absent => SlotStateView::Absent,
            SlotState::Failed(message) => SlotStateView::Failed(message@),
        }
    }
}

/// Whether a slot is waiting for, or running, its read.
pub open spec fn is_pending(s: SlotStateView) -> bool {
    s is Queued || s is InFlight
}

/// Decoded bytes a slot holds.
pub open spec fn bytes_of(s: SlotStateView) -> nat {
    match s {
        SlotStateView::Ready(image) => image.rgba.len(),
        _ => 0,
    }
}

impl SlotState {
    fn pending(&self) -> (r: bool)
        ensures
            r == is_pending(self@),
    {
        match self {
            SlotState::Queued | SlotState::InFlight => true,
            _ => false,
        }
    }

    fn byte_len(&self) -> (r: usize)
        ensures
            r == bytes_of(self@),
    {
        match self {
            SlotState::Ready(image) => image.byte_len(),
            _ => 0,
        }
    }

    /// What a caller sees of this state.
    fn public(&self) -> (r: ThumbState)
        ensures
            shows(r, Some(self@)),
    {
        match self {
            SlotState::Queued | SlotState::InFlight => ThumbState::Pending,
            SlotState::Ready(image) => ThumbState::Ready(share_arc(image)),
            SlotState::Absent => ThumbState::Absent,
            SlotState::Failed(message) => ThumbState::Failed(message.clone()),
        }
    }
}

/// Turn a finished read into the slot's answer, decoding the embedded
/// preview to fit a `size`-pixel box.
pub fn read_outcome(read: Result<Option<Vec<u8>>, String>, size: u32) -> (r: SlotState)
    ensures
        r@ == outcome_spec(read_view(read), size),
{
    match read {
        Err(message) => SlotState::Failed(message),
        Ok(None) => SlotState::Absent,
        Ok(Some(png)) => match decode_preview(png.as_slice(), size) {
            Ok(Some(image)) => SlotState::Ready(Arc::new(image)),
            Ok(None) => SlotState::Absent,
            Err(message) => SlotState::Failed(message),
        },
    }
}

/// Whether `r` is what a caller is shown for a key whose slot is `s`
/// (`None`: no slot).
pub open spec fn shows(r: ThumbState, s: Option<SlotStateView>) -> bool {
    match s {
        None => r is NotRequested,
        Some(SlotStateView::Queued) => r is Pending,
        Some(SlotStateView::InFlight) => r is Pending,
        Some(SlotStateView::Ready(image)) => r matches ThumbState::Ready(a) && a@ == image,
        Some(SlotStateView::Absent) => r is Absent,
        Some(SlotStateView::Failed(m)) => r matches ThumbState::Failed(t) && t@ == m,
    }
}

/// One cached key.
struct Slot {
    key: ThumbKey,
    state: SlotState,
    /// LRU stamp: the cache's clock at the last request or result.
    touched: u64,
    /// Frame of the last request: the visibility gate.
    requested_frame: u64,
    /// Request order, so the queue can serve the most recent first.
    requested_seq: u64,
}

/// The mathematical content of a slot.
pub struct SlotView {
    pub key: ThumbKeyView,
    pub state: SlotStateView,
    pub touched: u64,
    pub requested_frame: u64,
    pub requested_seq: u64,
}

impl View for Slot {
    type V = SlotView;

    closed spec fn view(&self) -> SlotView {
        SlotView {
            key: self.key@,
            state: self.state@,
            touched: self.touched,
            requested_frame: self.requested_frame,
            requested_seq: self.requested_seq,
        }
    }
}

/// The views of the slots.
spec fn slots_view(v: Seq<Slot>) -> Seq<SlotView> {
    v.map_values(|s: Slot| s@)
}

/// No two slots share a key.
pub open spec fn keys_distinct(s: Seq<SlotView>) -> bool {
    forall|i: int, j: int| 0 <= i < j < s.len() ==> #[trigger] s[i].key != #[trigger] s[j].key
}

/// Index of the slot holding `k`, if any (the last one, should there be
/// several).
pub open spec fn position(s: Seq<SlotView>, k: ThumbKeyView) -> Option<int>
    decreases s.len(),
{
    if s.len() == 0 {
        None
    } else if s.last().key == k {
        Some(s.len() - 1)
    } else {
        position(s.drop_last(), k)
    }
}

/// The state of the slot holding `k`, if any.
pub open spec fn state_of(s: Seq<SlotView>, k: ThumbKeyView) -> Option<SlotStateView> {
    match position(s, k) {
        Some(i) => Some(s[i].state),
        None => None,
    }
}

/// How many slots are queued.
pub open spec fn count_queued(s: Seq<SlotView>) -> nat
    decreases s.len(),
{
    if s.len() == 0 {
        0
    } else {
        count_queued(s.drop_last()) + if s.last().state is Queued {
            1nat
        } else {
            0nat
        }
    }
}

/// How many slots have a read running.
pub open spec fn count_in_flight(s: Seq<SlotView>) -> nat
    decreases s.len(),
{
    if s.len() == 0 {
        0
    } else {
        count_in_flight(s.drop_last()) + if s.last().state is InFlight {
            1nat
        } else {
            0nat
        }
    }
}

/// Decoded bytes held by all slots.
pub open spec fn total_bytes(s: Seq<SlotView>) -> nat
    decreases s.len(),
{
    if s.len() == 0 {
        0
    } else {
        total_bytes(s.drop_last()) + bytes_of(s.last().state)
    }
}

/// `a - b`, or zero.
pub open spec fn sat_sub(a: int, b: int) -> int {
    if a >= b {
        a - b
    } else {
        0
    }
}

/// Which slots a pass over the cache keeps.
pub enum SlotFilter {
    /// Those waiting for or running a read.
    Pending,
    /// All but the queued ones not requested during `frame`.
    Fresh(u64),
}

/// Whether `filter` keeps `slot`.
pub open spec fn kept(filter: SlotFilter, slot: SlotView) -> bool {
    match filter {
        SlotFilter::Pending => is_pending(slot.state),
        SlotFilter::Fresh(frame) => !(slot.state is Queued && slot.requested_frame != frame),
    }
}

/// The slots `filter` keeps, in order.
pub open spec fn kept_slots(s: Seq<SlotView>, filter: SlotFilter) -> Seq<SlotView>
    decreases s.len(),
{
    if s.len() == 0 {
        Seq::empty()
    } else {
        let rest = kept_slots(s.drop_last(), filter);
        if kept(filter, s.last()) {
            rest.push(s.last())
        } else {
            rest
        }
    }
}

/// The view of an optional index.
pub open spec fn opt_index(o: Option<usize>) -> Option<int> {
    match o {
        Some(i) => Some(i as int),
        None => None,
    }
}

/// Whether eviction may drop `slot`: it is settled, and it is not the
/// entry touched last (clock `newest`).
pub open spec fn evictable(slot: SlotView, newest: u64) -> bool {
    !is_pending(slot.state) && slot.touched != newest
}

/// The least recently touched evictable slot (the first among equals).
pub open spec fn lru_victim(s: Seq<SlotView>, newest: u64) -> Option<int>
    decreases s.len(),
{
    if s.len() == 0 {
        None
    } else {
        let v = lru_victim(s.drop_last(), newest);
        if evictable(s.last(), newest) && (v is None || s.last().touched < s[v->0].touched) {
            Some(s.len() - 1)
        } else {
            v
        }
    }
}

/// Whether the slots break a bound: more bytes than `budget`, or more
/// entries than `max_entries`.
pub open spec fn over_bounds(s: Seq<SlotView>, budget: usize, max_entries: usize) -> bool {
    total_bytes(s) > budget || s.len() > max_entries
}

/// The slots left once least-recently-touched evictable slots are
/// dropped, one at a time, until both bounds hold or nothing evictable is
/// left.
pub open spec fn evicted(s: Seq<SlotView>, budget: usize, max_entries: usize, newest: u64) -> Seq<SlotView>
    decreases s.len(),
{
    if over_bounds(s, budget, max_entries) {
        match lru_victim(s, newest) {
            Some(i) => if 0 <= i < s.len() {
                evicted(s.remove(i), budget, max_entries, newest)
            } else {
                s
            },
            None => s,
        }
    } else {
        s
    }
}


/// A slot as a repeated request leaves it: touched now, and, while still
/// queued, moved to the back of the queue for the current frame.
pub open spec fn refreshed(slot: SlotView, touched: u64, frame: u64, seq: u64) -> SlotView {
    if slot.state is Queued {
        SlotView { touched, requested_frame: frame, requested_seq: seq, ..slot }
    } else {
        SlotView { touched, ..slot }
    }
}

/// The cache after `k` is declared visible: the clock and the request
/// sequence advance; a known key is refreshed in place; an unknown one
/// gets a queued slot at the back, after which the bounds are enforced.
pub open spec fn request_spec(c: ThumbCacheView, k: ThumbKeyView) -> ThumbCacheView {
    let touched = (c.clock + 1) as u64;
    let seq = (c.seq + 1) as u64;
    match position(c.slots, k) {
        Some(i) => ThumbCacheView {
            slots: c.slots.update(i, refreshed(c.slots[i], touched, c.frame, seq)),
            clock: touched,
            seq,
            ..c
        },
        None => {
            let grown = c.slots.push(
                SlotView { key: k, state: SlotStateView::Queued, touched, requested_frame: c.frame, requested_seq: seq },
            );
            let kept = evicted(grown, c.byte_budget, c.max_entries, touched);
            ThumbCacheView {
                slots: kept,
                bytes_used: total_bytes(kept) as usize,
                queued: (c.queued + 1) as usize,
                clock: touched,
                seq,
                ..c
            }
        },
    }
}


/// The most recently requested queued slot (the last among equals).
pub open spec fn newest_queued(s: Seq<SlotView>) -> Option<int>
    decreases s.len(),
{
    if s.len() == 0 {
        None
    } else {
        let v = newest_queued(s.drop_last());
        if s.last().state is Queued && (v is None || s.last().requested_seq >= s[v->0].requested_seq) {
            Some(s.len() - 1)
        } else {
            v
        }
    }
}

/// The cache after one attempt to start a read, and the key started.
///
/// Nothing happens while nothing is queued. At the read cap, the
/// in-flight count is recounted from the slots, at most once per finished
/// read, and nothing starts if the cap still holds. Otherwise every queued
/// key not requested during the current frame is dropped, and the most
/// recently requested remaining one is started.
pub open spec fn next_start_spec(c: ThumbCacheView) -> (ThumbCacheView, Option<ThumbKeyView>) {
    if c.queued == 0 {
        (c, None)
    } else if c.in_flight >= c.max_in_flight && c.reconciled_at == c.progress {
        (c, None)
    } else {
        let c1 = if c.in_flight >= c.max_in_flight {
            ThumbCacheView { reconciled_at: c.progress, in_flight: count_in_flight(c.slots) as usize, ..c }
        } else {
            c
        };
        if c1.in_flight >= c1.max_in_flight {
            (c1, None)
        } else {
            let s2 = kept_slots(c1.slots, SlotFilter::Fresh(c1.frame));
            let c2 = ThumbCacheView { slots: s2, queued: count_queued(s2) as usize, ..c1 };
            match newest_queued(s2) {
                None => (c2, None),
                Some(b) => (
                    ThumbCacheView {
                        slots: s2.update(b, SlotView { state: SlotStateView::InFlight, ..s2[b] }),
                        queued: (c2.queued - 1) as usize,
                        in_flight: (c1.in_flight + 1) as usize,
                        ..c2
                    },
                    Some(s2[b].key),
                ),
            }
        }
    }
}

/// The view of an optional key.
pub open spec fn opt_key_view(k: Option<ThumbKey>) -> Option<ThumbKeyView> {
    match k {
        Some(k) => Some(k@),
        None => None,
    }
}


/// The view of a finished read: the package's embedded preview bytes
/// (`None`: the package has none), or the provider's error message.
pub open spec fn read_view(r: Result<Option<Vec<u8>>, String>) -> Result<Option<Seq<u8>>, Seq<char>> {
    match r {
        Ok(Some(b)) => Ok(Some(b@)),
        Ok(None) => Ok(None),
        Err(e) => Err(e@),
    }
}

/// What a finished read leaves in its slot: a decoded preview, an absence
/// (no embedded preview, or one in a format that is not decoded), or a
/// failure (the read failed, or the preview could not be decoded).
pub open spec fn outcome_spec(read: Result<Option<Seq<u8>>, Seq<char>>, size: u32) -> SlotStateView {
    match read {
        Err(m) => SlotStateView::Failed(m),
        Ok(None) => SlotStateView::Absent,
        Ok(Some(png)) => match decode_preview_spec(png, size) {
            Ok(Some(image)) => SlotStateView::Ready(image),
            Ok(None) => SlotStateView::Absent,
            Err(m) => SlotStateView::Failed(m),
        },
    }
}

/// Decoded bytes the slot of `k` holds now.
pub open spec fn bytes_at(s: Seq<SlotView>, k: ThumbKeyView) -> nat {
    match state_of(s, k) {
        Some(st) => bytes_of(st),
        None => 0,
    }
}

/// The cache after the read of `k` settled as `outcome`: the read is no
/// longer running, the clock advances, the answer replaces (or joins) the
/// slot of `k`, and the bounds are enforced.
pub open spec fn finish_spec(c: ThumbCacheView, k: ThumbKeyView, outcome: SlotStateView) -> ThumbCacheView {
    let touched = (c.clock + 1) as u64;
    let slot = SlotView { key: k, state: outcome, touched, requested_frame: c.frame, requested_seq: c.seq };
    let (placed, queued) = match position(c.slots, k) {
        Some(i) => (
            c.slots.update(i, slot),
            if c.slots[i].state is Queued {
                (c.queued - 1) as usize
            } else {
                c.queued
            },
        ),
        None => (c.slots.push(slot), c.queued),
    };
    let kept = evicted(placed, c.byte_budget, c.max_entries, touched);
    ThumbCacheView {
        slots: kept,
        bytes_used: total_bytes(kept) as usize,
        queued,
        in_flight: sat_sub(c.in_flight as int, 1) as usize,
        progress: (c.progress + 1) as u64,
        clock: touched,
        ..c
    }
}


/// The mathematical content of a [`ThumbnailCache`].
pub struct ThumbCacheView {
    pub slots: Seq<SlotView>,
    pub bytes_used: usize,
    pub byte_budget: usize,
    pub max_entries: usize,
    pub max_in_flight: usize,
    /// Reads believed running.
    pub in_flight: usize,
    /// Slots waiting for a read.
    pub queued: usize,
    /// Finished reads, ever.
    pub progress: u64,
    /// `progress` when the in-flight count was last recounted.
    pub reconciled_at: u64,
    pub frame: u64,
    pub seq: u64,
    pub clock: u64,
}

/// The cache's standing invariant: keys are unique, and the queued and
/// byte counters agree with the slots.
pub open spec fn cache_wf(c: ThumbCacheView) -> bool {
    &&& keys_distinct(c.slots)
    &&& c.queued == count_queued(c.slots)
    &&& c.bytes_used == total_bytes(c.slots)
    &&& c.max_entries >= 1
    &&& c.max_in_flight >= 1
}

/// The cache's bookkeeping, kept consistent by the methods of
/// [`ThumbnailCache`].
struct Inner {
    slots: Vec<Slot>,
    bytes_used: usize,
    byte_budget: usize,
    max_entries: usize,
    max_in_flight: usize,
    in_flight: usize,
    queued: usize,
    progress: u64,
    reconciled_at: u64,
    frame: u64,
    seq: u64,
    clock: u64,
}

impl View for Inner {
    type V = ThumbCacheView;

    closed spec fn view(&self) -> ThumbCacheView {
        ThumbCacheView {
            slots: slots_view(self.slots@),
            bytes_used: self.bytes_used,
            byte_budget: self.byte_budget,
            max_entries: self.max_entries,
            max_in_flight: self.max_in_flight,
            in_flight: self.in_flight,
            queued: self.queued,
            progress: self.progress,
            reconciled_at: self.reconciled_at,
            frame: self.frame,
            seq: self.seq,
            clock: self.clock,
        }
    }
}

impl Inner {
    /// A cache with caller-chosen bounds; an entry ceiling or a read cap
    /// of zero is raised to one.
    fn with_limits(byte_budget: usize, max_entries: usize, max_in_flight: usize) -> (c: Inner)
        ensures
            cache_wf(c@),
            c@.slots.len() == 0,
            c@.byte_budget == byte_budget,
            c@.max_entries == if max_entries == 0 {
                1
            } else {
                max_entries
            },
            c@.max_in_flight == if max_in_flight == 0 {
                1
            } else {
                max_in_flight
            },
            c@.bytes_used == 0 && c@.in_flight == 0 && c@.queued == 0,
            c@.frame == 1 && c@.seq == 0 && c@.clock == 0 && c@.progress == 0,
            c@.reconciled_at == u64::MAX,
    {
        let c = Inner {
            slots: Vec::new(),
            bytes_used: 0,
            byte_budget,
            max_entries: if max_entries == 0 { 1 } else { max_entries },
            max_in_flight: if max_in_flight == 0 { 1 } else { max_in_flight },
            in_flight: 0,
            queued: 0,
            progress: 0,
            reconciled_at: u64::MAX,
            frame: 1,
            seq: 0,
            clock: 0,
        };
        assert(slots_view(c.slots@) =~= Seq::<SlotView>::empty());
        c
    }

    /// Start a new visibility round: queued keys not re-requested after
    /// this are dropped instead of read.
    fn begin_frame(&mut self)
        requires
            old(self)@.frame < u64::MAX,
        ensures
            final(self)@ == (ThumbCacheView { frame: (old(self)@.frame + 1) as u64, ..old(self)@ }),
    {
        self.frame = self.frame + 1;
    }

    /// Index of the slot holding `key`, if any.
    fn find(&self, key: &ThumbKey) -> (r: Option<usize>)
        ensures
            opt_index(r) == position(self@.slots, key@),
    {
        let ghost s = slots_view(self.slots@);
        let mut found: Option<usize> = None;
        let mut i: usize = 0;
        while i < self.slots.len()
            invariant
                s == slots_view(self.slots@),
                s == self@.slots,
                i <= s.len(),
                opt_index(found) == position(s.take(i as int), key@),
            decreases s.len() - i,
        {
            proof {
                lemma_take_step(s, i as int);
            }
            if self.slots[i].key.same_as(key) {
                found = Some(i);
            }
            i = i + 1;
        }
        assert(s.take(s.len() as int) =~= s);
        found
    }

    /// The cached state of `key`, without requesting anything.
    fn peek(&self, key: &ThumbKey) -> (r: ThumbState)
        ensures
            shows(r, state_of(self@.slots, key@)),
    {
        let found = self.find(key);
        proof {
            lemma_position(self@.slots, key@);
        }
        match found {
            Some(i) => self.slots[i].state.public(),
            None => ThumbState::NotRequested,
        }
    }

    /// Keep only the slots `filter` keeps, in order; the counters are
    /// left alone.
    fn retain_slots(&mut self, filter: SlotFilter)
        requires
            keys_distinct(old(self)@.slots),
        ensures
            final(self)@ == (ThumbCacheView { slots: kept_slots(old(self)@.slots, filter), ..old(self)@ }),
            keys_distinct(final(self)@.slots),
    {
        let ghost c0 = self@;
        let ghost s = c0.slots;
        let n = self.slots.len();
        let mut i: usize = 0;
        let mut p: usize = 0;
        while p < n
            invariant
                n == s.len(),
                p <= s.len(),
                i <= p,
                self@ == (ThumbCacheView { slots: self@.slots, ..c0 }),
                self@.slots == kept_slots(s.take(p as int), filter) + s.skip(p as int),
                i == kept_slots(s.take(p as int), filter).len(),
                keys_distinct(self@.slots),
            decreases s.len() - p,
        {
            proof {
                lemma_take_step(s, p as int);
                assert(self@.slots[i as int] == s[p as int]);
                assert(self@.slots.len() == self.slots@.len());
            }
            let ghost before = self@.slots;
            let keep = match filter {
                SlotFilter::Pending => self.slots[i].state.pending(),
                SlotFilter::Fresh(frame) => !(matches!(self.slots[i].state, SlotState::Queued)
                    && self.slots[i].requested_frame != frame),
            };
            if keep {
                i = i + 1;
                proof {
                    assert(self@.slots =~= kept_slots(s.take(p as int + 1), filter) + s.skip(p as int + 1));
                }
            } else {
                let ghost v0 = self.slots@;
                self.slots.remove(i);
                proof {
                    assert(slots_view(self.slots@) =~= slots_view(v0).remove(i as int));
                    lemma_remove_keeps_distinct(before, i as int);
                    assert(self@.slots =~= kept_slots(s.take(p as int + 1), filter) + s.skip(p as int + 1));
                }
            }
            p = p + 1;
        }
        assert(s.take(s.len() as int) =~= s);
        assert(s.skip(s.len() as int) =~= Seq::<SlotView>::empty());
        assert(self@.slots =~= kept_slots(s, filter));
    }

    /// Forget every settled answer. Queued and running slots stay: their
    /// reads still have bookkeeping to do.
    fn clear(&mut self)
        requires
            cache_wf(old(self)@),
        ensures
            cache_wf(final(self)@),
            final(self)@ == (ThumbCacheView {
                slots: kept_slots(old(self)@.slots, SlotFilter::Pending),
                bytes_used: 0,
                ..old(self)@
            }),
    {
        self.retain_slots(SlotFilter::Pending);
        self.bytes_used = 0;
        proof {
            lemma_pending_keeps_queued(old(self)@.slots);
        }
    }

    /// Index of the least recently touched evictable slot.
    fn lru_victim_index(&self, newest: u64) -> (r: Option<usize>)
        ensures
            opt_index(r) == lru_victim(self@.slots, newest),
    {
        let ghost s = self@.slots;
        let mut best: Option<usize> = None;
        let mut i: usize = 0;
        while i < self.slots.len()
            invariant
                s == self@.slots,
                s.len() == self.slots@.len(),
                i <= s.len(),
                opt_index(best) == lru_victim(s.take(i as int), newest),
                best matches Some(b) ==> b < i,
            decreases s.len() - i,
        {
            proof {
                lemma_take_step(s, i as int);
                if let Some(b) = best {
                    assert(s.take(i as int + 1)[b as int] == s[b as int]);
                }
            }
            let slot = &self.slots[i];
            let better = match best {
                Some(b) => slot.touched < self.slots[b].touched,
                None => true,
            };
            if !slot.state.pending() && slot.touched != newest && better {
                best = Some(i);
            }
            i = i + 1;
        }
        assert(s.take(s.len() as int) =~= s);
        best
    }

    /// Drop least-recently-touched settled entries until both bounds hold
    /// or nothing evictable is left.
    fn evict(&mut self)
        requires
            cache_wf(old(self)@),
        ensures
            cache_wf(final(self)@),
            final(self)@ == (ThumbCacheView {
                slots: evicted(old(self)@.slots, old(self)@.byte_budget, old(self)@.max_entries, old(self)@.clock),
                bytes_used: total_bytes(
                    evicted(old(self)@.slots, old(self)@.byte_budget, old(self)@.max_entries, old(self)@.clock),
                ) as usize,
                ..old(self)@
            }),
    {
        let ghost c0 = self@;
        let ghost target = evicted(c0.slots, c0.byte_budget, c0.max_entries, c0.clock);
        loop
            invariant
                cache_wf(self@),
                self@ == (ThumbCacheView { slots: self@.slots, bytes_used: self@.bytes_used, ..c0 }),
                evicted(self@.slots, c0.byte_budget, c0.max_entries, c0.clock) == target,
            ensures
                cache_wf(self@),
                self@ == (ThumbCacheView { slots: self@.slots, bytes_used: self@.bytes_used, ..c0 }),
                self@.slots == target,
            decreases self@.slots.len(),
        {
            proof {
                assert(self@.slots.len() == self.slots@.len());
            }
            if !(self.bytes_used > self.byte_budget || self.slots.len() > self.max_entries) {
                break;
            }
            let newest = self.clock;
            match self.lru_victim_index(newest) {
                None => break,
                Some(i) => {
                    let ghost before = self@.slots;
                    proof {
                        lemma_lru_victim(before, newest);
                        lemma_remove_counts(before, i as int);
                        lemma_remove_keeps_distinct(before, i as int);
                    }
                    let ghost v0 = self.slots@;
                    let slot = self.slots.remove(i);
                    self.bytes_used = self.bytes_used.saturating_sub(slot.state.byte_len());
                    proof {
                        assert(slots_view(self.slots@) =~= slots_view(v0).remove(i as int));
                    }
                },
            }
        }
    }

    /// Declare `key` visible: refresh its slot, or queue it. The read
    /// itself starts from [`Self::next_start`].
    fn note_request(&mut self, key: ThumbKey)
        requires
            cache_wf(old(self)@),
            old(self)@.clock < u64::MAX,
            old(self)@.seq < u64::MAX,
        ensures
            cache_wf(final(self)@),
            final(self)@ == request_spec(old(self)@, key@),
    {
        let ghost c0 = self@;
        self.clock = self.clock + 1;
        let touched = self.clock;
        let frame = self.frame;
        self.seq = self.seq + 1;
        let seq = self.seq;
        let found = self.find(&key);
        proof {
            lemma_position(c0.slots, key@);
        }
        match found {
            Some(i) => {
                let ghost v0 = self.slots@;
                let mut slot = self.slots.remove(i);
                slot.touched = touched;
                if matches!(slot.state, SlotState::Queued) {
                    slot.requested_frame = frame;
                    slot.requested_seq = seq;
                }
                self.slots.insert(i, slot);
                proof {
                    let r = refreshed(c0.slots[i as int], touched, frame, seq);
                    assert(self.slots@ =~= v0.update(i as int, slot));
                    assert(slots_view(self.slots@) =~= c0.slots.update(i as int, r));
                    lemma_update_counts(c0.slots, i as int, r);
                    lemma_update_keeps_distinct(c0.slots, i as int, r);
                }
            },
            None => {
                let ghost v0 = self.slots@;
                let ghost fresh = SlotView {
                    key: key@,
                    state: SlotStateView::Queued,
                    touched,
                    requested_frame: frame,
                    requested_seq: seq,
                };
                self.slots.push(
                    Slot { key, state: SlotState::Queued, touched, requested_frame: frame, requested_seq: seq },
                );
                let len = self.slots.len();
                proof {
                    assert(slots_view(self.slots@) =~= c0.slots.push(fresh));
                    assert(c0.slots.push(fresh).drop_last() =~= c0.slots);
                    lemma_count_within_len(c0.slots);
                    assert forall|a: int, b: int| 0 <= a < b < self@.slots.len()
                        implies #[trigger] self@.slots[a].key != #[trigger] self@.slots[b].key by {
                        if b == c0.slots.len() {
                            assert(c0.slots[a].key != key@);
                        } else {
                            assert(self@.slots[a] == c0.slots[a] && self@.slots[b] == c0.slots[b]);
                        }
                    }
                }
                self.queued = self.queued + 1;
                self.evict();
            },
        }
    }

    /// How many slots have a read running.
    fn count_running(&self) -> (r: usize)
        ensures
            r == count_in_flight(self@.slots),
    {
        let ghost s = self@.slots;
        let mut n: usize = 0;
        let mut i: usize = 0;
        while i < self.slots.len()
            invariant
                s == self@.slots,
                s.len() == self.slots@.len(),
                i <= s.len(),
                n == count_in_flight(s.take(i as int)),
                n <= i,
            decreases s.len() - i,
        {
            proof {
                lemma_take_step(s, i as int);
            }
            if matches!(self.slots[i].state, SlotState::InFlight) {
                n = n + 1;
            }
            i = i + 1;
        }
        assert(s.take(s.len() as int) =~= s);
        n
    }

    /// Index of the most recently requested queued slot.
    fn newest_queued_index(&self) -> (r: Option<usize>)
        ensures
            opt_index(r) == newest_queued(self@.slots),
    {
        let ghost s = self@.slots;
        let mut best: Option<usize> = None;
        let mut i: usize = 0;
        while i < self.slots.len()
            invariant
                s == self@.slots,
                s.len() == self.slots@.len(),
                i <= s.len(),
                opt_index(best) == newest_queued(s.take(i as int)),
                best matches Some(b) ==> b < i,
            decreases s.len() - i,
        {
            proof {
                lemma_take_step(s, i as int);
                if let Some(b) = best {
                    assert(s.take(i as int + 1)[b as int] == s[b as int]);
                }
            }
            let slot = &self.slots[i];
            let newer = match best {
                Some(b) => slot.requested_seq >= self.slots[b].requested_seq,
                None => true,
            };
            if matches!(slot.state, SlotState::Queued) && newer {
                best = Some(i);
            }
            i = i + 1;
        }
        assert(s.take(s.len() as int) =~= s);
        best
    }

    /// Claim the next key to read, or `None` when the read cap is reached
    /// or nothing current is queued. Queued keys not requested during the
    /// current frame are dropped here, unread.
    fn next_start(&mut self) -> (r: Option<ThumbKey>)
        requires
            cache_wf(old(self)@),
        ensures
            cache_wf(final(self)@),
            (final(self)@, opt_key_view(r)) == next_start_spec(old(self)@),
    {
        let ghost c0 = self@;
        if self.queued == 0 {
            return None;
        }
        if self.in_flight >= self.max_in_flight {
            if self.reconciled_at == self.progress {
                return None;
            }
            self.reconciled_at = self.progress;
            self.in_flight = self.count_running();
            if self.in_flight >= self.max_in_flight {
                return None;
            }
        }
        let ghost c1 = self@;
        let frame = self.frame;
        self.retain_slots(SlotFilter::Fresh(frame));
        proof {
            lemma_fresh_keeps_bytes(c1.slots, frame);
            lemma_count_within_len(self@.slots);
            assert(self@.slots.len() == self.slots@.len());
        }
        self.queued = self.count_queued_slots();
        let ghost c2 = self@;
        match self.newest_queued_index() {
            None => None,
            Some(b) => {
                proof {
                    lemma_newest_queued(c2.slots);
                }
                let ghost v0 = self.slots@;
                let mut slot = self.slots.remove(b);
                let key = slot.key.duplicate();
                slot.state = SlotState::InFlight;
                self.slots.insert(b, slot);
                let ghost started = SlotView { state: SlotStateView::InFlight, ..c2.slots[b as int] };
                proof {
                    assert(self.slots@ =~= v0.update(b as int, slot));
                    assert(slots_view(self.slots@) =~= c2.slots.update(b as int, started));
                    lemma_update_counts(c2.slots, b as int, started);
                    lemma_update_keeps_distinct(c2.slots, b as int, started);
                }
                self.queued = self.queued - 1;
                self.in_flight = self.in_flight + 1;
                Some(key)
            },
        }
    }

    /// How many slots are queued.
    fn count_queued_slots(&self) -> (r: usize)
        ensures
            r == count_queued(self@.slots),
    {
        let ghost s = self@.slots;
        let mut n: usize = 0;
        let mut i: usize = 0;
        while i < self.slots.len()
            invariant
                s == self@.slots,
                s.len() == self.slots@.len(),
                i <= s.len(),
                n == count_queued(s.take(i as int)),
                n <= i,
            decreases s.len() - i,
        {
            proof {
                lemma_take_step(s, i as int);
            }
            if matches!(self.slots[i].state, SlotState::Queued) {
                n = n + 1;
            }
            i = i + 1;
        }
        assert(s.take(s.len() as int) =~= s);
        n
    }

    /// Apply one finished read of `key`: record its answer, free its read
    /// slot, and enforce the bounds. Start the next read with
    /// [`Self::next_start`].
    fn finish(&mut self, key: ThumbKey, read: Result<Option<Vec<u8>>, String>)
        requires
            cache_wf(old(self)@),
            old(self)@.progress < u64::MAX,
            old(self)@.clock < u64::MAX,
            total_bytes(old(self)@.slots) - bytes_at(old(self)@.slots, key@) + bytes_of(
                outcome_spec(read_view(read), key@.size),
            ) <= usize::MAX,
        ensures
            cache_wf(final(self)@),
            final(self)@ == finish_spec(old(self)@, key@, outcome_spec(read_view(read), key@.size)),
    {
        let outcome = read_outcome(read, key.size);
        self.settle(key, outcome);
    }

    /// Record `outcome` as the answer for `key`.
    fn settle(&mut self, key: ThumbKey, outcome: SlotState)
        requires
            cache_wf(old(self)@),
            !is_pending(outcome@),
            old(self)@.progress < u64::MAX,
            old(self)@.clock < u64::MAX,
            total_bytes(old(self)@.slots) - bytes_at(old(self)@.slots, key@) + bytes_of(outcome@) <= usize::MAX,
        ensures
            cache_wf(final(self)@),
            final(self)@ == finish_spec(old(self)@, key@, outcome@),
    {
        let ghost c0 = self@;
        self.in_flight = self.in_flight.saturating_sub(1);
        self.progress = self.progress + 1;
        self.clock = self.clock + 1;
        let touched = self.clock;
        let frame = self.frame;
        let seq = self.seq;
        let bytes = outcome.byte_len();
        let found = self.find(&key);
        proof {
            lemma_position(c0.slots, key@);
        }
        let ghost slot_view = SlotView {
            key: key@,
            state: outcome@,
            touched,
            requested_frame: frame,
            requested_seq: seq,
        };
        let slot = Slot { key, state: outcome, touched, requested_frame: frame, requested_seq: seq };
        match found {
            Some(i) => {
                let ghost v0 = self.slots@;
                let old_slot = self.slots.remove(i);
                let replaced = old_slot.state.byte_len();
                let was_queued = matches!(old_slot.state, SlotState::Queued);
                self.slots.insert(i, slot);
                proof {
                    assert(self.slots@ =~= v0.update(i as int, slot));
                    assert(slots_view(self.slots@) =~= c0.slots.update(i as int, slot_view));
                    lemma_update_counts(c0.slots, i as int, slot_view);
                    lemma_update_keeps_distinct(c0.slots, i as int, slot_view);
                    lemma_remove_counts(c0.slots, i as int);
                    assert(old_slot@ == c0.slots[i as int]);
                }
                self.bytes_used = self.bytes_used.saturating_sub(replaced);
                self.bytes_used = self.bytes_used + bytes;
                if was_queued {
                    self.queued = self.queued - 1;
                }
            },
            None => {
                self.slots.push(slot);
                proof {
                    assert(slots_view(self.slots@) =~= c0.slots.push(slot_view));
                    assert(c0.slots.push(slot_view).drop_last() =~= c0.slots);
                    assert forall|a: int, b: int| 0 <= a < b < self@.slots.len()
                        implies #[trigger] self@.slots[a].key != #[trigger] self@.slots[b].key by {
                        if b == c0.slots.len() {
                            assert(c0.slots[a].key != key@);
                        } else {
                            assert(self@.slots[a] == c0.slots[a] && self@.slots[b] == c0.slots[b]);
                        }
                    }
                }
                self.bytes_used = self.bytes_used + bytes;
            },
        }
        self.evict();
    }




}

/// The browser's preview store.
pub struct ThumbnailCache {
    inner: Inner,
}

impl ThumbnailCache {
    #[verifier::type_invariant]
    spec fn well_formed(self) -> bool {
        cache_wf(self.inner@)
    }
}

impl View for ThumbnailCache {
    type V = ThumbCacheView;

    closed spec fn view(&self) -> ThumbCacheView {
        self.inner@
    }
}

impl ThumbnailCache {
    /// A cache with the default bounds.
    pub fn new() -> (c: ThumbnailCache)
        ensures
            cache_wf(c@),
            c@.slots.len() == 0,
            c@.byte_budget == DEFAULT_BYTE_BUDGET,
            c@.max_entries == DEFAULT_MAX_ENTRIES,
            c@.max_in_flight == DEFAULT_MAX_IN_FLIGHT,
            c@.bytes_used == 0 && c@.in_flight == 0 && c@.queued == 0,
            c@.frame == 1 && c@.seq == 0 && c@.clock == 0 && c@.progress == 0,
            c@.reconciled_at == u64::MAX,
    {
        ThumbnailCache::with_limits(DEFAULT_BYTE_BUDGET, DEFAULT_MAX_ENTRIES, DEFAULT_MAX_IN_FLIGHT)
    }

    /// A cache with caller-chosen bounds; an entry ceiling or a read cap
    /// of zero is raised to one.
    pub fn with_limits(byte_budget: usize, max_entries: usize, max_in_flight: usize) -> (c: ThumbnailCache)
        ensures
            cache_wf(c@),
            c@.slots.len() == 0,
            c@.byte_budget == byte_budget,
            c@.max_entries == if max_entries == 0 {
                1
            } else {
                max_entries
            },
            c@.max_in_flight == if max_in_flight == 0 {
                1
            } else {
                max_in_flight
            },
            c@.bytes_used == 0 && c@.in_flight == 0 && c@.queued == 0,
            c@.frame == 1 && c@.seq == 0 && c@.clock == 0 && c@.progress == 0,
            c@.reconciled_at == u64::MAX,
    {
        ThumbnailCache { inner: Inner::with_limits(byte_budget, max_entries, max_in_flight) }
    }

    /// Move the bookkeeping out, leaving an empty cache in its place.
    fn take_inner(&mut self) -> (r: Inner)
        ensures
            r@ == old(self)@,
            cache_wf(r@),
    {
        proof {
            use_type_invariant(&*self);
        }
        let mut r = Inner::with_limits(0, 1, 1);
        std::mem::swap(&mut r, &mut self.inner);
        r
    }

    /// Start a new visibility round: queued keys not re-requested after
    /// this are dropped instead of read.
    pub fn begin_frame(&mut self)
        requires
            old(self)@.frame < u64::MAX,
        ensures
            cache_wf(final(self)@),
            final(self)@ == (ThumbCacheView { frame: (old(self)@.frame + 1) as u64, ..old(self)@ }),
    {
        let mut inner = self.take_inner();
        inner.begin_frame();
        self.inner = inner;
    }

    /// The cached state of `key`, without requesting anything.
    pub fn peek(&self, key: &ThumbKey) -> (r: ThumbState)
        ensures
            shows(r, state_of(self@.slots, key@)),
    {
        self.inner.peek(key)
    }

    /// Forget every settled answer. Queued and running slots stay: their
    /// reads still have bookkeeping to do.
    pub fn clear(&mut self)
        ensures
            cache_wf(final(self)@),
            final(self)@ == (ThumbCacheView {
                slots: kept_slots(old(self)@.slots, SlotFilter::Pending),
                bytes_used: 0,
                ..old(self)@
            }),
    {
        let mut inner = self.take_inner();
        inner.clear();
        self.inner = inner;
    }

    /// Declare `key` visible: refresh its slot, or queue it. The read
    /// itself starts from [`Self::next_start`].
    pub fn note_request(&mut self, key: ThumbKey)
        requires
            old(self)@.clock < u64::MAX,
            old(self)@.seq < u64::MAX,
        ensures
            cache_wf(final(self)@),
            final(self)@ == request_spec(old(self)@, key@),
    {
        let mut inner = self.take_inner();
        inner.note_request(key);
        self.inner = inner;
    }

    /// Claim the next key to read, or `None` when the read cap is reached
    /// or nothing current is queued. Queued keys not requested during the
    /// current frame are dropped here, unread.
    pub fn next_start(&mut self) -> (r: Option<ThumbKey>)
        ensures
            cache_wf(final(self)@),
            (final(self)@, opt_key_view(r)) == next_start_spec(old(self)@),
    {
        let mut inner = self.take_inner();
        let r = inner.next_start();
        self.inner = inner;
        r
    }

    /// Apply one finished read of `key`: record its answer, free its read
    /// slot, and enforce the bounds. Start the next read with
    /// [`Self::next_start`].
    pub fn finish(&mut self, key: ThumbKey, read: Result<Option<Vec<u8>>, String>)
        requires
            old(self)@.progress < u64::MAX,
            old(self)@.clock < u64::MAX,
            total_bytes(old(self)@.slots) - bytes_at(old(self)@.slots, key@) + bytes_of(
                outcome_spec(read_view(read), key@.size),
            ) <= usize::MAX,
        ensures
            cache_wf(final(self)@),
            final(self)@ == finish_spec(old(self)@, key@, outcome_spec(read_view(read), key@.size)),
    {
        let mut inner = self.take_inner();
        inner.finish(key, read);
        self.inner = inner;
    }

    /// Decoded bytes currently held.
    pub fn bytes_used(&self) -> (r: usize)
        ensures
            r == self@.bytes_used,
    {
        self.inner.bytes_used
    }

    /// Cached answers held, pending and negative ones included.
    pub fn entry_count(&self) -> (r: usize)
        ensures
            r == self@.slots.len(),
    {
        self.inner.slots.len()
    }

    /// Reads running right now.
    pub fn in_flight(&self) -> (r: usize)
        ensures
            r == self@.in_flight,
    {
        self.inner.in_flight
    }

    /// Keys waiting for a read slot.
    pub fn queued(&self) -> (r: usize)
        ensures
            r == self@.queued,
    {
        self.inner.queued
    }
}

/// Removing a slot keeps the keys distinct.
proof fn lemma_remove_keeps_distinct(s: Seq<SlotView>, i: int)
    requires
        keys_distinct(s),
        0 <= i < s.len(),
    ensures
        keys_distinct(s.remove(i)),
{
    let r = s.remove(i);
    assert forall|a: int, b: int| 0 <= a < b < r.len() implies #[trigger] r[a].key != #[trigger] r[b].key by {
        let a2 = if a < i { a } else { a + 1 };
        let b2 = if b < i { b } else { b + 1 };
        assert(r[a] == s[a2] && r[b] == s[b2]);
    }
}

/// The pending slots hold every queued slot and no bytes.
proof fn lemma_pending_keeps_queued(s: Seq<SlotView>)
    ensures
        count_queued(kept_slots(s, SlotFilter::Pending)) == count_queued(s),
        total_bytes(kept_slots(s, SlotFilter::Pending)) == 0,
    decreases s.len(),
{
    if s.len() > 0 {
        lemma_pending_keeps_queued(s.drop_last());
        let rest = kept_slots(s.drop_last(), SlotFilter::Pending);
        if kept(SlotFilter::Pending, s.last()) {
            assert(rest.push(s.last()).drop_last() =~= rest);
        }
    }
}

/// Where `position` finds a key, and that it finds it wherever it is.
proof fn lemma_position(s: Seq<SlotView>, k: ThumbKeyView)
    ensures
        match position(s, k) {
            Some(i) => 0 <= i < s.len() && s[i].key == k,
            None => forall|j: int| 0 <= j < s.len() ==> #[trigger] s[j].key != k,
        },
        keys_distinct(s) ==> forall|j: int| 0 <= j < s.len() && #[trigger] s[j].key == k ==> position(s, k) == Some(j),
    decreases s.len(),
{
    if s.len() > 0 {
        let p = s.drop_last();
        lemma_position(p, k);
        assert forall|j: int| 0 <= j < p.len() implies #[trigger] p[j] == s[j] by {}
        if s.last().key != k {
            assert(position(s, k) == position(p, k));
            if position(p, k) is None {
                assert forall|j: int| 0 <= j < s.len() implies #[trigger] s[j].key != k by {
                    if j < p.len() {
                        assert(p[j] == s[j]);
                    }
                }
            }
        }
        if keys_distinct(s) {
            assert(keys_distinct(p)) by {
                assert forall|a: int, b: int| 0 <= a < b < p.len() implies #[trigger] p[a].key != #[trigger] p[b].key by {
                    assert(p[a] == s[a] && p[b] == s[b]);
                }
            }
            assert forall|j: int| 0 <= j < s.len() && #[trigger] s[j].key == k implies position(s, k) == Some(j) by {
                if j < p.len() {
                    assert(p[j] == s[j]);
                    if s.last().key == k {
                        assert(s[j].key != s[s.len() - 1].key);
                    }
                }
            }
        }
    }
}

/// The counters over a slot sequence with one slot removed.
proof fn lemma_remove_counts(s: Seq<SlotView>, i: int)
    requires
        0 <= i < s.len(),
    ensures
        total_bytes(s.remove(i)) + bytes_of(s[i].state) == total_bytes(s),
        count_queued(s.remove(i)) + (if s[i].state is Queued { 1int } else { 0int }) == count_queued(s),
        count_in_flight(s.remove(i)) + (if s[i].state is InFlight { 1int } else { 0int }) == count_in_flight(s),
    decreases s.len(),
{
    if i == s.len() - 1 {
        assert(s.remove(i) =~= s.drop_last());
    } else {
        let p = s.drop_last();
        lemma_remove_counts(p, i);
        assert(s.remove(i).drop_last() =~= p.remove(i));
        assert(s.remove(i).last() == s.last());
        assert(p[i] == s[i]);
    }
}

/// The counters over a slot sequence with one slot replaced.
proof fn lemma_update_counts(s: Seq<SlotView>, i: int, v: SlotView)
    requires
        0 <= i < s.len(),
    ensures
        total_bytes(s.update(i, v)) + bytes_of(s[i].state) == total_bytes(s) + bytes_of(v.state),
        count_queued(s.update(i, v)) + (if s[i].state is Queued { 1int } else { 0int })
            == count_queued(s) + (if v.state is Queued { 1int } else { 0int }),
        count_in_flight(s.update(i, v)) + (if s[i].state is InFlight { 1int } else { 0int })
            == count_in_flight(s) + (if v.state is InFlight { 1int } else { 0int }),
    decreases s.len(),
{
    if i == s.len() - 1 {
        assert(s.update(i, v).drop_last() =~= s.drop_last());
    } else {
        let p = s.drop_last();
        lemma_update_counts(p, i, v);
        assert(s.update(i, v).drop_last() =~= p.update(i, v));
        assert(p[i] == s[i]);
    }
}

/// The victim is an evictable slot of the sequence.
proof fn lemma_lru_victim(s: Seq<SlotView>, newest: u64)
    ensures
        lru_victim(s, newest) matches Some(i) ==> 0 <= i < s.len() && evictable(s[i], newest)
            && forall|j: int| 0 <= j < s.len() && evictable(s[j], newest) ==> s[i].touched <= #[trigger] s[j].touched,
        lru_victim(s, newest) is None ==> forall|j: int| 0 <= j < s.len() ==> !evictable(#[trigger] s[j], newest),
    decreases s.len(),
{
    if s.len() > 0 {
        let p = s.drop_last();
        let n = s.len() - 1;
        lemma_lru_victim(p, newest);
        assert forall|j: int| 0 <= j < p.len() implies #[trigger] p[j] == s[j] by {}
        let v = lru_victim(p, newest);
        if let Some(i) = lru_victim(s, newest) {
            assert forall|j: int| 0 <= j < s.len() && evictable(s[j], newest) implies s[i].touched <= #[trigger] s[j].touched by {
                if j < n {
                    assert(evictable(p[j], newest));
                }
                if i < n {
                    assert(v == Some(i));
                    assert(p[i] == s[i]);
                }
            }
        } else {
            assert forall|j: int| 0 <= j < s.len() implies !evictable(#[trigger] s[j], newest) by {
                if j < n {
                    assert(p[j] == s[j]);
                }
            }
        }
    }
}

/// Replacing a slot by one with the same key keeps the keys distinct.
proof fn lemma_update_keeps_distinct(s: Seq<SlotView>, i: int, v: SlotView)
    requires
        keys_distinct(s),
        0 <= i < s.len(),
        v.key == s[i].key,
    ensures
        keys_distinct(s.update(i, v)),
{
    let u = s.update(i, v);
    assert forall|a: int, b: int| 0 <= a < b < u.len() implies #[trigger] u[a].key != #[trigger] u[b].key by {
        assert(u[a].key == s[a].key && u[b].key == s[b].key);
    }
}

/// The slot counters never exceed the number of slots.
proof fn lemma_count_within_len(s: Seq<SlotView>)
    ensures
        count_queued(s) <= s.len(),
        count_in_flight(s) <= s.len(),
    decreases s.len(),
{
    if s.len() > 0 {
        lemma_count_within_len(s.drop_last());
    }
}

/// Dropping stale queued slots drops no bytes.
proof fn lemma_fresh_keeps_bytes(s: Seq<SlotView>, frame: u64)
    ensures
        total_bytes(kept_slots(s, SlotFilter::Fresh(frame))) == total_bytes(s),
    decreases s.len(),
{
    if s.len() > 0 {
        lemma_fresh_keeps_bytes(s.drop_last(), frame);
        let rest = kept_slots(s.drop_last(), SlotFilter::Fresh(frame));
        assert(rest.push(s.last()).drop_last() =~= rest);
    }
}

/// The newest queued slot is a queued slot of the sequence, requested no
/// earlier than any other queued slot.
proof fn lemma_newest_queued(s: Seq<SlotView>)
    ensures
        newest_queued(s) matches Some(i) ==> 0 <= i < s.len() && s[i].state is Queued
            && forall|j: int| 0 <= j < s.len() && s[j].state is Queued ==> #[trigger] s[j].requested_seq <= s[i].requested_seq,
        newest_queued(s) is None ==> forall|j: int| 0 <= j < s.len() ==> !(#[trigger] s[j].state is Queued),
    decreases s.len(),
{
    if s.len() > 0 {
        let p = s.drop_last();
        let n = s.len() - 1;
        lemma_newest_queued(p);
        assert forall|j: int| 0 <= j < p.len() implies #[trigger] p[j] == s[j] by {}
        let v = newest_queued(p);
        if let Some(i) = newest_queued(s) {
            assert forall|j: int| 0 <= j < s.len() && s[j].state is Queued implies #[trigger] s[j].requested_seq <= s[i].requested_seq by {
                if j < n {
                    assert(p[j].state is Queued);
                }
                if i < n {
                    assert(v == Some(i));
                    assert(p[i] == s[i]);
                }
            }
        } else {
            assert forall|j: int| 0 <= j < s.len() implies !(#[trigger] s[j].state is Queued) by {
                if j < n {
                    assert(p[j] == s[j]);
                }
            }
        }
    }
}

// ---------------------------------------------------------------------
// Laws
// ---------------------------------------------------------------------

/// Eviction never drops a queued or running slot, nor the slot touched
/// last; it only ever drops slots; and when it stops, either the byte
/// budget and the entry ceiling both hold or every slot left is one it
/// may not drop.
pub proof fn lemma_eviction_is_bounded_and_safe(s: Seq<SlotView>, budget: usize, max_entries: usize, newest: u64)
    ensures
        forall|x: SlotView| #[trigger] s.contains(x) && (is_pending(x.state) || x.touched == newest)
            ==> evicted(s, budget, max_entries, newest).contains(x),
        forall|x: SlotView| #[trigger] evicted(s, budget, max_entries, newest).contains(x) ==> s.contains(x),
        (total_bytes(evicted(s, budget, max_entries, newest)) <= budget
            && evicted(s, budget, max_entries, newest).len() <= max_entries)
            || forall|j: int| 0 <= j < evicted(s, budget, max_entries, newest).len()
                ==> !evictable(#[trigger] evicted(s, budget, max_entries, newest)[j], newest),
{
    lemma_evicted_members(s, budget, max_entries, newest);
}

/// A requested key is always held afterwards: a key already cached keeps
/// its answer, and a new one is queued (and a queued slot is never
/// evicted).
pub proof fn lemma_request_holds_the_key(c: ThumbCacheView, k: ThumbKeyView)
    requires
        cache_wf(c),
    ensures
        state_of(request_spec(c, k).slots, k) == match state_of(c.slots, k) {
            Some(st) => Some(st),
            None => Some(SlotStateView::Queued),
        },
{
    lemma_position(c.slots, k);
    let touched = (c.clock + 1) as u64;
    let seq = (c.seq + 1) as u64;
    match position(c.slots, k) {
        Some(i) => {
            let u = c.slots.update(i, refreshed(c.slots[i], touched, c.frame, seq));
            lemma_update_keeps_distinct(c.slots, i, refreshed(c.slots[i], touched, c.frame, seq));
            assert(u.contains(u[i]));
            lemma_member_is_found(u, u[i]);
        },
        None => {
            let fresh = SlotView { key: k, state: SlotStateView::Queued, touched, requested_frame: c.frame, requested_seq: seq };
            let grown = c.slots.push(fresh);
            assert(keys_distinct(grown)) by {
                assert forall|a: int, b: int| 0 <= a < b < grown.len() implies #[trigger] grown[a].key != #[trigger] grown[b].key by {
                    if b == c.slots.len() {
                        assert(grown[a] == c.slots[a]);
                    } else {
                        assert(grown[a] == c.slots[a] && grown[b] == c.slots[b]);
                    }
                }
            }
            assert(grown[grown.len() - 1] == fresh);
            assert(grown.contains(fresh));
            lemma_evicted_members(grown, c.byte_budget, c.max_entries, touched);
            lemma_member_is_found(evicted(grown, c.byte_budget, c.max_entries, touched), fresh);
        },
    }
}

/// A finished read's answer is always held afterwards, whatever it is: a
/// preview bigger than the whole budget, an absence and a failure are all
/// cached rather than re-read, because the slot just touched is never
/// evicted.
pub proof fn lemma_finished_answer_is_kept(c: ThumbCacheView, k: ThumbKeyView, outcome: SlotStateView)
    requires
        cache_wf(c),
    ensures
        state_of(finish_spec(c, k, outcome).slots, k) == Some(outcome),
{
    lemma_position(c.slots, k);
    let touched = (c.clock + 1) as u64;
    let slot = SlotView { key: k, state: outcome, touched, requested_frame: c.frame, requested_seq: c.seq };
    let placed = match position(c.slots, k) {
        Some(i) => c.slots.update(i, slot),
        None => c.slots.push(slot),
    };
    match position(c.slots, k) {
        Some(i) => {
            lemma_update_keeps_distinct(c.slots, i, slot);
            assert(placed[i] == slot);
        },
        None => {
            assert(keys_distinct(placed)) by {
                assert forall|a: int, b: int| 0 <= a < b < placed.len() implies #[trigger] placed[a].key != #[trigger] placed[b].key by {
                    if b == c.slots.len() {
                        assert(placed[a] == c.slots[a]);
                    } else {
                        assert(placed[a] == c.slots[a] && placed[b] == c.slots[b]);
                    }
                }
            }
            assert(placed[placed.len() - 1] == slot);
        },
    }
    assert(placed.contains(slot));
    lemma_evicted_members(placed, c.byte_budget, c.max_entries, touched);
    lemma_member_is_found(evicted(placed, c.byte_budget, c.max_entries, touched), slot);
}

/// A read starts only below the read cap, and the key it starts is the
/// most recently requested of the keys queued and requested during the
/// current frame; every queued key left afterwards was requested during
/// the current frame, and the started key is now in flight.
pub proof fn lemma_started_read_is_newest_visible(c: ThumbCacheView)
    requires
        cache_wf(c),
        next_start_spec(c).1 is Some,
    ensures
        next_start_spec(c).0.in_flight <= next_start_spec(c).0.max_in_flight,
        position(c.slots, next_start_spec(c).1->0) matches Some(i) && c.slots[i].state is Queued
            && c.slots[i].requested_frame == c.frame
            && forall|j: int| 0 <= j < c.slots.len() && c.slots[j].state is Queued && c.slots[j].requested_frame == c.frame
                ==> #[trigger] c.slots[j].requested_seq <= c.slots[i].requested_seq,
        forall|j: int| 0 <= j < next_start_spec(c).0.slots.len() && next_start_spec(c).0.slots[j].state is Queued
            ==> #[trigger] next_start_spec(c).0.slots[j].requested_frame == c.frame,
        state_of(next_start_spec(c).0.slots, next_start_spec(c).1->0) == Some(SlotStateView::InFlight),
{
    let f = SlotFilter::Fresh(c.frame);
    let c1 = if c.in_flight >= c.max_in_flight {
        ThumbCacheView { reconciled_at: c.progress, in_flight: count_in_flight(c.slots) as usize, ..c }
    } else {
        c
    };
    let s2 = kept_slots(c1.slots, f);
    assert(c1.slots == c.slots && c1.frame == c.frame);
    lemma_kept_slots_members(c.slots, f);
    lemma_newest_queued(s2);
    let b = newest_queued(s2)->0;
    let x = s2[b];
    assert(s2.contains(x));
    assert(c.slots.contains(x));
    lemma_member_is_found(c.slots, x);
    let i = position(c.slots, x.key)->0;
    assert forall|j: int| 0 <= j < c.slots.len() && c.slots[j].state is Queued && c.slots[j].requested_frame == c.frame
        implies #[trigger] c.slots[j].requested_seq <= c.slots[i].requested_seq by {
        assert(c.slots.contains(c.slots[j]));
        assert(s2.contains(c.slots[j]));
        let k = choose|k: int| 0 <= k < s2.len() && s2[k] == c.slots[j];
        assert(s2[k].state is Queued);
    }
    let started = SlotView { state: SlotStateView::InFlight, ..x };
    let u = s2.update(b, started);
    assert forall|j: int| 0 <= j < u.len() && u[j].state is Queued implies #[trigger] u[j].requested_frame == c.frame by {
        assert(j != b);
        assert(u[j] == s2[j]);
        assert(s2.contains(s2[j]));
    }
    lemma_update_keeps_distinct(s2, b, started);
    assert(u[b] == started);
    assert(u.contains(started));
    lemma_member_is_found(u, started);
}

/// A slot held by a sequence with distinct keys is what `position` finds
/// for its key.
proof fn lemma_member_is_found(s: Seq<SlotView>, x: SlotView)
    requires
        keys_distinct(s),
        s.contains(x),
    ensures
        position(s, x.key) matches Some(i) && s[i] == x,
        state_of(s, x.key) == Some(x.state),
{
    let j = choose|j: int| 0 <= j < s.len() && s[j] == x;
    lemma_position(s, x.key);
    assert(s[j].key == x.key);
}

/// The slots a filter keeps are exactly the slots of the sequence it
/// keeps, and their keys stay distinct.
proof fn lemma_kept_slots_members(s: Seq<SlotView>, f: SlotFilter)
    ensures
        forall|x: SlotView| #[trigger] kept_slots(s, f).contains(x) <==> s.contains(x) && kept(f, x),
        keys_distinct(s) ==> keys_distinct(kept_slots(s, f)),
    decreases s.len(),
{
    if s.len() > 0 {
        let p = s.drop_last();
        let r = kept_slots(p, f);
        lemma_kept_slots_members(p, f);
        assert forall|x: SlotView| #[trigger] kept_slots(s, f).contains(x) <==> s.contains(x) && kept(f, x) by {
            if s.contains(x) && kept(f, x) {
                let j = choose|j: int| 0 <= j < s.len() && s[j] == x;
                if j < p.len() {
                    assert(p[j] == x);
                    assert(p.contains(x));
                    assert(r.contains(x));
                    let k = choose|k: int| 0 <= k < r.len() && r[k] == x;
                    if kept(f, s.last()) {
                        assert(r.push(s.last())[k] == x);
                    }
                } else {
                    assert(r.push(s.last())[r.len() as int] == x);
                }
            }
            if kept_slots(s, f).contains(x) {
                let k = choose|k: int| 0 <= k < kept_slots(s, f).len() && kept_slots(s, f)[k] == x;
                if kept(f, s.last()) && k == r.len() {
                    assert(s[s.len() - 1] == x);
                } else {
                    assert(r[k] == x);
                    assert(r.contains(x));
                    let j = choose|j: int| 0 <= j < p.len() && p[j] == x;
                    assert(s[j] == x);
                }
            }
        }
        if keys_distinct(s) {
            assert(keys_distinct(p)) by {
                assert forall|a: int, b: int| 0 <= a < b < p.len() implies #[trigger] p[a].key != #[trigger] p[b].key by {
                    assert(p[a] == s[a] && p[b] == s[b]);
                }
            }
            if kept(f, s.last()) {
                let t = r.push(s.last());
                assert forall|a: int, b: int| 0 <= a < b < t.len() implies #[trigger] t[a].key != #[trigger] t[b].key by {
                    if b == r.len() {
                        assert(r.contains(t[a]));
                        let j = choose|j: int| 0 <= j < p.len() && p[j] == t[a];
                        assert(s[j] == t[a]);
                    } else {
                        assert(t[a] == r[a] && t[b] == r[b]);
                    }
                }
            }
        }
    }
}

/// What eviction keeps: only slots it was given; every slot it may not
/// evict; distinct keys; and, when it stops, either both bounds hold or
/// nothing evictable is left.
proof fn lemma_evicted_members(s: Seq<SlotView>, budget: usize, max_entries: usize, newest: u64)
    ensures
        forall|x: SlotView| #[trigger] evicted(s, budget, max_entries, newest).contains(x) ==> s.contains(x),
        forall|x: SlotView| #[trigger] s.contains(x) && !evictable(x, newest) ==> evicted(s, budget, max_entries, newest).contains(x),
        keys_distinct(s) ==> keys_distinct(evicted(s, budget, max_entries, newest)),
        !over_bounds(evicted(s, budget, max_entries, newest), budget, max_entries)
            || forall|j: int| 0 <= j < evicted(s, budget, max_entries, newest).len()
                ==> !evictable(#[trigger] evicted(s, budget, max_entries, newest)[j], newest),
    decreases s.len(),
{
    lemma_lru_victim(s, newest);
    if over_bounds(s, budget, max_entries) {
        if let Some(i) = lru_victim(s, newest) {
            let r = s.remove(i);
            lemma_evicted_members(r, budget, max_entries, newest);
            assert forall|x: SlotView| #[trigger] r.contains(x) implies s.contains(x) by {
                let k = choose|k: int| 0 <= k < r.len() && r[k] == x;
                if k < i {
                    assert(s[k] == x);
                } else {
                    assert(s[k + 1] == x);
                }
            }
            assert forall|x: SlotView| #[trigger] s.contains(x) && !evictable(x, newest) implies r.contains(x) by {
                let j = choose|j: int| 0 <= j < s.len() && s[j] == x;
                assert(j != i);
                if j < i {
                    assert(r[j] == x);
                } else {
                    assert(r[j - 1] == x);
                }
            }
            if keys_distinct(s) {
                lemma_remove_keeps_distinct(s, i);
            }
        }
    }
}

/// Facts about the prefix `s.take(i + 1)` of a sequence, for stepping a
/// loop over it with the recursive definitions above.
proof fn lemma_take_step<T>(s: Seq<T>, i: int)
    requires
        0 <= i < s.len(),
    ensures
        s.take(i + 1).drop_last() == s.take(i),
        s.take(i + 1).last() == s[i],
        s.take(i + 1).len() == i + 1,
{
    assert(s.take(i + 1).drop_last() =~= s.take(i));
}

} // verus!
