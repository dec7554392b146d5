//! The cache of rendered palette icons for node types.
//!
//! Outcomes are memoised by type id, pixel size and [`RENDER_VERSION`],
//! failures included: a type that renders nothing caches `None`, so the
//! strip stops asking and keeps its glyph. [`NodeIconCache::render_next`]
//! renders at most one missing icon per call, so the strip is on screen
//! before the first render runs and the icons fill in over the next
//! frames.
use vstd::prelude::*;

use crate::mesh_raster::IconImage;
use crate::sharing::share_arc;
use crate::text::str_eq;

verus! {

/// Bumped whenever the rasterizer's output changes, so no icon produced
/// by an older rendering rule can be served.
pub const RENDER_VERSION: u32 = 3;

/// A cache key: the type id, the pixel size, the render version.
pub type IconKey = (Seq<char>, u32, u32);

/// The key of `type_id` at `size` under the current render version.
pub open spec fn key_of(type_id: Seq<char>, size: u32) -> IconKey {
    (type_id, size, RENDER_VERSION)
}

struct IconEntry {
    type_id: String,
    size: u32,
    version: u32,
    icon: Option<IconImage>,
}

spec fn entry_key(e: IconEntry) -> IconKey {
    (e.type_id@, e.size, e.version)
}

spec fn entries_map(s: Seq<IconEntry>) -> Map<IconKey, Option<IconImage>>
    decreases s.len(),
{
    if s.len() == 0 {
        Map::empty()
    } else {
        entries_map(s.drop_last()).insert(entry_key(s.last()), s.last().icon)
    }
}

spec fn keys_distinct(s: Seq<IconEntry>) -> bool {
    forall|i: int, j: int|
        0 <= i < s.len() && 0 <= j < s.len() && i != j ==> entry_key(#[trigger] s[i]) != entry_key(
            #[trigger] s[j],
        )
}

/// Rendered node-type icons, memoised with their failures.
pub struct NodeIconCache {
    entries: Vec<IconEntry>,
}

impl View for NodeIconCache {
    type V = Map<IconKey, Option<IconImage>>;

    closed spec fn view(&self) -> Map<IconKey, Option<IconImage>> {
        entries_map(self.entries@)
    }
}

/// `i` is the first of `ids` that `cache` has no outcome for at `size`.
pub open spec fn is_first_unresolved(
    cache: Map<IconKey, Option<IconImage>>,
    ids: Seq<&str>,
    size: u32,
    i: int,
) -> bool {
    &&& 0 <= i < ids.len()
    &&& !cache.dom().contains(key_of(ids[i]@, size))
    &&& forall|j: int| 0 <= j < i ==> cache.dom().contains(#[trigger] key_of(ids[j]@, size))
}

/// The first of `ids` that `cache` has no outcome for at `size`.
pub open spec fn first_unresolved(cache: Map<IconKey, Option<IconImage>>, ids: Seq<&str>, size: u32) -> Option<
    int,
> {
    if exists|i: int| is_first_unresolved(cache, ids, size, i) {
        Some(choose|i: int| is_first_unresolved(cache, ids, size, i))
    } else {
        None
    }
}

proof fn lemma_entries_lookup(s: Seq<IconEntry>, i: int)
    requires
        keys_distinct(s),
        0 <= i < s.len(),
    ensures
        entries_map(s).dom().contains(entry_key(s[i])),
        entries_map(s)[entry_key(s[i])] == s[i].icon,
    decreases s.len(),
{
    if i < s.len() - 1 {
        let init = s.drop_last();
        assert(init[i] == s[i]);
        assert forall|a: int, b: int|
            0 <= a < init.len() && 0 <= b < init.len() && a != b implies entry_key(#[trigger] init[a])
            != entry_key(#[trigger] init[b]) by {
            assert(init[a] == s[a] && init[b] == s[b]);
        }
        lemma_entries_lookup(init, i);
        assert(entry_key(s[i]) != entry_key(s[s.len() - 1]));
    }
}

proof fn lemma_entries_missing(s: Seq<IconEntry>, k: IconKey)
    requires
        forall|i: int| 0 <= i < s.len() ==> entry_key(#[trigger] s[i]) != k,
    ensures
        !entries_map(s).dom().contains(k),
    decreases s.len(),
{
    if s.len() > 0 {
        let init = s.drop_last();
        assert forall|i: int| 0 <= i < init.len() implies entry_key(#[trigger] init[i]) != k by {
            assert(init[i] == s[i]);
        }
        lemma_entries_missing(init, k);
        assert(entry_key(s[s.len() - 1]) != k);
    }
}

proof fn lemma_entries_update(s: Seq<IconEntry>, i: int, e: IconEntry)
    requires
        keys_distinct(s),
        0 <= i < s.len(),
        entry_key(e) == entry_key(s[i]),
    ensures
        entries_map(s.update(i, e)) == entries_map(s).insert(entry_key(e), e.icon),
        keys_distinct(s.update(i, e)),
    decreases s.len(),
{
    let t = s.update(i, e);
    assert forall|a: int, b: int|
        0 <= a < t.len() && 0 <= b < t.len() && a != b implies entry_key(#[trigger] t[a]) != entry_key(
        #[trigger] t[b]) by {
        if a != i {
            assert(t[a] == s[a]);
        }
        if b != i {
            assert(t[b] == s[b]);
        }
    }
    let init = s.drop_last();
    assert forall|a: int, b: int|
        0 <= a < init.len() && 0 <= b < init.len() && a != b implies entry_key(#[trigger] init[a])
        != entry_key(#[trigger] init[b]) by {
        assert(init[a] == s[a] && init[b] == s[b]);
    }
    if i == s.len() - 1 {
        assert(t.drop_last() =~= init);
        assert forall|a: int| 0 <= a < init.len() implies entry_key(#[trigger] init[a]) != entry_key(e) by {
            assert(init[a] == s[a]);
        }
        lemma_entries_missing(init, entry_key(e));
        assert(entries_map(t) =~= entries_map(s).insert(entry_key(e), e.icon));
    } else {
        lemma_entries_update(init, i, e);
        assert(t.drop_last() =~= init.update(i, e));
        assert(t.last() == s.last());
        assert(entry_key(s.last()) != entry_key(e)) by {
            assert(s.last() == s[s.len() - 1]);
        }
        assert(entries_map(t) =~= entries_map(s).insert(entry_key(e), e.icon));
    }
}

/// Another handle to the same icon.
fn share_icon(icon: &IconImage) -> (r: IconImage)
    ensures
        r == *icon,
{
    IconImage { width: icon.width, height: icon.height, rgba: share_arc(&icon.rgba) }
}

impl NodeIconCache {
    /// The cache's invariant: no two entries share a key.
    #[verifier::type_invariant]
    spec fn inv(self) -> bool {
        keys_distinct(self.entries@)
    }

    /// An empty cache.
    pub fn new() -> (r: NodeIconCache)
        ensures
            r@ == Map::<IconKey, Option<IconImage>>::empty(),
    {
        let r = NodeIconCache { entries: Vec::new() };
        assert(r@ =~= Map::<IconKey, Option<IconImage>>::empty());
        r
    }

    /// Index of the entry for `type_id` at `size`, if any.
    fn find(&self, type_id: &str, size: u32) -> (r: Option<usize>)
        ensures
            match r {
                Some(i) => i < self.entries@.len() && entry_key(self.entries@[i as int]) == key_of(
                    type_id@,
                    size,
                ),
                None => !self@.dom().contains(key_of(type_id@, size)),
            },
    {
        let mut i: usize = 0;
        while i < self.entries.len()
            invariant
                i <= self.entries@.len(),
                forall|j: int| 0 <= j < i ==> entry_key(#[trigger] self.entries@[j]) != key_of(type_id@, size),
            decreases self.entries@.len() - i,
        {
            let e = &self.entries[i];
            if e.size == size && e.version == RENDER_VERSION && str_eq(e.type_id.as_str(), type_id) {
                return Some(i);
            }
            i = i + 1;
        }
        proof {
            lemma_entries_missing(self.entries@, key_of(type_id@, size));
        }
        None
    }

    /// The rendered `size × size` icon for `type_id`, if one has already
    /// been generated. Never renders; a miss, or a cached failure, is
    /// `None`.
    pub fn icon(&self, type_id: &str, size: u32) -> (r: Option<IconImage>)
        ensures
            r == (if self@.dom().contains(key_of(type_id@, size)) {
                self@[key_of(type_id@, size)]
            } else {
                None
            }),
    {
        proof {
            use_type_invariant(self);
        }
        match self.find(type_id, size) {
            Some(i) => {
                proof {
                    lemma_entries_lookup(self.entries@, i as int);
                }
                match &self.entries[i].icon {
                    Some(img) => Some(share_icon(img)),
                    None => None,
                }
            },
            None => None,
        }
    }

    /// True once `type_id` has been attempted at `size`, whatever the
    /// outcome.
    pub fn is_resolved(&self, type_id: &str, size: u32) -> (r: bool)
        ensures
            r == self@.dom().contains(key_of(type_id@, size)),
    {
        proof {
            use_type_invariant(self);
        }
        match self.find(type_id, size) {
            Some(i) => {
                proof {
                    lemma_entries_lookup(self.entries@, i as int);
                }
                true
            },
            None => false,
        }
    }

    /// Record the outcome of rendering `type_id` at `size`, replacing any
    /// earlier one.
    pub fn record(&mut self, type_id: &str, size: u32, icon: Option<IconImage>)
        ensures
            final(self)@ == old(self)@.insert(key_of(type_id@, size), icon),
    {
        proof {
            use_type_invariant(&*self);
        }
        let e = IconEntry { type_id: type_id.to_string(), size, version: RENDER_VERSION, icon };
        let found = self.find(type_id, size);
        let ghost before = self.entries@;
        let mut entries: Vec<IconEntry> = Vec::new();
        std::mem::swap(&mut entries, &mut self.entries);
        match found {
            Some(i) => {
                proof {
                    lemma_entries_update(before, i as int, e);
                }
                entries.set(i, e);
            },
            None => {
                proof {
                    let after = before.push(e);
                    assert(after.drop_last() =~= before);
                    assert forall|a: int, b: int|
                        0 <= a < after.len() && 0 <= b < after.len() && a != b implies entry_key(
                        #[trigger] after[a]) != entry_key(#[trigger] after[b]) by {
                        if a < before.len() && b < before.len() {
                            assert(after[a] == before[a] && after[b] == before[b]);
                        } else if a < before.len() {
                            assert(after[a] == before[a]);
                            lemma_entries_lookup(before, a);
                        } else if b < before.len() {
                            assert(after[b] == before[b]);
                            lemma_entries_lookup(before, b);
                        }
                    }
                }
                entries.push(e);
                assert(entries@ == before.push(e));
            },
        }
        self.entries = entries;
    }

    /// Render the first of `type_ids` that has no outcome yet at `size`
    /// and record what `render` gives for it. Returns `true` when it did
    /// work; once every id is resolved it does nothing and returns
    /// `false`.
    pub fn render_next<F: Fn(&str) -> Option<IconImage>>(&mut self, type_ids: &[&str], size: u32, render: F) -> (r: bool)
        requires
            forall|i: int| 0 <= i < type_ids@.len() ==> call_requires(render, (#[trigger] type_ids@[i],)),
        ensures
            match first_unresolved(old(self)@, type_ids@, size) {
                None => !r && final(self)@ == old(self)@,
                Some(i) => r && exists|out: Option<IconImage>|
                    call_ensures(render, (type_ids@[i],), out) && final(self)@ == old(self)@.insert(
                        key_of(type_ids@[i]@, size),
                        out,
                    ),
            },
    {
        let ghost cache = self@;
        let mut i: usize = 0;
        while i < type_ids.len()
            invariant
                self@ == cache,
                cache == old(self)@,
                i <= type_ids@.len(),
                forall|j: int| 0 <= j < type_ids@.len() ==> call_requires(render, (#[trigger] type_ids@[j],)),
                forall|j: int| 0 <= j < i ==> cache.dom().contains(#[trigger] key_of(type_ids@[j]@, size)),
            decreases type_ids@.len() - i,
        {
            let id = type_ids[i];
            if !self.is_resolved(id, size) {
                proof {
                    let w = i as int;
                    assert(is_first_unresolved(cache, type_ids@, size, w));
                    let c = first_unresolved(cache, type_ids@, size).unwrap();
                    assert(c == w) by {
                        if c < w {
                            assert(cache.dom().contains(key_of(type_ids@[c]@, size)));
                        } else if c > w {
                            assert(cache.dom().contains(key_of(type_ids@[w]@, size)));
                        }
                    }
                }
                let rendered = render(id);
                let ghost out = rendered;
                self.record(id, size, rendered);
                assert(call_ensures(render, (type_ids@[i as int],), out));
                return true;
            }
            i = i + 1;
        }
        assert forall|j: int| !is_first_unresolved(cache, type_ids@, size, j) by {
            if 0 <= j < type_ids@.len() {
                assert(cache.dom().contains(key_of(type_ids@[j]@, size)));
            }
        }
        false
    }
}

} // verus!
