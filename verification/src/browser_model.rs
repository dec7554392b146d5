//! The file browser's model: which directory is on screen, its listing,
//! the search filter and the single selection.
//!
//! Listings arrive asynchronously, so every refresh is numbered: a
//! listing that lands for an older refresh than the newest one is
//! dropped, and can never replace what the user is looking at.
//! Directories sort first, then names case-insensitively, then exactly.
use vstd::prelude::*;

use crate::text::{chars_of, str_eq};

verus! {

broadcast use vstd::string::group_string_axioms;

/// Shown in place of a listing when the build has no storage provider.
pub const NO_PROVIDERS: &'static str = "No storage providers are available in this build.";

/// Unicode lowercase of `s`, as `str::to_lowercase` computes it.
pub uninterp spec fn lowercase(s: Seq<char>) -> Seq<char>;

/// `str::to_lowercase`. Claimed: the result is a function of the
/// argument alone.
#[verifier::external_body]
fn lowercase_of(s: &str) -> (r: String)
    ensures
        r@ == lowercase(s@),
{
    s.to_lowercase()
}

/// What the model reads of one listed entry.
#[derive(Debug, Clone, PartialEq, Eq)]
pub struct EntryInfo {
    /// The entry's storage URI, as text.
    pub uri: String,
    /// Its file name.
    pub name: String,
    pub is_dir: bool,
}

/// The mathematical content of an [`EntryInfo`].
pub struct EntryView {
    pub uri: Seq<char>,
    pub name: Seq<char>,
    pub is_dir: bool,
}

impl View for EntryInfo {
    type V = EntryView;

    open spec fn view(&self) -> EntryView {
        EntryView { uri: self.uri@, name: self.name@, is_dir: self.is_dir }
    }
}

impl EntryInfo {
    /// An exact copy.
    pub fn duplicate(&self) -> (r: EntryInfo)
        ensures
            r@ == self@,
    {
        EntryInfo { uri: self.uri.clone(), name: self.name.clone(), is_dir: self.is_dir }
    }
}

/// The views of a run of entries.
pub open spec fn entries_view(v: Seq<EntryInfo>) -> Seq<EntryView> {
    v.map_values(|e: EntryInfo| e@)
}

/// `a` sorts strictly before `b` as strings compare: character by
/// character by code point, a proper prefix first.
pub open spec fn seq_lt(a: Seq<char>, b: Seq<char>) -> bool
    decreases a.len(),
{
    if a.len() == 0 {
        b.len() > 0
    } else if b.len() == 0 {
        false
    } else if a[0] != b[0] {
        a[0] < b[0]
    } else {
        seq_lt(a.drop_first(), b.drop_first())
    }
}

/// `a` lists strictly before `b`: directories first, then by lowercase
/// name, then by exact name.
pub open spec fn entry_lt(a: EntryView, b: EntryView) -> bool {
    if a.is_dir != b.is_dir {
        a.is_dir
    } else if lowercase(a.name) != lowercase(b.name) {
        seq_lt(lowercase(a.name), lowercase(b.name))
    } else {
        seq_lt(a.name, b.name)
    }
}

/// No entry lists strictly before one ahead of it.
pub open spec fn sorted_entries(s: Seq<EntryView>) -> bool {
    forall|i: int, j: int| 0 <= i < j < s.len() ==> !entry_lt(#[trigger] s[j], #[trigger] s[i])
}

proof fn lemma_seq_lt_irreflexive(a: Seq<char>)
    ensures
        !seq_lt(a, a),
    decreases a.len(),
{
    if a.len() > 0 {
        lemma_seq_lt_irreflexive(a.drop_first());
    }
}

proof fn lemma_seq_lt_transitive(a: Seq<char>, b: Seq<char>, c: Seq<char>)
    requires
        seq_lt(a, b),
        seq_lt(b, c),
    ensures
        seq_lt(a, c),
    decreases a.len(),
{
    if a.len() > 0 && b.len() > 0 && c.len() > 0 && a[0] == b[0] && b[0] == c[0] {
        lemma_seq_lt_transitive(a.drop_first(), b.drop_first(), c.drop_first());
    }
}

proof fn lemma_seq_lt_total(a: Seq<char>, b: Seq<char>)
    requires
        a != b,
    ensures
        seq_lt(a, b) || seq_lt(b, a),
    decreases a.len(),
{
    if a.len() > 0 && b.len() > 0 {
        if a[0] == b[0] {
            if a.drop_first() == b.drop_first() {
                assert(a =~= seq![a[0]] + a.drop_first());
                assert(b =~= seq![b[0]] + b.drop_first());
            }
            lemma_seq_lt_total(a.drop_first(), b.drop_first());
        }
    } else if a.len() == 0 && b.len() == 0 {
        assert(a =~= b);
    }
}

/// Listing order is a strict weak order that ties only equal names of
/// the same kind.
proof fn lemma_entry_lt_order(a: EntryView, b: EntryView, c: EntryView)
    ensures
        !entry_lt(a, a),
        entry_lt(a, b) && entry_lt(b, c) ==> entry_lt(a, c),
        !entry_lt(a, b) && !entry_lt(b, a) ==> a.is_dir == b.is_dir && a.name == b.name,
{
    lemma_seq_lt_irreflexive(a.name);
    lemma_seq_lt_irreflexive(lowercase(a.name));
    if entry_lt(a, b) && entry_lt(b, c) {
        if a.is_dir == b.is_dir && b.is_dir == c.is_dir {
            let (la, lb, lc) = (lowercase(a.name), lowercase(b.name), lowercase(c.name));
            if la != lb && lb != lc {
                lemma_seq_lt_transitive(la, lb, lc);
                if la == lc {
                    lemma_seq_lt_irreflexive(la);
                    lemma_seq_lt_transitive(lb, lc, lb);
                    lemma_seq_lt_irreflexive(lb);
                }
            } else if la != lb {
                assert(lb == lc);
            } else if lb != lc {
                assert(la == lb);
            } else {
                lemma_seq_lt_transitive(a.name, b.name, c.name);
            }
        }
    }
    if !entry_lt(a, b) && !entry_lt(b, a) {
        if lowercase(a.name) != lowercase(b.name) {
            lemma_seq_lt_total(lowercase(a.name), lowercase(b.name));
        }
        if a.name != b.name {
            lemma_seq_lt_total(a.name, b.name);
        }
    }
}

/// Whether `a` sorts strictly before `b` as strings.
fn chars_lt(a: &Vec<char>, b: &Vec<char>) -> (r: bool)
    ensures
        r == seq_lt(a@, b@),
{
    let mut i: usize = 0;
    assert(a@.skip(0) =~= a@ && b@.skip(0) =~= b@);
    while i < a.len() && i < b.len()
        invariant
            i <= a@.len(),
            i <= b@.len(),
            seq_lt(a@, b@) == seq_lt(a@.skip(i as int), b@.skip(i as int)),
        decreases a@.len() - i,
    {
        assert(a@.skip(i as int)[0] == a@[i as int]);
        assert(b@.skip(i as int)[0] == b@[i as int]);
        if a[i] != b[i] {
            return a[i] < b[i];
        }
        assert(a@.skip(i as int).drop_first() =~= a@.skip(i + 1));
        assert(b@.skip(i as int).drop_first() =~= b@.skip(i + 1));
        i = i + 1;
    }
    i == a.len() && i < b.len()
}

/// Whether `a` lists strictly before `b`.
fn entry_before(a: &EntryInfo, b: &EntryInfo) -> (r: bool)
    ensures
        r == entry_lt(a@, b@),
{
    if a.is_dir != b.is_dir {
        return a.is_dir;
    }
    let la = chars_of(lowercase_of(a.name.as_str()).as_str());
    let lb = chars_of(lowercase_of(b.name.as_str()).as_str());
    if la.len() != lb.len() || !seq_chars_eq(&la, &lb) {
        return chars_lt(&la, &lb);
    }
    let na = chars_of(a.name.as_str());
    let nb = chars_of(b.name.as_str());
    chars_lt(&na, &nb)
}

fn seq_chars_eq(a: &Vec<char>, b: &Vec<char>) -> (r: bool)
    ensures
        r == (a@ == b@),
{
    if a.len() != b.len() {
        return false;
    }
    let mut i: usize = 0;
    while i < a.len()
        invariant
            a@.len() == b@.len(),
            i <= a@.len(),
            forall|j: int| 0 <= j < i ==> a@[j] == b@[j],
        decreases a@.len() - i,
    {
        if a[i] != b[i] {
            return false;
        }
        i = i + 1;
    }
    assert(a@ =~= b@);
    true
}

/// Sort a listing: directories first, then case-insensitively by name,
/// then by exact name; entries that tie keep their order.
pub fn sort_entries(entries: Vec<EntryInfo>) -> (r: Vec<EntryInfo>)
    ensures
        sorted_entries(entries_view(r@)),
        entries_view(r@).to_multiset() == entries_view(entries@).to_multiset(),
{
    broadcast use vstd::seq_lib::group_to_multiset_ensures;

    let ghost input = entries_view(entries@);
    let mut out: Vec<EntryInfo> = Vec::new();
    let mut i: usize = 0;
    while i < entries.len()
        invariant
            input == entries_view(entries@),
            i <= input.len(),
            sorted_entries(entries_view(out@)),
            entries_view(out@).to_multiset() == input.take(i as int).to_multiset(),
        decreases input.len() - i,
    {
        let x = entries[i].duplicate();
        let ghost s = entries_view(out@);
        let mut p: usize = 0;
        while p < out.len() && !entry_before(&x, &out[p])
            invariant
                s == entries_view(out@),
                p <= s.len(),
                forall|k: int| 0 <= k < p ==> !entry_lt(x@, #[trigger] s[k]),
            decreases s.len() - p,
        {
            p = p + 1;
        }
        proof {
            assert forall|q: int| p <= q < s.len() implies !entry_lt(#[trigger] s[q], x@) by {
                if entry_lt(s[q], x@) {
                    lemma_entry_lt_order(s[q], x@, s[p as int]);
                    if q == p {
                        lemma_entry_lt_order(s[q], s[q], s[q]);
                    } else {
                        assert(!entry_lt(s[q], s[p as int]));
                    }
                }
            }
        }
        let ghost xv = x@;
        out.insert(p, x);
        proof {
            let t = entries_view(out@);
            assert(t =~= s.insert(p as int, xv));
            assert forall|a: int, b: int| 0 <= a < b < t.len() implies !entry_lt(#[trigger] t[b], #[trigger] t[a]) by {
                if a < p && b < p {
                    assert(t[a] == s[a] && t[b] == s[b]);
                } else if a < p && b == p {
                    assert(t[a] == s[a]);
                } else if a < p {
                    assert(t[a] == s[a] && t[b] == s[b - 1]);
                } else if a == p {
                    assert(t[b] == s[b - 1]);
                } else {
                    assert(t[a] == s[a - 1] && t[b] == s[b - 1]);
                }
            }
            assert(xv == input[i as int]);
            assert(input.take(i as int + 1) =~= input.take(i as int).push(xv));
            vstd::seq_lib::to_multiset_insert(s, p as int, xv);
            vstd::seq_lib::to_multiset_build(input.take(i as int), xv);
        }
        i = i + 1;
    }
    assert(input.take(input.len() as int) =~= input);
    out
}

/// What a directory pane shows.
#[derive(Debug, Clone, PartialEq, Eq)]
pub enum Listing {
    /// A listing is in flight.
    Loading,
    /// The directory's entries, sorted.
    Ready(Vec<EntryInfo>),
    /// The directory has no entries.
    Empty,
    /// The listing failed; the provider's message.
    Error(String),
}

/// The mathematical content of a [`Listing`].
pub enum ListingView {
    Loading,
    Ready(Seq<EntryView>),
    Empty,
    Error(Seq<char>),
}

impl View for Listing {
    type V = ListingView;

    open spec fn view(&self) -> ListingView {
        match self {
            Listing::Loading => ListingView::Loading,
            Listing::Ready(es) => ListingView::Ready(entries_view(es@)),
            Listing::Empty => ListingView::Empty,
            Listing::Error(m) => ListingView::Error(m@),
        }
    }
}

/// The entries a listing shows (none unless it is ready).
pub open spec fn listed(l: ListingView) -> Seq<EntryView> {
    match l {
        ListingView::Ready(es) => es,
        _ => Seq::empty(),
    }
}

/// Copies of a run of entries.
fn copy_entries(es: &Vec<EntryInfo>) -> (r: Vec<EntryInfo>)
    ensures
        entries_view(r@) == entries_view(es@),
{
    let mut out: Vec<EntryInfo> = Vec::new();
    let mut i: usize = 0;
    while i < es.len()
        invariant
            i <= es@.len(),
            entries_view(out@) == entries_view(es@).take(i as int),
        decreases es@.len() - i,
    {
        let ghost o0 = entries_view(out@);
        let d = es[i].duplicate();
        out.push(d);
        assert(entries_view(out@) =~= o0.push(es@[i as int]@));
        i = i + 1;
        assert(entries_view(out@) =~= entries_view(es@).take(i as int));
    }
    assert(entries_view(es@).take(es@.len() as int) =~= entries_view(es@));
    out
}

impl Listing {
    /// The entries on show: a ready listing's, otherwise none.
    pub fn entries(&self) -> (r: Vec<EntryInfo>)
        ensures
            entries_view(r@) == listed(self@),
    {
        match self {
            Listing::Ready(es) => copy_entries(es),
            _ => {
                let r: Vec<EntryInfo> = Vec::new();
                assert(entries_view(r@) =~= Seq::<EntryView>::empty());
                r
            },
        }
    }

    /// Whether a listing is in flight.
    pub fn is_loading(&self) -> (r: bool)
        ensures
            r == (self@ is Loading),
    {
        matches!(self, Listing::Loading)
    }

    /// The state as the browser reports it to the inspector: `Loading`,
    /// `Ready`, `Empty`, or `Error: ` and the message.
    pub fn state_label(&self) -> (r: String)
        ensures
            r@ == match self@ {
                ListingView::Loading => "Loading"@,
                ListingView::Ready(_) => "Ready"@,
                ListingView::Empty => "Empty"@,
                ListingView::Error(m) => "Error: "@ + m,
            },
    {
        match self {
            Listing::Loading => "Loading".to_string(),
            Listing::Ready(_) => "Ready".to_string(),
            Listing::Empty => "Empty".to_string(),
            Listing::Error(message) => {
                let mut out = "Error: ".to_string();
                crate::text::push_str_chars(&mut out, message.as_str());
                out
            },
        }
    }

    /// An exact copy.
    pub fn duplicate(&self) -> (r: Listing)
        ensures
            r@ == self@,
    {
        match self {
            Listing::Loading => Listing::Loading,
            Listing::Ready(es) => Listing::Ready(copy_entries(es)),
            Listing::Empty => Listing::Empty,
            Listing::Error(m) => Listing::Error(m.clone()),
        }
    }
}

/// Whether `needle` occurs in `hay` as a run of characters.
pub open spec fn occurs_in(needle: Seq<char>, hay: Seq<char>) -> bool {
    exists|i: int| 0 <= i && i + needle.len() <= hay.len() && #[trigger] hay.subrange(i, i + needle.len()) == needle
}

/// Whether an entry passes the search box: every entry for an empty
/// search, otherwise those whose lowercase name contains the lowercase
/// search text.
pub open spec fn passes_search(e: EntryView, search: Seq<char>) -> bool {
    lowercase(search).len() == 0 || occurs_in(lowercase(search), lowercase(e.name))
}

/// The entries of `s` that pass the search, in order.
pub open spec fn searched(s: Seq<EntryView>, search: Seq<char>) -> Seq<EntryView>
    decreases s.len(),
{
    if s.len() == 0 {
        Seq::empty()
    } else {
        let rest = searched(s.drop_last(), search);
        if passes_search(s.last(), search) {
            rest.push(s.last())
        } else {
            rest
        }
    }
}

/// The first entry of `s` whose URI is `uri`.
pub open spec fn entry_with_uri(s: Seq<EntryView>, uri: Seq<char>) -> Option<EntryView>
    decreases s.len(),
{
    if s.len() == 0 {
        None
    } else if s[0].uri == uri {
        Some(s[0])
    } else {
        entry_with_uri(s.drop_first(), uri)
    }
}

/// Whether `needle` occurs in `hay`.
fn chars_occur(needle: &Vec<char>, hay: &Vec<char>) -> (r: bool)
    ensures
        r == occurs_in(needle@, hay@),
{
    if needle.len() > hay.len() {
        return false;
    }
    let hl = hay.len();
    let last = hl - needle.len();
    let mut i: usize = 0;
    loop
        invariant
            hl == hay@.len(),
            i <= last,
            last + needle@.len() == hay@.len(),
            forall|k: int| 0 <= k < i ==> #[trigger] hay@.subrange(k, k + needle@.len()) != needle@,
        ensures
            forall|k: int| 0 <= k <= last ==> #[trigger] hay@.subrange(k, k + needle@.len()) != needle@,
        decreases last - i,
    {
        let mut j: usize = 0;
        while j < needle.len() && hay[i + j] == needle[j]
            invariant
                hl == hay@.len(),
                i <= last,
                last + needle@.len() == hay@.len(),
                j <= needle@.len(),
                forall|q: int| 0 <= q < j ==> hay@[i + q] == needle@[q],
            decreases needle@.len() - j,
        {
            j = j + 1;
        }
        if j == needle.len() {
            assert(hay@.subrange(i as int, i + needle@.len()) =~= needle@);
            return true;
        }
        assert(hay@.subrange(i as int, i + needle@.len())[j as int] != needle@[j as int]);
        if i == last {
            break;
        }
        i = i + 1;
    }
    proof {
        assert forall|k: int| 0 <= k && k + needle@.len() <= hay@.len() implies #[trigger] hay@.subrange(k, k + needle@.len()) != needle@ by {
            assert(k <= last);
        }
    }
    false
}

/// The browser's model.
pub struct BrowserModel {
    roots: Vec<ProviderRoot>,
    cwd: Option<String>,
    listing: Listing,
    generation: u64,
    search: String,
    selected: Option<String>,
}

/// The mathematical content of a [`BrowserModel`].
pub struct BrowserModelView {
    /// The sidebar rows, in registration order.
    pub roots: Seq<(Seq<char>, Seq<char>, Seq<char>)>,
    /// The directory on screen.
    pub cwd: Option<Seq<char>>,
    pub listing: ListingView,
    /// Number of the newest refresh.
    pub generation: u64,
    pub search: Seq<char>,
    /// URI of the selected entry.
    pub selected: Option<Seq<char>>,
}

/// The view of an optional string.
pub open spec fn opt_chars(o: Option<String>) -> Option<Seq<char>> {
    match o {
        Some(s) => Some(s@),
        None => None,
    }
}

impl View for BrowserModel {
    type V = BrowserModelView;

    closed spec fn view(&self) -> BrowserModelView {
        BrowserModelView {
            roots: roots_view(self.roots@),
            cwd: opt_chars(self.cwd),
            listing: self.listing@,
            generation: self.generation,
            search: self.search@,
            selected: opt_chars(self.selected),
        }
    }
}

/// The view of a refresh request: the directory to list and the refresh's
/// number.
pub open spec fn request_view(r: Option<(String, u64)>) -> Option<(Seq<char>, u64)> {
    match r {
        Some((d, g)) => Some((d@, g)),
        None => None,
    }
}

fn copy_opt(o: &Option<String>) -> (r: Option<String>)
    ensures
        opt_chars(r) == opt_chars(*o),
{
    match o {
        Some(s) => Some(s.clone()),
        None => None,
    }
}

impl BrowserModel {
    /// A model over the providers' `roots`, in registration order, opened
    /// on the first one's root; with no provider at all, the pane shows
    /// an error rather than a blank. Nothing is listed until the first
    /// refresh.
    pub fn new(roots: Vec<ProviderRoot>) -> (m: BrowserModel)
        ensures
            m@.roots == roots_view(roots@),
            m@.cwd == (if roots@.len() > 0 {
                Some(roots@[0].root@)
            } else {
                None
            }),
            m@.listing == (if roots@.len() > 0 {
                ListingView::Loading
            } else {
                ListingView::Error(NO_PROVIDERS@)
            }),
            m@.generation == 0,
            m@.search == Seq::<char>::empty(),
            m@.selected is None,
    {
        let cwd = if roots.len() > 0 {
            Some(roots[0].root.clone())
        } else {
            None
        };
        let listing = match cwd {
            Some(_) => Listing::Loading,
            None => Listing::Error(NO_PROVIDERS.to_string()),
        };
        BrowserModel { roots, cwd, listing, generation: 0, search: String::new(), selected: None }
    }

    /// The sidebar rows, in registration order.
    pub fn roots(&self) -> (r: Vec<ProviderRoot>)
        ensures
            roots_view(r@) == self@.roots,
    {
        let mut out: Vec<ProviderRoot> = Vec::new();
        let mut i: usize = 0;
        while i < self.roots.len()
            invariant
                i <= self.roots@.len(),
                roots_view(out@) == roots_view(self.roots@).take(i as int),
            decreases self.roots@.len() - i,
        {
            let r = &self.roots[i];
            let ghost before = roots_view(out@);
            out.push(ProviderRoot { scheme: r.scheme.clone(), display_name: r.display_name.clone(), root: r.root.clone() });
            assert(roots_view(out@) =~= before.push(roots_view(self.roots@)[i as int]));
            assert(roots_view(self.roots@).take(i + 1) =~= roots_view(self.roots@).take(i as int).push(
                roots_view(self.roots@)[i as int],
            ));
            i = i + 1;
        }
        assert(roots_view(self.roots@).take(i as int) =~= roots_view(self.roots@));
        out
    }

    /// Trail from the provider root to the directory on screen, root
    /// first; empty with no directory. `ancestry` is the directory and
    /// its ancestors below the root, nearest first, as `(uri, file name)`;
    /// `root` and `scheme` are where its walk up ends.
    pub fn breadcrumbs(&self, ancestry: &[(String, String)], root: &str, scheme: &str) -> (r: Vec<Crumb>)
        ensures
            self@.cwd is None ==> r@.len() == 0,
            self@.cwd is Some ==> crumbs_view(r@) == trail_spec(
                ancestry@.map_values(|p: (String, String)| (p.0@, p.1@)),
                root@,
                scheme@,
                self@.roots,
            ),
    {
        if self.cwd.is_none() {
            return Vec::new();
        }
        breadcrumb_trail(ancestry, root, scheme, self.roots.as_slice())
    }

    /// The directory on screen.
    pub fn cwd(&self) -> (r: Option<String>)
        ensures
            opt_chars(r) == self@.cwd,
    {
        copy_opt(&self.cwd)
    }

    /// What the pane shows.
    pub fn listing(&self) -> (r: Listing)
        ensures
            r@ == self@.listing,
    {
        self.listing.duplicate()
    }

    /// Number of the newest refresh.
    pub fn generation(&self) -> (r: u64)
        ensures
            r == self@.generation,
    {
        self.generation
    }

    /// The search text.
    pub fn search(&self) -> (r: String)
        ensures
            r@ == self@.search,
    {
        self.search.clone()
    }

    /// Replace the search text.
    pub fn set_search(&mut self, text: &str)
        ensures
            final(self)@ == (BrowserModelView { search: text@, ..old(self)@ }),
    {
        self.search = text.to_string();
    }

    /// Select one entry by URI, or nothing.
    pub fn select(&mut self, uri: Option<String>)
        ensures
            final(self)@ == (BrowserModelView { selected: opt_chars(uri), ..old(self)@ }),
    {
        self.selected = uri;
    }

    /// The selected URI.
    pub fn selected(&self) -> (r: Option<String>)
        ensures
            opt_chars(r) == self@.selected,
    {
        copy_opt(&self.selected)
    }

    /// Start a refresh of the directory on screen: the pane shows
    /// `Loading` and the refresh gets the next number, returned with the
    /// directory to list. Without a directory the pane shows the
    /// no-provider error and nothing is listed.
    pub fn begin_refresh(&mut self) -> (r: Option<(String, u64)>)
        requires
            old(self)@.generation < u64::MAX,
        ensures
            final(self)@.generation == old(self)@.generation + 1,
            final(self)@.roots == old(self)@.roots,
            final(self)@.cwd == old(self)@.cwd,
            final(self)@.search == old(self)@.search,
            final(self)@.selected == old(self)@.selected,
            request_view(r) == match old(self)@.cwd {
                Some(d) => Some((d, final(self)@.generation)),
                None => None,
            },
            final(self)@.listing == match old(self)@.cwd {
                Some(_) => ListingView::Loading,
                None => ListingView::Error(NO_PROVIDERS@),
            },
    {
        self.generation = self.generation + 1;
        match &self.cwd {
            None => {
                self.listing = Listing::Error(NO_PROVIDERS.to_string());
                None
            },
            Some(dir) => {
                let dir = dir.clone();
                self.listing = Listing::Loading;
                Some((dir, self.generation))
            },
        }
    }

    /// Apply a listing that landed for refresh number `generation`. One
    /// for an older refresh is dropped: it can never replace the listing
    /// of the directory the user is on now.
    pub fn apply_listing(&mut self, generation: u64, result: Result<Vec<EntryInfo>, String>)
        ensures
            generation != old(self)@.generation ==> final(self)@ == old(self)@,
            generation == old(self)@.generation ==> {
                &&& final(self)@.roots == old(self)@.roots
                &&& final(self)@.cwd == old(self)@.cwd
                &&& final(self)@.generation == old(self)@.generation
                &&& final(self)@.search == old(self)@.search
                &&& final(self)@.selected == old(self)@.selected
                &&& match result {
                    Err(m) => final(self)@.listing == ListingView::Error(m@),
                    Ok(es) => if es@.len() == 0 {
                        final(self)@.listing == ListingView::Empty
                    } else {
                        final(self)@.listing matches ListingView::Ready(r) && sorted_entries(r)
                            && r.to_multiset() == entries_view(es@).to_multiset()
                    },
                }
            },
    {
        if generation != self.generation {
            return;
        }
        self.listing = match result {
            Ok(entries) => {
                if entries.len() == 0 {
                    Listing::Empty
                } else {
                    Listing::Ready(sort_entries(entries))
                }
            },
            Err(message) => Listing::Error(message),
        };
    }

    /// Go to `uri`: the search and the selection belong to the directory
    /// being left and are cleared; a refresh of the new directory starts.
    pub fn navigate_to(&mut self, uri: String) -> (r: (String, u64))
        requires
            old(self)@.generation < u64::MAX,
        ensures
            final(self)@.roots == old(self)@.roots,
            final(self)@.cwd == Some(uri@),
            final(self)@.search == Seq::<char>::empty(),
            final(self)@.selected is None,
            final(self)@.listing == ListingView::Loading,
            final(self)@.generation == old(self)@.generation + 1,
            r.0@ == uri@ && r.1 == final(self)@.generation,
    {
        self.cwd = Some(uri);
        self.search = String::new();
        self.selected = None;
        match self.begin_refresh() {
            Some(req) => req,
            None => {
                assert(false);
                (String::new(), 0)
            },
        }
    }

    /// Open a directory entry; a file entry is not a place to go (`None`).
    pub fn enter_dir(&mut self, entry: &EntryInfo) -> (r: Option<(String, u64)>)
        requires
            old(self)@.generation < u64::MAX,
        ensures
            !entry.is_dir ==> r is None && final(self)@ == old(self)@,
            entry.is_dir ==> request_view(r) == Some((entry@.uri, final(self)@.generation)),
            entry.is_dir ==> final(self)@.roots == old(self)@.roots && final(self)@.cwd == Some(entry@.uri) && final(self)@.search
                == Seq::<char>::empty() && final(self)@.selected is None && final(self)@.listing
                == ListingView::Loading && final(self)@.generation == old(self)@.generation + 1,
    {
        if !entry.is_dir {
            return None;
        }
        Some(self.navigate_to(entry.uri.clone()))
    }

    /// The listed entries that pass the search, in listing order.
    pub fn visible_entries(&self) -> (r: Vec<EntryInfo>)
        ensures
            entries_view(r@) == searched(listed(self@.listing), self@.search),
    {
        let all = self.listing.entries();
        let needle = chars_of(lowercase_of(self.search.as_str()).as_str());
        let ghost s = entries_view(all@);
        let mut out: Vec<EntryInfo> = Vec::new();
        let mut i: usize = 0;
        while i < all.len()
            invariant
                s == entries_view(all@),
                s == listed(self@.listing),
                needle@ == lowercase(self@.search),
                i <= s.len(),
                entries_view(out@) == searched(s.take(i as int), self@.search),
            decreases s.len() - i,
        {
            let e = &all[i];
            let keep = if needle.len() == 0 {
                true
            } else {
                let hay = chars_of(lowercase_of(e.name.as_str()).as_str());
                chars_occur(&needle, &hay)
            };
            proof {
                assert(s.take(i as int + 1).drop_last() =~= s.take(i as int));
                assert(s.take(i as int + 1).last() == e@);
            }
            if keep {
                let ghost o0 = entries_view(out@);
                out.push(e.duplicate());
                assert(entries_view(out@) =~= o0.push(e@));
            }
            i = i + 1;
        }
        assert(s.take(s.len() as int) =~= s);
        out
    }

    /// The selected entry, resolved against the listing: a selection the
    /// listing no longer holds resolves to nothing.
    pub fn selected_entry(&self) -> (r: Option<EntryInfo>)
        ensures
            match self@.selected {
                None => r is None,
                Some(u) => match r {
                    Some(e) => entry_with_uri(listed(self@.listing), u) == Some(e@),
                    None => entry_with_uri(listed(self@.listing), u) is None,
                },
            },
    {
        let want = match &self.selected {
            Some(u) => u,
            None => return None,
        };
        let all = self.listing.entries();
        let ghost s = entries_view(all@);
        let mut i: usize = 0;
        assert(s.skip(0) =~= s);
        while i < all.len()
            invariant
                s == entries_view(all@),
                s == listed(self@.listing),
                self@.selected == Some(want@),
                i <= s.len(),
                entry_with_uri(s, want@) == entry_with_uri(s.skip(i as int), want@),
            decreases s.len() - i,
        {
            assert(s.skip(i as int)[0] == all@[i as int]@);
            assert(s.skip(i as int).drop_first() =~= s.skip(i + 1));
            if str_eq(all[i].uri.as_str(), want.as_str()) {
                return Some(all[i].duplicate());
            }
            i = i + 1;
        }
        None
    }
}

/// A sidebar row: a provider's scheme, its display name ("This PC",
/// "This Browser") and its root directory.
#[derive(Clone, Debug, PartialEq, Eq)]
pub struct ProviderRoot {
    pub scheme: String,
    pub display_name: String,
    pub root: String,
}

/// One step of the breadcrumb trail: its label and the directory it
/// opens.
#[derive(Clone, Debug, PartialEq, Eq)]
pub struct Crumb {
    pub label: String,
    pub uri: String,
}

/// The views of provider rows: scheme, display name, root.
pub open spec fn roots_view(v: Seq<ProviderRoot>) -> Seq<(Seq<char>, Seq<char>, Seq<char>)> {
    v.map_values(|r: ProviderRoot| (r.scheme@, r.display_name@, r.root@))
}

/// The views of crumbs: label and directory.
pub open spec fn crumbs_view(v: Seq<Crumb>) -> Seq<(Seq<char>, Seq<char>)> {
    v.map_values(|c: Crumb| (c.label@, c.uri@))
}

/// The label of a provider root: the display name of the first row with
/// its scheme, else the scheme itself.
pub open spec fn root_label(roots: Seq<(Seq<char>, Seq<char>, Seq<char>)>, scheme: Seq<char>) -> Seq<char>
    decreases roots.len(),
{
    if roots.len() == 0 {
        scheme
    } else if roots[0].0 == scheme {
        roots[0].1
    } else {
        root_label(roots.drop_first(), scheme)
    }
}

/// The trail from a provider root to a directory, root first: the root
/// labelled by [`root_label`], then each directory below it labelled by
/// its file name. `ancestry` holds the directory and its ancestors below
/// the root, nearest first, each as `(uri, file name)`.
pub open spec fn trail_spec(
    ancestry: Seq<(Seq<char>, Seq<char>)>,
    root: Seq<char>,
    scheme: Seq<char>,
    roots: Seq<(Seq<char>, Seq<char>, Seq<char>)>,
) -> Seq<(Seq<char>, Seq<char>)> {
    seq![(root_label(roots, scheme), root)] + Seq::new(
        ancestry.len(),
        |i: int| (ancestry[ancestry.len() - 1 - i].1, ancestry[ancestry.len() - 1 - i].0),
    )
}

/// The label of the provider root with `scheme`.
pub fn provider_label(roots: &[ProviderRoot], scheme: &str) -> (r: String)
    ensures
        r@ == root_label(roots_view(roots@), scheme@),
{
    let ghost all = roots_view(roots@);
    assert(all.skip(0) =~= all);
    let mut i: usize = 0;
    while i < roots.len()
        invariant
            all == roots_view(roots@),
            i <= all.len(),
            root_label(all, scheme@) == root_label(all.skip(i as int), scheme@),
        decreases all.len() - i,
    {
        assert(all.skip(i as int)[0] == all[i as int]);
        assert(all.skip(i as int).drop_first() =~= all.skip(i + 1));
        if str_eq(roots[i].scheme.as_str(), scheme) {
            return roots[i].display_name.clone();
        }
        i = i + 1;
    }
    assert(all.skip(i as int).len() == 0);
    scheme.to_string()
}

/// Trail from the provider root to the current directory, root first.
/// `ancestry` is the directory and its ancestors below the root, nearest
/// first, each as `(uri, file name)`, as walking the URI's parents gives
/// them; `root` and `scheme` are where that walk ends.
pub fn breadcrumb_trail(ancestry: &[(String, String)], root: &str, scheme: &str, roots: &[ProviderRoot]) -> (r: Vec<
    Crumb,
>)
    ensures
        crumbs_view(r@) == trail_spec(
            ancestry@.map_values(|p: (String, String)| (p.0@, p.1@)),
            root@,
            scheme@,
            roots_view(roots@),
        ),
{
    let ghost anc = ancestry@.map_values(|p: (String, String)| (p.0@, p.1@));
    let ghost want = trail_spec(anc, root@, scheme@, roots_view(roots@));
    let mut trail: Vec<Crumb> = Vec::new();
    trail.push(Crumb { label: provider_label(roots, scheme), uri: root.to_string() });
    let n = ancestry.len();
    let mut k: usize = 0;
    while k < n
        invariant
            n == ancestry@.len(),
            anc == ancestry@.map_values(|p: (String, String)| (p.0@, p.1@)),
            want == trail_spec(anc, root@, scheme@, roots_view(roots@)),
            k <= n,
            crumbs_view(trail@) == want.take(k + 1),
        decreases n - k,
    {
        let step = &ancestry[n - 1 - k];
        let ghost before = crumbs_view(trail@);
        trail.push(Crumb { label: step.1.clone(), uri: step.0.clone() });
        proof {
            assert(anc[n - 1 - k] == (ancestry@[n - 1 - k].0@, ancestry@[n - 1 - k].1@));
            assert(want[k + 1] == (anc[n - 1 - k].1, anc[n - 1 - k].0));
            assert(crumbs_view(trail@) =~= before.push(want[k + 1]));
            assert(want.take(k + 2) =~= want.take(k + 1).push(want[k + 1]));
        }
        k = k + 1;
    }
    assert(want.take(n + 1) =~= want);
    trail
}

/// An empty search shows the whole listing.
pub proof fn lemma_empty_search_shows_everything(s: Seq<EntryView>, search: Seq<char>)
    requires
        lowercase(search).len() == 0,
    ensures
        searched(s, search) == s,
    decreases s.len(),
{
    if s.len() > 0 {
        lemma_empty_search_shows_everything(s.drop_last(), search);
        assert(s.drop_last().push(s.last()) =~= s);
    }
}

/// The search only ever hides entries: what it shows is listed, in
/// listing order.
pub proof fn lemma_search_keeps_listing_order(s: Seq<EntryView>, search: Seq<char>)
    ensures
        searched(s, search).len() <= s.len(),
        forall|x: EntryView| #[trigger] searched(s, search).contains(x) ==> s.contains(x) && passes_search(x, search),
    decreases s.len(),
{
    if s.len() > 0 {
        let p = s.drop_last();
        lemma_search_keeps_listing_order(p, search);
        let r = searched(p, search);
        assert forall|x: EntryView| #[trigger] searched(s, search).contains(x) implies s.contains(x) && passes_search(x, search) by {
            let k = choose|k: int| 0 <= k < searched(s, search).len() && searched(s, search)[k] == x;
            if passes_search(s.last(), search) && k == r.len() {
                assert(s[s.len() - 1] == x);
            } else {
                assert(r[k] == x);
                assert(r.contains(x));
                let j = choose|j: int| 0 <= j < p.len() && p[j] == x;
                assert(s[j] == x);
            }
        }
    }
}

} // verus!
