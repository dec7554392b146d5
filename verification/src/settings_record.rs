//! Reading the UI settings file: the `key=value` lines decoded into the
//! values the library owns (view toggles, render style, the OS window,
//! the favorites row), with every other line handed on, in file order,
//! for the shell to interpret (numbers, theme and accent keys, storage
//! URIs, debug-window bounds, recent projects).
//!
//! Missing or malformed values leave the default in place; unknown keys
//! and comments are ignored.
use vstd::prelude::*;

use crate::decimal::{decimal, parse_u64, parse_u64_chars, push_digits};
use crate::favorites::{added_all, field_decode, field_of, Favorite, FavoriteView, Favorites, FavoritesView};
use crate::settings::{
    apply_main_window_kv, apply_main_window_spec, bool_text, by_index, insert_by_index, kv_line,
    main_window_prefix, main_window_text, order_by_index, pairs_view, parse_bool, parse_bool_spec, settings_entries,
    settings_pairs, values_of, write_main_window, MainWindowState,
};
use crate::text::{chars_of, has_prefix, push_str_chars, str_eq, strip_prefix_chars};

verus! {

broadcast use vstd::string::group_string_axioms;

/// How the viewport renders.
#[derive(Clone, Copy, Debug, PartialEq, Eq, Structural)]
pub enum RenderStyle {
    Shaded,
    Outlines,
    NonManifold,
    Polygons,
    Overhang,
}

/// The style a settings token names, older spellings included.
pub open spec fn render_style_of_token(t: Seq<char>) -> Option<RenderStyle> {
    if t == "Shaded"@ || t == "shaded"@ {
        Some(RenderStyle::Shaded)
    } else if t == "Outlines"@ || t == "outlines"@ || t == "Outline"@ || t == "OutlineOnly"@ {
        Some(RenderStyle::Outlines)
    } else if t == "NonManifold"@ || t == "nonmanifold"@ || t == "Non-Manifold"@ {
        Some(RenderStyle::NonManifold)
    } else if t == "Polygons"@ || t == "polygons"@ || t == "Wireframe"@ || t == "wireframe"@ {
        Some(RenderStyle::Polygons)
    } else if t == "Overhang"@ || t == "overhang"@ || t == "Overhangs"@ {
        Some(RenderStyle::Overhang)
    } else {
        None
    }
}

/// The token a style is written as.
pub open spec fn render_style_token(s: RenderStyle) -> Seq<char> {
    match s {
        RenderStyle::Shaded => "Shaded"@,
        RenderStyle::Outlines => "Outlines"@,
        RenderStyle::NonManifold => "NonManifold"@,
        RenderStyle::Polygons => "Polygons"@,
        RenderStyle::Overhang => "Overhang"@,
    }
}

/// The token a style is written as.
pub fn render_style_to_token(s: RenderStyle) -> (r: &'static str)
    ensures
        r@ == render_style_token(s),
{
    match s {
        RenderStyle::Shaded => "Shaded",
        RenderStyle::Outlines => "Outlines",
        RenderStyle::NonManifold => "NonManifold",
        RenderStyle::Polygons => "Polygons",
        RenderStyle::Overhang => "Overhang",
    }
}

/// The style a token names; unknown tokens are `None`.
pub fn render_style_from_token(t: &str) -> (r: Option<RenderStyle>)
    ensures
        r == render_style_of_token(t@),
{
    if str_eq(t, "Shaded") || str_eq(t, "shaded") {
        Some(RenderStyle::Shaded)
    } else if str_eq(t, "Outlines") || str_eq(t, "outlines") || str_eq(t, "Outline") || str_eq(t, "OutlineOnly") {
        Some(RenderStyle::Outlines)
    } else if str_eq(t, "NonManifold") || str_eq(t, "nonmanifold") || str_eq(t, "Non-Manifold") {
        Some(RenderStyle::NonManifold)
    } else if str_eq(t, "Polygons") || str_eq(t, "polygons") || str_eq(t, "Wireframe") || str_eq(t, "wireframe") {
        Some(RenderStyle::Polygons)
    } else if str_eq(t, "Overhang") || str_eq(t, "overhang") || str_eq(t, "Overhangs") {
        Some(RenderStyle::Overhang)
    } else {
        None
    }
}

/// Keys whose values the shell interprets: numbers, theme and accent
/// keys, and storage URIs.
pub open spec fn shell_key(k: Seq<char>) -> bool {
    k == "snap_amount"@ || k == "theme"@ || k == "accent_color"@ || k == "last_project_path"@ || k
        == "favorites_bar_width"@ || has_prefix(k, "recent_project_"@)
}

/// The settings as the lines so far leave them.
pub struct RecordView {
    pub perspective: bool,
    pub turntable: bool,
    pub show_bed: bool,
    /// `None`: the renderer's default.
    pub render_style: Option<RenderStyle>,
    pub main_window: MainWindowState,
    pub favorites_seeded: bool,
    /// Decoded `favorite_<index>` lines, in file order.
    pub favorite_lines: Seq<(u64, FavoriteView)>,
    pub favorites_bar_expanded: bool,
    /// Lines for the shell, in file order.
    pub shell_lines: Seq<(Seq<char>, Seq<char>)>,
}

/// The settings before any line: perspective, turntable and the bed on,
/// no saved window, an unseeded empty favorites row, the bar collapsed.
pub open spec fn default_record() -> RecordView {
    RecordView {
        perspective: true,
        turntable: true,
        show_bed: true,
        render_style: None,
        main_window: MainWindowState { x: 0, y: 0, width: 0, height: 0, maximized: false },
        favorites_seeded: false,
        favorite_lines: Seq::empty(),
        favorites_bar_expanded: false,
        shell_lines: Seq::empty(),
    }
}

/// One `key=value` line applied: an exact key first, then the
/// `recent_project_` / `favorite_` families, then the main-window keys;
/// anything left goes to the shell.
pub open spec fn apply_pair(r: RecordView, k: Seq<char>, v: Seq<char>) -> RecordView {
    if k == "perspective"@ {
        match parse_bool_spec(v) {
            Some(b) => RecordView { perspective: b, ..r },
            None => r,
        }
    } else if k == "turntable"@ {
        match parse_bool_spec(v) {
            Some(b) => RecordView { turntable: b, ..r },
            None => r,
        }
    } else if k == "show_bed"@ {
        match parse_bool_spec(v) {
            Some(b) => RecordView { show_bed: b, ..r },
            None => r,
        }
    } else if k == "render_style"@ {
        match render_style_of_token(v) {
            Some(s) => RecordView { render_style: Some(s), ..r },
            None => r,
        }
    } else if k == "favorites_seeded"@ {
        match parse_bool_spec(v) {
            Some(b) => RecordView { favorites_seeded: b, ..r },
            None => r,
        }
    } else if k == "favorites_bar_expanded"@ {
        match parse_bool_spec(v) {
            Some(b) => RecordView { favorites_bar_expanded: b, ..r },
            None => r,
        }
    } else if shell_key(k) {
        RecordView { shell_lines: r.shell_lines.push((k, v)), ..r }
    } else if has_prefix(k, "favorite_"@) {
        match parse_u64(k.skip("favorite_"@.len() as int)) {
            Some(i) => match field_decode(v) {
                Some(f) => RecordView { favorite_lines: r.favorite_lines.push((i, f)), ..r },
                None => r,
            },
            None => r,
        }
    } else {
        let (mw, hit) = apply_main_window_spec(r.main_window, k, v);
        if hit {
            RecordView { main_window: mw, ..r }
        } else {
            RecordView { shell_lines: r.shell_lines.push((k, v)), ..r }
        }
    }
}

/// `r` after every line of `ps`, in order.
pub open spec fn fold_from(r: RecordView, ps: Seq<(Seq<char>, Seq<char>)>) -> RecordView
    decreases ps.len(),
{
    if ps.len() == 0 {
        r
    } else {
        apply_pair(fold_from(r, ps.drop_last()), ps.last().0, ps.last().1)
    }
}

/// The settings after every line of `ps`, in order.
pub open spec fn fold_pairs(ps: Seq<(Seq<char>, Seq<char>)>) -> RecordView {
    fold_from(default_record(), ps)
}

/// The keys the reader decodes itself.
pub open spec fn library_key(k: Seq<char>) -> bool {
    k == "perspective"@ || k == "turntable"@ || k == "show_bed"@ || k == "render_style"@ || k
        == "favorites_seeded"@ || k == "favorites_bar_expanded"@
}

/// Whether the reader hands a `k=...` line to the shell as it is.
pub open spec fn goes_to_shell(k: Seq<char>) -> bool {
    &&& !library_key(k)
    &&& shell_key(k) || (!has_prefix(k, "favorite_"@) && !has_prefix(k, main_window_prefix()))
}

/// The views of indexed favorites.
pub open spec fn indexed_view(s: Seq<(u64, Favorite)>) -> Seq<(u64, FavoriteView)> {
    s.map_values(|p: (u64, Favorite)| (p.0, p.1@))
}

/// The favorites row the decoded lines make: in index order, then
/// de-duplicated and capped as [`Favorites::add`] does.
pub open spec fn row_of(lines: Seq<(u64, FavoriteView)>, seeded: bool) -> FavoritesView {
    FavoritesView { items: added_all(Seq::empty(), values_of(by_index(lines))), seeded }
}

/// The settings file's values, as read.
#[derive(Clone, Debug, PartialEq, Eq)]
pub struct SettingsRecord {
    pub perspective: bool,
    pub turntable: bool,
    pub show_bed: bool,
    /// `None`: the renderer's default.
    pub render_style: Option<RenderStyle>,
    pub main_window: MainWindowState,
    pub favorites: Favorites,
    pub favorites_bar_expanded: bool,
    /// `key=value` lines the shell interprets, in file order.
    pub shell_lines: Vec<(String, String)>,
}

proof fn lemma_insert_view(s: Seq<(u64, Favorite)>, x: (u64, Favorite))
    ensures
        indexed_view(insert_by_index(s, x)) == insert_by_index(indexed_view(s), (x.0, x.1@)),
    decreases s.len(),
{
    if s.len() > 0 {
        assert(indexed_view(s).drop_last() =~= indexed_view(s.drop_last()));
        if x.0 < s.last().0 {
            lemma_insert_view(s.drop_last(), x);
            assert(indexed_view(insert_by_index(s.drop_last(), x).push(s.last())) =~= indexed_view(
                insert_by_index(s.drop_last(), x),
            ).push((s.last().0, s.last().1@)));
        } else {
            assert(indexed_view(s.push(x)) =~= indexed_view(s).push((x.0, x.1@)));
        }
    } else {
        assert(indexed_view(seq![x]) =~= seq![(x.0, x.1@)]);
    }
}

proof fn lemma_by_index_view(s: Seq<(u64, Favorite)>)
    ensures
        indexed_view(by_index(s)) == by_index(indexed_view(s)),
    decreases s.len(),
{
    if s.len() == 0 {
        assert(indexed_view(Seq::<(u64, Favorite)>::empty()) =~= Seq::<(u64, FavoriteView)>::empty());
    } else {
        lemma_by_index_view(s.drop_last());
        lemma_insert_view(by_index(s.drop_last()), s.last());
        assert(indexed_view(s).drop_last() =~= indexed_view(s.drop_last()));
    }
}

/// The mathematical content of a [`SettingsRecord`].
pub struct SettingsRecordView {
    pub perspective: bool,
    pub turntable: bool,
    pub show_bed: bool,
    pub render_style: Option<RenderStyle>,
    pub main_window: MainWindowState,
    pub favorites: FavoritesView,
    pub favorites_bar_expanded: bool,
    pub shell_lines: Seq<(Seq<char>, Seq<char>)>,
}

impl View for SettingsRecord {
    type V = SettingsRecordView;

    open spec fn view(&self) -> SettingsRecordView {
        SettingsRecordView {
            perspective: self.perspective,
            turntable: self.turntable,
            show_bed: self.show_bed,
            render_style: self.render_style,
            main_window: self.main_window,
            favorites: self.favorites@,
            favorites_bar_expanded: self.favorites_bar_expanded,
            shell_lines: pairs_view(self.shell_lines@),
        }
    }
}

/// The comment line that opens a settings file.
pub open spec fn header_line() -> Seq<char> {
    "# AtomArtist UI settings\n"@
}

/// The key of favorite number `i`.
pub open spec fn favorite_key(i: int) -> Seq<char> {
    "favorite_"@ + decimal(i)
}

/// The `favorite_<i>=<field>` lines of a favorites row.
pub open spec fn favorites_text(items: Seq<FavoriteView>) -> Seq<char>
    decreases items.len(),
{
    if items.len() == 0 {
        Seq::empty()
    } else {
        favorites_text(items.drop_last()) + kv_line(favorite_key(items.len() - 1), field_of(items.last()))
    }
}

/// The shell's lines, in order.
pub open spec fn shell_text(ls: Seq<(Seq<char>, Seq<char>)>) -> Seq<char>
    decreases ls.len(),
{
    if ls.len() == 0 {
        Seq::empty()
    } else {
        shell_text(ls.drop_last()) + kv_line(ls.last().0, ls.last().1)
    }
}

/// The render-style line, when a style is set.
pub open spec fn render_style_text(s: Option<RenderStyle>) -> Seq<char> {
    match s {
        Some(s) => kv_line("render_style"@, render_style_token(s)),
        None => Seq::empty(),
    }
}

/// What [`SettingsRecord::to_text`] writes.
pub open spec fn record_text(r: SettingsRecordView) -> Seq<char> {
    header_line() + kv_line("perspective"@, bool_text(r.perspective)) + kv_line("turntable"@, bool_text(r.turntable))
        + kv_line("show_bed"@, bool_text(r.show_bed)) + render_style_text(r.render_style) + main_window_text(
        r.main_window,
    ) + kv_line("favorites_bar_expanded"@, bool_text(r.favorites_bar_expanded)) + kv_line(
        "favorites_seeded"@,
        bool_text(r.favorites.seeded),
    ) + favorites_text(r.favorites.items) + shell_text(r.shell_lines)
}

/// The record a settings text reads as.
pub open spec fn read_text(text: Seq<char>) -> SettingsRecordView {
    let f = fold_pairs(settings_pairs(text));
    SettingsRecordView {
        perspective: f.perspective,
        turntable: f.turntable,
        show_bed: f.show_bed,
        render_style: f.render_style,
        main_window: f.main_window,
        favorites: row_of(f.favorite_lines, f.favorites_seeded),
        favorites_bar_expanded: f.favorites_bar_expanded,
        shell_lines: f.shell_lines,
    }
}

fn push_kv(out: &mut String, k: &str, v: &str)
    ensures
        final(out)@ == old(out)@ + kv_line(k@, v@),
{
    push_str_chars(out, k);
    out.push('=');
    push_str_chars(out, v);
    out.push('\n');
    assert(final(out)@ =~= old(out)@ + kv_line(k@, v@));
}

fn bool_str(b: bool) -> (r: &'static str)
    ensures
        r@ == bool_text(b),
{
    proof {
        reveal_strlit("true");
        reveal_strlit("false");
    }
    if b {
        let r = "true";
        assert(r@ =~= bool_text(b));
        r
    } else {
        let r = "false";
        assert(r@ =~= bool_text(b));
        r
    }
}

/// The settings with no file: the defaults of [`default_record`].
pub open spec fn default_view() -> SettingsRecordView {
    SettingsRecordView {
        perspective: true,
        turntable: true,
        show_bed: true,
        render_style: None,
        main_window: MainWindowState { x: 0, y: 0, width: 0, height: 0, maximized: false },
        favorites: FavoritesView { items: Seq::empty(), seeded: false },
        favorites_bar_expanded: false,
        shell_lines: Seq::empty(),
    }
}

impl Default for SettingsRecord {
    /// The defaults: what an empty settings file reads as.
    fn default() -> (r: SettingsRecord)
        ensures
            r@ == default_view(),
    {
        let r = SettingsRecord {
            perspective: true,
            turntable: true,
            show_bed: true,
            render_style: None,
            main_window: MainWindowState::default(),
            favorites: Favorites::default(),
            favorites_bar_expanded: false,
            shell_lines: Vec::new(),
        };
        assert(pairs_view(r.shell_lines@) =~= Seq::<(Seq<char>, Seq<char>)>::empty());
        assert(r.favorites@ =~= FavoritesView { items: Seq::empty(), seeded: false });
        r
    }
}

impl SettingsRecord {
    /// Render to the settings file's text: a header comment, the
    /// library's values, the favorites row (`favorite_<i>=<field>` in row
    /// order), then the shell's lines as they are.
    pub fn to_text(&self) -> (r: String)
        ensures
            r@ == record_text(self@),
    {
        let mut out = String::new();
        push_str_chars(&mut out, "# AtomArtist UI settings\n");
        push_kv(&mut out, "perspective", bool_str(self.perspective));
        push_kv(&mut out, "turntable", bool_str(self.turntable));
        push_kv(&mut out, "show_bed", bool_str(self.show_bed));
        let ghost before_style = out@;
        match self.render_style {
            Some(s) => push_kv(&mut out, "render_style", render_style_to_token(s)),
            None => {},
        }
        assert(out@ =~= before_style + render_style_text(self.render_style));
        write_main_window(&mut out, &self.main_window);
        push_kv(&mut out, "favorites_bar_expanded", bool_str(self.favorites_bar_expanded));
        push_kv(&mut out, "favorites_seeded", bool_str(self.favorites.seeded()));
        let ghost before_favorites = out@;
        let list = self.favorites.list();
        let ghost items = self.favorites@.items;
        let mut i: usize = 0;
        while i < list.len()
            invariant
                list@.map_values(|f: Favorite| f@) == items,
                i <= items.len(),
                out@ == before_favorites + favorites_text(items.take(i as int)),
            decreases items.len() - i,
        {
            proof {
                assert(items.take(i as int + 1).drop_last() =~= items.take(i as int));
                assert(items.take(i as int + 1).last() == list@[i as int]@);
            }
            let ghost o0 = out@;
            push_str_chars(&mut out, "favorite_");
            push_digits(&mut out, i as u64);
            out.push('=');
            let field = list[i].to_field();
            push_str_chars(&mut out, field.as_str());
            out.push('\n');
            assert(out@ =~= o0 + kv_line(favorite_key(i as int), field_of(list@[i as int]@)));
            i = i + 1;
        }
        assert(items.take(items.len() as int) =~= items);
        let ghost before_shell = out@;
        let mut j: usize = 0;
        while j < self.shell_lines.len()
            invariant
                j <= self@.shell_lines.len(),
                self@.shell_lines.len() == self.shell_lines@.len(),
                out@ == before_shell + shell_text(self@.shell_lines.take(j as int)),
            decreases self@.shell_lines.len() - j,
        {
            proof {
                let ls = self@.shell_lines;
                assert(ls.take(j as int + 1).drop_last() =~= ls.take(j as int));
                assert(ls.take(j as int + 1).last() == ls[j as int]);
            }
            let ghost o0 = out@;
            push_kv(&mut out, self.shell_lines[j].0.as_str(), self.shell_lines[j].1.as_str());
            j = j + 1;
        }
        assert(self@.shell_lines.take(self@.shell_lines.len() as int) =~= self@.shell_lines);
        out
    }

    /// Read a settings text; see [`apply_pair`].
    pub fn from_text(text: &str) -> (r: SettingsRecord)
        ensures
            r@ == read_text(text@),
    {
        let pairs = settings_entries(text);
        let ghost ps = pairs_view(pairs@);
        let mut perspective = true;
        let mut turntable = true;
        let mut show_bed = true;
        let mut render_style: Option<RenderStyle> = None;
        let mut main_window = MainWindowState { x: 0, y: 0, width: 0, height: 0, maximized: false };
        let mut favorites_seeded = false;
        let mut favorite_lines: Vec<(u64, Favorite)> = Vec::new();
        let mut favorites_bar_expanded = false;
        let mut shell_lines: Vec<(String, String)> = Vec::new();
        let mut i: usize = 0;
        while i < pairs.len()
            invariant
                ps == pairs_view(pairs@),
                i <= ps.len(),
                ({
                    let f = fold_pairs(ps.take(i as int));
                    &&& perspective == f.perspective
                    &&& turntable == f.turntable
                    &&& show_bed == f.show_bed
                    &&& render_style == f.render_style
                    &&& main_window == f.main_window
                    &&& favorites_seeded == f.favorites_seeded
                    &&& indexed_view(favorite_lines@) == f.favorite_lines
                    &&& favorites_bar_expanded == f.favorites_bar_expanded
                    &&& pairs_view(shell_lines@) == f.shell_lines
                }),
            decreases ps.len() - i,
        {
            let ghost before = fold_pairs(ps.take(i as int));
            proof {
                assert(ps.take(i as int + 1).drop_last() =~= ps.take(i as int));
                assert(ps.take(i as int + 1).last() == ps[i as int]);
            }
            let key = pairs[i].0.as_str();
            let value = pairs[i].1.as_str();
            let ghost k = key@;
            let ghost v = value@;
            assert(ps[i as int] == (k, v));
            if str_eq(key, "perspective") {
                if let Some(b) = parse_bool(value) {
                    perspective = b;
                }
            } else if str_eq(key, "turntable") {
                if let Some(b) = parse_bool(value) {
                    turntable = b;
                }
            } else if str_eq(key, "show_bed") {
                if let Some(b) = parse_bool(value) {
                    show_bed = b;
                }
            } else if str_eq(key, "render_style") {
                if let Some(s) = render_style_from_token(value) {
                    render_style = Some(s);
                }
            } else if str_eq(key, "favorites_seeded") {
                if let Some(b) = parse_bool(value) {
                    favorites_seeded = b;
                }
            } else if str_eq(key, "favorites_bar_expanded") {
                if let Some(b) = parse_bool(value) {
                    favorites_bar_expanded = b;
                }
            } else {
                let kc = chars_of(key);
                let recent = strip_prefix_chars(&kc, "recent_project_");
                if str_eq(key, "snap_amount") || str_eq(key, "theme") || str_eq(key, "accent_color") || str_eq(
                    key,
                    "last_project_path",
                ) || str_eq(key, "favorites_bar_width") || recent.is_some() {
                    let ghost s0 = pairs_view(shell_lines@);
                    shell_lines.push((key.to_string(), value.to_string()));
                    assert(pairs_view(shell_lines@) =~= s0.push((k, v)));
                } else {
                    match strip_prefix_chars(&kc, "favorite_") {
                        Some(rest) => {
                            if let Some(idx) = parse_u64_chars(&rest) {
                                if let Some(fav) = Favorite::from_field(value) {
                                    let ghost f0 = indexed_view(favorite_lines@);
                                    let ghost fv = fav@;
                                    favorite_lines.push((idx, fav));
                                    assert(indexed_view(favorite_lines@) =~= f0.push((idx, fv)));
                                }
                            }
                        },
                        None => {
                            let hit = apply_main_window_kv(&mut main_window, key, value);
                            if !hit {
                                let ghost s0 = pairs_view(shell_lines@);
                                shell_lines.push((key.to_string(), value.to_string()));
                                assert(pairs_view(shell_lines@) =~= s0.push((k, v)));
                            }
                        },
                    }
                }
            }
            i = i + 1;
        }
        assert(ps.take(ps.len() as int) =~= ps);
        let ghost lines = favorite_lines@;
        let ordered = order_by_index(favorite_lines);
        proof {
            lemma_by_index_view(lines);
            assert(ordered@.map_values(|f: Favorite| f@) =~= values_of(by_index(indexed_view(lines))));
        }
        let favorites = Favorites::from_parts(ordered, favorites_seeded);
        SettingsRecord {
            perspective,
            turntable,
            show_bed,
            render_style,
            main_window,
            favorites,
            favorites_bar_expanded,
            shell_lines,
        }
    }
}

} // verus!
