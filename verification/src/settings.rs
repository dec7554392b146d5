//! The persisted OS-window placement and its startup decision.
//!
//! Settings are stored one `key=value` per line. This module holds the
//! main-window part of that format: the saved geometry, whether it is
//! still reachable on the attached monitors, the [`WindowPlacement`] the
//! shell follows at startup, and the `main_window_*` lines themselves.
use vstd::prelude::*;

use crate::decimal::{decimal, parse_i32, parse_i32_chars, parse_u32, parse_u32_chars, push_i64};
use crate::text::{chars_of, is_whitespace, leading_ws, push_str_chars, string_from_chars, trailing_ws, trim_vec, trimmed};

verus! {

broadcast use vstd::string::group_string_axioms;

/// Upper bound on the persisted / displayed recent-projects list.
pub const MAX_RECENT_PROJECTS: usize = 10;

/// Minimum on-screen overlap (physical pixels) of the window's title-bar
/// strip required for [`MainWindowState::fits_on_monitors`] to call a
/// saved placement "still reachable".
pub const MIN_OVERLAP_WIDTH: i32 = 120;
pub const MIN_OVERLAP_HEIGHT: i32 = 40;

/// Persisted geometry + maximized flag for the host OS window, in
/// physical pixels of the virtual desktop (Y down). A zero width or
/// height means "no usable saved geometry".
#[derive(Clone, Copy, Debug, PartialEq, Eq, Structural)]
pub struct MainWindowState {
    pub x: i32,
    pub y: i32,
    pub width: u32,
    pub height: u32,
    pub maximized: bool,
}

/// What the shell does with the OS window at startup.
#[derive(Clone, Copy, Debug, PartialEq, Eq, Structural)]
pub enum WindowPlacement {
    /// No usable saved bounds: first-launch defaults, maximized or not.
    Default { maximized: bool },
    /// Saved bounds are usable as-is.
    Restore { bounds: MainWindowState },
    /// Usable size, but the position reaches no attached monitor: keep the
    /// size and maximized flag, pick a new centred position.
    Recenter { width: u32, height: u32, maximized: bool },
}

/// A monitor, as `(x, y, width, height)` in physical pixels.
pub type MonitorRect = (i32, i32, u32, u32);

/// The overlap of rectangle `a` (`x, y, w, h`) with monitor `b`, as the
/// pair of its extents along x and y (negative when there is none).
pub open spec fn overlap_extent(a: (i32, i32, i32, i32), b: MonitorRect) -> (int, int) {
    let bw = b.2 as i32;
    let bh = b.3 as i32;
    let ix0 = if a.0 >= b.0 { a.0 as int } else { b.0 as int };
    let iy0 = if a.1 >= b.1 { a.1 as int } else { b.1 as int };
    let ax1 = a.0 + a.2;
    let bx1 = b.0 + bw;
    let ay1 = a.1 + a.3;
    let by1 = b.1 + bh;
    let ix1 = if ax1 <= bx1 { ax1 } else { bx1 };
    let iy1 = if ay1 <= by1 { ay1 } else { by1 };
    (ix1 - ix0, iy1 - iy0)
}

/// The overlap is computed in `i32`; these are the inputs on
/// which none of its intermediate sums and differences leaves that range.
pub open spec fn overlap_fits_i32(a: (i32, i32, i32, i32), b: MonitorRect) -> bool {
    let bw = b.2 as i32;
    let bh = b.3 as i32;
    let (w, h) = overlap_extent(a, b);
    &&& i32::MIN <= a.0 + a.2 <= i32::MAX
    &&& i32::MIN <= a.1 + a.3 <= i32::MAX
    &&& i32::MIN <= b.0 + bw <= i32::MAX
    &&& i32::MIN <= b.1 + bh <= i32::MAX
    &&& i32::MIN <= w <= i32::MAX
    &&& i32::MIN <= h <= i32::MAX
}

/// The intersection of `a` and `b` covers at least `min_w` × `min_h`.
pub open spec fn overlaps_at_least(a: (i32, i32, i32, i32), b: MonitorRect, min_w: int, min_h: int) -> bool {
    let (w, h) = overlap_extent(a, b);
    w >= min_w && h >= min_h
}

/// `true` when the intersection of the `(x, y, w, h)` rectangle `a` with
/// monitor `b` covers at least `min_w` × `min_h` pixels.
pub fn rects_overlap_at_least(a: (i32, i32, i32, i32), b: MonitorRect, min_w: i32, min_h: i32) -> (r: bool)
    requires
        overlap_fits_i32(a, b),
    ensures
        r == overlaps_at_least(a, b, min_w as int, min_h as int),
{
    let (ax, ay, aw, ah) = a;
    let (bx, by, bw, bh) = b;
    let bw = bw as i32;
    let bh = bh as i32;
    let ix0 = if ax >= bx { ax } else { bx };
    let iy0 = if ay >= by { ay } else { by };
    let ax1 = ax + aw;
    let bx1 = bx + bw;
    let ay1 = ay + ah;
    let by1 = by + bh;
    let ix1 = if ax1 <= bx1 { ax1 } else { bx1 };
    let iy1 = if ay1 <= by1 { ay1 } else { by1 };
    (ix1 - ix0) >= min_w && (iy1 - iy0) >= min_h
}

impl MainWindowState {
    /// The saved geometry is usable: neither dimension is zero.
    pub open spec fn valid_geometry(self) -> bool {
        self.width > 0 && self.height > 0
    }

    /// The window's title-bar strip: its top `MIN_OVERLAP_HEIGHT` rows.
    pub open spec fn title_strip(self) -> (i32, i32, i32, i32) {
        let h = self.height as i32;
        (self.x, self.y, self.width as i32, if MIN_OVERLAP_HEIGHT <= h { MIN_OVERLAP_HEIGHT } else { h })
    }

    /// The strip reaches monitor `m` by at least the drag minimum.
    pub open spec fn reaches(self, m: MonitorRect) -> bool {
        overlaps_at_least(self.title_strip(), m, MIN_OVERLAP_WIDTH as int, MIN_OVERLAP_HEIGHT as int)
    }

    /// The saved placement still overlaps some monitor enough to drag.
    pub open spec fn fits_spec(self, monitors: Seq<MonitorRect>) -> bool {
        self.valid_geometry() && exists|k: int| 0 <= k < monitors.len() && self.reaches(#[trigger] monitors[k])
    }

    /// The overlap arithmetic stays in `i32` for each monitor examined:
    /// every monitor up to the first one the strip reaches.
    pub open spec fn fits_in_i32(self, monitors: Seq<MonitorRect>) -> bool {
        self.valid_geometry() ==> forall|k: int|
            0 <= k < monitors.len() && (forall|j: int| 0 <= j < k ==> !self.reaches(#[trigger] monitors[j]))
                ==> overlap_fits_i32(self.title_strip(), #[trigger] monitors[k])
    }

    /// What [`MainWindowState::placement`] decides.
    pub open spec fn placement_spec(self, monitors: Seq<MonitorRect>) -> WindowPlacement {
        if !self.valid_geometry() {
            WindowPlacement::Default { maximized: self.maximized }
        } else if self.fits_spec(monitors) {
            WindowPlacement::Restore { bounds: self }
        } else {
            WindowPlacement::Recenter { width: self.width, height: self.height, maximized: self.maximized }
        }
    }

    /// `true` if the stored geometry is usable.
    pub fn has_valid_geometry(&self) -> (r: bool)
        ensures
            r == self.valid_geometry(),
    {
        self.width > 0 && self.height > 0
    }

    /// Whether the saved placement still overlaps at least one attached
    /// monitor by a `MIN_OVERLAP_WIDTH` × `MIN_OVERLAP_HEIGHT` patch of its
    /// title-bar strip — enough to grab and drag the window.
    pub fn fits_on_monitors(&self, monitors: Vec<MonitorRect>) -> (r: bool)
        requires
            self.fits_in_i32(monitors@),
        ensures
            r == self.fits_spec(monitors@),
    {
        if !self.has_valid_geometry() {
            return false;
        }
        let strip_w = self.width as i32;
        let h = self.height as i32;
        let strip_h = if MIN_OVERLAP_HEIGHT <= h { MIN_OVERLAP_HEIGHT } else { h };
        let strip = (self.x, self.y, strip_w, strip_h);
        assert(strip == self.title_strip());
        let mut k: usize = 0;
        while k < monitors.len()
            invariant
                strip == self.title_strip(),
                self.valid_geometry(),
                self.fits_in_i32(monitors@),
                k <= monitors@.len(),
                forall|j: int| 0 <= j < k ==> !self.reaches(#[trigger] monitors@[j]),
            decreases monitors@.len() - k,
        {
            assert(overlap_fits_i32(self.title_strip(), monitors@[k as int]));
            if rects_overlap_at_least(strip, monitors[k], MIN_OVERLAP_WIDTH, MIN_OVERLAP_HEIGHT) {
                assert(self.reaches(monitors@[k as int]));
                return true;
            }
            k = k + 1;
        }
        false
    }

    /// Decide what the shell should do with these saved bounds at startup,
    /// given the attached monitors. The maximized flag is carried in every
    /// outcome.
    pub fn placement(self, monitors: Vec<MonitorRect>) -> (r: WindowPlacement)
        requires
            self.fits_in_i32(monitors@),
        ensures
            r == self.placement_spec(monitors@),
    {
        if !self.has_valid_geometry() {
            return WindowPlacement::Default { maximized: self.maximized };
        }
        if self.fits_on_monitors(monitors) {
            return WindowPlacement::Restore { bounds: self };
        }
        WindowPlacement::Recenter { width: self.width, height: self.height, maximized: self.maximized }
    }
}

impl Default for MainWindowState {
    /// Zero size: "no saved bounds", so the shell uses its launch defaults.
    fn default() -> (r: MainWindowState)
        ensures
            r == (MainWindowState { x: 0, y: 0, width: 0, height: 0, maximized: false }),
    {
        MainWindowState { x: 0, y: 0, width: 0, height: 0, maximized: false }
    }
}

// ---------------------------------------------------------------------
// Text form
// ---------------------------------------------------------------------

/// The characters of a string literal, as a spec sequence.
pub open spec fn seq_true() -> Seq<char> { seq!['t', 'r', 'u', 'e'] }
pub open spec fn seq_false() -> Seq<char> { seq!['f', 'a', 'l', 's', 'e'] }

/// The settings file's boolean tokens.
pub open spec fn parse_bool_spec(s: Seq<char>) -> Option<bool> {
    if s == seq_true() || s == seq!['1'] || s == seq!['y', 'e', 's'] || s == seq!['o', 'n'] {
        Some(true)
    } else if s == seq_false() || s == seq!['0'] || s == seq!['n', 'o'] || s == seq!['o', 'f', 'f'] {
        Some(false)
    } else {
        None
    }
}

/// How `{}` renders a `bool`.
pub open spec fn bool_text(b: bool) -> Seq<char> {
    if b { seq_true() } else { seq_false() }
}

/// `true`/`1`/`yes`/`on` and `false`/`0`/`no`/`off`; anything else is
/// `None`.
pub fn parse_bool(s: &str) -> (r: Option<bool>)
    ensures
        r == parse_bool_spec(s@),
{
    let v = chars_of(s);
    parse_bool_chars(&v)
}

fn parse_bool_chars(v: &Vec<char>) -> (r: Option<bool>)
    ensures
        r == parse_bool_spec(v@),
{
    let n = v.len();
    let s = v.as_slice();
    if (n == 4 && s[0] == 't' && s[1] == 'r' && s[2] == 'u' && s[3] == 'e')
        || (n == 1 && s[0] == '1') || (n == 3 && s[0] == 'y' && s[1] == 'e' && s[2] == 's')
        || (n == 2 && s[0] == 'o' && s[1] == 'n') {
        proof { lemma_bool_tokens(v@); }
        Some(true)
    } else if (n == 5 && s[0] == 'f' && s[1] == 'a' && s[2] == 'l' && s[3] == 's' && s[4] == 'e')
        || (n == 1 && s[0] == '0') || (n == 2 && s[0] == 'n' && s[1] == 'o')
        || (n == 3 && s[0] == 'o' && s[1] == 'f' && s[2] == 'f') {
        proof { lemma_bool_tokens(v@); }
        Some(false)
    } else {
        proof { lemma_bool_tokens(v@); }
        None
    }
}

proof fn lemma_bool_tokens(s: Seq<char>)
    ensures
        (s == seq_true()) == (s.len() == 4 && s[0] == 't' && s[1] == 'r' && s[2] == 'u' && s[3] == 'e'),
        (s == seq!['1']) == (s.len() == 1 && s[0] == '1'),
        (s == seq!['y', 'e', 's']) == (s.len() == 3 && s[0] == 'y' && s[1] == 'e' && s[2] == 's'),
        (s == seq!['o', 'n']) == (s.len() == 2 && s[0] == 'o' && s[1] == 'n'),
        (s == seq_false()) == (s.len() == 5 && s[0] == 'f' && s[1] == 'a' && s[2] == 'l' && s[3] == 's'
            && s[4] == 'e'),
        (s == seq!['0']) == (s.len() == 1 && s[0] == '0'),
        (s == seq!['n', 'o']) == (s.len() == 2 && s[0] == 'n' && s[1] == 'o'),
        (s == seq!['o', 'f', 'f']) == (s.len() == 3 && s[0] == 'o' && s[1] == 'f' && s[2] == 'f'),
{
    if s.len() == 4 && s[0] == 't' && s[1] == 'r' && s[2] == 'u' && s[3] == 'e' { assert(s =~= seq_true()); }
    if s.len() == 1 && s[0] == '1' { assert(s =~= seq!['1']); }
    if s.len() == 3 && s[0] == 'y' && s[1] == 'e' && s[2] == 's' { assert(s =~= seq!['y', 'e', 's']); }
    if s.len() == 2 && s[0] == 'o' && s[1] == 'n' { assert(s =~= seq!['o', 'n']); }
    if s.len() == 5 && s[0] == 'f' && s[1] == 'a' && s[2] == 'l' && s[3] == 's' && s[4] == 'e' {
        assert(s =~= seq_false());
    }
    if s.len() == 1 && s[0] == '0' { assert(s =~= seq!['0']); }
    if s.len() == 2 && s[0] == 'n' && s[1] == 'o' { assert(s =~= seq!['n', 'o']); }
    if s.len() == 3 && s[0] == 'o' && s[1] == 'f' && s[2] == 'f' { assert(s =~= seq!['o', 'f', 'f']); }
}

/// The key prefix of the main-window lines.
pub open spec fn main_window_prefix() -> Seq<char> {
    seq!['m', 'a', 'i', 'n', '_', 'w', 'i', 'n', 'd', 'o', 'w', '_']
}

/// The suffixes of the five main-window keys.
pub open spec fn suffix_x() -> Seq<char> { seq!['x'] }
pub open spec fn suffix_y() -> Seq<char> { seq!['y'] }
pub open spec fn suffix_w() -> Seq<char> { seq!['w'] }
pub open spec fn suffix_h() -> Seq<char> { seq!['h'] }
pub open spec fn suffix_maximized() -> Seq<char> {
    seq!['m', 'a', 'x', 'i', 'm', 'i', 'z', 'e', 'd']
}

/// One `main_window_<suffix>=<value>` line.
pub open spec fn main_window_line(suffix: Seq<char>, value: Seq<char>) -> Seq<char> {
    main_window_prefix() + suffix + seq!['='] + value + seq!['\n']
}

/// The five lines [`write_main_window`] writes.
pub open spec fn main_window_text(state: MainWindowState) -> Seq<char> {
    main_window_line(suffix_x(), decimal(state.x as int))
        + main_window_line(suffix_y(), decimal(state.y as int))
        + main_window_line(suffix_w(), decimal(state.width as int))
        + main_window_line(suffix_h(), decimal(state.height as int))
        + main_window_line(suffix_maximized(), bool_text(state.maximized))
}

/// `state` after the `key=value` line, and whether the key was a
/// `main_window_*` key at all. A value that does not parse leaves the
/// field alone.
pub open spec fn apply_main_window_spec(
    state: MainWindowState,
    key: Seq<char>,
    value: Seq<char>,
) -> (MainWindowState, bool) {
    let p = main_window_prefix();
    if key.len() < p.len() || key.take(p.len() as int) != p {
        (state, false)
    } else {
        let suffix = key.skip(p.len() as int);
        let next = if suffix == suffix_x() {
            match parse_i32(value) { Some(n) => MainWindowState { x: n, ..state }, None => state }
        } else if suffix == suffix_y() {
            match parse_i32(value) { Some(n) => MainWindowState { y: n, ..state }, None => state }
        } else if suffix == suffix_w() {
            match parse_u32(value) { Some(n) => MainWindowState { width: n, ..state }, None => state }
        } else if suffix == suffix_h() {
            match parse_u32(value) { Some(n) => MainWindowState { height: n, ..state }, None => state }
        } else if suffix == suffix_maximized() {
            match parse_bool_spec(value) {
                Some(b) => MainWindowState { maximized: b, ..state },
                None => state,
            }
        } else {
            state
        };
        (next, true)
    }
}

fn push_line_key(out: &mut String, suffix: &str)
    ensures
        final(out)@ == old(out)@ + main_window_prefix() + suffix@ + seq!['='],
{
    proof { reveal_strlit("main_window_"); }
    push_str_chars(out, "main_window_");
    push_str_chars(out, suffix);
    out.push('=');
    assert(out@ =~= old(out)@ + main_window_prefix() + suffix@ + seq!['=']);
}

fn push_bool(out: &mut String, b: bool)
    ensures
        final(out)@ == old(out)@ + bool_text(b),
{
    if b {
        proof { reveal_strlit("true"); }
        push_str_chars(out, "true");
        assert(out@ =~= old(out)@ + bool_text(b));
    } else {
        proof { reveal_strlit("false"); }
        push_str_chars(out, "false");
        assert(out@ =~= old(out)@ + bool_text(b));
    }
}

/// Append the five `main_window_*` lines for `state`.
pub fn write_main_window(out: &mut String, state: &MainWindowState)
    ensures
        final(out)@ == old(out)@ + main_window_text(*state),
{
    proof {
        reveal_strlit("x");
        reveal_strlit("y");
        reveal_strlit("w");
        reveal_strlit("h");
        reveal_strlit("maximized");
    }
    let ghost o = out@;
    push_line_key(out, "x");
    push_i64(out, state.x as i64);
    out.push('\n');
    push_line_key(out, "y");
    push_i64(out, state.y as i64);
    out.push('\n');
    push_line_key(out, "w");
    push_i64(out, state.width as i64);
    out.push('\n');
    push_line_key(out, "h");
    push_i64(out, state.height as i64);
    out.push('\n');
    push_line_key(out, "maximized");
    push_bool(out, state.maximized);
    out.push('\n');
    assert(out@ =~= o + main_window_text(*state));
}

fn chars_eq_lit(v: &[char], lit: &str) -> (r: bool)
    ensures
        r == (v@ == lit@),
{
    let w = chars_of(lit);
    if v.len() != w.len() {
        return false;
    }
    let mut i: usize = 0;
    while i < v.len()
        invariant
            w@ == lit@,
            v@.len() == w@.len(),
            i <= v@.len(),
            forall|j: int| 0 <= j < i ==> v@[j] == w@[j],
        decreases v@.len() - i,
    {
        if v[i] != w[i] {
            return false;
        }
        i = i + 1;
    }
    assert(v@ =~= w@);
    true
}

/// Apply one `key=value` line if `key` is a `main_window_*` key. Returns
/// `true` for such a key (whether or not the value parsed), `false` — and
/// leaves `state` alone — for any other key.
pub fn apply_main_window_kv(state: &mut MainWindowState, key: &str, value: &str) -> (r: bool)
    ensures
        (*final(state), r) == apply_main_window_spec(*old(state), key@, value@),
{
    proof {
        reveal_strlit("main_window_");
        reveal_strlit("x");
        reveal_strlit("y");
        reveal_strlit("w");
        reveal_strlit("h");
        reveal_strlit("maximized");
    }
    let k = chars_of(key);
    let p = chars_of("main_window_");
    assert(p@ =~= main_window_prefix());
    if k.len() < p.len() {
        return false;
    }
    let mut i: usize = 0;
    while i < p.len()
        invariant
            k@ == key@,
            p@ == main_window_prefix(),
            p@.len() <= k@.len(),
            i <= p@.len(),
            forall|j: int| 0 <= j < i ==> k@[j] == p@[j],
        decreases p@.len() - i,
    {
        if k[i] != p[i] {
            assert(k@.take(p@.len() as int)[i as int] != p@[i as int]);
            return false;
        }
        i = i + 1;
    }
    assert(k@.take(p@.len() as int) =~= p@);
    let mut suffix: Vec<char> = Vec::new();
    let mut j: usize = p.len();
    while j < k.len()
        invariant
            k@ == key@,
            p@.len() <= j <= k@.len(),
            suffix@ == k@.subrange(p@.len() as int, j as int),
        decreases k@.len() - j,
    {
        suffix.push(k[j]);
        j = j + 1;
        assert(suffix@ =~= k@.subrange(p@.len() as int, j as int));
    }
    assert(suffix@ =~= key@.skip(main_window_prefix().len() as int));
    assert("x"@ =~= suffix_x());
    assert("y"@ =~= suffix_y());
    assert("w"@ =~= suffix_w());
    assert("h"@ =~= suffix_h());
    assert("maximized"@ =~= suffix_maximized());
    let v = chars_of(value);
    let sfx = suffix.as_slice();
    if chars_eq_lit(sfx, "x") {
        if let Some(n) = parse_i32_chars(&v) {
            state.x = n;
        }
    } else if chars_eq_lit(sfx, "y") {
        if let Some(n) = parse_i32_chars(&v) {
            state.y = n;
        }
    } else if chars_eq_lit(sfx, "w") {
        if let Some(n) = parse_u32_chars(&v) {
            state.width = n;
        }
    } else if chars_eq_lit(sfx, "h") {
        if let Some(n) = parse_u32_chars(&v) {
            state.height = n;
        }
    } else if chars_eq_lit(sfx, "maximized") {
        if let Some(b) = parse_bool(value) {
            state.maximized = b;
        }
    }
    true
}

// ---------------------------------------------------------------------
// The line format
// ---------------------------------------------------------------------

/// `s` split at every `\n` (the pieces of `str::split('\n')`).
pub open spec fn raw_lines(s: Seq<char>) -> Seq<Seq<char>>
    decreases s.len(),
{
    if s.len() == 0 {
        seq![Seq::empty()]
    } else {
        let p = raw_lines(s.drop_last());
        if s.last() == '\n' {
            p.push(Seq::empty())
        } else {
            p.update(p.len() - 1, p.last().push(s.last()))
        }
    }
}

/// Index of the first `=` in `t`.
pub open spec fn first_eq(t: Seq<char>) -> Option<int>
    decreases t.len(),
{
    if t.len() == 0 {
        None
    } else if t[0] == '=' {
        Some(0)
    } else {
        match first_eq(t.drop_first()) {
            Some(i) => Some(i + 1),
            None => None,
        }
    }
}

/// The `key=value` pair a line holds: the line trimmed; blank lines,
/// `#` comments and lines without `=` hold none; otherwise the key and
/// value around the first `=`, each trimmed.
pub open spec fn line_entry(line: Seq<char>) -> Option<(Seq<char>, Seq<char>)> {
    let t = trimmed(line);
    if t.len() == 0 || t[0] == '#' {
        None
    } else {
        match first_eq(t) {
            Some(i) => Some((trimmed(t.take(i)), trimmed(t.skip(i + 1)))),
            None => None,
        }
    }
}

/// The pairs a run of lines holds, in order.
pub open spec fn entries_of_lines(ls: Seq<Seq<char>>) -> Seq<(Seq<char>, Seq<char>)>
    decreases ls.len(),
{
    if ls.len() == 0 {
        Seq::empty()
    } else {
        let r = entries_of_lines(ls.drop_last());
        match line_entry(ls.last()) {
            Some(e) => r.push(e),
            None => r,
        }
    }
}

/// The `key=value` pairs of a settings text, in file order.
pub open spec fn settings_pairs(text: Seq<char>) -> Seq<(Seq<char>, Seq<char>)> {
    entries_of_lines(raw_lines(text))
}

/// The views of a run of string pairs.
pub open spec fn pairs_view(v: Seq<(String, String)>) -> Seq<(Seq<char>, Seq<char>)> {
    v.map_values(|p: (String, String)| (p.0@, p.1@))
}

proof fn lemma_raw_lines_nonempty(s: Seq<char>)
    ensures
        raw_lines(s).len() >= 1,
    decreases s.len(),
{
    if s.len() > 0 {
        lemma_raw_lines_nonempty(s.drop_last());
    }
}

/// The pair one line holds.
fn entry_of_line(line: &Vec<char>) -> (r: Option<(String, String)>)
    ensures
        match r {
            Some((k, v)) => line_entry(line@) == Some((k@, v@)),
            None => line_entry(line@) is None,
        },
{
    let t = trim_vec(line);
    if t.len() == 0 || t[0] == '#' {
        return None;
    }
    let mut i: usize = 0;
    assert(t@.skip(0) =~= t@);
    while i < t.len() && t[i] != '='
        invariant
            i <= t@.len(),
            forall|q: int| 0 <= q < i ==> t@[q] != '=',
            first_eq(t@) == match first_eq(t@.skip(i as int)) {
                Some(j) => Some(j + i),
                None => None::<int>,
            },
        decreases t@.len() - i,
    {
        assert(t@.skip(i as int).drop_first() =~= t@.skip(i + 1));
        i = i + 1;
    }
    if i == t.len() {
        assert(t@.skip(i as int) =~= Seq::<char>::empty());
        return None;
    }
    assert(t@.skip(i as int)[0] == '=');
    let mut key: Vec<char> = Vec::new();
    let mut a: usize = 0;
    while a < i
        invariant
            i < t@.len(),
            a <= i,
            key@ == t@.take(a as int),
        decreases i - a,
    {
        key.push(t[a]);
        a = a + 1;
        assert(key@ =~= t@.take(a as int));
    }
    let mut value: Vec<char> = Vec::new();
    let mut b: usize = i + 1;
    while b < t.len()
        invariant
            i < t@.len(),
            i + 1 <= b <= t@.len(),
            value@ == t@.subrange(i + 1, b as int),
        decreases t@.len() - b,
    {
        value.push(t[b]);
        b = b + 1;
        assert(value@ =~= t@.subrange(i + 1, b as int));
    }
    assert(value@ =~= t@.skip(i + 1));
    let k = trim_vec(&key);
    let v = trim_vec(&value);
    Some((string_from_chars(k.as_slice()), string_from_chars(v.as_slice())))
}

/// The `key=value` pairs of a settings text, in file order; see
/// [`settings_pairs`].
pub fn settings_entries(text: &str) -> (r: Vec<(String, String)>)
    ensures
        pairs_view(r@) == settings_pairs(text@),
{
    let s = chars_of(text);
    let mut out: Vec<(String, String)> = Vec::new();
    let mut cur: Vec<char> = Vec::new();
    let mut i: usize = 0;
    while i < s.len()
        invariant
            s@ == text@,
            i <= s@.len(),
            raw_lines(s@.take(i as int)).len() >= 1,
            cur@ == raw_lines(s@.take(i as int)).last(),
            pairs_view(out@) == entries_of_lines(raw_lines(s@.take(i as int)).drop_last()),
        decreases s@.len() - i,
    {
        let ghost prev = raw_lines(s@.take(i as int));
        proof {
            assert(s@.take(i as int + 1).drop_last() =~= s@.take(i as int));
            assert(s@.take(i as int + 1).last() == s@[i as int]);
        }
        let c = s[i];
        if c == '\n' {
            proof {
                let next = raw_lines(s@.take(i as int + 1));
                assert(next == prev.push(Seq::<char>::empty()));
                assert(next.drop_last() =~= prev);
                assert(prev.drop_last().push(prev.last()) =~= prev);
            }
            let ghost o0 = pairs_view(out@);
            match entry_of_line(&cur) {
                Some(e) => {
                    let ghost ev = (e.0@, e.1@);
                    out.push(e);
                    assert(pairs_view(out@) =~= o0.push(ev));
                },
                None => {},
            }
            cur = Vec::new();
        } else {
            proof {
                let next = raw_lines(s@.take(i as int + 1));
                assert(next.drop_last() =~= prev.drop_last());
            }
            cur.push(c);
        }
        i = i + 1;
    }
    assert(s@.take(s@.len() as int) =~= s@);
    let ghost all = raw_lines(s@);
    assert(all.drop_last().push(all.last()) =~= all);
    let ghost o0 = pairs_view(out@);
    match entry_of_line(&cur) {
        Some(e) => {
            let ghost ev = (e.0@, e.1@);
            out.push(e);
            assert(pairs_view(out@) =~= o0.push(ev));
        },
        None => {},
    }
    out
}

/// One `key=value` line of the settings file.
pub open spec fn kv_line(k: Seq<char>, v: Seq<char>) -> Seq<char> {
    k + seq!['='] + v + seq!['\n']
}

/// Whether `s` holds no line break.
pub open spec fn one_line(s: Seq<char>) -> bool {
    forall|i: int| 0 <= i < s.len() ==> #[trigger] s[i] != '\n'
}

/// Whether `s` has no `=`.
pub open spec fn no_eq(s: Seq<char>) -> bool {
    forall|i: int| 0 <= i < s.len() ==> #[trigger] s[i] != '='
}

/// Whether `k=v` reads back as the pair `(k, v)`: a key with no edge
/// whitespace, `=` or `#` in front, a value with no edge whitespace, and
/// no line break in either.
pub open spec fn writable_pair(k: Seq<char>, v: Seq<char>) -> bool {
    &&& k.len() > 0
    &&& k[0] != '#'
    &&& trimmed(k) == k
    &&& trimmed(v) == v
    &&& no_eq(k)
    &&& one_line(k)
    &&& one_line(v)
}

proof fn lemma_raw_lines_step(a: Seq<Seq<char>>, b: Seq<Seq<char>>, c: char)
    requires
        b.len() >= 1,
    ensures
        (if c == '\n' {
            (a + b).push(Seq::empty())
        } else {
            (a + b).update((a + b).len() - 1, (a + b).last().push(c))
        }) == a + (if c == '\n' {
            b.push(Seq::empty())
        } else {
            b.update(b.len() - 1, b.last().push(c))
        }),
{
    if c == '\n' {
        assert((a + b).push(Seq::empty()) =~= a + b.push(Seq::empty()));
    } else {
        assert((a + b).update((a + b).len() - 1, (a + b).last().push(c)) =~= a + b.update(
            b.len() - 1,
            b.last().push(c),
        ));
    }
}

/// Splitting text that follows a finished line: the lines of `x + y`,
/// where `x` ends in a line break, are those of `x` then those of `y`.
proof fn lemma_raw_lines_concat(x: Seq<char>, y: Seq<char>)
    requires
        x.len() > 0,
        x.last() == '\n',
    ensures
        raw_lines(x + y) == raw_lines(x).drop_last() + raw_lines(y),
    decreases y.len(),
{
    lemma_raw_lines_nonempty(x);
    if y.len() == 0 {
        assert(x + y =~= x);
        assert(raw_lines(x) == raw_lines(x.drop_last()).push(Seq::<char>::empty()));
        assert(raw_lines(x).drop_last() + raw_lines(y) =~= raw_lines(x));
    } else {
        let y0 = y.drop_last();
        lemma_raw_lines_concat(x, y0);
        lemma_raw_lines_nonempty(y0);
        assert((x + y).drop_last() =~= x + y0);
        assert((x + y).last() == y.last());
        lemma_raw_lines_step(raw_lines(x).drop_last(), raw_lines(y0), y.last());
    }
}

proof fn lemma_entries_concat(a: Seq<Seq<char>>, b: Seq<Seq<char>>)
    ensures
        entries_of_lines(a + b) == entries_of_lines(a) + entries_of_lines(b),
    decreases b.len(),
{
    if b.len() == 0 {
        assert(a + b =~= a);
        assert(entries_of_lines(a) + entries_of_lines(b) =~= entries_of_lines(a));
    } else {
        lemma_entries_concat(a, b.drop_last());
        assert((a + b).drop_last() =~= a + b.drop_last());
        assert((a + b).last() == b.last());
        match line_entry(b.last()) {
            Some(e) => {
                assert(entries_of_lines(a) + entries_of_lines(b) =~= (entries_of_lines(a) + entries_of_lines(
                    b.drop_last(),
                )).push(e));
            },
            None => {},
        }
    }
}

/// The settings pairs of a text made of finished lines and a rest are
/// those of the lines, then those of the rest.
pub proof fn lemma_settings_pairs_concat(x: Seq<char>, y: Seq<char>)
    requires
        x.len() > 0,
        x.last() == '\n',
    ensures
        settings_pairs(x + y) == settings_pairs(x) + settings_pairs(y),
{
    lemma_raw_lines_concat(x, y);
    lemma_raw_lines_nonempty(x);
    lemma_entries_concat(raw_lines(x).drop_last(), raw_lines(y));
    assert(raw_lines(x) == raw_lines(x.drop_last()).push(Seq::<char>::empty()));
    assert(raw_lines(x).drop_last() == raw_lines(x.drop_last()));
    assert(trimmed(Seq::<char>::empty()) =~= Seq::<char>::empty());
    assert(line_entry(Seq::<char>::empty()) is None);
}

proof fn lemma_raw_lines_of_one_line(s: Seq<char>)
    requires
        one_line(s),
    ensures
        raw_lines(s) == seq![s],
    decreases s.len(),
{
    if s.len() == 0 {
        assert(s =~= Seq::<char>::empty());
        assert(raw_lines(s) =~= seq![s]);
    } else {
        let p = s.drop_last();
        assert(one_line(p)) by {
            assert forall|i: int| 0 <= i < p.len() implies #[trigger] p[i] != '\n' by {
                assert(p[i] == s[i]);
            }
        }
        lemma_raw_lines_of_one_line(p);
        assert(s[s.len() - 1] != '\n');
        assert(p.push(s.last()) =~= s);
        let pl = raw_lines(p);
        assert(pl.last() == p);
        assert(pl.update(pl.len() - 1, pl.last().push(s.last())) =~= seq![s]);
        assert(raw_lines(s) =~= seq![s]);
    }
}

/// A `#` comment line holds no pair.
pub proof fn lemma_comment_line_reads_nothing(c: Seq<char>)
    requires
        one_line(c),
        c.len() > 0,
        c[0] == '#',
        !is_whitespace(c.last()),
    ensures
        settings_pairs(c + seq!['\n']) == Seq::<(Seq<char>, Seq<char>)>::empty(),
{
    let e = Seq::<char>::empty();
    lemma_raw_lines_of_one_line(c);
    assert((c + seq!['\n']).drop_last() =~= c);
    let ls = raw_lines(c + seq!['\n']);
    assert(ls =~= seq![c, e]);
    lemma_trimmed_edges(c);
    assert(line_entry(c) is None);
    assert(trimmed(e) =~= e);
    assert(line_entry(e) is None);
    assert(ls.drop_last() =~= seq![c]);
    assert(seq![c].drop_last() =~= Seq::<Seq<char>>::empty());
    assert(entries_of_lines(Seq::<Seq<char>>::empty()) =~= Seq::<(Seq<char>, Seq<char>)>::empty());
    assert(entries_of_lines(seq![c]) =~= Seq::<(Seq<char>, Seq<char>)>::empty());
}

/// No edge whitespace: the text is its own trim.
pub(crate) proof fn lemma_trimmed_edges(s: Seq<char>)
    ensures
        trimmed(s) == s <==> (s.len() == 0 || (!is_whitespace(s[0]) && !is_whitespace(s.last()))),
{
    if s.len() > 0 && !is_whitespace(s[0]) && !is_whitespace(s.last()) {
        assert(leading_ws(s) == 0);
        assert(s.skip(0) =~= s);
        assert(trailing_ws(s) == 0);
        assert(s.take(s.len() as int) =~= s);
    } else if s.len() == 0 {
        assert(leading_ws(s) == 0);
        assert(trimmed(s) =~= s);
    } else {
        if trimmed(s) == s {
            lemma_trim_drops_edges(s);
        }
    }
}

proof fn lemma_leading_ws_bound(s: Seq<char>)
    ensures
        leading_ws(s) <= s.len(),
    decreases s.len(),
{
    if s.len() > 0 && is_whitespace(s[0]) {
        lemma_leading_ws_bound(s.drop_first());
    }
}

proof fn lemma_trailing_ws_bound(s: Seq<char>)
    ensures
        trailing_ws(s) <= s.len(),
    decreases s.len(),
{
    if s.len() > 0 && is_whitespace(s.last()) {
        lemma_trailing_ws_bound(s.drop_last());
    }
}

/// Trimming a text with whitespace at an edge shortens it.
proof fn lemma_trim_drops_edges(s: Seq<char>)
    requires
        s.len() > 0,
        is_whitespace(s[0]) || is_whitespace(s.last()),
    ensures
        trimmed(s).len() < s.len(),
{
    lemma_leading_ws_bound(s);
    let front = s.skip(leading_ws(s) as int);
    lemma_trailing_ws_bound(front);
    if !is_whitespace(s[0]) {
        assert(leading_ws(s) == 0);
        assert(front =~= s);
        assert(trailing_ws(front) >= 1);
    }
}

proof fn lemma_first_eq_after(k: Seq<char>, rest: Seq<char>)
    requires
        no_eq(k),
        rest.len() > 0,
        rest[0] == '=',
    ensures
        first_eq(k + rest) == Some(k.len() as int),
    decreases k.len(),
{
    if k.len() == 0 {
        assert(k + rest =~= rest);
    } else {
        let t = k + rest;
        assert(t[0] == k[0]);
        assert(t.drop_first() =~= k.drop_first() + rest);
        assert(no_eq(k.drop_first())) by {
            assert forall|i: int| 0 <= i < k.drop_first().len() implies #[trigger] k.drop_first()[i] != '=' by {
                assert(k.drop_first()[i] == k[i + 1]);
            }
        }
        lemma_first_eq_after(k.drop_first(), rest);
    }
}

/// A written `k=v` line reads back as exactly the pair `(k, v)`.
pub proof fn lemma_kv_line_reads_back(k: Seq<char>, v: Seq<char>)
    requires
        writable_pair(k, v),
    ensures
        settings_pairs(kv_line(k, v)) == seq![(k, v)],
{
    let t = k + seq!['='] + v;
    assert(kv_line(k, v) =~= t + seq!['\n']);
    assert(one_line(t)) by {
        assert forall|i: int| 0 <= i < t.len() implies #[trigger] t[i] != '\n' by {
            if i < k.len() {
                assert(t[i] == k[i]);
            } else if i > k.len() {
                assert(t[i] == v[i - k.len() - 1]);
            }
        }
    }
    lemma_raw_lines_of_one_line(t);
    assert(raw_lines(t + seq!['\n']) == raw_lines(t).push(Seq::<char>::empty())) by {
        assert((t + seq!['\n']).drop_last() =~= t);
    }
    lemma_trimmed_edges(k);
    lemma_trimmed_edges(v);
    assert(t[0] == k[0]);
    if v.len() > 0 {
        assert(t.last() == v.last());
    } else {
        assert(t.last() == '=');
    }
    lemma_trimmed_edges(t);
    assert(seq!['='] + v == seq!['='] + v);
    assert(t =~= k + (seq!['='] + v));
    lemma_first_eq_after(k, seq!['='] + v);
    assert(t.take(k.len() as int) =~= k);
    assert(t.skip(k.len() as int + 1) =~= v);
    assert(line_entry(t) == Some((k, v)));
    assert(trimmed(Seq::<char>::empty()) =~= Seq::<char>::empty());
    let ls = raw_lines(t + seq!['\n']);
    assert(ls =~= seq![t, Seq::<char>::empty()]);
    assert(ls.drop_last() =~= seq![t]);
    assert(seq![t].drop_last() =~= Seq::<Seq<char>>::empty());
    assert(seq![t].last() == t);
    assert(entries_of_lines(Seq::<Seq<char>>::empty()) =~= Seq::<(Seq<char>, Seq<char>)>::empty());
    assert(entries_of_lines(seq![t]) =~= seq![(k, v)]);
}

// ---------------------------------------------------------------------
// Indexed lists
// ---------------------------------------------------------------------

/// `s` with `x` inserted after every entry whose index is at most
/// `x`'s: one step of a stable sort by index.
pub open spec fn insert_by_index<T>(s: Seq<(u64, T)>, x: (u64, T)) -> Seq<(u64, T)>
    decreases s.len(),
{
    if s.len() == 0 {
        seq![x]
    } else if x.0 < s.last().0 {
        insert_by_index(s.drop_last(), x).push(s.last())
    } else {
        s.push(x)
    }
}

/// `s` stably sorted by index: entries with equal indices keep their
/// file order.
pub open spec fn by_index<T>(s: Seq<(u64, T)>) -> Seq<(u64, T)>
    decreases s.len(),
{
    if s.len() == 0 {
        Seq::empty()
    } else {
        insert_by_index(by_index(s.drop_last()), s.last())
    }
}

/// The values of indexed entries, in order.
pub open spec fn values_of<T>(s: Seq<(u64, T)>) -> Seq<T> {
    s.map_values(|p: (u64, T)| p.1)
}

/// Entries collected from `key_<index>=value` lines, in index order
/// (ties in file order), so a hand-shuffled file loads
/// deterministically.
pub fn order_by_index<T>(items: Vec<(u64, T)>) -> (r: Vec<T>)
    ensures
        r@ == values_of(by_index(items@)),
{
    let ghost input = items@;
    let n0 = items.len();
    let mut items = items;
    let mut keys: Vec<u64> = Vec::new();
    let mut out: Vec<T> = Vec::new();
    let mut taken: usize = 0;
    let ghost mut sorted: Seq<(u64, T)> = Seq::empty();
    while items.len() > 0
        invariant
            items@ == input.skip(taken as int),
            input.len() == n0,
            taken <= input.len(),
            sorted == by_index(input.take(taken as int)),
            keys@.len() == sorted.len(),
            out@.len() == sorted.len(),
            forall|k: int| 0 <= k < sorted.len() ==> #[trigger] sorted[k] == (keys@[k], out@[k]),
        decreases items@.len(),
    {
        let ghost before_items = items@;
        let x = items.remove(0);
        proof {
            assert(x == input[taken as int]);
            assert(items@ =~= input.skip(taken as int + 1));
            assert(input.take(taken as int + 1).drop_last() =~= input.take(taken as int));
            assert(input.take(taken as int + 1).last() == x);
        }
        let mut p = keys.len();
        assert(sorted.take(p as int) =~= sorted);
        assert(sorted.skip(p as int) =~= Seq::<(u64, T)>::empty());
        while p > 0 && x.0 < keys[p - 1]
            invariant
                p <= sorted.len(),
                keys@.len() == sorted.len(),
                forall|k: int| 0 <= k < sorted.len() ==> #[trigger] sorted[k] == (keys@[k], out@[k]),
                insert_by_index(sorted, x) == insert_by_index(sorted.take(p as int), x) + sorted.skip(p as int),
            decreases p,
        {
            proof {
                let t = sorted.take(p as int);
                assert(t.last() == sorted[p - 1]);
                assert(t.drop_last() =~= sorted.take(p - 1));
                assert(seq![sorted[p - 1]] + sorted.skip(p as int) =~= sorted.skip(p - 1));
                assert(insert_by_index(t, x) == insert_by_index(sorted.take(p - 1), x).push(t.last()));
                assert(insert_by_index(sorted.take(p - 1), x).push(t.last()) + sorted.skip(p as int)
                    =~= insert_by_index(sorted.take(p - 1), x) + sorted.skip(p - 1));
            }
            p = p - 1;
        }
        proof {
            let t = sorted.take(p as int);
            if p > 0 {
                assert(t.last() == sorted[p - 1]);
            }
            assert(insert_by_index(t, x) == t.push(x));
        }
        let (k, v) = x;
        keys.insert(p, k);
        out.insert(p, v);
        proof {
            let next = insert_by_index(sorted, x);
            assert(next =~= sorted.take(p as int).push(x) + sorted.skip(p as int));
            assert forall|q: int| 0 <= q < next.len() implies #[trigger] next[q] == (keys@[q], out@[q]) by {
                if q < p {
                    assert(next[q] == sorted[q]);
                } else if q > p {
                    assert(next[q] == sorted[q - 1]);
                }
            }
            sorted = next;
        }
        taken = taken + 1;
    }
    proof {
        assert(input.skip(taken as int).len() == 0);
        assert(input.take(taken as int) =~= input);
        assert(out@ =~= values_of(sorted));
    }
    out
}

/// `s` without runs of repeats: each entry equal to the one before it is
/// dropped (`Vec::dedup`).
pub open spec fn dedup_runs(s: Seq<Seq<char>>) -> Seq<Seq<char>>
    decreases s.len(),
{
    if s.len() <= 1 {
        s
    } else {
        let rest = dedup_runs(s.drop_last());
        if s.last() == s[s.len() - 2] {
            rest
        } else {
            rest.push(s.last())
        }
    }
}

/// The views of a run of strings.
pub open spec fn strings_view(v: Seq<String>) -> Seq<Seq<char>> {
    v.map_values(|s: String| s@)
}

/// The recent-projects list read back from `recent_project_<i>=uri`
/// lines: in index order, repeats collapsed, at most
/// [`MAX_RECENT_PROJECTS`] entries.
pub open spec fn recent_list(items: Seq<(u64, String)>) -> Seq<Seq<char>> {
    let d = dedup_runs(strings_view(values_of(by_index(items))));
    if d.len() > MAX_RECENT_PROJECTS {
        d.take(MAX_RECENT_PROJECTS as int)
    } else {
        d
    }
}

/// Build the recent-projects list from its indexed lines; see
/// [`recent_list`].
pub fn collect_recent(items: Vec<(u64, String)>) -> (r: Vec<String>)
    ensures
        strings_view(r@) == recent_list(items@),
{
    let ordered = order_by_index(items);
    let ghost o = strings_view(ordered@);
    let mut out: Vec<String> = Vec::new();
    let mut i: usize = 0;
    while i < ordered.len()
        invariant
            o == strings_view(ordered@),
            i <= o.len(),
            strings_view(out@) == dedup_runs(o.take(i as int)),
            i > 0 ==> out@.len() > 0 && strings_view(out@).last() == o[i - 1],
        decreases o.len() - i,
    {
        proof {
            let t = o.take(i as int + 1);
            assert(t.drop_last() =~= o.take(i as int));
            if i > 0 {
                assert(t[t.len() - 2] == o[i - 1]);
                lemma_dedup_runs_last(o.take(i as int));
            }
        }
        let repeat = i > 0 && crate::text::str_eq(ordered[i].as_str(), ordered[i - 1].as_str());
        if !repeat {
            let ghost d0 = strings_view(out@);
            out.push(ordered[i].clone());
            assert(strings_view(out@) =~= d0.push(o[i as int]));
        }
        i = i + 1;
    }
    assert(o.take(o.len() as int) =~= o);
    out.truncate(MAX_RECENT_PROJECTS);
    assert(strings_view(out@) =~= recent_list(items@));
    out
}

proof fn lemma_dedup_runs_last(s: Seq<Seq<char>>)
    requires
        s.len() > 0,
    ensures
        dedup_runs(s).len() > 0,
        dedup_runs(s).last() == s.last(),
    decreases s.len(),
{
    if s.len() > 1 {
        lemma_dedup_runs_last(s.drop_last());
    }
}

// ---------------------------------------------------------------------
// Laws

proof fn lemma_insert_by_index<T>(s: Seq<(u64, T)>, x: (u64, T))
    requires
        forall|i: int, j: int| 0 <= i < j < s.len() ==> #[trigger] s[i].0 <= #[trigger] s[j].0,
    ensures
        insert_by_index(s, x).len() == s.len() + 1,
        forall|i: int, j: int| 0 <= i < j < insert_by_index(s, x).len()
            ==> #[trigger] insert_by_index(s, x)[i].0 <= #[trigger] insert_by_index(s, x)[j].0,
        insert_by_index(s, x).contains(x),
        forall|y: (u64, T)| #[trigger] s.contains(y) ==> insert_by_index(s, x).contains(y),
        forall|i: int| 0 <= i < insert_by_index(s, x).len() ==> (#[trigger] insert_by_index(s, x)[i] == x || s.contains(insert_by_index(s, x)[i])),
    decreases s.len(),
{
    let r = insert_by_index(s, x);
    if s.len() == 0 {
        assert(r[0] == x);
    } else if x.0 < s.last().0 {
        let p = s.drop_last();
        assert forall|i: int, j: int| 0 <= i < j < p.len() implies #[trigger] p[i].0 <= #[trigger] p[j].0 by {
            assert(p[i] == s[i] && p[j] == s[j]);
        }
        lemma_insert_by_index(p, x);
        let q = insert_by_index(p, x);
        assert forall|i: int, j: int| 0 <= i < j < r.len() implies #[trigger] r[i].0 <= #[trigger] r[j].0 by {
            if j == r.len() - 1 {
                assert(r[j] == s.last());
                if q[i] != x {
                    assert(p.contains(q[i]));
                    let k = choose|k: int| 0 <= k < p.len() && p[k] == q[i];
                    assert(s[k] == p[k]);
                }
            } else {
                assert(r[i] == q[i] && r[j] == q[j]);
            }
        }
        assert(r[q.len() as int] == s.last());
        assert forall|y: (u64, T)| #[trigger] s.contains(y) implies r.contains(y) by {
            let k = choose|k: int| 0 <= k < s.len() && s[k] == y;
            if k == s.len() - 1 {
                assert(r[r.len() - 1] == y);
            } else {
                assert(p[k] == y);
                assert(p.contains(y));
                assert(q.contains(y));
                let m = choose|m: int| 0 <= m < q.len() && q[m] == y;
                assert(r[m] == y);
            }
        }
        let m0 = choose|m: int| 0 <= m < q.len() && q[m] == x;
        assert(r[m0] == x);
        assert forall|i: int| 0 <= i < r.len() implies (#[trigger] r[i] == x || s.contains(r[i])) by {
            if i == r.len() - 1 {
                assert(s[s.len() - 1] == r[i]);
            } else {
                assert(r[i] == q[i]);
                if q[i] != x {
                    let k = choose|k: int| 0 <= k < p.len() && p[k] == q[i];
                    assert(s[k] == q[i]);
                }
            }
        }
    } else {
        assert(r[s.len() as int] == x);
        assert forall|y: (u64, T)| #[trigger] s.contains(y) implies r.contains(y) by {
            let k = choose|k: int| 0 <= k < s.len() && s[k] == y;
            assert(r[k] == y);
        }
        assert forall|i: int| 0 <= i < r.len() implies (#[trigger] r[i] == x || s.contains(r[i])) by {
            if i < s.len() {
                assert(r[i] == s[i]);
            }
        }
    }
}

/// Indexed lines load in index order whatever order the file holds them
/// in, and none is lost.
pub proof fn lemma_by_index_is_sorted<T>(s: Seq<(u64, T)>)
    ensures
        by_index(s).len() == s.len(),
        forall|i: int, j: int| 0 <= i < j < by_index(s).len() ==> #[trigger] by_index(s)[i].0 <= #[trigger] by_index(s)[j].0,
    decreases s.len(),
{
    if s.len() > 0 {
        lemma_by_index_is_sorted(s.drop_last());
        lemma_insert_by_index(by_index(s.drop_last()), s.last());
    }
}

proof fn lemma_dedup_runs_shape(s: Seq<Seq<char>>)
    ensures
        dedup_runs(s).len() <= s.len(),
        forall|i: int| 0 <= i < dedup_runs(s).len() - 1 ==> #[trigger] dedup_runs(s)[i] != dedup_runs(s)[i + 1],
    decreases s.len(),
{
    if s.len() > 1 {
        let p = s.drop_last();
        lemma_dedup_runs_shape(p);
        lemma_dedup_runs_last(p);
        let r = dedup_runs(p);
        if s.last() != s[s.len() - 2] {
            let t = r.push(s.last());
            assert(p.last() == s[s.len() - 2]);
            assert forall|i: int| 0 <= i < t.len() - 1 implies #[trigger] t[i] != t[i + 1] by {
                if i == t.len() - 2 {
                    assert(t[i] == r.last());
                } else {
                    assert(t[i] == r[i] && t[i + 1] == r[i + 1]);
                }
            }
        }
    }
}

/// The recent-projects list read from a file is capped at
/// [`MAX_RECENT_PROJECTS`] and never lists one project twice in a row.
pub proof fn lemma_recent_list_is_capped(items: Seq<(u64, String)>)
    ensures
        recent_list(items).len() <= MAX_RECENT_PROJECTS,
        forall|i: int| 0 <= i < recent_list(items).len() - 1 ==> #[trigger] recent_list(items)[i] != recent_list(items)[i + 1],
{
    let d = dedup_runs(strings_view(values_of(by_index(items))));
    lemma_dedup_runs_shape(strings_view(values_of(by_index(items))));
    if d.len() > MAX_RECENT_PROJECTS {
        let t = d.take(MAX_RECENT_PROJECTS as int);
        assert forall|i: int| 0 <= i < t.len() - 1 implies #[trigger] t[i] != t[i + 1] by {
            assert(t[i] == d[i] && t[i + 1] == d[i + 1]);
        }
    }
}

// ---------------------------------------------------------------------

pub(crate) proof fn lemma_apply_key(state: MainWindowState, suffix: Seq<char>, value: Seq<char>)
    ensures
        (main_window_prefix() + suffix).take(main_window_prefix().len() as int) == main_window_prefix(),
        (main_window_prefix() + suffix).skip(main_window_prefix().len() as int) == suffix,
        apply_main_window_spec(state, main_window_prefix() + suffix, value).1,
{
    let k = main_window_prefix() + suffix;
    assert(k.take(main_window_prefix().len() as int) =~= main_window_prefix());
    assert(k.skip(main_window_prefix().len() as int) =~= suffix);
}

/// Reading back the `main_window_*` lines restores the window state:
/// applying the five `key=value` pairs that [`write_main_window`] writes
/// for `state`, in order and to any starting state, yields `state`.
#[verifier::spinoff_prover]
#[verifier::rlimit(40)]
pub proof fn lemma_main_window_round_trip(start: MainWindowState, state: MainWindowState)
    ensures
        ({
            let p = main_window_prefix();
            let s1 = apply_main_window_spec(start, p + suffix_x(), decimal(state.x as int)).0;
            let s2 = apply_main_window_spec(s1, p + suffix_y(), decimal(state.y as int)).0;
            let s3 = apply_main_window_spec(s2, p + suffix_w(), decimal(state.width as int)).0;
            let s4 = apply_main_window_spec(s3, p + suffix_h(), decimal(state.height as int)).0;
            let s5 = apply_main_window_spec(
                s4,
                p + suffix_maximized(),
                bool_text(state.maximized),
            ).0;
            s5 == state
        }),
{
    lemma_apply_key(start, suffix_x(), decimal(state.x as int));
    lemma_apply_key(start, suffix_y(), decimal(state.y as int));
    lemma_apply_key(start, suffix_w(), decimal(state.width as int));
    lemma_apply_key(start, suffix_h(), decimal(state.height as int));
    lemma_apply_key(start, suffix_maximized(), bool_text(state.maximized));
    crate::decimal::lemma_parse_decimal(state.x as int);
    crate::decimal::lemma_parse_decimal(state.y as int);
    crate::decimal::lemma_parse_decimal(state.width as int);
    crate::decimal::lemma_parse_decimal(state.height as int);
    assert(suffix_x()[0] != suffix_y()[0] && suffix_x()[0] != suffix_w()[0] && suffix_x()[0]
        != suffix_h()[0]);
    assert(suffix_y()[0] != suffix_w()[0] && suffix_y()[0] != suffix_h()[0]);
    assert(suffix_w()[0] != suffix_h()[0]);
    assert(suffix_maximized().len() != 1);
    assert(suffix_x().len() != suffix_maximized().len());
    assert(seq_true() != seq!['1'] && seq_true() != seq_false());
    assert(seq_false()[0] != seq!['0'][0] && seq_false().len() != 2 && seq_false().len() != 3);
    assert(seq_true().len() != 1 && seq_true().len() != 2 && seq_true().len() != 3);
}

} // verus!
