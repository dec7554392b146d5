//! The file browser's modes and entry classes.
use vstd::prelude::*;

use crate::browser_model::{entry_with_uri, listed, BrowserModel, BrowserModelView};
use crate::decimal::{digits_of, push_digits};
use crate::text::{trim_chars, trimmed};

verus! {

/// Which flavour of browser a widget is. The only thing the mode drives
/// inside the widget is whether the name field exists.
#[derive(Debug, Clone, Copy, PartialEq, Eq, Structural)]
pub enum BrowserMode {
    /// Pick an existing entry. No name field.
    Open,
    /// Name a destination. Shows the name field, pre-filled from the
    /// selection.
    Save,
    /// Live inside another panel: no OK / Cancel footer and no name
    /// field; a pick is delivered straight to the host.
    Embedded,
}

/// The mode's name, as shown in diagnostics.
pub open spec fn mode_name(mode: BrowserMode) -> Seq<char> {
    match mode {
        BrowserMode::Open => seq!['O', 'p', 'e', 'n'],
        BrowserMode::Save => seq!['S', 'a', 'v', 'e'],
        BrowserMode::Embedded => seq!['E', 'm', 'b', 'e', 'd', 'd', 'e', 'd'],
    }
}

impl BrowserMode {
    /// Only a save names its destination.
    pub fn shows_name_field(self) -> (r: bool)
        ensures
            r == (self == BrowserMode::Save),
    {
        matches!(self, BrowserMode::Save)
    }

    /// The mode's name.
    pub fn as_str(self) -> (r: &'static str)
        ensures
            r@ == mode_name(self),
    {
        match self {
            BrowserMode::Open => {
                proof {
                    reveal_strlit("Open");
                }
                let r = "Open";
                assert(r@ =~= mode_name(self));
                r
            },
            BrowserMode::Save => {
                proof {
                    reveal_strlit("Save");
                }
                let r = "Save";
                assert(r@ =~= mode_name(self));
                r
            },
            BrowserMode::Embedded => {
                proof {
                    reveal_strlit("Embedded");
                }
                let r = "Embedded";
                assert(r@ =~= mode_name(self));
                r
            },
        }
    }
}

/// What an entry is, as far as its card's accent colour is concerned.
#[derive(Debug, Clone, Copy, PartialEq, Eq, Structural)]
pub enum EntryAccent {
    Folder,
    Mesh,
    File,
}

/// Whether `ext` is one of `exts`.
pub open spec fn lists_extension(exts: Seq<&str>, ext: Seq<char>) -> bool {
    exists|i: int| 0 <= i < exts.len() && (#[trigger] exts[i])@ == ext
}

/// The accent of an entry: folders are folders; a file whose extension
/// `ext` is one of the scene's mesh import formats, `mesh_extensions`, is
/// a mesh; anything else is a plain file.
pub fn accent_of(is_dir: bool, ext: &str, mesh_extensions: &[&str]) -> (r: EntryAccent)
    ensures
        r == (if is_dir {
            EntryAccent::Folder
        } else if lists_extension(mesh_extensions@, ext@) {
            EntryAccent::Mesh
        } else {
            EntryAccent::File
        }),
{
    if is_dir {
        EntryAccent::Folder
    } else if lists(mesh_extensions, ext) {
        EntryAccent::Mesh
    } else {
        EntryAccent::File
    }
}

fn lists(exts: &[&str], ext: &str) -> (r: bool)
    ensures
        r == lists_extension(exts@, ext@),
{
    let mut i: usize = 0;
    while i < exts.len()
        invariant
            i <= exts@.len(),
            forall|j: int| 0 <= j < i ==> (#[trigger] exts@[j])@ != ext@,
        decreases exts@.len() - i,
    {
        if crate::text::str_eq(exts[i], ext) {
            assert(exts@[i as int]@ == ext@);
            return true;
        }
        i = i + 1;
    }
    false
}

/// The glyph a dragged file shows.
#[derive(Debug, Clone, Copy, PartialEq, Eq, Structural)]
pub enum DragGlyph {
    /// A mesh: it lands in the scene as geometry.
    Mesh,
    /// Any other importable file.
    File,
}

/// What dragging an entry carries: nothing for a folder, or for a file
/// whose extension `ext` the scene cannot import (`importable`, the same
/// list the import itself uses, so "draggable" and "importable" cannot
/// drift apart); otherwise the file, with the mesh glyph when `ext` is a
/// mesh format.
pub fn drag_glyph(is_dir: bool, ext: &str, importable: &[&str], mesh_extensions: &[&str]) -> (r: Option<DragGlyph>)
    ensures
        r == (if is_dir || !lists_extension(importable@, ext@) {
            None
        } else if lists_extension(mesh_extensions@, ext@) {
            Some(DragGlyph::Mesh)
        } else {
            Some(DragGlyph::File)
        }),
{
    if is_dir || !lists(importable, ext) {
        return None;
    }
    if lists(mesh_extensions, ext) {
        Some(DragGlyph::Mesh)
    } else {
        Some(DragGlyph::File)
    }
}

/// ASCII lowercase of one character (`char::to_ascii_lowercase`).
pub open spec fn ascii_lower(c: char) -> char {
    if 'A' <= c && c <= 'Z' {
        ((c as u8) + 32) as char
    } else {
        c
    }
}

/// How many `.` end `s`.
pub open spec fn trailing_dots(s: Seq<char>) -> nat
    decreases s.len(),
{
    if s.len() > 0 && s.last() == '.' {
        1 + trailing_dots(s.drop_last())
    } else {
        0
    }
}

/// `name` forced to end in `.extension`: trailing dots trimmed first
/// (`None` when nothing is left), and the suffix added unless the name
/// already ends in it, compared ASCII-case-insensitively, after at least
/// one character of its own.
pub open spec fn forced_extension(name: Seq<char>, extension: Seq<char>) -> Option<Seq<char>> {
    let t = name.take(name.len() - trailing_dots(name));
    let suffix = seq!['.'] + extension;
    if t.len() == 0 {
        None
    } else if t.len() > suffix.len() && t.skip(t.len() - suffix.len()).map_values(|c: char| ascii_lower(c))
        == suffix {
        Some(t)
    } else {
        Some(t + suffix)
    }
}

/// The file name a save-mode browser resolves a typed `name` to: trimmed
/// of surrounding whitespace; refused when empty or when it holds a path
/// separator (`/` or `\`); and forced to `.extension`.
pub open spec fn save_name(name: Seq<char>, extension: Seq<char>) -> Option<Seq<char>> {
    let typed = trimmed(name);
    if typed.len() == 0 || typed.contains('/') || typed.contains('\\') {
        None
    } else {
        forced_extension(typed, extension)
    }
}

/// Force `extension` onto a user-typed name: `Version 1.2` →
/// `Version 1.2.atmr`, `design.` → `design.atmr`, `.atmr` →
/// `.atmr.atmr`, `BRACKET.ATMR` unchanged; `None` for `.` or `...`.
pub fn with_forced_extension(name: &[char], extension: &str) -> (r: Option<String>)
    ensures
        match r {
            Some(t) => forced_extension(name@, extension@) == Some(t@),
            None => forced_extension(name@, extension@) is None,
        },
{
    let mut end = name.len();
    assert(name@.take(end as int) =~= name@);
    while end > 0 && name[end - 1] == '.'
        invariant
            end <= name@.len(),
            trailing_dots(name@) == (name@.len() - end) + trailing_dots(name@.take(end as int)),
        decreases end,
    {
        assert(name@.take(end as int).drop_last() =~= name@.take(end - 1));
        end = end - 1;
    }
    assert(name@.take(end as int).take(end as int) =~= name@.take(end as int));
    let ghost t = name@.take(end as int);
    if end == 0 {
        return None;
    }
    let mut suffix: Vec<char> = Vec::new();
    suffix.push('.');
    let ext = crate::text::chars_of(extension);
    let mut k: usize = 0;
    while k < ext.len()
        invariant
            k <= ext@.len(),
            suffix@ == seq!['.'] + ext@.take(k as int),
        decreases ext@.len() - k,
    {
        suffix.push(ext[k]);
        k = k + 1;
        assert(suffix@ =~= seq!['.'] + ext@.take(k as int));
    }
    assert(ext@.take(ext@.len() as int) =~= ext@);
    let mut already = end > suffix.len();
    if already {
        let start = end - suffix.len();
        let mut j: usize = 0;
        while j < suffix.len()
            invariant
                start + suffix@.len() == end,
                end <= name@.len(),
                j <= suffix@.len(),
                already == forall|q: int| 0 <= q < j ==> ascii_lower(#[trigger] name@[start + q]) == suffix@[q],
            decreases suffix@.len() - j,
        {
            let c = name[start + j];
            let lower = if 'A' <= c && c <= 'Z' {
                ((c as u8) + 32) as char
            } else {
                c
            };
            if lower != suffix[j] {
                already = false;
            }
            j = j + 1;
        }
        proof {
            let tail = t.skip(t.len() - suffix@.len()).map_values(|c: char| ascii_lower(c));
            assert(t.len() == end);
            if already {
                assert forall|q: int| 0 <= q < suffix@.len() implies tail[q] == suffix@[q] by {
                    assert(t.skip(t.len() - suffix@.len())[q] == name@[start + q]);
                }
                assert(tail =~= suffix@);
            } else {
                let q = choose|q: int| 0 <= q < suffix@.len() && ascii_lower(#[trigger] name@[start + q]) != suffix@[q];
                assert(tail[q] != suffix@[q]);
            }
        }
    }
    let mut out = String::new();
    let mut w: usize = 0;
    while w < end
        invariant
            end <= name@.len(),
            w <= end,
            out@ == name@.take(w as int),
        decreases end - w,
    {
        out.push(name[w]);
        w = w + 1;
        assert(out@ =~= name@.take(w as int));
    }
    if !already {
        crate::text::push_chars(&mut out, suffix.as_slice());
    }
    Some(out)
}

/// The file name a save-mode browser resolves `name` to; see
/// [`save_name`]. Joining it onto the directory on screen is the
/// storage layer's part.
pub fn resolve_save_name(name: &str, extension: &str) -> (r: Option<String>)
    ensures
        match r {
            Some(t) => save_name(name@, extension@) == Some(t@),
            None => save_name(name@, extension@) is None,
        },
{
    let typed = trim_chars(name);
    if typed.len() == 0 {
        return None;
    }
    let mut i: usize = 0;
    while i < typed.len()
        invariant
            typed@ == trimmed(name@),
            typed@.len() > 0,
            i <= typed@.len(),
            forall|q: int| 0 <= q < i ==> typed@[q] != '/' && typed@[q] != '\\',
        decreases typed@.len() - i,
    {
        if typed[i] == '/' || typed[i] == '\\' {
            proof {
                if typed@[i as int] == '/' {
                    assert(typed@.contains('/'));
                } else {
                    assert(typed@.contains('\\'));
                }
            }
            return None;
        }
        i = i + 1;
    }
    with_forced_extension(typed.as_slice(), extension)
}

/// The proleptic-Gregorian civil date `(year, month, day)` of the day
/// `days` after 1970-01-01 (Howard Hinnant's `civil_from_days`, for
/// `days >= 0`).
pub open spec fn civil_from_days(days: int) -> (int, int, int) {
    let z = days + 719468;
    let era = z / 146097;
    let doe = z % 146097;
    let yoe = (doe - doe / 1460 + doe / 36524 - doe / 146096) / 365;
    let doy = doe - (365 * yoe + yoe / 4 - yoe / 100);
    let mp = (5 * doy + 2) / 153;
    let d = doy - (153 * mp + 2) / 5 + 1;
    let m = if mp < 10 {
        mp + 3
    } else {
        mp - 9
    };
    let y = yoe + era * 400;
    (
        if m <= 2 {
            y + 1
        } else {
            y
        },
        m,
        d,
    )
}

/// `n` written with at least `width` digits, zero-padded on the left
/// (`{n:0width$}`), for widths 2 and 4.
pub open spec fn zero_padded(n: nat, width: nat) -> Seq<char> {
    let zeros: nat = if width == 4 && n < 10 {
        3
    } else if (width == 4 && n < 100) || (width == 2 && n < 10) {
        if width == 4 {
            2nat
        } else {
            1nat
        }
    } else if width == 4 && n < 1000 {
        1
    } else {
        0
    };
    Seq::new(zeros, |i: int| '0') + digits_of(n)
}

/// `YYYY-MM-DD` for a Unix-epoch millisecond stamp, in UTC.
pub open spec fn modified_text(modified: u64) -> Seq<char> {
    let (y, m, d) = civil_from_days((modified / 86400000) as int);
    zero_padded(y as nat, 4) + seq!['-'] + zero_padded(m as nat, 2) + seq!['-'] + zero_padded(d as nat, 2)
}

fn push_zero_padded(out: &mut String, n: u64, width: u64)
    requires
        width == 2 || width == 4,
    ensures
        final(out)@ == old(out)@ + zero_padded(n as nat, width as nat),
{
    let ghost before = out@;
    let zeros: u64 = if width == 4 && n < 10 {
        3
    } else if (width == 4 && n < 100) || (width == 2 && n < 10) {
        if width == 4 {
            2
        } else {
            1
        }
    } else if width == 4 && n < 1000 {
        1
    } else {
        0
    };
    let mut k: u64 = 0;
    while k < zeros
        invariant
            k <= zeros,
            out@ == before + Seq::new(k as nat, |i: int| '0'),
        decreases zeros - k,
    {
        out.push('0');
        k = k + 1;
        assert(out@ =~= before + Seq::new(k as nat, |i: int| '0'));
    }
    push_digits(out, n);
    assert(out@ =~= before + zero_padded(n as nat, width as nat));
}

/// `YYYY-MM-DD` for a Unix-epoch millisecond stamp, in UTC.
pub fn format_modified(modified: u64) -> (r: String)
    ensures
        r@ == modified_text(modified),
{
    let days = modified / 86_400_000;
    let z = days + 719_468;
    let era = z / 146_097;
    let doe = z % 146_097;
    let yoe = (doe - doe / 1_460 + doe / 36_524 - doe / 146_096) / 365;
    let doy = doe - (365 * yoe + yoe / 4 - yoe / 100);
    let mp = (5 * doy + 2) / 153;
    let d = doy - (153 * mp + 2) / 5 + 1;
    let m = if mp < 10 { mp + 3 } else { mp - 9 };
    let y = yoe + era * 400;
    let y = if m <= 2 { y + 1 } else { y };
    let mut out = String::new();
    push_zero_padded(&mut out, y, 4);
    out.push('-');
    push_zero_padded(&mut out, m, 2);
    out.push('-');
    push_zero_padded(&mut out, d, 2);
    out
}

/// A stamp at or after the epoch names a real calendar date: a year from
/// 1970 on, a month from 1 to 12 and a day from 1 to 31.
#[verifier::spinoff_prover]
pub proof fn lemma_civil_date_in_range(days: int)
    requires
        days >= 0,
    ensures
        civil_from_days(days).0 >= 1970,
        1 <= civil_from_days(days).1 <= 12,
        1 <= civil_from_days(days).2 <= 31,
{
    let z = days + 719468;
    let era = z / 146097;
    let doe = z % 146097;
    assert(0 <= doe < 146097);
    let yoe = (doe - doe / 1460 + doe / 36524 - doe / 146096) / 365;
    assert(0 <= yoe <= 399);
    let doy = doe - (365 * yoe + yoe / 4 - yoe / 100);
    assert(0 <= doy <= 365);
    let mp = (5 * doy + 2) / 153;
    assert(0 <= mp <= 11);
    let d = doy - (153 * mp + 2) / 5 + 1;
    assert(1 <= d <= 31);
    assert(era >= 4);
    if era == 4 {
        assert(z >= 719468);
        assert(doe >= 135080);
        assert(yoe >= 369);
    }
}

/// Where a confirmed pick goes.
#[derive(Clone, Debug, PartialEq, Eq)]
pub enum PickTarget {
    /// Open this file.
    Open(String),
    /// Save as `name` in the directory `dir`. Joining the two is the
    /// storage layer's part, and a join that lands on `dir` itself is
    /// refused there.
    Save { dir: String, name: String },
}

/// What OK means in `mode` for a browser showing `model`, with `name` in
/// the name field: in save mode, the typed name (see [`save_name`]) in
/// the directory on screen; otherwise the selected entry, when it is a
/// file the listing still holds. `None` leaves the dialog open.
pub open spec fn pick_spec(
    mode: BrowserMode,
    model: BrowserModelView,
    name: Seq<char>,
    extension: Seq<char>,
) -> Option<(bool, Seq<char>, Seq<char>)> {
    match mode {
        BrowserMode::Save => match model.cwd {
            None => None,
            Some(d) => match save_name(name, extension) {
                None => None,
                Some(n) => Some((true, d, n)),
            },
        },
        _ => match model.selected {
            None => None,
            Some(u) => match entry_with_uri(listed(model.listing), u) {
                Some(e) => if e.is_dir {
                    None
                } else {
                    Some((false, e.uri, Seq::empty()))
                },
                None => None,
            },
        },
    }
}

/// The view of a pick target: whether it saves, the file or directory,
/// and the name to save as.
pub open spec fn pick_target_view(t: PickTarget) -> (bool, Seq<char>, Seq<char>) {
    match t {
        PickTarget::Open(u) => (false, u@, Seq::empty()),
        PickTarget::Save { dir, name } => (true, dir@, name@),
    }
}

/// What OK resolves to; see [`pick_spec`]. The OK button is enabled
/// exactly when this is `Some`, and a refused pick never closes the
/// dialog.
pub fn resolve_pick(mode: BrowserMode, model: &BrowserModel, name: &str, extension: &str) -> (r: Option<PickTarget>)
    ensures
        match r {
            Some(t) => pick_spec(mode, model@, name@, extension@) == Some(pick_target_view(t)),
            None => pick_spec(mode, model@, name@, extension@) is None,
        },
{
    match mode {
        BrowserMode::Save => {
            let dir = match model.cwd() {
                Some(d) => d,
                None => return None,
            };
            match resolve_save_name(name, extension) {
                Some(n) => Some(PickTarget::Save { dir, name: n }),
                None => None,
            }
        },
        _ => match model.selected_entry() {
            Some(e) => {
                if e.is_dir {
                    None
                } else {
                    Some(PickTarget::Open(e.uri))
                }
            },
            None => None,
        },
    }
}

/// The project file extension: what the Open/Save project picker forces.
pub const PROJECT_EXTENSION: &'static str = "atmr";

/// A request for the file-browser dialog, waiting for the shell to put
/// it up.
#[derive(Clone, Debug, PartialEq, Eq)]
pub struct OpenRequest {
    pub mode: BrowserMode,
    /// Name pre-filled in save mode.
    pub default_name: String,
    /// Extension a save is forced to.
    pub extension: String,
}

/// The mathematical content of an [`OpenRequest`].
pub struct OpenRequestView {
    pub mode: BrowserMode,
    pub default_name: Seq<char>,
    pub extension: Seq<char>,
}

impl View for OpenRequest {
    type V = OpenRequestView;

    open spec fn view(&self) -> OpenRequestView {
        OpenRequestView { mode: self.mode, default_name: self.default_name@, extension: self.extension@ }
    }
}

/// The one-dialog-at-a-time gate between whoever asks for the file
/// browser and the shell that shows it: a request waits here until the
/// shell takes it, and a second request while one is waiting or showing
/// is refused (its asker hears "cancelled").
pub struct FileBrowserModalHandle {
    pending: Option<OpenRequest>,
    open: bool,
}

/// The mathematical content of a [`FileBrowserModalHandle`].
pub struct ModalHandleView {
    pub pending: Option<OpenRequestView>,
    /// Whether the dialog is on screen.
    pub open: bool,
}

impl View for FileBrowserModalHandle {
    type V = ModalHandleView;

    closed spec fn view(&self) -> ModalHandleView {
        ModalHandleView {
            pending: match self.pending {
                Some(r) => Some(r@),
                None => None,
            },
            open: self.open,
        }
    }
}

impl FileBrowserModalHandle {
    /// No request, no dialog.
    pub fn new() -> (h: FileBrowserModalHandle)
        ensures
            h@.pending is None,
            !h@.open,
    {
        FileBrowserModalHandle { pending: None, open: false }
    }

    /// Ask for the browser in `mode`, forcing the project extension.
    pub fn open(&mut self, mode: BrowserMode, default_name: &str) -> (accepted: bool)
        ensures
            accepted == (old(self)@.pending is None && !old(self)@.open),
            accepted ==> final(self)@.pending == Some(
                OpenRequestView { mode, default_name: default_name@, extension: PROJECT_EXTENSION@ },
            ) && final(self)@.open == old(self)@.open,
            !accepted ==> final(self)@ == old(self)@,
    {
        self.open_with_extension(mode, default_name, PROJECT_EXTENSION)
    }

    /// Ask for the browser in `mode`; a save is forced to `extension`.
    /// Refused (`false`) while another request waits or the dialog is up.
    pub fn open_with_extension(&mut self, mode: BrowserMode, default_name: &str, extension: &str) -> (accepted: bool)
        ensures
            accepted == (old(self)@.pending is None && !old(self)@.open),
            accepted ==> final(self)@.pending == Some(
                OpenRequestView { mode, default_name: default_name@, extension: extension@ },
            ) && final(self)@.open == old(self)@.open,
            !accepted ==> final(self)@ == old(self)@,
    {
        if self.open || self.pending.is_some() {
            return false;
        }
        self.pending = Some(
            OpenRequest { mode, default_name: default_name.to_string(), extension: extension.to_string() },
        );
        true
    }

    /// Whether a request waits or the dialog is up.
    pub fn is_open(&self) -> (r: bool)
        ensures
            r == (self@.open || self@.pending is Some),
    {
        self.open || self.pending.is_some()
    }

    /// Hand the waiting request to the shell.
    pub fn take_request(&mut self) -> (r: Option<OpenRequest>)
        ensures
            match r {
                Some(q) => old(self)@.pending == Some(q@),
                None => old(self)@.pending is None,
            },
            final(self)@.pending is None,
            final(self)@.open == old(self)@.open,
    {
        self.pending.take()
    }

    /// Record whether the dialog is on screen.
    pub fn set_open(&mut self, open: bool)
        ensures
            final(self)@.open == open,
            final(self)@.pending == old(self)@.pending,
    {
        self.open = open;
    }
}

/// One dialog on screen: its mode, whether the sheet is still up, and the
/// file OK (or, in open mode, a double-click) picked.
pub struct ModalSession {
    mode: BrowserMode,
    visible: bool,
    outcome: Option<String>,
}

/// The mathematical content of a [`ModalSession`].
pub struct SessionView {
    pub mode: BrowserMode,
    pub visible: bool,
    pub outcome: Option<Seq<char>>,
}

/// The dialog host's state: at most one session.
pub struct FileBrowserModalHost {
    session: Option<ModalSession>,
}

/// The view of an optional picked file.
pub open spec fn picked_view(o: Option<String>) -> Option<Seq<char>> {
    match o {
        Some(s) => Some(s@),
        None => None,
    }
}

impl View for FileBrowserModalHost {
    type V = Option<SessionView>;

    closed spec fn view(&self) -> Option<SessionView> {
        match self.session {
            Some(s) => Some(SessionView { mode: s.mode, visible: s.visible, outcome: picked_view(s.outcome) }),
            None => None,
        }
    }
}

impl FileBrowserModalHost {
    /// No dialog.
    pub fn new() -> (h: FileBrowserModalHost)
        ensures
            h@ is None,
    {
        FileBrowserModalHost { session: None }
    }

    /// Whether a dialog is up.
    pub fn is_showing(&self) -> (r: bool)
        ensures
            r == (self@ is Some),
    {
        self.session.is_some()
    }

    /// First step of each layout: a session whose sheet went down (OK,
    /// Cancel, Escape, or the asker's job settled elsewhere,
    /// `job_settled`) closes. Its outcome, `None` for "cancelled", comes
    /// back for the asker's job; the handle records the dialog closed. A
    /// session still up stays as it is (`None`).
    pub fn settle_if_closed(&mut self, handle: &mut FileBrowserModalHandle, job_settled: bool) -> (r: Option<
        Option<String>,
    >)
        ensures
            match old(self)@ {
                None => r is None && final(self)@ is None && final(handle)@ == old(handle)@,
                Some(s) => if s.visible && !job_settled {
                    r is None && final(self)@ == old(self)@ && final(handle)@ == old(handle)@
                } else {
                    r matches Some(o) && picked_view(o) == s.outcome && final(self)@ is None
                        && final(handle)@.pending == old(handle)@.pending && !final(handle)@.open
                },
            },
    {
        match self.session.take() {
            None => None,
            Some(mut session) => {
                if job_settled {
                    session.visible = false;
                }
                if session.visible {
                    self.session = Some(session);
                    return None;
                }
                handle.set_open(false);
                Some(session.outcome)
            },
        }
    }

    /// Second step of each layout: with no dialog up, claim the waiting
    /// request and open a session for it; the caller builds the sheet.
    /// Opening happens only here, so a dialog never appears mid-frame.
    pub fn claim_pending(&mut self, handle: &mut FileBrowserModalHandle) -> (r: Option<OpenRequest>)
        ensures
            old(self)@ is Some ==> r is None && final(self)@ == old(self)@ && final(handle)@ == old(handle)@,
            old(self)@ is None ==> match r {
                Some(q) => {
                    &&& old(handle)@.pending == Some(q@)
                    &&& final(handle)@.pending is None
                    &&& final(handle)@.open
                    &&& final(self)@ == Some(SessionView { mode: q.mode, visible: true, outcome: None })
                },
                None => old(handle)@.pending is None && final(handle)@ == old(handle)@ && final(self)@ is None,
            },
    {
        if self.session.is_some() {
            return None;
        }
        match handle.take_request() {
            Some(request) => {
                self.session = Some(ModalSession { mode: request.mode, visible: true, outcome: None });
                handle.set_open(true);
                Some(request)
            },
            None => None,
        }
    }

    /// A double-click on an entry. In open mode a file is the pick and
    /// closes the sheet (`true`: repaint); anything else is left to the
    /// browser (in save mode it has already copied the name into the
    /// name field).
    pub fn activate(&mut self, is_dir: bool, uri: &str) -> (r: bool)
        ensures
            r == (old(self)@ matches Some(s) && s.mode == BrowserMode::Open && !is_dir),
            r ==> final(self)@ == Some(
                SessionView { mode: BrowserMode::Open, visible: false, outcome: Some(uri@) },
            ),
            !r ==> final(self)@ == old(self)@,
    {
        match &mut self.session {
            Some(session) => {
                if session.mode == BrowserMode::Open && !is_dir {
                    session.outcome = Some(uri.to_string());
                    session.visible = false;
                    true
                } else {
                    false
                }
            },
            None => false,
        }
    }

    /// OK, with what the pick resolved to (see [`resolve_pick`]; the
    /// caller joins a save name onto the directory). A refused pick never
    /// closes the dialog; a resolved one is the outcome and closes it
    /// (`true`: repaint).
    pub fn confirm(&mut self, picked: Option<String>) -> (r: bool)
        ensures
            r == (old(self)@ is Some && picked is Some),
            r ==> final(self)@ == Some(
                SessionView { mode: old(self)@.unwrap().mode, visible: false, outcome: picked_view(picked) },
            ),
            !r ==> final(self)@ == old(self)@,
    {
        match &mut self.session {
            Some(session) => match picked {
                Some(uri) => {
                    session.outcome = Some(uri);
                    session.visible = false;
                    true
                },
                None => false,
            },
            None => false,
        }
    }

    /// Cancel or Escape: the sheet goes down with whatever outcome it had
    /// (none, unless a pick already landed).
    pub fn cancel(&mut self)
        ensures
            match old(self)@ {
                Some(s) => final(self)@ == Some(SessionView { visible: false, ..s }),
                None => final(self)@ is None,
            },
    {
        match &mut self.session {
            Some(session) => {
                session.visible = false;
            },
            None => {},
        }
    }
}

/// Whether a browser face answers keys: the modal faces do; the embedded
/// face lives beside the node canvas and must never take its keys.
pub fn takes_keys(mode: BrowserMode) -> (r: bool)
    ensures
        r == (mode != BrowserMode::Embedded),
{
    match mode {
        BrowserMode::Embedded => false,
        _ => true,
    }
}

/// The keys the browser answers.
#[derive(Clone, Copy, Debug, PartialEq, Eq, Structural)]
pub enum BrowserKey {
    ArrowLeft,
    Escape,
    Other,
}

/// The modifier keys held.
#[derive(Clone, Copy, Debug, PartialEq, Eq, Structural)]
pub struct KeyMods {
    pub alt: bool,
    pub ctrl: bool,
    pub meta: bool,
    pub shift: bool,
}

/// What a key asks of the browser.
#[derive(Clone, Copy, Debug, PartialEq, Eq, Structural)]
pub enum KeyAction {
    /// Step back in the navigation history; the key is consumed only
    /// when that went somewhere.
    GoBack,
    /// Empty the search box; consumed.
    ClearSearch,
    /// Not the browser's: Escape with nothing to clear goes on to the
    /// sheet, which closes.
    Ignored,
}

/// The browser's answer to a key: Alt+Left, with no other modifier, goes
/// back; Escape bubbling out of the focused search field clears a
/// search that has text. Only the modal faces take keys, and Escape
/// offered by the whole-tree fallback (`focused` false) is the sheet's.
pub open spec fn key_spec(mode: BrowserMode, key: BrowserKey, mods: KeyMods, focused: bool, search_empty: bool) -> KeyAction {
    if mode == BrowserMode::Embedded {
        KeyAction::Ignored
    } else {
        match key {
            BrowserKey::ArrowLeft => if mods.alt && !mods.ctrl && !mods.meta && !mods.shift {
                KeyAction::GoBack
            } else {
                KeyAction::Ignored
            },
            BrowserKey::Escape => if focused && !search_empty {
                KeyAction::ClearSearch
            } else {
                KeyAction::Ignored
            },
            BrowserKey::Other => KeyAction::Ignored,
        }
    }
}

/// See [`key_spec`].
pub fn key_action(mode: BrowserMode, key: BrowserKey, mods: KeyMods, focused: bool, search_empty: bool) -> (r: KeyAction)
    ensures
        r == key_spec(mode, key, mods, focused, search_empty),
{
    if !takes_keys(mode) {
        return KeyAction::Ignored;
    }
    match key {
        BrowserKey::ArrowLeft => {
            if mods.alt && !mods.ctrl && !mods.meta && !mods.shift {
                KeyAction::GoBack
            } else {
                KeyAction::Ignored
            }
        },
        BrowserKey::Escape => {
            if focused && !search_empty {
                KeyAction::ClearSearch
            } else {
                KeyAction::Ignored
            }
        },
        BrowserKey::Other => KeyAction::Ignored,
    }
}

/// Where a left press landed, as the widget's geometry found it.
#[derive(Clone, Copy, Debug, PartialEq, Eq, Structural)]
pub struct PressHits {
    /// The sidebar row under the press.
    pub sidebar_row: Option<usize>,
    /// On the search box's clear button.
    pub search_clear: bool,
    /// On the Back button.
    pub back: bool,
    /// On the breadcrumb bar.
    pub crumb_bar: bool,
    /// The crumb under the press.
    pub crumb: Option<usize>,
    /// The grid cell under the press.
    pub entry: Option<usize>,
    /// Inside the grid.
    pub grid: bool,
}

/// What a left press does.
#[derive(Clone, Copy, Debug, PartialEq, Eq, Structural)]
pub enum PressAction {
    /// Go to the root of sidebar row `i`.
    OpenRoot(usize),
    /// Empty the search box.
    ClearSearch,
    /// Step back (a disabled Back still swallows its press).
    GoBack,
    /// Go to crumb `i`.
    OpenCrumb(usize),
    /// Taken, with no effect: a press on the crumb bar between crumbs.
    Swallow,
    /// Select entry `index`; `activate` on exactly the second click.
    PickEntry { index: usize, activate: bool },
    /// Empty grid space clears the selection.
    ClearSelection,
    /// Not the browser's.
    Ignored,
}

/// The press rules, in priority order: sidebar rows; the clear button,
/// which exists only while there is a search; Back; the breadcrumb bar;
/// grid cells (`clicks` is the tracker's count, 1, 2, 3, 1, …, so only
/// exactly two activates: a third rapid press must not activate again);
/// empty grid space.
pub open spec fn press_spec(h: PressHits, search_empty: bool, clicks: u32) -> PressAction {
    match h.sidebar_row {
        Some(i) => PressAction::OpenRoot(i),
        None => if !search_empty && h.search_clear {
            PressAction::ClearSearch
        } else if h.back {
            PressAction::GoBack
        } else if h.crumb_bar {
            match h.crumb {
                Some(i) => PressAction::OpenCrumb(i),
                None => PressAction::Swallow,
            }
        } else {
            match h.entry {
                Some(i) => PressAction::PickEntry { index: i, activate: clicks == 2 },
                None => if h.grid {
                    PressAction::ClearSelection
                } else {
                    PressAction::Ignored
                },
            }
        },
    }
}

/// See [`press_spec`].
pub fn press_action(h: PressHits, search_empty: bool, clicks: u32) -> (r: PressAction)
    ensures
        r == press_spec(h, search_empty, clicks),
{
    if let Some(i) = h.sidebar_row {
        return PressAction::OpenRoot(i);
    }
    if !search_empty && h.search_clear {
        return PressAction::ClearSearch;
    }
    if h.back {
        return PressAction::GoBack;
    }
    if h.crumb_bar {
        return match h.crumb {
            Some(i) => PressAction::OpenCrumb(i),
            None => PressAction::Swallow,
        };
    }
    match h.entry {
        Some(i) => PressAction::PickEntry { index: i, activate: clicks == 2 },
        None => {
            if h.grid {
                PressAction::ClearSelection
            } else {
                PressAction::Ignored
            }
        },
    }
}

} // verus!
