//! The menu bar's decisions: what an action id asks for, which requests
//! storage must be idle for, what an unsaved-changes prompt leads to,
//! where a save goes, and what a file picker's answer means.
//!
//! Carrying the decision out (dialogs, the graph, undo, storage jobs) is
//! the shell's part.
use vstd::prelude::*;

use crate::decimal::{decimal, lemma_parse_decimal, parse_u32, parse_u32_chars};
use crate::storage_ops::{posted, AppState, NoticeLevel, NoticeView};
use crate::text::{chars_are, chars_of, has_prefix, push_str_chars, str_eq, string_from_chars, strip_prefix_chars};

verus! {

broadcast use vstd::string::group_string_axioms;

/// The user's answer to "save your changes first?".
#[derive(Clone, Copy, Debug, PartialEq, Eq, Structural)]
pub enum UnsavedChoice {
    Save,
    Discard,
    Cancel,
}

/// What a guarded action does after the unsaved-changes check.
#[derive(Clone, Copy, Debug, PartialEq, Eq, Structural)]
pub enum UnsavedOutcome {
    /// Go ahead now.
    Proceed,
    /// Save the current project, and go ahead once the save succeeds
    /// (the save's end goes through [`after_save`]).
    SaveThenProceed,
    /// The user cancelled: do nothing.
    Stay,
}

/// What an answer to the prompt leads to.
pub open spec fn outcome_of(choice: UnsavedChoice) -> UnsavedOutcome {
    match choice {
        UnsavedChoice::Save => UnsavedOutcome::SaveThenProceed,
        UnsavedChoice::Discard => UnsavedOutcome::Proceed,
        UnsavedChoice::Cancel => UnsavedOutcome::Stay,
    }
}

/// Gate a destructive action (New, Open) on the unsaved-changes prompt:
/// with nothing unsaved it proceeds without asking; otherwise `confirm`
/// asks, and Save saves first, Discard proceeds, Cancel does nothing.
pub fn confirm_discard_unsaved_then(has_unsaved: bool, confirm: impl FnOnce() -> UnsavedChoice) -> (r: UnsavedOutcome)
    requires
        has_unsaved ==> call_requires(confirm, ()),
    ensures
        !has_unsaved ==> r == UnsavedOutcome::Proceed,
        has_unsaved ==> exists|c: UnsavedChoice| #[trigger] call_ensures(confirm, (), c) && r == outcome_of(c),
{
    if !has_unsaved {
        return UnsavedOutcome::Proceed;
    }
    let choice = confirm();
    let r = match choice {
        UnsavedChoice::Save => UnsavedOutcome::SaveThenProceed,
        UnsavedChoice::Discard => UnsavedOutcome::Proceed,
        UnsavedChoice::Cancel => UnsavedOutcome::Stay,
    };
    assert(call_ensures(confirm, (), choice) && r == outcome_of(choice));
    r
}

/// Where a save goes.
#[derive(Clone, Debug, PartialEq, Eq)]
pub enum SaveTarget {
    /// Over the project's own file.
    Existing(String),
    /// A never-saved project: ask where, suggesting this name.
    Pick(String),
}

/// The view of a save target: `Ok` for the existing file, `Err` for the
/// name a picker suggests.
pub open spec fn save_target_view(t: SaveTarget) -> Result<Seq<char>, Seq<char>> {
    match t {
        SaveTarget::Existing(u) => Ok(u@),
        SaveTarget::Pick(n) => Err(n@),
    }
}

/// Where saving the current project goes: over its own file, or, for a
/// project never saved, wherever the user picks, starting from
/// `untitled.atmr`.
pub fn save_current_then(current_file: Option<&str>) -> (r: SaveTarget)
    ensures
        save_target_view(r) == match current_file {
            Some(u) => Ok(u@),
            None => Err("untitled.atmr"@),
        },
{
    match current_file {
        Some(uri) => SaveTarget::Existing(uri.to_string()),
        None => SaveTarget::Pick("untitled.atmr".to_string()),
    }
}

/// File → Save: the same target as [`save_current_then`], with nothing to
/// do after.
pub fn save_current(current_file: Option<&str>) -> (r: SaveTarget)
    ensures
        save_target_view(r) == match current_file {
            Some(u) => Ok(u@),
            None => Err("untitled.atmr"@),
        },
{
    save_current_then(current_file)
}

/// The name File → Save As suggests: the current file's name, or
/// `untitled.atmr`.
pub fn save_as_suggestion(file_name: Option<&str>) -> (r: String)
    ensures
        r@ == match file_name {
            Some(n) => n@,
            None => "untitled.atmr"@,
        },
{
    match file_name {
        Some(n) => n.to_string(),
        None => "untitled.atmr".to_string(),
    }
}

/// The name an export picker suggests: the current file's stem (or
/// `export`), a dot, and the format's extension.
pub open spec fn export_name_spec(stem: Option<Seq<char>>, ext: Seq<char>) -> Seq<char> {
    let base = match stem {
        Some(s) => s,
        None => "export"@,
    };
    base + seq!['.'] + ext
}

/// The name an export picker suggests.
pub fn export_default_name(stem: Option<&str>, ext: &str) -> (r: String)
    ensures
        r@ == export_name_spec(
            match stem {
                Some(s) => Some(s@),
                None => None,
            },
            ext@,
        ),
{
    let mut name = match stem {
        Some(s) => s.to_string(),
        None => "export".to_string(),
    };
    name.push('.');
    push_str_chars(&mut name, ext);
    name
}

/// Why a file picker produced no file.
#[derive(Clone, Debug, PartialEq, Eq)]
pub enum PickError {
    /// The user dismissed it.
    Cancelled,
    /// It failed; the text says how.
    Failed(String),
}

/// What a picker's answer leads to.
#[derive(Clone, Debug, PartialEq, Eq)]
pub enum PickOutcome {
    /// Carry on with this file.
    Chosen(String),
    /// Nothing was picked: do nothing, say nothing.
    Nothing,
    /// Tell the user, with this message.
    Report(String),
}

/// The view of a pick outcome.
pub open spec fn pick_outcome_view(o: PickOutcome) -> (int, Seq<char>) {
    match o {
        PickOutcome::Chosen(u) => (0, u@),
        PickOutcome::Nothing => (1, Seq::empty()),
        PickOutcome::Report(m) => (2, m@),
    }
}

/// A picked file is acted on; no pick and a cancellation stay silent; a
/// failed picker is reported as `The file picker failed: …`.
pub fn pick_outcome(result: Result<Option<String>, PickError>) -> (r: PickOutcome)
    ensures
        pick_outcome_view(r) == match result {
            Ok(Some(u)) => (0int, u@),
            Ok(None) => (1int, Seq::<char>::empty()),
            Err(PickError::Cancelled) => (1int, Seq::<char>::empty()),
            Err(PickError::Failed(e)) => (2int, "The file picker failed: "@ + e@),
        },
{
    match result {
        Ok(Some(uri)) => PickOutcome::Chosen(uri),
        Ok(None) => PickOutcome::Nothing,
        Err(PickError::Cancelled) => PickOutcome::Nothing,
        Err(PickError::Failed(e)) => {
            let mut m = "The file picker failed: ".to_string();
            push_str_chars(&mut m, e.as_str());
            PickOutcome::Report(m)
        },
    }
}

/// What a storage operation's failure is reported as: the notice keeps
/// the message as it is, the error dialog prefixes what was being done.
#[derive(Clone, Copy, Debug, PartialEq, Eq, Structural)]
pub enum FailedStep {
    Save,
    Open,
}

/// The dialog text for a failed save or open.
pub open spec fn failure_dialog_text(step: FailedStep, message: Seq<char>) -> Seq<char> {
    match step {
        FailedStep::Save => "Save failed: "@ + message,
        FailedStep::Open => "Open failed: "@ + message,
    }
}

/// The error dialog's text for a failed save (`Save failed: …`) or open
/// (`Open failed: …`).
pub fn failure_dialog(step: FailedStep, message: &str) -> (r: String)
    ensures
        r@ == failure_dialog_text(step, message@),
{
    let mut out = match step {
        FailedStep::Save => "Save failed: ".to_string(),
        FailedStep::Open => "Open failed: ".to_string(),
    };
    push_str_chars(&mut out, message);
    out
}

/// The notice posted when a recent project is gone: `shown` is how the
/// project's location is displayed.
pub fn recent_missing_notice(shown: &str) -> (r: String)
    ensures
        r@ == shown@ + " no longer exists \u{2014} removing it from the recent list."@,
{
    let mut out = shown.to_string();
    push_str_chars(&mut out, " no longer exists \u{2014} removing it from the recent list.");
    out
}

/// Whether a recent project's check found it: only a stat that answered
/// with an entry opens it; an unknown scheme, a failed stat and "nothing
/// there" all take it off the list.
pub fn recent_entry_opens(stat: Result<bool, ()>) -> (r: bool)
    ensures
        r == (stat == Ok::<bool, ()>(true)),
{
    match stat {
        Ok(found) => found,
        Err(_) => false,
    }
}

/// The views of a run of strings.
pub open spec fn texts_view(v: Seq<String>) -> Seq<Seq<char>> {
    v.map_values(|s: String| s@)
}

/// The recent list without `uri`: every copy goes, the rest keep their
/// order.
pub fn without_recent(list: &[String], uri: &str) -> (r: Vec<String>)
    ensures
        texts_view(r@) == texts_view(list@).filter(|s: Seq<char>| s != uri@),
{
    let ghost all = texts_view(list@);
    let mut out: Vec<String> = Vec::new();
    proof {
        reveal(Seq::filter);
        assert(all.take(0).filter(|s: Seq<char>| s != uri@) =~= Seq::<Seq<char>>::empty());
        assert(texts_view(out@) =~= Seq::<Seq<char>>::empty());
    }
    let mut i: usize = 0;
    while i < list.len()
        invariant
            all == texts_view(list@),
            i <= all.len(),
            texts_view(out@) == all.take(i as int).filter(|s: Seq<char>| s != uri@),
        decreases all.len() - i,
    {
        let ghost before = texts_view(out@);
        proof {
            reveal(Seq::filter);
        }
        assert(all.take(i + 1).drop_last() =~= all.take(i as int));
        assert(all.take(i + 1).last() == all[i as int]);
        if !str_eq(list[i].as_str(), uri) {
            out.push(list[i].clone());
            assert(texts_view(out@) =~= before.push(all[i as int]));
        } else {
            assert(texts_view(out@) =~= before);
        }
        i = i + 1;
    }
    assert(all.take(i as int) =~= all);
    out
}

/// How a save that was asked for ended.
#[derive(Clone, Debug, PartialEq, Eq)]
pub enum SaveResult {
    /// The project was written.
    Written,
    /// A never-saved project's location picker was dismissed or refused.
    PickerDismissed,
    /// The location picker broke; the text says how.
    PickerFailed(String),
    /// The write failed; the storage layer's message.
    WriteFailed(String),
}

/// The view of a save result: which case, and its text.
pub open spec fn save_result_view(s: SaveResult) -> (int, Seq<char>) {
    match s {
        SaveResult::Written => (0, Seq::empty()),
        SaveResult::PickerDismissed => (1, Seq::empty()),
        SaveResult::PickerFailed(e) => (2, e@),
        SaveResult::WriteFailed(m) => (3, m@),
    }
}

/// The error notice a save's end posts, if any.
pub open spec fn save_notice(s: (int, Seq<char>)) -> Option<Seq<char>> {
    if s.0 == 2 {
        Some("The file picker failed: "@ + s.1)
    } else if s.0 == 3 {
        Some(s.1)
    } else {
        None
    }
}

/// The end of a save, in the save's continuation: the follow-up
/// `on_success` (what [`confirm_discard_unsaved_then`]'s Save or
/// [`save_current_then`] was waiting for) runs exactly when the project
/// was written, and its result comes back; a dismissed picker ends
/// silently; a broken picker posts an error notice; a failed write posts
/// the storage message as an error notice and returns the error dialog's
/// text, `Save failed: …`, for the shell to raise.
pub fn after_save<R, F: FnOnce() -> R>(state: &mut AppState, result: SaveResult, on_success: F) -> (r: (
    Option<R>,
    Option<String>,
))
    requires
        result == SaveResult::Written ==> call_requires(on_success, ()),
    ensures
        r.0 is Some <==> result == SaveResult::Written,
        r.0 matches Some(v) ==> call_ensures(on_success, (), v),
        match save_notice(save_result_view(result)) {
            Some(t) => final(state)@.notices == posted(old(state)@.notices, NoticeView { level: NoticeLevel::Error, text: t }),
            None => final(state)@.notices == old(state)@.notices,
        },
        final(state)@.shown == old(state)@.shown,
        final(state)@.ops == old(state)@.ops,
        match result {
            SaveResult::WriteFailed(m) => r.1 matches Some(d) && d@ == failure_dialog_text(FailedStep::Save, m@),
            _ => r.1 is None,
        },
{
    match result {
        SaveResult::Written => (Some(on_success()), None),
        SaveResult::PickerDismissed => (None, None),
        SaveResult::PickerFailed(e) => {
            let mut text = "The file picker failed: ".to_string();
            push_str_chars(&mut text, e.as_str());
            state.notify(NoticeLevel::Error, text);
            (None, None)
        },
        SaveResult::WriteFailed(m) => {
            let dialog = failure_dialog(FailedStep::Save, m.as_str());
            state.notify(NoticeLevel::Error, m);
            (None, Some(dialog))
        },
    }
}

/// The colour scheme an action asks for.
#[derive(Clone, Copy, Debug, PartialEq, Eq, Structural)]
pub enum ThemeChoice {
    Light,
    Dark,
    System,
}

/// What File → Export writes.
#[derive(Clone, Copy, Debug, PartialEq, Eq, Structural)]
pub enum ExportKind {
    Stl,
    ThreeMf,
    Obj,
    /// A copy of the project file.
    ProjectCopy,
    /// An extension nothing exports to.
    Unsupported,
}

/// What a menu action id asks for.
#[derive(Clone, Debug, PartialEq, Eq)]
pub enum MenuAction {
    /// `add.<type id>`: add a node of that type.
    AddNode(String),
    /// `view.accent.<key>`: switch the accent colour.
    Accent(String),
    /// `view.theme.light|dark|system`.
    Theme(ThemeChoice),
    /// `file.recent.<index>`: reopen a recent project; `None` when the
    /// index does not parse.
    Recent(Option<u32>),
    /// `file.export.<ext>`.
    Export(ExportKind),
    Undo,
    Redo,
    Delete,
    SelectAll,
    New,
    Open,
    Save,
    SaveAs,
    Import,
    About,
    License,
    Docs,
    ToggleInspector,
    TogglePerformance,
    /// Not an action id this menu knows.
    Ignored,
}

/// The mathematical content of a [`MenuAction`].
pub enum MenuActionView {
    AddNode(Seq<char>),
    Accent(Seq<char>),
    Theme(ThemeChoice),
    Recent(Option<u32>),
    Export(ExportKind),
    Undo,
    Redo,
    Delete,
    SelectAll,
    New,
    Open,
    Save,
    SaveAs,
    Import,
    About,
    License,
    Docs,
    ToggleInspector,
    TogglePerformance,
    Ignored,
}

impl View for MenuAction {
    type V = MenuActionView;

    open spec fn view(&self) -> MenuActionView {
        match self {
            MenuAction::AddNode(t) => MenuActionView::AddNode(t@),
            MenuAction::Accent(k) => MenuActionView::Accent(k@),
            MenuAction::Theme(t) => MenuActionView::Theme(*t),
            MenuAction::Recent(i) => MenuActionView::Recent(*i),
            MenuAction::Export(e) => MenuActionView::Export(*e),
            MenuAction::Undo => MenuActionView::Undo,
            MenuAction::Redo => MenuActionView::Redo,
            MenuAction::Delete => MenuActionView::Delete,
            MenuAction::SelectAll => MenuActionView::SelectAll,
            MenuAction::New => MenuActionView::New,
            MenuAction::Open => MenuActionView::Open,
            MenuAction::Save => MenuActionView::Save,
            MenuAction::SaveAs => MenuActionView::SaveAs,
            MenuAction::Import => MenuActionView::Import,
            MenuAction::About => MenuActionView::About,
            MenuAction::License => MenuActionView::License,
            MenuAction::Docs => MenuActionView::Docs,
            MenuAction::ToggleInspector => MenuActionView::ToggleInspector,
            MenuAction::TogglePerformance => MenuActionView::TogglePerformance,
            MenuAction::Ignored => MenuActionView::Ignored,
        }
    }
}

/// The export an extension asks for.
pub open spec fn export_kind_spec(ext: Seq<char>) -> ExportKind {
    if ext == "stl"@ {
        ExportKind::Stl
    } else if ext == "3mf"@ {
        ExportKind::ThreeMf
    } else if ext == "obj"@ {
        ExportKind::Obj
    } else if ext == "atmr"@ {
        ExportKind::ProjectCopy
    } else {
        ExportKind::Unsupported
    }
}

/// The action an id names, prefixed families first.
pub open spec fn route_spec(a: Seq<char>) -> MenuActionView {
    if has_prefix(a, "add."@) {
        MenuActionView::AddNode(a.skip("add."@.len() as int))
    } else if has_prefix(a, "view.accent."@) {
        MenuActionView::Accent(a.skip("view.accent."@.len() as int))
    } else if a == "view.theme.light"@ {
        MenuActionView::Theme(ThemeChoice::Light)
    } else if a == "view.theme.dark"@ {
        MenuActionView::Theme(ThemeChoice::Dark)
    } else if a == "view.theme.system"@ {
        MenuActionView::Theme(ThemeChoice::System)
    } else if has_prefix(a, "file.recent."@) {
        MenuActionView::Recent(parse_u32(a.skip("file.recent."@.len() as int)))
    } else if has_prefix(a, "file.export."@) {
        MenuActionView::Export(export_kind_spec(a.skip("file.export."@.len() as int)))
    } else if a == "edit.undo"@ {
        MenuActionView::Undo
    } else if a == "edit.redo"@ {
        MenuActionView::Redo
    } else if a == "edit.delete"@ {
        MenuActionView::Delete
    } else if a == "edit.select_all"@ {
        MenuActionView::SelectAll
    } else if a == "file.new"@ {
        MenuActionView::New
    } else if a == "file.open"@ {
        MenuActionView::Open
    } else if a == "file.save"@ {
        MenuActionView::Save
    } else if a == "file.save_as"@ {
        MenuActionView::SaveAs
    } else if a == "file.import"@ {
        MenuActionView::Import
    } else if a == "help.about"@ {
        MenuActionView::About
    } else if a == "help.license"@ {
        MenuActionView::License
    } else if a == "help.docs"@ {
        MenuActionView::Docs
    } else if a == "view.debug.inspector"@ {
        MenuActionView::ToggleInspector
    } else if a == "view.debug.performance"@ {
        MenuActionView::TogglePerformance
    } else {
        MenuActionView::Ignored
    }
}

/// Whether an action must be refused while storage is busy: every file
/// action that starts storage work. A recent-project action starts work
/// only when its index names an entry of the recent list (of length
/// `recent_len`); any other one does nothing at all, busy or not.
pub open spec fn busy_gated(a: MenuActionView, recent_len: int) -> bool {
    match a {
        MenuActionView::Recent(Some(i)) => i < recent_len,
        MenuActionView::Recent(None) => false,
        MenuActionView::Export(_) | MenuActionView::New | MenuActionView::Open | MenuActionView::Save
        | MenuActionView::SaveAs | MenuActionView::Import => true,
        _ => false,
    }
}

/// The export an extension asks for.
pub fn export_kind(ext: &Vec<char>) -> (r: ExportKind)
    ensures
        r == export_kind_spec(ext@),
{
    if chars_are(ext, "stl") {
        ExportKind::Stl
    } else if chars_are(ext, "3mf") {
        ExportKind::ThreeMf
    } else if chars_are(ext, "obj") {
        ExportKind::Obj
    } else if chars_are(ext, "atmr") {
        ExportKind::ProjectCopy
    } else {
        ExportKind::Unsupported
    }
}

/// What the menu action id `action` asks for.
pub fn route_action(action: &str) -> (r: MenuAction)
    ensures
        r@ == route_spec(action@),
{
    let a = chars_of(action);
    if let Some(rest) = strip_prefix_chars(&a, "add.") {
        return MenuAction::AddNode(string_from_chars(rest.as_slice()));
    }
    if let Some(rest) = strip_prefix_chars(&a, "view.accent.") {
        return MenuAction::Accent(string_from_chars(rest.as_slice()));
    }
    if chars_are(&a, "view.theme.light") {
        return MenuAction::Theme(ThemeChoice::Light);
    }
    if chars_are(&a, "view.theme.dark") {
        return MenuAction::Theme(ThemeChoice::Dark);
    }
    if chars_are(&a, "view.theme.system") {
        return MenuAction::Theme(ThemeChoice::System);
    }
    if let Some(rest) = strip_prefix_chars(&a, "file.recent.") {
        return MenuAction::Recent(parse_u32_chars(&rest));
    }
    if let Some(rest) = strip_prefix_chars(&a, "file.export.") {
        return MenuAction::Export(export_kind(&rest));
    }
    if chars_are(&a, "edit.undo") {
        MenuAction::Undo
    } else if chars_are(&a, "edit.redo") {
        MenuAction::Redo
    } else if chars_are(&a, "edit.delete") {
        MenuAction::Delete
    } else if chars_are(&a, "edit.select_all") {
        MenuAction::SelectAll
    } else if chars_are(&a, "file.new") {
        MenuAction::New
    } else if chars_are(&a, "file.open") {
        MenuAction::Open
    } else if chars_are(&a, "file.save") {
        MenuAction::Save
    } else if chars_are(&a, "file.save_as") {
        MenuAction::SaveAs
    } else if chars_are(&a, "file.import") {
        MenuAction::Import
    } else if chars_are(&a, "help.about") {
        MenuAction::About
    } else if chars_are(&a, "help.license") {
        MenuAction::License
    } else if chars_are(&a, "help.docs") {
        MenuAction::Docs
    } else if chars_are(&a, "view.debug.inspector") {
        MenuAction::ToggleInspector
    } else if chars_are(&a, "view.debug.performance") {
        MenuAction::TogglePerformance
    } else {
        MenuAction::Ignored
    }
}

impl MenuAction {
    /// Whether storage must be idle for this action, with `recent_len`
    /// entries in the recent list (see [`busy_gated`]).
    pub fn refused_while_busy(&self, recent_len: usize) -> (r: bool)
        ensures
            r == busy_gated(self@, recent_len as int),
    {
        match self {
            MenuAction::Recent(Some(i)) => (*i as usize) < recent_len,
            MenuAction::Recent(None) => false,
            MenuAction::Export(_) | MenuAction::New | MenuAction::Open | MenuAction::Save
            | MenuAction::SaveAs | MenuAction::Import => true,
            _ => false,
        }
    }
}

/// The extension the File > Export submenu uses for each export.
pub open spec fn export_extension(k: ExportKind) -> Option<Seq<char>> {
    match k {
        ExportKind::Stl => Some("stl"@),
        ExportKind::ThreeMf => Some("3mf"@),
        ExportKind::Obj => Some("obj"@),
        ExportKind::ProjectCopy => Some("atmr"@),
        ExportKind::Unsupported => None,
    }
}

/// The menu id the menu bar gives each action: the fixed items by name,
/// the families as prefix plus argument. `None` for what no item sends.
pub open spec fn menu_id(a: MenuActionView) -> Option<Seq<char>> {
    match a {
        MenuActionView::AddNode(t) => Some("add."@ + t),
        MenuActionView::Accent(k) => Some("view.accent."@ + k),
        MenuActionView::Theme(ThemeChoice::Light) => Some("view.theme.light"@),
        MenuActionView::Theme(ThemeChoice::Dark) => Some("view.theme.dark"@),
        MenuActionView::Theme(ThemeChoice::System) => Some("view.theme.system"@),
        MenuActionView::Recent(Some(i)) => Some("file.recent."@ + decimal(i as int)),
        MenuActionView::Recent(None) => None,
        MenuActionView::Export(k) => match export_extension(k) {
            Some(e) => Some("file.export."@ + e),
            None => None,
        },
        MenuActionView::Undo => Some("edit.undo"@),
        MenuActionView::Redo => Some("edit.redo"@),
        MenuActionView::Delete => Some("edit.delete"@),
        MenuActionView::SelectAll => Some("edit.select_all"@),
        MenuActionView::New => Some("file.new"@),
        MenuActionView::Open => Some("file.open"@),
        MenuActionView::Save => Some("file.save"@),
        MenuActionView::SaveAs => Some("file.save_as"@),
        MenuActionView::Import => Some("file.import"@),
        MenuActionView::About => Some("help.about"@),
        MenuActionView::License => Some("help.license"@),
        MenuActionView::Docs => Some("help.docs"@),
        MenuActionView::ToggleInspector => Some("view.debug.inspector"@),
        MenuActionView::TogglePerformance => Some("view.debug.performance"@),
        MenuActionView::Ignored => None,
    }
}

/// Two character sequences that differ at `i` are unequal, and neither
/// starts with the other.
proof fn lemma_differs_at(s: Seq<char>, t: Seq<char>, i: int)
    requires
        0 <= i < s.len(),
        i < t.len(),
        s[i] != t[i],
    ensures
        s != t,
        !has_prefix(s, t),
        !has_prefix(t, s),
{
    if s.len() >= t.len() {
        assert(s.take(t.len() as int)[i] == s[i]);
    }
    if t.len() >= s.len() {
        assert(t.take(s.len() as int)[i] == t[i]);
    }
}

/// Every menu item reaches its own action: routing the id of an action
/// gives back that action (Edit > Undo is undo, File > Export > OBJ is
/// the OBJ export, a recent index is that index, and so on).
pub proof fn lemma_route_names_each_action(a: MenuActionView)
    ensures
        menu_id(a) matches Some(id) ==> route_spec(id) == a,
{
    reveal_strlit("add.");
    reveal_strlit("view.accent.");
    reveal_strlit("view.theme.light");
    reveal_strlit("view.theme.dark");
    reveal_strlit("view.theme.system");
    reveal_strlit("file.recent.");
    reveal_strlit("file.export.");
    reveal_strlit("stl");
    reveal_strlit("3mf");
    reveal_strlit("obj");
    reveal_strlit("atmr");
    reveal_strlit("edit.undo");
    reveal_strlit("edit.redo");
    reveal_strlit("edit.delete");
    reveal_strlit("edit.select_all");
    reveal_strlit("file.new");
    reveal_strlit("file.open");
    reveal_strlit("file.save");
    reveal_strlit("file.save_as");
    reveal_strlit("file.import");
    reveal_strlit("help.about");
    reveal_strlit("help.license");
    reveal_strlit("help.docs");
    reveal_strlit("view.debug.inspector");
    reveal_strlit("view.debug.performance");
    if let Some(id) = menu_id(a) {
        match a {
            MenuActionView::AddNode(t) => {
                assert(id.take(4) =~= "add."@);
                assert(id.skip(4) =~= t);
                assert(route_spec(id) == a);
            },
            MenuActionView::Accent(k) => {
                assert(id[0] != "add."@[0]);
                assert(id.take(12) =~= "view.accent."@);
                assert(id.skip(12) =~= k);
                assert(route_spec(id) == a);
            },
            MenuActionView::Recent(Some(i)) => {
                assert(id[0] != "add."@[0]);
                assert(id[0] != "view.accent."@[0]);
                assert(id.take(12) =~= "file.recent."@);
                assert(id.skip(12) =~= decimal(i as int));
                lemma_parse_decimal(i as int);
                assert(route_spec(id) == a);
            },
            MenuActionView::Export(k) => {
                let e = export_extension(k).unwrap();
                assert(id[0] != "add."@[0]);
                assert(id[0] != "view.accent."@[0]);
                assert(id[5] != "file.recent."@[5]);
                assert(id.take(12) =~= "file.export."@);
                assert(id.skip(12) =~= e);
                assert(route_spec(id) == a);
            },
            MenuActionView::Theme(ThemeChoice::Light) => {
                lemma_differs_at(id, "add."@, 0);
                lemma_differs_at(id, "view.accent."@, 5);
                assert(route_spec(id) == a);
            },
            MenuActionView::Theme(ThemeChoice::Dark) => {
                lemma_differs_at(id, "add."@, 0);
                lemma_differs_at(id, "view.accent."@, 5);
                assert(route_spec(id) == a);
            },
            MenuActionView::Theme(ThemeChoice::System) => {
                lemma_differs_at(id, "add."@, 0);
                lemma_differs_at(id, "view.accent."@, 5);
                assert(route_spec(id) == a);
            },
            MenuActionView::Undo => {
                lemma_differs_at(id, "add."@, 0);
                assert(route_spec(id) == a);
            },
            MenuActionView::Redo => {
                lemma_differs_at(id, "add."@, 0);
                lemma_differs_at(id, "edit.undo"@, 5);
                assert(route_spec(id) == a);
            },
            MenuActionView::Delete => {
                lemma_differs_at(id, "add."@, 0);
                assert(route_spec(id) == a);
            },
            MenuActionView::SelectAll => {
                lemma_differs_at(id, "add."@, 0);
                lemma_differs_at(id, "view.accent."@, 0);
                lemma_differs_at(id, "view.theme.dark"@, 0);
                lemma_differs_at(id, "file.recent."@, 0);
                lemma_differs_at(id, "file.export."@, 0);
                assert(route_spec(id) == a);
            },
            MenuActionView::New => {
                lemma_differs_at(id, "add."@, 0);
                assert(route_spec(id) == a);
            },
            MenuActionView::Open => {
                lemma_differs_at(id, "add."@, 0);
                lemma_differs_at(id, "edit.undo"@, 0);
                lemma_differs_at(id, "edit.redo"@, 0);
                assert(route_spec(id) == a);
            },
            MenuActionView::Save => {
                lemma_differs_at(id, "add."@, 0);
                lemma_differs_at(id, "edit.undo"@, 0);
                lemma_differs_at(id, "edit.redo"@, 0);
                lemma_differs_at(id, "file.open"@, 5);
                assert(route_spec(id) == a);
            },
            MenuActionView::SaveAs => {
                lemma_differs_at(id, "add."@, 0);
                lemma_differs_at(id, "view.accent."@, 0);
                lemma_differs_at(id, "file.recent."@, 5);
                lemma_differs_at(id, "file.export."@, 5);
                assert(route_spec(id) == a);
            },
            MenuActionView::Import => {
                lemma_differs_at(id, "add."@, 0);
                lemma_differs_at(id, "edit.delete"@, 0);
                assert(route_spec(id) == a);
            },
            MenuActionView::About => {
                lemma_differs_at(id, "add."@, 0);
                assert(route_spec(id) == a);
            },
            MenuActionView::License => {
                lemma_differs_at(id, "add."@, 0);
                lemma_differs_at(id, "view.accent."@, 0);
                lemma_differs_at(id, "file.recent."@, 0);
                lemma_differs_at(id, "file.export."@, 0);
                lemma_differs_at(id, "file.save_as"@, 0);
                assert(route_spec(id) == a);
            },
            MenuActionView::Docs => {
                lemma_differs_at(id, "add."@, 0);
                lemma_differs_at(id, "edit.undo"@, 0);
                lemma_differs_at(id, "edit.redo"@, 0);
                lemma_differs_at(id, "file.open"@, 0);
                lemma_differs_at(id, "file.save"@, 0);
                assert(route_spec(id) == a);
            },
            MenuActionView::ToggleInspector => {
                lemma_differs_at(id, "add."@, 0);
                lemma_differs_at(id, "view.accent."@, 5);
                lemma_differs_at(id, "file.recent."@, 0);
                lemma_differs_at(id, "file.export."@, 0);
                assert(route_spec(id) == a);
            },
            MenuActionView::TogglePerformance => {
                lemma_differs_at(id, "add."@, 0);
                lemma_differs_at(id, "view.accent."@, 5);
                lemma_differs_at(id, "file.recent."@, 0);
                lemma_differs_at(id, "file.export."@, 0);
                assert(route_spec(id) == a);
            },
            _ => {},
        }
    }
}

} // verus!
