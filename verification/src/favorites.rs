//! Favorites data model: the ordered list of `{kind, stable_key,
//! display_name}` records the favorites rail paints as buttons, plus the
//! "have we ever seeded?" flag.
//!
//! Identity is `(kind, stable_key)`; `display_name` is presentation only.
//! The list never holds two entries with one identity, never holds an
//! entry with an empty key, and never grows past [`MAX_FAVORITES`].
//!
//! Each favorite persists as one settings-file field
//! `kind|stable_key|display_name` whose payloads are backslash-escaped
//! ([`escape_field`]), so a key or name may hold the separator, a line
//! break or edge whitespace and still round-trip exactly.
use vstd::prelude::*;

use crate::text::{chars_of, push_chars, push_str_chars, string_from_chars, trim_chars, trimmed};

verus! {

broadcast use vstd::string::group_string_axioms;

/// Upper bound on persisted favorites, so a hand-edited settings file
/// can't grow the rail unboundedly.
pub const MAX_FAVORITES: usize = 64;

/// What a favorite points at.
#[derive(Clone, Copy, Debug, PartialEq, Eq, Structural)]
pub enum FavoriteKind {
    /// A node type from the palette; `stable_key` is its registry id.
    NodeType,
    /// A project file; `stable_key` is a storage URI string.
    Project,
}

/// The settings-file token of a kind.
pub open spec fn kind_token(kind: FavoriteKind) -> Seq<char> {
    match kind {
        FavoriteKind::NodeType => seq!['n', 'o', 'd', 'e', '_', 't', 'y', 'p', 'e'],
        FavoriteKind::Project => seq!['p', 'r', 'o', 'j', 'e', 'c', 't'],
    }
}

/// The kind a token names, if any.
pub open spec fn kind_of_token(token: Seq<char>) -> Option<FavoriteKind> {
    if token == kind_token(FavoriteKind::NodeType) {
        Some(FavoriteKind::NodeType)
    } else if token == kind_token(FavoriteKind::Project) {
        Some(FavoriteKind::Project)
    } else {
        None
    }
}

impl FavoriteKind {
    /// Token written to the settings file. Stable — changing it orphans
    /// existing favorites.
    pub fn key(self) -> (r: &'static str)
        ensures
            r@ == kind_token(self),
    {
        match self {
            FavoriteKind::NodeType => {
                proof {
                    reveal_strlit("node_type");
                }
                let r = "node_type";
                assert(r@ =~= kind_token(self));
                r
            },
            FavoriteKind::Project => {
                proof {
                    reveal_strlit("project");
                }
                let r = "project";
                assert(r@ =~= kind_token(self));
                r
            },
        }
    }

    /// Parse a persisted token. Unknown tokens return `None`, so a kind
    /// written by a newer build is dropped rather than mis-typed.
    pub fn from_key(s: &str) -> (r: Option<FavoriteKind>)
        ensures
            r == kind_of_token(s@),
    {
        let v = chars_of(s);
        kind_from_chars(&v)
    }
}

fn kind_from_chars(v: &Vec<char>) -> (r: Option<FavoriteKind>)
    ensures
        r == kind_of_token(v@),
{
    let nt = chars_of(FavoriteKind::NodeType.key());
    let pr = chars_of(FavoriteKind::Project.key());
    if chars_eq(v, &nt) {
        Some(FavoriteKind::NodeType)
    } else if chars_eq(v, &pr) {
        Some(FavoriteKind::Project)
    } else {
        None
    }
}

fn chars_eq(a: &Vec<char>, b: &Vec<char>) -> (r: bool)
    ensures
        r == (a@ == b@),
{
    if a.len() != b.len() {
        return false;
    }
    let mut i: usize = 0;
    while i < a.len()
        invariant
            a@.len() == b@.len(),
            i <= a@.len(),
            forall|j: int| 0 <= j < i ==> a@[j] == b@[j],
        decreases a@.len() - i,
    {
        if a[i] != b[i] {
            return false;
        }
        i = i + 1;
    }
    assert(a@ =~= b@);
    true
}

/// One favorites-row entry. Identity is `(kind, stable_key)`.
#[derive(Clone, Debug, PartialEq, Eq)]
pub struct Favorite {
    pub kind: FavoriteKind,
    pub stable_key: String,
    pub display_name: String,
}

/// The mathematical content of a [`Favorite`].
#[verifier::ext_equal]
pub struct FavoriteView {
    pub kind: FavoriteKind,
    pub stable_key: Seq<char>,
    pub display_name: Seq<char>,
}

impl View for Favorite {
    type V = FavoriteView;

    open spec fn view(&self) -> FavoriteView {
        FavoriteView {
            kind: self.kind,
            stable_key: self.stable_key@,
            display_name: self.display_name@,
        }
    }
}

/// What a favorite resolves to against the live registry and URI
/// parser. `Dead` entries stay in the row; the rail greys them.
#[derive(Clone, Debug, PartialEq, Eq)]
pub enum FavoriteResolution {
    /// A registered node type, with the registry's display name.
    NodeType { display_name: String },
    /// A project whose key parses as a URI, with the name to show.
    Project { uri: String, display_name: String },
    /// The node type is not registered, or the stored URI no longer
    /// parses. Not an error and not a reason to forget the entry.
    Dead,
}

/// The mathematical content of a [`FavoriteResolution`].
pub enum ResolutionView {
    NodeType(Seq<char>),
    Project(Seq<char>, Seq<char>),
    Dead,
}

impl View for FavoriteResolution {
    type V = ResolutionView;

    open spec fn view(&self) -> ResolutionView {
        match self {
            FavoriteResolution::NodeType { display_name } => ResolutionView::NodeType(display_name@),
            FavoriteResolution::Project { uri, display_name } => ResolutionView::Project(uri@, display_name@),
            FavoriteResolution::Dead => ResolutionView::Dead,
        }
    }
}

/// The view of an optional text.
pub open spec fn opt_text(o: Option<&str>) -> Option<Seq<char>> {
    match o {
        Some(s) => Some(s@),
        None => None,
    }
}

/// What `f` resolves to, given the registry's name for its key and, for
/// a project, whether its key parses and the parsed URI's file stem.
pub open spec fn resolution_spec(
    f: FavoriteView,
    registered: Option<Seq<char>>,
    parsed: Option<Option<Seq<char>>>,
) -> ResolutionView {
    match f.kind {
        FavoriteKind::NodeType => match registered {
            Some(n) => ResolutionView::NodeType(n),
            None => ResolutionView::Dead,
        },
        FavoriteKind::Project => match parsed {
            Some(Some(stem)) => ResolutionView::Project(f.stable_key, stem),
            Some(None) => ResolutionView::Project(f.stable_key, f.display_name),
            None => ResolutionView::Dead,
        },
    }
}

/// A favorite resolves to its live authority's answer: a registered node
/// type to the registry's name, a pinned project whose key parses to that
/// key and the parsed file stem (whatever label was stored when it was
/// pinned), a parsed project without a stem to its stored label; anything
/// that does not resolve is dead. A node type ignores what the URI parser
/// says and a project ignores the registry.
pub proof fn lemma_live_name_wins(
    f: FavoriteView,
    stored: Seq<char>,
    registered: Option<Seq<char>>,
    other_registered: Option<Seq<char>>,
    parsed: Option<Option<Seq<char>>>,
    other_parsed: Option<Option<Seq<char>>>,
)
    ensures
        f.kind == FavoriteKind::Project ==> {
            &&& parsed matches Some(Some(stem)) ==> resolution_spec(f, registered, parsed)
                == ResolutionView::Project(f.stable_key, stem) && resolution_spec(
                FavoriteView { display_name: stored, ..f },
                registered,
                parsed,
            ) == resolution_spec(f, registered, parsed)
            &&& parsed == Some(None::<Seq<char>>) ==> resolution_spec(f, registered, parsed)
                == ResolutionView::Project(f.stable_key, f.display_name)
            &&& parsed is None ==> resolution_spec(f, registered, parsed) == ResolutionView::Dead
            &&& resolution_spec(f, other_registered, parsed) == resolution_spec(f, registered, parsed)
        },
        f.kind == FavoriteKind::NodeType ==> {
            &&& registered matches Some(n) ==> resolution_spec(f, registered, parsed) == ResolutionView::NodeType(n)
            &&& registered is None ==> resolution_spec(f, registered, parsed) == ResolutionView::Dead
            &&& resolution_spec(f, registered, other_parsed) == resolution_spec(f, registered, parsed)
        },
{
}

impl FavoriteResolution {
    /// Whether the entry resolved to something live.
    pub fn is_alive(&self) -> (r: bool)
        ensures
            r == !(self@ is Dead),
    {
        match self {
            FavoriteResolution::Dead => false,
            _ => true,
        }
    }
}

/// `true` when `f` has the identity `(kind, key)`.
pub open spec fn has_identity(f: FavoriteView, kind: FavoriteKind, key: Seq<char>) -> bool {
    f.kind == kind && f.stable_key == key
}

impl Favorite {
    /// Favorite for a node type; `display_name` is the fallback label.
    pub fn node_type(type_id: &str, display_name: &str) -> (f: Favorite)
        ensures
            f@ == (FavoriteView {
                kind: FavoriteKind::NodeType,
                stable_key: type_id@,
                display_name: display_name@,
            }),
    {
        Favorite {
            kind: FavoriteKind::NodeType,
            stable_key: String::from_str(type_id),
            display_name: String::from_str(display_name),
        }
    }

    /// Favorite for a project at `uri`. The label defaults to the file
    /// stem, `stem` (how the browser grid names project entries), and to
    /// the whole URI when it has none.
    pub fn project(uri: &str, stem: Option<&str>) -> (f: Favorite)
        ensures
            f@ == (FavoriteView {
                kind: FavoriteKind::Project,
                stable_key: uri@,
                display_name: match stem {
                    Some(s) => s@,
                    None => uri@,
                },
            }),
    {
        let display_name = match stem {
            Some(s) => s.to_string(),
            None => uri.to_string(),
        };
        Favorite { kind: FavoriteKind::Project, stable_key: uri.to_string(), display_name }
    }

    /// Resolve against the live authorities, whose answers are given:
    /// `registered` is the node registry's display name for the key (for
    /// a node type; `None` when it is not registered), `parsed` whether
    /// the key parses as a storage URI and, if so, that URI's file stem
    /// (for a project). Never mutates and never prunes: an entry that
    /// does not resolve is `Dead`, and stays.
    pub fn resolve(&self, registered: Option<&str>, parsed: Option<Option<&str>>) -> (r: FavoriteResolution)
        ensures
            r@ == resolution_spec(self@, opt_text(registered), match parsed {
                Some(stem) => Some(opt_text(stem)),
                None => None,
            }),
    {
        match self.kind {
            FavoriteKind::NodeType => match registered {
                Some(name) => FavoriteResolution::NodeType { display_name: name.to_string() },
                None => FavoriteResolution::Dead,
            },
            FavoriteKind::Project => match parsed {
                Some(stem) => {
                    let display_name = match stem {
                        Some(s) => s.to_string(),
                        None => self.display_name.clone(),
                    };
                    FavoriteResolution::Project { uri: self.stable_key.clone(), display_name }
                },
                None => FavoriteResolution::Dead,
            },
        }
    }

    /// Label to paint: the resolved (live) name when the entry resolves,
    /// else the stored one. The arguments are those of
    /// [`Favorite::resolve`].
    pub fn effective_display_name(&self, registered: Option<&str>, parsed: Option<Option<&str>>) -> (r: String)
        ensures
            r@ == match resolution_spec(self@, opt_text(registered), match parsed {
                Some(stem) => Some(opt_text(stem)),
                None => None,
            }) {
                ResolutionView::NodeType(n) => n,
                ResolutionView::Project(_, n) => n,
                ResolutionView::Dead => self@.display_name,
            },
    {
        match self.resolve(registered, parsed) {
            FavoriteResolution::NodeType { display_name } => display_name,
            FavoriteResolution::Project { display_name, .. } => display_name,
            FavoriteResolution::Dead => self.display_name.clone(),
        }
    }

    /// `true` when this entry has the given identity.
    pub fn matches(&self, kind: FavoriteKind, stable_key: &str) -> (r: bool)
        ensures
            r == has_identity(self@, kind, stable_key@),
    {
        self.kind == kind && crate::text::str_eq(self.stable_key.as_str(), stable_key)
    }

    /// Render to the single-line field `kind|stable_key|display_name`,
    /// with both payloads escaped by [`escape_field`].
    pub fn to_field(&self) -> (r: String)
        ensures
            r@ == field_of(self@),
    {
        let mut out = String::new();
        push_str_chars(&mut out, self.kind.key());
        out.push('|');
        let key = escape_field(self.stable_key.as_str());
        push_str_chars(&mut out, key.as_str());
        out.push('|');
        let name = escape_field(self.display_name.as_str());
        push_str_chars(&mut out, name.as_str());
        out
    }

    /// Inverse of [`Favorite::to_field`]. `None` for an unknown kind, an
    /// empty key, a malformed escape, or a missing separator.
    pub fn from_field(field: &str) -> (r: Option<Favorite>)
        ensures
            match r {
                Some(f) => field_decode(field@) == Some(f@),
                None => field_decode(field@) is None,
            },
    {
        let (kind_part, rest) = match split_escaped_once(field) {
            Some(parts) => parts,
            None => return None,
        };
        let kind_chars = trim_chars(kind_part);
        let kind = match kind_from_chars(&kind_chars) {
            Some(k) => k,
            None => return None,
        };
        let (key_part, name_part) = match split_escaped_once(rest) {
            Some((key, name)) => (key, name),
            None => (rest, ""),
        };
        proof {
            reveal_strlit("");
        }
        let stable_key = match unescape_field(key_part) {
            Some(k) => k,
            None => return None,
        };
        if stable_key.as_str().unicode_len() == 0 {
            return None;
        }
        let display_name = match unescape_field(name_part) {
            Some(n) => n,
            None => return None,
        };
        Some(Favorite { kind, stable_key, display_name })
    }
}

// ---------------------------------------------------------------------
// Field escaping
// ---------------------------------------------------------------------

/// The escape sequence of one character (`\` is the escape character).
pub open spec fn escape_char(c: char) -> Seq<char> {
    if c == '\\' {
        seq!['\\', '\\']
    } else if c == '|' {
        seq!['\\', '|']
    } else if c == '\n' {
        seq!['\\', 'n']
    } else if c == '\r' {
        seq!['\\', 'r']
    } else if c == '\t' {
        seq!['\\', 't']
    } else if c == ' ' {
        seq!['\\', 's']
    } else {
        seq![c]
    }
}

/// The character an escape letter stands for.
pub open spec fn unescape_letter(c: char) -> Option<char> {
    if c == '\\' {
        Some('\\')
    } else if c == '|' {
        Some('|')
    } else if c == 'n' {
        Some('\n')
    } else if c == 'r' {
        Some('\r')
    } else if c == 't' {
        Some('\t')
    } else if c == 's' {
        Some(' ')
    } else {
        None
    }
}

/// `s` with every character replaced by its escape sequence.
pub open spec fn escaped(s: Seq<char>) -> Seq<char>
    decreases s.len(),
{
    if s.len() == 0 {
        Seq::empty()
    } else {
        escape_char(s[0]) + escaped(s.drop_first())
    }
}

/// `Some(c :: rest)` when `rest` is `Some`.
pub open spec fn prepend(c: char, rest: Option<Seq<char>>) -> Option<Seq<char>> {
    match rest {
        Some(r) => Some(seq![c] + r),
        None => None,
    }
}

/// Decode escapes; `None` for an unknown escape letter or a trailing lone
/// backslash.
pub open spec fn unescaped(s: Seq<char>) -> Option<Seq<char>>
    decreases s.len(),
{
    if s.len() == 0 {
        Some(Seq::empty())
    } else if s[0] != '\\' {
        prepend(s[0], unescaped(s.drop_first()))
    } else if s.len() == 1 {
        None
    } else {
        match unescape_letter(s[1]) {
            Some(c) => prepend(c, unescaped(s.subrange(2, s.len() as int))),
            None => None,
        }
    }
}

fn escape_one(c: char, out: &mut String)
    ensures
        final(out)@ == old(out)@ + escape_char(c),
{
    let ghost before = out@;
    if c == '\\' {
        out.push('\\');
        out.push('\\');
    } else if c == '|' {
        out.push('\\');
        out.push('|');
    } else if c == '\n' {
        out.push('\\');
        out.push('n');
    } else if c == '\r' {
        out.push('\\');
        out.push('r');
    } else if c == '\t' {
        out.push('\\');
        out.push('t');
    } else if c == ' ' {
        out.push('\\');
        out.push('s');
    } else {
        out.push(c);
    }
    assert(out@ =~= before + escape_char(c));
}

/// Escape one payload of the `kind|stable_key|display_name` encoding:
/// `\` `|` LF CR TAB and space become `\\` `\|` `\n` `\r` `\t` `\s`.
pub fn escape_field(raw: &str) -> (r: String)
    ensures
        r@ == escaped(raw@),
{
    let v = chars_of(raw);
    let mut out = String::new();
    let mut i: usize = 0;
    assert(v@.skip(0) == v@);
    while i < v.len()
        invariant
            v@ == raw@,
            i <= v@.len(),
            escaped(v@) == out@ + escaped(v@.skip(i as int)),
        decreases v@.len() - i,
    {
        let ghost rest = v@.skip(i as int);
        assert(rest.drop_first() =~= v@.skip(i + 1));
        assert(rest[0] == v@[i as int]);
        escape_one(v[i], &mut out);
        i = i + 1;
        assert(escaped(v@) =~= out@ + escaped(v@.skip(i as int)));
    }
    assert(v@.skip(v@.len() as int) =~= Seq::<char>::empty());
    assert(out@ =~= escaped(v@));
    out
}

/// `prefix` followed by the decoding of the rest, or `None`.
pub open spec fn after(prefix: Seq<char>, rest: Option<Seq<char>>) -> Option<Seq<char>> {
    match rest {
        Some(r) => Some(prefix + r),
        None => None,
    }
}

/// Inverse of [`escape_field`]. `None` for a malformed escape (an
/// unknown escape letter or a trailing lone backslash).
pub fn unescape_field(field: &str) -> (r: Option<String>)
    ensures
        match r {
            Some(s) => unescaped(field@) == Some(s@),
            None => unescaped(field@) is None,
        },
{
    let v = chars_of(field);
    let n = v.len();
    let mut out: Vec<char> = Vec::new();
    let mut i: usize = 0;
    assert(v@.skip(0) == v@);
    assert(out@ + Seq::<char>::empty() =~= out@);
    while i < n
        invariant
            v@ == field@,
            n == v@.len(),
            i <= n,
            unescaped(v@) == after(out@, unescaped(v@.skip(i as int))),
        decreases n - i,
    {
        let ghost rest = v@.skip(i as int);
        let ghost before = out@;
        assert(rest[0] == v@[i as int]);
        let ch = v[i];
        if ch != '\\' {
            assert(rest.drop_first() =~= v@.skip(i + 1));
            out.push(ch);
            i = i + 1;
            assert(out@ =~= before + seq![ch]);
            proof {
                match unescaped(v@.skip(i as int)) {
                    Some(r) => {
                        assert(before + (seq![ch] + r) =~= out@ + r);
                    },
                    None => {},
                }
            }
        } else {
            if i + 1 >= n {
                return None;
            }
            assert(rest[1] == v@[i + 1]);
            assert(rest.subrange(2, rest.len() as int) =~= v@.skip(i + 2));
            let next = v[i + 1];
            let decoded = if next == '\\' {
                '\\'
            } else if next == '|' {
                '|'
            } else if next == 'n' {
                '\n'
            } else if next == 'r' {
                '\r'
            } else if next == 't' {
                '\t'
            } else if next == 's' {
                ' '
            } else {
                return None;
            };
            assert(unescape_letter(next) == Some(decoded));
            out.push(decoded);
            i = i + 2;
            assert(out@ =~= before + seq![decoded]);
            proof {
                match unescaped(v@.skip(i as int)) {
                    Some(r) => {
                        assert(before + (seq![decoded] + r) =~= out@ + r);
                    },
                    None => {},
                }
            }
        }
    }
    assert(v@.skip(n as int) =~= Seq::<char>::empty());
    assert(out@ + Seq::<char>::empty() =~= out@);
    Some(string_from_chars(out.as_slice()))
}

// ---------------------------------------------------------------------
// Splitting at the first unescaped separator
// ---------------------------------------------------------------------

/// `o` with `k` added to its value.
pub open spec fn shifted(o: Option<int>, k: int) -> Option<int> {
    match o {
        Some(i) => Some(i + k),
        None => None,
    }
}

/// Index of the first `|` that is not consumed by a preceding `\`.
/// A backslash escapes the character after it; a trailing lone backslash
/// leaves no separator.
pub open spec fn bar_position(s: Seq<char>) -> Option<int>
    decreases s.len(),
{
    if s.len() == 0 {
        None
    } else if s[0] == '|' {
        Some(0)
    } else if s[0] == '\\' {
        if s.len() == 1 {
            None
        } else {
            shifted(bar_position(s.subrange(2, s.len() as int)), 2)
        }
    } else {
        shifted(bar_position(s.drop_first()), 1)
    }
}

/// The two halves around the first unescaped `|`, if there is one.
pub open spec fn split_at_bar(s: Seq<char>) -> Option<(Seq<char>, Seq<char>)> {
    match bar_position(s) {
        Some(i) => Some((s.take(i), s.skip(i + 1))),
        None => None,
    }
}

proof fn lemma_bar_position_bounds(s: Seq<char>)
    ensures
        bar_position(s) matches Some(i) ==> 0 <= i < s.len() && s[i] == '|',
    decreases s.len(),
{
    if s.len() == 0 {
    } else if s[0] == '|' {
    } else if s[0] == '\\' {
        if s.len() > 1 {
            let t = s.subrange(2, s.len() as int);
            lemma_bar_position_bounds(t);
            if let Some(i) = bar_position(t) {
                assert(s[i + 2] == t[i]);
            }
        }
    } else {
        lemma_bar_position_bounds(s.drop_first());
        if let Some(i) = bar_position(s.drop_first()) {
            assert(s[i + 1] == s.drop_first()[i]);
        }
    }
}

/// Split at the first **unescaped** `|`. `None` when the field holds no
/// separator at all.
pub fn split_escaped_once(field: &str) -> (r: Option<(&str, &str)>)
    ensures
        match r {
            Some((a, b)) => split_at_bar(field@) == Some((a@, b@)),
            None => split_at_bar(field@) is None,
        },
{
    let v = chars_of(field);
    let n = v.len();
    let mut i: usize = 0;
    assert(v@.skip(0) == v@);
    while i < n
        invariant
            v@ == field@,
            n == v@.len(),
            i <= n,
            bar_position(v@) == shifted(bar_position(v@.skip(i as int)), i as int),
        decreases n - i,
    {
        let ghost rest = v@.skip(i as int);
        assert(rest[0] == v@[i as int]);
        if v[i] == '|' {
            proof {
                lemma_bar_position_bounds(v@);
            }
            let a = field.substring_char(0, i);
            let b = field.substring_char(i + 1, n);
            assert(a@ =~= v@.take(i as int));
            assert(b@ =~= v@.skip(i + 1));
            return Some((a, b));
        } else if v[i] == '\\' {
            if i + 1 >= n {
                return None;
            }
            assert(rest.subrange(2, rest.len() as int) =~= v@.skip(i + 2));
            i = i + 2;
        } else {
            assert(rest.drop_first() =~= v@.skip(i + 1));
            i = i + 1;
        }
    }
    None
}

// ---------------------------------------------------------------------
// The field encoding as a whole
// ---------------------------------------------------------------------

/// `kind|escaped(key)|escaped(name)`.
pub open spec fn field_of(f: FavoriteView) -> Seq<char> {
    kind_token(f.kind) + seq!['|'] + escaped(f.stable_key) + seq!['|'] + escaped(f.display_name)
}

/// What [`Favorite::from_field`] makes of a field.
pub open spec fn field_decode(field: Seq<char>) -> Option<FavoriteView> {
    match split_at_bar(field) {
        None => None,
        Some((kind_part, rest)) => match kind_of_token(trimmed(kind_part)) {
            None => None,
            Some(kind) => {
                let (key_part, name_part) = match split_at_bar(rest) {
                    Some((k, n)) => (k, n),
                    None => (rest, Seq::<char>::empty()),
                };
                match unescaped(key_part) {
                    None => None,
                    Some(key) => if key.len() == 0 {
                        None
                    } else {
                        match unescaped(name_part) {
                            None => None,
                            Some(name) => Some(
                                FavoriteView { kind, stable_key: key, display_name: name },
                            ),
                        }
                    },
                }
            },
        },
    }
}

// ---------------------------------------------------------------------
// The favorites list
// ---------------------------------------------------------------------

/// Node-type registry ids seeded into an empty, never-seeded favorites
/// list: the 3-D primitive palette, in registration order.
pub const SEED_NODE_TYPES: [&'static str; 7] = ["Box", "Cylinder", "Sphere", "Cone", "Torus", "Pyramid", "Wedge"];

/// The ordered favorites list plus the seed flag.
#[derive(Clone, Debug, PartialEq, Eq)]
pub struct Favorites {
    items: Vec<Favorite>,
    seeded: bool,
}

/// The mathematical content of [`Favorites`].
#[verifier::ext_equal]
pub struct FavoritesView {
    pub items: Seq<FavoriteView>,
    pub seeded: bool,
}

impl View for Favorites {
    type V = FavoritesView;

    closed spec fn view(&self) -> FavoritesView {
        FavoritesView { items: self.items@.map_values(|f: Favorite| f@), seeded: self.seeded }
    }
}

/// Some entry of `items` has the identity `(kind, key)`.
pub open spec fn contains_identity(
    items: Seq<FavoriteView>,
    kind: FavoriteKind,
    key: Seq<char>,
) -> bool {
    exists|i: int| 0 <= i < items.len() && has_identity(#[trigger] items[i], kind, key)
}

/// `i` is the first index of `items` with the identity `(kind, key)`.
pub open spec fn is_first_match(
    items: Seq<FavoriteView>,
    kind: FavoriteKind,
    key: Seq<char>,
    i: int,
) -> bool {
    &&& 0 <= i < items.len()
    &&& has_identity(items[i], kind, key)
    &&& forall|j: int| 0 <= j < i ==> !has_identity(#[trigger] items[j], kind, key)
}

/// The list's invariant: at most [`MAX_FAVORITES`] entries, none with an
/// empty key, no two with one identity.
pub open spec fn favorites_wf(items: Seq<FavoriteView>) -> bool {
    &&& items.len() <= MAX_FAVORITES
    &&& forall|i: int| 0 <= i < items.len() ==> (#[trigger] items[i]).stable_key.len() > 0
    &&& forall|i: int, j: int|
        0 <= i < items.len() && 0 <= j < items.len() && #[trigger] items[i].kind == #[trigger] items[j].kind
            && items[i].stable_key == items[j].stable_key ==> i == j
}

/// Whether [`Favorites::add`] takes `f` into `items`.
pub open spec fn accepts(items: Seq<FavoriteView>, f: FavoriteView) -> bool {
    &&& f.stable_key.len() > 0
    &&& !contains_identity(items, f.kind, f.stable_key)
    &&& items.len() < MAX_FAVORITES
}

/// `items` after [`Favorites::add`] of `f`.
pub open spec fn added(items: Seq<FavoriteView>, f: FavoriteView) -> Seq<FavoriteView> {
    if accepts(items, f) {
        items.push(f)
    } else {
        items
    }
}

/// `items` after adding every entry of `incoming`, in order.
pub open spec fn added_all(items: Seq<FavoriteView>, incoming: Seq<FavoriteView>) -> Seq<FavoriteView>
    decreases incoming.len(),
{
    if incoming.len() == 0 {
        items
    } else {
        added_all(added(items, incoming[0]), incoming.drop_first())
    }
}

/// `items` after seeding entries `i..` of the palette; `names[i]` is the
/// registry's display name for seed `i`, `None` when it is not registered.
pub open spec fn seeded_from(
    items: Seq<FavoriteView>,
    names: Seq<Option<Seq<char>>>,
    i: int,
) -> Seq<FavoriteView>
    decreases names.len() - i,
{
    if i < 0 || i >= names.len() {
        items
    } else {
        let next = match names[i] {
            Some(name) => added(
                items,
                FavoriteView {
                    kind: FavoriteKind::NodeType,
                    stable_key: SEED_NODE_TYPES@[i]@,
                    display_name: name,
                },
            ),
            None => items,
        };
        seeded_from(next, names, i + 1)
    }
}

/// A row after the startup seeding: a never-seeded row gets the palette
/// (`names` as in [`seeded_from`]) and is marked seeded; a seeded one is
/// left as it is.
pub open spec fn after_seeding(f: FavoritesView, names: Seq<Option<Seq<char>>>) -> FavoritesView {
    if f.seeded {
        f
    } else {
        FavoritesView { items: seeded_from(f.items, names, 0), seeded: true }
    }
}

/// The view of an optional name.
pub open spec fn name_view(n: Option<String>) -> Option<Seq<char>> {
    match n {
        Some(s) => Some(s@),
        None => None,
    }
}

proof fn lemma_added_wf(items: Seq<FavoriteView>, f: FavoriteView)
    requires
        favorites_wf(items),
    ensures
        favorites_wf(added(items, f)),
{
    if accepts(items, f) {
        let n = items.push(f);
        assert forall|i: int, j: int|
            0 <= i < n.len() && 0 <= j < n.len() && #[trigger] n[i].kind == #[trigger] n[j].kind
                && n[i].stable_key == n[j].stable_key implies i == j by {
            if i < items.len() && j == items.len() {
                assert(has_identity(items[i], f.kind, f.stable_key));
            } else if j < items.len() && i == items.len() {
                assert(has_identity(items[j], f.kind, f.stable_key));
            } else if i < items.len() && j < items.len() {
                assert(n[i] == items[i] && n[j] == items[j]);
            }
        }
        assert forall|i: int| 0 <= i < n.len() implies (#[trigger] n[i]).stable_key.len() > 0 by {
            if i < items.len() {
                assert(n[i] == items[i]);
            }
        }
    }
}

impl Default for Favorites {
    /// An empty, never-seeded list.
    fn default() -> (r: Favorites)
        ensures
            r@.items == Seq::<FavoriteView>::empty(),
            !r@.seeded,
    {
        let r = Favorites { items: Vec::new(), seeded: false };
        assert(r@.items =~= Seq::<FavoriteView>::empty());
        r
    }
}

impl Favorites {
    /// The list's invariant (see [`favorites_wf`]).
    pub open spec fn wf(&self) -> bool {
        favorites_wf(self@.items)
    }

    /// Put `items` in place of the row, keeping the seed flag.
    fn set_items(&mut self, items: Vec<Favorite>)
        ensures
            final(self)@ == (FavoritesView { items: items@.map_values(|f: Favorite| f@), seeded: old(self)@.seeded }),
    {
        self.items = items;
    }

    /// Take the row out, leaving it empty.
    fn take_items(&mut self) -> (r: Vec<Favorite>)
        ensures
            r@.map_values(|f: Favorite| f@) == old(self)@.items,
            final(self)@ == (FavoritesView { items: Seq::empty(), seeded: old(self)@.seeded }),
    {
        let mut items: Vec<Favorite> = Vec::new();
        std::mem::swap(&mut items, &mut self.items);
        assert(self@.items =~= Seq::<FavoriteView>::empty());
        items
    }

    /// Build from already-persisted parts, re-applying the dedupe and cap
    /// rules of [`Favorites::add`] to every entry in order.
    pub fn from_parts(items: Vec<Favorite>, seeded: bool) -> (r: Favorites)
        ensures
            favorites_wf(r@.items),
            r@.seeded == seeded,
            r@.items == added_all(Seq::empty(), items@.map_values(|f: Favorite| f@)),
    {
        let ghost all = items@.map_values(|f: Favorite| f@);
        let mut out = Favorites { items: Vec::new(), seeded };
        let mut rest = items;
        assert(out@.items =~= Seq::<FavoriteView>::empty());
        while rest.len() > 0
            invariant
                out.wf(),
                out@.seeded == seeded,
                added_all(Seq::empty(), all) == added_all(
                    out@.items,
                    rest@.map_values(|f: Favorite| f@),
                ),
            decreases rest.len(),
        {
            let ghost before = rest@.map_values(|f: Favorite| f@);
            let item = rest.remove(0);
            assert(rest@.map_values(|f: Favorite| f@) =~= before.drop_first());
            assert(before[0] == item@);
            out.add(item);
        }
        assert(rest@.map_values(|f: Favorite| f@) =~= Seq::<FavoriteView>::empty());
        out
    }

    /// The row, in display order.
    pub fn list(&self) -> (r: &[Favorite])
        ensures
            r@.map_values(|f: Favorite| f@) == self@.items,
    {
        self.items.as_slice()
    }

    pub fn len(&self) -> (r: usize)
        ensures
            r == self@.items.len(),
    {
        self.items.len()
    }

    pub fn is_empty(&self) -> (r: bool)
        ensures
            r == (self@.items.len() == 0),
    {
        self.items.len() == 0
    }

    /// `true` once the defaults have been seeded (or the flag was
    /// restored from settings).
    pub fn seeded(&self) -> (r: bool)
        ensures
            r == self@.seeded,
    {
        self.seeded
    }

    pub fn contains(&self, kind: FavoriteKind, stable_key: &str) -> (r: bool)
        ensures
            r == contains_identity(self@.items, kind, stable_key@),
    {
        self.position(kind, stable_key).is_some()
    }

    /// Index of the entry with this identity.
    pub fn position(&self, kind: FavoriteKind, stable_key: &str) -> (r: Option<usize>)
        ensures
            match r {
                Some(i) => is_first_match(self@.items, kind, stable_key@, i as int),
                None => !contains_identity(self@.items, kind, stable_key@),
            },
    {
        let mut i: usize = 0;
        while i < self.items.len()
            invariant
                i <= self.items@.len(),
                forall|j: int| 0 <= j < i ==> !has_identity(#[trigger] self@.items[j], kind, stable_key@),
            decreases self.items@.len() - i,
        {
            if self.items[i].matches(kind, stable_key) {
                return Some(i);
            }
            i = i + 1;
        }
        None
    }

    /// Append a favorite. Deduped by `(kind, stable_key)`: adding an entry
    /// that is already pinned (or has an empty key) is a no-op returning
    /// `false`, as is adding once [`MAX_FAVORITES`] is reached.
    pub fn add(&mut self, favorite: Favorite) -> (r: bool)
        ensures
            favorites_wf(old(self)@.items) ==> favorites_wf(final(self)@.items),
            r == accepts(old(self)@.items, favorite@),
            final(self)@.items == added(old(self)@.items, favorite@),
            final(self)@.seeded == old(self)@.seeded,
    {
        proof {
            if favorites_wf(self@.items) {
                lemma_added_wf(self@.items, favorite@);
            }
        }
        if favorite.stable_key.as_str().unicode_len() == 0 || self.contains(
            favorite.kind,
            favorite.stable_key.as_str(),
        ) || self.items.len() >= MAX_FAVORITES {
            return false;
        }
        let ghost f = favorite@;
        let mut items = self.take_items();
        items.push(favorite);
        assert(items@.map_values(|x: Favorite| x@) =~= old(self)@.items.push(f));
        self.set_items(items);
        true
    }

    /// Unpin by identity. Returns `false` when nothing matched.
    pub fn remove(&mut self, kind: FavoriteKind, stable_key: &str) -> (r: bool)
        ensures
            favorites_wf(old(self)@.items) ==> favorites_wf(final(self)@.items),
            r == contains_identity(old(self)@.items, kind, stable_key@),
            !r ==> final(self)@ == old(self)@,
            forall|i: int|
                is_first_match(old(self)@.items, kind, stable_key@, i) ==> final(self)@.items
                    == old(self)@.items.remove(i),
            final(self)@.seeded == old(self)@.seeded,
    {
        match self.position(kind, stable_key) {
            Some(i) => {
                let ghost before = self@.items;
                let mut items = self.take_items();
                items.remove(i);
                let ghost after = items@.map_values(|x: Favorite| x@);
                assert(after =~= before.remove(i as int));
                proof {
                    if favorites_wf(before) {
                        assert forall|a: int, b: int|
                            0 <= a < after.len() && 0 <= b < after.len()
                                && #[trigger] after[a].kind == #[trigger] after[b].kind
                                && after[a].stable_key == after[b].stable_key implies a == b by {
                            let a0 = if a < i { a } else { a + 1 };
                            let b0 = if b < i { b } else { b + 1 };
                            assert(after[a] == before[a0]);
                            assert(after[b] == before[b0]);
                        }
                        assert forall|k: int| 0 <= k < after.len() implies (
                        #[trigger] after[k]).stable_key.len() > 0 by {
                            let k0 = if k < i { k } else { k + 1 };
                            assert(after[k] == before[k0]);
                        }
                    }
                }
                self.set_items(items);
                assert forall|k: int| is_first_match(before, kind, stable_key@, k) implies k
                    == i by {
                    if k < i {
                        assert(!has_identity(before[k], kind, stable_key@));
                    } else if k > i {
                        assert(!has_identity(before[i as int], kind, stable_key@));
                    }
                }
                true
            },
            None => false,
        }
    }

    /// Move the entry at `from` so it lands at index `to` (drag-reorder:
    /// remove then insert). Out-of-range indices and no-op moves return
    /// `false` and change nothing.
    pub fn move_favorite(&mut self, from: usize, to: usize) -> (r: bool)
        ensures
            favorites_wf(old(self)@.items) ==> favorites_wf(final(self)@.items),
            r == (from < old(self)@.items.len() && to < old(self)@.items.len() && from != to),
            r ==> final(self)@.items == old(self)@.items.remove(from as int).insert(
                to as int,
                old(self)@.items[from as int],
            ),
            !r ==> final(self)@ == old(self)@,
            final(self)@.seeded == old(self)@.seeded,
    {
        if from >= self.items.len() || to >= self.items.len() || from == to {
            return false;
        }
        let ghost before = self@.items;
        let mut items = self.take_items();
        assert(items@.map_values(|x: Favorite| x@).len() == items@.len());
        let item = items.remove(from);
        items.insert(to, item);
        let ghost moved = before.remove(from as int).insert(to as int, before[from as int]);
        assert(items@.map_values(|x: Favorite| x@) =~= moved);
        // Every position of the new row comes from a distinct position of
        // the old one.
        let ghost src = |k: int|
            if k == to {
                from as int
            } else {
                let r = if k < to { k } else { k - 1 };
                if r < from {
                    r
                } else {
                    r + 1
                }
            };
        assert forall|k: int| 0 <= k < moved.len() implies moved[k] == before[src(k)] by {}
        proof {
            if favorites_wf(before) {
                assert forall|a: int, b: int|
                    0 <= a < moved.len() && 0 <= b < moved.len() && #[trigger] moved[a].kind
                        == #[trigger] moved[b].kind && moved[a].stable_key == moved[b].stable_key
                    implies a == b by {
                    assert(moved[a] == before[src(a)]);
                    assert(moved[b] == before[src(b)]);
                }
                assert forall|k: int| 0 <= k < moved.len() implies (
                #[trigger] moved[k]).stable_key.len() > 0 by {
                    assert(moved[k] == before[src(k)]);
                }
            }
        }
        self.set_items(items);
        true
    }

    /// Remove every favorite, leaving the seed flag alone — a row the
    /// user emptied stays empty across restarts.
    pub fn clear(&mut self)
        ensures
            final(self)@.items == Seq::<FavoriteView>::empty(),
            final(self)@.seeded == old(self)@.seeded,
    {
        self.items.clear();
        assert(self@.items =~= Seq::<FavoriteView>::empty());
    }

    /// Seed the primitive palette exactly once in the lifetime of a
    /// settings file. `seed_names[i]` is the node registry's current
    /// display name for `SEED_NODE_TYPES[i]`, `None` when that type is not
    /// registered (it is then skipped). The flag is set either way.
    /// Returns `true` when this call did the seeding.
    pub fn seed_defaults_once(&mut self, seed_names: &[Option<String>]) -> (r: bool)
        requires
            seed_names@.len() == SEED_NODE_TYPES@.len(),
        ensures
            favorites_wf(old(self)@.items) ==> favorites_wf(final(self)@.items),
            r == !old(self)@.seeded,
            final(self)@.seeded,
            !r ==> final(self)@ == old(self)@,
            r ==> final(self)@.items == seeded_from(
                old(self)@.items,
                seed_names@.map_values(|n: Option<String>| name_view(n)),
                0,
            ),
            final(self)@ == after_seeding(old(self)@, seed_names@.map_values(|n: Option<String>| name_view(n))),
    {
        if self.seeded {
            return false;
        }
        self.seeded = true;
        let ghost names = seed_names@.map_values(|n: Option<String>| name_view(n));
        let mut i: usize = 0;
        while i < SEED_NODE_TYPES.len()
            invariant
                favorites_wf(old(self)@.items) ==> favorites_wf(self@.items),
                self@.seeded,
                seed_names@.len() == SEED_NODE_TYPES@.len(),
                names == seed_names@.map_values(|n: Option<String>| name_view(n)),
                i <= SEED_NODE_TYPES@.len(),
                seeded_from(old(self)@.items, names, 0) == seeded_from(self@.items, names, i as int),
            decreases SEED_NODE_TYPES@.len() - i,
        {
            match &seed_names[i] {
                Some(name) => {
                    let f = Favorite::node_type(SEED_NODE_TYPES[i], name.as_str());
                    self.add(f);
                },
                None => {},
            }
            i = i + 1;
        }
        true
    }

    /// Mark as seeded without adding anything.
    pub fn mark_seeded(&mut self)
        ensures
            final(self)@.items == old(self)@.items,
            final(self)@.seeded,
    {
        self.seeded = true;
    }
}

// ---------------------------------------------------------------------
// Laws of the encoding
// ---------------------------------------------------------------------

/// Decoding undoes encoding: for every string `s`,
/// `unescape_field(escape_field(s)) == Some(s)`.
pub proof fn lemma_unescape_escape(s: Seq<char>)
    ensures
        unescaped(escaped(s)) == Some(s),
    decreases s.len(),
{
    if s.len() > 0 {
        let c = s[0];
        let x = escaped(s.drop_first());
        let e = escape_char(c);
        lemma_unescape_escape(s.drop_first());
        let t = e + x;
        assert(escaped(s) == t);
        if e.len() == 1 {
            assert(t[0] == c);
            assert(t.drop_first() =~= x);
        } else {
            assert(t[0] == '\\');
            assert(t[1] == e[1]);
            assert(t.subrange(2, t.len() as int) =~= x);
            assert(unescape_letter(e[1]) == Some(c));
        }
        assert(seq![c] + s.drop_first() =~= s);
    }
}

/// An escaped payload holds no line break, so a field can never spill
/// onto a second line of the settings file.
pub proof fn lemma_escaped_has_no_line_break(s: Seq<char>)
    ensures
        forall|i: int| 0 <= i < escaped(s).len() ==> #[trigger] escaped(s)[i] != '\n'
            && escaped(s)[i] != '\r',
    decreases s.len(),
{
    if s.len() > 0 {
        lemma_escaped_has_no_line_break(s.drop_first());
        let e = escape_char(s[0]);
        let x = escaped(s.drop_first());
        assert forall|i: int| 0 <= i < escaped(s).len() implies #[trigger] escaped(s)[i] != '\n'
            && escaped(s)[i] != '\r' by {
            if i >= e.len() {
                assert(escaped(s)[i] == x[i - e.len()]);
            }
        }
    }
}

/// Scanning for the separator skips an escaped payload as a whole.
proof fn lemma_bar_position_after_escaped(a: Seq<char>, r: Seq<char>)
    ensures
        bar_position(escaped(a) + r) == shifted(bar_position(r), escaped(a).len() as int),
    decreases a.len(),
{
    if a.len() == 0 {
        assert(escaped(a) + r =~= r);
        assert(shifted(bar_position(r), 0) == bar_position(r));
    } else {
        let e = escape_char(a[0]);
        let x = escaped(a.drop_first());
        lemma_bar_position_after_escaped(a.drop_first(), r);
        let t = escaped(a) + r;
        assert(t =~= e + (x + r));
        if e.len() == 1 {
            assert(t[0] == a[0]);
            assert(t.drop_first() =~= x + r);
        } else {
            assert(t[0] == '\\');
            assert(t.subrange(2, t.len() as int) =~= x + r);
        }
    }
}

/// Scanning for the separator steps over characters that are neither a
/// separator nor an escape.
proof fn lemma_bar_position_after_plain(p: Seq<char>, r: Seq<char>)
    requires
        forall|i: int| 0 <= i < p.len() ==> #[trigger] p[i] != '|' && p[i] != '\\',
    ensures
        bar_position(p + r) == shifted(bar_position(r), p.len() as int),
    decreases p.len(),
{
    if p.len() == 0 {
        assert(p + r =~= r);
        assert(shifted(bar_position(r), 0) == bar_position(r));
    } else {
        let t = p + r;
        assert(t[0] == p[0]);
        assert(p[0] != '|' && p[0] != '\\');
        assert(t.drop_first() =~= p.drop_first() + r);
        assert forall|i: int| 0 <= i < p.drop_first().len() implies #[trigger] p.drop_first()[i]
            != '|' && p.drop_first()[i] != '\\' by {
            assert(p.drop_first()[i] == p[i + 1]);
        }
        lemma_bar_position_after_plain(p.drop_first(), r);
    }
}

proof fn lemma_token_is_plain(kind: FavoriteKind)
    ensures
        forall|i: int| 0 <= i < kind_token(kind).len() ==> #[trigger] kind_token(kind)[i] != '|'
            && kind_token(kind)[i] != '\\',
        trimmed(kind_token(kind)) == kind_token(kind),
{
    let k = kind_token(kind);
    assert(!crate::text::is_whitespace(k[0]));
    assert(crate::text::leading_ws(k) == 0);
    assert(k.skip(0) =~= k);
    assert(!crate::text::is_whitespace(k.last()));
    assert(crate::text::trailing_ws(k) == 0);
    assert(k.take(k.len() as int) =~= k);
}

proof fn lemma_split_field(f: FavoriteView)
    ensures
        split_at_bar(field_of(f)) == Some(
            (kind_token(f.kind), escaped(f.stable_key) + seq!['|'] + escaped(f.display_name)),
        ),
{
    let k = kind_token(f.kind);
    let rest = escaped(f.stable_key) + seq!['|'] + escaped(f.display_name);
    let field = field_of(f);
    lemma_token_is_plain(f.kind);
    assert(field =~= k + (seq!['|'] + rest));
    lemma_bar_position_after_plain(k, seq!['|'] + rest);
    assert((seq!['|'] + rest)[0] == '|');
    assert(bar_position(field) == Some(k.len() as int));
    assert(field.take(k.len() as int) =~= k);
    assert(field.skip(k.len() as int + 1) =~= rest);
}

proof fn lemma_split_payloads(a: Seq<char>, b: Seq<char>)
    ensures
        split_at_bar(escaped(a) + seq!['|'] + escaped(b)) == Some((escaped(a), escaped(b))),
{
    let e1 = escaped(a);
    let e2 = escaped(b);
    let rest = e1 + seq!['|'] + e2;
    assert(rest =~= e1 + (seq!['|'] + e2));
    lemma_bar_position_after_escaped(a, seq!['|'] + e2);
    assert((seq!['|'] + e2)[0] == '|');
    assert(bar_position(rest) == Some(e1.len() as int));
    assert(rest.take(e1.len() as int) =~= e1);
    assert(rest.skip(e1.len() as int + 1) =~= e2);
}

/// Reading a favorite's field gives back the favorite:
/// `from_field(to_field(f)) == Some(f)` for every favorite whose stable
/// key is not empty, whatever characters its key and name hold.
pub proof fn lemma_field_round_trip(f: FavoriteView)
    requires
        f.stable_key.len() > 0,
    ensures
        field_decode(field_of(f)) == Some(f),
{
    lemma_split_field(f);
    lemma_split_payloads(f.stable_key, f.display_name);
    lemma_token_is_plain(f.kind);
    lemma_unescape_escape(f.stable_key);
    lemma_unescape_escape(f.display_name);
}

/// A favorite's field never contains a line break, so one favorite
/// always occupies exactly one line of the settings file.
pub proof fn lemma_field_is_one_line(f: FavoriteView)
    ensures
        forall|i: int| 0 <= i < field_of(f).len() ==> #[trigger] field_of(f)[i] != '\n'
            && field_of(f)[i] != '\r',
{
    let k = kind_token(f.kind);
    let e1 = escaped(f.stable_key);
    let e2 = escaped(f.display_name);
    let field = field_of(f);
    lemma_escaped_has_no_line_break(f.stable_key);
    lemma_escaped_has_no_line_break(f.display_name);
    assert forall|i: int| 0 <= i < field.len() implies #[trigger] field[i] != '\n' && field[i]
        != '\r' by {
        if i < k.len() {
            assert(field[i] == k[i]);
        } else if i == k.len() {
        } else if i < k.len() + 1 + e1.len() {
            assert(field[i] == e1[i - k.len() - 1]);
        } else if i == k.len() + 1 + e1.len() {
        } else {
            assert(field[i] == e2[i - k.len() - 2 - e1.len()]);
        }
    }
}

} // verus!
