//! Writing the settings and reading them back: the text
//! [`SettingsRecord::to_text`] writes reads, through
//! [`SettingsRecord::from_text`], as the record it was written from.
use vstd::prelude::*;

use crate::decimal::{decimal, is_digit, lemma_decimal_shape, lemma_parse_decimal};
use crate::settings::{
    main_window_prefix, seq_false, seq_true, suffix_h, suffix_maximized, suffix_w, suffix_x, suffix_y,
    apply_main_window_spec, bool_text, by_index, values_of, kv_line, lemma_comment_line_reads_nothing,
    lemma_main_window_round_trip, main_window_text, MainWindowState, lemma_apply_key, lemma_kv_line_reads_back, parse_bool_spec, lemma_settings_pairs_concat, lemma_trimmed_edges, no_eq,
    one_line, settings_pairs, writable_pair,
};
use crate::settings_record::{
    default_record, default_view, read_text, record_text, row_of, SettingsRecordView, apply_pair, favorite_key, favorites_text, header_line, render_style_text, shell_text, fold_from, goes_to_shell, library_key, render_style_of_token,
    render_style_token, shell_key, RecordView, RenderStyle,
};
use crate::favorites::{
    accepts, added_all, after_seeding, contains_identity, favorites_wf, field_of, has_identity, lemma_field_round_trip,
    FavoriteView,
};
use crate::text::{has_prefix, is_whitespace};

verus! {

/// A character of a plain settings word: an ASCII letter or digit, `_`
/// or `-`.
pub open spec fn word_char(c: char) -> bool {
    ||| is_digit(c)
    ||| 'a' <= c <= 'z'
    ||| 'A' <= c <= 'Z'
    ||| c == '_'
    ||| c == '-'
}

/// A non-empty run of word characters.
pub open spec fn word(s: Seq<char>) -> bool {
    &&& s.len() > 0
    &&& forall|i: int| 0 <= i < s.len() ==> word_char(#[trigger] s[i])
}

/// Text made of whole lines: empty, or ending in a line break.
pub open spec fn ends_lines(s: Seq<char>) -> bool {
    s.len() == 0 || s.last() == '\n'
}

proof fn lemma_index_cases(i: int)
    requires
        0 <= i < 24,
    ensures
        i == 0 || i == 1 || i == 2 || i == 3 || i == 4 || i == 5 || i == 6 || i == 7 || i == 8 || i
            == 9 || i == 10 || i == 11 || i == 12 || i == 13 || i == 14 || i == 15 || i == 16 || i
            == 17 || i == 18 || i == 19 || i == 20 || i == 21 || i == 22 || i == 23,
{
}

proof fn lemma_word_concat(a: Seq<char>, b: Seq<char>)
    requires
        word(a),
        word(b),
    ensures
        word(a + b),
{
    assert forall|i: int| 0 <= i < (a + b).len() implies word_char(#[trigger] (a + b)[i]) by {
        if i < a.len() {
            assert((a + b)[i] == a[i]);
        } else {
            assert((a + b)[i] == b[i - a.len()]);
        }
    }
}

proof fn lemma_word_edges(s: Seq<char>)
    requires
        word(s),
    ensures
        s[0] != '#',
        no_eq(s),
        one_line(s),
        crate::text::trimmed(s) == s,
{
    assert(word_char(s[0]));
    assert(word_char(s[s.len() - 1]));
    assert(!is_whitespace(s[0]));
    assert(!is_whitespace(s.last()));
    lemma_trimmed_edges(s);
    assert forall|i: int| 0 <= i < s.len() implies #[trigger] s[i] != '=' by {
        assert(word_char(s[i]));
    }
    assert forall|i: int| 0 <= i < s.len() implies #[trigger] s[i] != '\n' by {
        assert(word_char(s[i]));
    }
}

/// A plain key over a value that is one line with no edge whitespace
/// is written as a line that reads back.
proof fn lemma_word_pair(k: Seq<char>, v: Seq<char>)
    requires
        word(k),
        one_line(v),
        crate::text::trimmed(v) == v,
    ensures
        writable_pair(k, v),
{
    lemma_word_edges(k);
}

proof fn lemma_word_value(v: Seq<char>)
    requires
        word(v),
    ensures
        one_line(v),
        crate::text::trimmed(v) == v,
{
    lemma_word_edges(v);
}

/// A rendered integer is a plain word.
proof fn lemma_decimal_word(n: int)
    ensures
        word(decimal(n)),
{
    lemma_decimal_shape(n);
    let s = decimal(n);
    assert forall|i: int| 0 <= i < s.len() implies word_char(#[trigger] s[i]) by {
        assert(is_digit(s[i]) || (i == 0 && s[i] == '-'));
    }
}

/// The pairs of text made of whole lines and a rest are those of the
/// lines, then those of the rest.
proof fn lemma_pairs_split(x: Seq<char>, y: Seq<char>)
    requires
        ends_lines(x),
    ensures
        settings_pairs(x + y) == settings_pairs(x) + settings_pairs(y),
{
    if x.len() == 0 {
        assert(x + y =~= y);
        let e = Seq::<char>::empty();
        assert(crate::text::trimmed(e) =~= e);
        assert(x =~= e);
        assert(crate::settings::raw_lines(e) == seq![e]);
        assert(seq![e].drop_last() =~= Seq::<Seq<char>>::empty());
        assert(seq![e].last() == e);
        assert(crate::settings::line_entry(e) is None);
        assert(crate::settings::entries_of_lines(Seq::<Seq<char>>::empty()) =~= Seq::<
            (Seq<char>, Seq<char>),
        >::empty());
        assert(crate::settings::entries_of_lines(seq![e]) =~= Seq::<(Seq<char>, Seq<char>)>::empty());
        assert(settings_pairs(x) =~= Seq::<(Seq<char>, Seq<char>)>::empty());
        assert(settings_pairs(x) + settings_pairs(y) =~= settings_pairs(y));
    } else {
        lemma_settings_pairs_concat(x, y);
    }
}

proof fn lemma_ends_lines_concat(x: Seq<char>, y: Seq<char>)
    requires
        ends_lines(x),
        ends_lines(y),
    ensures
        ends_lines(x + y),
{
    if y.len() == 0 {
        assert(x + y =~= x);
    } else {
        assert((x + y).last() == y.last());
    }
}

proof fn lemma_fold_concat(r: RecordView, a: Seq<(Seq<char>, Seq<char>)>, b: Seq<(Seq<char>, Seq<char>)>)
    ensures
        fold_from(r, a + b) == fold_from(fold_from(r, a), b),
    decreases b.len(),
{
    if b.len() == 0 {
        assert(a + b =~= a);
    } else {
        lemma_fold_concat(r, a, b.drop_last());
        assert((a + b).drop_last() =~= a + b.drop_last());
        assert((a + b).last() == b.last());
    }
}

/// Reading text made of whole lines and a rest: the lines, then the rest.
proof fn lemma_fold_split(r: RecordView, x: Seq<char>, y: Seq<char>)
    requires
        ends_lines(x),
    ensures
        fold_from(r, settings_pairs(x + y)) == fold_from(fold_from(r, settings_pairs(x)), settings_pairs(y)),
{
    lemma_pairs_split(x, y);
    lemma_fold_concat(r, settings_pairs(x), settings_pairs(y));
}

/// Reading one written line applies its pair.
proof fn lemma_fold_line(r: RecordView, k: Seq<char>, v: Seq<char>)
    requires
        writable_pair(k, v),
    ensures
        fold_from(r, settings_pairs(kv_line(k, v))) == apply_pair(r, k, v),
        ends_lines(kv_line(k, v)),
{
    lemma_kv_line_reads_back(k, v);
    let ps = seq![(k, v)];
    assert(ps.drop_last() =~= Seq::<(Seq<char>, Seq<char>)>::empty());
    assert(ps.last() == (k, v));
    assert(fold_from(r, ps.drop_last()) == r);
}

/// The keys and fixed values the settings text is written with are plain
/// words.
proof fn lemma_literal_words()
    ensures
        word("perspective"@),
        word("turntable"@),
        word("show_bed"@),
        word("render_style"@),
        word("favorites_seeded"@),
        word("favorites_bar_expanded"@),
        word("favorite_"@),
        word("Shaded"@),
        word("Outlines"@),
        word("NonManifold"@),
        word("Polygons"@),
        word("Overhang"@),
        word(main_window_prefix()),
        word(suffix_x()),
        word(suffix_y()),
        word(suffix_w()),
        word(suffix_h()),
        word(suffix_maximized()),
        word(seq_true()),
        word(seq_false()),
{
    reveal_strlit("perspective");
    reveal_strlit("turntable");
    reveal_strlit("show_bed");
    reveal_strlit("render_style");
    reveal_strlit("favorites_seeded");
    reveal_strlit("favorites_bar_expanded");
    reveal_strlit("favorite_");
    reveal_strlit("Shaded");
    reveal_strlit("Outlines");
    reveal_strlit("NonManifold");
    reveal_strlit("Polygons");
    reveal_strlit("Overhang");
    assert forall|i: int| 0 <= i < "perspective"@.len() implies word_char(#[trigger] "perspective"@[i]) by {
        lemma_index_cases(i);
    }
    assert forall|i: int| 0 <= i < "turntable"@.len() implies word_char(#[trigger] "turntable"@[i]) by {
        lemma_index_cases(i);
    }
    assert forall|i: int| 0 <= i < "show_bed"@.len() implies word_char(#[trigger] "show_bed"@[i]) by {
        lemma_index_cases(i);
    }
    assert forall|i: int| 0 <= i < "render_style"@.len() implies word_char(#[trigger] "render_style"@[i]) by {
        lemma_index_cases(i);
    }
    assert forall|i: int| 0 <= i < "favorites_seeded"@.len() implies word_char(#[trigger] "favorites_seeded"@[i]) by {
        lemma_index_cases(i);
    }
    assert forall|i: int| 0 <= i < "favorites_bar_expanded"@.len() implies word_char(#[trigger] "favorites_bar_expanded"@[i]) by {
        lemma_index_cases(i);
    }
    assert forall|i: int| 0 <= i < "favorite_"@.len() implies word_char(#[trigger] "favorite_"@[i]) by {
        lemma_index_cases(i);
    }
    assert forall|i: int| 0 <= i < "Shaded"@.len() implies word_char(#[trigger] "Shaded"@[i]) by {
        lemma_index_cases(i);
    }
    assert forall|i: int| 0 <= i < "Outlines"@.len() implies word_char(#[trigger] "Outlines"@[i]) by {
        lemma_index_cases(i);
    }
    assert forall|i: int| 0 <= i < "NonManifold"@.len() implies word_char(#[trigger] "NonManifold"@[i]) by {
        lemma_index_cases(i);
    }
    assert forall|i: int| 0 <= i < "Polygons"@.len() implies word_char(#[trigger] "Polygons"@[i]) by {
        lemma_index_cases(i);
    }
    assert forall|i: int| 0 <= i < "Overhang"@.len() implies word_char(#[trigger] "Overhang"@[i]) by {
        lemma_index_cases(i);
    }
    assert forall|i: int| 0 <= i < main_window_prefix().len() implies word_char(#[trigger] main_window_prefix()[i]) by {
        lemma_index_cases(i);
    }
    assert forall|i: int| 0 <= i < suffix_x().len() implies word_char(#[trigger] suffix_x()[i]) by {
        lemma_index_cases(i);
    }
    assert forall|i: int| 0 <= i < suffix_y().len() implies word_char(#[trigger] suffix_y()[i]) by {
        lemma_index_cases(i);
    }
    assert forall|i: int| 0 <= i < suffix_w().len() implies word_char(#[trigger] suffix_w()[i]) by {
        lemma_index_cases(i);
    }
    assert forall|i: int| 0 <= i < suffix_h().len() implies word_char(#[trigger] suffix_h()[i]) by {
        lemma_index_cases(i);
    }
    assert forall|i: int| 0 <= i < suffix_maximized().len() implies word_char(#[trigger] suffix_maximized()[i]) by {
        lemma_index_cases(i);
    }
    assert forall|i: int| 0 <= i < seq_true().len() implies word_char(#[trigger] seq_true()[i]) by {
        lemma_index_cases(i);
    }
    assert forall|i: int| 0 <= i < seq_false().len() implies word_char(#[trigger] seq_false()[i]) by {
        lemma_index_cases(i);
    }
}

/// The flag lines set their flag and nothing else.
#[verifier::spinoff_prover]
proof fn lemma_flag_lines(r: RecordView, b: bool)
    ensures
        apply_pair(r, "perspective"@, bool_text(b)) == (RecordView { perspective: b, ..r }),
        apply_pair(r, "turntable"@, bool_text(b)) == (RecordView { turntable: b, ..r }),
        apply_pair(r, "show_bed"@, bool_text(b)) == (RecordView { show_bed: b, ..r }),
        apply_pair(r, "favorites_seeded"@, bool_text(b)) == (RecordView { favorites_seeded: b, ..r }),
        apply_pair(r, "favorites_bar_expanded"@, bool_text(b)) == (RecordView {
            favorites_bar_expanded: b,
            ..r
        }),
{
    reveal_strlit("perspective");
    reveal_strlit("turntable");
    reveal_strlit("show_bed");
    reveal_strlit("render_style");
    reveal_strlit("favorites_seeded");
    reveal_strlit("favorites_bar_expanded");
    assert(parse_bool_spec(bool_text(b)) == Some(b));
    assert("turntable"@ != "perspective"@);
    assert("show_bed"@ != "perspective"@);
    assert("show_bed"@ != "turntable"@);
    assert("favorites_seeded"@ != "render_style"@);
    assert("favorites_bar_expanded"@ != "render_style"@);
    assert("favorites_bar_expanded"@ != "favorites_seeded"@);
}

/// A written style token reads back as its style.
proof fn lemma_style_token_reads_back(s: RenderStyle)
    ensures
        render_style_of_token(render_style_token(s)) == Some(s),
{
    reveal_strlit("Shaded");
    reveal_strlit("shaded");
    reveal_strlit("Outlines");
    reveal_strlit("outlines");
    reveal_strlit("Outline");
    reveal_strlit("OutlineOnly");
    reveal_strlit("NonManifold");
    reveal_strlit("nonmanifold");
    reveal_strlit("Non-Manifold");
    reveal_strlit("Polygons");
    reveal_strlit("polygons");
    reveal_strlit("Wireframe");
    reveal_strlit("wireframe");
    reveal_strlit("Overhang");
    reveal_strlit("overhang");
    reveal_strlit("Overhangs");
    assert("NonManifold"@[0] != "OutlineOnly"@[0]);
    assert("Polygons"@[0] != "Outlines"@[0]);
    assert("Polygons"@[0] != "outlines"@[0]);
    assert("Overhang"@[1] != "Outlines"@[1]);
    assert("Overhang"@[0] != "outlines"@[0]);
    assert("Overhang"@[0] != "Polygons"@[0]);
    assert("Overhang"@[0] != "polygons"@[0]);
}

/// The render-style line sets the style and nothing else.
proof fn lemma_style_line(r: RecordView, s: RenderStyle)
    ensures
        apply_pair(r, "render_style"@, render_style_token(s)) == (RecordView { render_style: Some(s), ..r }),
{
    reveal_strlit("perspective");
    reveal_strlit("turntable");
    reveal_strlit("show_bed");
    reveal_strlit("render_style");
    assert("render_style"@ != "perspective"@);
    assert("render_style"@ != "turntable"@);
    assert("render_style"@ != "show_bed"@);
    lemma_style_token_reads_back(s);
}

proof fn lemma_shell_literals()
    ensures
        "snap_amount"@.len() == 11,
        "theme"@.len() == 5,
        "accent_color"@.len() == 12,
        "last_project_path"@.len() == 17,
        "favorites_bar_width"@.len() == 19,
        "favorites_bar_width"@[8] == 's',
        "recent_project_"@.len() == 15,
        "recent_project_"@[0] == 'r',
        "perspective"@.len() == 11,
        "perspective"@[0] == 'p',
        "turntable"@.len() == 9,
        "turntable"@[0] == 't',
        "show_bed"@.len() == 8,
        "show_bed"@[0] == 's',
        "render_style"@.len() == 12,
        "render_style"@[0] == 'r',
        "favorites_seeded"@.len() == 16,
        "favorites_seeded"@[8] == 's',
        "favorites_bar_expanded"@.len() == 22,
        "favorites_bar_expanded"@[8] == 's',
        "favorite_"@.len() == 9,
        "favorite_"@[0] == 'f',
        "favorite_"@[8] == '_',
        "snap_amount"@[0] == 's',
        "theme"@[0] == 't',
        "accent_color"@[0] == 'a',
        "last_project_path"@[0] == 'l',
{
    reveal_strlit("snap_amount");
    reveal_strlit("theme");
    reveal_strlit("accent_color");
    reveal_strlit("last_project_path");
    reveal_strlit("favorites_bar_width");
    reveal_strlit("recent_project_");
    reveal_strlit("perspective");
    reveal_strlit("turntable");
    reveal_strlit("show_bed");
    reveal_strlit("render_style");
    reveal_strlit("favorites_seeded");
    reveal_strlit("favorites_bar_expanded");
    reveal_strlit("favorite_");
}

/// A `main_window_*` line updates the window state and nothing else.
proof fn lemma_main_window_key(r: RecordView, suffix: Seq<char>, v: Seq<char>)
    requires
        suffix == suffix_x() || suffix == suffix_y() || suffix == suffix_w() || suffix == suffix_h()
            || suffix == suffix_maximized(),
    ensures
        apply_pair(r, main_window_prefix() + suffix, v) == (RecordView {
            main_window: apply_main_window_spec(r.main_window, main_window_prefix() + suffix, v).0,
            ..r
        }),
{
    let k = main_window_prefix() + suffix;
    lemma_shell_literals();
    lemma_apply_key(r.main_window, suffix, v);
    assert(k[0] == 'm');
    assert(k.len() == 13 || k.len() == 21);
    assert(k.len() >= 15 ==> k.take(15)[0] == 'm');
    assert(k.take(9)[0] == 'm');
    assert(!library_key(k));
    assert(!shell_key(k));
    assert(!has_prefix(k, "favorite_"@));
}

/// A `favorite_<i>` line adds the decoded favorite under index `i` and
/// nothing else.
proof fn lemma_favorite_key(r: RecordView, i: int, f: FavoriteView)
    requires
        0 <= i <= u64::MAX,
        f.stable_key.len() > 0,
    ensures
        apply_pair(r, favorite_key(i), field_of(f)) == (RecordView {
            favorite_lines: r.favorite_lines.push((i as u64, f)),
            ..r
        }),
{
    let k = favorite_key(i);
    lemma_shell_literals();
    lemma_decimal_shape(i);
    lemma_parse_decimal(i);
    lemma_field_round_trip(f);
    assert(k[0] == 'f');
    assert(k[8] == '_');
    assert(k.len() >= 15 ==> k.take(15)[0] == 'f');
    assert(!library_key(k));
    assert(!shell_key(k));
    assert(k.take(9) =~= "favorite_"@);
    assert(k.skip(9) =~= decimal(i));
}

/// A line whose key the reader hands on is appended to the shell's lines
/// and changes nothing else.
proof fn lemma_shell_line(r: RecordView, k: Seq<char>, v: Seq<char>)
    requires
        goes_to_shell(k),
    ensures
        apply_pair(r, k, v) == (RecordView { shell_lines: r.shell_lines.push((k, v)), ..r }),
{
}

proof fn lemma_pairs_of_nothing(r: RecordView)
    ensures
        fold_from(r, settings_pairs(Seq::<char>::empty())) == r,
{
    lemma_pairs_split(Seq::<char>::empty(), Seq::<char>::empty());
    assert(Seq::<char>::empty() + Seq::<char>::empty() =~= Seq::<char>::empty());
    let p = settings_pairs(Seq::<char>::empty());
    assert(p + p == p);
    assert(p.len() == 0);
}

/// The header comment changes nothing.
proof fn lemma_fold_header(r: RecordView)
    ensures
        fold_from(r, settings_pairs(header_line())) == r,
        ends_lines(header_line()),
{
    reveal_strlit("# AtomArtist UI settings\n");
    let h = header_line();
    let c = h.drop_last();
    assert(h =~= c + seq!['\n']);
    assert forall|i: int| 0 <= i < c.len() implies #[trigger] c[i] != '\n' by {
        lemma_index_cases(i);
        assert(c[i] == h[i]);
    }
    assert(c.last() == h[23]);
    lemma_comment_line_reads_nothing(c);
    assert(fold_from(r, Seq::<(Seq<char>, Seq<char>)>::empty()) == r);
}

/// A flag line: the key is a literal word, the value a boolean token.
proof fn lemma_flag_line_writable(k: Seq<char>, b: bool)
    requires
        word(k),
    ensures
        writable_pair(k, bool_text(b)),
{
    lemma_literal_words();
    lemma_word_value(bool_text(b));
    lemma_word_pair(k, bool_text(b));
}

/// The render-style segment sets the style when there is one.
proof fn lemma_fold_style(r: RecordView, s: Option<RenderStyle>)
    requires
        r.render_style is None,
    ensures
        fold_from(r, settings_pairs(render_style_text(s))) == (RecordView { render_style: s, ..r }),
        ends_lines(render_style_text(s)),
{
    match s {
        Some(st) => {
            lemma_literal_words();
            let t = render_style_token(st);
            assert(word(t));
            lemma_word_value(t);
            lemma_word_pair("render_style"@, t);
            lemma_fold_line(r, "render_style"@, t);
            lemma_style_line(r, st);
        },
        None => {
            lemma_pairs_of_nothing(r);
        },
    }
}

/// The five window lines restore the window state.
#[verifier::spinoff_prover]
proof fn lemma_fold_main_window(r: RecordView, st: MainWindowState)
    ensures
        fold_from(r, settings_pairs(main_window_text(st))) == (RecordView { main_window: st, ..r }),
        ends_lines(main_window_text(st)),
{
    let p = main_window_prefix();
    lemma_literal_words();
    lemma_word_concat(p, suffix_x());
    lemma_word_concat(p, suffix_y());
    lemma_word_concat(p, suffix_w());
    lemma_word_concat(p, suffix_h());
    lemma_word_concat(p, suffix_maximized());
    lemma_decimal_word(st.x as int);
    lemma_decimal_word(st.y as int);
    lemma_decimal_word(st.width as int);
    lemma_decimal_word(st.height as int);
    lemma_word_value(decimal(st.x as int));
    lemma_word_value(decimal(st.y as int));
    lemma_word_value(decimal(st.width as int));
    lemma_word_value(decimal(st.height as int));
    lemma_word_value(bool_text(st.maximized));
    let k1 = p + suffix_x();
    let k2 = p + suffix_y();
    let k3 = p + suffix_w();
    let k4 = p + suffix_h();
    let k5 = p + suffix_maximized();
    let v1 = decimal(st.x as int);
    let v2 = decimal(st.y as int);
    let v3 = decimal(st.width as int);
    let v4 = decimal(st.height as int);
    let v5 = bool_text(st.maximized);
    lemma_word_pair(k1, v1);
    lemma_word_pair(k2, v2);
    lemma_word_pair(k3, v3);
    lemma_word_pair(k4, v4);
    lemma_word_pair(k5, v5);
    let l1 = kv_line(k1, v1);
    let l2 = kv_line(k2, v2);
    let l3 = kv_line(k3, v3);
    let l4 = kv_line(k4, v4);
    let l5 = kv_line(k5, v5);
    assert(main_window_text(st) == l1 + l2 + l3 + l4 + l5);
    let r1 = apply_pair(r, k1, v1);
    let r2 = apply_pair(r1, k2, v2);
    let r3 = apply_pair(r2, k3, v3);
    let r4 = apply_pair(r3, k4, v4);
    let r5 = apply_pair(r4, k5, v5);
    lemma_fold_line(r, k1, v1);
    lemma_fold_line(r1, k2, v2);
    lemma_fold_line(r2, k3, v3);
    lemma_fold_line(r3, k4, v4);
    lemma_fold_line(r4, k5, v5);
    lemma_ends_lines_concat(l1, l2);
    lemma_ends_lines_concat(l1 + l2, l3);
    lemma_ends_lines_concat(l1 + l2 + l3, l4);
    lemma_ends_lines_concat(l1 + l2 + l3 + l4, l5);
    lemma_fold_split(r, l1, l2);
    lemma_fold_split(r, l1 + l2, l3);
    lemma_fold_split(r, l1 + l2 + l3, l4);
    lemma_fold_split(r, l1 + l2 + l3 + l4, l5);
    lemma_main_window_key(r, suffix_x(), v1);
    lemma_main_window_key(r1, suffix_y(), v2);
    lemma_main_window_key(r2, suffix_w(), v3);
    lemma_main_window_key(r3, suffix_h(), v4);
    lemma_main_window_key(r4, suffix_maximized(), v5);
    lemma_main_window_round_trip(r.main_window, st);
}

/// The favorites, each with its index in the row.
pub open spec fn numbered(items: Seq<FavoriteView>) -> Seq<(u64, FavoriteView)> {
    Seq::new(items.len(), |i: int| (i as u64, items[i]))
}

/// A favorite whose written field reads back: a key, and no edge
/// whitespace that the line's trim would take off.
pub open spec fn field_survives(f: FavoriteView) -> bool {
    f.stable_key.len() > 0 && crate::text::trimmed(field_of(f)) == field_of(f)
}

/// The favorite lines add the row, numbered, to the decoded lines.
#[verifier::spinoff_prover]
proof fn lemma_fold_favorites(r: RecordView, items: Seq<FavoriteView>)
    requires
        items.len() <= u64::MAX,
        forall|i: int| 0 <= i < items.len() ==> field_survives(#[trigger] items[i]),
    ensures
        fold_from(r, settings_pairs(favorites_text(items))) == (RecordView {
            favorite_lines: r.favorite_lines + numbered(items),
            ..r
        }),
        ends_lines(favorites_text(items)),
    decreases items.len(),
{
    if items.len() == 0 {
        lemma_pairs_of_nothing(r);
        assert(r.favorite_lines + numbered(items) =~= r.favorite_lines);
    } else {
        let n = items.len() - 1;
        let init = items.drop_last();
        let f = items.last();
        assert forall|i: int| 0 <= i < init.len() implies field_survives(#[trigger] init[i]) by {
            assert(init[i] == items[i]);
        }
        assert(field_survives(items[n]));
        lemma_fold_favorites(r, init);
        let r1 = RecordView { favorite_lines: r.favorite_lines + numbered(init), ..r };
        let k = favorite_key(n);
        let v = field_of(f);
        lemma_literal_words();
        lemma_decimal_word(n);
        lemma_word_concat("favorite_"@, decimal(n));
        crate::favorites::lemma_field_is_one_line(f);
        assert(one_line(v));
        lemma_word_pair(k, v);
        lemma_fold_line(r1, k, v);
        lemma_favorite_key(r1, n, f);
        lemma_ends_lines_concat(favorites_text(init), kv_line(k, v));
        lemma_fold_split(r, favorites_text(init), kv_line(k, v));
        assert((r.favorite_lines + numbered(init)).push((n as u64, f)) =~= r.favorite_lines + numbered(
            items,
        ));
    }
}

/// The shell's lines are appended to the shell's lines, as they are.
proof fn lemma_fold_shell(r: RecordView, ls: Seq<(Seq<char>, Seq<char>)>)
    requires
        forall|i: int|
            0 <= i < ls.len() ==> goes_to_shell((#[trigger] ls[i]).0) && writable_pair(ls[i].0, ls[i].1),
    ensures
        fold_from(r, settings_pairs(shell_text(ls))) == (RecordView { shell_lines: r.shell_lines + ls, ..r }),
        ends_lines(shell_text(ls)),
    decreases ls.len(),
{
    if ls.len() == 0 {
        lemma_pairs_of_nothing(r);
        assert(r.shell_lines + ls =~= r.shell_lines);
    } else {
        let init = ls.drop_last();
        let (k, v) = ls.last();
        assert forall|i: int| 0 <= i < init.len() implies goes_to_shell((#[trigger] init[i]).0)
            && writable_pair(init[i].0, init[i].1) by {
            assert(init[i] == ls[i]);
        }
        assert(goes_to_shell(ls[ls.len() - 1].0));
        lemma_fold_shell(r, init);
        let r1 = RecordView { shell_lines: r.shell_lines + init, ..r };
        lemma_fold_line(r1, k, v);
        lemma_shell_line(r1, k, v);
        lemma_ends_lines_concat(shell_text(init), kv_line(k, v));
        lemma_fold_split(r, shell_text(init), kv_line(k, v));
        assert((r.shell_lines + init).push((k, v)) =~= r.shell_lines + ls);
    }
}

/// Entries already in index order stay as they are.
proof fn lemma_by_index_of_sorted<T>(s: Seq<(u64, T)>)
    requires
        forall|i: int, j: int| 0 <= i < j < s.len() ==> (#[trigger] s[i]).0 <= (#[trigger] s[j]).0,
    ensures
        by_index(s) == s,
    decreases s.len(),
{
    if s.len() > 0 {
        let init = s.drop_last();
        assert forall|i: int, j: int| 0 <= i < j < init.len() implies (#[trigger] init[i]).0 <= (
        #[trigger] init[j]).0 by {
            assert(init[i] == s[i] && init[j] == s[j]);
        }
        lemma_by_index_of_sorted(init);
        if init.len() == 0 {
            assert(seq![s.last()] =~= s);
        } else {
            assert(init.last() == s[s.len() - 2]);
            assert(s[s.len() - 2].0 <= s[s.len() - 1].0);
            assert(init.push(s.last()) =~= s);
        }
    }
}

/// Adding a valid row's entries, in order, to its own beginning gives
/// the row back.
proof fn lemma_added_all_rebuilds(items: Seq<FavoriteView>, k: int)
    requires
        favorites_wf(items),
        0 <= k <= items.len(),
    ensures
        added_all(items.take(k), items.skip(k)) == items,
    decreases items.len() - k,
{
    if k == items.len() {
        assert(items.take(k) =~= items);
        assert(items.skip(k).len() == 0);
    } else {
        let head = items.take(k);
        let f = items[k];
        assert(!contains_identity(head, f.kind, f.stable_key)) by {
            if contains_identity(head, f.kind, f.stable_key) {
                let j = choose|j: int| 0 <= j < head.len() && has_identity(#[trigger] head[j], f.kind, f.stable_key);
                assert(head[j] == items[j]);
                assert(items[j].kind == items[k].kind);
            }
        }
        assert(f.stable_key.len() > 0);
        assert(accepts(head, f));
        assert(head.push(f) =~= items.take(k + 1));
        assert(items.skip(k)[0] == f);
        assert(items.skip(k).drop_first() =~= items.skip(k + 1));
        lemma_added_all_rebuilds(items, k + 1);
    }
}

/// Writing the settings and reading the text back gives the same
/// settings: flags, render style, window state, the favorites row and
/// its seed flag, and the shell's lines in order. This holds for every
/// valid favorites row whose written fields keep their edges through
/// the line trim (a key or name ending in a whitespace character that
/// has no escape, such as a form feed, loses it), and for shell lines
/// that the reader hands back to the shell and that are written as one
/// trimmed line each.
pub proof fn lemma_settings_round_trip(r: SettingsRecordView)
    requires
        favorites_wf(r.favorites.items),
        forall|i: int| 0 <= i < r.favorites.items.len() ==> field_survives(#[trigger] r.favorites.items[i]),
        forall|i: int|
            0 <= i < r.shell_lines.len() ==> goes_to_shell((#[trigger] r.shell_lines[i]).0) && writable_pair(
                r.shell_lines[i].0,
                r.shell_lines[i].1,
            ),
    ensures
        read_text(record_text(r)) == r,
{
    let items = r.favorites.items;
    let r0 = default_record();
    let t0 = header_line();
    let t1 = t0 + kv_line("perspective"@, bool_text(r.perspective));
    let t2 = t1 + kv_line("turntable"@, bool_text(r.turntable));
    let t3 = t2 + kv_line("show_bed"@, bool_text(r.show_bed));
    let t4 = t3 + render_style_text(r.render_style);
    let t5 = t4 + main_window_text(r.main_window);
    let t6 = t5 + kv_line("favorites_bar_expanded"@, bool_text(r.favorites_bar_expanded));
    let t7 = t6 + kv_line("favorites_seeded"@, bool_text(r.favorites.seeded));
    let t8 = t7 + favorites_text(items);
    let t9 = t8 + shell_text(r.shell_lines);
    assert(record_text(r) == t9);
    lemma_literal_words();
    lemma_flag_line_writable("perspective"@, r.perspective);
    lemma_flag_line_writable("turntable"@, r.turntable);
    lemma_flag_line_writable("show_bed"@, r.show_bed);
    lemma_flag_line_writable("favorites_bar_expanded"@, r.favorites_bar_expanded);
    lemma_flag_line_writable("favorites_seeded"@, r.favorites.seeded);
    // header
    lemma_fold_header(r0);
    // flags
    let r1 = RecordView { perspective: r.perspective, ..r0 };
    lemma_fold_line(r0, "perspective"@, bool_text(r.perspective));
    lemma_flag_lines(r0, r.perspective);
    lemma_fold_split(r0, t0, kv_line("perspective"@, bool_text(r.perspective)));
    lemma_ends_lines_concat(t0, kv_line("perspective"@, bool_text(r.perspective)));
    let r2 = RecordView { turntable: r.turntable, ..r1 };
    lemma_fold_line(r1, "turntable"@, bool_text(r.turntable));
    lemma_flag_lines(r1, r.turntable);
    lemma_fold_split(r0, t1, kv_line("turntable"@, bool_text(r.turntable)));
    lemma_ends_lines_concat(t1, kv_line("turntable"@, bool_text(r.turntable)));
    let r3 = RecordView { show_bed: r.show_bed, ..r2 };
    lemma_fold_line(r2, "show_bed"@, bool_text(r.show_bed));
    lemma_flag_lines(r2, r.show_bed);
    lemma_fold_split(r0, t2, kv_line("show_bed"@, bool_text(r.show_bed)));
    lemma_ends_lines_concat(t2, kv_line("show_bed"@, bool_text(r.show_bed)));
    assert(fold_from(r0, settings_pairs(t3)) == r3);
    // style
    let r4 = RecordView { render_style: r.render_style, ..r3 };
    lemma_fold_style(r3, r.render_style);
    lemma_fold_split(r0, t3, render_style_text(r.render_style));
    lemma_ends_lines_concat(t3, render_style_text(r.render_style));
    assert(fold_from(r0, settings_pairs(t4)) == r4);
    // window
    let r5 = RecordView { main_window: r.main_window, ..r4 };
    lemma_fold_main_window(r4, r.main_window);
    lemma_fold_split(r0, t4, main_window_text(r.main_window));
    lemma_ends_lines_concat(t4, main_window_text(r.main_window));
    assert(fold_from(r0, settings_pairs(t5)) == r5);
    // bar and seed flags
    let r6 = RecordView { favorites_bar_expanded: r.favorites_bar_expanded, ..r5 };
    lemma_fold_line(r5, "favorites_bar_expanded"@, bool_text(r.favorites_bar_expanded));
    lemma_flag_lines(r5, r.favorites_bar_expanded);
    lemma_fold_split(r0, t5, kv_line("favorites_bar_expanded"@, bool_text(r.favorites_bar_expanded)));
    lemma_ends_lines_concat(t5, kv_line("favorites_bar_expanded"@, bool_text(r.favorites_bar_expanded)));
    let r7 = RecordView { favorites_seeded: r.favorites.seeded, ..r6 };
    lemma_fold_line(r6, "favorites_seeded"@, bool_text(r.favorites.seeded));
    lemma_flag_lines(r6, r.favorites.seeded);
    lemma_fold_split(r0, t6, kv_line("favorites_seeded"@, bool_text(r.favorites.seeded)));
    lemma_ends_lines_concat(t6, kv_line("favorites_seeded"@, bool_text(r.favorites.seeded)));
    assert(fold_from(r0, settings_pairs(t7)) == r7);
    // favorites
    let r8 = RecordView { favorite_lines: r7.favorite_lines + numbered(items), ..r7 };
    lemma_fold_favorites(r7, items);
    lemma_fold_split(r0, t7, favorites_text(items));
    lemma_ends_lines_concat(t7, favorites_text(items));
    assert(fold_from(r0, settings_pairs(t8)) == r8);
    // shell
    let r9 = RecordView { shell_lines: r8.shell_lines + r.shell_lines, ..r8 };
    lemma_fold_shell(r8, r.shell_lines);
    lemma_fold_split(r0, t8, shell_text(r.shell_lines));
    assert(fold_from(r0, settings_pairs(t9)) == r9);
    // the row
    assert(r8.favorite_lines =~= numbered(items));
    assert(r9.shell_lines =~= r.shell_lines);
    lemma_by_index_of_sorted(numbered(items));
    assert(values_of(numbered(items)) =~= items);
    lemma_added_all_rebuilds(items, 0);
    assert(items.take(0) =~= Seq::<FavoriteView>::empty());
    assert(items.skip(0) =~= items);
    assert(row_of(r9.favorite_lines, r9.favorites_seeded) =~= r.favorites);
}

/// A settings text with no lines reads as the defaults.
pub proof fn lemma_empty_text_reads_defaults()
    ensures
        read_text(Seq::empty()) == default_view(),
{
    lemma_pairs_of_nothing(default_record());
    let e = Seq::<(u64, FavoriteView)>::empty();
    assert(by_index(e) == e);
    assert(values_of(e) =~= Seq::<FavoriteView>::empty());
    assert(added_all(Seq::<FavoriteView>::empty(), Seq::<FavoriteView>::empty()) == Seq::<FavoriteView>::empty());
    assert(read_text(Seq::empty()) =~= default_view());
}

/// A row the user emptied stays empty across a reload: the seed flag is
/// written and read back, so the startup seeding, whatever the registry
/// names, does not refill it. More generally, reloading and then seeding
/// leaves every seeded row exactly as it was saved.
pub proof fn lemma_seeded_row_survives_reload(r: SettingsRecordView, names: Seq<Option<Seq<char>>>)
    requires
        r.favorites.seeded,
        favorites_wf(r.favorites.items),
        forall|i: int| 0 <= i < r.favorites.items.len() ==> field_survives(#[trigger] r.favorites.items[i]),
        forall|i: int|
            0 <= i < r.shell_lines.len() ==> goes_to_shell((#[trigger] r.shell_lines[i]).0) && writable_pair(
                r.shell_lines[i].0,
                r.shell_lines[i].1,
            ),
    ensures
        after_seeding(read_text(record_text(r)).favorites, names) == r.favorites,
{
    lemma_settings_round_trip(r);
}

} // verus!
