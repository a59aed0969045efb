//! What the browser's screen shows: the search line, the rows of the list, the
//! status line, the preview of the selected reference and the tag picker, each
//! as pieces of text with the role that the theme colours.
use vstd::prelude::*;

use crate::model::{RefView, Reference};
use crate::naming::{last_name, last_name_of};
use crate::present::{owned, str_eq};
use crate::tui::{InputMode, Mode, ModeView};
use crate::text::{
    byte_len, byte_len_chars, opt_view, chars_of, decimal, decimal_string, floor_prefix, floor_prefix_len, join,
    join_strings, lemma_byte_len_mono, lemma_floor_prefix_is, strs_view, lemma_floor_prefix_whole, slice_chars, string_of,
};

verus! {

/// How a piece of text on the screen is styled; the theme gives each role its colour.
#[derive(Clone, Copy, PartialEq, Eq, Structural, Debug)]
pub enum Role {
    Text,
    Title,
    Dim,
    Muted,
    Accent,
    Warm,
    NormalBadge,
    InsertBadge,
    Selected,
}

/// A piece of text with its role.
pub struct Span {
    pub text: String,
    pub role: Role,
}

/// The content of a line of spans.
pub open spec fn spans_view(v: Seq<Span>) -> Seq<(Seq<char>, Role)> {
    v.map_values(|s: Span| (s.text@, s.role))
}

/// The content of several lines of spans.
pub open spec fn lines_view(v: Seq<Vec<Span>>) -> Seq<Seq<(Seq<char>, Role)>> {
    v.map_values(|l: Vec<Span>| spans_view(l@))
}

fn span(text: String, role: Role) -> (s: Span)
    ensures
        s.text@ == text@,
        s.role == role,
{
    Span { text, role }
}

/// `s` cut to at most `max` bytes at a character boundary.
pub fn truncate_str(s: &str, max: usize) -> (r: String)
    ensures
        r@ == floor_prefix(s@, max as nat),
        byte_len(r@) <= max,
        byte_len(s@) <= max ==> r@ == s@,
{
    let v = chars_of(s);
    let k = floor_prefix_len(&v, max);
    proof {
        lemma_floor_prefix_is(s@, max as nat, k as int);
        if byte_len(s@) <= max {
            lemma_floor_prefix_whole(s@, max as nat, k as int);
            assert(s@.take(k as int) =~= s@);
        }
    }
    let w = slice_chars(&v, 0, k);
    assert(w@ =~= s@.take(k as int));
    string_of(&w)
}

/// `s` when it fits in `max` bytes (or `max` is below 2), else its longest prefix
/// of at most `max - 1` bytes followed by an ellipsis.
pub open spec fn ellipsis_of(s: Seq<char>, max: nat) -> Seq<char> {
    if max < 2 || byte_len(s) <= max {
        s
    } else {
        floor_prefix(s, (max - 1) as nat).push('…')
    }
}

/// `s` cut to about `max` bytes, marked with an ellipsis when cut.
pub fn truncate_ellipsis(s: &str, max: usize) -> (r: String)
    ensures
        r@ == ellipsis_of(s@, max as nat),
{
    let v = chars_of(s);
    if max < 2 {
        return owned(s);
    }
    let k = floor_prefix_len(&v, max);
    if k == v.len() {
        proof {
            lemma_floor_prefix_is(s@, max as nat, k as int);
            assert(s@.take(k as int) =~= s@);
        }
        return owned(s);
    }
    let j = floor_prefix_len(&v, max - 1);
    proof {
        lemma_floor_prefix_is(s@, (max - 1) as nat, j as int);
        lemma_byte_len_mono(s@, k + 1, s@.len() as int);
        assert(s@.take(s@.len() as int) =~= s@);
    }
    let mut w = slice_chars(&v, 0, j);
    w.push('…');
    assert(w@ =~= s@.take(j as int).push('…'));
    string_of(&w)
}

/// `n` spaces.
pub open spec fn spaces(n: nat) -> Seq<char> {
    Seq::new(n, |i: int| ' ')
}

/// `s` right-aligned in a field of `w` characters.
pub open spec fn pad_left(s: Seq<char>, w: nat) -> Seq<char> {
    if s.len() >= w {
        s
    } else {
        spaces((w - s.len()) as nat) + s
    }
}

fn space_string(n: usize) -> (s: String)
    ensures
        s@ == spaces(n as nat),
{
    let mut v: Vec<char> = Vec::new();
    for i in 0..n
        invariant
            v@ == spaces(i as nat),
    {
        v.push(' ');
        assert(v@ =~= spaces((i + 1) as nat));
    }
    string_of(&v)
}

/// The year column of a list row: the year between spaces, or six spaces.
pub open spec fn year_cell(year: Option<u16>) -> Seq<char> {
    match year {
        Some(y) => seq![' '] + decimal(y as nat) + seq![' '],
        None => spaces(6),
    }
}

/// The author column of a list row: the first author's surname cut to 12 bytes
/// and right-aligned in 12 characters, then two spaces; 14 spaces without authors.
pub open spec fn author_cell(authors: Seq<Seq<char>>) -> Seq<char> {
    if authors.len() > 0 {
        pad_left(floor_prefix(last_name_of(authors[0]), 12), 12) + spaces(2)
    } else {
        spaces(14)
    }
}

/// The room left for the title in a list of `width` columns, after the marker,
/// the year and the author.
pub open spec fn title_room(width: usize) -> nat {
    if width >= 23 {
        (width - 23) as nat
    } else {
        0
    }
}

/// A row of the list: year, author and title.
pub open spec fn list_row_of(r: RefView, width: usize) -> Seq<(Seq<char>, Role)> {
    seq![
        (year_cell(r.year), Role::Muted),
        (author_cell(r.authors), Role::Dim),
        (ellipsis_of(r.title, title_room(width)), Role::Text),
    ]
}

fn year_text(year: Option<u16>) -> (s: String)
    ensures
        s@ == year_cell(year),
{
    match year {
        Some(y) => {
            let mut s = String::new();
            let mut v: Vec<char> = Vec::new();
            v.push(' ');
            let d = decimal_string(y as u64);
            let dv = chars_of(d.as_str());
            for i in 0..dv.len()
                invariant
                    v@ == seq![' '] + dv@.take(i as int),
            {
                v.push(dv[i]);
                assert(v@ =~= seq![' '] + dv@.take(i + 1));
            }
            v.push(' ');
            assert(dv@.take(dv@.len() as int) =~= dv@);
            assert(v@ =~= seq![' '] + decimal(y as nat) + seq![' ']);
            s = string_of(&v);
            s
        },
        None => space_string(6),
    }
}

fn author_text(authors: &Vec<String>) -> (s: String)
    ensures
        s@ == author_cell(strs_view(authors@)),
{
    if authors.len() == 0 {
        return space_string(14);
    }
    let last = last_name(authors[0].as_str());
    let t = truncate_str(last.as_str(), 12);
    let n = t.unicode_len();
    let mut s = if n < 12 {
        space_string(12 - n)
    } else {
        String::new()
    };
    s.append(t.as_str());
    let two = space_string(2);
    s.append(two.as_str());
    proof {
        assert(strs_view(authors@)[0] == authors@[0]@);
        if n < 12 {
            assert(s@ =~= pad_left(t@, 12) + spaces(2));
        } else {
            assert(s@ =~= pad_left(t@, 12) + spaces(2));
        }
    }
    s
}

/// The row of the list for a reference, in a list `width` columns wide.
pub fn list_row(r: &Reference, width: usize) -> (row: Vec<Span>)
    ensures
        spans_view(row@) == list_row_of(r@, width),
{
    let room = if width >= 23 {
        width - 23
    } else {
        0
    };
    let mut row: Vec<Span> = Vec::new();
    row.push(span(year_text(r.year), Role::Muted));
    row.push(span(author_text(&r.authors), Role::Dim));
    row.push(span(truncate_ellipsis(r.title.as_str(), room), Role::Text));
    assert(spans_view(row@) =~= list_row_of(r@, width));
    row
}

/// The search line: the prompt, the tag filter in brackets when there is one, and
/// the search when it is not empty.
pub open spec fn search_line_of(tag_filter: Option<Seq<char>>, filter: Seq<char>) -> Seq<(Seq<char>, Role)> {
    seq![(" search: "@, Role::Muted)] + (match tag_filter {
        Some(t) => seq![("["@ + t + "] "@, Role::Warm)],
        None => seq![],
    }) + (if filter.len() > 0 {
        seq![(filter, Role::Text)]
    } else {
        seq![]
    })
}

/// The search line.
pub fn search_line(tag_filter: &Option<String>, filter: &str) -> (line: Vec<Span>)
    ensures
        spans_view(line@) == search_line_of(opt_view(*tag_filter), filter@),
{
    let mut line: Vec<Span> = Vec::new();
    line.push(span(owned(" search: "), Role::Muted));
    let ghost l1 = spans_view(line@);
    match tag_filter {
        Some(t) => {
            let mut label = owned("[");
            label.append(t.as_str());
            label.append("] ");
            line.push(span(label, Role::Warm));
        },
        None => {},
    }
    let ghost l2 = spans_view(line@);
    assert(l2 =~= seq![(" search: "@, Role::Muted)] + (match opt_view(*tag_filter) {
        Some(t) => seq![("["@ + t + "] "@, Role::Warm)],
        None => Seq::<(Seq<char>, Role)>::empty(),
    }));
    if filter.unicode_len() > 0 {
        line.push(span(owned(filter), Role::Text));
    }
    assert(spans_view(line@) =~= search_line_of(opt_view(*tag_filter), filter@));
    line
}

/// Where the cursor stands on the search line, in bytes from its start: after the
/// prompt, the bracketed tag filter and the search.
pub open spec fn search_cursor_of(tag_filter: Option<Seq<char>>, filter: Seq<char>) -> nat {
    9 + match tag_filter {
        Some(t) => byte_len(t) + 3,
        None => 0,
    } + byte_len(filter)
}

/// The cursor's offset on the search line, or `usize::MAX` if it would not fit.
pub fn search_cursor_offset(tag_filter: &Option<String>, filter: &str) -> (n: usize)
    ensures
        n == if search_cursor_of(opt_view(*tag_filter), filter@) <= usize::MAX {
            search_cursor_of(opt_view(*tag_filter), filter@)
        } else {
            usize::MAX as nat
        },
{
    let tag_len: Option<usize> = match tag_filter {
        Some(t) => {
            let tv = chars_of(t.as_str());
            match byte_len_chars(&tv) {
                Some(k) => if k <= usize::MAX - 3 {
                    Some(k + 3)
                } else {
                    None
                },
                None => None,
            }
        },
        None => Some(0),
    };
    let fv = chars_of(filter);
    let flen = byte_len_chars(&fv);
    match (tag_len, flen) {
        (Some(a), Some(b)) => if a <= usize::MAX - 9 && b <= usize::MAX - 9 - a {
            9 + a + b
        } else {
            usize::MAX
        },
        _ => usize::MAX,
    }
}

/// What the status line suggests to press.
pub open spec fn mode_hint_of(input: InputMode, mode: ModeView) -> Seq<char> {
    if input == InputMode::Insert {
        "  esc normal"@
    } else {
        match mode {
            ModeView::Browse => "  / search  e edit  y bib  tab tags  q quit"@,
            ModeView::Cite(_) => "  / search  enter select  tab tags  q quit"@,
        }
    }
}

/// The status line: the input mode, how many entries the list shows out of all,
/// and the keys to press.
pub open spec fn status_line_of(input: InputMode, mode: ModeView, shown: nat, total: nat) -> Seq<(Seq<char>, Role)> {
    seq![
        if input == InputMode::Normal {
            (" NOR "@, Role::NormalBadge)
        } else {
            (" INS "@, Role::InsertBadge)
        },
        ("  "@ + decimal(shown) + "/"@ + decimal(total), Role::Muted),
        (mode_hint_of(input, mode), Role::Muted),
    ]
}

/// The status line.
pub fn status_line(input: InputMode, mode: &Mode, shown: usize, total: usize) -> (line: Vec<Span>)
    ensures
        spans_view(line@) == status_line_of(input, mode@, shown as nat, total as nat),
{
    let mut line: Vec<Span> = Vec::new();
    if input == InputMode::Normal {
        line.push(span(owned(" NOR "), Role::NormalBadge));
    } else {
        line.push(span(owned(" INS "), Role::InsertBadge));
    }
    let mut count = owned("  ");
    let a = decimal_string(shown as u64);
    count.append(a.as_str());
    count.append("/");
    let b = decimal_string(total as u64);
    count.append(b.as_str());
    line.push(span(count, Role::Muted));
    let hint = if input == InputMode::Insert {
        owned("  esc normal")
    } else {
        match mode {
            Mode::Browse => owned("  / search  e edit  y bib  tab tags  q quit"),
            Mode::Cite { .. } => owned("  / search  enter select  tab tags  q quit"),
        }
    };
    line.push(span(hint, Role::Muted));
    assert(spans_view(line@) =~= status_line_of(input, mode@, shown as nat, total as nat));
    line
}

/// Where the tag picker sits on a screen of `area_w` by `area_h` cells, how many
/// of its choices it shows, and from which one on.
pub struct PopupBox {
    pub x: u16,
    pub y: u16,
    pub width: u16,
    pub height: u16,
    pub visible: usize,
    pub scroll: usize,
}

/// The tag picker's box for `n` choices with choice `selected`: up to twenty
/// choices in a box four rows taller, 36 columns wide (less on a narrow screen),
/// centred, scrolled so that the selected choice is the last one shown when it
/// lies below the first page.
pub open spec fn popup_box_ok(b: PopupBox, area_w: u16, area_h: u16, n: usize, selected: usize) -> bool {
    &&& b.visible == if n < 20 {
        n
    } else {
        20
    }
    &&& b.height == b.visible + 4
    &&& b.width == if area_w >= 40 {
        36
    } else if area_w >= 4 {
        area_w - 4
    } else {
        0
    }
    &&& b.x == (area_w - b.width) / 2
    &&& b.y == (if area_h >= b.height {
        area_h - b.height
    } else {
        0
    }) / 2
    &&& b.scroll == if selected >= b.visible {
        selected - b.visible + 1
    } else {
        0
    }
}

/// The tag picker's box.
pub fn popup_box(area_w: u16, area_h: u16, n: usize, selected: usize) -> (b: PopupBox)
    requires
        n > 0 || selected < usize::MAX,
    ensures
        popup_box_ok(b, area_w, area_h, n, selected),
{
    let visible: usize = if n < 20 {
        n
    } else {
        20
    };
    let height: u16 = if n < 20 {
        n as u16 + 4
    } else {
        24
    };
    let width: u16 = if area_w >= 40 {
        36
    } else if area_w >= 4 {
        area_w - 4
    } else {
        0
    };
    let x = (area_w - width) / 2;
    let y = (if area_h >= height {
        area_h - height
    } else {
        0
    }) / 2;
    let scroll = if selected >= visible {
        selected - visible + 1
    } else {
        0
    };
    PopupBox { x, y, width, height, visible, scroll }
}

/// The filter line of the tag picker: an invitation to type, or what was typed.
pub open spec fn popup_filter_line_of(filter: Seq<char>) -> Seq<(Seq<char>, Role)> {
    if filter.len() == 0 {
        seq![(" type to filter..."@, Role::Muted)]
    } else {
        seq![(" > "@, Role::Accent), (filter, Role::Text)]
    }
}

/// The filter line of the tag picker.
pub fn popup_filter_line(filter: &str) -> (line: Vec<Span>)
    ensures
        spans_view(line@) == popup_filter_line_of(filter@),
{
    let mut line: Vec<Span> = Vec::new();
    if filter.unicode_len() == 0 {
        line.push(span(owned(" type to filter..."), Role::Muted));
    } else {
        line.push(span(owned(" > "), Role::Accent));
        line.push(span(owned(filter), Role::Text));
    }
    assert(spans_view(line@) =~= popup_filter_line_of(filter@));
    line
}

/// A choice of the tag picker: marked and highlighted when selected, "(all)"
/// dimmed, the tags in the warm colour.
pub open spec fn popup_row_of(tag: Seq<char>, selected: bool) -> Seq<(Seq<char>, Role)> {
    seq![
        ((if selected {
            " > "@
        } else {
            "   "@
        }) + tag, if selected {
            Role::Selected
        } else if tag == "(all)"@ {
            Role::Dim
        } else {
            Role::Warm
        }),
    ]
}

/// How many choices the picker shows from `scroll` on.
pub open spec fn popup_row_count(len: nat, scroll: nat, visible: nat) -> nat {
    if scroll >= len {
        0
    } else if len - scroll < visible {
        (len - scroll) as nat
    } else {
        visible
    }
}

/// The choices the tag picker shows: from `scroll` on, at most `visible` of them.
pub open spec fn popup_rows_of(tags: Seq<Seq<char>>, selected: usize, scroll: usize, visible: usize) -> Seq<Seq<(Seq<char>, Role)>> {
    Seq::new(
        popup_row_count(tags.len(), scroll as nat, visible as nat),
        |k: int| popup_row_of(tags[scroll + k], scroll + k == selected),
    )
}

/// The choices the tag picker shows.
pub fn popup_rows(tags: &Vec<String>, selected: usize, scroll: usize, visible: usize) -> (rows: Vec<Vec<Span>>)
    ensures
        lines_view(rows@) == popup_rows_of(strs_view(tags@), selected, scroll, visible),
{
    let ghost tv = strs_view(tags@);
    let count: usize = if scroll >= tags.len() {
        0
    } else if tags.len() - scroll < visible {
        tags.len() - scroll
    } else {
        visible
    };
    let mut rows: Vec<Vec<Span>> = Vec::new();
    for k in 0..count
        invariant
            tv == strs_view(tags@),
            count == popup_row_count(tv.len(), scroll as nat, visible as nat),
            count == 0 || scroll + count <= tags.len(),
            rows@.len() == k,
            forall|j: int| 0 <= j < k ==> #[trigger] spans_view(rows@[j]@) == popup_row_of(tv[scroll + j], scroll + j == selected),
    {
        let i = scroll + k;
        let is_sel = i == selected;
        let mut text = if is_sel {
            owned(" > ")
        } else {
            owned("   ")
        };
        text.append(tags[i].as_str());
        let role = if is_sel {
            Role::Selected
        } else if str_eq(tags[i].as_str(), "(all)") {
            Role::Dim
        } else {
            Role::Warm
        };
        let mut row: Vec<Span> = Vec::new();
        row.push(span(text, role));
        assert(tv[i as int] == tags@[i as int]@);
        assert(spans_view(row@) =~= popup_row_of(tv[scroll + k], scroll + k == selected));
        rows.push(row);
    }
    assert(lines_view(rows@) =~= popup_rows_of(tv, selected, scroll, visible));
    rows
}

/// The year and journal line of the preview: the year, a dot when both are
/// there, and the journal.
pub open spec fn year_journal_spans(r: RefView) -> Seq<(Seq<char>, Role)> {
    (match r.year {
        Some(y) => seq![(decimal(y as nat), Role::Warm)],
        None => seq![],
    }) + (match r.journal {
        Some(j) => (if r.year is Some {
            seq![(" · "@, Role::Muted)]
        } else {
            seq![]
        }) + seq![(j, Role::Dim)],
        None => seq![],
    })
}

/// A labelled line of the preview, when the value is there.
pub open spec fn labelled_line(label: Seq<char>, value: Option<Seq<char>>) -> Seq<Seq<(Seq<char>, Role)>> {
    match value {
        Some(v) => seq![seq![(label, Role::Muted), (v, Role::Dim)]],
        None => seq![],
    }
}

/// The preview of a reference: a blank line, the title, the year and journal
/// when known, a blank line, the authors and a blank line when there are some,
/// the DOI, the arXiv id, the tags, and the abstract after a blank line.
pub open spec fn preview_of(r: RefView) -> Seq<Seq<(Seq<char>, Role)>> {
    seq![seq![], seq![(r.title, Role::Title)]] + (if r.year is Some || r.journal is Some {
        seq![year_journal_spans(r)]
    } else {
        seq![]
    }) + seq![seq![]] + (if r.authors.len() > 0 {
        seq![seq![(join(r.authors, ", "@), Role::Accent)], seq![]]
    } else {
        seq![]
    }) + labelled_line("doi   "@, r.doi) + labelled_line("arxiv "@, r.arxiv) + (if r.tags.len() > 0 {
        seq![seq![("tags  "@, Role::Muted), (join(r.tags, ", "@), Role::Warm)]]
    } else {
        seq![]
    }) + (match r.abstract_text {
        Some(a) => seq![seq![], seq![(a, Role::Dim)]],
        None => seq![],
    })
}

fn year_journal_line(r: &Reference) -> (line: Vec<Span>)
    ensures
        spans_view(line@) == year_journal_spans(r@),
{
    let mut line: Vec<Span> = Vec::new();
    if let Some(y) = r.year {
        line.push(span(decimal_string(y as u64), Role::Warm));
    }
    let ghost first = spans_view(line@);
    if let Some(j) = &r.journal {
        if r.year.is_some() {
            line.push(span(owned(" · "), Role::Muted));
        }
        line.push(span(owned(j.as_str()), Role::Dim));
    }
    assert(spans_view(line@) =~= year_journal_spans(r@));
    line
}

fn push_labelled_line(lines: &mut Vec<Vec<Span>>, label: &str, value: &Option<String>)
    ensures
        lines_view(final(lines)@) == lines_view(old(lines)@) + labelled_line(label@, opt_view(*value)),
{
    let ghost before = lines_view(lines@);
    if let Some(v) = value {
        let mut line: Vec<Span> = Vec::new();
        line.push(span(owned(label), Role::Muted));
        line.push(span(owned(v.as_str()), Role::Dim));
        assert(spans_view(line@) =~= seq![(label@, Role::Muted), (v@, Role::Dim)]);
        lines.push(line);
    }
    assert(lines_view(lines@) =~= before + labelled_line(label@, opt_view(*value)));
}

fn push_one(lines: &mut Vec<Vec<Span>>, text: String, role: Role)
    ensures
        lines_view(final(lines)@) == lines_view(old(lines)@).push(seq![(text@, role)]),
{
    let mut line: Vec<Span> = Vec::new();
    line.push(span(text, role));
    assert(spans_view(line@) =~= seq![(text@, role)]);
    lines.push(line);
    assert(lines_view(lines@) =~= lines_view(old(lines)@).push(seq![(text@, role)]));
}

fn push_blank(lines: &mut Vec<Vec<Span>>)
    ensures
        lines_view(final(lines)@) == lines_view(old(lines)@).push(seq![]),
{
    let line: Vec<Span> = Vec::new();
    assert(spans_view(line@) =~= Seq::<(Seq<char>, Role)>::empty());
    lines.push(line);
    assert(lines_view(lines@) =~= lines_view(old(lines)@).push(seq![]));
}

/// The preview of a reference.
pub fn preview_lines(r: &Reference) -> (lines: Vec<Vec<Span>>)
    ensures
        lines_view(lines@) == preview_of(r@),
{
    let mut lines: Vec<Vec<Span>> = Vec::new();
    push_blank(&mut lines);
    push_one(&mut lines, owned(r.title.as_str()), Role::Title);
    if r.year.is_some() || r.journal.is_some() {
        let yj = year_journal_line(r);
        let ghost before = lines_view(lines@);
        lines.push(yj);
        assert(lines_view(lines@) =~= before.push(year_journal_spans(r@)));
    }
    push_blank(&mut lines);
    let ghost head = lines_view(lines@);
    assert(head =~= seq![seq![], seq![(r@.title, Role::Title)]] + (if r@.year is Some || r@.journal is Some {
        seq![year_journal_spans(r@)]
    } else {
        Seq::<Seq<(Seq<char>, Role)>>::empty()
    }) + seq![Seq::<(Seq<char>, Role)>::empty()]);
    if r.authors.len() > 0 {
        push_one(&mut lines, join_strings(&r.authors, ", "), Role::Accent);
        push_blank(&mut lines);
    }
    let ghost with_authors = lines_view(lines@);
    assert(with_authors =~= head + (if r@.authors.len() > 0 {
        seq![seq![(join(r@.authors, ", "@), Role::Accent)], Seq::<(Seq<char>, Role)>::empty()]
    } else {
        Seq::<Seq<(Seq<char>, Role)>>::empty()
    }));
    push_labelled_line(&mut lines, "doi   ", &r.doi);
    push_labelled_line(&mut lines, "arxiv ", &r.arxiv);
    let ghost with_ids = lines_view(lines@);
    if r.tags.len() > 0 {
        let mut line: Vec<Span> = Vec::new();
        line.push(span(owned("tags  "), Role::Muted));
        line.push(span(join_strings(&r.tags, ", "), Role::Warm));
        assert(spans_view(line@) =~= seq![("tags  "@, Role::Muted), (join(r@.tags, ", "@), Role::Warm)]);
        lines.push(line);
    }
    let ghost with_tags = lines_view(lines@);
    assert(with_tags =~= with_ids + (if r@.tags.len() > 0 {
        seq![seq![("tags  "@, Role::Muted), (join(r@.tags, ", "@), Role::Warm)]]
    } else {
        Seq::<Seq<(Seq<char>, Role)>>::empty()
    }));
    if let Some(a) = &r.abstract_text {
        push_blank(&mut lines);
        push_one(&mut lines, owned(a.as_str()), Role::Dim);
    }
    assert(lines_view(lines@) =~= preview_of(r@));
    lines
}

} // verus!
