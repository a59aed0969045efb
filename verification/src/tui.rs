//! The state of the terminal browser: the list of references, the search filter,
//! the tag picker, the selection, and how each key press changes them.
use vstd::prelude::*;

use crate::model::{RefView, Reference};
use crate::present::{bibtex_entry, bibtex_of, citation_of, display_line, display_of, format_citation, owned, str_eq};
use crate::order::{insert_sorted, strictly_sorted};
use crate::text::{
    byte_len, byte_len_chars, push_char, slice_chars, chars_of, clone_opt, clone_strs, contains_chars, contains_seq, lowercase, opt_view,
    string_of, strs_view, to_lowercase,
};

verus! {

/// How the list and the preview pane share the screen, as configured.
#[derive(Clone, Copy, PartialEq, Eq, Structural, Debug)]
pub enum LayoutMode {
    Wide,
    Tall,
    Auto,
}

/// How the list and the preview pane share the screen, once decided.
#[derive(Clone, Copy, PartialEq, Eq, Structural, Debug)]
pub enum ResolvedLayout {
    Wide,
    Tall,
}

impl LayoutMode {
    /// The layout named in the configuration: `wide`, `tall`, or else automatic.
    pub open spec fn from_config_spec(s: Option<Seq<char>>) -> LayoutMode {
        match s {
            Some(v) => if v == "wide"@ {
                LayoutMode::Wide
            } else if v == "tall"@ {
                LayoutMode::Tall
            } else {
                LayoutMode::Auto
            },
            None => LayoutMode::Auto,
        }
    }

    /// The layout named in the configuration.
    pub fn from_config(s: Option<&str>) -> (m: LayoutMode)
        ensures
            m == Self::from_config_spec(match s {
                Some(v) => Some(v@),
                None => None,
            }),
    {
        match s {
            Some(v) => if str_eq(v, "wide") {
                LayoutMode::Wide
            } else if str_eq(v, "tall") {
                LayoutMode::Tall
            } else {
                LayoutMode::Auto
            },
            None => LayoutMode::Auto,
        }
    }

    /// The layout for a screen of the given size: side by side from a width of
    /// 100 columns on, one above the other below it.
    pub open spec fn resolve_spec(self, width: u16) -> ResolvedLayout {
        match self {
            LayoutMode::Wide => ResolvedLayout::Wide,
            LayoutMode::Tall => ResolvedLayout::Tall,
            LayoutMode::Auto => if width >= 100 {
                ResolvedLayout::Wide
            } else {
                ResolvedLayout::Tall
            },
        }
    }

    /// The layout for a screen of the given size.
    pub fn resolve(self, width: u16, height: u16) -> (r: ResolvedLayout)
        ensures
            r == self.resolve_spec(width),
    {
        match self {
            LayoutMode::Wide => ResolvedLayout::Wide,
            LayoutMode::Tall => ResolvedLayout::Tall,
            LayoutMode::Auto => if width >= 100 {
                ResolvedLayout::Wide
            } else {
                ResolvedLayout::Tall
            },
        }
    }
}

/// The choices of the tag picker: "(all)", then every tag.
pub open spec fn popup_candidates(all_tags: Seq<Seq<char>>) -> Seq<Seq<char>> {
    seq!["(all)"@] + all_tags
}

/// The candidates whose lowercase form contains `f`, in order.
pub open spec fn filter_tags(c: Seq<Seq<char>>, f: Seq<char>) -> Seq<Seq<char>>
    decreases c.len(),
{
    if c.len() == 0 {
        seq![]
    } else {
        let p = filter_tags(c.drop_last(), f);
        if contains_seq(lowercase(c.last()), f) {
            p.push(c.last())
        } else {
            p
        }
    }
}

/// The choices the tag picker shows for a filter: all of them while the filter
/// is empty, else those that contain it, case aside.
pub open spec fn popup_tags(all_tags: Seq<Seq<char>>, filter: Seq<char>) -> Seq<Seq<char>> {
    if filter.len() == 0 {
        popup_candidates(all_tags)
    } else {
        filter_tags(popup_candidates(all_tags), lowercase(filter))
    }
}

/// A selection kept within a list of `len` choices.
pub open spec fn clamp_selection(sel: usize, len: nat) -> usize {
    if sel >= len {
        if len == 0 {
            0
        } else {
            (len - 1) as usize
        }
    } else {
        sel
    }
}

/// The tag picker: what has been typed, the choices it leaves, and the chosen one.
pub struct TagPopup {
    pub filter: String,
    pub filtered_tags: Vec<String>,
    pub selected: usize,
}

/// The content of the tag picker.
pub struct PopupView {
    pub filter: Seq<char>,
    pub tags: Seq<Seq<char>>,
    pub selected: usize,
}

impl View for TagPopup {
    type V = PopupView;

    open spec fn view(&self) -> PopupView {
        PopupView { filter: self.filter@, tags: strs_view(self.filtered_tags@), selected: self.selected }
    }
}

/// The selection of the tag picker lies within its choices, or at 0 when there are none.
pub open spec fn popup_wf(p: PopupView) -> bool {
    if p.tags.len() == 0 {
        p.selected == 0
    } else {
        p.selected < p.tags.len()
    }
}

fn candidates(all_tags: &Vec<String>) -> (c: Vec<String>)
    ensures
        strs_view(c@) == popup_candidates(strs_view(all_tags@)),
{
    let mut c: Vec<String> = Vec::new();
    let all = owned("(all)");
    c.push(all);
    assert(c@[0]@ == "(all)"@);
    let ghost c0 = strs_view(c@);
    assert(c0 =~= seq!["(all)"@]);
    let rest = clone_strs(all_tags);
    for i in 0..rest.len()
        invariant
            strs_view(c@) == c0 + strs_view(rest@).take(i as int),
            strs_view(rest@) == strs_view(all_tags@),
    {
        let ghost before = strs_view(c@);
        c.push(owned(rest[i].as_str()));
        assert(strs_view(c@) =~= before.push(rest@[i as int]@));
        assert(strs_view(rest@).take(i + 1) =~= strs_view(rest@).take(i as int).push(rest@[i as int]@));
        assert(strs_view(c@) =~= c0 + strs_view(rest@).take(i + 1));
    }
    assert(strs_view(rest@).take(rest@.len() as int) =~= strs_view(rest@));
    c
}

impl TagPopup {
    /// A fresh tag picker: no filter, every choice, the first one chosen.
    pub fn new(all_tags: &Vec<String>) -> (p: TagPopup)
        ensures
            p@.filter.len() == 0,
            p@.tags == popup_candidates(strs_view(all_tags@)),
            p@.selected == 0,
            popup_wf(p@),
    {
        TagPopup { filter: String::new(), filtered_tags: candidates(all_tags), selected: 0 }
    }

    /// Recomputes the choices after the filter changed, keeping the selection within them.
    pub fn rebuild(&mut self, all_tags: &Vec<String>)
        ensures
            final(self)@.filter == old(self)@.filter,
            final(self)@.tags == popup_tags(strs_view(all_tags@), old(self)@.filter),
            final(self)@.selected == clamp_selection(
                old(self)@.selected,
                popup_tags(strs_view(all_tags@), old(self)@.filter).len(),
            ),
            popup_wf(final(self)@),
    {
        let tags = candidates(all_tags);
        if self.filter.unicode_len() == 0 {
            self.filtered_tags = tags;
        } else {
            let fl = to_lowercase(self.filter.as_str());
            let f = chars_of(fl.as_str());
            let mut out: Vec<String> = Vec::new();
            let ghost cv = strs_view(tags@);
            for i in 0..tags.len()
                invariant
                    cv == strs_view(tags@),
                    f@ == lowercase(self.filter@),
                    strs_view(out@) == filter_tags(cv.take(i as int), f@),
            {
                let lower = to_lowercase(tags[i].as_str());
                let lc = chars_of(lower.as_str());
                assert(cv.take(i + 1).drop_last() =~= cv.take(i as int));
                if contains_chars(&lc, &f) {
                    out.push(owned(tags[i].as_str()));
                    assert(strs_view(out@) =~= filter_tags(cv.take(i as int), f@).push(cv[i as int]));
                }
            }
            assert(cv.take(cv.len() as int) =~= cv);
            self.filtered_tags = out;
        }
        if self.selected >= self.filtered_tags.len() {
            self.selected = if self.filtered_tags.len() == 0 {
                0
            } else {
                self.filtered_tags.len() - 1
            };
        }
    }

    /// Moves the choice one up, stopping at the first.
    pub fn move_up(&mut self)
        requires
            popup_wf(old(self)@),
        ensures
            final(self)@.filter == old(self)@.filter,
            final(self)@.tags == old(self)@.tags,
            final(self)@.selected == if old(self)@.selected == 0 {
                0
            } else {
                (old(self)@.selected - 1) as usize
            },
            popup_wf(final(self)@),
    {
        if self.selected > 0 {
            self.selected = self.selected - 1;
        }
    }

    /// Moves the choice one down, stopping at the last.
    pub fn move_down(&mut self)
        requires
            popup_wf(old(self)@),
        ensures
            final(self)@.filter == old(self)@.filter,
            final(self)@.tags == old(self)@.tags,
            final(self)@.selected == if old(self)@.tags.len() == 0 || old(self)@.selected + 1
                >= old(self)@.tags.len() {
                old(self)@.selected
            } else {
                (old(self)@.selected + 1) as usize
            },
            popup_wf(final(self)@),
    {
        if self.filtered_tags.len() != 0 && self.selected + 1 < self.filtered_tags.len() {
            self.selected = self.selected + 1;
        }
    }

    /// The chosen tag, if there is one.
    pub fn selected_tag(&self) -> (t: Option<String>)
        ensures
            opt_view(t) == if self@.selected < self@.tags.len() {
                Some(self@.tags[self@.selected as int])
            } else {
                None
            },
    {
        if self.selected < self.filtered_tags.len() {
            Some(owned(self.filtered_tags[self.selected].as_str()))
        } else {
            None
        }
    }
}

/// One reference in the browser: its directory name, its metadata, and the line
/// the list shows for it.
pub struct Entry {
    pub dir_name: String,
    pub reference: Reference,
    pub display: String,
}

/// The content of an [`Entry`].
pub struct EntryView {
    pub dir_name: Seq<char>,
    pub reference: RefView,
    pub display: Seq<char>,
}

impl View for Entry {
    type V = EntryView;

    open spec fn view(&self) -> EntryView {
        EntryView { dir_name: self.dir_name@, reference: self.reference@, display: self.display@ }
    }
}

impl Entry {
    /// The entry of a reference, with its one-line summary.
    pub fn new(dir_name: String, reference: Reference) -> (e: Entry)
        ensures
            e@.dir_name == dir_name@,
            e@.reference == reference@,
            e@.display == display_of(reference@),
    {
        let display = display_line(&reference);
        Entry { dir_name, reference, display }
    }
}

/// The views of a list of entries.
pub open spec fn entries_view(v: Seq<Entry>) -> Seq<EntryView> {
    v.map_values(|e: Entry| e@)
}

/// The score the fuzzy matcher gives `haystack` for the search `pattern`, or
/// nothing when it does not match.
pub uninterp spec fn fuzzy_score_of(pattern: Seq<char>, haystack: Seq<char>) -> Option<u32>;

/// The number of words of `s` between spaces: the characters other than a
/// space that begin `s` or follow a space.
pub open spec fn space_words(s: Seq<char>) -> nat
    decreases s.len(),
{
    if s.len() == 0 {
        0
    } else {
        space_words(s.drop_last()) + if s.last() != ' ' && (s.len() == 1 || s[s.len() - 2] == ' ') {
            1nat
        } else {
            0nat
        }
    }
}

/// A search the matcher can score: at most 65537 words, so that the sum of the
/// scores of its words (each below 2^16) stays within a `u32`
/// (65537 * 65535 == u32::MAX).
pub open spec fn search_fits(filter: Seq<char>) -> bool {
    space_words(filter) <= 65537
}

fn count_space_words(v: &Vec<char>) -> (n: usize)
    ensures
        n == space_words(v@),
{
    let mut n: usize = 0;
    for i in 0..v.len()
        invariant
            n == space_words(v@.take(i as int)),
            n <= i,
    {
        assert(v@.take(i + 1).drop_last() =~= v@.take(i as int));
        if v[i] != ' ' && (i == 0 || v[i - 1] == ' ') {
            n = n + 1;
        }
    }
    assert(v@.take(v@.len() as int) =~= v@);
    n
}

/// Whether the matcher can score a search.
pub fn search_fits_matcher(filter: &str) -> (b: bool)
    ensures
        b == search_fits(filter@),
{
    let v = chars_of(filter);
    count_space_words(&v) <= 65537
}

/// A line the matcher can score: at most `u32::MAX` bytes, so at most that many
/// characters or graphemes.
pub open spec fn line_fits(display: Seq<char>) -> bool {
    byte_len(display) <= u32::MAX
}

/// Every entry's line can be scored.
pub open spec fn entries_fit(es: Seq<EntryView>) -> bool {
    forall|i: int| 0 <= i < es.len() ==> line_fits(#[trigger] es[i].display)
}

/// Scores `haystack` against the search `pattern`.
///
/// Calls `nucleo_matcher::pattern::Pattern::parse` (ignoring case, with smart
/// normalisation) and `Pattern::score` with a matcher in its default configuration.
/// The contract names the result only: the matcher's scoring takes pages to state,
/// and the score depends on the pattern and the haystack alone.
/// The matcher panics on a haystack of more than `u32::MAX` characters, counted
/// as bytes when every grapheme is ASCII, so `requires` bounds its bytes; and
/// `Pattern::score` adds the `u16` scores of the pattern's words into a `u32`.
/// The pattern's words are its non-empty pieces between unescaped spaces, at
/// most as many as its pieces between spaces, so `requires` bounds those to
/// 65537, for which the sum cannot overflow.
#[verifier::external_body]
fn fuzzy_score(pattern: &str, haystack: &str) -> (r: Option<u32>)
    requires
        line_fits(haystack@),
        search_fits(pattern@),
    ensures
        r == fuzzy_score_of(pattern@, haystack@),
{
    let pat = nucleo_matcher::pattern::Pattern::parse(
        pattern,
        nucleo_matcher::pattern::CaseMatching::Ignore,
        nucleo_matcher::pattern::Normalization::Smart,
    );
    let mut matcher = nucleo_matcher::Matcher::new(nucleo_matcher::Config::DEFAULT);
    let mut buf = Vec::new();
    pat.score(nucleo_matcher::Utf32Str::new(haystack, &mut buf), &mut matcher)
}

/// Whether the matcher can score a line.
pub fn line_fits_matcher(display: &str) -> (b: bool)
    ensures
        b == line_fits(display@),
{
    let v = chars_of(display);
    match byte_len_chars(&v) {
        Some(n) => n as u64 <= u32::MAX as u64,
        None => false,
    }
}

/// The entry carries the tag filter exactly, or there is none.
pub open spec fn entry_tagged(e: EntryView, tag_filter: Option<Seq<char>>) -> bool {
    match tag_filter {
        Some(t) => e.reference.tags.contains(t),
        None => true,
    }
}

/// The entry passes the tag filter and, when there is a search, matches it.
pub open spec fn entry_shown(e: EntryView, tag_filter: Option<Seq<char>>, filter: Seq<char>) -> bool {
    entry_tagged(e, tag_filter) && (filter.len() == 0 || fuzzy_score_of(filter, e.display) is Some)
}

/// The score by which a shown entry is ranked: its match score, or 0 without a search.
pub open spec fn rank_of(e: EntryView, filter: Seq<char>) -> u32 {
    if filter.len() == 0 {
        0
    } else {
        match fuzzy_score_of(filter, e.display) {
            Some(s) => s,
            None => 0,
        }
    }
}

/// Entry `i` comes before entry `j`: a higher score, or the same score and an
/// earlier place in the library.
pub open spec fn ranked_before(es: Seq<EntryView>, filter: Seq<char>, i: int, j: int) -> bool {
    rank_of(es[i], filter) > rank_of(es[j], filter) || (rank_of(es[i], filter) == rank_of(
        es[j],
        filter,
    ) && i < j)
}

/// `r` lists the entries that the filters show, each once, best match first and
/// library order among equal matches (a stable sort by descending score).
pub open spec fn filtered_ok(
    r: Seq<usize>,
    es: Seq<EntryView>,
    tag_filter: Option<Seq<char>>,
    filter: Seq<char>,
) -> bool {
    &&& forall|x: int| 0 <= x < r.len() ==> (#[trigger] r[x] as int) < es.len() && entry_shown(es[r[x] as int], tag_filter, filter)
    &&& forall|i: int| 0 <= i < es.len() && entry_shown(#[trigger] es[i], tag_filter, filter) ==> r.contains(i as usize)
    &&& forall|a: int, b: int| 0 <= a < b < r.len() ==> ranked_before(es, filter, #[trigger] r[a] as int, #[trigger] r[b] as int)
}

fn has_tag_exact(tags: &Vec<String>, tag: &String) -> (b: bool)
    ensures
        b == strs_view(tags@).contains(tag@),
{
    for i in 0..tags.len()
        invariant
            forall|k: int| 0 <= k < i ==> tags@[k]@ != tag@,
    {
        if tags[i] == *tag {
            assert(strs_view(tags@)[i as int] == tag@);
            return true;
        }
    }
    assert forall|k: int| 0 <= k < strs_view(tags@).len() implies strs_view(tags@)[k] != tag@ by {
        assert(strs_view(tags@)[k] == tags@[k]@);
    }
    false
}

/// `r` orders the positions of `scores`: each position once, higher scores first,
/// and equal scores in the order given (a stable sort by descending score).
pub open spec fn score_order_ok(r: Seq<usize>, scores: Seq<u32>) -> bool {
    &&& r.len() == scores.len()
    &&& forall|x: int| 0 <= x < r.len() ==> (#[trigger] r[x] as int) < scores.len()
    &&& forall|j: usize| j < scores.len() ==> #[trigger] r.contains(j)
    &&& forall|a: int, b: int|
        0 <= a < b < r.len() ==> scores[#[trigger] r[a] as int] > scores[#[trigger] r[b] as int]
            || (scores[r[a] as int] == scores[r[b] as int] && r[a] < r[b])
}

/// The positions of `scores`, best score first, ties in the order given.
pub fn order_by_score(scores: &Vec<u32>) -> (r: Vec<usize>)
    ensures
        score_order_ok(r@, scores@),
{
    let mut res: Vec<usize> = Vec::new();
    let n = scores.len();
    for i in 0..n
        invariant
            n == scores@.len(),
            res@.len() == i,
            forall|x: int| 0 <= x < res@.len() ==> (#[trigger] res@[x] as int) < i,
            forall|j: usize| j < i ==> #[trigger] res@.contains(j),
            forall|a: int, b: int|
                0 <= a < b < res@.len() ==> scores@[#[trigger] res@[a] as int] > scores@[#[trigger] res@[b] as int]
                    || (scores@[res@[a] as int] == scores@[res@[b] as int] && res@[a] < res@[b]),
    {
        let sc = scores[i];
        let mut p: usize = 0;
        while p < res.len() && scores[res[p]] >= sc
            invariant
                p <= res@.len(),
                i < n,
                n == scores@.len(),
                sc == scores@[i as int],
                forall|x: int| 0 <= x < res@.len() ==> (#[trigger] res@[x] as int) < i,
                forall|k: int| 0 <= k < p ==> scores@[#[trigger] res@[k] as int] >= sc,
            decreases res@.len() - p,
        {
            p = p + 1;
        }
        let ghost old_res = res@;
        assert forall|k: int| p <= k < old_res.len() implies scores@[#[trigger] old_res[k] as int] < sc by {
            if k > p {
                assert(scores@[old_res[p as int] as int] >= scores@[old_res[k] as int]);
            }
        }
        res.insert(p, i);
        assert forall|x: int| 0 <= x < res@.len() implies (#[trigger] res@[x] as int) < i + 1 by {
            if x < p {
                assert(res@[x] == old_res[x]);
            } else if x > p {
                assert(res@[x] == old_res[x - 1]);
            }
        }
        assert forall|a: int, b: int| 0 <= a < b < res@.len() implies scores@[#[trigger] res@[a] as int] > scores@[#[trigger] res@[b] as int]
            || (scores@[res@[a] as int] == scores@[res@[b] as int] && res@[a] < res@[b]) by {
            if b < p {
                assert(res@[a] == old_res[a] && res@[b] == old_res[b]);
            } else if b == p {
                assert(res@[a] == old_res[a]);
                assert(scores@[old_res[a] as int] >= sc);
            } else if a < p {
                assert(res@[a] == old_res[a] && res@[b] == old_res[b - 1]);
            } else if a == p {
                assert(res@[b] == old_res[b - 1]);
                assert(scores@[old_res[b - 1] as int] < sc);
            } else {
                assert(res@[a] == old_res[a - 1] && res@[b] == old_res[b - 1]);
            }
        }
        assert forall|j: usize| j < i + 1 implies #[trigger] res@.contains(j) by {
            if j == i {
                assert(res@[p as int] == i);
            } else {
                assert(old_res.contains(j));
                let x = choose|x: int| 0 <= x < old_res.len() && old_res[x] == j;
                if x < p {
                    assert(res@[x] == j);
                } else {
                    assert(res@[x + 1] == j);
                }
            }
        }
    }
    res
}

/// The entries that carry the tag filter (all entries without one), in library order.
fn tagged_entries(entries: &Vec<Entry>, tag_filter: &Option<String>) -> (r: Vec<usize>)
    ensures
        forall|x: int| 0 <= x < r@.len() ==> (#[trigger] r@[x] as int) < entries@.len()
            && entry_tagged(entries_view(entries@)[r@[x] as int], opt_view(*tag_filter)),
        forall|i: int| 0 <= i < entries@.len() && entry_tagged(#[trigger] entries_view(entries@)[i], opt_view(*tag_filter)) ==> r@.contains(i as usize),
        forall|a: int, b: int| 0 <= a < b < r@.len() ==> r@[a] < r@[b],
{
    let ghost es = entries_view(entries@);
    let mut res: Vec<usize> = Vec::new();
    for i in 0..entries.len()
        invariant
            es == entries_view(entries@),
            forall|x: int| 0 <= x < res@.len() ==> (#[trigger] res@[x] as int) < i
                && entry_tagged(es[res@[x] as int], opt_view(*tag_filter)),
            forall|j: int| 0 <= j < i && entry_tagged(#[trigger] es[j], opt_view(*tag_filter)) ==> res@.contains(j as usize),
            forall|a: int, b: int| 0 <= a < b < res@.len() ==> res@[a] < res@[b],
    {
        assert(es[i as int] == entries@[i as int]@);
        let tagged = match tag_filter {
            Some(t) => has_tag_exact(&entries[i].reference.tags, t),
            None => true,
        };
        if tagged {
            let ghost old_res = res@;
            res.push(i);
            assert forall|j: int| 0 <= j < i + 1 && entry_tagged(#[trigger] es[j], opt_view(*tag_filter)) implies res@.contains(j as usize) by {
                if j == i {
                    assert(res@[old_res.len() as int] == i);
                } else {
                    let x = choose|x: int| 0 <= x < old_res.len() && old_res[x] == j as usize;
                    assert(res@[x] == j as usize);
                }
            }
        }
    }
    res
}

/// The entries that the tag filter and the search leave, ranked.
pub fn ranked_entries(entries: &Vec<Entry>, tag_filter: &Option<String>, filter: &String) -> (r: Vec<usize>)
    requires
        entries_fit(entries_view(entries@)),
        search_fits(filter@),
    ensures
        filtered_ok(r@, entries_view(entries@), opt_view(*tag_filter), filter@),
{
    let ghost es = entries_view(entries@);
    let ghost tf = opt_view(*tag_filter);
    let tagged = tagged_entries(entries, tag_filter);
    if filter.unicode_len() == 0 {
        assert forall|a: int, b: int| 0 <= a < b < tagged@.len() implies ranked_before(es, filter@, #[trigger] tagged@[a] as int, #[trigger] tagged@[b] as int) by {
        }
        return tagged;
    }
    // the entries that match, with their scores, in library order
    let mut found: Vec<usize> = Vec::new();
    let mut scores: Vec<u32> = Vec::new();
    let ghost mut pos: Seq<int> = Seq::empty();
    for k in 0..tagged.len()
        invariant
            es == entries_view(entries@),
            tf == opt_view(*tag_filter),
            filter@.len() > 0,
            entries_fit(es),
            search_fits(filter@),
            found@.len() == scores@.len(),
            forall|x: int| 0 <= x < tagged@.len() ==> (#[trigger] tagged@[x] as int) < es.len()
                && entry_tagged(es[tagged@[x] as int], tf),
            forall|a: int, b: int| 0 <= a < b < tagged@.len() ==> tagged@[a] < tagged@[b],
            forall|x: int| 0 <= x < found@.len() ==> (#[trigger] found@[x] as int) < es.len()
                && entry_shown(es[found@[x] as int], tf, filter@)
                && scores@[x] == rank_of(es[found@[x] as int], filter@),
            forall|x: int| 0 <= x < k && entry_shown(es[#[trigger] tagged@[x] as int], tf, filter@) ==> found@.contains(tagged@[x]),
            pos.len() == found@.len(),
            forall|x: int| 0 <= x < found@.len() ==> 0 <= #[trigger] pos[x] < k && tagged@[pos[x]] == found@[x],
            forall|a: int, b: int| 0 <= a < b < found@.len() ==> found@[a] < found@[b],
    {
        let i = tagged[k];
        assert(es[i as int] == entries@[i as int]@);
        assert(line_fits(es[i as int].display));
        let score = fuzzy_score(filter.as_str(), entries[i].display.as_str());
        if let Some(sc) = score {
            let ghost old_found = found@;
            let ghost old_pos = pos;
            found.push(i);
            scores.push(sc);
            proof {
                pos = pos.push(k as int);
            }
            assert forall|x: int| 0 <= x < found@.len() implies 0 <= #[trigger] pos[x] < k + 1 && tagged@[pos[x]] == found@[x] by {
                if x < old_found.len() {
                    assert(pos[x] == old_pos[x]);
                    assert(found@[x] == old_found[x]);
                }
            }
            assert forall|a: int, b: int| 0 <= a < b < found@.len() implies found@[a] < found@[b] by {
                if b == old_found.len() {
                    assert(pos[a] == old_pos[a]);
                    assert(found@[a] == old_found[a]);
                    assert(tagged@[old_pos[a]] < tagged@[k as int]);
                }
            }
            assert forall|x: int| 0 <= x < k + 1 && entry_shown(es[#[trigger] tagged@[x] as int], tf, filter@) implies found@.contains(tagged@[x]) by {
                if x == k {
                    assert(found@[old_found.len() as int] == i);
                } else {
                    let z = choose|z: int| 0 <= z < old_found.len() && old_found[z] == tagged@[x];
                    assert(found@[z] == tagged@[x]);
                }
            }
        } else {
            assert(!entry_shown(es[i as int], tf, filter@));
        }
    }
    let order = order_by_score(&scores);
    let mut res: Vec<usize> = Vec::new();
    for k in 0..order.len()
        invariant
            score_order_ok(order@, scores@),
            found@.len() == scores@.len(),
            res@.len() == k,
            forall|x: int| 0 <= x < k ==> #[trigger] res@[x] == found@[order@[x] as int],
    {
        res.push(found[order[k]]);
    }
    proof {
        assert forall|x: int| 0 <= x < res@.len() implies (#[trigger] res@[x] as int) < es.len() && entry_shown(es[res@[x] as int], tf, filter@) by {
            assert(res@[x] == found@[order@[x] as int]);
        }
        assert(es.len() == entries.len());
        assert forall|i: int| 0 <= i < es.len() && entry_shown(#[trigger] es[i], tf, filter@) implies res@.contains(i as usize) by {
            assert(entry_tagged(es[i], tf));
            assert(tagged@.contains(i as usize));
            let y = choose|y: int| 0 <= y < tagged@.len() && tagged@[y] == i as usize;
            assert(entry_shown(es[tagged@[y] as int], tf, filter@));
            assert(found@.contains(i as usize));
            let z = choose|z: int| 0 <= z < found@.len() && found@[z] == i as usize;
            assert(order@.contains(z as usize));
            let w = choose|w: int| 0 <= w < order@.len() && order@[w] == z as usize;
            assert(res@[w] == i as usize);
        }
        assert forall|a: int, b: int| 0 <= a < b < res@.len() implies ranked_before(es, filter@, #[trigger] res@[a] as int, #[trigger] res@[b] as int) by {
            assert(res@[a] == found@[order@[a] as int]);
            assert(res@[b] == found@[order@[b] as int]);
            assert(scores@[order@[a] as int] > scores@[order@[b] as int]
                || (scores@[order@[a] as int] == scores@[order@[b] as int] && order@[a] < order@[b]));
        }
    }
    res
}

/// Two lists strictly ordered by rank and holding the same entries are equal.
proof fn lemma_ranked_lists_equal(r1: Seq<usize>, r2: Seq<usize>, es: Seq<EntryView>, filter: Seq<char>)
    requires
        forall|x: int| 0 <= x < r1.len() ==> (#[trigger] r1[x] as int) < es.len(),
        forall|x: int| 0 <= x < r2.len() ==> (#[trigger] r2[x] as int) < es.len(),
        forall|a: int, b: int| 0 <= a < b < r1.len() ==> ranked_before(es, filter, #[trigger] r1[a] as int, #[trigger] r1[b] as int),
        forall|a: int, b: int| 0 <= a < b < r2.len() ==> ranked_before(es, filter, #[trigger] r2[a] as int, #[trigger] r2[b] as int),
        forall|v: usize| r1.contains(v) <==> r2.contains(v),
    ensures
        r1 == r2,
    decreases r1.len(),
{
    if r1.len() == 0 {
        if r2.len() > 0 {
            assert(r2.contains(r2[0]));
        }
        assert(r1 =~= r2);
    } else {
        assert(r1.contains(r1[0]));
        assert(r2.len() > 0);
        assert(r2.contains(r2[0]));
        let k = choose|k: int| 0 <= k < r2.len() && r2[k] == r1[0];
        let m = choose|m: int| 0 <= m < r1.len() && r1[m] == r2[0];
        if k > 0 && m > 0 {
            assert(ranked_before(es, filter, r2[0] as int, r2[k] as int));
            assert(ranked_before(es, filter, r1[0] as int, r1[m] as int));
        }
        assert(r1[0] == r2[0]);
        let t1 = r1.drop_first();
        let t2 = r2.drop_first();
        assert forall|v: usize| t1.contains(v) <==> t2.contains(v) by {
            if t1.contains(v) {
                let x = choose|x: int| 0 <= x < t1.len() && t1[x] == v;
                assert(r1[x + 1] == v);
                assert(ranked_before(es, filter, r1[0] as int, r1[x + 1] as int));
                assert(r2.contains(v));
                let y = choose|y: int| 0 <= y < r2.len() && r2[y] == v;
                assert(y != 0);
                assert(t2[y - 1] == v);
            }
            if t2.contains(v) {
                let x = choose|x: int| 0 <= x < t2.len() && t2[x] == v;
                assert(r2[x + 1] == v);
                assert(ranked_before(es, filter, r2[0] as int, r2[x + 1] as int));
                assert(r1.contains(v));
                let y = choose|y: int| 0 <= y < r1.len() && r1[y] == v;
                assert(y != 0);
                assert(t1[y - 1] == v);
            }
        }
        assert forall|a: int, b: int| 0 <= a < b < t1.len() implies ranked_before(es, filter, #[trigger] t1[a] as int, #[trigger] t1[b] as int) by {
            assert(t1[a] == r1[a + 1] && t1[b] == r1[b + 1]);
        }
        assert forall|a: int, b: int| 0 <= a < b < t2.len() implies ranked_before(es, filter, #[trigger] t2[a] as int, #[trigger] t2[b] as int) by {
            assert(t2[a] == r2[a + 1] && t2[b] == r2[b + 1]);
        }
        assert forall|x: int| 0 <= x < t1.len() implies (#[trigger] t1[x] as int) < es.len() by {
            assert(t1[x] == r1[x + 1]);
        }
        assert forall|x: int| 0 <= x < t2.len() implies (#[trigger] t2[x] as int) < es.len() by {
            assert(t2[x] == r2[x + 1]);
        }
        lemma_ranked_lists_equal(t1, t2, es, filter);
        assert(r1 =~= seq![r1[0]] + t1);
        assert(r2 =~= seq![r2[0]] + t2);
    }
}

/// The browser's filtered list is determined by the entries, the tag filter and
/// the search: any two lists that meet its description are the same list.
pub proof fn filtered_list_unique(
    r1: Seq<usize>,
    r2: Seq<usize>,
    es: Seq<EntryView>,
    tag_filter: Option<Seq<char>>,
    filter: Seq<char>,
)
    requires
        es.len() <= usize::MAX,
        filtered_ok(r1, es, tag_filter, filter),
        filtered_ok(r2, es, tag_filter, filter),
    ensures
        r1 == r2,
{
    assert forall|v: usize| r1.contains(v) <==> r2.contains(v) by {
        if r1.contains(v) {
            let x = choose|x: int| 0 <= x < r1.len() && r1[x] == v;
            assert(entry_shown(es[v as int], tag_filter, filter));
        }
        if r2.contains(v) {
            let x = choose|x: int| 0 <= x < r2.len() && r2[x] == v;
            assert(entry_shown(es[v as int], tag_filter, filter));
        }
    }
    lemma_ranked_lists_equal(r1, r2, es, filter);
}

/// A tag that some entry carries.
pub open spec fn some_entry_has_tag(es: Seq<EntryView>, t: Seq<char>) -> bool {
    exists|i: int| 0 <= i < es.len() && (#[trigger] es[i]).reference.tags.contains(t)
}

/// `t` is among the first `j` strings of `m`.
spec fn among_first(m: Seq<Seq<char>>, j: int, t: Seq<char>) -> bool {
    exists|x: int| 0 <= x < j && m[x] == t
}

/// Adds each of `more` to the sorted list `tags`.
fn add_tags(tags: &mut Vec<String>, more: &Vec<String>)
    requires
        strictly_sorted(strs_view(old(tags)@)),
    ensures
        strictly_sorted(strs_view(final(tags)@)),
        forall|t: Seq<char>|
            strs_view(final(tags)@).contains(t) <==> (strs_view(old(tags)@).contains(t) || strs_view(more@).contains(t)),
{
    let ghost before = strs_view(tags@);
    let ghost m = strs_view(more@);
    for j in 0..more.len()
        invariant
            before == strs_view(old(tags)@),
            m == strs_view(more@),
            strictly_sorted(strs_view(tags@)),
            forall|t: Seq<char>|
                #[trigger] strs_view(tags@).contains(t) <==> (before.contains(t) || among_first(m, j as int, t)),
    {
        let ghost prev = strs_view(tags@);
        insert_sorted(tags, &more[j]);
        assert(m[j as int] == more@[j as int]@);
        assert forall|t: Seq<char>|
            #[trigger] strs_view(tags@).contains(t) <==> (before.contains(t) || among_first(m, j + 1, t)) by {
            assert(prev.contains(t) <==> (before.contains(t) || among_first(m, j as int, t)));
            if among_first(m, j + 1, t) {
                let x = choose|x: int| 0 <= x < j + 1 && m[x] == t;
                if x < j {
                    assert(among_first(m, j as int, t));
                }
            }
            if among_first(m, j as int, t) {
                let x = choose|x: int| 0 <= x < j && m[x] == t;
                assert(among_first(m, j + 1, t));
            }
            if t == m[j as int] {
                assert(among_first(m, j + 1, t));
            }
        }
    }
    assert forall|t: Seq<char>| among_first(m, m.len() as int, t) <==> m.contains(t) by {
        if m.contains(t) {
            let x = choose|x: int| 0 <= x < m.len() && m[x] == t;
            assert(among_first(m, m.len() as int, t));
        }
    }
}

/// Every tag of the library, sorted, each once (what the tag picker offers).
pub fn collect_tags(entries: &Vec<Entry>) -> (tags: Vec<String>)
    ensures
        strictly_sorted(strs_view(tags@)),
        forall|t: Seq<char>| strs_view(tags@).contains(t) <==> some_entry_has_tag(entries_view(entries@), t),
{
    let ghost es = entries_view(entries@);
    let mut tags: Vec<String> = Vec::new();
    assert(strs_view(tags@) =~= Seq::<Seq<char>>::empty());
    for i in 0..entries.len()
        invariant
            es == entries_view(entries@),
            strictly_sorted(strs_view(tags@)),
            forall|t: Seq<char>| strs_view(tags@).contains(t) <==> exists|k: int| 0 <= k < i && (#[trigger] es[k]).reference.tags.contains(t),
    {
        let ghost before = strs_view(tags@);
        assert(es[i as int].reference.tags == strs_view(entries@[i as int].reference.tags@));
        add_tags(&mut tags, &entries[i].reference.tags);
        assert forall|t: Seq<char>| strs_view(tags@).contains(t) <==> exists|k: int| 0 <= k < i + 1 && (#[trigger] es[k]).reference.tags.contains(t) by {
            assert(before.contains(t) <==> exists|k: int| 0 <= k < i && (#[trigger] es[k]).reference.tags.contains(t));
            if exists|k: int| 0 <= k < i + 1 && (#[trigger] es[k]).reference.tags.contains(t) {
                let k = choose|k: int| 0 <= k < i + 1 && (#[trigger] es[k]).reference.tags.contains(t);
                if k < i {
                    assert(before.contains(t));
                }
            }
            if es[i as int].reference.tags.contains(t) {
                assert(exists|k: int| 0 <= k < i + 1 && (#[trigger] es[k]).reference.tags.contains(t));
            }
            if before.contains(t) {
                let k = choose|k: int| 0 <= k < i && (#[trigger] es[k]).reference.tags.contains(t);
                assert(0 <= k < i + 1);
            }
        }
    }
    tags
}

/// Whether the browser is picking a reference to open or a citation key to print.
pub enum Mode {
    Browse,
    Cite { format: String },
}

/// The content of a [`Mode`].
pub enum ModeView {
    Browse,
    Cite(Seq<char>),
}

impl View for Mode {
    type V = ModeView;

    open spec fn view(&self) -> ModeView {
        match self {
            Mode::Browse => ModeView::Browse,
            Mode::Cite { format } => ModeView::Cite(format@),
        }
    }
}

/// Whether keys move through the list or type into the search.
#[derive(Clone, Copy, PartialEq, Eq, Structural, Debug)]
pub enum InputMode {
    Normal,
    Insert,
}

/// The modifier keys held with a key: none, only shift, only control, or another combination.
#[derive(Clone, Copy, PartialEq, Eq, Structural, Debug)]
pub enum Mods {
    Plain,
    Shift,
    Control,
    Other,
}

/// The keys the browser reacts to.
#[derive(Clone, Copy, PartialEq, Eq, Structural, Debug)]
pub enum KeyCode {
    Char(char),
    Esc,
    Up,
    Down,
    Backspace,
    Enter,
    Tab,
    Other,
}

/// A key press.
#[derive(Clone, Copy, PartialEq, Eq, Structural, Debug)]
pub struct Key {
    pub code: KeyCode,
    pub mods: Mods,
}

/// What a key press does.
#[derive(Clone, Copy, PartialEq, Eq, Structural, Debug)]
pub enum Effect {
    Ignore,
    PopupClose,
    PopupUp,
    PopupDown,
    PopupBackspace,
    PopupType(char),
    PopupChoose,
    ToNormal,
    ToInsert,
    Quit,
    EscapeJk,
    Type(char),
    Backspace,
    Up,
    Down,
    PageUp,
    PageDown,
    Top,
    Bottom,
    OpenPopup,
    Select,
    Edit,
    CopyBib,
}

/// What the program around the browser has to do after a key press, with the
/// position of the entry concerned.
#[derive(Clone, Copy, PartialEq, Eq, Structural, Debug)]
pub enum Action {
    Nothing,
    Open(usize),
    Edit(usize),
    CopyBib(usize),
}

/// The state of the browser.
pub struct AppState {
    pub entries: Vec<Entry>,
    pub filtered_indices: Vec<usize>,
    pub filter: String,
    pub selected: Option<usize>,
    pub mode: Mode,
    pub input_mode: InputMode,
    pub should_quit: bool,
    pub pending_output: Option<String>,
    pub tag_filter: Option<String>,
    pub all_tags: Vec<String>,
    pub tag_popup: Option<TagPopup>,
    pub layout: LayoutMode,
    pub last_insert_ms: Option<u64>,
}

/// The content of the browser's state.
pub struct AppView {
    pub entries: Seq<EntryView>,
    pub filtered: Seq<usize>,
    pub filter: Seq<char>,
    pub selected: Option<usize>,
    pub mode: ModeView,
    pub input_mode: InputMode,
    pub should_quit: bool,
    pub pending_output: Option<Seq<char>>,
    pub tag_filter: Option<Seq<char>>,
    pub all_tags: Seq<Seq<char>>,
    pub tag_popup: Option<PopupView>,
    pub layout: LayoutMode,
    pub last_insert_ms: Option<u64>,
}

/// The view of an optional tag picker.
pub open spec fn popup_opt_view(p: Option<TagPopup>) -> Option<PopupView> {
    match p {
        Some(x) => Some(x@),
        None => None,
    }
}

impl View for AppState {
    type V = AppView;

    open spec fn view(&self) -> AppView {
        AppView {
            entries: entries_view(self.entries@),
            filtered: self.filtered_indices@,
            filter: self.filter@,
            selected: self.selected,
            mode: self.mode@,
            input_mode: self.input_mode,
            should_quit: self.should_quit,
            pending_output: opt_view(self.pending_output),
            tag_filter: opt_view(self.tag_filter),
            all_tags: strs_view(self.all_tags@),
            tag_popup: popup_opt_view(self.tag_popup),
            layout: self.layout,
            last_insert_ms: self.last_insert_ms,
        }
    }
}

/// The browser's state is consistent: the list points at entries, a selection
/// exists exactly when the list is not empty and lies within it, and the tag
/// picker's selection lies within its choices.
pub open spec fn app_wf(v: AppView) -> bool {
    &&& forall|x: int| 0 <= x < v.filtered.len() ==> (#[trigger] v.filtered[x] as int) < v.entries.len()
    &&& (v.selected is None <==> v.filtered.len() == 0)
    &&& (v.selected matches Some(k) ==> k < v.filtered.len())
    &&& (v.tag_popup matches Some(p) ==> popup_wf(p))
}

/// The matcher can score every entry's line and the search.
pub open spec fn app_fits(v: AppView) -> bool {
    entries_fit(v.entries) && search_fits(v.filter)
}

/// The entry under the selection.
pub open spec fn selected_entry_of(v: AppView) -> Option<usize> {
    match v.selected {
        Some(k) => if k < v.filtered.len() && (v.filtered[k as int] as int) < v.entries.len() {
            Some(v.filtered[k as int])
        } else {
            None
        },
        None => None,
    }
}

/// The search without its last character.
pub open spec fn pop_last(s: Seq<char>) -> Seq<char> {
    if s.len() == 0 {
        s
    } else {
        s.drop_last()
    }
}

/// Within half a second of typing a `j`, a `k` leaves the search as `jk` would in vi.
pub open spec fn jk_window(v: AppView, now: u64) -> bool {
    &&& v.last_insert_ms matches Some(t) && now - t < 500
    &&& v.filter.len() > 0
    &&& v.filter.last() == 'j'
}

/// What a key press does in the current state.
pub open spec fn dispatch(v: AppView, key: Key, now: u64) -> Effect {
    if v.tag_popup is Some {
        match key.code {
            KeyCode::Esc => Effect::PopupClose,
            KeyCode::Up => Effect::PopupUp,
            KeyCode::Down => Effect::PopupDown,
            KeyCode::Backspace => Effect::PopupBackspace,
            KeyCode::Char(c) => Effect::PopupType(c),
            KeyCode::Enter => Effect::PopupChoose,
            _ => Effect::Ignore,
        }
    } else if v.input_mode == InputMode::Insert {
        match key.code {
            KeyCode::Esc => Effect::ToNormal,
            KeyCode::Char(c) => if c == 'c' && key.mods == Mods::Control {
                Effect::Quit
            } else if c == 'k' && key.mods == Mods::Plain && jk_window(v, now) {
                Effect::EscapeJk
            } else if key.mods == Mods::Plain || key.mods == Mods::Shift {
                Effect::Type(c)
            } else if key.mods == Mods::Control {
                if c == 'p' {
                    Effect::Up
                } else if c == 'n' {
                    Effect::Down
                } else if c == 'b' {
                    Effect::PageUp
                } else if c == 'f' {
                    Effect::PageDown
                } else {
                    Effect::Ignore
                }
            } else {
                Effect::Ignore
            },
            KeyCode::Backspace => Effect::Backspace,
            KeyCode::Up => Effect::Up,
            KeyCode::Down => Effect::Down,
            KeyCode::Tab => Effect::OpenPopup,
            KeyCode::Enter => Effect::Select,
            _ => Effect::Ignore,
        }
    } else {
        match key.code {
            KeyCode::Esc => Effect::Quit,
            KeyCode::Down => Effect::Down,
            KeyCode::Up => Effect::Up,
            KeyCode::Tab => Effect::OpenPopup,
            KeyCode::Enter => Effect::Select,
            KeyCode::Char(c) => if key.mods == Mods::Plain {
                if c == 'q' {
                    Effect::Quit
                } else if c == '/' || c == 'i' {
                    Effect::ToInsert
                } else if c == 'j' {
                    Effect::Down
                } else if c == 'k' {
                    Effect::Up
                } else if c == 'g' {
                    Effect::Top
                } else if c == 'G' {
                    Effect::Bottom
                } else if c == 'e' {
                    Effect::Edit
                } else if c == 'y' {
                    Effect::CopyBib
                } else {
                    Effect::Ignore
                }
            } else if key.mods == Mods::Control {
                if c == 'c' {
                    Effect::Quit
                } else if c == 'n' {
                    Effect::Down
                } else if c == 'p' {
                    Effect::Up
                } else if c == 'b' {
                    Effect::PageUp
                } else if c == 'f' {
                    Effect::PageDown
                } else {
                    Effect::Ignore
                }
            } else if key.mods == Mods::Shift && c == 'G' {
                Effect::Bottom
            } else {
                Effect::Ignore
            },
            _ => Effect::Ignore,
        }
    }
}

/// The selection after moving one up.
pub open spec fn sel_up(v: AppView) -> Option<usize> {
    if v.filtered.len() == 0 {
        v.selected
    } else {
        match v.selected {
            Some(i) => if i == 0 {
                Some(0usize)
            } else {
                Some((i - 1) as usize)
            },
            None => Some(0usize),
        }
    }
}

/// The selection after moving one down.
pub open spec fn sel_down(v: AppView) -> Option<usize> {
    if v.filtered.len() == 0 {
        v.selected
    } else {
        match v.selected {
            Some(i) => if i >= v.filtered.len() - 1 {
                Some((v.filtered.len() - 1) as usize)
            } else {
                Some((i + 1) as usize)
            },
            None => Some(0usize),
        }
    }
}

/// The selection after moving a page (twenty entries) up.
pub open spec fn sel_page_up(v: AppView) -> Option<usize> {
    if v.filtered.len() == 0 {
        v.selected
    } else {
        let i = match v.selected {
            Some(i) => i,
            None => 0,
        };
        Some(if i >= 20 {
            (i - 20) as usize
        } else {
            0usize
        })
    }
}

/// The selection after moving a page (twenty entries) down.
pub open spec fn sel_page_down(v: AppView) -> Option<usize> {
    if v.filtered.len() == 0 {
        v.selected
    } else {
        let i = match v.selected {
            Some(i) => i,
            None => 0,
        };
        Some(if i + 20 >= v.filtered.len() - 1 {
            (v.filtered.len() - 1) as usize
        } else {
            (i + 20) as usize
        })
    }
}

/// The selection after jumping to the first entry.
pub open spec fn sel_top(v: AppView) -> Option<usize> {
    if v.filtered.len() == 0 {
        v.selected
    } else {
        Some(0usize)
    }
}

/// The selection after jumping to the last entry.
pub open spec fn sel_bottom(v: AppView) -> Option<usize> {
    if v.filtered.len() == 0 {
        v.selected
    } else {
        Some((v.filtered.len() - 1) as usize)
    }
}

/// The list was recomputed for the current filters and the selection reset to its top.
pub open spec fn rebuilt(v: AppView) -> bool {
    &&& filtered_ok(v.filtered, v.entries, v.tag_filter, v.filter)
    &&& v.selected == if v.filtered.len() == 0 {
        None::<usize>
    } else {
        Some(0usize)
    }
}

/// The tag filter that choosing in the tag picker sets: none for "(all)" or no
/// choice, else the chosen tag.
pub open spec fn chosen_tag_filter(p: PopupView) -> Option<Seq<char>> {
    if p.selected < p.tags.len() && p.tags[p.selected as int] != "(all)"@ {
        Some(p.tags[p.selected as int])
    } else {
        None
    }
}

/// The tag picker after its filter changed to `f`.
pub open spec fn popup_refiltered(p: PopupView, all_tags: Seq<Seq<char>>, f: Seq<char>) -> PopupView {
    PopupView {
        filter: f,
        tags: popup_tags(all_tags, f),
        selected: clamp_selection(p.selected, popup_tags(all_tags, f).len()),
    }
}

/// How a key press changes the browser (`n` after `v`) and what it asks the
/// program around it to do.
pub open spec fn step_ok(v: AppView, n: AppView, e: Effect, now: u64, act: Action) -> bool {
    match e {
        Effect::Ignore => n == v && act == Action::Nothing,
        Effect::PopupClose => n == AppView { tag_popup: None, ..v } && act == Action::Nothing,
        Effect::PopupUp => act == Action::Nothing && match v.tag_popup {
            Some(p) => n == AppView {
                tag_popup: Some(PopupView { selected: if p.selected == 0 { 0 } else { (p.selected - 1) as usize }, ..p }),
                ..v
            },
            None => n == v,
        },
        Effect::PopupDown => act == Action::Nothing && match v.tag_popup {
            Some(p) => n == AppView {
                tag_popup: Some(PopupView {
                    selected: if p.tags.len() == 0 || p.selected + 1 >= p.tags.len() { p.selected } else { (p.selected + 1) as usize },
                    ..p
                }),
                ..v
            },
            None => n == v,
        },
        Effect::PopupBackspace => act == Action::Nothing && match v.tag_popup {
            Some(p) => n == AppView { tag_popup: Some(popup_refiltered(p, v.all_tags, pop_last(p.filter))), ..v },
            None => n == v,
        },
        Effect::PopupType(c) => act == Action::Nothing && match v.tag_popup {
            Some(p) => n == AppView { tag_popup: Some(popup_refiltered(p, v.all_tags, p.filter.push(c))), ..v },
            None => n == v,
        },
        Effect::PopupChoose => act == Action::Nothing && match v.tag_popup {
            Some(p) => n == AppView {
                tag_popup: None,
                tag_filter: chosen_tag_filter(p),
                filtered: n.filtered,
                selected: n.selected,
                ..v
            } && rebuilt(n),
            None => n == v,
        },
        Effect::ToNormal => n == AppView { input_mode: InputMode::Normal, last_insert_ms: None, ..v }
            && act == Action::Nothing,
        Effect::ToInsert => n == AppView { input_mode: InputMode::Insert, ..v } && act == Action::Nothing,
        Effect::Quit => n == AppView { should_quit: true, ..v } && act == Action::Nothing,
        Effect::EscapeJk => act == Action::Nothing && n == AppView {
            filter: pop_last(v.filter),
            input_mode: InputMode::Normal,
            last_insert_ms: None,
            filtered: n.filtered,
            selected: n.selected,
            ..v
        } && rebuilt(n),
        Effect::Type(c) => act == Action::Nothing && n == AppView {
            filter: v.filter.push(c),
            last_insert_ms: Some(now),
            filtered: n.filtered,
            selected: n.selected,
            ..v
        } && rebuilt(n),
        Effect::Backspace => act == Action::Nothing && n == AppView {
            filter: pop_last(v.filter),
            last_insert_ms: None,
            filtered: n.filtered,
            selected: n.selected,
            ..v
        } && rebuilt(n),
        Effect::Up => n == AppView { selected: sel_up(v), ..v } && act == Action::Nothing,
        Effect::Down => n == AppView { selected: sel_down(v), ..v } && act == Action::Nothing,
        Effect::PageUp => n == AppView { selected: sel_page_up(v), ..v } && act == Action::Nothing,
        Effect::PageDown => n == AppView { selected: sel_page_down(v), ..v } && act == Action::Nothing,
        Effect::Top => n == AppView { selected: sel_top(v), ..v } && act == Action::Nothing,
        Effect::Bottom => n == AppView { selected: sel_bottom(v), ..v } && act == Action::Nothing,
        Effect::OpenPopup => n == AppView {
            tag_popup: Some(PopupView { filter: seq![], tags: popup_candidates(v.all_tags), selected: 0 }),
            ..v
        } && act == Action::Nothing,
        Effect::Select => match selected_entry_of(v) {
            None => n == v && act == Action::Nothing,
            Some(i) => match v.mode {
                ModeView::Browse => n == v && act == Action::Open(i),
                ModeView::Cite(format) => n == AppView {
                    pending_output: Some(citation_of(format, v.entries[i as int].dir_name)),
                    should_quit: true,
                    ..v
                } && act == Action::Nothing,
            },
        },
        Effect::Edit => n == v && act == match selected_entry_of(v) {
            Some(i) => Action::Edit(i),
            None => Action::Nothing,
        },
        Effect::CopyBib => n == v && act == match selected_entry_of(v) {
            Some(i) => Action::CopyBib(i),
            None => Action::Nothing,
        },
    }
}

/// Removes the last character of a string, if any.
fn pop_char(s: &mut String)
    ensures
        final(s)@ == pop_last(old(s)@),
{
    let v = chars_of(s.as_str());
    if v.len() > 0 {
        let w = slice_chars(&v, 0, v.len() - 1);
        *s = string_of(&w);
    }
}

/// The positions `0, 1, ..., n - 1`.
fn all_indices(n: usize) -> (r: Vec<usize>)
    ensures
        r@.len() == n,
        forall|x: int| 0 <= x < n ==> #[trigger] r@[x] == x,
{
    let mut r: Vec<usize> = Vec::new();
    for i in 0..n
        invariant
            r@.len() == i,
            forall|x: int| 0 <= x < i ==> #[trigger] r@[x] == x,
    {
        r.push(i);
    }
    r
}

/// The list of every entry in library order is the list that no tag filter and an
/// empty search leave.
proof fn lemma_unfiltered(r: Seq<usize>, es: Seq<EntryView>, filter: Seq<char>)
    requires
        r.len() == es.len(),
        forall|x: int| 0 <= x < es.len() ==> #[trigger] r[x] == x,
        filter.len() == 0,
    ensures
        filtered_ok(r, es, None, filter),
{
    assert forall|i: int| 0 <= i < es.len() && entry_shown(#[trigger] es[i], None, filter) implies r.contains(i as usize) by {
        assert(r[i] == i);
    }
}

impl AppState {
    /// The browser over `entries`: the search pre-filled with `initial_query`,
    /// every tag of the library offered, typing into the search, and the first
    /// entry of the list selected when there is one.
    pub fn new(entries: Vec<Entry>, mode: Mode, initial_query: Option<&str>, layout: LayoutMode) -> (app: AppState)
        requires
            entries_fit(entries_view(entries@)),
            match initial_query {
                Some(q) => search_fits(q@),
                None => true,
            },
        ensures
            app_wf(app@),
            app_fits(app@),
            app@.entries == entries_view(entries@),
            app@.filter == (match initial_query {
                Some(q) => q@,
                None => Seq::<char>::empty(),
            }),
            app@.mode == mode@,
            app@.input_mode == InputMode::Insert,
            !app@.should_quit,
            app@.pending_output is None,
            app@.tag_filter is None,
            strictly_sorted(app@.all_tags),
            forall|t: Seq<char>| app@.all_tags.contains(t) <==> some_entry_has_tag(app@.entries, t),
            app@.tag_popup is None,
            app@.layout == layout,
            app@.last_insert_ms is None,
            rebuilt(app@),
    {
        let filter = match initial_query {
            Some(q) => owned(q),
            None => String::new(),
        };
        let all_tags = collect_tags(&entries);
        let n = entries.len();
        let filtered_indices = all_indices(n);
        let mut app = AppState {
            entries,
            filtered_indices,
            filter,
            selected: None,
            mode,
            input_mode: InputMode::Insert,
            should_quit: false,
            pending_output: None,
            tag_filter: None,
            all_tags,
            tag_popup: None,
            layout,
            last_insert_ms: None,
        };
        if app.filter.unicode_len() != 0 {
            app.rebuild_filter();
        } else {
            proof {
                lemma_unfiltered(app.filtered_indices@, app@.entries, app.filter@);
            }
        }
        if app.filtered_indices.len() != 0 {
            app.selected = Some(0);
        }
        app
    }

    /// Recomputes the list for the current tag filter and search, and selects its
    /// first entry (or nothing when it is empty).
    pub fn rebuild_filter(&mut self)
        requires
            app_fits(old(self)@),
        ensures
            final(self)@ == (AppView {
                filtered: final(self)@.filtered,
                selected: final(self)@.selected,
                ..old(self)@
            }),
            rebuilt(final(self)@),
    {
        let r = ranked_entries(&self.entries, &self.tag_filter, &self.filter);
        self.filtered_indices = r;
        if self.filtered_indices.len() == 0 {
            self.selected = None;
        } else {
            self.selected = Some(0);
        }
    }

    /// The position in the library of the selected entry.
    pub fn selected_entry(&self) -> (r: Option<usize>)
        ensures
            r == selected_entry_of(self@),
    {
        match self.selected {
            Some(k) => if k < self.filtered_indices.len() && self.filtered_indices[k] < self.entries.len() {
                Some(self.filtered_indices[k])
            } else {
                None
            },
            None => None,
        }
    }

    /// Moves the selection one up, stopping at the top.
    pub fn move_up(&mut self)
        ensures
            final(self)@ == (AppView { selected: sel_up(old(self)@), ..old(self)@ }),
    {
        if self.filtered_indices.len() == 0 {
            return;
        }
        let i = match self.selected {
            Some(i) => if i == 0 {
                0
            } else {
                i - 1
            },
            None => 0,
        };
        self.selected = Some(i);
    }

    /// Moves the selection one down, stopping at the bottom.
    pub fn move_down(&mut self)
        ensures
            final(self)@ == (AppView { selected: sel_down(old(self)@), ..old(self)@ }),
    {
        if self.filtered_indices.len() == 0 {
            return;
        }
        let last = self.filtered_indices.len() - 1;
        let i = match self.selected {
            Some(i) => if i >= last {
                last
            } else {
                i + 1
            },
            None => 0,
        };
        self.selected = Some(i);
    }

    /// Moves the selection twenty entries up, stopping at the top.
    pub fn page_up(&mut self)
        ensures
            final(self)@ == (AppView { selected: sel_page_up(old(self)@), ..old(self)@ }),
    {
        if self.filtered_indices.len() == 0 {
            return;
        }
        let i = match self.selected {
            Some(i) => i,
            None => 0,
        };
        self.selected = Some(if i >= 20 {
            i - 20
        } else {
            0
        });
    }

    /// Moves the selection twenty entries down, stopping at the bottom.
    pub fn page_down(&mut self)
        ensures
            final(self)@ == (AppView { selected: sel_page_down(old(self)@), ..old(self)@ }),
    {
        if self.filtered_indices.len() == 0 {
            return;
        }
        let i = match self.selected {
            Some(i) => i,
            None => 0,
        };
        let max = self.filtered_indices.len() - 1;
        self.selected = Some(if i >= max || max - i <= 20 {
            max
        } else {
            i + 20
        });
    }

    /// Selects the first entry of the list.
    pub fn move_to_top(&mut self)
        ensures
            final(self)@ == (AppView { selected: sel_top(old(self)@), ..old(self)@ }),
    {
        if self.filtered_indices.len() != 0 {
            self.selected = Some(0);
        }
    }

    /// Selects the last entry of the list.
    pub fn move_to_bottom(&mut self)
        ensures
            final(self)@ == (AppView { selected: sel_bottom(old(self)@), ..old(self)@ }),
    {
        if self.filtered_indices.len() != 0 {
            self.selected = Some(self.filtered_indices.len() - 1);
        }
    }

    /// Whether a `k` now completes the `jk` escape from the search.
    fn in_jk_window(&self, now_ms: u64) -> (b: bool)
        ensures
            b == jk_window(self@, now_ms),
    {
        let recent = match self.last_insert_ms {
            Some(t) => now_ms < t || now_ms - t < 500,
            None => false,
        };
        let n = self.filter.unicode_len();
        recent && n > 0 && self.filter.get_char(n - 1) == 'j'
    }

    /// What a key press does in the current state.
    pub fn key_effect(&self, key: Key, now_ms: u64) -> (e: Effect)
        ensures
            e == dispatch(self@, key, now_ms),
    {
        if self.tag_popup.is_some() {
            match key.code {
                KeyCode::Esc => Effect::PopupClose,
                KeyCode::Up => Effect::PopupUp,
                KeyCode::Down => Effect::PopupDown,
                KeyCode::Backspace => Effect::PopupBackspace,
                KeyCode::Char(c) => Effect::PopupType(c),
                KeyCode::Enter => Effect::PopupChoose,
                _ => Effect::Ignore,
            }
        } else if self.input_mode == InputMode::Insert {
            match key.code {
                KeyCode::Esc => Effect::ToNormal,
                KeyCode::Char(c) => if c == 'c' && key.mods == Mods::Control {
                    Effect::Quit
                } else if c == 'k' && key.mods == Mods::Plain && self.in_jk_window(now_ms) {
                    Effect::EscapeJk
                } else if key.mods == Mods::Plain || key.mods == Mods::Shift {
                    Effect::Type(c)
                } else if key.mods == Mods::Control {
                    if c == 'p' {
                        Effect::Up
                    } else if c == 'n' {
                        Effect::Down
                    } else if c == 'b' {
                        Effect::PageUp
                    } else if c == 'f' {
                        Effect::PageDown
                    } else {
                        Effect::Ignore
                    }
                } else {
                    Effect::Ignore
                },
                KeyCode::Backspace => Effect::Backspace,
                KeyCode::Up => Effect::Up,
                KeyCode::Down => Effect::Down,
                KeyCode::Tab => Effect::OpenPopup,
                KeyCode::Enter => Effect::Select,
                _ => Effect::Ignore,
            }
        } else {
            match key.code {
                KeyCode::Esc => Effect::Quit,
                KeyCode::Down => Effect::Down,
                KeyCode::Up => Effect::Up,
                KeyCode::Tab => Effect::OpenPopup,
                KeyCode::Enter => Effect::Select,
                KeyCode::Char(c) => if key.mods == Mods::Plain {
                    if c == 'q' {
                        Effect::Quit
                    } else if c == '/' || c == 'i' {
                        Effect::ToInsert
                    } else if c == 'j' {
                        Effect::Down
                    } else if c == 'k' {
                        Effect::Up
                    } else if c == 'g' {
                        Effect::Top
                    } else if c == 'G' {
                        Effect::Bottom
                    } else if c == 'e' {
                        Effect::Edit
                    } else if c == 'y' {
                        Effect::CopyBib
                    } else {
                        Effect::Ignore
                    }
                } else if key.mods == Mods::Control {
                    if c == 'c' {
                        Effect::Quit
                    } else if c == 'n' {
                        Effect::Down
                    } else if c == 'p' {
                        Effect::Up
                    } else if c == 'b' {
                        Effect::PageUp
                    } else if c == 'f' {
                        Effect::PageDown
                    } else {
                        Effect::Ignore
                    }
                } else if key.mods == Mods::Shift && c == 'G' {
                    Effect::Bottom
                } else {
                    Effect::Ignore
                },
                _ => Effect::Ignore,
            }
        }
    }
}

impl AppState {
    /// Applies a key press to the tag picker.
    fn popup_step(&mut self, e: Effect)
        requires
            app_wf(old(self)@),
            app_fits(old(self)@),
            old(self)@.tag_popup is Some,
            e is PopupClose || e is PopupUp || e is PopupDown || e is PopupBackspace || e is PopupType
                || e is PopupChoose,
        ensures
            app_wf(final(self)@),
            step_ok(old(self)@, final(self)@, e, 0, Action::Nothing),
    {
        let ghost v = self@;
        let taken = self.tag_popup.take();
        let mut p = match taken {
            Some(p) => p,
            None => {
                return;
            },
        };
        match e {
            Effect::PopupClose => {},
            Effect::PopupUp => {
                p.move_up();
                self.tag_popup = Some(p);
            },
            Effect::PopupDown => {
                p.move_down();
                self.tag_popup = Some(p);
            },
            Effect::PopupBackspace => {
                pop_char(&mut p.filter);
                p.rebuild(&self.all_tags);
                self.tag_popup = Some(p);
            },
            Effect::PopupType(c) => {
                push_char(&mut p.filter, c);
                p.rebuild(&self.all_tags);
                self.tag_popup = Some(p);
            },
            _ => {
                let tag = p.selected_tag();
                let filter = match tag {
                    Some(t) => if str_eq(t.as_str(), "(all)") {
                        None
                    } else {
                        Some(t)
                    },
                    None => None,
                };
                self.tag_filter = filter;
                self.rebuild_filter();
            },
        }
    }

    /// What choosing the selected entry does: in the browser, ask for its PDF to
    /// be opened; when citing, keep its key in the requested format and quit.
    fn select_step(&mut self) -> (act: Action)
        requires
            app_wf(old(self)@),
        ensures
            app_wf(final(self)@),
            step_ok(old(self)@, final(self)@, Effect::Select, 0, act),
    {
        match self.selected_entry() {
            None => Action::Nothing,
            Some(i) => match &self.mode {
                Mode::Browse => Action::Open(i),
                Mode::Cite { format } => {
                    let out = format_citation(format.as_str(), self.entries[i].dir_name.as_str());
                    proof {
                        assert(self@.entries[i as int] == self.entries@[i as int]@);
                    }
                    self.pending_output = Some(out);
                    self.should_quit = true;
                    Action::Nothing
                },
            },
        }
    }

    /// Applies a key press to the browser, at `now_ms` milliseconds on a steady
    /// clock, and says what the program around it has to do.
    pub fn handle_key(&mut self, key: Key, now_ms: u64) -> (act: Action)
        requires
            app_wf(old(self)@),
            app_fits(old(self)@),
            match dispatch(old(self)@, key, now_ms) {
                Effect::Type(c) => search_fits(old(self)@.filter.push(c)),
                _ => true,
            },
        ensures
            app_wf(final(self)@),
            app_fits(final(self)@),
            step_ok(old(self)@, final(self)@, dispatch(old(self)@, key, now_ms), now_ms, act),
    {
        let e = self.key_effect(key, now_ms);
        match e {
            Effect::Ignore => Action::Nothing,
            Effect::PopupClose | Effect::PopupUp | Effect::PopupDown | Effect::PopupBackspace
            | Effect::PopupType(_) | Effect::PopupChoose => {
                self.popup_step(e);
                Action::Nothing
            },
            Effect::ToNormal => {
                self.input_mode = InputMode::Normal;
                self.last_insert_ms = None;
                Action::Nothing
            },
            Effect::ToInsert => {
                self.input_mode = InputMode::Insert;
                Action::Nothing
            },
            Effect::Quit => {
                self.should_quit = true;
                Action::Nothing
            },
            Effect::EscapeJk => {
                pop_char(&mut self.filter);
                self.rebuild_filter();
                self.input_mode = InputMode::Normal;
                self.last_insert_ms = None;
                Action::Nothing
            },
            Effect::Type(c) => {
                self.last_insert_ms = Some(now_ms);
                push_char(&mut self.filter, c);
                self.rebuild_filter();
                Action::Nothing
            },
            Effect::Backspace => {
                pop_char(&mut self.filter);
                self.rebuild_filter();
                self.last_insert_ms = None;
                Action::Nothing
            },
            Effect::Up => {
                self.move_up();
                Action::Nothing
            },
            Effect::Down => {
                self.move_down();
                Action::Nothing
            },
            Effect::PageUp => {
                self.page_up();
                Action::Nothing
            },
            Effect::PageDown => {
                self.page_down();
                Action::Nothing
            },
            Effect::Top => {
                self.move_to_top();
                Action::Nothing
            },
            Effect::Bottom => {
                self.move_to_bottom();
                Action::Nothing
            },
            Effect::OpenPopup => {
                let p = TagPopup::new(&self.all_tags);
                proof {
                    assert(p@.filter =~= Seq::<char>::empty());
                }
                self.tag_popup = Some(p);
                Action::Nothing
            },
            Effect::Select => self.select_step(),
            Effect::Edit => match self.selected_entry() {
                Some(i) => Action::Edit(i),
                None => Action::Nothing,
            },
            Effect::CopyBib => match self.selected_entry() {
                Some(i) => Action::CopyBib(i),
                None => Action::Nothing,
            },
        }
    }

    /// Puts the metadata read back after editing into entry `idx`, with its new
    /// one-line summary; the list itself stays as it was.
    pub fn refresh_entry(&mut self, idx: usize, reference: Reference)
        requires
            idx < old(self)@.entries.len(),
            line_fits(display_of(reference@)),
        ensures
            app_fits(old(self)@) ==> app_fits(final(self)@),
            final(self)@ == (AppView {
                entries: old(self)@.entries.update(
                    idx as int,
                    EntryView {
                        dir_name: old(self)@.entries[idx as int].dir_name,
                        reference: reference@,
                        display: display_of(reference@),
                    },
                ),
                ..old(self)@
            }),
    {
        let display = display_line(&reference);
        let dir_name = owned(self.entries[idx].dir_name.as_str());
        let ghost old_entries = self.entries@;
        self.entries.set(idx, Entry { dir_name, reference, display });
        proof {
            assert(entries_view(self.entries@) =~= entries_view(old_entries).update(
                idx as int,
                EntryView {
                    dir_name: old_entries[idx as int]@.dir_name,
                    reference: reference@,
                    display: display_of(reference@),
                },
            ));
        }
    }
}

impl AppState {
    /// Whether the browser can take this key: a character that would begin a
    /// search word beyond what the matcher takes is refused.
    pub fn accepts_key(&self, key: Key, now_ms: u64) -> (b: bool)
        ensures
            b == match dispatch(self@, key, now_ms) {
                Effect::Type(c) => search_fits(self@.filter.push(c)),
                _ => true,
            },
    {
        match self.key_effect(key, now_ms) {
            Effect::Type(c) => {
                let mut v = chars_of(self.filter.as_str());
                v.push(c);
                count_space_words(&v) <= 65537
            },
            _ => true,
        }
    }

    /// The BibTeX entry of entry `i`, keyed by its directory name: what the
    /// browser copies for `y`.
    pub fn bibtex_at(&self, i: usize) -> (b: String)
        requires
            i < self@.entries.len(),
        ensures
            b@ == bibtex_of(self@.entries[i as int].dir_name, self@.entries[i as int].reference),
    {
        assert(self@.entries[i as int] == self.entries@[i as int]@);
        bibtex_entry(self.entries[i].dir_name.as_str(), &self.entries[i].reference)
    }
}

/// In the list (not typing, no tag picker open), `y` asks to copy the BibTeX
/// entry of the selected reference, and of nothing when none is selected; the
/// browser itself does not change.
pub proof fn y_copies_the_selected_bibtex(v: AppView, n: AppView, now: u64, act: Action)
    requires
        v.tag_popup is None,
        v.input_mode == InputMode::Normal,
        step_ok(v, n, dispatch(v, Key { code: KeyCode::Char('y'), mods: Mods::Plain }, now), now, act),
    ensures
        n == v,
        act == match selected_entry_of(v) {
            Some(i) => Action::CopyBib(i),
            None => Action::Nothing,
        },
        act matches Action::CopyBib(i) ==> (i as int) < v.entries.len(),
{
}

/// Starts picking a reference to cite: an error when the library is empty, else
/// the browser over its entries, waiting for keys.
pub fn cite(entries: Vec<Entry>, format: &str, layout: LayoutMode) -> (r: Result<AppState, String>)
    requires
        entries_fit(entries_view(entries@)),
    ensures
        match r {
            Err(m) => entries@.len() == 0 && m@ == "Library is empty"@,
            Ok(app) => entries@.len() > 0 && app_wf(app@) && app_fits(app@) && app@.entries == entries_view(entries@)
                && app@.mode == ModeView::Cite(format@) && app@.filter.len() == 0
                && app@.input_mode == InputMode::Insert && !app@.should_quit && app@.pending_output is None
                && app@.tag_filter is None && app@.tag_popup is None && app@.layout == layout
                && app@.last_insert_ms is None && rebuilt(app@),
        },
{
    if entries.len() == 0 {
        return Err(owned("Library is empty"));
    }
    Ok(AppState::new(entries, Mode::Cite { format: owned(format) }, None, layout))
}

/// Starts browsing: nothing when the library is empty, else the browser over its
/// entries with the search pre-filled.
pub fn browse(entries: Vec<Entry>, initial_query: Option<&str>, layout: LayoutMode) -> (r: Option<AppState>)
    requires
        entries_fit(entries_view(entries@)),
        match initial_query {
            Some(q) => search_fits(q@),
            None => true,
        },
    ensures
        match r {
            None => entries@.len() == 0,
            Some(app) => entries@.len() > 0 && app_wf(app@) && app_fits(app@) && app@.entries == entries_view(entries@)
                && app@.mode == ModeView::Browse && app@.filter == (match initial_query {
                    Some(q) => q@,
                    None => Seq::<char>::empty(),
                }) && app@.input_mode == InputMode::Insert && !app@.should_quit && app@.pending_output is None
                && app@.tag_filter is None && app@.tag_popup is None && app@.layout == layout
                && app@.last_insert_ms is None && rebuilt(app@),
        },
{
    if entries.len() == 0 {
        return None;
    }
    Some(AppState::new(entries, Mode::Browse, initial_query, layout))
}

/// A page is twenty entries: on a list of `n` entries with the selection at `i`
/// (none counting as the first), a page down selects the smaller of `i + 20` and
/// the last entry, and a page up the larger of `i - 20` and the first entry. On
/// an empty list neither moves the selection.
pub proof fn pages_move_twenty_entries(v: AppView)
    requires
        v.filtered.len() <= usize::MAX,
    ensures
        v.filtered.len() == 0 ==> sel_page_down(v) == v.selected && sel_page_up(v) == v.selected,
        v.filtered.len() > 0 ==> ({
            let i: int = match v.selected {
                Some(i) => i as int,
                None => 0,
            };
            let last: int = v.filtered.len() - 1;
            &&& sel_page_down(v) matches Some(d) && d <= i + 20 && d <= last && (d == i + 20 || d == last)
            &&& sel_page_up(v) matches Some(u) && u >= i - 20 && u >= 0 && (u == i - 20 || u == 0)
        }),
{
}

/// Every key press keeps the list what the filters select: when the list shown
/// matches the entries, the tag filter and the search before a key, it matches
/// them after it.
pub proof fn key_keeps_list_consistent(v: AppView, n: AppView, key: Key, now: u64, act: Action)
    requires
        app_wf(v),
        filtered_ok(v.filtered, v.entries, v.tag_filter, v.filter),
        step_ok(v, n, dispatch(v, key, now), now, act),
    ensures
        filtered_ok(n.filtered, n.entries, n.tag_filter, n.filter),
{
}

/// Typing a character into the search and deleting it again gives back the
/// search, the list and the selection.
pub proof fn type_then_backspace(
    v: AppView,
    n1: AppView,
    n2: AppView,
    c: char,
    t1: u64,
    t2: u64,
    a1: Action,
    a2: Action,
)
    requires
        v.entries.len() <= usize::MAX,
        rebuilt(v),
        step_ok(v, n1, Effect::Type(c), t1, a1),
        step_ok(n1, n2, Effect::Backspace, t2, a2),
    ensures
        n2.filter == v.filter,
        n2.filtered == v.filtered,
        n2.selected == v.selected,
        n2.entries == v.entries,
        n2.tag_filter == v.tag_filter,
        a1 == Action::Nothing,
        a2 == Action::Nothing,
{
    assert(n1.filter.len() > 0);
    assert(pop_last(n1.filter) =~= v.filter);
    filtered_list_unique(n2.filtered, v.filtered, v.entries, v.tag_filter, v.filter);
}

/// Typing `j` and then, within half a second, `k` into the search goes back to
/// moving through the list, with the search and the list as they were before the `j`.
pub proof fn jk_escapes(v: AppView, n1: AppView, n2: AppView, t1: u64, t2: u64, a1: Action, a2: Action)
    requires
        v.entries.len() <= usize::MAX,
        rebuilt(v),
        v.tag_popup is None,
        v.input_mode == InputMode::Insert,
        t1 <= t2 < t1 + 500,
        step_ok(v, n1, dispatch(v, Key { code: KeyCode::Char('j'), mods: Mods::Plain }, t1), t1, a1),
        step_ok(n1, n2, dispatch(n1, Key { code: KeyCode::Char('k'), mods: Mods::Plain }, t2), t2, a2),
    ensures
        n2.input_mode == InputMode::Normal,
        n2.filter == v.filter,
        n2.filtered == v.filtered,
        n2.selected == v.selected,
{
    let j = Key { code: KeyCode::Char('j'), mods: Mods::Plain };
    let k = Key { code: KeyCode::Char('k'), mods: Mods::Plain };
    assert(dispatch(v, j, t1) == Effect::Type('j'));
    assert(n1.filter == v.filter.push('j'));
    assert(jk_window(n1, t2));
    assert(dispatch(n1, k, t2) == Effect::EscapeJk);
    assert(pop_last(n1.filter) =~= v.filter);
    filtered_list_unique(n2.filtered, v.filtered, v.entries, v.tag_filter, v.filter);
}

} // verus!
