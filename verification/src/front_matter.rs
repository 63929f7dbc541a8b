//! Title and front-matter post-pass for books whose chapters were produced
//! by the plain-text (TXT/RTF) and DOCX pipelines.
//!
//! - the book title comes from the first paragraph when it reads like a
//!   title page ("Sample Book" directly followed by "by Test Author"); that
//!   front matter is removed from the first chapter body;
//! - a placeholder first chapter ("Chapter 1" / "Full Text") that survives
//!   is retitled with the book title;
//! - empty chapters are removed and ids renumbered;
//! - trailing junk paragraphs (page numbers like "42", "- 42 -",
//!   "Page 42") are dropped from the last chapter.
//!
//! Lower-casing (`to_lowercase`) is only ever compared against lower-case
//! ASCII literals here, which `text::lower_is` / `text::lower_starts_with`
//! decide character by character.
use vstd::prelude::*;
use crate::text;
use crate::html_text;
use crate::oeb::{OebBook, OebChapter, ChapterModel, BookModel};

verus! {

// ──────────────────────────────────────────────────────────────────────────
// Line classifiers
// ──────────────────────────────────────────────────────────────────────────

/// Generated placeholder chapter titles ("Chapter 1", "Full Text",
/// "Document", "Untitled"), and a missing title.
pub open spec fn spec_placeholder_title(title: Option<Seq<char>>) -> bool {
    match title {
        None => true,
        Some(t) => {
            let l = text::trim(t);
            ||| text::lower_is(l, "full text"@)
            ||| text::lower_is(l, "document"@)
            ||| text::lower_is(l, "untitled"@)
            ||| (text::lower_starts_with(l, "chapter "@) && l.len() > "chapter "@.len()
                && text::all_digits(l.skip("chapter "@.len() as int)))
        },
    }
}

/// True for generated placeholder chapter titles that never make good book
/// titles.
pub fn placeholder_title(title: Option<&str>) -> (r: bool)
    ensures
        r == spec_placeholder_title(
            match title {
                Some(t) => Some(t@),
                None => None,
            },
        ),
{
    let t = match title {
        None => return true,
        Some(t) => t,
    };
    let c = text::chars_of(t);
    let l = text::trim_chars(&c);
    if text::lower_is_exec(&l, &text::chars_of("full text")) || text::lower_is_exec(
        &l,
        &text::chars_of("document"),
    ) || text::lower_is_exec(&l, &text::chars_of("untitled")) {
        return true;
    }
    let ch = text::chars_of("chapter ");
    if text::lower_starts_with_exec(&l, &ch) && l.len() > ch.len() {
        let rest = text::slice_chars(&l, ch.len(), l.len());
        return text::all_digits_exec(&rest);
    }
    false
}

/// The text opens with an `<h1>`..`<h6>` element.
pub open spec fn opens_heading(t: Seq<char>) -> bool {
    ||| text::starts_with(t, "<h1"@)
    ||| text::starts_with(t, "<h2"@)
    ||| text::starts_with(t, "<h3"@)
    ||| text::starts_with(t, "<h4"@)
    ||| text::starts_with(t, "<h5"@)
    ||| text::starts_with(t, "<h6"@)
}

fn opens_heading_exec(t: &Vec<char>) -> (r: bool)
    ensures
        r == opens_heading(t@),
{
    text::starts_with_exec(t, &text::chars_of("<h1")) || text::starts_with_exec(
        t,
        &text::chars_of("<h2"),
    ) || text::starts_with_exec(t, &text::chars_of("<h3")) || text::starts_with_exec(
        t,
        &text::chars_of("<h4"),
    ) || text::starts_with_exec(t, &text::chars_of("<h5")) || text::starts_with_exec(
        t,
        &text::chars_of("<h6"),
    )
}

/// Whether a chapter body opens with a real (authored) heading element.
pub open spec fn spec_body_starts_with_heading(html: Seq<char>) -> bool {
    opens_heading(text::trim_start(html))
}

/// Whether a chapter body opens with a real (authored) heading element.
pub fn body_starts_with_heading(html: &str) -> (r: bool)
    ensures
        r == spec_body_starts_with_heading(html@),
{
    let c = text::chars_of(html);
    let (lo, _) = text::trim_bounds(&c);
    let t = text::slice_chars(&c, lo, c.len());
    opens_heading_exec(&t)
}

/// Ends with sentence or clause punctuation.
pub open spec fn ends_like_sentence(t: Seq<char>) -> bool {
    t.len() > 0 && (t.last() == '.' || t.last() == '!' || t.last() == '?' || t.last() == ':'
        || t.last() == ';' || t.last() == '…')
}

/// A title candidate: short (at most 60 characters), no sentence-ending
/// punctuation, and not a chapter/section heading.
pub open spec fn spec_title_candidate(s: Seq<char>) -> bool {
    let t = text::trim(s);
    t.len() > 0 && t.len() <= 60 && !ends_like_sentence(t) && !html_text::spec_looks_like_heading(
        t,
    )
}

/// A title candidate (see [`spec_title_candidate`]).
pub fn title_candidate(s: &str) -> (r: bool)
    ensures
        r == spec_title_candidate(s@),
{
    let c = text::chars_of(s);
    let t = text::trim_chars(&c);
    if t.len() == 0 || t.len() > 60 {
        return false;
    }
    let last = t[t.len() - 1];
    if last == '.' || last == '!' || last == '?' || last == ':' || last == ';' || last == '…' {
        return false;
    }
    !html_text::looks_like_heading_chars(&t)
}

/// "by Test Author" → the trimmed author ("by " matched ignoring ASCII
/// case); `None` when the prefix is missing or nothing follows it.
pub open spec fn spec_author_from_by_line(s: Seq<char>) -> Option<Seq<char>> {
    let t = text::trim(s);
    if t.len() >= 3 && (t[0] == 'b' || t[0] == 'B') && (t[1] == 'y' || t[1] == 'Y') && t[2]
        == ' ' {
        let a = text::trim(t.skip(3));
        if a.len() > 0 {
            Some(a)
        } else {
            None
        }
    } else {
        None
    }
}

/// "by Test Author" → Some("Test Author").
pub fn author_from_by_line(s: &str) -> (r: Option<String>)
    ensures
        opt_chars(r) == spec_author_from_by_line(s@),
{
    let c = text::chars_of(s);
    let t = text::trim_chars(&c);
    if t.len() >= 3 && (t[0] == 'b' || t[0] == 'B') && (t[1] == 'y' || t[1] == 'Y') && t[2]
        == ' ' {
        let rest = text::slice_chars(&t, 3, t.len());
        let a = text::trim_chars(&rest);
        if a.len() > 0 {
            Some(text::string_of(&a))
        } else {
            None
        }
    } else {
        None
    }
}

pub open spec fn opt_chars(o: Option<String>) -> Option<Seq<char>> {
    match o {
        Some(s) => Some(s@),
        None => None,
    }
}

/// Characters allowed around the digits of a bare page number.
pub open spec fn page_number_char(c: char) -> bool {
    text::is_ascii_digit(c) || text::is_ws(c) || c == '.' || c == ',' || c == '-' || c == '—'
        || c == '–' || c == '(' || c == ')' || c == '·' || c == '|'
}

/// The text (lower-cased) opens with the label and continues with a
/// non-empty run of digits (after trimming).
pub open spec fn page_label(t: Seq<char>, label: Seq<char>) -> bool {
    text::lower_starts_with(t, label) && text::trim(t.skip(label.len() as int)).len() > 0
        && text::all_digits(text::trim(t.skip(label.len() as int)))
}

/// Page-number-ish line: "42", "- 42 -", "(42)", "Page 42", "p. 42", … and
/// the empty line.
pub open spec fn spec_is_junk_line(s: Seq<char>) -> bool {
    let t = text::trim(s);
    if t.len() == 0 {
        true
    } else if t.len() > 16 {
        false
    } else {
        ||| page_label(t, "page "@)
        ||| page_label(t, "p. "@)
        ||| page_label(t, "pg. "@)
        ||| ((exists|i: int| 0 <= i < t.len() && text::is_ascii_digit(#[trigger] t[i]))
            && forall|i: int| 0 <= i < t.len() ==> page_number_char(#[trigger] t[i]))
    }
}

fn page_label_exec(t: &Vec<char>, label: &str) -> (r: bool)
    ensures
        r == page_label(t@, label@),
{
    let l = text::chars_of(label);
    if !text::lower_starts_with_exec(t, &l) {
        return false;
    }
    let rest = text::slice_chars(t, l.len(), t.len());
    assert(rest@ =~= t@.skip(l@.len() as int));
    let r = text::trim_chars(&rest);
    r.len() > 0 && text::all_digits_exec(&r)
}

/// Page-number-ish line (see [`spec_is_junk_line`]).
pub fn is_junk_line_chars(s: &Vec<char>) -> (r: bool)
    ensures
        r == spec_is_junk_line(s@),
{
    let t = text::trim_chars(s);
    if t.len() == 0 {
        return true;
    }
    if t.len() > 16 {
        return false;
    }
    if page_label_exec(&t, "page ") || page_label_exec(&t, "p. ") || page_label_exec(&t, "pg. ") {
        return true;
    }
    let mut any_digit = false;
    let mut i: usize = 0;
    while i < t.len()
        invariant
            i <= t.len(),
            any_digit == exists|j: int| 0 <= j < i && text::is_ascii_digit(#[trigger] t@[j]),
            t@ == text::trim(s@),
            0 < t.len() <= 16,
            !page_label(t@, "page "@),
            !page_label(t@, "p. "@),
            !page_label(t@, "pg. "@),
            forall|j: int| 0 <= j < i ==> page_number_char(#[trigger] t@[j]),
        decreases t.len() - i,
    {
        let c = t[i];
        if !(('0' <= c && c <= '9') || text::is_whitespace(c) || c == '.' || c == ',' || c == '-'
            || c == '—' || c == '–' || c == '(' || c == ')' || c == '·' || c == '|') {
            return false;
        }
        if '0' <= c && c <= '9' {
            any_digit = true;
        }
        i += 1;
    }
    any_digit
}

/// Page-number-ish line (see [`spec_is_junk_line`]).
pub fn is_junk_line(s: &str) -> (r: bool)
    ensures
        r == spec_is_junk_line(s@),
{
    is_junk_line_chars(&text::chars_of(s))
}

/// An inferred title is unusable when it is a generated placeholder
/// or reads like a section heading ("Chapter One", "Part II", "Prologue").
pub open spec fn spec_bad_inferred_title(title: Seq<char>) -> bool {
    let t = text::trim(title);
    spec_placeholder_title(Some(t)) || html_text::starts_with_section_keyword(t)
}

/// See [`spec_bad_inferred_title`].
pub fn bad_inferred_title(title: &str) -> (r: bool)
    ensures
        r == spec_bad_inferred_title(title@),
{
    let c = text::chars_of(title);
    let t = text::trim_chars(&c);
    let ts = text::string_of(&t);
    if placeholder_title(Some(ts.as_str())) {
        return true;
    }
    html_text::starts_with_section_keyword_exec(&t)
}

/// `_` and `-` become spaces.
pub open spec fn dashes_to_spaces(s: Seq<char>) -> Seq<char> {
    s.map_values(|c: char| if c == '_' || c == '-' {
        ' '
    } else {
        c
    })
}

/// Fallback book title from the file name stem: `_` and `-` become spaces;
/// no (or an empty) stem gives `Untitled`.
pub open spec fn spec_filename_stem(stem: Option<Seq<char>>) -> Seq<char> {
    match stem {
        Some(s) => if s.len() > 0 {
            dashes_to_spaces(s)
        } else {
            "Untitled"@
        },
        None => "Untitled"@,
    }
}

/// Fallback book title from the file name stem.
pub fn filename_stem(stem: Option<&str>) -> (r: String)
    ensures
        r@ == spec_filename_stem(
            match stem {
                Some(s) => Some(s@),
                None => None,
            },
        ),
{
    match stem {
        Some(s) => {
            let c = text::chars_of(s);
            if c.len() == 0 {
                return String::from_str("Untitled");
            }
            let mut out: Vec<char> = Vec::new();
            let mut i: usize = 0;
            while i < c.len()
                invariant
                    i <= c.len(),
                    out@ == dashes_to_spaces(c@.take(i as int)),
                decreases c.len() - i,
            {
                let ch = c[i];
                out.push(if ch == '_' || ch == '-' { ' ' } else { ch });
                i += 1;
                assert(out@ =~= dashes_to_spaces(c@.take(i as int)));
            }
            assert(c@.take(c.len() as int) =~= c@);
            text::string_of(&out)
        },
        None => String::from_str("Untitled"),
    }
}

// ──────────────────────────────────────────────────────────────────────────
// Paragraph lines
// ──────────────────────────────────────────────────────────────────────────

/// The inner text of a one-line `<p>…</p>` element (the line trimmed).
pub open spec fn p_inner(t: Seq<char>) -> Option<Seq<char>> {
    if t.len() >= 7 && text::starts_with(t, "<p>"@) && text::ends_with(t, "</p>"@) {
        Some(t.subrange(3, t.len() - 4))
    } else {
        None
    }
}

fn p_inner_exec(t: &Vec<char>) -> (r: Option<Vec<char>>)
    ensures
        match r {
            Some(v) => p_inner(t@) == Some(v@),
            None => p_inner(t@) is None,
        },
{
    if t.len() >= 7 && text::starts_with_exec(t, &text::chars_of("<p>")) && text::ends_with_exec(
        t,
        &text::chars_of("</p>"),
    ) {
        Some(text::slice_chars(t, 3, t.len() - 4))
    } else {
        None
    }
}

/// A line that is a paragraph with non-empty plain text: (plain text, the
/// trimmed line). Heading lines are never paragraphs.
pub open spec fn para_of_line(line: Seq<char>) -> Option<(Seq<char>, Seq<char>)> {
    let t = text::trim(line);
    if opens_heading(t) {
        None
    } else {
        match p_inner(t) {
            None => None,
            Some(inner) => {
                let plain = text::trim(html_text::spec_strip_html_tags(inner));
                if plain.len() > 0 {
                    Some((plain, t))
                } else {
                    None
                }
            },
        }
    }
}

/// The paragraphs among the lines, in order.
pub open spec fn paragraphs(ls: Seq<Seq<char>>) -> Seq<(Seq<char>, Seq<char>)>
    decreases ls.len(),
{
    if ls.len() == 0 {
        Seq::empty()
    } else {
        match para_of_line(ls[0]) {
            Some(p) => seq![p] + paragraphs(ls.drop_first()),
            None => paragraphs(ls.drop_first()),
        }
    }
}

pub open spec fn pair_views(v: Seq<(String, String)>) -> Seq<(Seq<char>, Seq<char>)> {
    v.map_values(|p: (String, String)| (p.0@, p.1@))
}

fn para_of_line_exec(line: &Vec<char>) -> (r: Option<(Vec<char>, Vec<char>)>)
    ensures
        match r {
            Some(p) => para_of_line(line@) == Some((p.0@, p.1@)),
            None => para_of_line(line@) is None,
        },
{
    let t = text::trim_chars(line);
    if opens_heading_exec(&t) {
        return None;
    }
    match p_inner_exec(&t) {
        None => None,
        Some(inner) => {
            let stripped = html_text::strip_html_tags_chars(&inner);
            let plain = text::trim_chars(&stripped);
            if plain.len() > 0 {
                Some((plain, t))
            } else {
                None
            }
        },
    }
}

/// First non-empty `<p>` paragraphs of a chapter body as (plain text, exact
/// trimmed HTML line). Heading elements are skipped.
pub fn first_paragraphs(html: &str) -> (r: Vec<(String, String)>)
    ensures
        pair_views(r@) == paragraphs(text::lines(html@)),
{
    let c = text::chars_of(html);
    let ls = text::lines_of(&c);
    let ghost all = text::lines(html@);
    let mut out: Vec<(String, String)> = Vec::new();
    let mut i: usize = 0;
    assert(all.skip(0) =~= all);
    while i < ls.len()
        invariant
            i <= ls.len(),
            all == text::char_views(ls@),
            all == text::lines(html@),
            paragraphs(all) == pair_views(out@) + paragraphs(all.skip(i as int)),
        decreases ls.len() - i,
    {
        let ghost rest = all.skip(i as int);
        assert(rest[0] == ls@[i as int]@);
        assert(rest.drop_first() =~= all.skip(i + 1));
        let ghost prev = pair_views(out@);
        match para_of_line_exec(&ls[i]) {
            Some((plain, line)) => {
                out.push((text::string_of(&plain), text::string_of(&line)));
                assert(pair_views(out@) =~= prev.push((plain@, line@)));
                assert(prev + (seq![(plain@, line@)] + paragraphs(all.skip(i + 1))) =~= pair_views(
                    out@,
                ) + paragraphs(all.skip(i + 1)));
            },
            None => {},
        }
        i += 1;
    }
    assert(all.skip(i as int) =~= Seq::<Seq<char>>::empty());
    assert(pair_views(out@) + Seq::<(Seq<char>, Seq<char>)>::empty() =~= pair_views(out@));
    out
}

// ──────────────────────────────────────────────────────────────────────────
// Front matter
// ──────────────────────────────────────────────────────────────────────────

/// The body with the title-page lines removed: scanning the lines, the
/// pending line (first `line1`, then `line2` when it differs) is dropped
/// where it occurs before any other non-blank line; the first other
/// non-blank line ends the stripping. Kept lines are each followed by
/// `'\n'`.
pub open spec fn strip_fm_lines(
    ls: Seq<Seq<char>>,
    pending: Option<Seq<char>>,
    line1: Seq<char>,
    line2: Option<Seq<char>>,
) -> Seq<char>
    decreases ls.len(),
{
    if ls.len() == 0 {
        Seq::empty()
    } else {
        let line = ls[0];
        let t = text::trim(line);
        match pending {
            Some(want) => if t.len() > 0 && t == want {
                let next = if want == line1 && line2 is Some && line2 != Some(line1) {
                    line2
                } else {
                    None
                };
                strip_fm_lines(ls.drop_first(), next, line1, line2)
            } else if t.len() > 0 {
                line + seq!['\n'] + strip_fm_lines(ls.drop_first(), None, line1, line2)
            } else {
                line + seq!['\n'] + strip_fm_lines(ls.drop_first(), pending, line1, line2)
            },
            None => line + seq!['\n'] + strip_fm_lines(ls.drop_first(), None, line1, line2),
        }
    }
}

fn chars_eq(a: &Vec<char>, b: &Vec<char>) -> (r: bool)
    ensures
        r == (a@ == b@),
{
    if a.len() != b.len() {
        return false;
    }
    let r = text::starts_with_exec(a, b);
    assert(a@.take(b@.len() as int) =~= a@);
    r
}

fn opt_chars_eq(a: &Option<Vec<char>>, b: &Option<Vec<char>>) -> (r: bool)
    ensures
        r == (opt_vc(*a) == opt_vc(*b)),
{
    match (a, b) {
        (Some(x), Some(y)) => chars_eq(x, y),
        (None, None) => true,
        _ => false,
    }
}

pub open spec fn opt_vc(o: Option<Vec<char>>) -> Option<Seq<char>> {
    match o {
        Some(v) => Some(v@),
        None => None,
    }
}

fn clone_chars(v: &Vec<char>) -> (r: Vec<char>)
    ensures
        r@ == v@,
{
    text::slice_chars(v, 0, v.len())
}

fn clone_opt_chars(v: &Option<Vec<char>>) -> (r: Option<Vec<char>>)
    ensures
        opt_vc(r) == opt_vc(*v),
{
    match v {
        Some(x) => Some(clone_chars(x)),
        None => None,
    }
}

/// Remove the two front-matter lines from the leading paragraphs of a
/// chapter body. Later occurrences of the same text are kept.
pub fn strip_front_matter(html: &str, line1: &str, line2: Option<&str>) -> (r: String)
    ensures
        r@ == strip_fm_lines(
            text::lines(html@),
            Some(line1@),
            line1@,
            match line2 {
                Some(l) => Some(l@),
                None => None,
            },
        ),
{
    let c = text::chars_of(html);
    let ls = text::lines_of(&c);
    let l1 = text::chars_of(line1);
    let l2: Option<Vec<char>> = match line2 {
        Some(l) => Some(text::chars_of(l)),
        None => None,
    };
    let ghost g2 = opt_vc(l2);
    let ghost all = text::lines(html@);
    let mut pending: Option<Vec<char>> = Some(clone_chars(&l1));
    let mut out: Vec<char> = Vec::new();
    let mut i: usize = 0;
    assert(all.skip(0) =~= all);
    while i < ls.len()
        invariant
            i <= ls.len(),
            all == text::char_views(ls@),
            g2 == opt_vc(l2),
            strip_fm_lines(all, Some(l1@), l1@, g2) == out@ + strip_fm_lines(
                all.skip(i as int),
                opt_vc(pending),
                l1@,
                g2,
            ),
        decreases ls.len() - i,
    {
        let ghost rest = all.skip(i as int);
        assert(rest[0] == ls@[i as int]@);
        assert(rest.drop_first() =~= all.skip(i + 1));
        let ghost prev = out@;
        let line = &ls[i];
        let t = text::trim_chars(line);
        let mut drop = false;
        let mut next: Option<Vec<char>> = None;
        let mut keep_pending = false;
        match &pending {
            Some(want) => {
                if t.len() > 0 && chars_eq(&t, want) {
                    drop = true;
                    if chars_eq(want, &l1) && l2.is_some() && !opt_chars_eq(
                        &l2,
                        &Some(clone_chars(&l1)),
                    ) {
                        next = clone_opt_chars(&l2);
                    }
                } else if t.len() == 0 {
                    keep_pending = true;
                }
            },
            None => {},
        }
        if !keep_pending {
            pending = next;
        }
        if !drop {
            text::append_chars(&mut out, line);
            out.push('\n');
            assert(out@ =~= prev + (line@ + seq!['\n']));
        }
        i += 1;
    }
    assert(all.skip(i as int) =~= Seq::<Seq<char>>::empty());
    assert(out@ + Seq::<char>::empty() =~= out@);
    text::string_of(&out)
}

/// Front matter detected at the start of the book: a title paragraph and an
/// optional "by …" author line, with the exact HTML lines to remove from the
/// first chapter body.
#[derive(Debug)]
pub struct FrontMatter {
    pub title: String,
    pub author: Option<String>,
    pub line1: String,
    pub line2: Option<String>,
}

/// Spec value of detected front matter.
pub struct FrontMatterModel {
    pub title: Seq<char>,
    pub author: Option<Seq<char>>,
    pub line1: Seq<char>,
    pub line2: Option<Seq<char>>,
}

impl View for FrontMatter {
    type V = FrontMatterModel;

    open spec fn view(&self) -> FrontMatterModel {
        FrontMatterModel {
            title: self.title@,
            author: opt_chars(self.author),
            line1: self.line1@,
            line2: opt_chars(self.line2),
        }
    }
}

/// A title-page block in the first chapter. Only when the first chapter has
/// a generated placeholder title and opens with body text: its first
/// paragraph is a title candidate and its second a "by …" author line.
pub open spec fn spec_detect_front_matter(chs: Seq<ChapterModel>) -> Option<FrontMatterModel> {
    if chs.len() == 0 {
        None
    } else {
        let ch0 = chs[0];
        if !spec_placeholder_title(ch0.title) || spec_body_starts_with_heading(ch0.html) {
            None
        } else {
            let ps = paragraphs(text::lines(ch0.html));
            if ps.len() < 2 || !spec_title_candidate(ps[0].0) {
                None
            } else {
                match spec_author_from_by_line(ps[1].0) {
                    None => None,
                    Some(a) => Some(
                        FrontMatterModel {
                            title: ps[0].0,
                            author: Some(a),
                            line1: ps[0].1,
                            line2: Some(ps[1].1),
                        },
                    ),
                }
            }
        }
    }
}

pub open spec fn opt_fm(o: Option<FrontMatter>) -> Option<FrontMatterModel> {
    match o {
        Some(f) => Some(f@),
        None => None,
    }
}

/// Detect a title-page block in the first chapter.
pub fn detect_front_matter(chapters: &Vec<OebChapter>) -> (r: Option<FrontMatter>)
    ensures
        opt_fm(r) == spec_detect_front_matter(crate::oeb::chapter_models(chapters@)),
{
    if chapters.len() == 0 {
        return None;
    }
    let ch0 = &chapters[0];
    let t0: Option<&str> = match &ch0.title {
        Some(t) => Some(t.as_str()),
        None => None,
    };
    if !placeholder_title(t0) {
        return None;
    }
    if body_starts_with_heading(ch0.html.as_str()) {
        return None;
    }
    let paras = first_paragraphs(ch0.html.as_str());
    if paras.len() < 2 {
        return None;
    }
    assert(pair_views(paras@)[0] == (paras@[0].0@, paras@[0].1@));
    assert(pair_views(paras@)[1] == (paras@[1].0@, paras@[1].1@));
    if !title_candidate(paras[0].0.as_str()) {
        return None;
    }
    match author_from_by_line(paras[1].0.as_str()) {
        None => None,
        Some(author) => Some(
            FrontMatter {
                title: paras[0].0.clone(),
                author: Some(author),
                line1: paras[0].1.clone(),
                line2: Some(paras[1].1.clone()),
            },
        ),
    }
}

/// Detected front matter has a title that reads like a title: trimmed, it
/// is non-empty, at most 60 characters long, does not end in `.`, `!`,
/// `?`, `:`, `;` or an ellipsis, and does not read like a heading.
pub proof fn law_front_matter_title_shape(chs: Seq<ChapterModel>)
    ensures
        spec_detect_front_matter(chs) is Some ==> ({
            let t = text::trim(spec_detect_front_matter(chs)->Some_0.title);
            &&& t.len() > 0
            &&& t.len() <= 60
            &&& t.last() != '.' && t.last() != '!' && t.last() != '?'
            &&& t.last() != ':' && t.last() != ';' && t.last() != '…'
            &&& !html_text::spec_looks_like_heading(t)
        }),
{
}

} // verus!
