//! Chapter split of the one-paragraph-per-line HTML made from PDF text:
//! a paragraph that reads like a heading opens a chapter.
use vstd::prelude::*;
use crate::text;
use crate::html_text;
use crate::book_post::blank;
use crate::front_matter::pair_views;
use crate::oeb::opt_str;
use crate::translation::utf8_len;

verus! {

// ──────────────────────────────────────────────────────────────────────────
// The paragraph pattern `(?is)<p[^>]*>(.*?)</p>`
// ──────────────────────────────────────────────────────────────────────────

pub open spec fn is_p(c: char) -> bool {
    c == 'p' || c == 'P'
}

/// `<p` (either case) at `i`.
pub open spec fn p_open_at(s: Seq<char>, i: int) -> bool {
    0 <= i && i + 1 < s.len() && s[i] == '<' && is_p(s[i + 1])
}

/// `</p>` (either case) at `k`.
pub open spec fn p_close_at(s: Seq<char>, k: int) -> bool {
    0 <= k && k + 3 < s.len() && s[k] == '<' && s[k + 1] == '/' && is_p(s[k + 2]) && s[k + 3]
        == '>'
}

/// The first `>` at or after `j`.
pub open spec fn first_gt(s: Seq<char>, j: int) -> Option<int>
    decreases s.len() - j,
{
    if j < 0 || j >= s.len() {
        None
    } else if s[j] == '>' {
        Some(j)
    } else {
        first_gt(s, j + 1)
    }
}

/// The first `</p>` at or after `j`.
pub open spec fn first_close(s: Seq<char>, j: int) -> Option<int>
    decreases s.len() - j,
{
    if j < 0 || j >= s.len() {
        None
    } else if p_close_at(s, j) {
        Some(j)
    } else {
        first_close(s, j + 1)
    }
}

/// The capture of a match starting at `i`: after `<p`, the attributes run
/// to the first `>`; the content is the shortest run up to a `</p>`.
pub open spec fn match_at(s: Seq<char>, i: int) -> Option<Seq<char>> {
    if !p_open_at(s, i) {
        None
    } else {
        match first_gt(s, i + 2) {
            None => None,
            Some(g) => match first_close(s, g + 1) {
                None => None,
                Some(c) => Some(s.subrange(g + 1, c)),
            },
        }
    }
}

/// The capture of the leftmost match at or after `i`.
pub open spec fn first_match_from(s: Seq<char>, i: int) -> Option<Seq<char>>
    decreases s.len() - i,
{
    if i < 0 || i >= s.len() {
        None
    } else if match_at(s, i) is Some {
        match_at(s, i)
    } else {
        first_match_from(s, i + 1)
    }
}

/// The first capture group of `(?is)<p[^>]*>(.*?)</p>` in the text.
pub open spec fn paragraph_capture(s: Seq<char>) -> Option<Seq<char>> {
    first_match_from(s, 0)
}

/// `regex::Regex::captures` with `(?is)<p[^>]*>(.*?)</p>`, group 1.
/// Claimed: the leftmost match and, the content group being lazy, the
/// shortest content up to a closing `</p>`, as [`paragraph_capture`]
/// states.
#[verifier::external_body]
fn paragraph_group(line: &str) -> (r: Option<String>)
    ensures
        opt_str(r) == paragraph_capture(line@),
{
    let re = regex::Regex::new(r"(?is)<p[^>]*>(.*?)</p>").unwrap();
    re.captures(line).map(|cap| cap[1].to_string())
}

// ──────────────────────────────────────────────────────────────────────────
// The split
// ──────────────────────────────────────────────────────────────────────────

/// The paragraph text of a line: its tags stripped and trimmed (empty
/// when the line holds no paragraph).
pub open spec fn candidate(line: Seq<char>) -> Seq<char> {
    match paragraph_capture(line) {
        Some(c) => text::trim(html_text::spec_strip_html_tags(c)),
        None => Seq::empty(),
    }
}

pub open spec fn contains_char(s: Seq<char>, c: char) -> bool {
    exists|i: int| 0 <= i < s.len() && s[i] == c
}

/// `://` at `i`.
pub open spec fn scheme_at(s: Seq<char>, i: int) -> bool {
    0 <= i && i + 3 <= s.len() && s[i] == ':' && s[i + 1] == '/' && s[i + 2] == '/'
}

pub open spec fn contains_scheme(s: Seq<char>) -> bool {
    exists|i: int| #[trigger] scheme_at(s, i)
}

/// A heading: non-empty, reads like a heading, at most 120 bytes, and
/// neither an e-mail address nor a URL.
pub open spec fn pdf_heading(c: Seq<char>) -> bool {
    c.len() > 0 && html_text::spec_looks_like_heading(c) && utf8_len(c) <= 120 && !contains_char(
        c,
        '@',
    ) && !contains_scheme(c)
}

pub struct PdfState {
    pub chapters: Seq<(Seq<char>, Seq<char>)>,
    pub title: Seq<char>,
    pub body: Seq<char>,
}

/// `  <h2>{escaped title}</h2>\n`.
pub open spec fn heading_line(t: Seq<char>) -> Seq<char> {
    "  <h2>"@ + html_text::escape_xml(t) + "</h2>\n"@
}

/// A heading line closes a non-blank chapter and opens one titled with
/// it; any other line joins the current chapter.
pub open spec fn pdf_step(st: PdfState, line: Seq<char>) -> PdfState {
    let c = candidate(line);
    if pdf_heading(c) {
        let chs = if !blank(st.body) {
            st.chapters.push((st.title, text::trim(st.body)))
        } else {
            st.chapters
        };
        let body = if !blank(st.body) {
            Seq::empty()
        } else {
            st.body
        };
        PdfState { chapters: chs, title: c, body: body + heading_line(c) }
    } else {
        PdfState { body: st.body + line + seq!['\n'], ..st }
    }
}

pub open spec fn pdf_run(ls: Seq<Seq<char>>) -> PdfState
    decreases ls.len(),
{
    if ls.len() == 0 {
        PdfState { chapters: Seq::empty(), title: "Document"@, body: Seq::empty() }
    } else {
        pdf_step(pdf_run(ls.drop_last()), ls.last())
    }
}

/// The chapters of the HTML: the last chapter is closed when not blank; an
/// HTML without any is one `Document` chapter holding all of it.
pub open spec fn pdf_chapters(html: Seq<char>) -> Seq<(Seq<char>, Seq<char>)> {
    let st = pdf_run(text::lines(html));
    let chs = if !blank(st.body) {
        st.chapters.push((st.title, text::trim(st.body)))
    } else {
        st.chapters
    };
    if chs.len() == 0 {
        seq![("Document"@, html)]
    } else {
        chs
    }
}

fn has_char(s: &Vec<char>, c: char) -> (r: bool)
    ensures
        r == contains_char(s@, c),
{
    let mut i: usize = 0;
    while i < s.len()
        invariant
            i <= s.len(),
            forall|j: int| 0 <= j < i ==> s@[j] != c,
        decreases s.len() - i,
    {
        if s[i] == c {
            return true;
        }
        i += 1;
    }
    false
}

fn has_scheme(s: &Vec<char>) -> (r: bool)
    ensures
        r == contains_scheme(s@),
{
    let mut i: usize = 0;
    while i < s.len() && s.len() - i >= 3
        invariant
            i <= s.len(),
            forall|j: int| 0 <= j < i ==> !#[trigger] scheme_at(s@, j),
        decreases s.len() - i,
    {
        if s[i] == ':' && s[i + 1] == '/' && s[i + 2] == '/' {
            assert(scheme_at(s@, i as int));
            return true;
        }
        i += 1;
    }
    assert forall|j: int| !#[trigger] scheme_at(s@, j) by {
        if 0 <= j && j + 3 <= s.len() {
            assert(j < i);
        }
    }
    false
}

fn utf8_len_at_most(s: &Vec<char>, limit: usize) -> (r: bool)
    ensures
        r == (utf8_len(s@) <= limit),
{
    !crate::translation::longer_than(s, limit)
}

fn candidate_of(line: &Vec<char>) -> (r: Vec<char>)
    ensures
        r@ == candidate(line@),
{
    let ls = text::string_of(line);
    match paragraph_group(ls.as_str()) {
        Some(c) => {
            let cc = text::chars_of(c.as_str());
            let st = html_text::strip_html_tags_chars(&cc);
            text::trim_chars(&st)
        },
        None => Vec::new(),
    }
}

fn is_pdf_heading(c: &Vec<char>) -> (r: bool)
    ensures
        r == pdf_heading(c@),
{
    c.len() > 0 && html_text::looks_like_heading_chars(c) && utf8_len_at_most(c, 120) && !has_char(
        c,
        '@',
    ) && !has_scheme(c)
}

/// Split the paragraph HTML into (title, body) chapters (see
/// [`pdf_chapters`]).
pub fn split_chapters(html: &str) -> (r: Vec<(String, String)>)
    ensures
        pair_views(r@) == pdf_chapters(html@),
        r@.len() > 0,
{
    let c = text::chars_of(html);
    let ls = text::lines_of(&c);
    let ghost all = text::lines(html@);
    let mut chapters: Vec<(String, String)> = Vec::new();
    let mut title: Vec<char> = text::chars_of("Document");
    proof {
        reveal_strlit("Document");
    }
    let mut body: Vec<char> = Vec::new();
    let mut i: usize = 0;
    assert(all.take(0) =~= Seq::<Seq<char>>::empty());
    assert(pair_views(chapters@) =~= Seq::<(Seq<char>, Seq<char>)>::empty());
    while i < ls.len()
        invariant
            i <= ls.len(),
            all == text::char_views(ls@),
            pdf_run(all.take(i as int)) == (PdfState {
                chapters: pair_views(chapters@),
                title: title@,
                body: body@,
            }),
        decreases ls.len() - i,
    {
        assert(all.take(i + 1).drop_last() =~= all.take(i as int));
        assert(all.take(i + 1).last() == ls@[i as int]@);
        let line = &ls[i];
        let cand = candidate_of(line);
        let ghost b0 = body@;
        if is_pdf_heading(&cand) {
            let bt = text::trim_chars(&body);
            if bt.len() > 0 {
                let ghost prev = pair_views(chapters@);
                chapters.push((text::string_of(&title), text::string_of(&bt)));
                assert(pair_views(chapters@) =~= prev.push((title@, bt@)));
                body = Vec::new();
            }
            let esc = html_text::escape_xml_chars(&cand);
            text::append_chars(&mut body, &text::chars_of("  <h2>"));
            text::append_chars(&mut body, &esc);
            text::append_chars(&mut body, &text::chars_of("</h2>\n"));
            assert(body@ =~= (if !blank(b0) {
                Seq::<char>::empty()
            } else {
                b0
            }) + heading_line(cand@));
            title = cand;
        } else {
            text::append_chars(&mut body, line);
            body.push('\n');
            assert(body@ =~= b0 + line@ + seq!['\n']);
        }
        i += 1;
    }
    assert(all.take(i as int) =~= all);
    let bt = text::trim_chars(&body);
    if bt.len() > 0 {
        let ghost prev = pair_views(chapters@);
        chapters.push((text::string_of(&title), text::string_of(&bt)));
        assert(pair_views(chapters@) =~= prev.push((title@, bt@)));
    }
    if chapters.len() == 0 {
        chapters.push((String::from_str("Document"), String::from_str(html)));
        assert(pair_views(chapters@) =~= seq![("Document"@, html@)]);
    }
    chapters
}

// ──────────────────────────────────────────────────────────────────────────
// Laws
// ──────────────────────────────────────────────────────────────────────────

pub open spec fn titled_by_heading(t: Seq<char>) -> bool {
    t == "Document"@ || pdf_heading(t)
}

proof fn lemma_run_titles(ls: Seq<Seq<char>>)
    ensures
        titled_by_heading(pdf_run(ls).title),
        forall|k: int|
            0 <= k < pdf_run(ls).chapters.len() ==> titled_by_heading(
                #[trigger] pdf_run(ls).chapters[k].0,
            ),
    decreases ls.len(),
{
    if ls.len() > 0 {
        lemma_run_titles(ls.drop_last());
    }
}

/// Every chapter is titled by the heading paragraph that opened it, except
/// the leading one (and a heading-less document), titled `Document`.
pub proof fn law_chapter_titles_are_headings(html: Seq<char>)
    ensures
        forall|k: int|
            0 <= k < pdf_chapters(html).len() ==> titled_by_heading(
                #[trigger] pdf_chapters(html)[k].0,
            ),
{
    lemma_run_titles(text::lines(html));
}

/// `<h2>{escaped title}</h2>`: how a chapter opened by a heading begins.
pub open spec fn heading_open(t: Seq<char>) -> Seq<char> {
    "<h2>"@ + html_text::escape_xml(t) + "</h2>"@
}

proof fn lemma_trim_start_first(s: Seq<char>)
    ensures
        text::trim_start(s).len() > 0 ==> !text::is_ws(text::trim_start(s)[0]),
    decreases s.len(),
{
    if s.len() > 0 && text::is_ws(s[0]) {
        lemma_trim_start_first(s.drop_first());
    }
}

proof fn lemma_trim_end_keeps_first(t: Seq<char>)
    requires
        t.len() > 0,
        !text::is_ws(t[0]),
    ensures
        text::trim_end(t).len() > 0,
    decreases t.len(),
{
    if text::is_ws(t.last()) {
        assert(t.len() > 1);
        assert(t.drop_last()[0] == t[0]);
        lemma_trim_end_keeps_first(t.drop_last());
    }
}

/// A blank text is white space through and through.
proof fn lemma_blank_trim_start(s: Seq<char>)
    requires
        blank(s),
    ensures
        text::trim_start(s).len() == 0,
{
    lemma_trim_start_first(s);
    if text::trim_start(s).len() > 0 {
        lemma_trim_end_keeps_first(text::trim_start(s));
    }
}

proof fn lemma_trim_start_append(s: Seq<char>, x: Seq<char>)
    ensures
        text::trim_start(s).len() == 0 ==> text::trim_start(s + x) == text::trim_start(x),
        text::trim_start(s).len() > 0 ==> text::trim_start(s + x) == text::trim_start(s) + x,
    decreases s.len(),
{
    if s.len() == 0 {
        assert(s + x =~= x);
    } else {
        assert((s + x)[0] == s[0]);
        assert((s + x).drop_first() =~= s.drop_first() + x);
        if text::is_ws(s[0]) {
            lemma_trim_start_append(s.drop_first(), x);
        }
    }
}

proof fn lemma_trim_end_prefix(t: Seq<char>, p: Seq<char>)
    requires
        text::starts_with(t, p),
        p.len() > 0,
        !text::is_ws(p.last()),
    ensures
        text::starts_with(text::trim_end(t), p),
    decreases t.len(),
{
    if t.len() > 0 && text::is_ws(t.last()) {
        assert(t[p.len() - 1] == t.take(p.len() as int)[p.len() - 1]);
        assert(t.len() > p.len());
        assert(t.drop_last().take(p.len() as int) =~= t.take(p.len() as int));
        lemma_trim_end_prefix(t.drop_last(), p);
    }
}

proof fn lemma_heading_line_trimmed(t: Seq<char>)
    ensures
        text::starts_with(text::trim_start(heading_line(t)), heading_open(t)),
{
    reveal_strlit("  <h2>");
    reveal_strlit("</h2>\n");
    reveal_strlit("<h2>");
    reveal_strlit("</h2>");
    let h = heading_line(t);
    let e = html_text::escape_xml(t);
    assert(h[0] == ' ');
    assert(text::is_ws(' '));
    let h1 = h.drop_first();
    assert(h1[0] == ' ');
    let h2 = h1.drop_first();
    assert(h2 =~= "<h2>"@ + e + "</h2>\n"@);
    assert(h2[0] == '<');
    assert(text::trim_start(h2) == h2);
    assert(text::trim_start(h1) == text::trim_start(h2));
    assert(text::trim_start(h) == text::trim_start(h1));
    assert(h2.take(heading_open(t).len() as int) =~= heading_open(t));
}

/// What the run keeps: a chapter (open or closed) titled otherwise than
/// `Document` begins, past white space, with its heading.
proof fn lemma_run_opened(ls: Seq<Seq<char>>)
    ensures
        pdf_run(ls).title != "Document"@ ==> text::starts_with(
            text::trim_start(pdf_run(ls).body),
            heading_open(pdf_run(ls).title),
        ),
        forall|k: int|
            0 <= k < pdf_run(ls).chapters.len() && (#[trigger] pdf_run(ls).chapters[k]).0
                != "Document"@ ==> text::starts_with(
                pdf_run(ls).chapters[k].1,
                heading_open(pdf_run(ls).chapters[k].0),
            ),
    decreases ls.len(),
{
    reveal_strlit("</h2>");
    if ls.len() > 0 {
        let st = pdf_run(ls.drop_last());
        lemma_run_opened(ls.drop_last());
        let line = ls.last();
        let c = candidate(line);
        if st.title != "Document"@ {
            let p = heading_open(st.title);
            assert(p.last() == '>');
            assert(!text::is_ws('>'));
            lemma_trim_end_prefix(text::trim_start(st.body), p);
        }
        if pdf_heading(c) {
            let base = if !blank(st.body) {
                Seq::<char>::empty()
            } else {
                st.body
            };
            if blank(st.body) {
                lemma_blank_trim_start(st.body);
            } else {
                assert(text::trim_start(base) == base);
            }
            lemma_trim_start_append(base, heading_line(c));
            lemma_heading_line_trimmed(c);
        } else {
            let x = line + seq!['\n'];
            lemma_trim_start_append(st.body, x);
            assert(st.body + line + seq!['\n'] =~= st.body + x);
            if st.title != "Document"@ {
                let p = heading_open(st.title);
                let ts = text::trim_start(st.body);
                assert((ts + x).take(p.len() as int) =~= ts.take(p.len() as int));
            }
        }
    }
}

/// A chapter opened by a heading paragraph (any chapter not titled
/// `Document`) begins with `<h2>`, the title escaped for XML, and `</h2>`.
pub proof fn law_heading_chapter_body(html: Seq<char>)
    ensures
        forall|k: int|
            0 <= k < pdf_chapters(html).len() && (#[trigger] pdf_chapters(html)[k]).0
                != "Document"@ ==> text::starts_with(
                pdf_chapters(html)[k].1,
                heading_open(pdf_chapters(html)[k].0),
            ),
{
    reveal_strlit("</h2>");
    let st = pdf_run(text::lines(html));
    lemma_run_opened(text::lines(html));
    if st.title != "Document"@ {
        let p = heading_open(st.title);
        assert(p.last() == '>');
        assert(!text::is_ws('>'));
        lemma_trim_end_prefix(text::trim_start(st.body), p);
    }
}

} // verus!
