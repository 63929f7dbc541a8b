//! Chapter clean-up shared by the plain-text and DOCX post-passes: empty
//! chapters are dropped and ids renumbered, and trailing page-number junk is
//! cut from the last chapter.
use vstd::prelude::*;
use crate::text;
use crate::html_text;
use crate::front_matter;
use crate::oeb::{OebBook, OebChapter, ChapterModel, BookModel};

verus! {

// ──────────────────────────────────────────────────────────────────────────
// Finalizing chapters
// ──────────────────────────────────────────────────────────────────────────

/// A body with nothing but white space.
pub open spec fn blank(html: Seq<char>) -> bool {
    text::trim(html).len() == 0
}

/// The chapters with a non-blank body, in order.
pub open spec fn nonblank(chs: Seq<ChapterModel>) -> Seq<ChapterModel>
    decreases chs.len(),
{
    if chs.len() == 0 {
        Seq::empty()
    } else if blank(chs.last().html) {
        nonblank(chs.drop_last())
    } else {
        nonblank(chs.drop_last()).push(chs.last())
    }
}

/// `chapter_NNN` (`format!("chapter_{:03}", n)`).
pub open spec fn chapter_id(n: nat) -> Seq<char> {
    "chapter_"@ + text::zero_padded(n, 3)
}

/// Chapter `i` gets the id `chapter_id(i + 1)`.
pub open spec fn renumber(chs: Seq<ChapterModel>) -> Seq<ChapterModel> {
    Seq::new(
        chs.len(),
        |i: int| ChapterModel { id: chapter_id((i + 1) as nat), title: chs[i].title, html: chs[i].html },
    )
}

/// The non-blank chapters renumbered; a book left without chapters gets one
/// placeholder chapter titled with the book title.
pub open spec fn finalized(chs: Seq<ChapterModel>, title: Seq<char>) -> Seq<ChapterModel> {
    let k = nonblank(chs);
    if k.len() == 0 {
        seq![ChapterModel { id: chapter_id(1), title: Some(title), html: "<p>&#160;</p>"@ }]
    } else {
        renumber(k)
    }
}

/// The book with [`finalized`] chapters.
pub open spec fn finalized_book(b: BookModel) -> BookModel {
    BookModel { chapters: finalized(b.chapters, b.title), ..b }
}

proof fn lemma_renumber_push(s: Seq<ChapterModel>, c: ChapterModel)
    ensures
        renumber(s.push(c)) =~= renumber(s).push(
            ChapterModel { id: chapter_id((s.len() + 1) as nat), title: c.title, html: c.html },
        ),
{
}

pub fn chapter_id_string(n: u64) -> (r: String)
    ensures
        r@ == chapter_id(n as nat),
{
    let mut v = text::chars_of("chapter_");
    proof {
        reveal_strlit("chapter_");
    }
    let d = text::zero_padded_chars(n, 3);
    text::append_chars(&mut v, &d);
    text::string_of(&v)
}

fn clone_opt_string(o: &Option<String>) -> (r: Option<String>)
    ensures
        crate::oeb::opt_str(r) == crate::oeb::opt_str(*o),
{
    match o {
        Some(s) => Some(s.clone()),
        None => None,
    }
}

fn is_blank(s: &String) -> (r: bool)
    ensures
        r == blank(s@),
{
    let c = text::chars_of(s.as_str());
    let t = text::trim_chars(&c);
    t.len() == 0
}

/// Drop empty chapters, renumber ids sequentially, and guarantee at least
/// one chapter exists.
pub fn finalize_chapters(book: &mut OebBook)
    ensures
        final(book)@ == finalized_book(old(book)@),
{
    let ghost chs = old(book)@.chapters;
    let mut src: Vec<OebChapter> = Vec::new();
    std::mem::swap(&mut src, &mut book.chapters);
    assert(crate::oeb::chapter_models(src@) == chs);
    let mut out: Vec<OebChapter> = Vec::new();
    let mut i: usize = 0;
    assert(chs.take(0) =~= Seq::<ChapterModel>::empty());
    assert(crate::oeb::chapter_models(out@) =~= Seq::<ChapterModel>::empty());
    while i < src.len()
        invariant
            i <= src.len(),
            crate::oeb::chapter_models(src@) == chs,
            crate::oeb::chapter_models(out@) == renumber(nonblank(chs.take(i as int))),
            out.len() == nonblank(chs.take(i as int)).len(),
            out.len() <= i,
        decreases src.len() - i,
    {
        let ghost k = nonblank(chs.take(i as int));
        assert(chs.take(i + 1).drop_last() =~= chs.take(i as int));
        assert(chs.take(i + 1).last() == src@[i as int]@);
        let c = &src[i];
        if !is_blank(&c.html) {
            let n: u64 = (out.len() + 1) as u64;
            let nc = OebChapter {
                id: chapter_id_string(n),
                title: clone_opt_string(&c.title),
                html: c.html.clone(),
            };
            let ghost prev = crate::oeb::chapter_models(out@);
            out.push(nc);
            proof {
                lemma_renumber_push(k, src@[i as int]@);
                assert(crate::oeb::chapter_models(out@) =~= prev.push(nc@));
            }
        }
        i += 1;
    }
    assert(chs.take(src.len() as int) =~= chs);
    if out.len() == 0 {
        let t = book.title.clone();
        out.push(
            OebChapter {
                id: chapter_id_string(1),
                title: Some(t),
                html: String::from_str("<p>&#160;</p>"),
            },
        );
        assert(crate::oeb::chapter_models(out@) =~= finalized(chs, old(book)@.title));
    }
    book.chapters = out;
    assert(book@.chapters =~= finalized(chs, old(book)@.title));
}

// ──────────────────────────────────────────────────────────────────────────
// Trailing junk
// ──────────────────────────────────────────────────────────────────────────

/// A one-line `<p>` paragraph whose plain text is page-number junk.
pub open spec fn junk_para(line: Seq<char>) -> bool {
    match front_matter::p_inner(text::trim(line)) {
        Some(inner) => front_matter::spec_is_junk_line(
            text::trim(html_text::spec_strip_html_tags(inner)),
        ),
        None => false,
    }
}

/// Number of lines left once trailing junk paragraphs are removed.
pub open spec fn kept_len(ls: Seq<Seq<char>>) -> nat
    decreases ls.len(),
{
    if ls.len() == 0 {
        0
    } else if junk_para(ls.last()) {
        kept_len(ls.drop_last())
    } else {
        ls.len()
    }
}

/// Lines joined with `'\n'` between them.
pub open spec fn join_lines(ls: Seq<Seq<char>>) -> Seq<char>
    decreases ls.len(),
{
    if ls.len() == 0 {
        Seq::empty()
    } else if ls.len() == 1 {
        ls[0]
    } else {
        join_lines(ls.drop_last()) + seq!['\n'] + ls.last()
    }
}

/// A body without its trailing junk paragraphs.
pub open spec fn without_trailing_junk(html: Seq<char>) -> Seq<char> {
    let ls = text::lines(html);
    join_lines(ls.take(kept_len(ls) as int))
}

/// The book with trailing junk cut from its last chapter.
pub open spec fn junk_stripped(b: BookModel) -> BookModel {
    let n = b.chapters.len();
    if n == 0 {
        b
    } else {
        let last = b.chapters[n - 1];
        BookModel {
            chapters: b.chapters.update(
                n - 1,
                ChapterModel { html: without_trailing_junk(last.html), ..last },
            ),
            ..b
        }
    }
}

proof fn lemma_kept_len_le(ls: Seq<Seq<char>>)
    ensures
        kept_len(ls) <= ls.len(),
    decreases ls.len(),
{
    if ls.len() > 0 {
        lemma_kept_len_le(ls.drop_last());
    }
}

fn is_junk_para(line: &Vec<char>) -> (r: bool)
    ensures
        r == junk_para(line@),
{
    let t = text::trim_chars(line);
    let c3 = text::chars_of("<p>");
    let c4 = text::chars_of("</p>");
    if t.len() >= 7 && text::starts_with_exec(&t, &c3) && text::ends_with_exec(&t, &c4) {
        proof {
            reveal_strlit("<p>");
            reveal_strlit("</p>");
        }
        let inner = text::slice_chars(&t, 3, t.len() - 4);
        let stripped = html_text::strip_html_tags_chars(&inner);
        let plain = text::trim_chars(&stripped);
        front_matter::is_junk_line_chars(&plain)
    } else {
        false
    }
}

/// A body without its trailing junk paragraphs.
pub fn strip_junk_lines(html: &String) -> (r: String)
    ensures
        r@ == without_trailing_junk(html@),
{
    let c = text::chars_of(html.as_str());
    let ls = text::lines_of(&c);
    let ghost all = text::lines(html@);
    let mut end: usize = ls.len();
    assert(all.take(end as int) =~= all);
    while end > 0 && is_junk_para(&ls[end - 1])
        invariant
            end <= ls.len(),
            all == text::char_views(ls@),
            kept_len(all) == kept_len(all.take(end as int)),
        decreases end,
    {
        assert(all.take(end as int).drop_last() =~= all.take(end - 1));
        end -= 1;
    }
    proof {
        if end > 0 {
            assert(all.take(end as int).last() == ls@[end - 1]@);
        }
        assert(kept_len(all) == end);
    }
    let mut out: Vec<char> = Vec::new();
    let mut i: usize = 0;
    while i < end
        invariant
            i <= end <= ls.len(),
            all == text::char_views(ls@),
            out@ == join_lines(all.take(i as int)),
        decreases end - i,
    {
        let ghost prev = out@;
        assert(all.take(i + 1).drop_last() =~= all.take(i as int));
        assert(all.take(i + 1).last() == ls@[i as int]@);
        if i > 0 {
            out.push('\n');
        }
        text::append_chars(&mut out, &ls[i]);
        proof {
            if i == 0 {
                assert(out@ =~= all.take(1)[0]);
            } else {
                assert(out@ =~= prev + seq!['\n'] + ls@[i as int]@);
            }
        }
        i += 1;
    }
    text::string_of(&out)
}

/// Drop trailing junk paragraphs (page numbers like "42", "- 42 -",
/// "Page 42") from the last chapter body.
pub fn strip_trailing_junk(book: &mut OebBook)
    ensures
        final(book)@ == junk_stripped(old(book)@),
{
    let n = book.chapters.len();
    if n == 0 {
        return;
    }
    let ghost m = old(book)@.chapters[n - 1];
    assert(m == book.chapters@[n - 1]@);
    let new_html = strip_junk_lines(&book.chapters[n - 1].html);
    let nc = OebChapter {
        id: book.chapters[n - 1].id.clone(),
        title: clone_opt_string(&book.chapters[n - 1].title),
        html: new_html,
    };
    book.chapters.set(n - 1, nc);
    assert(book@.chapters =~= junk_stripped(old(book)@).chapters);
}

// ──────────────────────────────────────────────────────────────────────────
// Title post-pass
// ──────────────────────────────────────────────────────────────────────────


/// The first chapter body with the front-matter lines removed.
pub open spec fn fm_body(html: Seq<char>, fm: front_matter::FrontMatterModel) -> Seq<char> {
    front_matter::strip_fm_lines(text::lines(html), Some(fm.line1), fm.line1, fm.line2)
}

/// The chapters with the first body rewritten by [`fm_body`].
pub open spec fn fm_chapters(chs: Seq<ChapterModel>, fm: front_matter::FrontMatterModel) -> Seq<
    ChapterModel,
> {
    if chs.len() == 0 {
        chs
    } else {
        chs.update(0, ChapterModel { html: fm_body(chs[0].html, fm), ..chs[0] })
    }
}

/// Detected title-page front matter becomes the book title (and the first
/// author of a book without authors) and leaves the first chapter body.
pub open spec fn front_matter_applied(b: BookModel) -> BookModel {
    match front_matter::spec_detect_front_matter(b.chapters) {
        None => b,
        Some(fm) => BookModel {
            title: fm.title,
            authors: if b.authors.len() == 0 && fm.author is Some {
                b.authors.push(fm.author.unwrap())
            } else {
                b.authors
            },
            chapters: fm_chapters(b.chapters, fm),
            ..b
        },
    }
}

/// A first chapter with a non-blank body, a placeholder title and no
/// opening heading is titled with the book title.
pub open spec fn needs_retitle(b: BookModel) -> bool {
    b.chapters.len() > 0 && !blank(b.chapters[0].html) && front_matter::spec_placeholder_title(
        b.chapters[0].title,
    ) && !front_matter::spec_body_starts_with_heading(b.chapters[0].html)
}

pub open spec fn retitled(b: BookModel) -> BookModel {
    if needs_retitle(b) {
        BookModel {
            chapters: b.chapters.update(0, ChapterModel { title: Some(b.title), ..b.chapters[0] }),
            ..b
        }
    } else {
        b
    }
}

/// The plain-text post-pass: trailing junk, front matter, placeholder
/// retitling, then chapter finalization.
pub open spec fn txt_post_pass(b: BookModel) -> BookModel {
    finalized_book(retitled(front_matter_applied(junk_stripped(b))))
}

/// Replaces the first chapter's body.
fn set_first_html(book: &mut OebBook, html: String)
    requires
        old(book).chapters.len() > 0,
    ensures
        final(book)@ == (BookModel {
            chapters: old(book)@.chapters.update(
                0,
                ChapterModel { html: html@, ..old(book)@.chapters[0] },
            ),
            ..old(book)@
        }),
{
    let nc = OebChapter {
        id: book.chapters[0].id.clone(),
        title: clone_opt_string(&book.chapters[0].title),
        html,
    };
    book.chapters.set(0, nc);
    assert(book@.chapters =~= old(book)@.chapters.update(
        0,
        ChapterModel { html: html@, ..old(book)@.chapters[0] },
    ));
}

fn line2_str(fm: &front_matter::FrontMatter) -> (r: Option<&str>)
    ensures
        match r {
            Some(s) => fm@.line2 == Some(s@),
            None => fm@.line2 is None,
        },
{
    match &fm.line2 {
        Some(l) => Some(l.as_str()),
        None => None,
    }
}

/// Moves detected front matter into the book metadata.
pub fn apply_front_matter(book: &mut OebBook)
    ensures
        final(book)@ == front_matter_applied(old(book)@),
{
    let fm = match front_matter::detect_front_matter(&book.chapters) {
        None => return,
        Some(fm) => fm,
    };
    book.title = fm.title.clone();
    if book.authors.len() == 0 {
        match &fm.author {
            Some(a) => {
                book.authors.push(a.clone());
            },
            None => {},
        }
    }
    assert(book@.authors =~= front_matter_applied(old(book)@).authors);
    let html = front_matter::strip_front_matter(
        book.chapters[0].html.as_str(),
        fm.line1.as_str(),
        line2_str(&fm),
    );
    set_first_html(book, html);
    assert(book@ =~= front_matter_applied(old(book)@));
}

/// Titles a placeholder first chapter with the book title.
pub fn retitle_first_chapter(book: &mut OebBook)
    ensures
        final(book)@ == retitled(old(book)@),
{
    if book.chapters.len() == 0 {
        return;
    }
    let t0: Option<&str> = match &book.chapters[0].title {
        Some(t) => Some(t.as_str()),
        None => None,
    };
    if !is_blank(&book.chapters[0].html) && front_matter::placeholder_title(t0)
        && !front_matter::body_starts_with_heading(book.chapters[0].html.as_str()) {
        let nc = OebChapter {
            id: book.chapters[0].id.clone(),
            title: Some(book.title.clone()),
            html: book.chapters[0].html.clone(),
        };
        book.chapters.set(0, nc);
        assert(book@.chapters =~= retitled(old(book)@).chapters);
    }
}

/// The post-pass applied to a book read from a TXT/RTF file.
pub fn finish_txt_book(book: &mut OebBook)
    ensures
        final(book)@ == txt_post_pass(old(book)@),
{
    strip_trailing_junk(book);
    apply_front_matter(book);
    retitle_first_chapter(book);
    finalize_chapters(book);
}

/// Title and author from the DOCX sources, in order of authority: the core
/// properties (`dc:title`, `dc:creator`), then title-page front matter, then
/// (for the title) the file name stem when the inferred title is a
/// placeholder or a section heading.
pub open spec fn docx_metadata_applied(
    b: BookModel,
    core_title: Option<Seq<char>>,
    core_creator: Option<Seq<char>>,
    stem: Option<Seq<char>>,
) -> BookModel {
    let fm = if core_title is None {
        front_matter::spec_detect_front_matter(b.chapters)
    } else {
        None
    };
    let b1 = match core_title {
        Some(t) => BookModel { title: t, ..b },
        None => match fm {
            Some(f) => BookModel { title: f.title, chapters: fm_chapters(b.chapters, f), ..b },
            None => if front_matter::spec_bad_inferred_title(b.title) {
                BookModel { title: front_matter::spec_filename_stem(stem), ..b }
            } else {
                b
            },
        },
    };
    let b2 = match core_creator {
        Some(c) => if b1.authors.len() == 0 {
            BookModel { authors: seq![c], ..b1 }
        } else {
            b1
        },
        None => b1,
    };
    if b2.authors.len() == 0 && fm is Some && fm.unwrap().author is Some {
        BookModel { authors: b2.authors.push(fm.unwrap().author.unwrap()), ..b2 }
    } else {
        b2
    }
}

/// The DOCX post-pass: metadata, placeholder retitling, then chapter
/// finalization.
pub open spec fn docx_post_pass(
    b: BookModel,
    core_title: Option<Seq<char>>,
    core_creator: Option<Seq<char>>,
    stem: Option<Seq<char>>,
) -> BookModel {
    finalized_book(retitled(docx_metadata_applied(b, core_title, core_creator, stem)))
}


/// Applies the DOCX title and author sources (see [`docx_metadata_applied`]).
pub fn apply_docx_metadata(
    book: &mut OebBook,
    core_title: Option<String>,
    core_creator: Option<String>,
    stem: Option<&str>,
)
    ensures
        final(book)@ == docx_metadata_applied(
            old(book)@,
            crate::oeb::opt_str(core_title),
            crate::oeb::opt_str(core_creator),
            match stem {
                Some(s) => Some(s@),
                None => None,
            },
        ),
{
    let ghost b0 = old(book)@;
    let fm = if core_title.is_none() {
        front_matter::detect_front_matter(&book.chapters)
    } else {
        None
    };
    match core_title {
        Some(t) => {
            book.title = t;
        },
        None => match &fm {
            Some(f) => {
                book.title = f.title.clone();
                if book.chapters.len() > 0 {
                    let html = front_matter::strip_front_matter(
                        book.chapters[0].html.as_str(),
                        f.line1.as_str(),
                        line2_str(f),
                    );
                    set_first_html(book, html);
                }
            },
            None => {
                if front_matter::bad_inferred_title(book.title.as_str()) {
                    book.title = front_matter::filename_stem(stem);
                }
            },
        },
    }
    match core_creator {
        Some(c) => {
            if book.authors.len() == 0 {
                let mut v: Vec<String> = Vec::new();
                v.push(c);
                book.authors = v;
                assert(book@.authors =~= seq![c@]);
            }
        },
        None => {},
    }
    if book.authors.len() == 0 {
        match &fm {
            Some(f) => match &f.author {
                Some(a) => {
                    book.authors.push(a.clone());
                },
                None => {},
            },
            None => {},
        }
    }
    assert(book@ =~= docx_metadata_applied(
        b0,
        crate::oeb::opt_str(core_title),
        crate::oeb::opt_str(core_creator),
        match stem {
            Some(s) => Some(s@),
            None => None,
        },
    ));
}

/// The post-pass applied to a book read from a DOCX file, given its core
/// properties and its file name stem.
pub fn finish_docx_book(
    book: &mut OebBook,
    core_title: Option<String>,
    core_creator: Option<String>,
    stem: Option<&str>,
)
    ensures
        final(book)@ == docx_post_pass(
            old(book)@,
            crate::oeb::opt_str(core_title),
            crate::oeb::opt_str(core_creator),
            match stem {
                Some(s) => Some(s@),
                None => None,
            },
        ),
{
    apply_docx_metadata(book, core_title, core_creator, stem);
    retitle_first_chapter(book);
    finalize_chapters(book);
}

// ──────────────────────────────────────────────────────────────────────────
// Laws
// ──────────────────────────────────────────────────────────────────────────

proof fn lemma_nonblank_all(chs: Seq<ChapterModel>)
    requires
        forall|i: int| 0 <= i < chs.len() ==> !blank(#[trigger] chs[i].html),
    ensures
        nonblank(chs) == chs,
    decreases chs.len(),
{
    if chs.len() > 0 {
        lemma_nonblank_all(chs.drop_last());
        assert(chs.drop_last().push(chs.last()) =~= chs);
    }
}

proof fn lemma_nonblank_props(chs: Seq<ChapterModel>)
    ensures
        forall|i: int| 0 <= i < nonblank(chs).len() ==> !blank(#[trigger] nonblank(chs)[i].html),
    decreases chs.len(),
{
    if chs.len() > 0 {
        lemma_nonblank_props(chs.drop_last());
    }
}

proof fn lemma_placeholder_not_blank()
    ensures
        !blank("<p>&#160;</p>"@),
{
    reveal_strlit("<p>&#160;</p>");
    let s = "<p>&#160;</p>"@;
    assert(!text::is_ws(s[0]));
    assert(text::trim_start(s) == s);
    assert(!text::is_ws(s.last()));
    assert(text::trim_end(s) == s);
}

/// After finalization a book has at least one chapter, every chapter has a
/// non-blank body, and the ids run `chapter_001`, `chapter_002`, … in order.
pub proof fn law_finalized_shape(chs: Seq<ChapterModel>, title: Seq<char>)
    ensures
        finalized(chs, title).len() >= 1,
        forall|i: int|
            0 <= i < finalized(chs, title).len() ==> (#[trigger] finalized(chs, title)[i]).id
                == chapter_id((i + 1) as nat) && !blank(finalized(chs, title)[i].html),
{
    lemma_nonblank_props(chs);
    lemma_placeholder_not_blank();
}

/// Finalizing an already finalized chapter list changes nothing.
pub proof fn law_finalize_idempotent(chs: Seq<ChapterModel>, title: Seq<char>)
    ensures
        finalized(finalized(chs, title), title) == finalized(chs, title),
{
    let f = finalized(chs, title);
    law_finalized_shape(chs, title);
    lemma_nonblank_all(f);
    assert(renumber(f) =~= f);
}

/// Finalization keeps the non-blank chapters' titles and bodies, in order.
pub proof fn law_finalize_keeps_content(chs: Seq<ChapterModel>, title: Seq<char>)
    requires
        nonblank(chs).len() > 0,
    ensures
        finalized(chs, title).len() == nonblank(chs).len(),
        forall|i: int|
            0 <= i < nonblank(chs).len() ==> (#[trigger] finalized(chs, title)[i]).html
                == nonblank(chs)[i].html && finalized(chs, title)[i].title == nonblank(chs)[i].title,
{
}

/// After either post-pass a book has at least one chapter, no chapter with
/// a blank body, and ids `chapter_001`, `chapter_002`, … in order.
pub proof fn law_post_pass_shape(
    b: BookModel,
    core_title: Option<Seq<char>>,
    core_creator: Option<Seq<char>>,
    stem: Option<Seq<char>>,
)
    ensures
        txt_post_pass(b).chapters.len() >= 1,
        forall|i: int|
            0 <= i < txt_post_pass(b).chapters.len() ==> (#[trigger] txt_post_pass(b).chapters[i]).id
                == chapter_id((i + 1) as nat) && !blank(txt_post_pass(b).chapters[i].html),
        docx_post_pass(b, core_title, core_creator, stem).chapters.len() >= 1,
        forall|i: int|
            0 <= i < docx_post_pass(b, core_title, core_creator, stem).chapters.len() ==> (
            #[trigger] docx_post_pass(b, core_title, core_creator, stem).chapters[i]).id
                == chapter_id((i + 1) as nat) && !blank(
                docx_post_pass(b, core_title, core_creator, stem).chapters[i].html,
            ),
{
    let t = retitled(front_matter_applied(junk_stripped(b)));
    law_finalized_shape(t.chapters, t.title);
    let d = retitled(docx_metadata_applied(b, core_title, core_creator, stem));
    law_finalized_shape(d.chapters, d.title);
}

} // verus!
