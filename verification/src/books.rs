//! Assembling a book from a parser's metadata and chapters (Markdown and
//! the text-extraction path for PDF).
use vstd::prelude::*;
use crate::text;
use crate::oeb::{OebBook, OebChapter, ChapterModel, BookModel, opt_str, strs};
use crate::book_post::{chapter_id, chapter_id_string};
use crate::front_matter::{pair_views, dashes_to_spaces};
use crate::markdown_adapter::BookMetadata;
use crate::markdown_split::{split_into_chapters, split_chapters_spec, opt_views, ConversionError};
use crate::pdf_split::{split_chapters, pdf_chapters};

verus! {

/// The metadata title when it is usable (non-empty and not `Unknown`),
/// else the fallback.
pub open spec fn usable_title(meta_title: Seq<char>, fallback: Seq<char>) -> Seq<char> {
    if meta_title.len() > 0 && meta_title != "Unknown"@ {
        meta_title
    } else {
        fallback
    }
}

/// Chapter `i` is `chapter_NNN` (NNN = i + 1) with its title and body.
pub open spec fn numbered(chs: Seq<(Seq<char>, Seq<char>)>) -> Seq<ChapterModel> {
    Seq::new(
        chs.len(),
        |i: int| ChapterModel { id: chapter_id((i + 1) as nat), title: Some(chs[i].0), html: chs[i].1 },
    )
}

/// The book for a title, metadata and chapters.
pub open spec fn assembled(title: Seq<char>, meta: BookMetadata, chs: Seq<(Seq<char>, Seq<char>)>) -> BookModel {
    BookModel {
        title,
        authors: strs(meta.authors@),
        language: match meta.language {
            Some(l) => l@,
            None => "en"@,
        },
        description: opt_str(meta.description),
        chapters: numbered(chs),
    }
}

fn assemble(title: String, meta: BookMetadata, chapters: Vec<(String, String)>) -> (r: OebBook)
    ensures
        r@ == assembled(title@, meta, pair_views(chapters@)),
{
    let ghost m = meta;
    let language = match meta.language {
        Some(l) => l,
        None => String::from_str("en"),
    };
    let mut book = OebBook {
        title,
        authors: meta.authors,
        language,
        description: meta.description,
        chapters: Vec::new(),
    };
    let ghost chs = pair_views(chapters@);
    let mut i: usize = 0;
    while i < chapters.len()
        invariant
            i <= chapters.len(),
            chs == pair_views(chapters@),
            crate::oeb::chapter_models(book.chapters@) == numbered(chs.take(i as int)),
            book.title@ == title@,
            book@.authors == strs(m.authors@),
            book@.description == opt_str(m.description),
            book.language@ == (match m.language {
                Some(l) => l@,
                None => "en"@,
            }),
        decreases chapters.len() - i,
    {
        let ghost prev = crate::oeb::chapter_models(book.chapters@);
        let c = OebChapter {
            id: chapter_id_string((i + 1) as u64),
            title: Some(chapters[i].0.clone()),
            html: chapters[i].1.clone(),
        };
        book.chapters.push(c);
        assert(crate::oeb::chapter_models(book.chapters@) =~= prev.push(c@));
        i += 1;
        assert(crate::oeb::chapter_models(book.chapters@) =~= numbered(chs.take(i as int)));
    }
    assert(chs.take(i as int) =~= chs);
    assert(book@ =~= assembled(title@, m, chs));
    book
}

/// The Markdown book title: the usable metadata title, else the file name
/// stem, else `Untitled`.
pub open spec fn markdown_book_title(meta_title: Seq<char>, stem: Option<Seq<char>>) -> Seq<char> {
    usable_title(
        meta_title,
        match stem {
            Some(s) => s,
            None => "Untitled"@,
        },
    )
}

fn usable(meta_title: &String) -> (r: bool)
    ensures
        r == (meta_title@.len() > 0 && meta_title@ != "Unknown"@),
{
    let u = String::from_str("Unknown");
    meta_title.as_str().unicode_len() > 0 && *meta_title != u
}

/// A Markdown book from its metadata, file name stem and text (`embedded`:
/// the embedded names of its images, see the splitter).
pub fn markdown_book(
    meta: BookMetadata,
    stem: Option<&str>,
    text: &str,
    embedded: &Vec<Option<String>>,
) -> (r: Result<OebBook, ConversionError>)
    ensures
        split_chapters_spec(text@, opt_views(embedded@)).len() == 0 <==> r is Err,
        r matches Ok(b) ==> b@ == assembled(
            markdown_book_title(
                meta.title@,
                match stem {
                    Some(s) => Some(s@),
                    None => None,
                },
            ),
            meta,
            split_chapters_spec(text@, opt_views(embedded@)),
        ),
{
    let chapters = match split_into_chapters(text, embedded) {
        Ok(c) => c,
        Err(e) => return Err(e),
    };
    let title = if usable(&meta.title) {
        meta.title.clone()
    } else {
        match stem {
            Some(s) => String::from_str(s),
            None => String::from_str("Untitled"),
        }
    };
    Ok(assemble(title, meta, chapters))
}

/// The PDF book title: the usable metadata title, else the file name stem
/// with `_` and `-` as spaces, else `Untitled`.
pub open spec fn pdf_book_title(meta_title: Seq<char>, stem: Option<Seq<char>>) -> Seq<char> {
    usable_title(
        meta_title,
        match stem {
            Some(s) => dashes_to_spaces(s),
            None => "Untitled"@,
        },
    )
}

fn dashes_to_spaces_string(s: &str) -> (r: String)
    ensures
        r@ == dashes_to_spaces(s@),
{
    let c = text::chars_of(s);
    let mut out: Vec<char> = Vec::new();
    let mut i: usize = 0;
    while i < c.len()
        invariant
            i <= c.len(),
            out@ == dashes_to_spaces(c@.take(i as int)),
        decreases c.len() - i,
    {
        let ch = c[i];
        out.push(if ch == '_' || ch == '-' { ' ' } else { ch });
        i += 1;
        assert(out@ =~= dashes_to_spaces(c@.take(i as int)));
    }
    assert(c@.take(c.len() as int) =~= c@);
    text::string_of(&out)
}

/// A PDF book from the extracted text (blank text is empty content), its
/// paragraph HTML, the metadata and the file name stem.
pub fn pdf_book(meta: BookMetadata, stem: Option<&str>, extracted: &str, html: &str) -> (r: Result<
    OebBook,
    ConversionError,
>)
    ensures
        text::trim(extracted@).len() == 0 <==> r is Err,
        r matches Ok(b) ==> b@ == assembled(
            pdf_book_title(
                meta.title@,
                match stem {
                    Some(s) => Some(s@),
                    None => None,
                },
            ),
            meta,
            pdf_chapters(html@),
        ),
{
    let c = text::chars_of(extracted);
    if text::trim_chars(&c).len() == 0 {
        return Err(ConversionError::EmptyContent);
    }
    let title = if usable(&meta.title) {
        meta.title.clone()
    } else {
        match stem {
            Some(s) => dashes_to_spaces_string(s),
            None => String::from_str("Untitled"),
        }
    };
    let chapters = split_chapters(html);
    Ok(assemble(title, meta, chapters))
}

} // verus!
