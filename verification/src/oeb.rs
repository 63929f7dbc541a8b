//! The intermediate book model shared by the format parsers.
use vstd::prelude::*;

verus! {

/// One chapter: id, optional TOC title and XHTML body.
#[derive(Debug)]
pub struct OebChapter {
    pub id: String,
    pub title: Option<String>,
    pub html: String,
}

/// A parsed book: metadata and chapters in reading order.
#[derive(Debug)]
pub struct OebBook {
    pub title: String,
    pub authors: Vec<String>,
    pub language: String,
    pub description: Option<String>,
    pub chapters: Vec<OebChapter>,
}

/// Spec value of a chapter.
#[verifier::ext_equal]
pub struct ChapterModel {
    pub id: Seq<char>,
    pub title: Option<Seq<char>>,
    pub html: Seq<char>,
}

/// Spec value of a book.
#[verifier::ext_equal]
pub struct BookModel {
    pub title: Seq<char>,
    pub authors: Seq<Seq<char>>,
    pub language: Seq<char>,
    pub description: Option<Seq<char>>,
    pub chapters: Seq<ChapterModel>,
}

pub open spec fn opt_str(o: Option<String>) -> Option<Seq<char>> {
    match o {
        Some(s) => Some(s@),
        None => None,
    }
}

pub open spec fn strs(v: Seq<String>) -> Seq<Seq<char>> {
    v.map_values(|s: String| s@)
}

impl View for OebChapter {
    type V = ChapterModel;

    open spec fn view(&self) -> ChapterModel {
        ChapterModel { id: self.id@, title: opt_str(self.title), html: self.html@ }
    }
}

pub open spec fn chapter_models(v: Seq<OebChapter>) -> Seq<ChapterModel> {
    v.map_values(|c: OebChapter| c@)
}

impl View for OebBook {
    type V = BookModel;

    open spec fn view(&self) -> BookModel {
        BookModel {
            title: self.title@,
            authors: strs(self.authors@),
            language: self.language@,
            description: opt_str(self.description),
            chapters: chapter_models(self.chapters@),
        }
    }
}

impl OebBook {
    /// An empty book with the given title, language `en`.
    pub fn new(title: String) -> (r: OebBook)
        ensures
            r@.title == title@,
            r@.authors.len() == 0,
            r@.language == "en"@,
            r@.description is None,
            r@.chapters.len() == 0,
    {
        let b = OebBook {
            title,
            authors: Vec::new(),
            language: String::from_str("en"),
            description: None,
            chapters: Vec::new(),
        };
        assert(b@.authors =~= Seq::<Seq<char>>::empty());
        assert(b@.chapters =~= Seq::<ChapterModel>::empty());
        b
    }
}

} // verus!
