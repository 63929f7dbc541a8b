//! Online cover lookup decisions — Google Books first, Open Library second.
//!
//! The network requests and JSON decoding are performed by the caller; this
//! module decides which request comes next from each reply, builds the
//! request URLs, checks that downloaded payloads are images, and keeps the
//! at-most-one-attempt-per-book-per-run guard.
use vstd::prelude::*;
use std::collections::HashSet;
use crate::text;

verus! {

broadcast use vstd::std_specs::hash::group_hash_axioms;

// ──────────────────────────────────────────────────────────────────────────
// One attempt per book per run
// ──────────────────────────────────────────────────────────────────────────

/// Returns `true` (and marks the book) if this book id hasn't been attempted
/// yet this run, given the set of ids attempted so far.
pub fn try_begin_online_cover_attempt(attempted: &mut HashSet<i64>, book_id: i64) -> (r: bool)
    ensures
        r == !old(attempted)@.contains(book_id),
        final(attempted)@ == old(attempted)@.insert(book_id),
{
    attempted.insert(book_id)
}

/// The value that `uuid::Uuid::parse_str` gives for a string (as its
/// 128-bit number), or `None` where it rejects the string.
pub uninterp spec fn uuid_parse(s: Seq<char>) -> Option<u128>;

/// `uuid::Uuid::parse_str`, the parsed id taken as its 128-bit number
/// (`Uuid::as_u128`). The result is named by `uuid_parse`; the accepted
/// spellings (hyphenated, simple, braced, URN) are not restated here.
#[verifier::external_body]
fn parse_uuid(s: &str) -> (r: Option<u128>)
    ensures
        r == uuid_parse(s@),
{
    uuid::Uuid::parse_str(s).ok().map(|u| u.as_u128())
}

/// Decides whether a background lookup starts for a freshly imported book:
/// not without a runtime to run it (the book is then not marked), not for a
/// book already attempted this run, not for an unparsable book uuid. On
/// `Some(uuid)` the caller starts the lookup for that book.
pub fn begin_online_cover_lookup(
    attempted: &mut HashSet<i64>,
    runtime_available: bool,
    book_id: i64,
    book_uuid: &str,
) -> (r: Option<u128>)
    ensures
        !runtime_available ==> r is None && final(attempted)@ == old(attempted)@,
        runtime_available ==> final(attempted)@ == old(attempted)@.insert(book_id),
        runtime_available && old(attempted)@.contains(book_id) ==> r is None,
        runtime_available && !old(attempted)@.contains(book_id) ==> r == uuid_parse(book_uuid@),
{
    if !runtime_available {
        return None;
    }
    if !try_begin_online_cover_attempt(attempted, book_id) {
        return None;
    }
    parse_uuid(book_uuid)
}

// ──────────────────────────────────────────────────────────────────────────
// Image payloads
// ──────────────────────────────────────────────────────────────────────────

pub open spec fn bytes_start_with(d: Seq<u8>, p: Seq<u8>) -> bool {
    p.len() <= d.len() && d.take(p.len() as int) == p
}

/// JPEG, PNG, GIF, WebP (RIFF container) or BMP signature.
pub open spec fn spec_looks_like_image(d: Seq<u8>) -> bool {
    ||| bytes_start_with(d, seq![0xFFu8, 0xD8u8, 0xFFu8])
    ||| bytes_start_with(d, seq![0x89u8, 0x50u8, 0x4Eu8, 0x47u8, 0x0Du8, 0x0Au8, 0x1Au8, 0x0Au8])
    ||| bytes_start_with(d, seq![0x47u8, 0x49u8, 0x46u8, 0x38u8, 0x37u8, 0x61u8])
    ||| bytes_start_with(d, seq![0x47u8, 0x49u8, 0x46u8, 0x38u8, 0x39u8, 0x61u8])
    ||| (d.len() >= 12 && d.subrange(0, 4) == seq![0x52u8, 0x49u8, 0x46u8, 0x46u8] && d.subrange(
        8,
        12,
    ) == seq![0x57u8, 0x45u8, 0x42u8, 0x50u8])
    ||| bytes_start_with(d, seq![0x42u8, 0x4Du8])
}

fn bytes_match_at(d: &[u8], off: usize, p: &Vec<u8>) -> (r: bool)
    requires
        off <= d@.len(),
    ensures
        r == (off + p@.len() <= d@.len() && d@.subrange(off as int, off + p@.len()) == p@),
{
    if p.len() > d.len() - off {
        return false;
    }
    let mut i: usize = 0;
    while i < p.len()
        invariant
            off + p.len() <= d.len(),
            i <= p.len(),
            forall|j: int| 0 <= j < i ==> d@[off + j] == p@[j],
        decreases p.len() - i,
    {
        if d[off + i] != p[i] {
            assert(d@.subrange(off as int, off + p@.len())[i as int] != p@[i as int]);
            return false;
        }
        i += 1;
    }
    assert(d@.subrange(off as int, off + p@.len()) =~= p@);
    true
}

fn starts_with_bytes(d: &[u8], p: &Vec<u8>) -> (r: bool)
    ensures
        r == bytes_start_with(d@, p@),
{
    let b = bytes_match_at(d, 0, p);
    assert(p@.len() <= d@.len() ==> d@.take(p@.len() as int) =~= d@.subrange(0, p@.len() as int));
    b
}

/// Whether a payload carries a known image signature.
pub fn looks_like_image(data: &[u8]) -> (r: bool)
    ensures
        r == spec_looks_like_image(data@),
{
    let jpeg: Vec<u8> = vec![0xFFu8, 0xD8u8, 0xFFu8];
    let png: Vec<u8> = vec![0x89u8, 0x50u8, 0x4Eu8, 0x47u8, 0x0Du8, 0x0Au8, 0x1Au8, 0x0Au8];
    let gif87: Vec<u8> = vec![0x47u8, 0x49u8, 0x46u8, 0x38u8, 0x37u8, 0x61u8];
    let gif89: Vec<u8> = vec![0x47u8, 0x49u8, 0x46u8, 0x38u8, 0x39u8, 0x61u8];
    let riff: Vec<u8> = vec![0x52u8, 0x49u8, 0x46u8, 0x46u8];
    let webp: Vec<u8> = vec![0x57u8, 0x45u8, 0x42u8, 0x50u8];
    let bmp: Vec<u8> = vec![0x42u8, 0x4Du8];
    starts_with_bytes(data, &jpeg) || starts_with_bytes(data, &png) || starts_with_bytes(
        data,
        &gif87,
    ) || starts_with_bytes(data, &gif89) || (data.len() >= 12 && bytes_match_at(data, 0, &riff)
        && bytes_match_at(data, 8, &webp)) || starts_with_bytes(data, &bmp)
}

/// A downloaded payload is kept only when it has at least 512 bytes and an
/// image signature.
pub open spec fn accepted_image(d: Seq<u8>) -> bool {
    d.len() >= 512 && spec_looks_like_image(d)
}

/// The image a download reply yields: the bytes when the request delivered
/// an acceptable image, else nothing.
pub fn accept_image(reply: Option<Vec<u8>>) -> (r: Option<Vec<u8>>)
    ensures
        match reply {
            Some(b) => if accepted_image(b@) {
                r == Some(b)
            } else {
                r is None
            },
            None => r is None,
        },
{
    match reply {
        None => None,
        Some(bytes) => {
            if bytes.len() < 512 || !looks_like_image(bytes.as_slice()) {
                None
            } else {
                Some(bytes)
            }
        },
    }
}

// ──────────────────────────────────────────────────────────────────────────
// URLs
// ──────────────────────────────────────────────────────────────────────────

pub open spec fn is_unreserved(b: u8) -> bool {
    ||| (0x30 <= b && b <= 0x39)
    ||| (0x41 <= b && b <= 0x5A)
    ||| (0x61 <= b && b <= 0x7A)
    ||| b == 0x2D
    ||| b == 0x2E
    ||| b == 0x5F
    ||| b == 0x7E
}

/// Upper-case hexadecimal digit of `d < 16`.
pub open spec fn hex_upper(d: int) -> char {
    if d < 10 {
        (48 + d) as char
    } else {
        (55 + d) as char
    }
}

/// Percent-encoding of bytes: unreserved bytes stay, every other byte
/// becomes `%XY`.
pub open spec fn percent_encode_bytes(bs: Seq<u8>) -> Seq<char>
    decreases bs.len(),
{
    if bs.len() == 0 {
        Seq::empty()
    } else {
        (if is_unreserved(bs[0]) {
            seq![bs[0] as char]
        } else {
            seq!['%', hex_upper(bs[0] as int / 16), hex_upper(bs[0] as int % 16)]
        }) + percent_encode_bytes(bs.drop_first())
    }
}

/// Percent-encoding of a string's UTF-8 bytes.
pub open spec fn url_encoded(s: Seq<char>) -> Seq<char> {
    percent_encode_bytes(vstd::utf8::encode_utf8(s))
}

/// `urlencoding::encode`: every UTF-8 byte except the ASCII alphanumerics
/// and `-`, `.`, `_`, `~` becomes `%` and two upper-case hex digits.
#[verifier::external_body]
pub(crate) fn url_encode(s: &str) -> (r: String)
    ensures
        r@ == url_encoded(s@),
{
    urlencoding::encode(s).into_owned()
}

/// `s` with each non-overlapping occurrence of `from`, found left to right,
/// replaced by `to` (`str::replace` with a non-empty pattern).
pub open spec fn replace_all(s: Seq<char>, from: Seq<char>, to: Seq<char>) -> Seq<char>
    decreases s.len(),
{
    if from.len() == 0 || s.len() < from.len() {
        s
    } else if s.take(from.len() as int) == from {
        to + replace_all(s.skip(from.len() as int), from, to)
    } else {
        seq![s[0]] + replace_all(s.drop_first(), from, to)
    }
}

fn chars_match_at(s: &Vec<char>, off: usize, p: &Vec<char>) -> (r: bool)
    requires
        off <= s@.len(),
    ensures
        r == (off + p@.len() <= s@.len() && s@.subrange(off as int, off + p@.len()) == p@),
{
    if p.len() > s.len() - off {
        return false;
    }
    let mut i: usize = 0;
    while i < p.len()
        invariant
            off + p.len() <= s.len(),
            i <= p.len(),
            forall|j: int| 0 <= j < i ==> s@[off + j] == p@[j],
        decreases p.len() - i,
    {
        if s[off + i] != p[i] {
            assert(s@.subrange(off as int, off + p@.len())[i as int] != p@[i as int]);
            return false;
        }
        i += 1;
    }
    assert(s@.subrange(off as int, off + p@.len()) =~= p@);
    true
}

fn replace_all_exec(s: &Vec<char>, from: &Vec<char>, to: &Vec<char>) -> (r: Vec<char>)
    requires
        from.len() > 0,
    ensures
        r@ == replace_all(s@, from@, to@),
{
    let mut out: Vec<char> = Vec::new();
    let mut i: usize = 0;
    assert(s@.skip(0) =~= s@);
    while i < s.len()
        invariant
            i <= s.len(),
            from.len() > 0,
            replace_all(s@, from@, to@) == out@ + replace_all(s@.skip(i as int), from@, to@),
        decreases s.len() - i,
    {
        let ghost rest = s@.skip(i as int);
        let matched = chars_match_at(s, i, from);
        if matched {
            assert(rest.take(from@.len() as int) =~= s@.subrange(i as int, i + from@.len()));
        } else if s.len() - i >= from.len() {
            assert(rest.take(from@.len() as int) =~= s@.subrange(i as int, i + from@.len()));
        }
        if matched {
            text::append_chars(&mut out, to);
            assert(rest.skip(from@.len() as int) =~= s@.skip(i + from@.len()));
            i += from.len();
        } else {
            let ghost prev = out@;
            out.push(s[i]);
            assert(rest.drop_first() =~= s@.skip(i + 1));
            assert(prev + (seq![rest[0]] + replace_all(rest.drop_first(), from@, to@)) =~= out@
                + replace_all(s@.skip(i + 1), from@, to@));
            i += 1;
        }
    }
    assert(replace_all(s@.skip(i as int), from@, to@) =~= Seq::<char>::empty());
    assert(out@ + Seq::<char>::empty() =~= out@);
    out
}

/// Decimal rendering of an `i64` (`format!("{}", v)`).
pub open spec fn i64_decimal(v: i64) -> Seq<char> {
    if v < 0 {
        seq!['-'] + text::decimal((-v) as nat)
    } else {
        text::decimal(v as nat)
    }
}

fn i64_decimal_chars(v: i64) -> (r: Vec<char>)
    ensures
        r@ == i64_decimal(v),
{
    if v < 0 {
        let m: u64 = (0i128 - v as i128) as u64;
        let d = text::decimal_chars(m);
        let mut r: Vec<char> = Vec::new();
        r.push('-');
        text::append_chars(&mut r, &d);
        r
    } else {
        text::decimal_chars(v as u64)
    }
}

/// The endpoints a lookup talks to.
#[derive(Debug, Clone)]
pub struct CoverEndpoints {
    pub google_books_url: String,
    pub openlibrary_search_url: String,
    pub openlibrary_covers_url: String,
}

impl CoverEndpoints {
    /// The public Google Books and Open Library endpoints.
    pub fn default_endpoints() -> (r: CoverEndpoints)
        ensures
            r.google_books_url@ == "https://www.googleapis.com/books/v1/volumes"@,
            r.openlibrary_search_url@ == "https://openlibrary.org/search.json"@,
            r.openlibrary_covers_url@ == "https://covers.openlibrary.org"@,
    {
        CoverEndpoints {
            google_books_url: String::from_str("https://www.googleapis.com/books/v1/volumes"),
            openlibrary_search_url: String::from_str("https://openlibrary.org/search.json"),
            openlibrary_covers_url: String::from_str("https://covers.openlibrary.org"),
        }
    }
}

/// What the lookup asks the caller to do next.
#[derive(Debug)]
pub enum CoverAction {
    /// GET the Google Books search URL; reply with the first item's
    /// thumbnail link (None when the request, the JSON or the field fails).
    SearchGoogle(String),
    /// Download the Google Books thumbnail.
    DownloadGoogleImage(String),
    /// Download the Open Library cover for the ISBN.
    DownloadIsbnImage(String),
    /// GET the Open Library search URL; reply with the first doc's `cover_i`.
    SearchOpenLibrary(String),
    /// Download the Open Library cover for the `cover_i`.
    DownloadOpenLibraryImage(String),
    /// The lookup is over with this result.
    Done(Option<Vec<u8>>),
}

/// One online cover lookup for a book.
pub struct CoverLookup {
    pub endpoints: CoverEndpoints,
    pub title: String,
    pub author: Option<String>,
    pub isbn: Option<String>,
}

pub open spec fn opt_view(o: Option<String>) -> Option<Seq<char>> {
    match o {
        Some(s) => Some(s@),
        None => None,
    }
}

/// `{google}?q={encode("intitle:" + title [+ "+inauthor:" + author])}&maxResults=1`.
pub open spec fn google_search_url(base: Seq<char>, title: Seq<char>, author: Option<Seq<char>>) -> Seq<
    char,
> {
    let q = "intitle:"@ + title + match author {
        Some(a) => "+inauthor:"@ + a,
        None => Seq::empty(),
    };
    base + "?q="@ + url_encoded(q) + "&maxResults=1"@
}

/// `{covers}/b/isbn/{encode(isbn)}-L.jpg`.
pub open spec fn isbn_cover_url(covers: Seq<char>, isbn: Seq<char>) -> Seq<char> {
    covers + "/b/isbn/"@ + url_encoded(isbn) + "-L.jpg"@
}

/// `{search}?q={encode(title)[+encode(author)]}&limit=1&fields=cover_i`.
pub open spec fn open_library_search_url(
    search: Seq<char>,
    title: Seq<char>,
    author: Option<Seq<char>>,
) -> Seq<char> {
    let q = url_encoded(title) + match author {
        Some(a) => "+"@ + url_encoded(a),
        None => Seq::empty(),
    };
    search + "?q="@ + q + "&limit=1&fields=cover_i"@
}

/// `{covers}/b/id/{cover_i}-L.jpg`.
pub open spec fn cover_id_url(covers: Seq<char>, cover_i: i64) -> Seq<char> {
    covers + "/b/id/"@ + i64_decimal(cover_i) + "-L.jpg"@
}

/// Google serves thumbnails over `http://` at `zoom=1`; upgrade to https
/// and a larger zoom.
pub open spec fn upgraded_thumbnail(t: Seq<char>) -> Seq<char> {
    replace_all(replace_all(t, "http://"@, "https://"@), "&zoom=1"@, "&zoom=3"@)
}

impl CoverLookup {
    pub open spec fn isbn_query(&self) -> Option<Seq<char>> {
        match self.isbn {
            Some(i) => if text::trim(i@).len() > 0 {
                Some(text::trim(i@))
            } else {
                None
            },
            None => None,
        }
    }

    /// The action that follows the Google Books stage: the ISBN cover when
    /// an ISBN is known, else the Open Library title search.
    pub open spec fn after_google(&self) -> Seq<char> {
        match self.isbn_query() {
            Some(i) => isbn_cover_url(self.endpoints.openlibrary_covers_url@, i),
            None => open_library_search_url(
                self.endpoints.openlibrary_search_url@,
                self.title@,
                opt_view(self.author),
            ),
        }
    }

    /// The first request: the Google Books search.
    pub fn start(&self) -> (r: CoverAction)
        ensures
            r matches CoverAction::SearchGoogle(u) && u@ == google_search_url(
                self.endpoints.google_books_url@,
                self.title@,
                opt_view(self.author),
            ),
    {
        let mut q = String::from_str("intitle:");
        q.append(self.title.as_str());
        match &self.author {
            Some(a) => {
                q.append("+inauthor:");
                q.append(a.as_str());
            },
            None => {},
        }
        let mut url = self.endpoints.google_books_url.clone();
        url.append("?q=");
        let enc = url_encode(q.as_str());
        url.append(enc.as_str());
        url.append("&maxResults=1");
        proof {
            let a = match opt_view(self.author) {
                Some(a) => "+inauthor:"@ + a,
                None => Seq::<char>::empty(),
            };
            assert(q@ =~= "intitle:"@ + self.title@ + a);
        }
        CoverAction::SearchGoogle(url)
    }

    fn next_after_google(&self) -> (r: CoverAction)
        ensures
            self.isbn_query() is Some ==> (r matches CoverAction::DownloadIsbnImage(u) && u@
                == self.after_google()),
            self.isbn_query() is None ==> (r matches CoverAction::SearchOpenLibrary(u) && u@
                == self.after_google()),
    {
        match &self.isbn {
            Some(isbn) => {
                let ic = text::chars_of(isbn.as_str());
                let t = text::trim_chars(&ic);
                if t.len() > 0 {
                    let ts = text::string_of(&t);
                    let mut url = self.endpoints.openlibrary_covers_url.clone();
                    url.append("/b/isbn/");
                    let enc = url_encode(ts.as_str());
                    url.append(enc.as_str());
                    url.append("-L.jpg");
                    return CoverAction::DownloadIsbnImage(url);
                }
            },
            None => {},
        }
        self.open_library_search()
    }

    fn open_library_search(&self) -> (r: CoverAction)
        ensures
            r matches CoverAction::SearchOpenLibrary(u) && u@ == open_library_search_url(
                self.endpoints.openlibrary_search_url@,
                self.title@,
                opt_view(self.author),
            ),
    {
        let mut q = url_encode(self.title.as_str());
        match &self.author {
            Some(a) => {
                q.append("+");
                let ea = url_encode(a.as_str());
                q.append(ea.as_str());
            },
            None => {},
        }
        let mut url = self.endpoints.openlibrary_search_url.clone();
        url.append("?q=");
        url.append(q.as_str());
        url.append("&limit=1&fields=cover_i");
        proof {
            let a = match opt_view(self.author) {
                Some(a) => "+"@ + url_encoded(a),
                None => Seq::<char>::empty(),
            };
            assert(q@ =~= url_encoded(self.title@) + a);
        }
        CoverAction::SearchOpenLibrary(url)
    }

    /// After the Google Books search: download the (upgraded) thumbnail, or
    /// move on to Open Library when there is none.
    pub fn after_google_search(&self, thumbnail: Option<String>) -> (r: CoverAction)
        ensures
            thumbnail matches Some(t) ==> (r matches CoverAction::DownloadGoogleImage(u) && u@
                == upgraded_thumbnail(t@)),
            thumbnail is None && self.isbn_query() is Some ==> (r matches CoverAction::DownloadIsbnImage(u) && u@
                == self.after_google()),
            thumbnail is None && self.isbn_query() is None ==> (r matches CoverAction::SearchOpenLibrary(u) && u@
                == self.after_google()),
    {
        match thumbnail {
            Some(t) => {
                proof {
                    reveal_strlit("http://");
                    reveal_strlit("&zoom=1");
                }
                let tc = text::chars_of(t.as_str());
                let a = replace_all_exec(&tc, &text::chars_of("http://"), &text::chars_of("https://"));
                let b = replace_all_exec(&a, &text::chars_of("&zoom=1"), &text::chars_of("&zoom=3"));
                CoverAction::DownloadGoogleImage(text::string_of(&b))
            },
            None => self.next_after_google(),
        }
    }

    /// After the Google Books image download.
    pub fn after_google_image(&self, reply: Option<Vec<u8>>) -> (r: CoverAction)
        ensures
            reply matches Some(b) && accepted_image(b@) ==> r == CoverAction::Done(reply),
            !(reply matches Some(b) && accepted_image(b@)) && self.isbn_query() is Some ==> (r matches CoverAction::DownloadIsbnImage(u) && u@
                == self.after_google()),
            !(reply matches Some(b) && accepted_image(b@)) && self.isbn_query() is None ==> (r matches CoverAction::SearchOpenLibrary(u) && u@
                == self.after_google()),
    {
        match accept_image(reply) {
            Some(b) => CoverAction::Done(Some(b)),
            None => self.next_after_google(),
        }
    }

    /// After the ISBN cover download.
    pub fn after_isbn_image(&self, reply: Option<Vec<u8>>) -> (r: CoverAction)
        ensures
            reply matches Some(b) && accepted_image(b@) ==> r == CoverAction::Done(reply),
            !(reply matches Some(b) && accepted_image(b@)) ==> (r matches CoverAction::SearchOpenLibrary(u) && u@
                == open_library_search_url(
                self.endpoints.openlibrary_search_url@,
                self.title@,
                opt_view(self.author),
            )),
    {
        match accept_image(reply) {
            Some(b) => CoverAction::Done(Some(b)),
            None => self.open_library_search(),
        }
    }

    /// After the Open Library search: download the cover of the first doc's
    /// `cover_i`, or give up.
    pub fn after_open_library_search(&self, cover_i: Option<i64>) -> (r: CoverAction)
        ensures
            cover_i matches Some(id) ==> (r matches CoverAction::DownloadOpenLibraryImage(u) && u@
                == cover_id_url(self.endpoints.openlibrary_covers_url@, id)),
            cover_i is None ==> r == CoverAction::Done(None),
    {
        match cover_i {
            Some(id) => {
                let mut url = self.endpoints.openlibrary_covers_url.clone();
                url.append("/b/id/");
                let d = text::string_of(&i64_decimal_chars(id));
                url.append(d.as_str());
                url.append("-L.jpg");
                CoverAction::DownloadOpenLibraryImage(url)
            },
            None => CoverAction::Done(None),
        }
    }

    /// After the Open Library cover download: the lookup ends.
    pub fn after_open_library_image(&self, reply: Option<Vec<u8>>) -> (r: CoverAction)
        ensures
            reply matches Some(b) && accepted_image(b@) ==> r == CoverAction::Done(reply),
            !(reply matches Some(b) && accepted_image(b@)) ==> r == CoverAction::Done(None),
    {
        CoverAction::Done(accept_image(reply))
    }
}

} // verus!
