//! Markdown format adapter: metadata inference, validation counts and the
//! conversion capabilities of `.md` / `.markdown` books.
use vstd::prelude::*;
use crate::text;

verus! {

/// Adapter for Markdown text files.
pub struct MarkdownFormatAdapter;

/// What a format supports in the reader and converter.
#[derive(Debug, Clone, Copy, PartialEq, Eq, Structural)]
pub struct FormatCapabilities {
    pub supports_toc: bool,
    pub supports_images: bool,
    pub supports_text_reflow: bool,
    pub supports_annotations: bool,
    pub supports_metadata: bool,
    pub is_readable: bool,
    pub supports_search: bool,
}

/// Errors of the format adapters.
#[derive(Debug)]
pub enum FormatError {
    ConversionNotSupported { from: String, to: String },
    ConversionError(String),
}

/// Book metadata inferred by a format adapter.
#[derive(Debug, Default)]
pub struct BookMetadata {
    pub title: String,
    pub authors: Vec<String>,
    pub publisher: Option<String>,
    pub pubdate: Option<String>,
    pub isbn: Option<String>,
    pub language: Option<String>,
    pub description: Option<String>,
    pub tags: Vec<String>,
    pub series: Option<String>,
    pub file_format: String,
    pub file_size: u64,
    pub page_count: Option<u32>,
    pub word_count: Option<u32>,
}

/// `count_words` as a spec: the number of white-space separated words,
/// truncated to `u32`.
pub open spec fn spec_count_words(text: Seq<char>) -> u32 {
    text::word_count(text) as u32
}

/// `estimate_pages` as a spec: one page per 250 words, at least one page.
pub open spec fn spec_estimate_pages(text: Seq<char>) -> u32 {
    let w = spec_count_words(text);
    if w / 250 >= 1 {
        (w / 250) as u32
    } else {
        1u32
    }
}

/// The heading text of a line that starts (after trimming) with `# `, `## `
/// or `### `, tried in that order.
pub open spec fn heading_text(line: Seq<char>) -> Option<Seq<char>> {
    let t = text::trim(line);
    if text::starts_with(t, "# "@) {
        Some(t.skip(2))
    } else if text::starts_with(t, "## "@) {
        Some(t.skip(3))
    } else if text::starts_with(t, "### "@) {
        Some(t.skip(4))
    } else {
        None
    }
}

/// The trimmed text of the first heading line with non-empty text.
pub open spec fn first_heading(ls: Seq<Seq<char>>) -> Option<Seq<char>>
    decreases ls.len(),
{
    if ls.len() == 0 {
        None
    } else {
        match heading_text(ls[0]) {
            Some(h) if text::trim(h).len() > 0 => Some(text::trim(h)),
            _ => first_heading(ls.drop_first()),
        }
    }
}

/// The book title a Markdown file gets: its first heading, else the file
/// name stem, else `Untitled`.
pub open spec fn markdown_title(content: Seq<char>, stem: Option<Seq<char>>) -> Seq<char> {
    match first_heading(text::lines(content)) {
        Some(h) => h,
        None => match stem {
            Some(s) => s,
            None => "Untitled"@,
        },
    }
}

/// The message `std::str::from_utf8` reports for bytes that are not valid
/// UTF-8 (its error displayed), or `None` for valid UTF-8.
pub uninterp spec fn utf8_error(b: Seq<u8>) -> Option<Seq<char>>;

/// `std::str::from_utf8`, its error displayed (`Utf8Error`'s `Display`).
/// Claimed: the result is the named outcome for the bytes, and there is no
/// error exactly for valid UTF-8.
#[verifier::external_body]
fn utf8_check(b: &[u8]) -> (r: Option<String>)
    ensures
        crate::oeb::opt_str(r) == utf8_error(b@),
        r is None <==> vstd::utf8::valid_utf8(b@),
{
    match std::str::from_utf8(b) {
        Ok(_) => None,
        Err(e) => Some(e.to_string()),
    }
}

/// Bytes of a Markdown file checked for UTF-8.
pub const HEAD_BYTES: usize = 4096;

/// From byte `k`, step back over at most `n` continuation bytes (the bytes
/// inside a character), stopping at the end of the data.
pub open spec fn back_off(d: Seq<u8>, k: int, n: nat) -> int
    decreases n,
{
    if n == 0 || k <= 0 || k >= d.len() || !vstd::utf8::is_continuation_byte(d[k]) {
        k
    } else {
        back_off(d, k - 1, (n - 1) as nat)
    }
}

/// The length of the checked head: the first [`HEAD_BYTES`] bytes (all of
/// shorter data), cut back to the start of the character they end in.
pub open spec fn head_len(d: Seq<u8>) -> int {
    back_off(
        d,
        if d.len() < HEAD_BYTES {
            d.len() as int
        } else {
            HEAD_BYTES as int
        },
        3,
    )
}

/// A valid UTF-8 text begins with a byte that does not continue a
/// character.
proof fn lemma_valid_first_byte(d: Seq<u8>)
    requires
        vstd::utf8::valid_utf8(d),
        d.len() > 0,
    ensures
        !vstd::utf8::is_continuation_byte(d[0]),
{
}

/// In valid UTF-8, a prefix ending where a character starts is valid, and
/// a byte inside a character lies at most three bytes after its start.
proof fn lemma_boundary(d: Seq<u8>, k: int)
    requires
        vstd::utf8::valid_utf8(d),
        0 <= k <= d.len(),
    ensures
        (k == d.len() || !vstd::utf8::is_continuation_byte(d[k])) ==> vstd::utf8::valid_utf8(
            d.take(k),
        ),
        (0 < k < d.len() && vstd::utf8::is_continuation_byte(d[k])) ==> exists|p: int|
            0 <= p && k - 3 <= p < k && !vstd::utf8::is_continuation_byte(#[trigger] d[p]) && forall|q: int|
                p < q <= k ==> vstd::utf8::is_continuation_byte(#[trigger] d[q]),
    decreases d.len(),
{
    if d.len() == 0 {
        assert(d.take(k) =~= d);
        return;
    }
    let l = vstd::utf8::length_of_first_scalar(d);
    let rest = vstd::utf8::pop_first_scalar(d);
    assert(1 <= l <= 4 && l <= d.len());
    assert(rest =~= d.subrange(l, d.len() as int));
    assert(!vstd::utf8::is_continuation_byte(d[0]));
    assert forall|q: int| 0 < q < l implies vstd::utf8::is_continuation_byte(#[trigger] d[q]) by {}
    if k < l {
        if k == 0 {
            assert(d.take(0) =~= Seq::<u8>::empty());
        } else {
            assert(forall|q: int| 0 < q <= k ==> vstd::utf8::is_continuation_byte(#[trigger] d[q]));
            assert(k - 3 <= 0);
            assert(!vstd::utf8::is_continuation_byte(d[0]));
        }
    } else {
        lemma_boundary(rest, k - l);
        if k == d.len() || !vstd::utf8::is_continuation_byte(d[k]) {
            let t = d.take(k);
            if k == d.len() {
                assert(t =~= d);
            } else {
                assert(rest[k - l] == d[k]);
                assert(t.subrange(0, l) =~= d.subrange(0, l));
                assert(vstd::utf8::valid_first_scalar(t));
                assert(vstd::utf8::pop_first_scalar(t) =~= rest.take(k - l));
            }
        }
        if 0 < k < d.len() && vstd::utf8::is_continuation_byte(d[k]) {
            assert(rest[k - l] == d[k]);
            if k == l {
                lemma_valid_first_byte(rest);
            }
            let p0 = choose|p: int|
                0 <= p && k - l - 3 <= p < k - l && !vstd::utf8::is_continuation_byte(#[trigger] rest[p])
                    && forall|q: int|
                    p < q <= k - l ==> vstd::utf8::is_continuation_byte(#[trigger] rest[q]);
            assert(d[p0 + l] == rest[p0]);
            assert forall|q: int| p0 + l < q <= k implies vstd::utf8::is_continuation_byte(
                #[trigger] d[q],
            ) by {
                assert(d[q] == rest[q - l]);
            }
        }
    }
}

proof fn lemma_back_off(d: Seq<u8>, k: int, n: nat, p: int)
    requires
        0 <= p <= k < d.len(),
        k - p <= n,
        !vstd::utf8::is_continuation_byte(d[p]),
        forall|q: int| p < q <= k ==> vstd::utf8::is_continuation_byte(#[trigger] d[q]),
    ensures
        back_off(d, k, n) == p,
    decreases n,
{
    if k > p {
        assert(vstd::utf8::is_continuation_byte(d[k]));
        lemma_back_off(d, k - 1, (n - 1) as nat, p);
    }
}

/// The checked head of valid UTF-8 is valid UTF-8.
proof fn lemma_head_valid(d: Seq<u8>)
    requires
        vstd::utf8::valid_utf8(d),
    ensures
        vstd::utf8::valid_utf8(d.take(head_len(d))),
{
    let k0: int = if d.len() < HEAD_BYTES {
        d.len() as int
    } else {
        HEAD_BYTES as int
    };
    lemma_boundary(d, k0);
    if 0 < k0 < d.len() && vstd::utf8::is_continuation_byte(d[k0]) {
        let p = choose|p: int|
            0 <= p && k0 - 3 <= p < k0 && !vstd::utf8::is_continuation_byte(#[trigger] d[p]) && forall|q: int|
                p < q <= k0 ==> vstd::utf8::is_continuation_byte(#[trigger] d[q]);
        lemma_back_off(d, k0, 3, p);
        lemma_boundary(d, p);
    } else {
        assert(head_len(d) == k0);
    }
}

/// Count words in text.
pub fn count_words(text: &str) -> (r: u32)
    ensures
        r == spec_count_words(text@),
{
    let chars = text::chars_of(text);
    let n = text::count_words_chars(&chars);
    n as u32
}

/// Estimate page count (assuming ~250 words per page).
pub fn estimate_pages(text: &str) -> (r: u32)
    ensures
        r == spec_estimate_pages(text@),
{
    let words = count_words(text);
    let pages = words / 250;
    if pages >= 1 {
        pages
    } else {
        1
    }
}

fn heading_text_exec(line: &Vec<char>) -> (r: Option<Vec<char>>)
    ensures
        match r {
            Some(h) => heading_text(line@) == Some(h@),
            None => heading_text(line@) is None,
        },
{
    proof {
        reveal_strlit("# ");
        reveal_strlit("## ");
        reveal_strlit("### ");
    }
    let t = text::trim_chars(line);
    let p1 = text::chars_of("# ");
    let p2 = text::chars_of("## ");
    let p3 = text::chars_of("### ");
    if text::starts_with_exec(&t, &p1) {
        Some(text::slice_chars(&t, 2, t.len()))
    } else if text::starts_with_exec(&t, &p2) {
        Some(text::slice_chars(&t, 3, t.len()))
    } else if text::starts_with_exec(&t, &p3) {
        Some(text::slice_chars(&t, 4, t.len()))
    } else {
        None
    }
}

/// Extract the first `# ` (or `## `, `### `) heading as a title candidate.
pub fn extract_first_heading(content: &str) -> (r: Option<String>)
    ensures
        match r {
            Some(h) => first_heading(text::lines(content@)) == Some(h@),
            None => first_heading(text::lines(content@)) is None,
        },
{
    let chars = text::chars_of(content);
    let ls = text::lines_of(&chars);
    let ghost all = text::lines(content@);
    let mut i: usize = 0;
    assert(all.skip(0) =~= all);
    while i < ls.len()
        invariant
            i <= ls.len(),
            all == text::char_views(ls@),
            all == text::lines(content@),
            first_heading(all) == first_heading(all.skip(i as int)),
        decreases ls.len() - i,
    {
        let ghost rest = all.skip(i as int);
        assert(rest[0] == ls@[i as int]@);
        assert(rest.drop_first() =~= all.skip(i + 1));
        if let Some(h) = heading_text_exec(&ls[i]) {
            let th = text::trim_chars(&h);
            if th.len() > 0 {
                return Some(text::string_of(&th));
            }
        }
        i += 1;
    }
    None
}

impl MarkdownFormatAdapter {
    pub fn new() -> (r: Self) {
        MarkdownFormatAdapter
    }

    /// The adapter's format identifier.
    pub fn format_id(&self) -> (r: &'static str)
        ensures
            r@ == "markdown"@,
    {
        "markdown"
    }

    /// Markdown converts to EPUB only.
    pub fn can_convert_to(&self, target: &str) -> (r: bool)
        ensures
            r == (target@ == "epub"@),
    {
        let t = text::chars_of(target);
        let e = text::chars_of("epub");
        if t.len() != e.len() {
            return false;
        }
        let b = text::starts_with_exec(&t, &e);
        assert(t@.take(e@.len() as int) =~= t@);
        b
    }

    /// Conversion itself is done by the conversion engine: an unsupported
    /// target is refused, a supported one is referred to the engine.
    pub fn convert_to(&self, target_format: &str) -> (r: Result<(), FormatError>)
        ensures
            target_format@ != "epub"@ ==> (r matches Err(FormatError::ConversionNotSupported {
                from,
                to,
            }) && from@ == "markdown"@ && to@ == target_format@),
            target_format@ == "epub"@ ==> (r matches Err(FormatError::ConversionError(msg))
                && msg@ == "Conversion not yet implemented. Use ConversionEngine."@),
    {
        if !self.can_convert_to(target_format) {
            return Err(
                FormatError::ConversionNotSupported {
                    from: String::from_str("markdown"),
                    to: String::from_str(target_format),
                },
            );
        }
        Err(
            FormatError::ConversionError(
                String::from_str("Conversion not yet implemented. Use ConversionEngine."),
            ),
        )
    }

    /// Validation of a Markdown file from its bytes: the file is text when
    /// its first 4 KiB, cut back to a character boundary, are valid UTF-8;
    /// then the word and page counts of its (lossily decoded) content are
    /// given; otherwise the UTF-8 error is reported.
    pub fn validate(&self, data: &[u8]) -> (r: Result<(u32, u32), String>)
        ensures
            utf8_error(data@.take(head_len(data@))) is None ==> r == Ok::<(u32, u32), String>(
                (
                    spec_count_words(crate::docx_meta::utf8_lossy(data@)),
                    spec_estimate_pages(crate::docx_meta::utf8_lossy(data@)),
                ),
            ),
            utf8_error(data@.take(head_len(data@))) matches Some(m) ==> (r matches Err(e) && e@
                == "Invalid UTF-8 encoding: "@ + utf8_error(data@.take(head_len(data@)))->Some_0),
            vstd::utf8::valid_utf8(data@) ==> r is Ok,
    {
        let k0: usize = if data.len() < HEAD_BYTES {
            data.len()
        } else {
            HEAD_BYTES
        };
        let mut k: usize = k0;
        let mut n: usize = 3;
        while n > 0 && k > 0 && k < data.len() && 0x80u8 <= data[k] && data[k] <= 0xbfu8
            invariant
                k <= k0 <= data.len(),
                n <= 3,
                head_len(data@) == back_off(data@, k as int, n as nat),
            decreases n,
        {
            k -= 1;
            n -= 1;
        }
        let head = vstd::slice::slice_subrange(data, 0, k);
        assert(head@ =~= data@.take(k as int));
        proof {
            if vstd::utf8::valid_utf8(data@) {
                lemma_head_valid(data@);
            }
        }
        match utf8_check(head) {
            None => {
                let content = crate::docx_meta::from_utf8_lossy(data);
                Ok((count_words(content.as_str()), estimate_pages(content.as_str())))
            },
            Some(m) => {
                let mut e = String::from_str("Invalid UTF-8 encoding: ");
                e.append(m.as_str());
                Err(e)
            },
        }
    }

    /// Markdown has no embedded cover.
    pub fn extract_cover(&self) -> (r: Option<Vec<u8>>)
        ensures
            r is None,
    {
        None
    }

    /// What the reader supports for Markdown books.
    pub fn capabilities(&self) -> (r: FormatCapabilities)
        ensures
            r == (FormatCapabilities {
                supports_toc: true,
                supports_images: false,
                supports_text_reflow: true,
                supports_annotations: true,
                supports_metadata: false,
                is_readable: true,
                supports_search: true,
            }),
    {
        FormatCapabilities {
            supports_toc: true,
            supports_images: false,
            supports_text_reflow: true,
            supports_annotations: true,
            supports_metadata: false,
            is_readable: true,
            supports_search: true,
        }
    }

    /// Metadata of a Markdown book from its (lossily decoded) content, its
    /// file name stem and its size: the first heading (else the stem, else
    /// `Untitled`) is the title, the language is `en`, the word and page
    /// counts are filled in, everything else is empty.
    pub fn metadata_from_content(&self, content: &str, file_stem: Option<&str>, file_size: u64) -> (r:
        BookMetadata)
        ensures
            r.title@ == markdown_title(
                content@,
                match file_stem {
                    Some(s) => Some(s@),
                    None => None,
                },
            ),
            r.authors@.len() == 0,
            r.publisher is None && r.pubdate is None && r.isbn is None,
            r.language matches Some(l) && l@ == "en"@,
            r.description is None && r.tags@.len() == 0 && r.series is None,
            r.file_format@ == "markdown"@,
            r.file_size == file_size,
            r.word_count == Some(spec_count_words(content@)),
            r.page_count == Some(spec_estimate_pages(content@)),
    {
        let title = match extract_first_heading(content) {
            Some(h) => h,
            None => match file_stem {
                Some(s) => String::from_str(s),
                None => String::from_str("Untitled"),
            },
        };
        BookMetadata {
            title,
            authors: Vec::new(),
            publisher: None,
            pubdate: None,
            isbn: None,
            language: Some(String::from_str("en")),
            description: None,
            tags: Vec::new(),
            series: None,
            file_format: String::from_str("markdown"),
            file_size,
            page_count: Some(estimate_pages(content)),
            word_count: Some(count_words(content)),
        }
    }
}

} // verus!
