//! Plain-text views of small HTML fragments and the chapter-heading
//! heuristic shared by the TXT, DOCX and PDF post-passes.
use vstd::prelude::*;
use crate::text;

verus! {

/// Characters of `s` outside `<...>` tags; `in_tag` says whether `s` starts
/// inside a tag.
pub open spec fn strip_tags_from(s: Seq<char>, in_tag: bool) -> Seq<char>
    decreases s.len(),
{
    if s.len() == 0 {
        Seq::empty()
    } else if s[0] == '<' {
        strip_tags_from(s.drop_first(), true)
    } else if s[0] == '>' {
        strip_tags_from(s.drop_first(), false)
    } else if in_tag {
        strip_tags_from(s.drop_first(), true)
    } else {
        seq![s[0]] + strip_tags_from(s.drop_first(), false)
    }
}

/// The named and numeric character references that are decoded, with
/// their replacement.
pub open spec fn entity_at(s: Seq<char>) -> Option<(int, char)> {
    if text::starts_with(s, "&amp;"@) {
        Some((5, '&'))
    } else if text::starts_with(s, "&lt;"@) {
        Some((4, '<'))
    } else if text::starts_with(s, "&gt;"@) {
        Some((4, '>'))
    } else if text::starts_with(s, "&quot;"@) {
        Some((6, '"'))
    } else if text::starts_with(s, "&#39;"@) {
        Some((5, '\''))
    } else if text::starts_with(s, "&apos;"@) {
        Some((6, '\''))
    } else if text::starts_with(s, "&nbsp;"@) {
        Some((6, ' '))
    } else {
        None
    }
}

/// `s` with the character references of [`entity_at`] decoded, left to
/// right.
pub open spec fn decode_entities(s: Seq<char>) -> Seq<char>
    decreases s.len(),
{
    if s.len() == 0 {
        Seq::empty()
    } else {
        match entity_at(s) {
            Some((n, c)) => if 0 < n <= s.len() {
                seq![c] + decode_entities(s.skip(n))
            } else {
                seq![s[0]] + decode_entities(s.drop_first())
            },
            None => seq![s[0]] + decode_entities(s.drop_first()),
        }
    }
}

/// Plain text of an HTML fragment: tags removed, then the common character
/// references decoded.
pub open spec fn spec_strip_html_tags(s: Seq<char>) -> Seq<char> {
    decode_entities(strip_tags_from(s, false))
}

fn strip_tags_chars(s: &Vec<char>) -> (r: Vec<char>)
    ensures
        r@ == strip_tags_from(s@, false),
{
    let mut out: Vec<char> = Vec::new();
    let mut in_tag = false;
    let mut i: usize = 0;
    assert(s@.skip(0) =~= s@);
    while i < s.len()
        invariant
            i <= s.len(),
            strip_tags_from(s@, false) == out@ + strip_tags_from(s@.skip(i as int), in_tag),
        decreases s.len() - i,
    {
        let ghost rest = s@.skip(i as int);
        assert(rest[0] == s@[i as int]);
        assert(rest.drop_first() =~= s@.skip(i + 1));
        let c = s[i];
        if c == '<' {
            in_tag = true;
        } else if c == '>' {
            in_tag = false;
        } else if !in_tag {
            let ghost prev = out@;
            out.push(c);
            assert(prev + (seq![c] + strip_tags_from(s@.skip(i + 1), false)) =~= out@
                + strip_tags_from(s@.skip(i + 1), false));
        }
        i += 1;
    }
    assert(out@ + Seq::<char>::empty() =~= out@);
    out
}

fn entity_at_exec(s: &Vec<char>, i: usize) -> (r: Option<(usize, char)>)
    requires
        i <= s.len(),
    ensures
        match r {
            Some((n, c)) => entity_at(s@.skip(i as int)) == Some((n as int, c)),
            None => entity_at(s@.skip(i as int)) is None,
        },
{
    let rest = text::slice_chars(s, i, s.len());
    assert(rest@ =~= s@.skip(i as int));
    if text::starts_with_exec(&rest, &text::chars_of("&amp;")) {
        Some((5, '&'))
    } else if text::starts_with_exec(&rest, &text::chars_of("&lt;")) {
        Some((4, '<'))
    } else if text::starts_with_exec(&rest, &text::chars_of("&gt;")) {
        Some((4, '>'))
    } else if text::starts_with_exec(&rest, &text::chars_of("&quot;")) {
        Some((6, '"'))
    } else if text::starts_with_exec(&rest, &text::chars_of("&#39;")) {
        Some((5, '\''))
    } else if text::starts_with_exec(&rest, &text::chars_of("&apos;")) {
        Some((6, '\''))
    } else if text::starts_with_exec(&rest, &text::chars_of("&nbsp;")) {
        Some((6, ' '))
    } else {
        None
    }
}

fn decode_entities_chars(s: &Vec<char>) -> (r: Vec<char>)
    ensures
        r@ == decode_entities(s@),
{
    let mut out: Vec<char> = Vec::new();
    let mut i: usize = 0;
    assert(s@.skip(0) =~= s@);
    while i < s.len()
        invariant
            i <= s.len(),
            decode_entities(s@) == out@ + decode_entities(s@.skip(i as int)),
        decreases s.len() - i,
    {
        let ghost rest = s@.skip(i as int);
        let ghost prev = out@;
        match entity_at_exec(s, i) {
            Some((n, c)) => {
                if 0 < n && n <= s.len() - i {
                    out.push(c);
                    assert(rest.skip(n as int) =~= s@.skip(i + n));
                    assert(prev + (seq![c] + decode_entities(s@.skip(i + n))) =~= out@
                        + decode_entities(s@.skip(i + n)));
                    i += n;
                } else {
                    out.push(s[i]);
                    assert(rest.drop_first() =~= s@.skip(i + 1));
                    assert(prev + (seq![rest[0]] + decode_entities(s@.skip(i + 1))) =~= out@
                        + decode_entities(s@.skip(i + 1)));
                    i += 1;
                }
            },
            None => {
                out.push(s[i]);
                assert(rest.drop_first() =~= s@.skip(i + 1));
                assert(prev + (seq![rest[0]] + decode_entities(s@.skip(i + 1))) =~= out@
                    + decode_entities(s@.skip(i + 1)));
                i += 1;
            },
        }
    }
    assert(out@ + Seq::<char>::empty() =~= out@);
    out
}

/// Plain text of an HTML fragment (see [`spec_strip_html_tags`]).
pub fn strip_html_tags_chars(s: &Vec<char>) -> (r: Vec<char>)
    ensures
        r@ == spec_strip_html_tags(s@),
{
    let t = strip_tags_chars(s);
    decode_entities_chars(&t)
}

/// Plain text of an HTML fragment (see [`spec_strip_html_tags`]).
pub fn strip_html_tags(s: &str) -> (r: String)
    ensures
        r@ == spec_strip_html_tags(s@),
{
    let c = text::chars_of(s);
    text::string_of(&strip_html_tags_chars(&c))
}

/// XML escaping of `&`, `<`, `>`, `"` and `'`.
pub open spec fn escape_xml(s: Seq<char>) -> Seq<char>
    decreases s.len(),
{
    if s.len() == 0 {
        Seq::empty()
    } else {
        (if s[0] == '&' {
            "&amp;"@
        } else if s[0] == '<' {
            "&lt;"@
        } else if s[0] == '>' {
            "&gt;"@
        } else if s[0] == '"' {
            "&quot;"@
        } else if s[0] == '\'' {
            "&apos;"@
        } else {
            seq![s[0]]
        }) + escape_xml(s.drop_first())
    }
}

/// XML escaping (see [`escape_xml`]).
pub fn escape_xml_chars(s: &Vec<char>) -> (r: Vec<char>)
    ensures
        r@ == escape_xml(s@),
{
    let mut out: Vec<char> = Vec::new();
    let mut i: usize = 0;
    assert(s@.skip(0) =~= s@);
    while i < s.len()
        invariant
            i <= s.len(),
            escape_xml(s@) == out@ + escape_xml(s@.skip(i as int)),
        decreases s.len() - i,
    {
        let ghost rest = s@.skip(i as int);
        let ghost prev = out@;
        assert(rest[0] == s@[i as int]);
        assert(rest.drop_first() =~= s@.skip(i + 1));
        let c = s[i];
        let rep: Vec<char> = if c == '&' {
            text::chars_of("&amp;")
        } else if c == '<' {
            text::chars_of("&lt;")
        } else if c == '>' {
            text::chars_of("&gt;")
        } else if c == '"' {
            text::chars_of("&quot;")
        } else if c == '\'' {
            text::chars_of("&apos;")
        } else {
            let mut v = Vec::new();
            v.push(c);
            assert(v@ =~= seq![c]);
            v
        };
        text::append_chars(&mut out, &rep);
        assert(prev + (rep@ + escape_xml(s@.skip(i + 1))) =~= out@ + escape_xml(s@.skip(i + 1)));
        i += 1;
    }
    assert(out@ + Seq::<char>::empty() =~= out@);
    out
}

// ──────────────────────────────────────────────────────────────────────────
// Chapter / section headings
// ──────────────────────────────────────────────────────────────────────────

/// Section keywords that mark a line as a chapter/front-matter heading.
pub open spec fn section_keywords() -> Seq<Seq<char>> {
    seq![
        "chapter"@,
        "part"@,
        "book"@,
        "prologue"@,
        "epilogue"@,
        "introduction"@,
        "preface"@,
        "afterword"@,
        "appendix"@,
        "interlude"@,
        "act"@,
        "scene"@,
        "volume"@,
        "section"@,
    ]
}

/// The (trimmed) text lower-cases to the keyword, or to the keyword
/// followed by white space.
pub open spec fn is_keyword_heading(t: Seq<char>, kw: Seq<char>) -> bool {
    ||| text::lower_is(t, kw)
    ||| (text::lower_starts_with(t, kw) && t.len() > kw.len() && text::is_ws(t[kw.len() as int]))
}

/// Some section keyword opens the text.
pub open spec fn starts_with_section_keyword(t: Seq<char>) -> bool {
    exists|k: int| 0 <= k < section_keywords().len() && is_keyword_heading(t, #[trigger] section_keywords()[k])
}

/// Upper-case ASCII letters and no lower-case ones ("PART II").
pub open spec fn all_caps(t: Seq<char>) -> bool {
    &&& exists|i: int| 0 <= i < t.len() && 'A' <= #[trigger] t[i] <= 'Z'
    &&& forall|i: int| 0 <= i < t.len() ==> !('a' <= #[trigger] t[i] <= 'z')
}

/// The heading heuristic: after trimming, a keyword heading, an all-caps
/// line, or a line that starts with a digit.
pub open spec fn spec_looks_like_heading(s: Seq<char>) -> bool {
    let t = text::trim(s);
    t.len() > 0 && (starts_with_section_keyword(t) || all_caps(t) || text::is_ascii_digit(t[0]))
}

fn keyword_strs() -> (r: Vec<&'static str>)
    ensures
        r@.len() == section_keywords().len(),
        forall|k: int| 0 <= k < r@.len() ==> (#[trigger] r@[k])@ == section_keywords()[k],
{
    let v = vec![
        "chapter",
        "part",
        "book",
        "prologue",
        "epilogue",
        "introduction",
        "preface",
        "afterword",
        "appendix",
        "interlude",
        "act",
        "scene",
        "volume",
        "section",
    ];
    v
}

/// Some section keyword opens `t` (see [`starts_with_section_keyword`]).
pub fn starts_with_section_keyword_exec(t: &Vec<char>) -> (r: bool)
    ensures
        r == starts_with_section_keyword(t@),
{
    let kws = keyword_strs();
    let mut k: usize = 0;
    while k < kws.len()
        invariant
            k <= kws.len(),
            kws@.len() == section_keywords().len(),
            forall|j: int| 0 <= j < kws@.len() ==> (#[trigger] kws@[j])@ == section_keywords()[j],
            forall|j: int| 0 <= j < k ==> !is_keyword_heading(t@, #[trigger] section_keywords()[j]),
        decreases kws.len() - k,
    {
        let kw = text::chars_of(kws[k]);
        assert(kw@ == section_keywords()[k as int]);
        if text::lower_is_exec(t, &kw) {
            return true;
        }
        if text::lower_starts_with_exec(t, &kw) && t.len() > kw.len() && text::is_whitespace(
            t[kw.len()],
        ) {
            return true;
        }
        k += 1;
    }
    false
}

fn all_caps_exec(t: &Vec<char>) -> (r: bool)
    ensures
        r == all_caps(t@),
{
    let mut upper = false;
    let mut i: usize = 0;
    while i < t.len()
        invariant
            i <= t.len(),
            upper == exists|j: int| 0 <= j < i && 'A' <= #[trigger] t@[j] <= 'Z',
            forall|j: int| 0 <= j < i ==> !('a' <= #[trigger] t@[j] <= 'z'),
        decreases t.len() - i,
    {
        if 'a' <= t[i] && t[i] <= 'z' {
            return false;
        }
        if 'A' <= t[i] && t[i] <= 'Z' {
            upper = true;
        }
        i += 1;
    }
    upper
}

/// The heading heuristic (see [`spec_looks_like_heading`]).
pub fn looks_like_heading_chars(s: &Vec<char>) -> (r: bool)
    ensures
        r == spec_looks_like_heading(s@),
{
    let t = text::trim_chars(s);
    t.len() > 0 && (starts_with_section_keyword_exec(&t) || all_caps_exec(&t) || ('0' <= t[0]
        && t[0] <= '9'))
}

} // verus!
