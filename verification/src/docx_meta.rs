//! DOCX core properties: `dc:title` and `dc:creator` from
//! `docProps/core.xml`. The zip container is opened by the `zip` crate and
//! the XML tokenized by `quick-xml`; picking the properties out of the
//! token stream is verified here.
use vstd::prelude::*;
use std::io::Read;
use quick_xml::events::Event;
use crate::text;
use crate::oeb::opt_str;

verus! {

/// The text of a zip archive member, when the archive opens, holds the
/// member and the member reads as UTF-8.
pub uninterp spec fn zip_member_text(data: Seq<u8>, name: Seq<char>) -> Option<Seq<char>>;

/// `zip::ZipArchive::new` over the bytes, `by_name`, then
/// `Read::read_to_string` of the member. Claimed: the result is the named
/// member text; any failure on the way is `None`.
#[verifier::external_body]
fn zip_member(data: &[u8], name: &str) -> (r: Option<String>)
    ensures
        opt_str(r) == zip_member_text(data@, name@),
{
    let mut archive = zip::ZipArchive::new(std::io::Cursor::new(data)).ok()?;
    let mut member = archive.by_name(name).ok()?;
    let mut s = String::new();
    member.read_to_string(&mut s).ok()?;
    Some(s)
}

/// The text of bytes decoded as UTF-8, each invalid sequence replaced by
/// U+FFFD.
pub uninterp spec fn utf8_lossy(b: Seq<u8>) -> Seq<char>;

/// `String::from_utf8_lossy`. Its result is named by `utf8_lossy`; on valid
/// UTF-8 it is the decoded text.
#[verifier::external_body]
pub(crate) fn from_utf8_lossy(b: &[u8]) -> (r: String)
    ensures
        r@ == utf8_lossy(b@),
        vstd::utf8::valid_utf8(b@) ==> r@ == vstd::utf8::decode_utf8(b@),
{
    String::from_utf8_lossy(b).to_string()
}

/// An XML token as the core-properties reader sees it.
#[derive(Debug)]
pub enum XmlToken {
    /// A start tag, by its qualified name.
    Start(Vec<u8>),
    /// An end tag, by its qualified name.
    End(Vec<u8>),
    /// Text, unescaped (empty where unescaping fails).
    Text(String),
    /// Anything else.
    Other,
}

pub enum XmlTok {
    Start(Seq<u8>),
    End(Seq<u8>),
    Text(Seq<char>),
    Other,
}

impl View for XmlToken {
    type V = XmlTok;

    open spec fn view(&self) -> XmlTok {
        match self {
            XmlToken::Start(n) => XmlTok::Start(n@),
            XmlToken::End(n) => XmlTok::End(n@),
            XmlToken::Text(t) => XmlTok::Text(t@),
            XmlToken::Other => XmlTok::Other,
        }
    }
}

pub open spec fn token_views(v: Seq<XmlToken>) -> Seq<XmlTok> {
    v.map_values(|t: XmlToken| t@)
}

/// The tokens quick-xml reads from the text with text trimming on, up to
/// the end of the document or the first error.
pub uninterp spec fn xml_tokens(xml: Seq<char>) -> Seq<XmlTok>;

/// `quick_xml::Reader::from_str` with `trim_text(true)`, read with
/// `read_event_into` until `Eof` or an error; each event reduced to a
/// token (text unescaped with `BytesText::unescape`, empty on failure).
/// Claimed: the result is the named token stream.
#[verifier::external_body]
fn xml_token_stream(xml: &str) -> (r: Vec<XmlToken>)
    ensures
        token_views(r@) == xml_tokens(xml@),
{
    let mut reader = quick_xml::Reader::from_str(xml);
    reader.config_mut().trim_text(true);
    let mut buf = Vec::new();
    let mut out = Vec::new();
    loop {
        match reader.read_event_into(&mut buf) {
            Ok(Event::Start(e)) => out.push(XmlToken::Start(e.name().as_ref().to_vec())),
            Ok(Event::End(e)) => out.push(XmlToken::End(e.name().as_ref().to_vec())),
            Ok(Event::Text(e)) => out.push(XmlToken::Text(e.unescape().unwrap_or_default().to_string())),
            Ok(Event::Eof) | Err(_) => break,
            Ok(_) => out.push(XmlToken::Other),
        }
        buf.clear();
    }
    out
}

/// The local name: the text after the last `:`, or the whole name.
pub open spec fn spec_local_name(name: Seq<u8>) -> Seq<char> {
    let full = utf8_lossy(name);
    let k = last_colon(full);
    if k < 0 {
        full
    } else {
        full.skip(k + 1)
    }
}

/// Index of the last `:`, or -1.
pub open spec fn last_colon(s: Seq<char>) -> int
    decreases s.len(),
{
    if s.len() == 0 {
        -1
    } else if s.last() == ':' {
        s.len() - 1
    } else {
        last_colon(s.drop_last())
    }
}

/// The local part of a qualified XML name (`dc:title` → `title`).
pub fn local_name(name: &[u8]) -> (r: String)
    ensures
        r@ == spec_local_name(name@),
{
    let full = from_utf8_lossy(name);
    let c = text::chars_of(full.as_str());
    let mut i: usize = c.len();
    assert(c@.take(i as int) =~= c@);
    while i > 0 && c[i - 1] != ':'
        invariant
            i <= c.len(),
            c@ == full@,
            last_colon(c@) == last_colon(c@.take(i as int)),
        decreases i,
    {
        assert(c@.take(i as int).drop_last() =~= c@.take(i - 1));
        i -= 1;
    }
    proof {
        if i > 0 {
            assert(c@.take(i as int).last() == ':');
        } else {
            assert(c@.take(0) =~= Seq::<char>::empty());
        }
    }
    if i == 0 {
        return full;
    }
    let rest = text::slice_chars(&c, i, c.len());
    assert(rest@ =~= c@.skip(i as int));
    text::string_of(&rest)
}

/// Which property the text being read belongs to.
#[derive(Debug, Clone, Copy, PartialEq, Eq, Structural)]
pub enum CoreField {
    Title,
    Creator,
}

/// The reader state: the open property, and the title and creator found.
pub struct CoreState {
    pub current: Option<CoreField>,
    pub title: Option<Seq<char>>,
    pub creator: Option<Seq<char>>,
}

/// One token: a start tag opens `title` / `creator` (any other start tag
/// closes the open property); non-empty trimmed text inside an open
/// property fills it the first time; the end of `title` / `creator` closes
/// the open property.
pub open spec fn core_step(st: CoreState, t: XmlTok) -> CoreState {
    match t {
        XmlTok::Start(n) => CoreState {
            current: if spec_local_name(n) == "title"@ {
                Some(CoreField::Title)
            } else if spec_local_name(n) == "creator"@ {
                Some(CoreField::Creator)
            } else {
                None
            },
            ..st
        },
        XmlTok::Text(x) => {
            let v = text::trim(x);
            if v.len() == 0 {
                st
            } else {
                match st.current {
                    Some(CoreField::Title) => if st.title is None {
                        CoreState { title: Some(v), ..st }
                    } else {
                        st
                    },
                    Some(CoreField::Creator) => if st.creator is None {
                        CoreState { creator: Some(v), ..st }
                    } else {
                        st
                    },
                    None => st,
                }
            }
        },
        XmlTok::End(n) => if spec_local_name(n) == "title"@ || spec_local_name(n) == "creator"@ {
            CoreState { current: None, ..st }
        } else {
            st
        },
        XmlTok::Other => st,
    }
}

pub open spec fn core_run(ts: Seq<XmlTok>) -> CoreState
    decreases ts.len(),
{
    if ts.len() == 0 {
        CoreState { current: None, title: None, creator: None }
    } else {
        core_step(core_run(ts.drop_last()), ts.last())
    }
}

/// `dc:title` and `dc:creator` of a core-properties document.
pub open spec fn core_properties(xml: Seq<char>) -> (Option<Seq<char>>, Option<Seq<char>>) {
    let st = core_run(xml_tokens(xml));
    (st.title, st.creator)
}

fn is_lit(s: &String, lit: &str) -> (r: bool)
    ensures
        r == (s@ == lit@),
{
    let l = String::from_str(lit);
    *s == l
}

/// `dc:title` and `dc:creator` of a core-properties document (see
/// [`core_step`]).
pub fn core_metadata(xml: &str) -> (r: (Option<String>, Option<String>))
    ensures
        (opt_str(r.0), opt_str(r.1)) == core_properties(xml@),
{
    let toks = xml_token_stream(xml);
    core_from_tokens(&toks)
}

/// `dc:title` and `dc:creator` read from a token stream (see
/// [`core_step`]).
pub fn core_from_tokens(toks: &Vec<XmlToken>) -> (r: (Option<String>, Option<String>))
    ensures
        (opt_str(r.0), opt_str(r.1)) == ({
            let st = core_run(token_views(toks@));
            (st.title, st.creator)
        }),
{
    let ghost ts = token_views(toks@);
    let mut current: Option<CoreField> = None;
    let mut title: Option<String> = None;
    let mut creator: Option<String> = None;
    let mut i: usize = 0;
    assert(ts.take(0) =~= Seq::<XmlTok>::empty());
    while i < toks.len()
        invariant
            i <= toks.len(),
            token_views(toks@) == ts,
            core_run(ts.take(i as int)) == (CoreState {
                current,
                title: opt_str(title),
                creator: opt_str(creator),
            }),
        decreases toks.len() - i,
    {
        assert(ts.take(i + 1).drop_last() =~= ts.take(i as int));
        assert(ts.take(i + 1).last() == toks@[i as int]@);
        match &toks[i] {
            XmlToken::Start(n) => {
                let name = local_name(n.as_slice());
                current = if is_lit(&name, "title") {
                    Some(CoreField::Title)
                } else if is_lit(&name, "creator") {
                    Some(CoreField::Creator)
                } else {
                    None
                };
            },
            XmlToken::Text(x) => {
                let c = text::chars_of(x.as_str());
                let v = text::trim_chars(&c);
                if v.len() > 0 {
                    match current {
                        Some(CoreField::Title) => {
                            if title.is_none() {
                                title = Some(text::string_of(&v));
                            }
                        },
                        Some(CoreField::Creator) => {
                            if creator.is_none() {
                                creator = Some(text::string_of(&v));
                            }
                        },
                        None => {},
                    }
                }
            },
            XmlToken::End(n) => {
                let name = local_name(n.as_slice());
                if is_lit(&name, "title") || is_lit(&name, "creator") {
                    current = None;
                }
            },
            XmlToken::Other => {},
        }
        i += 1;
    }
    assert(ts.take(i as int) =~= ts);
    (title, creator)
}

/// The core-properties member of a DOCX archive.
pub open spec fn core_member() -> Seq<char> {
    "docProps/core.xml"@
}

/// `dc:title` and `dc:creator` of a DOCX file's bytes: `(None, None)` when
/// the archive or its core properties cannot be read.
pub fn read_core_metadata(data: &[u8]) -> (r: (Option<String>, Option<String>))
    ensures
        match zip_member_text(data@, core_member()) {
            None => r.0 is None && r.1 is None,
            Some(xml) => (opt_str(r.0), opt_str(r.1)) == core_properties(xml),
        },
{
    match zip_member(data, "docProps/core.xml") {
        None => (None, None),
        Some(xml) => core_metadata(xml.as_str()),
    }
}

} // verus!
