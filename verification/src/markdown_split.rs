//! Markdown → chapters: pulldown-cmark parses the text and renders HTML;
//! the chapter split over its event stream is verified here.
//!
//! The first non-empty `h1`, when no chapter heading precedes it, is the
//! book title and is not rendered; every other heading opens a chapter
//! titled with its trimmed text (`Section` when empty) and is rendered,
//! its text included, at the top of the chapter body. Content before the first chapter heading is
//! merged into the first chapter; a document without chapter headings is one
//! `Content` chapter. Images are rendered as `<img>` tags whose source is the
//! embedded resource name when the image could be embedded, else the
//! escaped URL.
use vstd::prelude::*;
use pulldown_cmark::{Event, Options, Parser, Tag, TagEnd};
use crate::text;
use crate::html_text;
use crate::book_post::blank;
use crate::front_matter::{opt_vc, pair_views};
use crate::oeb::strs;

verus! {

// ──────────────────────────────────────────────────────────────────────────
// Events and rendering
// ──────────────────────────────────────────────────────────────────────────

/// A markdown event as the chapter splitter reads it.
#[derive(Debug)]
pub enum MdEvent {
    HeadingStart(u8),
    HeadingEnd,
    ImageStart(String),
    ImageEnd,
    Text(String),
    Other,
}

/// Spec value of an [`MdEvent`].
pub enum MdEv {
    HeadingStart(u8),
    HeadingEnd,
    ImageStart(Seq<char>),
    ImageEnd,
    Text(Seq<char>),
    Other,
}

impl View for MdEvent {
    type V = MdEv;

    open spec fn view(&self) -> MdEv {
        match self {
            MdEvent::HeadingStart(l) => MdEv::HeadingStart(*l),
            MdEvent::HeadingEnd => MdEv::HeadingEnd,
            MdEvent::ImageStart(u) => MdEv::ImageStart(u@),
            MdEvent::ImageEnd => MdEv::ImageEnd,
            MdEvent::Text(t) => MdEv::Text(t@),
            MdEvent::Other => MdEv::Other,
        }
    }
}

pub open spec fn ev_views(v: Seq<MdEvent>) -> Seq<MdEv> {
    v.map_values(|e: MdEvent| e@)
}

/// Something to render: the document's event at an index, or raw HTML.
#[derive(Debug)]
pub enum MdPiece {
    Event(usize),
    Html(String),
}

/// Spec value of an [`MdPiece`].
pub enum Piece {
    Event(nat),
    Html(Seq<char>),
}

impl View for MdPiece {
    type V = Piece;

    open spec fn view(&self) -> Piece {
        match self {
            MdPiece::Event(i) => Piece::Event(*i as nat),
            MdPiece::Html(h) => Piece::Html(h@),
        }
    }
}

pub open spec fn piece_views(v: Seq<MdPiece>) -> Seq<Piece> {
    v.map_values(|p: MdPiece| p@)
}

/// Every event piece points into a stream of `n` events.
pub open spec fn pieces_in_range(ps: Seq<Piece>, n: nat) -> bool {
    forall|k: int| 0 <= k < ps.len() ==> (#[trigger] ps[k] matches Piece::Event(i) ==> i < n)
}

/// The event stream pulldown-cmark produces for `text` with all extensions
/// enabled.
pub uninterp spec fn md_events(text: Seq<char>) -> Seq<MdEv>;

/// The HTML pulldown-cmark renders for the pieces, event pieces taken from
/// the event stream of `text`.
pub uninterp spec fn md_html(text: Seq<char>, pieces: Seq<Piece>) -> Seq<char>;

/// `pulldown_cmark::Parser::new_ext(text, Options::all())`, each event
/// reduced to what the splitter reads: heading starts (with their level)
/// and ends, image starts (with their URL) and ends, text, and anything
/// else. Claimed: the result is the named event stream of `text`.
#[verifier::external_body]
fn markdown_events(text: &str) -> (r: Vec<MdEvent>)
    ensures
        ev_views(r@) == md_events(text@),
{
    let mut out = Vec::new();
    for ev in Parser::new_ext(text, Options::all()) {
        out.push(match ev {
            Event::Start(Tag::Heading { level, .. }) => MdEvent::HeadingStart(level as u8),
            Event::End(TagEnd::Heading(_)) => MdEvent::HeadingEnd,
            Event::Start(Tag::Image { dest_url, .. }) => MdEvent::ImageStart(dest_url.to_string()),
            Event::End(TagEnd::Image) => MdEvent::ImageEnd,
            Event::Text(t) => MdEvent::Text(t.to_string()),
            _ => MdEvent::Other,
        });
    }
    out
}

/// `pulldown_cmark::html::push_html` into an empty string, on the pieces:
/// an event piece is the parser's event at that index, an HTML piece an
/// `Event::Html`. Claimed: the result is the named rendering.
#[verifier::external_body]
fn render_markdown(text: &str, pieces: &Vec<MdPiece>) -> (r: String)
    requires
        pieces_in_range(piece_views(pieces@), md_events(text@).len()),
    ensures
        r@ == md_html(text@, piece_views(pieces@)),
{
    let all: Vec<Event> = Parser::new_ext(text, Options::all()).collect();
    let mut evs: Vec<Event> = Vec::new();
    for p in pieces.iter() {
        evs.push(match p {
            MdPiece::Event(i) => all[*i].clone(),
            MdPiece::Html(h) => Event::Html(h.clone().into()),
        });
    }
    let mut out = String::new();
    pulldown_cmark::html::push_html(&mut out, evs.into_iter());
    out
}

// ──────────────────────────────────────────────────────────────────────────
// The split, as a state machine over the event stream
// ──────────────────────────────────────────────────────────────────────────

/// The splitter's state between two top-level events.
#[verifier::ext_equal]
pub struct SplitState {
    /// Content before the first chapter heading.
    pub preamble: Seq<char>,
    /// Title of the chapter being accumulated.
    pub title: Option<Seq<char>>,
    /// Body of the chapter being accumulated.
    pub cur: Seq<char>,
    /// Events and HTML not rendered yet.
    pub pending: Seq<Piece>,
    /// Finished chapters (title, body).
    pub chapters: Seq<(Seq<char>, Seq<char>)>,
    /// A chapter heading has been seen.
    pub seen: bool,
    /// The book-title heading has been met.
    pub title_taken: bool,
    /// URLs of the images met so far, in order.
    pub urls: Seq<Seq<char>>,
}

pub open spec fn init_state() -> SplitState {
    SplitState {
        preamble: Seq::empty(),
        title: None,
        cur: Seq::empty(),
        pending: Seq::empty(),
        chapters: Seq::empty(),
        seen: false,
        title_taken: false,
        urls: Seq::empty(),
    }
}

/// Pending pieces are rendered into the current chapter, or into the
/// preamble before the first chapter heading.
pub open spec fn flushed(text: Seq<char>, st: SplitState) -> SplitState {
    if st.pending.len() == 0 {
        st
    } else if st.seen {
        SplitState { cur: st.cur + md_html(text, st.pending), pending: Seq::empty(), ..st }
    } else {
        SplitState { preamble: st.preamble + md_html(text, st.pending), pending: Seq::empty(), ..st }
    }
}

/// The chapter being accumulated is finished; it is kept when its body is
/// not blank.
pub open spec fn committed(st: SplitState) -> SplitState {
    match st.title {
        None => st,
        Some(t) => if !blank(st.cur) {
            SplitState {
                title: None,
                chapters: st.chapters.push((t, st.cur)),
                cur: Seq::empty(),
                ..st
            }
        } else {
            SplitState { title: None, ..st }
        },
    }
}

/// From index `j` inside a heading: the index after its end, the text of its
/// text events, and all its events (text and end included).
pub open spec fn heading_scan(evs: Seq<MdEv>, j: nat) -> (nat, Seq<char>, Seq<Piece>)
    decreases evs.len() - j,
{
    if j >= evs.len() {
        (j, Seq::empty(), Seq::empty())
    } else {
        match evs[j as int] {
            MdEv::HeadingEnd => ((j + 1) as nat, Seq::empty(), seq![Piece::Event(j)]),
            MdEv::Text(t) => {
                let r = heading_scan(evs, j + 1);
                (r.0, t + r.1, seq![Piece::Event(j)] + r.2)
            },
            _ => {
                let r = heading_scan(evs, j + 1);
                (r.0, r.1, seq![Piece::Event(j)] + r.2)
            },
        }
    }
}

/// From index `j` inside an image: the index after its end and its alt text.
pub open spec fn image_scan(evs: Seq<MdEv>, j: nat) -> (nat, Seq<char>)
    decreases evs.len() - j,
{
    if j >= evs.len() {
        (j, Seq::empty())
    } else {
        match evs[j as int] {
            MdEv::Text(t) => {
                let r = image_scan(evs, j + 1);
                (r.0, t + r.1)
            },
            MdEv::ImageEnd => ((j + 1) as nat, Seq::empty()),
            _ => image_scan(evs, j + 1),
        }
    }
}

pub proof fn lemma_heading_scan(evs: Seq<MdEv>, j: nat)
    ensures
        j <= heading_scan(evs, j).0,
        j <= evs.len() ==> heading_scan(evs, j).0 <= evs.len(),
        pieces_in_range(heading_scan(evs, j).2, evs.len()),
    decreases evs.len() - j,
{
    if j < evs.len() {
        lemma_heading_scan(evs, j + 1);
        let r = heading_scan(evs, j + 1);
        match evs[j as int] {
            MdEv::HeadingEnd => {},
            _ => {
                assert forall|k: int| 0 <= k < (seq![Piece::Event(j)] + r.2).len() implies ((#[trigger] (seq![Piece::Event(j)] + r.2)[k]) matches Piece::Event(i) ==> i < evs.len()) by {
                    if k > 0 {
                        assert((seq![Piece::Event(j)] + r.2)[k] == r.2[k - 1]);
                    }
                }
            },
        }
    }
}

pub proof fn lemma_image_scan(evs: Seq<MdEv>, j: nat)
    ensures
        j <= image_scan(evs, j).0,
        j <= evs.len() ==> image_scan(evs, j).0 <= evs.len(),
    decreases evs.len() - j,
{
    if j < evs.len() {
        lemma_image_scan(evs, j + 1);
    }
}

/// `<img src="…" alt="…"/>`.
pub open spec fn img_tag(src: Seq<char>, alt: Seq<char>) -> Seq<char> {
    "<img src=\""@ + src + "\" alt=\""@ + alt + "\"/>"@
}

/// The source of the `k`-th image: its embedded name when it was embedded,
/// else its escaped URL.
pub open spec fn image_src(emb: Seq<Option<Seq<char>>>, k: nat, url: Seq<char>) -> Seq<char> {
    if k < emb.len() && emb[k as int] is Some {
        emb[k as int].unwrap()
    } else {
        html_text::escape_xml(url)
    }
}

/// One top-level event at index `i`: the index of the next top-level event
/// and the new state.
pub open spec fn step(
    text: Seq<char>,
    evs: Seq<MdEv>,
    emb: Seq<Option<Seq<char>>>,
    i: nat,
    st: SplitState,
) -> (nat, SplitState) {
    match evs[i as int] {
        MdEv::HeadingStart(level) => {
            let st1 = committed(flushed(text, st));
            let h = heading_scan(evs, i + 1);
            if !st1.seen && !st1.title_taken && level == 1 && !blank(h.1) {
                (h.0, SplitState { title_taken: true, ..st1 })
            } else {
                (
                    h.0,
                    SplitState {
                        seen: true,
                        title: Some(
                            if blank(h.1) {
                                "Section"@
                            } else {
                                text::trim(h.1)
                            },
                        ),
                        cur: st1.preamble + md_html(text, seq![Piece::Event(i)] + h.2),
                        preamble: Seq::empty(),
                        ..st1
                    },
                )
            }
        },
        MdEv::ImageStart(url) => {
            let im = image_scan(evs, i + 1);
            let tag = img_tag(
                image_src(emb, st.urls.len(), url),
                html_text::escape_xml(text::trim(im.1)),
            );
            (im.0, SplitState { pending: st.pending.push(Piece::Html(tag)), urls: st.urls.push(url), ..st })
        },
        _ => ((i + 1) as nat, SplitState { pending: st.pending.push(Piece::Event(i)), ..st }),
    }
}

/// The state after the top-level events from index `i` on.
pub open spec fn run(
    text: Seq<char>,
    evs: Seq<MdEv>,
    emb: Seq<Option<Seq<char>>>,
    i: nat,
    st: SplitState,
) -> SplitState
    decreases evs.len() - i,
{
    if i >= evs.len() {
        st
    } else {
        proof {
            lemma_heading_scan(evs, i + 1);
            lemma_image_scan(evs, i + 1);
        }
        let (nx, st2) = step(text, evs, emb, i, st);
        run(text, evs, emb, nx, st2)
    }
}

/// The chapters once the events are exhausted.
pub open spec fn finished(text: Seq<char>, st: SplitState) -> Seq<(Seq<char>, Seq<char>)> {
    let f = flushed(text, st);
    match f.title {
        Some(t) => if !blank(f.cur) {
            f.chapters.push((t, f.cur))
        } else {
            f.chapters
        },
        None => if !blank(f.preamble) || !blank(f.cur) {
            f.chapters.push(("Content"@, f.preamble + f.cur))
        } else {
            f.chapters
        },
    }
}

/// The (title, body) chapters of a markdown text, given the embedded names
/// of its images in order.
pub open spec fn split_chapters_spec(text: Seq<char>, emb: Seq<Option<Seq<char>>>) -> Seq<
    (Seq<char>, Seq<char>),
> {
    finished(text, run(text, md_events(text), emb, 0, init_state()))
}

/// The URLs of the images the split embeds, in order.
pub open spec fn image_sources_spec(text: Seq<char>) -> Seq<Seq<char>> {
    run(text, md_events(text), Seq::empty(), 0, init_state()).urls
}

// ──────────────────────────────────────────────────────────────────────────
// Executable split
// ──────────────────────────────────────────────────────────────────────────

/// The chapter split failed.
#[derive(Debug, PartialEq, Eq)]
pub enum ConversionError {
    /// The text holds no content at all.
    EmptyContent,
}

/// Executable [`SplitState`].
pub struct SplitRun {
    pub preamble: Vec<char>,
    pub title: Option<Vec<char>>,
    pub cur: Vec<char>,
    pub pending: Vec<MdPiece>,
    pub chapters: Vec<(String, String)>,
    pub seen: bool,
    pub title_taken: bool,
    pub urls: Vec<String>,
}

impl View for SplitRun {
    type V = SplitState;

    open spec fn view(&self) -> SplitState {
        SplitState {
            preamble: self.preamble@,
            title: opt_vc(self.title),
            cur: self.cur@,
            pending: piece_views(self.pending@),
            chapters: pair_views(self.chapters@),
            seen: self.seen,
            title_taken: self.title_taken,
            urls: strs(self.urls@),
        }
    }
}

pub open spec fn opt_views(v: Seq<Option<String>>) -> Seq<Option<Seq<char>>> {
    v.map_values(|o: Option<String>| crate::oeb::opt_str(o))
}

fn is_blank_chars(v: &Vec<char>) -> (r: bool)
    ensures
        r == blank(v@),
{
    text::trim_chars(v).len() == 0
}

impl SplitRun {
    fn new() -> (r: SplitRun)
        ensures
            r@ == init_state(),
    {
        let r = SplitRun {
            preamble: Vec::new(),
            title: None,
            cur: Vec::new(),
            pending: Vec::new(),
            chapters: Vec::new(),
            seen: false,
            title_taken: false,
            urls: Vec::new(),
        };
        assert(r@ =~= init_state());
        r
    }

    fn flush(&mut self, text: &str)
        requires
            pieces_in_range(old(self)@.pending, md_events(text@).len()),
        ensures
            final(self)@ == flushed(text@, old(self)@),
    {
        if self.pending.len() > 0 {
            let html = render_markdown(text, &self.pending);
            let hc = text::chars_of(html.as_str());
            if self.seen {
                text::append_chars(&mut self.cur, &hc);
            } else {
                text::append_chars(&mut self.preamble, &hc);
            }
            self.pending = Vec::new();
            assert(self@ =~= flushed(text@, old(self)@));
        }
    }

    fn commit(&mut self)
        ensures
            final(self)@ == committed(old(self)@),
    {
        let mut t: Option<Vec<char>> = None;
        std::mem::swap(&mut t, &mut self.title);
        match t {
            None => {},
            Some(tt) => {
                if !is_blank_chars(&self.cur) {
                    let mut c: Vec<char> = Vec::new();
                    std::mem::swap(&mut c, &mut self.cur);
                    self.chapters.push((text::string_of(&tt), text::string_of(&c)));
                    assert(pair_views(self.chapters@) =~= pair_views(old(self).chapters@).push(
                        (tt@, c@),
                    ));
                }
            },
        }
        assert(self@ =~= committed(old(self)@));
    }
}

fn scan_heading(evs: &Vec<MdEvent>, j: usize) -> (r: (usize, Vec<char>, Vec<MdPiece>))
    requires
        j <= evs.len(),
    ensures
        (r.0 as nat, r.1@, piece_views(r.2@)) == heading_scan(ev_views(evs@), j as nat),
{
    let ghost e = ev_views(evs@);
    let mut k = j;
    let mut txt: Vec<char> = Vec::new();
    let mut items: Vec<MdPiece> = Vec::new();
    while k < evs.len()
        invariant_except_break
            j <= k <= evs.len(),
            e == ev_views(evs@),
            heading_scan(e, j as nat) == ({
                let h = heading_scan(e, k as nat);
                (h.0, txt@ + h.1, piece_views(items@) + h.2)
            }),
        ensures
            e == ev_views(evs@),
            heading_scan(e, j as nat) == (k as nat, txt@, piece_views(items@)),
        decreases evs.len() - k,
    {
        let ghost h = heading_scan(e, (k + 1) as nat);
        let ghost pv = piece_views(items@);
        assert(e[k as int] == evs@[k as int]@);
        match &evs[k] {
            MdEvent::HeadingEnd => {
                items.push(MdPiece::Event(k));
                assert(piece_views(items@) =~= pv + seq![Piece::Event(k as nat)]);
                assert(txt@ + Seq::<char>::empty() =~= txt@);
                k += 1;
                break;
            },
            MdEvent::Text(t) => {
                let tc = text::chars_of(t.as_str());
                let ghost old_t = txt@;
                text::append_chars(&mut txt, &tc);
                assert(old_t + (tc@ + h.1) =~= txt@ + h.1);
                items.push(MdPiece::Event(k));
                assert(piece_views(items@) =~= pv.push(Piece::Event(k as nat)));
                assert(pv + (seq![Piece::Event(k as nat)] + h.2) =~= piece_views(items@) + h.2);
            },
            _ => {
                items.push(MdPiece::Event(k));
                assert(piece_views(items@) =~= pv.push(Piece::Event(k as nat)));
                assert(pv + (seq![Piece::Event(k as nat)] + h.2) =~= piece_views(items@) + h.2);
            },
        }
        k += 1;
    }
    proof {
        if k >= evs.len() {
            assert(txt@ + Seq::<char>::empty() =~= txt@);
            assert(piece_views(items@) + Seq::<Piece>::empty() =~= piece_views(items@));
        }
    }
    (k, txt, items)
}

fn scan_image(evs: &Vec<MdEvent>, j: usize) -> (r: (usize, Vec<char>))
    requires
        j <= evs.len(),
    ensures
        (r.0 as nat, r.1@) == image_scan(ev_views(evs@), j as nat),
{
    let ghost e = ev_views(evs@);
    let mut k = j;
    let mut alt: Vec<char> = Vec::new();
    while k < evs.len()
        invariant_except_break
            j <= k <= evs.len(),
            e == ev_views(evs@),
            image_scan(e, j as nat) == ({
                let h = image_scan(e, k as nat);
                (h.0, alt@ + h.1)
            }),
        ensures
            e == ev_views(evs@),
            image_scan(e, j as nat) == (k as nat, alt@),
        decreases evs.len() - k,
    {
        let ghost h = image_scan(e, (k + 1) as nat);
        assert(e[k as int] == evs@[k as int]@);
        match &evs[k] {
            MdEvent::Text(t) => {
                let tc = text::chars_of(t.as_str());
                let ghost old_a = alt@;
                text::append_chars(&mut alt, &tc);
                assert(old_a + (tc@ + h.1) =~= alt@ + h.1);
            },
            MdEvent::ImageEnd => {
                assert(alt@ + Seq::<char>::empty() =~= alt@);
                k += 1;
                break;
            },
            _ => {},
        }
        k += 1;
    }
    proof {
        if k >= evs.len() {
            assert(alt@ + Seq::<char>::empty() =~= alt@);
        }
    }
    (k, alt)
}

/// Escape a value for use inside an XML attribute.
pub fn escape_attr(value: &str) -> (r: String)
    ensures
        r@ == html_text::escape_xml(value@),
{
    text::string_of(&html_text::escape_xml_chars(&text::chars_of(value)))
}

fn image_tag(src: &Vec<char>, alt: &Vec<char>) -> (r: String)
    ensures
        r@ == img_tag(src@, alt@),
{
    let mut v = text::chars_of("<img src=\"");
    text::append_chars(&mut v, src);
    text::append_chars(&mut v, &text::chars_of("\" alt=\""));
    text::append_chars(&mut v, alt);
    text::append_chars(&mut v, &text::chars_of("\"/>"));
    text::string_of(&v)
}

/// The split state after all top-level events of `text`.
fn split_run(text: &str, evs: &Vec<MdEvent>, embedded: &Vec<Option<String>>) -> (r: SplitRun)
    requires
        ev_views(evs@) == md_events(text@),
    ensures
        r@ == run(text@, md_events(text@), opt_views(embedded@), 0, init_state()),
        pieces_in_range(r@.pending, md_events(text@).len()),
{
    let ghost e = md_events(text@);
    let ghost emb = opt_views(embedded@);
    let mut st = SplitRun::new();
    let mut i: usize = 0;
    while i < evs.len()
        invariant
            i <= evs.len(),
            ev_views(evs@) == e,
            e == md_events(text@),
            emb == opt_views(embedded@),
            run(text@, e, emb, 0, init_state()) == run(text@, e, emb, i as nat, st@),
            pieces_in_range(st@.pending, e.len()),
        decreases evs.len() - i,
    {
        let ghost st0 = st@;
        let ghost i0 = i as nat;
        assert(e[i as int] == evs@[i as int]@);
        proof {
            lemma_heading_scan(e, i0 + 1);
            lemma_image_scan(e, i0 + 1);
        }
        match &evs[i] {
            MdEvent::HeadingStart(level) => {
                st.flush(text);
                st.commit();
                let (nx, ht, items) = scan_heading(&evs, i + 1);
                if !st.seen && !st.title_taken && *level == 1 && !is_blank_chars(&ht) {
                    st.title_taken = true;
                    i = nx;
                } else {
                    let mut hp: Vec<MdPiece> = items;
                    hp.insert(0, MdPiece::Event(i));
                    assert(piece_views(hp@) =~= seq![Piece::Event(i0)] + heading_scan(e, i0 + 1).2);
                    let html = render_markdown(text, &hp);
                    let title = if is_blank_chars(&ht) {
                        proof {
                            reveal_strlit("Section");
                        }
                        text::chars_of("Section")
                    } else {
                        text::trim_chars(&ht)
                    };
                    let mut cur: Vec<char> = Vec::new();
                    std::mem::swap(&mut cur, &mut st.preamble);
                    text::append_chars(&mut cur, &text::chars_of(html.as_str()));
                    st.cur = cur;
                    st.title = Some(title);
                    st.seen = true;
                    i = nx;
                }
            },
            MdEvent::ImageStart(url) => {
                let (nx, alt) = scan_image(&evs, i + 1);
                let k = st.urls.len();
                let src: Vec<char> = if k < embedded.len() && embedded[k].is_some() {
                    match &embedded[k] {
                        Some(s) => text::chars_of(s.as_str()),
                        None => text::chars_of(""),
                    }
                } else {
                    text::chars_of(escape_attr(url.as_str()).as_str())
                };
                assert(st@.urls.len() == k);
                proof {
                    if k < embedded.len() {
                        assert(emb[k as int] == crate::oeb::opt_str(embedded@[k as int]));
                    }
                }
                let alt_e = html_text::escape_xml_chars(&text::trim_chars(&alt));
                let tag = image_tag(&src, &alt_e);
                let ghost pv = piece_views(st.pending@);
                st.pending.push(MdPiece::Html(tag));
                assert(piece_views(st.pending@) =~= pv.push(Piece::Html(tag@)));
                st.urls.push(url.clone());
                assert(strs(st.urls@) =~= st0.urls.push(url@));
                i = nx;
            },
            _ => {
                let ghost pv = piece_views(st.pending@);
                st.pending.push(MdPiece::Event(i));
                assert(piece_views(st.pending@) =~= pv.push(Piece::Event(i0)));
                i += 1;
            },
        }
        assert((i as nat, st@) == step(text@, e, emb, i0, st0));
    }
    st
}

/// Split markdown into (title, XHTML body) chapters. `embedded` holds, for
/// the images listed by [`image_sources`] in that order, the name under
/// which each was embedded (`None` when it was not).
pub fn split_into_chapters(text: &str, embedded: &Vec<Option<String>>) -> (r: Result<
    Vec<(String, String)>,
    ConversionError,
>)
    ensures
        match r {
            Ok(v) => pair_views(v@) == split_chapters_spec(text@, opt_views(embedded@)) && v@.len()
                > 0,
            Err(e) => e == ConversionError::EmptyContent && split_chapters_spec(
                text@,
                opt_views(embedded@),
            ).len() == 0,
        },
{
    let evs = markdown_events(text);
    split_events(text, &evs, embedded)
}

/// The split of a markdown text over its event stream `evs` (the events
/// pulldown-cmark produces for `text`, which also renders the HTML); see
/// [`split_into_chapters`].
pub fn split_events(text: &str, evs: &Vec<MdEvent>, embedded: &Vec<Option<String>>) -> (r: Result<
    Vec<(String, String)>,
    ConversionError,
>)
    requires
        ev_views(evs@) == md_events(text@),
    ensures
        match r {
            Ok(v) => pair_views(v@) == finished(
                text@,
                run(text@, ev_views(evs@), opt_views(embedded@), 0, init_state()),
            ) && v@.len() > 0,
            Err(e) => e == ConversionError::EmptyContent && finished(
                text@,
                run(text@, ev_views(evs@), opt_views(embedded@), 0, init_state()),
            ).len() == 0,
        },
{
    let mut st = split_run(text, evs, embedded);
    st.flush(text);
    let mut t: Option<Vec<char>> = None;
    std::mem::swap(&mut t, &mut st.title);
    let ghost f = st@;
    let ghost prev = pair_views(st.chapters@);
    match t {
        Some(tt) => {
            if !is_blank_chars(&st.cur) {
                st.chapters.push((text::string_of(&tt), text::string_of(&st.cur)));
                assert(pair_views(st.chapters@) =~= prev.push((tt@, f.cur)));
            }
        },
        None => {
            if !is_blank_chars(&st.preamble) || !is_blank_chars(&st.cur) {
                let mut body = st.preamble.clone();
                text::append_chars(&mut body, &st.cur);
                proof {
                    reveal_strlit("Content");
                }
                st.chapters.push((String::from_str("Content"), text::string_of(&body)));
                assert(pair_views(st.chapters@) =~= prev.push(("Content"@, f.preamble + f.cur)));
            }
        },
    }
    if st.chapters.len() == 0 {
        return Err(ConversionError::EmptyContent);
    }
    Ok(st.chapters)
}

/// The URLs of the images that [`split_into_chapters`] embeds, in the order
/// it meets them.
pub fn image_sources(text: &str) -> (r: Vec<String>)
    ensures
        strs(r@) == image_sources_spec(text@),
{
    let none: Vec<Option<String>> = Vec::new();
    assert(opt_views(none@) =~= Seq::<Option<Seq<char>>>::empty());
    let evs = markdown_events(text);
    let st = split_run(text, &evs, &none);
    st.urls
}

proof fn lemma_urls_independent(
    text: Seq<char>,
    evs: Seq<MdEv>,
    e1: Seq<Option<Seq<char>>>,
    e2: Seq<Option<Seq<char>>>,
    i: nat,
    s1: SplitState,
    s2: SplitState,
)
    requires
        s1.urls == s2.urls,
        s1.seen == s2.seen,
        s1.title_taken == s2.title_taken,
    ensures
        run(text, evs, e1, i, s1).urls == run(text, evs, e2, i, s2).urls,
    decreases evs.len() - i,
{
    if i < evs.len() {
        lemma_heading_scan(evs, i + 1);
        lemma_image_scan(evs, i + 1);
        let (n1, t1) = step(text, evs, e1, i, s1);
        let (n2, t2) = step(text, evs, e2, i, s2);
        assert(n1 == n2 && t1.urls == t2.urls && t1.seen == t2.seen && t1.title_taken == t2.title_taken);
        lemma_urls_independent(text, evs, e1, e2, n1, t1, t2);
    }
}

/// Which images the split meets, and in which order, does not depend on the
/// names they were embedded under: [`image_sources`] lists the images of
/// every split of the same text.
pub proof fn law_image_sources_independent(text: Seq<char>, emb: Seq<Option<Seq<char>>>)
    ensures
        run(text, md_events(text), emb, 0, init_state()).urls == image_sources_spec(text),
{
    lemma_urls_independent(text, md_events(text), emb, Seq::empty(), 0, init_state(), init_state());
}

pub open spec fn titles_nonempty(st: SplitState) -> bool {
    &&& (st.title matches Some(t) ==> t.len() > 0)
    &&& forall|k: int| 0 <= k < st.chapters.len() ==> (#[trigger] st.chapters[k]).0.len() > 0
}

proof fn lemma_run_titles(
    text: Seq<char>,
    evs: Seq<MdEv>,
    emb: Seq<Option<Seq<char>>>,
    i: nat,
    st: SplitState,
)
    requires
        titles_nonempty(st),
    ensures
        titles_nonempty(run(text, evs, emb, i, st)),
    decreases evs.len() - i,
{
    if i < evs.len() {
        lemma_heading_scan(evs, i + 1);
        lemma_image_scan(evs, i + 1);
        reveal_strlit("Section");
        let (nx, st2) = step(text, evs, emb, i, st);
        assert(titles_nonempty(flushed(text, st)));
        assert(titles_nonempty(committed(flushed(text, st))));
        assert(titles_nonempty(st2));
        lemma_run_titles(text, evs, emb, nx, st2);
    }
}

/// Every chapter of a split has a non-empty title.
pub proof fn law_chapter_titles_nonempty(text: Seq<char>, emb: Seq<Option<Seq<char>>>)
    ensures
        forall|k: int|
            0 <= k < split_chapters_spec(text, emb).len() ==> (#[trigger] split_chapters_spec(
                text,
                emb,
            )[k]).0.len() > 0,
{
    let st = run(text, md_events(text), emb, 0, init_state());
    lemma_run_titles(text, md_events(text), emb, 0, init_state());
    reveal_strlit("Content");
    assert(titles_nonempty(flushed(text, st)));
}

} // verus!
