//! Text translation: MyMemory first (not for an `auto` source language),
//! then Google Translate's free endpoint, then the Lingva instances in turn.
//! Long texts are translated sentence chunk by sentence chunk, and results
//! are cached per (source, target, text).
//!
//! The requests, waits and JSON decoding are the caller's; this module
//! builds the requests, decides what comes after each reply, reads the
//! decoded replies, plans the chunks and keeps the cache.
use vstd::prelude::*;
use crate::text;
use crate::dictionary::{ShioriError, HttpHead, is_success};
use crate::online_cover::{url_encoded, url_encode};

verus! {

// ──────────────────────────────────────────────────────────────────────────
// Results
// ──────────────────────────────────────────────────────────────────────────

#[derive(Debug, Clone)]
pub struct TranslationResult {
    pub translated_text: String,
    pub source_language: String,
    pub target_language: String,
    pub provider: String,
}

pub struct TranslationModel {
    pub translated_text: Seq<char>,
    pub source_language: Seq<char>,
    pub target_language: Seq<char>,
    pub provider: Seq<char>,
}

impl View for TranslationResult {
    type V = TranslationModel;

    open spec fn view(&self) -> TranslationModel {
        TranslationModel {
            translated_text: self.translated_text@,
            source_language: self.source_language@,
            target_language: self.target_language@,
            provider: self.provider@,
        }
    }
}

impl TranslationResult {
    /// A copy of this result.
    pub fn duplicate(&self) -> (r: TranslationResult)
        ensures
            r@ == self@,
    {
        TranslationResult {
            translated_text: self.translated_text.clone(),
            source_language: self.source_language.clone(),
            target_language: self.target_language.clone(),
            provider: self.provider.clone(),
        }
    }
}

pub open spec fn result_model(
    t: Seq<char>,
    src: Seq<char>,
    tgt: Seq<char>,
    provider: Seq<char>,
) -> TranslationModel {
    TranslationModel {
        translated_text: t,
        source_language: src,
        target_language: tgt,
        provider,
    }
}

fn result_of(t: String, src: &str, tgt: &str, provider: &str) -> (r: TranslationResult)
    ensures
        r@ == result_model(t@, src@, tgt@, provider@),
{
    TranslationResult {
        translated_text: t,
        source_language: String::from_str(src),
        target_language: String::from_str(tgt),
        provider: String::from_str(provider),
    }
}

// ──────────────────────────────────────────────────────────────────────────
// The cache
// ──────────────────────────────────────────────────────────────────────────

/// Translations already made in this run, by cache key.
pub struct TranslationCache {
    pub entries: Vec<(String, TranslationResult)>,
}

pub open spec fn entry_views(v: Seq<(String, TranslationResult)>) -> Seq<(Seq<char>, TranslationModel)> {
    v.map_values(|e: (String, TranslationResult)| (e.0@, e.1@))
}

impl View for TranslationCache {
    type V = Seq<(Seq<char>, TranslationModel)>;

    open spec fn view(&self) -> Seq<(Seq<char>, TranslationModel)> {
        entry_views(self.entries@)
    }
}

/// Where the key is first found among the entries.
pub open spec fn index_of(s: Seq<(Seq<char>, TranslationModel)>, k: Seq<char>) -> Option<nat>
    decreases s.len(),
{
    if s.len() == 0 {
        None
    } else if s[0].0 == k {
        Some(0)
    } else {
        match index_of(s.drop_first(), k) {
            Some(i) => Some(i + 1),
            None => None,
        }
    }
}

/// The cached translation for a key.
pub open spec fn cache_get(s: Seq<(Seq<char>, TranslationModel)>, k: Seq<char>) -> Option<
    TranslationModel,
> {
    match index_of(s, k) {
        Some(i) => Some(s[i as int].1),
        None => None,
    }
}

/// The cache with the key's translation set (replaced when present,
/// appended otherwise).
pub open spec fn cache_put(
    s: Seq<(Seq<char>, TranslationModel)>,
    k: Seq<char>,
    v: TranslationModel,
) -> Seq<(Seq<char>, TranslationModel)> {
    match index_of(s, k) {
        Some(i) => s.update(i as int, (k, v)),
        None => s.push((k, v)),
    }
}

proof fn lemma_index_of(s: Seq<(Seq<char>, TranslationModel)>, k: Seq<char>, i: int)
    requires
        0 <= i <= s.len(),
        forall|j: int| 0 <= j < i ==> (#[trigger] s[j]).0 != k,
    ensures
        i < s.len() && s[i].0 == k ==> index_of(s, k) == Some(i as nat),
        i == s.len() ==> index_of(s, k) is None,
    decreases i,
{
    if i > 0 {
        assert forall|j: int| 0 <= j < i - 1 implies (#[trigger] s.drop_first()[j]).0 != k by {
            assert(s.drop_first()[j] == s[j + 1]);
        }
        lemma_index_of(s.drop_first(), k, i - 1);
    }
}

proof fn lemma_index_of_bounds(s: Seq<(Seq<char>, TranslationModel)>, k: Seq<char>)
    ensures
        index_of(s, k) matches Some(i) ==> i < s.len() && s[i as int].0 == k && forall|j: int|
            0 <= j < i ==> (#[trigger] s[j]).0 != k,
        index_of(s, k) is None ==> forall|j: int| 0 <= j < s.len() ==> (#[trigger] s[j]).0 != k,
    decreases s.len(),
{
    if s.len() > 0 {
        let t = s.drop_first();
        lemma_index_of_bounds(t, k);
        if s[0].0 != k {
            match index_of(t, k) {
                Some(i) => {
                    assert forall|j: int| 0 <= j < i + 1 implies (#[trigger] s[j]).0 != k by {
                        if j > 0 {
                            assert(s[j] == t[j - 1]);
                        }
                    }
                    assert(s[i + 1int] == t[i as int]);
                },
                None => {
                    assert forall|j: int| 0 <= j < s.len() implies (#[trigger] s[j]).0 != k by {
                        if j > 0 {
                            assert(s[j] == t[j - 1]);
                        }
                    }
                },
            }
        }
    }
}

impl TranslationCache {
    pub fn new() -> (r: TranslationCache)
        ensures
            r@.len() == 0,
    {
        TranslationCache { entries: Vec::new() }
    }

    fn find(&self, key: &String) -> (r: Option<usize>)
        ensures
            match r {
                Some(i) => index_of(self@, key@) == Some(i as nat) && i < self.entries.len(),
                None => index_of(self@, key@) is None,
            },
    {
        let mut i: usize = 0;
        while i < self.entries.len()
            invariant
                i <= self.entries.len(),
                forall|j: int| 0 <= j < i ==> (#[trigger] self@[j]).0 != key@,
            decreases self.entries.len() - i,
        {
            assert(self@[i as int].0 == self.entries@[i as int].0@);
            if self.entries[i].0 == *key {
                proof {
                    lemma_index_of(self@, key@, i as int);
                }
                return Some(i);
            }
            i += 1;
        }
        proof {
            lemma_index_of(self@, key@, i as int);
        }
        None
    }

    /// The cached translation for a key.
    pub fn get(&self, key: &String) -> (r: Option<TranslationResult>)
        ensures
            match r {
                Some(t) => cache_get(self@, key@) == Some(t@),
                None => cache_get(self@, key@) is None,
            },
    {
        match self.find(key) {
            Some(i) => Some(self.entries[i].1.duplicate()),
            None => None,
        }
    }

    /// Caches a translation under a key.
    pub fn insert(&mut self, key: String, value: TranslationResult)
        ensures
            final(self)@ == cache_put(old(self)@, key@, value@),
    {
        match self.find(&key) {
            Some(i) => {
                self.entries.set(i, (key, value));
            },
            None => {
                self.entries.push((key, value));
            },
        }
        assert(self@ =~= cache_put(old(self)@, key@, value@));
    }
}

/// What a cache lookup gives back for a key is what was last stored under
/// it, and storing under one key leaves every other key's entry as it was.
pub proof fn law_cache_read_your_write(
    s: Seq<(Seq<char>, TranslationModel)>,
    k: Seq<char>,
    v: TranslationModel,
    other: Seq<char>,
)
    requires
        other != k,
    ensures
        cache_get(cache_put(s, k, v), k) == Some(v),
        cache_get(cache_put(s, k, v), other) == cache_get(s, other),
{
    lemma_index_of_bounds(s, k);
    lemma_index_of_bounds(s, other);
    let t = cache_put(s, k, v);
    match index_of(s, k) {
        Some(i) => {
            lemma_index_of(t, k, i as int);
            match index_of(s, other) {
                Some(j) => {
                    lemma_index_of(t, other, j as int);
                },
                None => {
                    lemma_index_of(t, other, t.len() as int);
                },
            }
        },
        None => {
            lemma_index_of(t, k, s.len() as int);
            match index_of(s, other) {
                Some(j) => {
                    lemma_index_of(t, other, j as int);
                },
                None => {
                    lemma_index_of(t, other, t.len() as int);
                },
            }
        },
    }
}

// ──────────────────────────────────────────────────────────────────────────
// Routing a request
// ──────────────────────────────────────────────────────────────────────────

/// Bytes of a character in UTF-8.
pub open spec fn utf8_width(c: char) -> nat {
    let u = c as u32;
    if u < 0x80 {
        1
    } else if u < 0x800 {
        2
    } else if u < 0x10000 {
        3
    } else {
        4
    }
}

/// Bytes of a text in UTF-8 (`str::len`).
pub open spec fn utf8_len(s: Seq<char>) -> nat
    decreases s.len(),
{
    if s.len() == 0 {
        0
    } else {
        utf8_len(s.drop_last()) + utf8_width(s.last())
    }
}

fn utf8_width_exec(c: char) -> (r: usize)
    ensures
        r == utf8_width(c),
{
    let u = c as u32;
    if u < 0x80 {
        1
    } else if u < 0x800 {
        2
    } else if u < 0x10000 {
        3
    } else {
        4
    }
}

/// Texts longer than this many bytes are translated in chunks.
pub const CHUNK_LIMIT: usize = 400;

/// `utf8_len(s) > limit`, without overflow.
pub(crate) fn longer_than(s: &Vec<char>, limit: usize) -> (r: bool)
    ensures
        r == (utf8_len(s@) > limit),
{
    let mut n: usize = 0;
    let mut i: usize = 0;
    while i < s.len()
        invariant
            i <= s.len(),
            n == utf8_len(s@.take(i as int)),
            n <= limit,
        decreases s.len() - i,
    {
        assert(s@.take(i + 1).drop_last() =~= s@.take(i as int));
        let w = utf8_width_exec(s[i]);
        if w > limit - n {
            proof {
                lemma_utf8_len_prefix(s@, i + 1);
            }
            return true;
        }
        n = n + w;
        i += 1;
    }
    assert(s@.take(i as int) =~= s@);
    false
}

proof fn lemma_utf8_len_prefix(s: Seq<char>, k: int)
    requires
        0 <= k <= s.len(),
    ensures
        utf8_len(s.take(k)) <= utf8_len(s),
    decreases s.len() - k,
{
    if k < s.len() {
        lemma_utf8_len_prefix(s, k + 1);
        assert(s.take(k + 1).drop_last() =~= s.take(k));
    } else {
        assert(s.take(k) =~= s);
    }
}

/// `{source}:{target}:{text}`.
pub open spec fn cache_key(src: Seq<char>, tgt: Seq<char>, t: Seq<char>) -> Seq<char> {
    src + ":"@ + tgt + ":"@ + t
}

pub fn cache_key_string(src: &str, tgt: &str, t: &str) -> (r: String)
    ensures
        r@ == cache_key(src@, tgt@, t@),
{
    let mut k = String::from_str(src);
    k.append(":");
    k.append(tgt);
    k.append(":");
    k.append(t);
    k
}

/// How a translation request is served.
#[derive(Debug)]
pub enum TranslateRoute {
    /// Blank text: returned as it is, by no provider.
    Untranslated(TranslationResult),
    /// Served from the cache.
    Cached(TranslationResult),
    /// One request (see [`TranslationRequest`]).
    Single,
    /// Chunk by chunk (see [`chunk_plan`]).
    Chunked,
}

/// Blank text comes back as it is (provider `none`); a cached key is
/// served from the cache; text over [`CHUNK_LIMIT`] bytes is chunked.
pub fn translation_route(
    t: &str,
    source_lang: &str,
    target_lang: &str,
    cache: &TranslationCache,
) -> (r: TranslateRoute)
    ensures
        text::trim(t@).len() == 0 ==> (r matches TranslateRoute::Untranslated(x) && x@
            == result_model(t@, source_lang@, target_lang@, "none"@)),
        text::trim(t@).len() > 0 && cache_get(cache@, cache_key(source_lang@, target_lang@, t@))
            is Some ==> (r matches TranslateRoute::Cached(x) && cache_get(
            cache@,
            cache_key(source_lang@, target_lang@, t@),
        ) == Some(x@)),
        text::trim(t@).len() > 0 && cache_get(cache@, cache_key(source_lang@, target_lang@, t@))
            is None ==> (if utf8_len(t@) > CHUNK_LIMIT {
            r is Chunked
        } else {
            r is Single
        }),
{
    let c = text::chars_of(t);
    if text::trim_chars(&c).len() == 0 {
        return TranslateRoute::Untranslated(
            result_of(String::from_str(t), source_lang, target_lang, "none"),
        );
    }
    let key = cache_key_string(source_lang, target_lang, t);
    match cache.get(&key) {
        Some(x) => TranslateRoute::Cached(x),
        None => if longer_than(&c, CHUNK_LIMIT) {
            TranslateRoute::Chunked
        } else {
            TranslateRoute::Single
        },
    }
}

// ──────────────────────────────────────────────────────────────────────────
// Long texts
// ──────────────────────────────────────────────────────────────────────────

/// `str::split(". ")`, the text after the current piece `cur` still to be
/// split.
pub open spec fn split_from(s: Seq<char>, cur: Seq<char>) -> Seq<Seq<char>>
    decreases s.len(),
{
    if s.len() == 0 {
        seq![cur]
    } else if s.len() >= 2 && s[0] == '.' && s[1] == ' ' {
        seq![cur] + split_from(s.skip(2), Seq::empty())
    } else {
        split_from(s.drop_first(), cur.push(s[0]))
    }
}

/// The pieces of a text between its `". "` separators.
pub open spec fn sentence_chunks(s: Seq<char>) -> Seq<Seq<char>> {
    split_from(s, Seq::empty())
}

/// The longest prefix of at most `n` UTF-8 bytes (a cut at the last
/// character boundary at or below `n` bytes).
pub open spec fn byte_prefix(s: Seq<char>, n: nat) -> Seq<char>
    decreases s.len(),
{
    if s.len() == 0 || utf8_width(s[0]) > n {
        Seq::empty()
    } else {
        seq![s[0]] + byte_prefix(s.drop_first(), (n - utf8_width(s[0])) as nat)
    }
}

/// One chunk to translate, and whether to pause before the next request.
#[derive(Debug)]
pub struct ChunkJob {
    pub text: String,
    pub pause_after: bool,
}

pub struct ChunkModel {
    pub text: Seq<char>,
    pub pause_after: bool,
}

impl View for ChunkJob {
    type V = ChunkModel;

    open spec fn view(&self) -> ChunkModel {
        ChunkModel { text: self.text@, pause_after: self.pause_after }
    }
}

/// The jobs for the chunks from index `i` on: blank chunks are skipped, a
/// chunk over [`CHUNK_LIMIT`] bytes is cut at the last character boundary
/// at or below [`CHUNK_LIMIT`] bytes, and every chunk but the last pauses
/// after its request.
pub open spec fn jobs_from(cs: Seq<Seq<char>>, i: int) -> Seq<ChunkModel>
    decreases cs.len() - i,
{
    if i >= cs.len() || i < 0 {
        Seq::empty()
    } else if text::trim(cs[i]).len() == 0 {
        jobs_from(cs, i + 1)
    } else {
        seq![
            ChunkModel {
                text: if utf8_len(cs[i]) > CHUNK_LIMIT {
                    byte_prefix(cs[i], CHUNK_LIMIT as nat)
                } else {
                    cs[i]
                },
                pause_after: i < cs.len() - 1,
            },
        ] + jobs_from(cs, i + 1)
    }
}

pub open spec fn job_views(v: Seq<ChunkJob>) -> Seq<ChunkModel> {
    v.map_values(|j: ChunkJob| j@)
}

fn sentence_chunks_exec(s: &Vec<char>) -> (r: Vec<Vec<char>>)
    ensures
        text::char_views(r@) == sentence_chunks(s@),
{
    let mut out: Vec<Vec<char>> = Vec::new();
    let mut cur: Vec<char> = Vec::new();
    let mut i: usize = 0;
    assert(s@.skip(0) =~= s@);
    while i < s.len()
        invariant
            i <= s.len(),
            sentence_chunks(s@) == text::char_views(out@) + split_from(s@.skip(i as int), cur@),
        decreases s.len() - i,
    {
        let ghost rest = s@.skip(i as int);
        let ghost prev = text::char_views(out@);
        if i + 1 < s.len() && s[i] == '.' && s[i + 1] == ' ' {
            assert(rest[0] == '.' && rest[1] == ' ');
            assert(rest.skip(2) =~= s@.skip(i + 2));
            let mut done: Vec<char> = Vec::new();
            std::mem::swap(&mut done, &mut cur);
            out.push(done);
            assert(text::char_views(out@) =~= prev.push(done@));
            assert(prev + (seq![done@] + split_from(s@.skip(i + 2), Seq::empty())) =~= text::char_views(
                out@,
            ) + split_from(s@.skip(i + 2), cur@));
            i += 2;
        } else {
            assert(rest[0] == s@[i as int]);
            assert(rest.drop_first() =~= s@.skip(i + 1));
            cur.push(s[i]);
            i += 1;
        }
    }
    assert(s@.skip(i as int) =~= Seq::<char>::empty());
    let ghost prev = text::char_views(out@);
    out.push(cur);
    assert(text::char_views(out@) =~= prev.push(cur@));
    out
}

fn byte_prefix_exec(s: &Vec<char>, n: usize) -> (r: Vec<char>)
    ensures
        r@ == byte_prefix(s@, n as nat),
{
    let mut out: Vec<char> = Vec::new();
    let mut left: usize = n;
    let mut i: usize = 0;
    assert(s@.skip(0) =~= s@);
    while i < s.len() && utf8_width_exec(s[i]) <= left
        invariant
            i <= s.len(),
            left <= n,
            byte_prefix(s@, n as nat) == out@ + byte_prefix(s@.skip(i as int), left as nat),
        decreases s.len() - i,
    {
        let ghost rest = s@.skip(i as int);
        assert(rest[0] == s@[i as int]);
        assert(rest.drop_first() =~= s@.skip(i + 1));
        let w = utf8_width_exec(s[i]);
        let ghost prev = out@;
        out.push(s[i]);
        assert(prev + (seq![s@[i as int]] + byte_prefix(s@.skip(i + 1), (left - w) as nat)) =~= out@
            + byte_prefix(s@.skip(i + 1), (left - w) as nat));
        left = left - w;
        i += 1;
    }
    assert(out@ + Seq::<char>::empty() =~= out@);
    out
}

/// The chunk jobs for a long text (see [`jobs_from`]).
pub fn chunk_plan(t: &str) -> (r: Vec<ChunkJob>)
    ensures
        job_views(r@) == jobs_from(sentence_chunks(t@), 0),
{
    let c = text::chars_of(t);
    let cs = sentence_chunks_exec(&c);
    let ghost all = sentence_chunks(t@);
    let mut out: Vec<ChunkJob> = Vec::new();
    let mut i: usize = 0;
    while i < cs.len()
        invariant
            i <= cs.len(),
            all == text::char_views(cs@),
            jobs_from(all, 0) == job_views(out@) + jobs_from(all, i as int),
        decreases cs.len() - i,
    {
        let ghost prev = job_views(out@);
        assert(all[i as int] == cs@[i as int]@);
        let piece = &cs[i];
        if text::trim_chars(piece).len() > 0 {
            let cut = if longer_than(piece, CHUNK_LIMIT) {
                byte_prefix_exec(piece, CHUNK_LIMIT)
            } else {
                text::slice_chars(piece, 0, piece.len())
            };
            proof {
                assert(piece@.subrange(0, piece@.len() as int) =~= piece@);
            }
            let job = ChunkJob { text: text::string_of(&cut), pause_after: i + 1 < cs.len() };
            out.push(job);
            assert(job_views(out@) =~= prev.push(job@));
            assert(prev + (seq![job@] + jobs_from(all, i + 1)) =~= job_views(out@) + jobs_from(
                all,
                i + 1,
            ));
        }
        i += 1;
    }
    assert(job_views(out@) + Seq::<ChunkModel>::empty() =~= job_views(out@));
    out
}

/// The chunk translations joined with `". "`.
pub open spec fn joined_texts(rs: Seq<TranslationModel>) -> Seq<char>
    decreases rs.len(),
{
    if rs.len() == 0 {
        Seq::empty()
    } else if rs.len() == 1 {
        rs[0].translated_text
    } else {
        joined_texts(rs.drop_last()) + ". "@ + rs.last().translated_text
    }
}

/// The first non-empty provider name (empty when there is none).
pub open spec fn first_provider(rs: Seq<TranslationModel>) -> Seq<char>
    decreases rs.len(),
{
    if rs.len() == 0 {
        Seq::empty()
    } else if rs[0].provider.len() > 0 {
        rs[0].provider
    } else {
        first_provider(rs.drop_first())
    }
}

pub open spec fn result_views(v: Seq<TranslationResult>) -> Seq<TranslationModel> {
    v.map_values(|r: TranslationResult| r@)
}

/// The translation of a chunked text, from its chunks' translations in
/// order.
pub fn assemble_chunks(
    pieces: &Vec<TranslationResult>,
    source_lang: &str,
    target_lang: &str,
) -> (r: TranslationResult)
    ensures
        r@ == result_model(
            joined_texts(result_views(pieces@)),
            source_lang@,
            target_lang@,
            first_provider(result_views(pieces@)),
        ),
{
    let ghost rv = result_views(pieces@);
    let mut out = String::new();
    let mut i: usize = 0;
    while i < pieces.len()
        invariant
            i <= pieces.len(),
            rv == result_views(pieces@),
            out@ == joined_texts(rv.take(i as int)),
        decreases pieces.len() - i,
    {
        assert(rv.take(i + 1).drop_last() =~= rv.take(i as int));
        assert(rv.take(i + 1).last() == pieces@[i as int]@);
        if i > 0 {
            out.append(". ");
        }
        out.append(pieces[i].translated_text.as_str());
        proof {
            reveal_strlit(". ");
            if i == 0 {
                assert(out@ =~= rv.take(1)[0].translated_text);
            }
        }
        i += 1;
    }
    assert(rv.take(i as int) =~= rv);
    let mut provider = String::new();
    assert(provider@ =~= Seq::<char>::empty());
    let mut k: usize = 0;
    let mut found = false;
    assert(rv.skip(0) =~= rv);
    while k < pieces.len() && !found
        invariant
            k <= pieces.len(),
            rv == result_views(pieces@),
            found ==> provider@ == first_provider(rv),
            !found ==> first_provider(rv) == first_provider(rv.skip(k as int)),
            !found ==> provider@ == Seq::<char>::empty(),
        decreases pieces.len() - k,
    {
        assert(rv.skip(k as int)[0] == pieces@[k as int]@);
        assert(rv.skip(k as int).drop_first() =~= rv.skip(k + 1));
        if pieces[k].provider.as_str().unicode_len() > 0 {
            provider = pieces[k].provider.clone();
            found = true;
        }
        k += 1;
    }
    proof {
        if !found {
            assert(rv.skip(k as int) =~= Seq::<TranslationModel>::empty());
            assert(provider@ =~= Seq::<char>::empty());
        }
    }
    TranslationResult {
        translated_text: out,
        source_language: String::from_str(source_lang),
        target_language: String::from_str(target_lang),
        provider,
    }
}

// ──────────────────────────────────────────────────────────────────────────
// One request, provider by provider
// ──────────────────────────────────────────────────────────────────────────

/// A decoded MyMemory reply: the translated text and the numeric
/// `responseStatus` when the reply holds one.
#[derive(Debug)]
pub struct MyMemoryReply {
    pub translated_text: String,
    pub response_status: Option<u64>,
}

/// The parts of a JSON document the Google reply is read through.
#[derive(Debug)]
pub enum JsonValue {
    Str(String),
    Array(Vec<JsonValue>),
    Other,
}

/// The first element of an array.
pub open spec fn json_first(v: JsonValue) -> Option<JsonValue> {
    match v {
        JsonValue::Array(a) => if a@.len() > 0 {
            Some(a@[0])
        } else {
            None
        },
        _ => None,
    }
}

/// The sentence of a group `[sentence, …]`, when it is a string.
pub open spec fn sentence_of(g: JsonValue) -> Seq<char> {
    match json_first(g) {
        Some(JsonValue::Str(s)) => s@,
        _ => Seq::empty(),
    }
}

pub open spec fn sentences(gs: Seq<JsonValue>) -> Seq<char>
    decreases gs.len(),
{
    if gs.len() == 0 {
        Seq::empty()
    } else {
        sentences(gs.drop_last()) + sentence_of(gs.last())
    }
}

/// The translation in a Google reply `[[[sentence, …], …], …]`: the
/// sentences of the first element, concatenated.
pub open spec fn google_text(v: JsonValue) -> Seq<char> {
    match json_first(v) {
        Some(JsonValue::Array(gs)) => sentences(gs@),
        _ => Seq::empty(),
    }
}

/// The translation in a decoded Google reply.
pub fn google_translation(v: &JsonValue) -> (r: String)
    ensures
        r@ == google_text(*v),
{
    let mut out = String::new();
    assert(out@ =~= Seq::<char>::empty());
    match v {
        JsonValue::Array(a) => {
            if a.len() > 0 {
                match &a[0] {
                    JsonValue::Array(gs) => {
                        let mut i: usize = 0;
                        while i < gs.len()
                            invariant
                                i <= gs.len(),
                                out@ == sentences(gs@.take(i as int)),
                            decreases gs.len() - i,
                        {
                            assert(gs@.take(i + 1).drop_last() =~= gs@.take(i as int));
                            assert(gs@.take(i + 1).last() == gs@[i as int]);
                            match &gs[i] {
                                JsonValue::Array(g) => {
                                    if g.len() > 0 {
                                        match &g[0] {
                                            JsonValue::Str(st) => {
                                                out.append(st.as_str());
                                            },
                                            _ => {},
                                        }
                                    }
                                },
                                _ => {},
                            }
                            i += 1;
                        }
                        assert(gs@.take(i as int) =~= gs@);
                    },
                    _ => {},
                }
            }
        },
        _ => {},
    }
    out
}

/// The Lingva instances, tried in this order.
pub open spec fn lingva_instance(k: nat) -> Seq<char> {
    if k == 0 {
        "https://lingva.thedesk.top"@
    } else if k == 1 {
        "https://lingva.lunar.icu"@
    } else if k == 2 {
        "https://translate.plausibility.cloud"@
    } else {
        "https://lingva.garudalinux.org"@
    }
}

pub const LINGVA_INSTANCES: usize = 4;

/// `{instance}/api/v1/{source}/{target}/{text}`, the last three
/// percent-encoded.
pub open spec fn lingva_url(k: nat, src: Seq<char>, tgt: Seq<char>, t: Seq<char>) -> Seq<char> {
    lingva_instance(k) + "/api/v1/"@ + url_encoded(src) + "/"@ + url_encoded(tgt) + "/"@
        + url_encoded(t)
}

/// The query of the MyMemory request.
pub open spec fn mymemory_query(src: Seq<char>, tgt: Seq<char>, t: Seq<char>) -> Seq<
    (Seq<char>, Seq<char>),
> {
    seq![("q"@, t), ("langpair"@, src + "|"@ + tgt)]
}

/// The query of the Google request.
pub open spec fn google_query(src: Seq<char>, tgt: Seq<char>, t: Seq<char>) -> Seq<
    (Seq<char>, Seq<char>),
> {
    seq![("client"@, "gtx"@), ("sl"@, src), ("tl"@, tgt), ("dt"@, "t"@), ("q"@, t)]
}

pub open spec fn mymemory_url() -> Seq<char> {
    "https://api.mymemory.translated.net/get"@
}

pub open spec fn google_url() -> Seq<char> {
    "https://translate.googleapis.com/translate_a/single"@
}

/// `All translation providers failed. Last error: All Lingva instances
/// failed. Last error: {last}`.
pub open spec fn all_failed(last: Seq<char>) -> Seq<char> {
    "All translation providers failed. Last error: "@ + ("All Lingva instances failed. Last error: "@
        + last)
}

/// What the translation asks its caller to do next.
#[derive(Debug)]
pub enum TransAction {
    /// GET the MyMemory URL with this query; reply with its [`HttpHead`].
    FetchMyMemory { url: String, query: Vec<(String, String)> },
    /// Decode the body of the successful MyMemory reply.
    ReadMyMemoryBody,
    /// GET the Google URL with this query; reply with its [`HttpHead`].
    FetchGoogle { url: String, query: Vec<(String, String)> },
    /// Decode the body of the successful Google reply.
    ReadGoogleBody,
    /// GET the URL of Lingva instance `instance`; reply with its
    /// [`HttpHead`].
    FetchLingva { instance: usize, url: String },
    /// Decode the body of the successful reply of Lingva instance
    /// `instance`.
    ReadLingvaBody { instance: usize },
    /// The translation is over.
    Done(Result<TranslationResult, ShioriError>),
}

pub open spec fn pair_strs(v: Seq<(String, String)>) -> Seq<(Seq<char>, Seq<char>)> {
    v.map_values(|p: (String, String)| (p.0@, p.1@))
}

/// One text to translate.
pub struct TranslationRequest {
    pub text: String,
    pub source_lang: String,
    pub target_lang: String,
}

impl TranslationRequest {
    pub open spec fn is_google(&self, a: TransAction) -> bool {
        a matches TransAction::FetchGoogle { url, query: q } && url@ == google_url() && pair_strs(q@) == google_query(
            self.source_lang@,
            self.target_lang@,
            self.text@,
        )
    }

    pub open spec fn is_lingva(&self, a: TransAction, k: nat) -> bool {
        a matches TransAction::FetchLingva { instance, url } && instance == k && url@ == lingva_url(
            k,
            self.source_lang@,
            self.target_lang@,
            self.text@,
        )
    }

    pub open spec fn done_with(&self, a: TransAction, t: Seq<char>, provider: Seq<char>) -> bool {
        a matches TransAction::Done(Ok(r)) && r@ == result_model(
            t,
            self.source_lang@,
            self.target_lang@,
            provider,
        )
    }

    pub open spec fn failed_with(&self, a: TransAction, last: Seq<char>) -> bool {
        a matches TransAction::Done(Err(e)) && e.msg() == all_failed(last)
    }

    /// The first request: MyMemory, except for an `auto` source language,
    /// which goes straight to Google.
    pub fn start(&self) -> (r: TransAction)
        ensures
            self.source_lang@ != "auto"@ ==> (r matches TransAction::FetchMyMemory { url, query: q } && url@ == mymemory_url() && pair_strs(
                q@,
            ) == mymemory_query(self.source_lang@, self.target_lang@, self.text@)),
            self.source_lang@ == "auto"@ ==> self.is_google(r),
    {
        let auto = String::from_str("auto");
        if self.source_lang != auto {
            let mut lp = self.source_lang.clone();
            lp.append("|");
            lp.append(self.target_lang.as_str());
            let q = vec![(String::from_str("q"), self.text.clone()), (String::from_str("langpair"), lp)];
            assert(pair_strs(q@) =~= mymemory_query(self.source_lang@, self.target_lang@, self.text@));
            TransAction::FetchMyMemory {
                url: String::from_str("https://api.mymemory.translated.net/get"),
                query: q,
            }
        } else {
            self.google()
        }
    }

    fn google(&self) -> (r: TransAction)
        ensures
            self.is_google(r),
    {
        let q = vec![
            (String::from_str("client"), String::from_str("gtx")),
            (String::from_str("sl"), self.source_lang.clone()),
            (String::from_str("tl"), self.target_lang.clone()),
            (String::from_str("dt"), String::from_str("t")),
            (String::from_str("q"), self.text.clone()),
        ];
        assert(pair_strs(q@) =~= google_query(self.source_lang@, self.target_lang@, self.text@));
        TransAction::FetchGoogle {
            url: String::from_str("https://translate.googleapis.com/translate_a/single"),
            query: q,
        }
    }

    fn lingva(&self, k: usize) -> (r: TransAction)
        requires
            k < LINGVA_INSTANCES,
        ensures
            self.is_lingva(r, k as nat),
    {
        let mut u = if k == 0 {
            String::from_str("https://lingva.thedesk.top")
        } else if k == 1 {
            String::from_str("https://lingva.lunar.icu")
        } else if k == 2 {
            String::from_str("https://translate.plausibility.cloud")
        } else {
            String::from_str("https://lingva.garudalinux.org")
        };
        u.append("/api/v1/");
        let s = url_encode(self.source_lang.as_str());
        u.append(s.as_str());
        u.append("/");
        let t = url_encode(self.target_lang.as_str());
        u.append(t.as_str());
        u.append("/");
        let x = url_encode(self.text.as_str());
        u.append(x.as_str());
        TransAction::FetchLingva { instance: k, url: u }
    }

    /// After the MyMemory request: a success status reads the body; any
    /// failure moves on to Google.
    pub fn after_mymemory_head(&self, head: HttpHead) -> (r: TransAction)
        ensures
            (head matches HttpHead::Status(c, _) && is_success(c)) ==> r is ReadMyMemoryBody,
            !(head matches HttpHead::Status(c, _) && is_success(c)) ==> self.is_google(r),
    {
        match head {
            HttpHead::Status(c, _) => if 200 <= c && c <= 299 {
                TransAction::ReadMyMemoryBody
            } else {
                self.google()
            },
            _ => self.google(),
        }
    }

    /// After decoding the MyMemory body: its translation, unless the body
    /// could not be decoded or reports status 403 (quota exceeded), which
    /// move on to Google.
    pub fn after_mymemory_body(&self, body: Result<MyMemoryReply, String>) -> (r: TransAction)
        ensures
            (body matches Ok(m) && m.response_status != Some(403u64)) ==> self.done_with(
                r,
                body->Ok_0.translated_text@,
                "mymemory"@,
            ),
            !(body matches Ok(m) && m.response_status != Some(403u64)) ==> self.is_google(r),
    {
        match body {
            Ok(m) => {
                if m.response_status == Some(403u64) {
                    return self.google();
                }
                TransAction::Done(
                    Ok(
                        result_of(
                            m.translated_text,
                            self.source_lang.as_str(),
                            self.target_lang.as_str(),
                            "mymemory",
                        ),
                    ),
                )
            },
            Err(_) => self.google(),
        }
    }

    /// After the Google request: a success status reads the body; any
    /// failure moves on to the first Lingva instance.
    pub fn after_google_head(&self, head: HttpHead) -> (r: TransAction)
        ensures
            (head matches HttpHead::Status(c, _) && is_success(c)) ==> r is ReadGoogleBody,
            !(head matches HttpHead::Status(c, _) && is_success(c)) ==> self.is_lingva(r, 0),
    {
        match head {
            HttpHead::Status(c, _) => if 200 <= c && c <= 299 {
                TransAction::ReadGoogleBody
            } else {
                self.lingva(0)
            },
            _ => self.lingva(0),
        }
    }

    /// After decoding the Google body: its translation when non-empty, else
    /// the first Lingva instance.
    pub fn after_google_body(&self, body: Result<JsonValue, String>) -> (r: TransAction)
        ensures
            (body matches Ok(v) && google_text(v).len() > 0) ==> self.done_with(
                r,
                google_text(body->Ok_0),
                "google"@,
            ),
            !(body matches Ok(v) && google_text(v).len() > 0) ==> self.is_lingva(r, 0),
    {
        match body {
            Ok(v) => {
                let t = google_translation(&v);
                if t.as_str().unicode_len() == 0 {
                    return self.lingva(0);
                }
                TransAction::Done(
                    Ok(result_of(t, self.source_lang.as_str(), self.target_lang.as_str(), "google")),
                )
            },
            Err(_) => self.lingva(0),
        }
    }

    fn lingva_failed(&self, k: usize, last: String) -> (r: TransAction)
        requires
            k < LINGVA_INSTANCES,
        ensures
            k + 1 < LINGVA_INSTANCES ==> self.is_lingva(r, (k + 1) as nat),
            k + 1 >= LINGVA_INSTANCES ==> self.failed_with(r, last@),
    {
        if k + 1 < LINGVA_INSTANCES {
            self.lingva(k + 1)
        } else {
            let mut m = String::from_str("All translation providers failed. Last error: ");
            m.append("All Lingva instances failed. Last error: ");
            m.append(last.as_str());
            assert(m@ =~= all_failed(last@));
            TransAction::Done(Err(ShioriError::Other(m)))
        }
    }

    /// After the request to Lingva instance `k`: a success status reads the
    /// body; a failure is recorded (`Request failed: …` / `Status …`) and
    /// the next instance is tried, the last failure ending the translation.
    /// Without an HTTP client the translation ends at once.
    pub fn after_lingva_head(&self, k: usize, head: HttpHead) -> (r: TransAction)
        requires
            k < LINGVA_INSTANCES,
        ensures
            (head matches HttpHead::Status(c, _) && is_success(c)) ==> (r matches TransAction::ReadLingvaBody {
                instance,
            } && instance == k),
            head matches HttpHead::NoClient(e) ==> (r matches TransAction::Done(Err(x)) && x.msg()
                == "All translation providers failed. Last error: "@ + ("HTTP client error: "@
                + e@)),
            (head matches HttpHead::Failed(e) && k + 1 < LINGVA_INSTANCES) ==> self.is_lingva(
                r,
                (k + 1) as nat,
            ),
            (head matches HttpHead::Failed(e) && k + 1 >= LINGVA_INSTANCES) ==> self.failed_with(
                r,
                "Request failed: "@ + head->Failed_0@,
            ),
            (head matches HttpHead::Status(c, t) && !is_success(c) && k + 1 < LINGVA_INSTANCES)
                ==> self.is_lingva(r, (k + 1) as nat),
            (head matches HttpHead::Status(c, t) && !is_success(c) && k + 1 >= LINGVA_INSTANCES)
                ==> self.failed_with(r, "Status "@ + head->Status_1@),
    {
        match head {
            HttpHead::NoClient(e) => {
                let mut m = String::from_str("All translation providers failed. Last error: ");
                m.append("HTTP client error: ");
                m.append(e.as_str());
                assert(m@ =~= "All translation providers failed. Last error: "@ + ("HTTP client error: "@ + e@));
                TransAction::Done(Err(ShioriError::Other(m)))
            },
            HttpHead::Failed(e) => {
                let mut last = String::from_str("Request failed: ");
                last.append(e.as_str());
                self.lingva_failed(k, last)
            },
            HttpHead::Status(c, t) => {
                if 200 <= c && c <= 299 {
                    return TransAction::ReadLingvaBody { instance: k };
                }
                let mut last = String::from_str("Status ");
                last.append(t.as_str());
                self.lingva_failed(k, last)
            },
        }
    }

    /// After decoding the body of Lingva instance `k`: its translation, or
    /// on a decoding failure (`Parse failed: …`) the next instance.
    pub fn after_lingva_body(&self, k: usize, body: Result<String, String>) -> (r: TransAction)
        requires
            k < LINGVA_INSTANCES,
        ensures
            body matches Ok(t) ==> self.done_with(r, t@, "lingva"@),
            (body matches Err(e) && k + 1 < LINGVA_INSTANCES) ==> self.is_lingva(r, (k + 1) as nat),
            (body matches Err(e) && k + 1 >= LINGVA_INSTANCES) ==> self.failed_with(
                r,
                "Parse failed: "@ + body->Err_0@,
            ),
    {
        match body {
            Ok(t) => TransAction::Done(
                Ok(result_of(t, self.source_lang.as_str(), self.target_lang.as_str(), "lingva")),
            ),
            Err(e) => {
                let mut last = String::from_str("Parse failed: ");
                last.append(e.as_str());
                self.lingva_failed(k, last)
            },
        }
    }
}

// ──────────────────────────────────────────────────────────────────────────
// Laws
// ──────────────────────────────────────────────────────────────────────────

proof fn lemma_utf8_len_cons(c: char, t: Seq<char>)
    ensures
        utf8_len(seq![c] + t) == utf8_width(c) + utf8_len(t),
    decreases t.len(),
{
    if t.len() > 0 {
        lemma_utf8_len_cons(c, t.drop_last());
        let u = seq![c] + t;
        assert(u.drop_last() =~= seq![c] + t.drop_last());
        assert(u.last() == t.last());
        assert(utf8_len(u) == utf8_len(u.drop_last()) + utf8_width(u.last()));
    } else {
        let u = seq![c] + t;
        assert(u =~= seq![c]);
        assert(u.drop_last() =~= Seq::<char>::empty());
        assert(utf8_len(u) == utf8_len(u.drop_last()) + utf8_width(u.last()));
    }
}

proof fn lemma_byte_prefix_fits(s: Seq<char>, n: nat)
    ensures
        utf8_len(byte_prefix(s, n)) <= n,
    decreases s.len(),
{
    if s.len() > 0 && utf8_width(s[0]) <= n {
        let m = (n - utf8_width(s[0])) as nat;
        lemma_byte_prefix_fits(s.drop_first(), m);
        lemma_utf8_len_cons(s[0], byte_prefix(s.drop_first(), m));
    }
}

proof fn lemma_jobs_fit(cs: Seq<Seq<char>>, i: int)
    ensures
        forall|k: int|
            0 <= k < jobs_from(cs, i).len() ==> utf8_len(#[trigger] jobs_from(cs, i)[k].text)
                <= CHUNK_LIMIT,
    decreases cs.len() - i,
{
    if 0 <= i < cs.len() {
        lemma_jobs_fit(cs, i + 1);
        if text::trim(cs[i]).len() > 0 {
            lemma_byte_prefix_fits(cs[i], CHUNK_LIMIT as nat);
            let j = jobs_from(cs, i);
            assert forall|k: int| 0 <= k < j.len() implies utf8_len(#[trigger] j[k].text)
                <= CHUNK_LIMIT by {
                if k > 0 {
                    assert(j[k] == jobs_from(cs, i + 1)[k - 1]);
                }
            }
        }
    }
}

/// No chunk request carries more than [`CHUNK_LIMIT`] bytes of text.
pub proof fn law_chunks_fit(t: Seq<char>)
    ensures
        forall|k: int|
            0 <= k < jobs_from(sentence_chunks(t), 0).len() ==> utf8_len(
                #[trigger] jobs_from(sentence_chunks(t), 0)[k].text,
            ) <= CHUNK_LIMIT,
{
    lemma_jobs_fit(sentence_chunks(t), 0);
}

} // verus!
