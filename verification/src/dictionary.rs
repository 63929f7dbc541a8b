//! Dictionary lookups: the Free Dictionary API first, Wiktionary as the
//! fallback. The requests, waits and JSON decoding are the caller's; this
//! module builds the request URLs, decides what comes after each reply
//! (retries of transient failures, the fallback, which error surfaces) and
//! turns the decoded replies into a [`DictionaryResult`].
use vstd::prelude::*;
use crate::text;
use crate::html_text;
use crate::oeb::{opt_str, strs};
use crate::online_cover::{url_encoded, url_encode};

verus! {

// ──────────────────────────────────────────────────────────────────────────
// Errors and results
// ──────────────────────────────────────────────────────────────────────────

/// A failed lookup or translation, with the message shown to the user.
#[derive(Debug, Clone)]
pub enum ShioriError {
    Other(String),
}

impl ShioriError {
    pub open spec fn msg(&self) -> Seq<char> {
        match self {
            ShioriError::Other(m) => m@,
        }
    }

    /// The message shown to the user.
    pub fn message(&self) -> (r: String)
        ensures
            r@ == self.msg(),
    {
        match self {
            ShioriError::Other(m) => m.clone(),
        }
    }
}

#[derive(Debug, Clone)]
pub struct DictionaryDefinition {
    pub definition: String,
    pub example: Option<String>,
    pub synonyms: Vec<String>,
    pub antonyms: Vec<String>,
}

#[derive(Debug, Clone)]
pub struct DictionaryMeaning {
    pub part_of_speech: String,
    pub definitions: Vec<DictionaryDefinition>,
}

#[derive(Debug, Clone)]
pub struct DictionaryResult {
    pub word: String,
    pub phonetic: Option<String>,
    pub audio_url: Option<String>,
    pub meanings: Vec<DictionaryMeaning>,
    pub source_url: Option<String>,
}

pub struct DefinitionModel {
    pub definition: Seq<char>,
    pub example: Option<Seq<char>>,
    pub synonyms: Seq<Seq<char>>,
    pub antonyms: Seq<Seq<char>>,
}

pub struct MeaningModel {
    pub part_of_speech: Seq<char>,
    pub definitions: Seq<DefinitionModel>,
}

pub struct DictionaryModel {
    pub word: Seq<char>,
    pub phonetic: Option<Seq<char>>,
    pub audio_url: Option<Seq<char>>,
    pub meanings: Seq<MeaningModel>,
    pub source_url: Option<Seq<char>>,
}

impl View for DictionaryDefinition {
    type V = DefinitionModel;

    open spec fn view(&self) -> DefinitionModel {
        DefinitionModel {
            definition: self.definition@,
            example: opt_str(self.example),
            synonyms: strs(self.synonyms@),
            antonyms: strs(self.antonyms@),
        }
    }
}

impl View for DictionaryMeaning {
    type V = MeaningModel;

    open spec fn view(&self) -> MeaningModel {
        MeaningModel {
            part_of_speech: self.part_of_speech@,
            definitions: self.definitions@.map_values(|d: DictionaryDefinition| d@),
        }
    }
}

impl View for DictionaryResult {
    type V = DictionaryModel;

    open spec fn view(&self) -> DictionaryModel {
        DictionaryModel {
            word: self.word@,
            phonetic: opt_str(self.phonetic),
            audio_url: opt_str(self.audio_url),
            meanings: self.meanings@.map_values(|m: DictionaryMeaning| m@),
            source_url: opt_str(self.source_url),
        }
    }
}

pub open spec fn meaning_views(v: Seq<DictionaryMeaning>) -> Seq<MeaningModel> {
    v.map_values(|m: DictionaryMeaning| m@)
}

pub open spec fn definition_views(v: Seq<DictionaryDefinition>) -> Seq<DefinitionModel> {
    v.map_values(|d: DictionaryDefinition| d@)
}

/// The first `n` items, or all of them when there are fewer.
pub open spec fn at_most<T>(s: Seq<T>, n: nat) -> Seq<T> {
    if s.len() <= n {
        s
    } else {
        s.take(n as int)
    }
}

fn clone_strings_at_most(v: &Vec<String>, n: usize) -> (r: Vec<String>)
    ensures
        strs(r@) == at_most(strs(v@), n as nat),
{
    let mut out: Vec<String> = Vec::new();
    let mut i: usize = 0;
    while i < v.len() && i < n
        invariant
            i <= v.len(),
            i <= n,
            strs(out@) == strs(v@).take(i as int),
        decreases v.len() - i,
    {
        let ghost prev = strs(out@);
        out.push(v[i].clone());
        assert(strs(out@) =~= prev.push(v@[i as int]@));
        i += 1;
        assert(strs(out@) =~= strs(v@).take(i as int));
    }
    assert(strs(v@).take(v.len() as int) =~= strs(v@));
    out
}

fn clone_opt(o: &Option<String>) -> (r: Option<String>)
    ensures
        opt_str(r) == opt_str(*o),
{
    match o {
        Some(s) => Some(s.clone()),
        None => None,
    }
}

// ──────────────────────────────────────────────────────────────────────────
// Free Dictionary API replies
// ──────────────────────────────────────────────────────────────────────────

#[derive(Debug)]
pub struct FreeDictPhonetic {
    pub text: Option<String>,
    pub audio: Option<String>,
}

#[derive(Debug)]
pub struct FreeDictDefinition {
    pub definition: String,
    pub example: Option<String>,
    pub synonyms: Vec<String>,
    pub antonyms: Vec<String>,
}

#[derive(Debug)]
pub struct FreeDictMeaning {
    pub part_of_speech: String,
    pub definitions: Vec<FreeDictDefinition>,
}

#[derive(Debug)]
pub struct FreeDictEntry {
    pub word: String,
    pub phonetic: Option<String>,
    pub phonetics: Option<Vec<FreeDictPhonetic>>,
    pub meanings: Vec<FreeDictMeaning>,
    pub source_urls: Option<Vec<String>>,
}

/// The first phonetic spelling among the phonetics.
pub open spec fn first_text(ps: Seq<FreeDictPhonetic>) -> Option<Seq<char>>
    decreases ps.len(),
{
    if ps.len() == 0 {
        None
    } else if ps[0].text is Some {
        opt_str(ps[0].text)
    } else {
        first_text(ps.drop_first())
    }
}

/// The first non-empty audio URL among the phonetics.
pub open spec fn first_audio(ps: Seq<FreeDictPhonetic>) -> Option<Seq<char>>
    decreases ps.len(),
{
    if ps.len() == 0 {
        None
    } else if ps[0].audio is Some && ps[0].audio.unwrap()@.len() > 0 {
        opt_str(ps[0].audio)
    } else {
        first_audio(ps.drop_first())
    }
}

/// A definition with at most five synonyms and five antonyms.
pub open spec fn free_definition(d: FreeDictDefinition) -> DefinitionModel {
    DefinitionModel {
        definition: d.definition@,
        example: opt_str(d.example),
        synonyms: at_most(strs(d.synonyms@), 5),
        antonyms: at_most(strs(d.antonyms@), 5),
    }
}

/// A part of speech with at most three definitions.
pub open spec fn free_meaning(m: FreeDictMeaning) -> MeaningModel {
    MeaningModel {
        part_of_speech: m.part_of_speech@,
        definitions: at_most(m.definitions@, 3).map_values(|d: FreeDictDefinition| free_definition(d)),
    }
}

/// The result built from the first entry: its own phonetic spelling or
/// else the first one among its phonetics, the first non-empty audio URL,
/// the first source URL, and its meanings.
pub open spec fn free_result(e: FreeDictEntry) -> DictionaryModel {
    DictionaryModel {
        word: e.word@,
        phonetic: if e.phonetic is Some {
            opt_str(e.phonetic)
        } else {
            match e.phonetics {
                Some(ps) => first_text(ps@),
                None => None,
            }
        },
        audio_url: match e.phonetics {
            Some(ps) => first_audio(ps@),
            None => None,
        },
        meanings: e.meanings@.map_values(|m: FreeDictMeaning| free_meaning(m)),
        source_url: match e.source_urls {
            Some(u) => if u@.len() > 0 {
                Some(u@[0]@)
            } else {
                None
            },
            None => None,
        },
    }
}

fn find_text(ps: &Vec<FreeDictPhonetic>) -> (r: Option<String>)
    ensures
        opt_str(r) == first_text(ps@),
{
    let mut i: usize = 0;
    assert(ps@.skip(0) =~= ps@);
    while i < ps.len()
        invariant
            i <= ps.len(),
            first_text(ps@) == first_text(ps@.skip(i as int)),
        decreases ps.len() - i,
    {
        assert(ps@.skip(i as int)[0] == ps@[i as int]);
        assert(ps@.skip(i as int).drop_first() =~= ps@.skip(i + 1));
        if ps[i].text.is_some() {
            return clone_opt(&ps[i].text);
        }
        i += 1;
    }
    None
}

fn find_audio(ps: &Vec<FreeDictPhonetic>) -> (r: Option<String>)
    ensures
        opt_str(r) == first_audio(ps@),
{
    let mut i: usize = 0;
    assert(ps@.skip(0) =~= ps@);
    while i < ps.len()
        invariant
            i <= ps.len(),
            first_audio(ps@) == first_audio(ps@.skip(i as int)),
        decreases ps.len() - i,
    {
        assert(ps@.skip(i as int)[0] == ps@[i as int]);
        assert(ps@.skip(i as int).drop_first() =~= ps@.skip(i + 1));
        match &ps[i].audio {
            Some(a) => {
                if a.as_str().unicode_len() > 0 {
                    return Some(a.clone());
                }
            },
            None => {},
        }
        i += 1;
    }
    None
}

fn free_definition_of(d: &FreeDictDefinition) -> (r: DictionaryDefinition)
    ensures
        r@ == free_definition(*d),
{
    DictionaryDefinition {
        definition: d.definition.clone(),
        example: clone_opt(&d.example),
        synonyms: clone_strings_at_most(&d.synonyms, 5),
        antonyms: clone_strings_at_most(&d.antonyms, 5),
    }
}

fn free_meaning_of(m: &FreeDictMeaning) -> (r: DictionaryMeaning)
    ensures
        r@ == free_meaning(*m),
{
    let ghost src = at_most(m.definitions@, 3).map_values(|d: FreeDictDefinition| free_definition(d));
    let mut defs: Vec<DictionaryDefinition> = Vec::new();
    let mut i: usize = 0;
    while i < m.definitions.len() && i < 3
        invariant
            i <= m.definitions.len(),
            i <= 3,
            definition_views(defs@) == m.definitions@.take(i as int).map_values(
                |d: FreeDictDefinition| free_definition(d),
            ),
        decreases m.definitions.len() - i,
    {
        let ghost prev = definition_views(defs@);
        let d = free_definition_of(&m.definitions[i]);
        defs.push(d);
        assert(definition_views(defs@) =~= prev.push(free_definition(m.definitions@[i as int])));
        assert(m.definitions@.take(i + 1) =~= m.definitions@.take(i as int).push(m.definitions@[i as int]));
        i += 1;
        assert(definition_views(defs@) =~= m.definitions@.take(i as int).map_values(
            |d: FreeDictDefinition| free_definition(d),
        ));
    }
    assert(m.definitions@.take(i as int) =~= at_most(m.definitions@, 3));
    let r = DictionaryMeaning { part_of_speech: m.part_of_speech.clone(), definitions: defs };
    assert(r@.definitions =~= src);
    r
}

/// The result for a decoded Free Dictionary reply: built from the first
/// entry (see [`free_result`]); an empty reply is an error.
pub fn free_dictionary_result(entries: &Vec<FreeDictEntry>) -> (r: Result<
    DictionaryResult,
    ShioriError,
>)
    ensures
        entries@.len() == 0 <==> r is Err,
        r matches Err(e) ==> e.msg() == "Empty dictionary response"@,
        r matches Ok(d) ==> d@ == free_result(entries@[0]),
{
    if entries.len() == 0 {
        return Err(ShioriError::Other(String::from_str("Empty dictionary response")));
    }
    let e = &entries[0];
    let phonetic = if e.phonetic.is_some() {
        clone_opt(&e.phonetic)
    } else {
        match &e.phonetics {
            Some(ps) => find_text(ps),
            None => None,
        }
    };
    let audio_url = match &e.phonetics {
        Some(ps) => find_audio(ps),
        None => None,
    };
    let source_url = match &e.source_urls {
        Some(u) => if u.len() > 0 {
            Some(u[0].clone())
        } else {
            None
        },
        None => None,
    };
    let ghost ms = e.meanings@.map_values(|m: FreeDictMeaning| free_meaning(m));
    let mut meanings: Vec<DictionaryMeaning> = Vec::new();
    let mut i: usize = 0;
    while i < e.meanings.len()
        invariant
            i <= e.meanings.len(),
            meaning_views(meanings@) == e.meanings@.take(i as int).map_values(
                |m: FreeDictMeaning| free_meaning(m),
            ),
        decreases e.meanings.len() - i,
    {
        let ghost prev = meaning_views(meanings@);
        let mm = free_meaning_of(&e.meanings[i]);
        meanings.push(mm);
        assert(meaning_views(meanings@) =~= prev.push(free_meaning(e.meanings@[i as int])));
        assert(e.meanings@.take(i + 1) =~= e.meanings@.take(i as int).push(e.meanings@[i as int]));
        i += 1;
        assert(meaning_views(meanings@) =~= e.meanings@.take(i as int).map_values(
            |m: FreeDictMeaning| free_meaning(m),
        ));
    }
    assert(e.meanings@.take(i as int) =~= e.meanings@);
    let r = DictionaryResult {
        word: e.word.clone(),
        phonetic,
        audio_url,
        meanings,
        source_url,
    };
    assert(r@.meanings =~= ms);
    Ok(r)
}

// ──────────────────────────────────────────────────────────────────────────
// Wiktionary replies
// ──────────────────────────────────────────────────────────────────────────

#[derive(Debug)]
pub struct WiktDefinition {
    pub definition: String,
    pub examples: Vec<String>,
}

#[derive(Debug)]
pub struct WiktEntry {
    pub part_of_speech: Option<String>,
    pub definitions: Vec<WiktDefinition>,
}

/// Lower-cased text as `str::to_lowercase` gives it (Unicode case mapping).
pub uninterp spec fn str_lowercase(s: Seq<char>) -> Seq<char>;

/// `str::to_lowercase`. Its result is named by `str_lowercase`; the Unicode
/// case mapping is not restated here.
#[verifier::external_body]
fn to_lowercase(s: &str) -> (r: String)
    ensures
        r@ == str_lowercase(s@),
{
    s.to_lowercase()
}

/// Wiktionary markup reduced to plain trimmed text.
pub open spec fn clean(s: Seq<char>) -> Seq<char> {
    text::trim(html_text::spec_strip_html_tags(s))
}

/// The first example whose cleaned text is not empty.
pub open spec fn first_example(es: Seq<String>) -> Option<Seq<char>>
    decreases es.len(),
{
    if es.len() == 0 {
        None
    } else if clean(es[0]@).len() > 0 {
        Some(clean(es[0]@))
    } else {
        first_example(es.drop_first())
    }
}

/// A definition with non-empty cleaned text, and its first example.
pub open spec fn wikt_definition(d: WiktDefinition) -> Option<DefinitionModel> {
    if clean(d.definition@).len() == 0 {
        None
    } else {
        Some(
            DefinitionModel {
                definition: clean(d.definition@),
                example: first_example(d.examples@),
                synonyms: Seq::empty(),
                antonyms: Seq::empty(),
            },
        )
    }
}

/// The usable definitions, in order.
pub open spec fn wikt_definitions(ds: Seq<WiktDefinition>) -> Seq<DefinitionModel>
    decreases ds.len(),
{
    if ds.len() == 0 {
        Seq::empty()
    } else {
        match wikt_definition(ds[0]) {
            Some(d) => seq![d] + wikt_definitions(ds.drop_first()),
            None => wikt_definitions(ds.drop_first()),
        }
    }
}

/// A part of speech with at most three usable definitions; none without
/// any (`unknown` when the part of speech is missing).
pub open spec fn wikt_meaning(e: WiktEntry) -> Option<MeaningModel> {
    let defs = at_most(wikt_definitions(e.definitions@), 3);
    if defs.len() == 0 {
        None
    } else {
        Some(
            MeaningModel {
                part_of_speech: match e.part_of_speech {
                    Some(p) => p@,
                    None => "unknown"@,
                },
                definitions: defs,
            },
        )
    }
}

pub open spec fn wikt_meanings(es: Seq<WiktEntry>) -> Seq<MeaningModel>
    decreases es.len(),
{
    if es.len() == 0 {
        Seq::empty()
    } else {
        match wikt_meaning(es[0]) {
            Some(m) => seq![m] + wikt_meanings(es.drop_first()),
            None => wikt_meanings(es.drop_first()),
        }
    }
}

/// The entries listed under a language code.
pub open spec fn entries_for(by_lang: Seq<(String, Vec<WiktEntry>)>, key: Seq<char>) -> Option<
    Seq<WiktEntry>,
>
    decreases by_lang.len(),
{
    if by_lang.len() == 0 {
        None
    } else if by_lang[0].0@ == key {
        Some(by_lang[0].1@)
    } else {
        entries_for(by_lang.drop_first(), key)
    }
}

/// `No definition found for "{word}"`.
pub open spec fn no_definition(word: Seq<char>) -> Seq<char> {
    "No definition found for \""@ + word + "\""@
}

/// The Wiktionary result: the entries of the requested language (its code
/// lower-cased), else of English; their usable meanings; the word and its
/// Wiktionary page. `None` when there is no language entry or no usable
/// meaning.
pub open spec fn wikt_result(
    word: Seq<char>,
    lang: Seq<char>,
    by_lang: Seq<(String, Vec<WiktEntry>)>,
) -> Option<DictionaryModel> {
    let es = match entries_for(by_lang, str_lowercase(lang)) {
        Some(e) => Some(e),
        None => entries_for(by_lang, "en"@),
    };
    match es {
        None => None,
        Some(e) => if wikt_meanings(e).len() == 0 {
            None
        } else {
            Some(
                DictionaryModel {
                    word,
                    phonetic: None,
                    audio_url: None,
                    meanings: wikt_meanings(e),
                    source_url: Some("https://en.wiktionary.org/wiki/"@ + word),
                },
            )
        },
    }
}

/// The first entry list under `key`, found by position.
proof fn lemma_first_under_key(by_lang: Seq<(String, Vec<WiktEntry>)>, key: Seq<char>, j: int)
    requires
        0 <= j < by_lang.len(),
        by_lang[j].0@ == key,
        forall|k: int| 0 <= k < j ==> by_lang[k].0@ != key,
    ensures
        entries_for(by_lang, key) == Some(by_lang[j].1@),
    decreases by_lang.len(),
{
    if j > 0 {
        assert(by_lang[0].0@ != key);
        let rest = by_lang.drop_first();
        assert forall|k: int| 0 <= k < j - 1 implies rest[k].0@ != key by {
            assert(rest[k] == by_lang[k + 1]);
        }
        lemma_first_under_key(rest, key, j - 1);
    }
}

/// No entry list under `key`.
proof fn lemma_none_under_key(by_lang: Seq<(String, Vec<WiktEntry>)>, key: Seq<char>)
    requires
        forall|k: int| 0 <= k < by_lang.len() ==> by_lang[k].0@ != key,
    ensures
        entries_for(by_lang, key) is None,
    decreases by_lang.len(),
{
    if by_lang.len() > 0 {
        let rest = by_lang.drop_first();
        assert forall|k: int| 0 <= k < rest.len() implies rest[k].0@ != key by {
            assert(rest[k] == by_lang[k + 1]);
        }
        lemma_none_under_key(rest, key);
    }
}

/// The requested language wins: where the reply lists entries under the
/// lower-cased requested code (`j` the first such list), the result is
/// there exactly when that list has a usable meaning, and its meanings are
/// the usable meanings of that list, whatever else (English among it) the
/// reply holds.
pub proof fn law_wikt_requested_language(
    word: Seq<char>,
    lang: Seq<char>,
    by_lang: Seq<(String, Vec<WiktEntry>)>,
    j: int,
)
    requires
        0 <= j < by_lang.len(),
        by_lang[j].0@ == str_lowercase(lang),
        forall|k: int| 0 <= k < j ==> by_lang[k].0@ != str_lowercase(lang),
    ensures
        wikt_result(word, lang, by_lang) is Some <==> wikt_meanings(by_lang[j].1@).len() > 0,
        wikt_result(word, lang, by_lang) is Some ==> wikt_result(word, lang, by_lang)->Some_0.meanings
            == wikt_meanings(by_lang[j].1@),
        wikt_result(word, lang, by_lang) is Some ==> wikt_result(word, lang, by_lang)->Some_0.word
            == word,
{
    lemma_first_under_key(by_lang, str_lowercase(lang), j);
}

/// English is the fallback: where the reply lists nothing under the
/// lower-cased requested code, the result comes from the first English
/// list (`j`), exactly as above.
pub proof fn law_wikt_english_fallback(
    word: Seq<char>,
    lang: Seq<char>,
    by_lang: Seq<(String, Vec<WiktEntry>)>,
    j: int,
)
    requires
        forall|k: int| 0 <= k < by_lang.len() ==> by_lang[k].0@ != str_lowercase(lang),
        0 <= j < by_lang.len(),
        by_lang[j].0@ == "en"@,
        forall|k: int| 0 <= k < j ==> by_lang[k].0@ != "en"@,
    ensures
        wikt_result(word, lang, by_lang) is Some <==> wikt_meanings(by_lang[j].1@).len() > 0,
        wikt_result(word, lang, by_lang) is Some ==> wikt_result(word, lang, by_lang)->Some_0.meanings
            == wikt_meanings(by_lang[j].1@),
{
    lemma_none_under_key(by_lang, str_lowercase(lang));
    lemma_first_under_key(by_lang, "en"@, j);
}

/// With neither the requested language nor English in the reply there is
/// no result.
pub proof fn law_wikt_no_language(
    word: Seq<char>,
    lang: Seq<char>,
    by_lang: Seq<(String, Vec<WiktEntry>)>,
)
    requires
        forall|k: int|
            0 <= k < by_lang.len() ==> by_lang[k].0@ != str_lowercase(lang) && by_lang[k].0@
                != "en"@,
    ensures
        wikt_result(word, lang, by_lang) is None,
{
    lemma_none_under_key(by_lang, str_lowercase(lang));
    lemma_none_under_key(by_lang, "en"@);
}

fn clean_chars(s: &String) -> (r: Vec<char>)
    ensures
        r@ == clean(s@),
{
    let c = text::chars_of(s.as_str());
    let st = html_text::strip_html_tags_chars(&c);
    text::trim_chars(&st)
}

fn find_example(es: &Vec<String>) -> (r: Option<String>)
    ensures
        opt_str(r) == first_example(es@),
{
    let mut i: usize = 0;
    assert(es@.skip(0) =~= es@);
    while i < es.len()
        invariant
            i <= es.len(),
            first_example(es@) == first_example(es@.skip(i as int)),
        decreases es.len() - i,
    {
        assert(es@.skip(i as int)[0] == es@[i as int]);
        assert(es@.skip(i as int).drop_first() =~= es@.skip(i + 1));
        let c = clean_chars(&es[i]);
        if c.len() > 0 {
            return Some(text::string_of(&c));
        }
        i += 1;
    }
    None
}

fn wikt_meaning_of(e: &WiktEntry) -> (r: Option<DictionaryMeaning>)
    ensures
        match r {
            Some(m) => wikt_meaning(*e) == Some(m@),
            None => wikt_meaning(*e) is None,
        },
{
    let ghost all = wikt_definitions(e.definitions@);
    let ds = &e.definitions;
    let mut defs: Vec<DictionaryDefinition> = Vec::new();
    let mut i: usize = 0;
    assert(ds@.skip(0) =~= ds@);
    while i < ds.len() && defs.len() < 3
        invariant
            i <= ds.len(),
            defs.len() <= 3,
            all == wikt_definitions(e.definitions@),
            ds@ == e.definitions@,
            all == definition_views(defs@) + wikt_definitions(ds@.skip(i as int)),
        decreases ds.len() - i,
    {
        assert(ds@.skip(i as int)[0] == ds@[i as int]);
        assert(ds@.skip(i as int).drop_first() =~= ds@.skip(i + 1));
        let d = &ds[i];
        let c = clean_chars(&d.definition);
        if c.len() > 0 {
            let ghost prev = definition_views(defs@);
            let nd = DictionaryDefinition {
                definition: text::string_of(&c),
                example: find_example(&d.examples),
                synonyms: Vec::new(),
                antonyms: Vec::new(),
            };
            assert(nd@.synonyms =~= Seq::<Seq<char>>::empty());
            assert(nd@.antonyms =~= Seq::<Seq<char>>::empty());
            defs.push(nd);
            assert(definition_views(defs@) =~= prev.push(nd@));
            assert(prev + (seq![nd@] + wikt_definitions(ds@.skip(i + 1))) =~= definition_views(
                defs@,
            ) + wikt_definitions(ds@.skip(i + 1)));
        }
        i += 1;
    }
    proof {
        if defs.len() < 3 {
            assert(ds@.skip(i as int) =~= Seq::<WiktDefinition>::empty());
            assert(all =~= definition_views(defs@));
        } else {
            assert(all.take(3) =~= definition_views(defs@));
        }
    }
    if defs.len() == 0 {
        return None;
    }
    let pos = match &e.part_of_speech {
        Some(p) => p.clone(),
        None => String::from_str("unknown"),
    };
    Some(DictionaryMeaning { part_of_speech: pos, definitions: defs })
}

fn find_entries<'a>(by_lang: &'a Vec<(String, Vec<WiktEntry>)>, key: &String) -> (r: Option<
    &'a Vec<WiktEntry>,
>)
    ensures
        match r {
            Some(v) => entries_for(by_lang@, key@) == Some(v@),
            None => entries_for(by_lang@, key@) is None,
        },
{
    let mut i: usize = 0;
    assert(by_lang@.skip(0) =~= by_lang@);
    while i < by_lang.len()
        invariant
            i <= by_lang.len(),
            entries_for(by_lang@, key@) == entries_for(by_lang@.skip(i as int), key@),
        decreases by_lang.len() - i,
    {
        assert(by_lang@.skip(i as int)[0] == by_lang@[i as int]);
        assert(by_lang@.skip(i as int).drop_first() =~= by_lang@.skip(i + 1));
        if by_lang[i].0 == *key {
            return Some(&by_lang[i].1);
        }
        i += 1;
    }
    None
}

/// The result for a decoded Wiktionary reply (see [`wikt_result`]); no
/// language entry or no usable meaning is `No definition found`.
pub fn wiktionary_result(word: &str, lang: &str, by_lang: &Vec<(String, Vec<WiktEntry>)>) -> (r: Result<
    DictionaryResult,
    ShioriError,
>)
    ensures
        match r {
            Ok(d) => wikt_result(word@, lang@, by_lang@) == Some(d@),
            Err(e) => wikt_result(word@, lang@, by_lang@) is None && e.msg() == no_definition(
                word@,
            ),
        },
{
    let key = to_lowercase(lang);
    let en = String::from_str("en");
    let es = match find_entries(by_lang, &key) {
        Some(e) => Some(e),
        None => find_entries(by_lang, &en),
    };
    let mut nd = String::from_str("No definition found for \"");
    nd.append(word);
    nd.append("\"");
    let es = match es {
        None => return Err(ShioriError::Other(nd)),
        Some(e) => e,
    };
    let ghost all = wikt_meanings(es@);
    let mut meanings: Vec<DictionaryMeaning> = Vec::new();
    let mut i: usize = 0;
    assert(es@.skip(0) =~= es@);
    while i < es.len()
        invariant
            i <= es.len(),
            all == wikt_meanings(es@),
            all == meaning_views(meanings@) + wikt_meanings(es@.skip(i as int)),
        decreases es.len() - i,
    {
        assert(es@.skip(i as int)[0] == es@[i as int]);
        assert(es@.skip(i as int).drop_first() =~= es@.skip(i + 1));
        match wikt_meaning_of(&es[i]) {
            Some(m) => {
                let ghost prev = meaning_views(meanings@);
                meanings.push(m);
                assert(meaning_views(meanings@) =~= prev.push(m@));
                assert(prev + (seq![m@] + wikt_meanings(es@.skip(i + 1))) =~= meaning_views(
                    meanings@,
                ) + wikt_meanings(es@.skip(i + 1)));
            },
            None => {},
        }
        i += 1;
    }
    assert(es@.skip(i as int) =~= Seq::<WiktEntry>::empty());
    assert(all =~= meaning_views(meanings@));
    if meanings.len() == 0 {
        return Err(ShioriError::Other(nd));
    }
    let mut src = String::from_str("https://en.wiktionary.org/wiki/");
    src.append(word);
    Ok(
        DictionaryResult {
            word: String::from_str(word),
            phonetic: None,
            audio_url: None,
            meanings,
            source_url: Some(src),
        },
    )
}

// ──────────────────────────────────────────────────────────────────────────
// The lookup, reply by reply
// ──────────────────────────────────────────────────────────────────────────

/// How a request went, up to its status line.
#[derive(Debug)]
pub enum HttpHead {
    /// No HTTP client could be built (its error message).
    NoClient(String),
    /// The request failed: network error or time-out (its message).
    Failed(String),
    /// The server answered with this status code and status text (the code
    /// and its reason phrase, as `StatusCode` displays it).
    Status(u16, String),
}

/// The HTTP success range.
pub open spec fn is_success(code: u16) -> bool {
    200 <= code && code <= 299
}

/// Upstream failures worth another attempt.
pub open spec fn is_transient(code: u16) -> bool {
    code == 502 || code == 503 || code == 504
}

/// Attempts made at the Free Dictionary API before falling back.
pub const MAX_ATTEMPTS: u32 = 3;

/// What the lookup asks its caller to do next.
#[derive(Debug)]
pub enum DictAction {
    /// Wait `wait_ms` milliseconds, then GET `url` (attempt number
    /// `attempt`) and reply with its [`HttpHead`].
    FetchFreeDictionary { url: String, attempt: u32, wait_ms: u64 },
    /// Decode the body of the successful Free Dictionary reply.
    ReadFreeDictionaryBody,
    /// GET the Wiktionary URL; `primary` is the error surfaced if this
    /// fallback fails too.
    FetchWiktionary { url: String, primary: ShioriError },
    /// Decode the body of the successful Wiktionary reply.
    ReadWiktionaryBody { primary: ShioriError },
    /// The lookup is over.
    Done(Result<DictionaryResult, ShioriError>),
}

/// `https://api.dictionaryapi.dev/api/v2/entries/{lang}/{word}`, both
/// percent-encoded.
pub open spec fn free_dictionary_url(lang: Seq<char>, word: Seq<char>) -> Seq<char> {
    "https://api.dictionaryapi.dev/api/v2/entries/"@ + url_encoded(lang) + "/"@ + url_encoded(word)
}

/// `https://en.wiktionary.org/api/rest_v1/page/definition/{word}`, the word
/// percent-encoded.
pub open spec fn wiktionary_url(word: Seq<char>) -> Seq<char> {
    "https://en.wiktionary.org/api/rest_v1/page/definition/"@ + url_encoded(word)
}

/// The message of a Free Dictionary failure that ends the retries, or of a
/// failure that is not retried: `None` for a success status.
pub open spec fn free_failure(word: Seq<char>, attempt: u32, head: HttpHead) -> Option<Seq<char>> {
    match head {
        HttpHead::NoClient(e) => Some("HTTP client error: "@ + e@),
        HttpHead::Failed(e) => Some(unavailable("Dictionary request failed: "@ + e@)),
        HttpHead::Status(c, t) => if is_transient(c) {
            Some(unavailable("Dictionary service returned status "@ + t@))
        } else if is_success(c) {
            None
        } else if c == 404 {
            Some(no_definition(word))
        } else {
            Some("Dictionary API returned status "@ + t@)
        },
    }
}

/// The give-up message after the last transient failure.
pub open spec fn unavailable(last: Seq<char>) -> Seq<char> {
    "Dictionary service is temporarily unavailable. Please try again in a moment. ("@ + last
        + ")"@
}

/// A transient failure: a network error or a 502/503/504 status.
pub open spec fn retryable(head: HttpHead) -> bool {
    match head {
        HttpHead::NoClient(_) => false,
        HttpHead::Failed(_) => true,
        HttpHead::Status(c, _) => is_transient(c),
    }
}

/// One dictionary lookup.
pub struct DictionaryLookup {
    pub word: String,
    pub lang: String,
}

pub open spec fn fetch_wiktionary(a: DictAction, word: Seq<char>, primary: Seq<char>) -> bool {
    a matches DictAction::FetchWiktionary { url, primary: p } && url@ == wiktionary_url(word)
        && p.msg() == primary
}

impl DictionaryLookup {
    /// The first request: attempt 1 at the Free Dictionary API, no wait.
    pub fn start(&self) -> (r: DictAction)
        ensures
            r matches DictAction::FetchFreeDictionary { url, attempt, wait_ms } && url@
                == free_dictionary_url(self.lang@, self.word@) && attempt == 1 && wait_ms == 0,
    {
        DictAction::FetchFreeDictionary { url: self.free_url(), attempt: 1, wait_ms: 0 }
    }

    fn free_url(&self) -> (r: String)
        ensures
            r@ == free_dictionary_url(self.lang@, self.word@),
    {
        let mut u = String::from_str("https://api.dictionaryapi.dev/api/v2/entries/");
        let l = url_encode(self.lang.as_str());
        u.append(l.as_str());
        u.append("/");
        let w = url_encode(self.word.as_str());
        u.append(w.as_str());
        u
    }

    fn fallback(&self, primary: String) -> (r: DictAction)
        ensures
            fetch_wiktionary(r, self.word@, primary@),
    {
        let mut u = String::from_str("https://en.wiktionary.org/api/rest_v1/page/definition/");
        let w = url_encode(self.word.as_str());
        u.append(w.as_str());
        DictAction::FetchWiktionary { url: u, primary: ShioriError::Other(primary) }
    }

    /// After a Free Dictionary request: a transient failure (network error,
    /// 502/503/504) is retried after `400 × attempt` ms while attempts are
    /// left; a success status reads the body; any other failure becomes the
    /// primary error and the lookup falls back to Wiktionary.
    pub fn after_free_head(&self, attempt: u32, head: HttpHead) -> (r: DictAction)
        requires
            1 <= attempt <= MAX_ATTEMPTS,
        ensures
            retryable(head) && attempt < MAX_ATTEMPTS ==> (r matches DictAction::FetchFreeDictionary {
                url,
                attempt: a,
                wait_ms,
            } && url@ == free_dictionary_url(self.lang@, self.word@) && a == attempt + 1 && wait_ms
                == 400 * attempt),
            !(retryable(head) && attempt < MAX_ATTEMPTS) && free_failure(self.word@, attempt, head)
                is None ==> r is ReadFreeDictionaryBody,
            !(retryable(head) && attempt < MAX_ATTEMPTS) && free_failure(self.word@, attempt, head)
                is Some ==> fetch_wiktionary(
                r,
                self.word@,
                free_failure(self.word@, attempt, head).unwrap(),
            ),
    {
        let retry = match &head {
            HttpHead::NoClient(_) => false,
            HttpHead::Failed(_) => true,
            HttpHead::Status(c, _) => *c == 502 || *c == 503 || *c == 504,
        };
        if retry && attempt < MAX_ATTEMPTS {
            return DictAction::FetchFreeDictionary {
                url: self.free_url(),
                attempt: attempt + 1,
                wait_ms: 400 * (attempt as u64),
            };
        }
        match head {
            HttpHead::NoClient(e) => {
                let mut m = String::from_str("HTTP client error: ");
                m.append(e.as_str());
                self.fallback(m)
            },
            HttpHead::Failed(e) => {
                let mut last = String::from_str("Dictionary request failed: ");
                last.append(e.as_str());
                self.fallback(give_up(last))
            },
            HttpHead::Status(c, t) => {
                if c == 502 || c == 503 || c == 504 {
                    let mut last = String::from_str("Dictionary service returned status ");
                    last.append(t.as_str());
                    self.fallback(give_up(last))
                } else if 200 <= c && c <= 299 {
                    DictAction::ReadFreeDictionaryBody
                } else if c == 404 {
                    self.fallback(no_definition_msg(self.word.as_str()))
                } else {
                    let mut m = String::from_str("Dictionary API returned status ");
                    m.append(t.as_str());
                    self.fallback(m)
                }
            },
        }
    }

    /// After decoding the Free Dictionary body (or failing to): the result,
    /// or the fallback with the primary error.
    pub fn after_free_body(&self, body: Result<Vec<FreeDictEntry>, String>) -> (r: DictAction)
        ensures
            body matches Err(e) ==> fetch_wiktionary(
                r,
                self.word@,
                "Failed to parse dictionary response: "@ + e@,
            ),
            body matches Ok(es) && es@.len() == 0 ==> fetch_wiktionary(
                r,
                self.word@,
                "Empty dictionary response"@,
            ),
            body matches Ok(es) && es@.len() > 0 ==> (r matches DictAction::Done(Ok(d)) && d@
                == free_result(body->Ok_0@[0])),
    {
        match body {
            Err(e) => {
                let mut m = String::from_str("Failed to parse dictionary response: ");
                m.append(e.as_str());
                self.fallback(m)
            },
            Ok(es) => match free_dictionary_result(&es) {
                Ok(d) => DictAction::Done(Ok(d)),
                Err(e) => self.fallback(e.message()),
            },
        }
    }

    /// After the Wiktionary request: a success status reads the body; any
    /// failure ends the lookup with the primary error.
    pub fn after_wiktionary_head(&self, primary: ShioriError, head: HttpHead) -> (r: DictAction)
        ensures
            (head matches HttpHead::Status(c, _) && is_success(c)) ==> (r matches DictAction::ReadWiktionaryBody {
                primary: p,
            } && p.msg() == primary.msg()),
            !(head matches HttpHead::Status(c, _) && is_success(c)) ==> (r matches DictAction::Done(
                Err(e),
            ) && e.msg() == primary.msg()),
    {
        match head {
            HttpHead::Status(c, _) => {
                if 200 <= c && c <= 299 {
                    return DictAction::ReadWiktionaryBody { primary };
                }
                DictAction::Done(Err(primary))
            },
            _ => DictAction::Done(Err(primary)),
        }
    }

    /// After decoding the Wiktionary body (or failing to): its result, or
    /// the primary error.
    pub fn after_wiktionary_body(
        &self,
        primary: ShioriError,
        body: Result<Vec<(String, Vec<WiktEntry>)>, String>,
    ) -> (r: DictAction)
        ensures
            (body matches Ok(b) && wikt_result(self.word@, self.lang@, b@) is Some) ==> (r matches DictAction::Done(
                Ok(d),
            ) && wikt_result(self.word@, self.lang@, body->Ok_0@) == Some(d@)),
            !(body matches Ok(b) && wikt_result(self.word@, self.lang@, b@) is Some) ==> (r matches DictAction::Done(
                Err(e),
            ) && e.msg() == primary.msg()),
    {
        match body {
            Ok(b) => match wiktionary_result(self.word.as_str(), self.lang.as_str(), &b) {
                Ok(d) => DictAction::Done(Ok(d)),
                Err(_) => DictAction::Done(Err(primary)),
            },
            Err(_) => DictAction::Done(Err(primary)),
        }
    }
}

fn give_up(last: String) -> (r: String)
    ensures
        r@ == unavailable(last@),
{
    let mut m = String::from_str(
        "Dictionary service is temporarily unavailable. Please try again in a moment. (",
    );
    m.append(last.as_str());
    m.append(")");
    m
}

fn no_definition_msg(word: &str) -> (r: String)
    ensures
        r@ == no_definition(word@),
{
    let mut m = String::from_str("No definition found for \"");
    m.append(word);
    m.append("\"");
    m
}

} // verus!
