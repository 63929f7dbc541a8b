use shiori::dictionary::{
    free_dictionary_result, wiktionary_result, DictAction, DictionaryLookup, FreeDictDefinition,
    FreeDictEntry, FreeDictMeaning, FreeDictPhonetic, HttpHead, ShioriError, WiktDefinition,
    WiktEntry,
};
use shiori::translation::{
    assemble_chunks, cache_key_string, chunk_plan, google_translation, JsonValue, MyMemoryReply,
    TransAction, TranslateRoute, TranslationCache, TranslationRequest, TranslationResult,
    translation_route,
};

fn result(text: &str, provider: &str) -> TranslationResult {
    TranslationResult {
        translated_text: text.to_string(),
        source_language: "en".to_string(),
        target_language: "es".to_string(),
        provider: provider.to_string(),
    }
}

fn msg(e: &ShioriError) -> String {
    e.message()
}

#[test]
fn cache_returns_what_was_stored_last() {
    let mut cache = TranslationCache::new();
    let key = cache_key_string("en", "es", "hello");
    assert_eq!(key, "en:es:hello");
    assert!(cache.get(&key).is_none());
    cache.insert(key.clone(), result("hola", "google"));
    cache.insert("other".to_string(), result("x", "lingva"));
    cache.insert(key.clone(), result("buenas", "mymemory"));
    let got = cache.get(&key).unwrap();
    assert_eq!(got.translated_text, "buenas");
    assert_eq!(got.provider, "mymemory");
    assert_eq!(cache.get(&"other".to_string()).unwrap().translated_text, "x");
    assert_eq!(cache.entries.len(), 2);
}

#[test]
fn route_blank_cached_single_and_chunked() {
    let mut cache = TranslationCache::new();
    match translation_route("  \n", "en", "es", &cache) {
        TranslateRoute::Untranslated(r) => {
            assert_eq!(r.translated_text, "  \n");
            assert_eq!(r.provider, "none");
        }
        other => panic!("unexpected {:?}", other),
    }
    assert!(matches!(translation_route("hello", "en", "es", &cache), TranslateRoute::Single));
    cache.insert(cache_key_string("en", "es", "hello"), result("hola", "google"));
    match translation_route("hello", "en", "es", &cache) {
        TranslateRoute::Cached(r) => assert_eq!(r.translated_text, "hola"),
        other => panic!("unexpected {:?}", other),
    }
    let long = "a".repeat(401);
    assert!(matches!(translation_route(&long, "en", "es", &cache), TranslateRoute::Chunked));
    let exactly = "é".repeat(200);
    assert!(matches!(translation_route(&exactly, "en", "es", &cache), TranslateRoute::Single));
}

#[test]
fn chunks_split_on_sentence_ends_and_are_cut_at_400_bytes() {
    let long = "b".repeat(450);
    let text = format!("One. Two. . {}. three", long);
    let jobs = chunk_plan(&text);
    let texts: Vec<&str> = jobs.iter().map(|j| j.text.as_str()).collect();
    assert_eq!(texts, vec!["One", "Two", &long[..400], "three"]);
    let pauses: Vec<bool> = jobs.iter().map(|j| j.pause_after).collect();
    assert_eq!(pauses, vec![true, true, true, false]);
}

#[test]
fn chunk_translations_are_joined() {
    let pieces = vec![result("Uno", ""), result("Dos", "lingva"), result("Tres", "google")];
    let r = assemble_chunks(&pieces, "en", "es");
    assert_eq!(r.translated_text, "Uno. Dos. Tres");
    assert_eq!(r.provider, "lingva");
    let none = assemble_chunks(&Vec::new(), "en", "es");
    assert_eq!(none.translated_text, "");
    assert_eq!(none.provider, "");
}

fn request(src: &str) -> TranslationRequest {
    TranslationRequest {
        text: "hello world".to_string(),
        source_lang: src.to_string(),
        target_lang: "es".to_string(),
    }
}

#[test]
fn providers_are_tried_in_order() {
    let req = request("en");
    match req.start() {
        TransAction::FetchMyMemory { url, query } => {
            assert_eq!(url, "https://api.mymemory.translated.net/get");
            assert_eq!(query[1], ("langpair".to_string(), "en|es".to_string()));
        }
        other => panic!("unexpected {:?}", other),
    }
    assert!(matches!(request("auto").start(), TransAction::FetchGoogle { .. }));
    assert!(matches!(
        req.after_mymemory_head(HttpHead::Status(200, "200 OK".to_string())),
        TransAction::ReadMyMemoryBody
    ));
    let quota = MyMemoryReply { translated_text: "x".to_string(), response_status: Some(403) };
    assert!(matches!(req.after_mymemory_body(Ok(quota)), TransAction::FetchGoogle { .. }));
    let ok = MyMemoryReply { translated_text: "hola mundo".to_string(), response_status: Some(200) };
    match req.after_mymemory_body(Ok(ok)) {
        TransAction::Done(Ok(r)) => {
            assert_eq!(r.translated_text, "hola mundo");
            assert_eq!(r.provider, "mymemory");
        }
        other => panic!("unexpected {:?}", other),
    }
    match req.after_google_head(HttpHead::Failed("timeout".to_string())) {
        TransAction::FetchLingva { instance, url } => {
            assert_eq!(instance, 0);
            assert_eq!(url, "https://lingva.thedesk.top/api/v1/en/es/hello%20world");
        }
        other => panic!("unexpected {:?}", other),
    }
}

#[test]
fn google_reply_sentences_are_concatenated() {
    let s = |t: &str| JsonValue::Str(t.to_string());
    let v = JsonValue::Array(vec![
        JsonValue::Array(vec![
            JsonValue::Array(vec![s("Hola "), s("Hello ")]),
            JsonValue::Other,
            JsonValue::Array(vec![s("mundo"), s("world")]),
        ]),
        JsonValue::Other,
    ]);
    assert_eq!(google_translation(&v), "Hola mundo");
    let req = request("en");
    match req.after_google_body(Ok(v)) {
        TransAction::Done(Ok(r)) => assert_eq!(r.provider, "google"),
        other => panic!("unexpected {:?}", other),
    }
    assert!(matches!(
        req.after_google_body(Ok(JsonValue::Array(vec![]))),
        TransAction::FetchLingva { instance: 0, .. }
    ));
}

#[test]
fn lingva_failures_walk_the_instances_then_fail() {
    let req = request("en");
    assert!(matches!(
        req.after_lingva_head(0, HttpHead::Status(500, "500 Internal Server Error".to_string())),
        TransAction::FetchLingva { instance: 1, .. }
    ));
    assert!(matches!(
        req.after_lingva_body(2, Err("bad json".to_string())),
        TransAction::FetchLingva { instance: 3, .. }
    ));
    match req.after_lingva_head(3, HttpHead::Failed("refused".to_string())) {
        TransAction::Done(Err(e)) => assert_eq!(
            msg(&e),
            "All translation providers failed. Last error: All Lingva instances failed. Last error: Request failed: refused"
        ),
        other => panic!("unexpected {:?}", other),
    }
    match req.after_lingva_body(3, Ok("hola".to_string())) {
        TransAction::Done(Ok(r)) => assert_eq!(r.provider, "lingva"),
        other => panic!("unexpected {:?}", other),
    }
}

fn lookup() -> DictionaryLookup {
    DictionaryLookup { word: "hello world".to_string(), lang: "en".to_string() }
}

#[test]
fn free_dictionary_retries_then_falls_back() {
    let l = lookup();
    match l.start() {
        DictAction::FetchFreeDictionary { url, attempt, wait_ms } => {
            assert_eq!(url, "https://api.dictionaryapi.dev/api/v2/entries/en/hello%20world");
            assert_eq!((attempt, wait_ms), (1, 0));
        }
        other => panic!("unexpected {:?}", other),
    }
    match l.after_free_head(1, HttpHead::Status(503, "503 Service Unavailable".to_string())) {
        DictAction::FetchFreeDictionary { attempt, wait_ms, .. } => assert_eq!((attempt, wait_ms), (2, 400)),
        other => panic!("unexpected {:?}", other),
    }
    match l.after_free_head(2, HttpHead::Failed("timed out".to_string())) {
        DictAction::FetchFreeDictionary { attempt, wait_ms, .. } => assert_eq!((attempt, wait_ms), (3, 800)),
        other => panic!("unexpected {:?}", other),
    }
    match l.after_free_head(3, HttpHead::Status(502, "502 Bad Gateway".to_string())) {
        DictAction::FetchWiktionary { url, primary } => {
            assert_eq!(url, "https://en.wiktionary.org/api/rest_v1/page/definition/hello%20world");
            assert_eq!(
                msg(&primary),
                "Dictionary service is temporarily unavailable. Please try again in a moment. (Dictionary service returned status 502 Bad Gateway)"
            );
        }
        other => panic!("unexpected {:?}", other),
    }
    match l.after_free_head(1, HttpHead::Status(404, "404 Not Found".to_string())) {
        DictAction::FetchWiktionary { primary, .. } => {
            assert_eq!(msg(&primary), "No definition found for \"hello world\"")
        }
        other => panic!("unexpected {:?}", other),
    }
    assert!(matches!(
        l.after_free_head(1, HttpHead::Status(200, "200 OK".to_string())),
        DictAction::ReadFreeDictionaryBody
    ));
}

#[test]
fn wiktionary_failure_surfaces_the_primary_error() {
    let l = lookup();
    let primary = ShioriError::Other("primary".to_string());
    match l.after_wiktionary_head(primary, HttpHead::Status(404, "404 Not Found".to_string())) {
        DictAction::Done(Err(e)) => assert_eq!(msg(&e), "primary"),
        other => panic!("unexpected {:?}", other),
    }
    let primary = ShioriError::Other("primary".to_string());
    match l.after_wiktionary_body(primary, Ok(Vec::new())) {
        DictAction::Done(Err(e)) => assert_eq!(msg(&e), "primary"),
        other => panic!("unexpected {:?}", other),
    }
}

fn def(d: &str, syn: usize) -> FreeDictDefinition {
    FreeDictDefinition {
        definition: d.to_string(),
        example: None,
        synonyms: (0..syn).map(|i| format!("s{}", i)).collect(),
        antonyms: Vec::new(),
    }
}

#[test]
fn free_dictionary_entry_is_trimmed_to_limits() {
    assert_eq!(msg(&free_dictionary_result(&Vec::new()).unwrap_err()), "Empty dictionary response");
    let entry = FreeDictEntry {
        word: "hello".to_string(),
        phonetic: None,
        phonetics: Some(vec![
            FreeDictPhonetic { text: None, audio: Some(String::new()) },
            FreeDictPhonetic { text: Some("/həˈləʊ/".to_string()), audio: Some("a.mp3".to_string()) },
        ]),
        meanings: vec![FreeDictMeaning {
            part_of_speech: "noun".to_string(),
            definitions: vec![def("one", 7), def("two", 0), def("three", 0), def("four", 0)],
        }],
        source_urls: Some(vec!["https://x/hello".to_string(), "https://y".to_string()]),
    };
    let r = free_dictionary_result(&vec![entry]).unwrap();
    assert_eq!(r.phonetic.as_deref(), Some("/həˈləʊ/"));
    assert_eq!(r.audio_url.as_deref(), Some("a.mp3"));
    assert_eq!(r.source_url.as_deref(), Some("https://x/hello"));
    assert_eq!(r.meanings[0].definitions.len(), 3);
    assert_eq!(r.meanings[0].definitions[0].synonyms.len(), 5);
}

#[test]
fn wiktionary_entries_are_cleaned() {
    let entries = vec![
        WiktEntry {
            part_of_speech: None,
            definitions: vec![
                WiktDefinition { definition: "<b> </b>".to_string(), examples: vec![] },
                WiktDefinition {
                    definition: "A <i>greeting</i>.".to_string(),
                    examples: vec!["  ".to_string(), "<b>Hello</b>, there".to_string()],
                },
            ],
        },
        WiktEntry { part_of_speech: Some("verb".to_string()), definitions: vec![] },
    ];
    let by_lang = vec![("en".to_string(), entries)];
    let r = wiktionary_result("hello", "EN", &by_lang).unwrap();
    assert_eq!(r.meanings.len(), 1);
    assert_eq!(r.meanings[0].part_of_speech, "unknown");
    assert_eq!(r.meanings[0].definitions[0].definition, "A greeting.");
    assert_eq!(r.meanings[0].definitions[0].example.as_deref(), Some("Hello, there"));
    assert_eq!(r.source_url.as_deref(), Some("https://en.wiktionary.org/wiki/hello"));
    let e = wiktionary_result("hello", "fr", &Vec::new()).unwrap_err();
    assert_eq!(msg(&e), "No definition found for \"hello\"");
}

#[test]
fn over_long_chunks_are_cut_on_a_character_boundary() {
    let text = format!("{}é{}", "a".repeat(399), "b");
    let jobs = chunk_plan(&text);
    assert_eq!(jobs.len(), 1);
    assert_eq!(jobs[0].text, "a".repeat(399));
    assert!(!jobs[0].pause_after);
    let text = format!("{}é. tail", "a".repeat(398));
    let jobs = chunk_plan(&text);
    assert_eq!(jobs[0].text, format!("{}é", "a".repeat(398)));
    assert_eq!(jobs[1].text, "tail");
}
