use shiori::books::{markdown_book, pdf_book};
use shiori::markdown_adapter::BookMetadata;
use shiori::book_post::{finalize_chapters, finish_docx_book, finish_txt_book, strip_trailing_junk};
use shiori::docx_meta::{core_from_tokens, core_metadata, local_name, read_core_metadata, XmlToken};
use shiori::front_matter::{detect_front_matter, first_paragraphs, is_junk_line, strip_front_matter};
use shiori::markdown_split::{image_sources, split_into_chapters, ConversionError};
use shiori::oeb::{OebBook, OebChapter};
use shiori::pdf_split::split_chapters;
use std::io::Write;

fn chapter(id: &str, title: Option<&str>, html: &str) -> OebChapter {
    OebChapter {
        id: id.to_string(),
        title: title.map(|t| t.to_string()),
        html: html.to_string(),
    }
}

#[test]
fn test_split_into_chapters() {
    let md = "# My Book\n\nIntro paragraph.\n\n## Chapter One\n\nBody one.\n\n## Chapter Two\n\nBody two.";
    let chapters = split_into_chapters(md, &Vec::new()).unwrap();

    // First h1 is the title — only the two h2s become chapters.
    assert_eq!(chapters.len(), 2);
    assert_eq!(chapters[0].0, "Chapter One");
    assert!(chapters[0].1.contains("Intro paragraph."));
    assert!(chapters[0].1.contains("Body one."));
    assert_eq!(chapters[1].0, "Chapter Two");
    assert!(chapters[1].1.contains("Body two."));
}

#[test]
fn test_split_no_headings() {
    let md = "Just some text.\n\nMore text.";
    let chapters = split_into_chapters(md, &Vec::new()).unwrap();
    assert_eq!(chapters.len(), 1);
    assert!(chapters[0].1.contains("Just some text."));
}

#[test]
fn markdown_without_headings_is_one_content_chapter() {
    let chapters = split_into_chapters("Just some text.\n\nMore text.", &Vec::new()).unwrap();
    assert_eq!(chapters[0].0, "Content");
    assert!(chapters[0].1.contains("<p>More text.</p>"));
}

#[test]
fn markdown_empty_text_is_empty_content() {
    assert_eq!(split_into_chapters("", &Vec::new()), Err(ConversionError::EmptyContent));
    assert_eq!(split_into_chapters("   \n\n  ", &Vec::new()), Err(ConversionError::EmptyContent));
}

#[test]
fn markdown_heading_body_is_rendered_and_title_trimmed() {
    let chapters = split_into_chapters("## Chapter One\n\nBody one.", &Vec::new()).unwrap();
    assert_eq!(chapters.len(), 1);
    assert_eq!(chapters[0].0, "Chapter One");
    assert!(chapters[0].1.starts_with("<h2>Chapter One</h2>"));
    assert!(chapters[0].1.contains("<p>Body one.</p>"));
}

#[test]
fn markdown_only_the_first_h1_is_the_title() {
    let md = "# A\n\nText a.\n\n# B\n\nText b.";
    let chapters = split_into_chapters(md, &Vec::new()).unwrap();
    assert_eq!(chapters.len(), 1);
    assert_eq!(chapters[0].0, "B");
    assert!(chapters[0].1.starts_with("<p>Text a.</p>"));
    assert!(chapters[0].1.contains("<h1>B</h1>"));
    assert!(chapters[0].1.contains("Text b."));
    assert!(!chapters[0].1.contains("<h1>A</h1>"));
}

#[test]
fn markdown_heading_with_inline_markup_keeps_its_text() {
    let chapters = split_into_chapters("## The *Big* Day\n\nBody.", &Vec::new()).unwrap();
    assert_eq!(chapters[0].0, "The Big Day");
    assert!(chapters[0].1.starts_with("<h2>The <em>Big</em> Day</h2>"));
}

#[test]
fn markdown_images_use_embedded_names_or_escaped_urls() {
    let md = "Intro ![A cat](cat.png) and ![B & C](http://x/y?a=1&b=2)";
    assert_eq!(image_sources(md), vec!["cat.png".to_string(), "http://x/y?a=1&b=2".to_string()]);
    let emb = vec![Some("images/img_001.png".to_string()), None];
    let chapters = split_into_chapters(md, &emb).unwrap();
    let body = &chapters[0].1;
    assert!(body.contains("<img src=\"images/img_001.png\" alt=\"A cat\"/>"));
    assert!(body.contains("<img src=\"http://x/y?a=1&amp;b=2\" alt=\"B &amp; C\"/>"));
}

#[test]
fn test_split_chapters_detects_headings() {
    let html = "<p>Introduction</p>\n<p>Some intro text here.</p>\n<p>Chapter 1 The Beginning</p>\n<p>Once upon a time.</p>";
    let chapters = split_chapters(html);
    assert!(chapters.len() >= 2);
    let titles: Vec<&str> = chapters.iter().map(|(t, _)| t.as_str()).collect();
    assert!(titles.iter().any(|t| t.contains("Chapter 1")));
    assert!(chapters[0].1.contains("Some intro text"));
}

#[test]
fn pdf_split_exact_chapters() {
    let html = "<p>Some intro.</p>\n<p>CHAPTER ONE</p>\n<p>Text &amp; more.</p>";
    let chapters = split_chapters(html);
    assert_eq!(chapters.len(), 2);
    assert_eq!(chapters[0], ("Document".to_string(), "<p>Some intro.</p>".to_string()));
    assert_eq!(chapters[1].0, "CHAPTER ONE");
    assert_eq!(chapters[1].1, "<h2>CHAPTER ONE</h2>\n<p>Text &amp; more.</p>");
}

#[test]
fn pdf_split_skips_urls_emails_and_uppercase_tags() {
    let html = "<P class=\"x\">1 http://example.com</P>\n<p>ME@EXAMPLE.COM</p>\n<p>text</p>";
    let chapters = split_chapters(html);
    assert_eq!(chapters.len(), 1);
    assert_eq!(chapters[0].0, "Document");
}

#[test]
fn pdf_split_without_content_keeps_whole_html() {
    let chapters = split_chapters("  ");
    assert_eq!(chapters, vec![("Document".to_string(), "  ".to_string())]);
}

#[test]
fn finalize_drops_blank_chapters_and_renumbers() {
    let mut book = OebBook::new("Book".to_string());
    book.chapters.push(chapter("x", Some("A"), "<p>a</p>"));
    book.chapters.push(chapter("y", Some("B"), "  \n "));
    book.chapters.push(chapter("z", Some("C"), "<p>c</p>"));
    finalize_chapters(&mut book);
    assert_eq!(book.chapters.len(), 2);
    assert_eq!(book.chapters[0].id, "chapter_001");
    assert_eq!(book.chapters[1].id, "chapter_002");
    assert_eq!(book.chapters[1].title.as_deref(), Some("C"));
}

#[test]
fn finalize_gives_an_empty_book_a_placeholder_chapter() {
    let mut book = OebBook::new("Book".to_string());
    finalize_chapters(&mut book);
    assert_eq!(book.chapters.len(), 1);
    assert_eq!(book.chapters[0].id, "chapter_001");
    assert_eq!(book.chapters[0].title.as_deref(), Some("Book"));
    assert_eq!(book.chapters[0].html, "<p>&#160;</p>");
}

#[test]
fn trailing_page_numbers_are_stripped() {
    let mut book = OebBook::new("Book".to_string());
    book.chapters.push(chapter("c1", None, "<p>One</p>\n<p>Two</p>"));
    book.chapters.push(chapter("c2", None, "<p>Story</p>\n<p>42</p>\n<p>- 43 -</p>\n<p>Page 44</p>"));
    strip_trailing_junk(&mut book);
    assert_eq!(book.chapters[0].html, "<p>One</p>\n<p>Two</p>");
    assert_eq!(book.chapters[1].html, "<p>Story</p>");
    assert!(is_junk_line("p. 12"));
    assert!(!is_junk_line("Chapter 12"));
}

#[test]
fn txt_post_pass_moves_front_matter_into_metadata() {
    let mut book = OebBook::new("Untitled".to_string());
    book.chapters.push(chapter(
        "c",
        Some("Chapter 1"),
        "<p>Sample Book</p>\n<p>by Test Author</p>\n<p>Once upon a time.</p>\n<p>12</p>",
    ));
    let fm = detect_front_matter(&book.chapters).unwrap();
    assert_eq!(fm.title, "Sample Book");
    assert_eq!(fm.author.as_deref(), Some("Test Author"));
    finish_txt_book(&mut book);
    assert_eq!(book.title, "Sample Book");
    assert_eq!(book.authors, vec!["Test Author".to_string()]);
    assert_eq!(book.chapters.len(), 1);
    assert_eq!(book.chapters[0].title.as_deref(), Some("Sample Book"));
    assert_eq!(book.chapters[0].html, "<p>Once upon a time.</p>\n");
}

#[test]
fn docx_post_pass_prefers_core_properties() {
    let mut book = OebBook::new("Chapter One".to_string());
    book.chapters.push(chapter("c", Some("Chapter One"), "<h1>Chapter One</h1>\n<p>Text</p>"));
    finish_docx_book(&mut book, Some("Real Title".to_string()), Some("Jane Roe".to_string()), Some("file"));
    assert_eq!(book.title, "Real Title");
    assert_eq!(book.authors, vec!["Jane Roe".to_string()]);

    let mut book = OebBook::new("Chapter 1".to_string());
    book.chapters.push(chapter("c", Some("Prologue"), "<h1>Prologue</h1>"));
    finish_docx_book(&mut book, None, None, Some("my_great-book"));
    assert_eq!(book.title, "my great book");
}

#[test]
fn front_matter_paragraphs_and_strip() {
    let html = "<h1>X</h1>\n<p>Sample Book</p>\n<p><b>by</b> Test Author</p>";
    let ps = first_paragraphs(html);
    assert_eq!(ps.len(), 2);
    assert_eq!(ps[1].0, "by Test Author");
    let out = strip_front_matter("<p>A</p>\n<p>B</p>\n<p>A</p>", "<p>A</p>", Some("<p>B</p>"));
    assert_eq!(out, "<p>A</p>\n");
}

#[test]
fn docx_core_properties_from_xml() {
    let xml = "<?xml version=\"1.0\"?><cp:coreProperties xmlns:dc=\"d\" xmlns:cp=\"c\"><dc:title> A &amp; B </dc:title><dc:creator>Jane</dc:creator><dc:creator>Other</dc:creator></cp:coreProperties>";
    let (t, c) = core_metadata(xml);
    assert_eq!(t.as_deref(), Some("A & B"));
    assert_eq!(c.as_deref(), Some("Jane"));
    assert_eq!(local_name(b"dc:title"), "title");
    assert_eq!(local_name(b"title"), "title");
    assert_eq!(local_name(b"a:b:c"), "c");
}

#[test]
fn docx_core_properties_from_archive() {
    assert_eq!(read_core_metadata(b"this is not a zip file at all"), (None, None));
    let mut buf = std::io::Cursor::new(Vec::new());
    {
        let mut w = zip::ZipWriter::new(&mut buf);
        let opts = zip::write::SimpleFileOptions::default()
            .compression_method(zip::CompressionMethod::Stored);
        w.start_file("docProps/core.xml", opts).unwrap();
        w.write_all(b"<cp:coreProperties><dc:title>Zip Title</dc:title></cp:coreProperties>").unwrap();
        w.finish().unwrap();
    }
    let data = buf.into_inner();
    assert_eq!(read_core_metadata(&data), (Some("Zip Title".to_string()), None));
}

#[test]
fn markdown_book_assembles_numbered_chapters() {
    let meta = BookMetadata { title: "Unknown".to_string(), ..Default::default() };
    let book = markdown_book(meta, Some("my_notes"), "## One\n\nA.\n\n## Two\n\nB.", &Vec::new()).unwrap();
    assert_eq!(book.title, "my_notes");
    assert_eq!(book.language, "en");
    assert_eq!(book.chapters.len(), 2);
    assert_eq!(book.chapters[1].id, "chapter_002");
    assert_eq!(book.chapters[1].title.as_deref(), Some("Two"));
    let meta = BookMetadata { title: "Real".to_string(), language: Some("fr".to_string()), ..Default::default() };
    let book = markdown_book(meta, None, "text", &Vec::new()).unwrap();
    assert_eq!((book.title.as_str(), book.language.as_str()), ("Real", "fr"));
    assert!(markdown_book(BookMetadata::default(), None, "", &Vec::new()).is_err());
}

#[test]
fn pdf_book_needs_text_and_cleans_the_stem() {
    assert!(pdf_book(BookMetadata::default(), Some("a"), " \n ", "<p>x</p>").is_err());
    let book = pdf_book(BookMetadata::default(), Some("my_great-book"), "x", "<p>x</p>").unwrap();
    assert_eq!(book.title, "my great book");
    assert_eq!(book.chapters.len(), 1);
    assert_eq!(book.chapters[0].id, "chapter_001");
    assert_eq!(book.chapters[0].title.as_deref(), Some("Document"));
    assert_eq!(book.chapters[0].html, "<p>x</p>");
    let book = pdf_book(BookMetadata::default(), None, "x", "").unwrap();
    assert_eq!(book.title, "Untitled");
}

#[test]
fn html_tags_are_stripped_and_entities_decoded() {
    assert_eq!(shiori::html_text::strip_html_tags("<b>A</b> &amp; B&nbsp;<i>C</i>"), "A & B C");
    assert_eq!(shiori::html_text::strip_html_tags("&lt;p&gt; &quot;q&quot; &#39;s&apos;"), "<p> \"q\" 's'");
}

#[test]
fn attribute_values_are_escaped() {
    assert_eq!(shiori::markdown_split::escape_attr("a<b>&\"'"), "a&lt;b&gt;&amp;&quot;&apos;");
}

#[test]
fn core_properties_from_given_tokens() {
    let toks = vec![
        XmlToken::Start(b"dc:title".to_vec()),
        XmlToken::Text("  T ".to_string()),
        XmlToken::End(b"dc:title".to_vec()),
        XmlToken::Text("outside".to_string()),
        XmlToken::Start(b"creator".to_vec()),
        XmlToken::Text("".to_string()),
        XmlToken::Other,
        XmlToken::Text("C".to_string()),
        XmlToken::Start(b"dc:title".to_vec()),
        XmlToken::Text("Second".to_string()),
    ];
    assert_eq!(core_from_tokens(&toks), (Some("T".to_string()), Some("C".to_string())));
    let toks = vec![XmlToken::Start(b"x:creator".to_vec()), XmlToken::Start(b"other".to_vec()), XmlToken::Text("no".to_string())];
    assert_eq!(core_from_tokens(&toks), (None, None));
}
