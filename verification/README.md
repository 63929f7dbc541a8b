# shiori

The verified core of the Shiori e-book reader's back end, written in Verus.

`src/` holds the logic with its contracts and proofs:

- `mobi_huff` — HUFF/CDIC decompression of MOBI text records;
- `markdown_split`, `pdf_split`, `books` — chapter splitting and book assembly
  for Markdown and extracted PDF text;
- `front_matter`, `book_post`, `docx_meta` — the title / front-matter
  post-pass of the TXT and DOCX parsers and the DOCX core properties;
- `markdown_adapter` — Markdown metadata, word and page counts;
- `online_cover`, `dictionary`, `translation` — the decisions of the cover,
  dictionary and translation lookups (which request comes next, what a reply
  means), the translation cache and long-text chunking;
- `text`, `html_text`, `oeb`, `models` — shared text primitives, the book
  model and plugin payloads.

`app/` performs the network requests, waits, file reading and JSON
decoding around it; `tests/` runs the library on concrete inputs.
