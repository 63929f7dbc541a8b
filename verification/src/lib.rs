//! Verified core of the Shiori e-book reader back end.
pub mod text;
pub mod html_text;
pub mod mobi_huff;
pub mod markdown_adapter;
pub mod models;
pub mod oeb;
pub mod front_matter;
pub mod book_post;
pub mod markdown_split;
pub mod online_cover;
pub mod dictionary;
pub mod translation;
pub mod docx_meta;
pub mod pdf_split;
pub mod books;
