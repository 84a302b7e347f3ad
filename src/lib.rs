//! A typesetting engine for an e-reader: it segments plain text into
//! chapters and paragraphs, and lays them out onto fixed-size pages.
//!
//! - [text]: characters, lines and trimming
//! - [document]: the document model
//! - [parser]: text into chapters
//! - [cache]: parsed chapters keyed by title
//! - [layout]: chapters onto pages
//! - [renderer]: pages as text
//! - [file_loader]: file formats and decoding
//! - [typeset]: whole-document operations for a reader front end

pub mod cache;
pub mod document;
pub mod file_loader;
pub mod layout;
pub mod parser;
pub mod renderer;
pub mod text;
pub mod typeset;

pub use cache::ChapterCache;
pub use document::{
    Chapter, ContentBlock, ContentBlockType, DocumentMetadata, DocumentModel, LayoutMetrics,
    TextStyle,
};
pub use file_loader::{FileFormat, FileLoader};
pub use layout::{LayoutEngine, Page, PageConfig};
pub use parser::{segment_chapters, ParserEngine};
pub use renderer::{render_pages_for_tauri, Renderer};
pub use typeset::{greet, parse_document_chapters, typeset_document, typeset_document_with_chapter_info};

use vstd::prelude::*;
use crate::layout::{capacity, chapter_layout_model, pages_are};
use crate::parser::{chapter_is, parsed_chapters};

verus! {

/// Lays out only chapter `chapter_index` of `content`; no page when the text
/// has no such chapter.
pub fn layout_chapter_on_demand(content: &str, chapter_index: usize, page_config: PageConfig) -> (r: Vec<Page>)
    ensures
        chapter_index >= parsed_chapters(content@).len() ==> r.len() == 0,
        chapter_index < parsed_chapters(content@).len() ==> exists|c: Chapter|
            #[trigger] chapter_is(c, chapter_index as int, parsed_chapters(content@)[chapter_index as int])
                && pages_are(r@, chapter_layout_model(seq![c], 0, capacity(page_config))),
{
    let parser = ParserEngine::new();
    let document = parser.parse_txt_chapter(content, chapter_index);
    let layout_engine = LayoutEngine::new(page_config);
    let pages = layout_engine.layout_document_chapter(&document, 0);
    proof {
        if chapter_index < parsed_chapters(content@).len() {
            assert(document.chapters@ =~= seq![document.chapters@[0]]);
        }
    }
    pages
}

} // verus!
