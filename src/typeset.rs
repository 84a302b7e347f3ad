//! Whole-document operations for a reader front end: chapter titles, and
//! the text of every page on the reader's page size.

use vstd::prelude::*;
use vstd::string::StringExecFns;
use crate::document::{Chapter, DocumentModel};
use crate::layout::{capacity, layout_model, pages_are, LayoutEngine, Page, PageConfig};
use crate::parser::{parsed_chapters, parsed_from, ParserEngine};
use crate::renderer::{reader_pages_text, render_pages_for_tauri};

verus! {

/// The reader's page: 800 by 1000 pixels, with margins of 40 pixels.
pub open spec fn reader_config() -> PageConfig {
    PageConfig {
        width: 800,
        height: 1000,
        margin_top: 40,
        margin_bottom: 40,
        margin_left: 40,
        margin_right: 40,
    }
}

fn reader_page_config() -> (r: PageConfig)
    ensures
        r == reader_config(),
{
    PageConfig {
        width: 800,
        height: 1000,
        margin_top: 40,
        margin_bottom: 40,
        margin_left: 40,
        margin_right: 40,
    }
}

/// A greeting for `name`.
pub fn greet(name: &str) -> (r: String)
    ensures
        r@ == "Hello, "@ + name@ + "! You've been greeted from Rust!"@,
{
    let mut r = String::from_str("Hello, ");
    r.append(name);
    r.append("! You've been greeted from Rust!");
    r
}

/// The titles of the chapters of `content`, in order.
pub fn parse_document_chapters(content: &str) -> (r: Vec<String>)
    ensures
        r.len() == parsed_chapters(content@).len(),
        forall|i: int| 0 <= i < r.len() ==> (#[trigger] r@[i])@ == parsed_chapters(content@)[i].title,
{
    let mut parser = ParserEngine::new();
    let document = parser.parse_txt(content);
    let mut titles: Vec<String> = Vec::new();
    let mut i: usize = 0;
    while i < document.chapters.len()
        invariant
            i <= document.chapters.len(),
            parsed_from(document, content@),
            titles.len() == i,
            forall|k: int| 0 <= k < i ==> (#[trigger] titles@[k])@ == parsed_chapters(content@)[k].title,
        decreases document.chapters.len() - i,
    {
        titles.push(document.chapters[i].title.clone());
        i = i + 1;
    }
    titles
}

/// The parsed document of `content` and its pages on the reader's page.
fn typeset_pages(content: &str) -> (r: (DocumentModel, Vec<Page>))
    ensures
        parsed_from(r.0, content@),
        pages_are(r.1@, layout_model(r.0.chapters@, capacity(reader_config()))),
{
    let mut parser = ParserEngine::new();
    let document = parser.parse_txt(content);
    let layout_engine = LayoutEngine::new(reader_page_config());
    let pages = layout_engine.layout_document(&document);
    (document, pages)
}

/// Every page of `content`, laid out on the reader's page, as text.
pub fn typeset_document(content: &str) -> (r: String)
    ensures
        exists|d: DocumentModel, ps: Seq<Page>|
            parsed_from(d, content@) && #[trigger] pages_are(ps, layout_model(d.chapters@, capacity(reader_config())))
                && r@ == reader_pages_text(ps),
{
    let (document, pages) = typeset_pages(content);
    let r = render_pages_for_tauri(pages.as_slice());
    assert(pages_are(pages@, layout_model(document.chapters@, capacity(reader_config()))));
    r
}

/// The page on which each chapter is taken to start: chapter `i` at
/// `i` times the page count divided evenly among the chapters.
pub open spec fn start_page(i: int, chapter_count: int, page_count: int) -> int {
    if chapter_count == 0 {
        0
    } else {
        i * (page_count / chapter_count)
    }
}

/// Each chapter's title and the page it is taken to start on.
fn chapter_page_mapping(chapters: &Vec<Chapter>, page_count: usize) -> (r: Vec<(String, usize)>)
    ensures
        r.len() == chapters.len(),
        forall|i: int|
            0 <= i < r.len() ==> (#[trigger] r@[i]).0@ == chapters@[i].title@ && r@[i].1
                == start_page(i, chapters.len() as int, page_count as int),
{
    let n = chapters.len();
    let per: usize = if n == 0 {
        0
    } else {
        page_count / n
    };
    let mut r: Vec<(String, usize)> = Vec::new();
    let mut i: usize = 0;
    while i < n
        invariant
            i <= n == chapters.len(),
            n > 0 ==> per == page_count / n,
            r.len() == i,
            forall|k: int|
                0 <= k < i ==> (#[trigger] r@[k]).0@ == chapters@[k].title@ && r@[k].1 == start_page(
                    k,
                    n as int,
                    page_count as int,
                ),
        decreases n - i,
    {
        assert(i * per <= page_count) by (nonlinear_arith)
            requires
                i < n,
                n > 0,
                per == page_count / n,
        ;
        r.push((chapters[i].title.clone(), i * per));
        i = i + 1;
    }
    r
}

/// Every page of `content` as text, with each chapter's title and the page
/// it is taken to start on.
pub fn typeset_document_with_chapter_info(content: &str) -> (r: (String, Vec<(String, usize)>))
    ensures
        exists|d: DocumentModel, ps: Seq<Page>|
            parsed_from(d, content@) && #[trigger] pages_are(ps, layout_model(d.chapters@, capacity(reader_config())))
                && r.0@ == reader_pages_text(ps) && r.1.len() == d.chapters.len() && forall|i: int|
                0 <= i < r.1.len() ==> (#[trigger] r.1@[i]).0@ == d.chapters@[i].title@ && r.1@[i].1
                    == start_page(i, d.chapters.len() as int, ps.len() as int),
{
    let (document, pages) = typeset_pages(content);
    let mapping = chapter_page_mapping(&document.chapters, pages.len());
    let rendered = render_pages_for_tauri(pages.as_slice());
    assert(pages_are(pages@, layout_model(document.chapters@, capacity(reader_config()))));
    (rendered, mapping)
}

} // verus!
