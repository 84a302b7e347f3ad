//! A plain-text rendering of pages, one line per block.

use vstd::prelude::*;
use vstd::string::StringExecFns;
use crate::document::{ContentBlock, ContentBlockType};
use crate::layout::Page;
use crate::text::{decimal, push_decimal};

verus! {

/// The line that shows `b`: its kind and its text, or an empty line for a
/// blank.
pub open spec fn block_line(b: ContentBlock) -> Seq<char> {
    match b.block_type {
        ContentBlockType::Text => "Text: "@ + b.content@ + "\n"@,
        ContentBlockType::Title => "Title: "@ + b.content@ + "\n"@,
        ContentBlockType::Image => "Image: "@ + b.content@ + "\n"@,
        ContentBlockType::Blank => "\n"@,
    }
}

/// The lines of `bs`, in order.
pub open spec fn blocks_text(bs: Seq<ContentBlock>) -> Seq<char>
    decreases bs.len(),
{
    if bs.len() == 0 {
        Seq::empty()
    } else {
        blocks_text(bs.drop_last()) + block_line(bs.last())
    }
}

/// A page between its start and end markers.
pub open spec fn page_text(p: Page) -> Seq<char> {
    "--- Page Start ---\n"@ + blocks_text(p.blocks@) + "--- Page End ---\n"@
}

/// The pages, each under a numbered heading `Page n: ` and followed by an
/// empty line.
pub open spec fn pages_text(ps: Seq<Page>) -> Seq<char>
    decreases ps.len(),
{
    if ps.len() == 0 {
        Seq::empty()
    } else {
        pages_text(ps.drop_last()) + "Page "@ + decimal(ps.len()) + ": \n"@ + page_text(ps.last())
            + "\n"@
    }
}

/// The pages as a reader front end shows them: each under a heading
/// `Page n` and followed by an empty line.
pub open spec fn reader_pages_text(ps: Seq<Page>) -> Seq<char>
    decreases ps.len(),
{
    if ps.len() == 0 {
        Seq::empty()
    } else {
        reader_pages_text(ps.drop_last()) + "Page "@ + decimal(ps.len()) + "\n"@ + page_text(
            ps.last(),
        ) + "\n"@
    }
}

/// Appends the page, between its markers, to `out`.
fn push_page(out: &mut String, page: &Page)
    ensures
        final(out)@ == old(out)@ + page_text(*page),
{
    out.append("--- Page Start ---\n");
    let ghost start = out@;
    let mut i: usize = 0;
    while i < page.blocks.len()
        invariant
            i <= page.blocks.len(),
            out@ == start + blocks_text(page.blocks@.take(i as int)),
        decreases page.blocks.len() - i,
    {
        let block = &page.blocks[i];
        assert(page.blocks@.take(i + 1).drop_last() =~= page.blocks@.take(i as int));
        match block.block_type {
            ContentBlockType::Text => {
                out.append("Text: ");
                out.append(block.content.as_str());
                out.append("\n");
            },
            ContentBlockType::Title => {
                out.append("Title: ");
                out.append(block.content.as_str());
                out.append("\n");
            },
            ContentBlockType::Image => {
                out.append("Image: ");
                out.append(block.content.as_str());
                out.append("\n");
            },
            ContentBlockType::Blank => {
                out.append("\n");
            },
        }
        i = i + 1;
        assert(out@ =~= start + blocks_text(page.blocks@.take(i as int)));
    }
    assert(page.blocks@.take(page.blocks.len() as int) =~= page.blocks@);
    out.append("--- Page End ---\n");
    assert(out@ =~= old(out)@ + page_text(*page));
}

/// Renders pages as text.
pub struct Renderer;

impl Renderer {
    pub fn new() -> Renderer {
        Renderer
    }

    /// One page between its start and end markers.
    pub fn render_page(&self, page: &Page) -> (r: String)
        ensures
            r@ == page_text(*page),
    {
        let mut out = String::new();
        push_page(&mut out, page);
        out
    }

    /// All pages, each under a numbered heading.
    pub fn render_pages(&self, pages: &[Page]) -> (r: String)
        ensures
            r@ == pages_text(pages@),
    {
        let mut out = String::new();
        let mut i: usize = 0;
        while i < pages.len()
            invariant
                i <= pages.len(),
                out@ == pages_text(pages@.take(i as int)),
            decreases pages.len() - i,
        {
            assert(pages@.take(i + 1).drop_last() =~= pages@.take(i as int));
            out.append("Page ");
            push_decimal(&mut out, i + 1);
            out.append(": \n");
            push_page(&mut out, &pages[i]);
            out.append("\n");
            i = i + 1;
            assert(out@ =~= pages_text(pages@.take(i as int)));
        }
        assert(pages@.take(pages.len() as int) =~= pages@);
        out
    }
}

/// All pages as a reader front end shows them, each under a heading
/// `Page n`.
pub fn render_pages_for_tauri(pages: &[Page]) -> (r: String)
    ensures
        r@ == reader_pages_text(pages@),
{
    let mut out = String::new();
    let mut i: usize = 0;
    while i < pages.len()
        invariant
            i <= pages.len(),
            out@ == reader_pages_text(pages@.take(i as int)),
        decreases pages.len() - i,
    {
        assert(pages@.take(i + 1).drop_last() =~= pages@.take(i as int));
        out.append("Page ");
        push_decimal(&mut out, i + 1);
        out.append("\n");
        push_page(&mut out, &pages[i]);
        out.append("\n");
        i = i + 1;
        assert(out@ =~= reader_pages_text(pages@.take(i as int)));
    }
    assert(pages@.take(pages.len() as int) =~= pages@);
    out
}

} // verus!
