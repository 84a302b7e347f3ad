//! The document model: chapters made of ordered content blocks.
//!
//! Lengths are whole pixels, except measured heights, which are tenths of a
//! pixel so that the line height of 1.2 times the font size stays exact.

use vstd::prelude::*;
use vstd::string::StringExecFns;

verus! {

/// Title, author and creation time of a document.
#[derive(Debug, PartialEq)]
pub struct DocumentMetadata {
    pub title: String,
    pub author: String,
    /// Creation time in RFC 3339 form.
    pub created_at: String,
}

/// What a content block holds.
#[derive(Clone, Copy, Debug, PartialEq, Eq, Structural)]
pub enum ContentBlockType {
    Text,
    Image,
    Title,
    Blank,
}

/// How the text of a block is shown.
#[derive(Debug, PartialEq)]
pub struct TextStyle {
    /// Font size in pixels.
    pub font_size: u32,
    pub font_family: String,
    pub bold: bool,
    pub italic: bool,
}

/// The measured size of a block.
#[derive(Clone, Copy, Debug, PartialEq, Eq, Structural)]
pub struct LayoutMetrics {
    /// Width in pixels.
    pub width: i64,
    /// Height in tenths of a pixel.
    pub height: u128,
}

/// One unit of content: a paragraph, a title, an image reference or a blank.
#[derive(Debug, PartialEq)]
pub struct ContentBlock {
    pub block_type: ContentBlockType,
    pub content: String,
    pub styles: TextStyle,
    pub metrics: Option<LayoutMetrics>,
}

/// A titled, ordered run of content blocks.
#[derive(Debug, PartialEq)]
pub struct Chapter {
    pub id: String,
    pub title: String,
    pub content: Vec<ContentBlock>,
}

/// A parsed document.
#[derive(Debug, PartialEq)]
pub struct DocumentModel {
    pub metadata: DocumentMetadata,
    pub chapters: Vec<Chapter>,
    pub styles: Vec<TextStyle>,
}

/// A chapter as the contracts speak of it.
pub struct ChapterView {
    pub id: Seq<char>,
    pub title: Seq<char>,
    pub content: Seq<ContentBlock>,
}

impl View for Chapter {
    type V = ChapterView;

    open spec fn view(&self) -> ChapterView {
        ChapterView { id: self.id@, title: self.title@, content: self.content@ }
    }
}

/// The style that the parser gives every block: 16 pixels, Arial, upright
/// and not bold.
pub open spec fn is_default_style(s: TextStyle) -> bool {
    &&& s.font_size == 16
    &&& s.font_family@ == "Arial"@
    &&& !s.bold
    &&& !s.italic
}

/// The style that the parser gives every block.
pub fn default_text_style() -> (r: TextStyle)
    ensures
        is_default_style(r),
{
    TextStyle {
        font_size: 16,
        font_family: String::from_str("Arial"),
        bold: false,
        italic: false,
    }
}

impl Clone for TextStyle {
    fn clone(&self) -> (r: Self)
        ensures
            r == *self,
    {
        TextStyle {
            font_size: self.font_size,
            font_family: self.font_family.clone(),
            bold: self.bold,
            italic: self.italic,
        }
    }
}

impl Clone for ContentBlock {
    fn clone(&self) -> (r: Self)
        ensures
            r == *self,
    {
        ContentBlock {
            block_type: self.block_type,
            content: self.content.clone(),
            styles: self.styles.clone(),
            metrics: self.metrics,
        }
    }
}

/// A copy of `v`, block by block.
pub fn copy_blocks(v: &Vec<ContentBlock>) -> (r: Vec<ContentBlock>)
    ensures
        r@ == v@,
{
    let mut r: Vec<ContentBlock> = Vec::new();
    let mut i: usize = 0;
    while i < v.len()
        invariant
            i <= v.len(),
            r@ == v@.take(i as int),
        decreases v.len() - i,
    {
        r.push(v[i].clone());
        i = i + 1;
        assert(r@ =~= v@.take(i as int));
    }
    assert(r@ =~= v@);
    r
}

impl Clone for Chapter {
    fn clone(&self) -> (r: Self)
        ensures
            r@ == self@,
    {
        Chapter { id: self.id.clone(), title: self.title.clone(), content: copy_blocks(&self.content) }
    }
}


impl Clone for DocumentMetadata {
    fn clone(&self) -> (r: Self)
        ensures
            r == *self,
    {
        DocumentMetadata {
            title: self.title.clone(),
            author: self.author.clone(),
            created_at: self.created_at.clone(),
        }
    }
}

impl Clone for DocumentModel {
    fn clone(&self) -> (r: Self)
        ensures
            r.metadata == self.metadata,
            r.chapters.len() == self.chapters.len(),
            forall|i: int| 0 <= i < r.chapters.len() ==> (#[trigger] r.chapters@[i])@ == self.chapters@[i]@,
            r.styles@ == self.styles@,
    {
        let mut chapters: Vec<Chapter> = Vec::new();
        let mut i: usize = 0;
        while i < self.chapters.len()
            invariant
                i <= self.chapters.len(),
                chapters.len() == i,
                forall|k: int| 0 <= k < i ==> (#[trigger] chapters@[k])@ == self.chapters@[k]@,
            decreases self.chapters.len() - i,
        {
            chapters.push(self.chapters[i].clone());
            i = i + 1;
        }
        let mut styles: Vec<TextStyle> = Vec::new();
        let mut j: usize = 0;
        while j < self.styles.len()
            invariant
                j <= self.styles.len(),
                styles@ == self.styles@.take(j as int),
            decreases self.styles.len() - j,
        {
            styles.push(self.styles[j].clone());
            j = j + 1;
            assert(styles@ =~= self.styles@.take(j as int));
        }
        assert(styles@ =~= self.styles@);
        DocumentModel { metadata: self.metadata.clone(), chapters, styles }
    }
}

} // verus!
