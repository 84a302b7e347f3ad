//! The parser: a single pass over the lines of a text that groups paragraphs
//! into blocks and blocks into chapters at each heading line.

use vstd::prelude::*;
use vstd::string::StringExecFns;
use crate::cache::ChapterCache;
use crate::document::{
    default_text_style, is_default_style, Chapter, ChapterView, ContentBlock, ContentBlockType,
    DocumentMetadata, DocumentModel, TextStyle,
};
use crate::text::{
    append_chars, chars_of, copy_range, decimal, lines_of, push_decimal, split_lines, string_of,
    trim, trim_chars, views,
};

verus! {

/// A block as the parser produces it.
pub struct ParsedBlock {
    pub kind: ContentBlockType,
    pub text: Seq<char>,
}

/// A chapter as the parser produces it.
pub struct ParsedChapter {
    pub title: Seq<char>,
    pub blocks: Seq<ParsedBlock>,
}

/// Where the line scan stands: the chapters closed so far, the title and the
/// blocks of the chapter in progress, and the paragraph being gathered.
pub struct ScanState {
    pub chapters: Seq<ParsedChapter>,
    pub title: Seq<char>,
    pub blocks: Seq<ParsedBlock>,
    pub paragraph: Seq<char>,
}

/// The title of a chapter that no heading named.
pub open spec fn default_title() -> Seq<char> {
    "全文"@
}

/// The line opens with the heading marker `# `.
pub open spec fn has_heading_marker(line: Seq<char>) -> bool {
    line.len() >= 2 && line[0] == '#' && line[1] == ' '
}

/// A line is a heading when it carries the marker, or when the numbered
/// heading pattern matched it (`numbered`).
pub open spec fn is_heading(line: Seq<char>, numbered: bool) -> bool {
    has_heading_marker(line) || numbered
}

/// The title that a heading line gives: what follows the marker, or else
/// the whole line trimmed.
pub open spec fn heading_title(line: Seq<char>) -> Seq<char> {
    if has_heading_marker(line) {
        line.skip(2)
    } else {
        trim(line)
    }
}

/// The block that a gathered paragraph becomes: blank when it is white space
/// only, text otherwise.
pub open spec fn paragraph_block(p: Seq<char>) -> ParsedBlock {
    ParsedBlock {
        kind: if trim(p).len() == 0 {
            ContentBlockType::Blank
        } else {
            ContentBlockType::Text
        },
        text: p,
    }
}

/// Turns a gathered paragraph, if there is one, into a block.
pub open spec fn flush(st: ScanState) -> ScanState {
    if st.paragraph.len() > 0 {
        ScanState {
            blocks: st.blocks.push(paragraph_block(st.paragraph)),
            paragraph: Seq::empty(),
            ..st
        }
    } else {
        st
    }
}

/// Closes the chapter in progress when it holds any block.
pub open spec fn close(st: ScanState) -> Seq<ParsedChapter> {
    if st.blocks.len() > 0 {
        st.chapters.push(ParsedChapter { title: st.title, blocks: st.blocks })
    } else {
        st.chapters
    }
}

/// One step of the scan.
pub open spec fn scan_line(st: ScanState, line: Seq<char>, numbered: bool) -> ScanState {
    if is_heading(line, numbered) {
        ScanState {
            chapters: close(flush(st)),
            title: heading_title(line),
            blocks: Seq::empty(),
            paragraph: Seq::empty(),
        }
    } else if trim(line).len() == 0 {
        flush(st)
    } else if st.paragraph.len() == 0 {
        ScanState { paragraph: line, ..st }
    } else {
        ScanState { paragraph: st.paragraph + seq!['\n'] + line, ..st }
    }
}

/// The state after the first `n` lines.
pub open spec fn scan(lines: Seq<Seq<char>>, numbered: Seq<bool>, n: nat) -> ScanState
    decreases n,
{
    if n == 0 {
        ScanState {
            chapters: Seq::empty(),
            title: default_title(),
            blocks: Seq::empty(),
            paragraph: Seq::empty(),
        }
    } else {
        scan_line(scan(lines, numbered, (n - 1) as nat), lines[n - 1], numbered[n - 1])
    }
}

/// The chapters once every line is read: the last chapter is closed, and a
/// text that closed none becomes one chapter holding all of it.
pub open spec fn finish(st: ScanState, text: Seq<char>) -> Seq<ParsedChapter> {
    let cs = close(flush(st));
    if cs.len() > 0 {
        cs
    } else {
        seq![
            ParsedChapter {
                title: default_title(),
                blocks: seq![ParsedBlock { kind: ContentBlockType::Text, text }],
            },
        ]
    }
}

/// The chapters of `text`, where `numbered[i]` tells whether the numbered
/// heading pattern matched line `i`.
pub open spec fn parse_model(text: Seq<char>, numbered: Seq<bool>) -> Seq<ParsedChapter> {
    let lines = lines_of(text);
    finish(scan(lines, numbered, lines.len()), text)
}

/// The identifier of the chapter at `index`: `chapter_` and the index.
pub open spec fn chapter_id(index: nat) -> Seq<char> {
    "chapter_"@ + decimal(index)
}

/// `b` is the block `m`, in the parser's default style and not yet measured.
pub open spec fn block_is(b: ContentBlock, m: ParsedBlock) -> bool {
    &&& b.block_type == m.kind
    &&& b.content@ == m.text
    &&& is_default_style(b.styles)
    &&& b.metrics is None
}

pub open spec fn blocks_are(bs: Seq<ContentBlock>, ms: Seq<ParsedBlock>) -> bool {
    &&& bs.len() == ms.len()
    &&& forall|j: int| 0 <= j < bs.len() ==> block_is(#[trigger] bs[j], ms[j])
}

/// `c` is the chapter `m`, standing at `index`.
pub open spec fn chapter_is(c: Chapter, index: int, m: ParsedChapter) -> bool {
    &&& c.id@ == chapter_id(index as nat)
    &&& c.title@ == m.title
    &&& blocks_are(c.content@, m.blocks)
}

pub open spec fn chapters_are(cs: Seq<Chapter>, ms: Seq<ParsedChapter>) -> bool {
    &&& cs.len() == ms.len()
    &&& forall|i: int| 0 <= i < cs.len() ==> chapter_is(#[trigger] cs[i], i, ms[i])
}

/// The block that `p` becomes.
fn make_block(p: &Vec<char>) -> (r: ContentBlock)
    ensures
        block_is(r, paragraph_block(p@)),
{
    let t = trim_chars(p);
    ContentBlock {
        block_type: if t.len() == 0 {
            ContentBlockType::Blank
        } else {
            ContentBlockType::Text
        },
        content: string_of(p),
        styles: default_text_style(),
        metrics: None,
    }
}

/// The chapter closed from `title` and `blocks`, standing at `index`.
fn make_chapter(index: usize, title: &Vec<char>, blocks: Vec<ContentBlock>) -> (r: Chapter)
    ensures
        r.id@ == chapter_id(index as nat),
        r.title@ == title@,
        r.content@ == blocks@,
{
    let mut id = String::from_str("chapter_");
    push_decimal(&mut id, index);
    Chapter { id, title: string_of(title), content: blocks }
}


/// `line` opens with the heading marker `# `.
fn starts_with_marker(line: &Vec<char>) -> (r: bool)
    ensures
        r == has_heading_marker(line@),
{
    line.len() >= 2 && line[0] == '#' && line[1] == ' '
}

/// Groups `lines`, the lines of `content`, into chapters; `numbered[i]`
/// tells whether the numbered heading pattern matched line `i`.
fn segment_lines(content: &str, lines: &Vec<Vec<char>>, numbered: &Vec<bool>) -> (r: Vec<Chapter>)
    requires
        views(lines@) == lines_of(content@),
        numbered.len() == lines.len(),
    ensures
        chapters_are(r@, parse_model(content@, numbered@)),
{
    let ghost ls = lines_of(content@);
    let mut chapters: Vec<Chapter> = Vec::new();
    let mut title: Vec<char> = chars_of("全文");
    let mut blocks: Vec<ContentBlock> = Vec::new();
    let mut paragraph: Vec<char> = Vec::new();
    let mut i: usize = 0;
    while i < lines.len()
        invariant
            i <= lines.len() == numbered.len(),
            views(lines@) == ls,
            ls == lines_of(content@),
            chapters_are(chapters@, scan(ls, numbered@, i as nat).chapters),
            title@ == scan(ls, numbered@, i as nat).title,
            blocks_are(blocks@, scan(ls, numbered@, i as nat).blocks),
            paragraph@ == scan(ls, numbered@, i as nat).paragraph,
        decreases lines.len() - i,
    {
        let ghost st = scan(ls, numbered@, i as nat);
        let ghost next = scan_line(st, ls[i as int], numbered@[i as int]);
        assert(scan(ls, numbered@, (i + 1) as nat) == next);
        let line = &lines[i];
        assert(line@ == ls[i as int]);
        let trimmed = trim_chars(line);
        if starts_with_marker(line) || numbered[i] {
            if paragraph.len() > 0 {
                blocks.push(make_block(&paragraph));
                paragraph = Vec::new();
            }
            assert(blocks_are(blocks@, flush(st).blocks));
            if blocks.len() > 0 {
                let n = chapters.len();
                let closed = blocks;
                blocks = Vec::new();
                let ghost old_chapters = chapters@;
                chapters.push(make_chapter(n, &title, closed));
                assert forall|k: int| 0 <= k < chapters.len() implies chapter_is(
                    #[trigger] chapters@[k],
                    k,
                    close(flush(st))[k],
                ) by {
                    if k < n {
                        assert(chapters@[k] == old_chapters[k]);
                    }
                }
            }
            if starts_with_marker(line) {
                title = copy_range(line, 2, line.len());
                assert(title@ =~= line@.skip(2));
            } else {
                title = trimmed;
            }
        } else if trimmed.len() == 0 {
            if paragraph.len() > 0 {
                blocks.push(make_block(&paragraph));
                paragraph = Vec::new();
            }
        } else {
            if paragraph.len() > 0 {
                paragraph.push('\n');
            }
            append_chars(&mut paragraph, line);
            assert(paragraph@ =~= next.paragraph);
        }
        i = i + 1;
    }
    let ghost st = scan(ls, numbered@, lines.len() as nat);
    if paragraph.len() > 0 {
        blocks.push(make_block(&paragraph));
    }
    assert(blocks_are(blocks@, flush(st).blocks));
    if blocks.len() > 0 {
        let n = chapters.len();
        let ghost old_chapters = chapters@;
        chapters.push(make_chapter(n, &title, blocks));
        assert forall|k: int| 0 <= k < chapters.len() implies chapter_is(
            #[trigger] chapters@[k],
            k,
            close(flush(st))[k],
        ) by {
            if k < n {
                assert(chapters@[k] == old_chapters[k]);
            }
        }
    } else if chapters.len() == 0 {
        let whole = ContentBlock {
            block_type: ContentBlockType::Text,
            content: String::from_str(content),
            styles: default_text_style(),
            metrics: None,
        };
        let mut only: Vec<ContentBlock> = Vec::new();
        only.push(whole);
        let default_title = chars_of("全文");
        chapters.push(make_chapter(0, &default_title, only));
    }
    chapters
}


proof fn lemma_scan_chapters_filled(lines: Seq<Seq<char>>, numbered: Seq<bool>, n: nat)
    ensures
        forall|i: int|
            0 <= i < scan(lines, numbered, n).chapters.len() ==> (#[trigger] scan(
                lines,
                numbered,
                n,
            ).chapters[i]).blocks.len() >= 1,
    decreases n,
{
    if n > 0 {
        lemma_scan_chapters_filled(lines, numbered, (n - 1) as nat);
        let prev = scan(lines, numbered, (n - 1) as nat);
        let f = flush(prev);
        assert(f.chapters == prev.chapters);
        let cs = scan(lines, numbered, n).chapters;
        assert forall|i: int| 0 <= i < cs.len() implies (#[trigger] cs[i]).blocks.len() >= 1 by {
            if i < prev.chapters.len() {
                assert(cs[i] == prev.chapters[i]);
            }
        }
    }
}

/// Whatever the text and whatever the heading pattern matched, the parse
/// holds at least one chapter, and every chapter holds at least one block.
pub proof fn lemma_parse_model_shape(text: Seq<char>, numbered: Seq<bool>)
    ensures
        parse_model(text, numbered).len() >= 1,
        forall|i: int|
            0 <= i < parse_model(text, numbered).len() ==> (#[trigger] parse_model(
                text,
                numbered,
            )[i]).blocks.len() >= 1,
{
    let lines = lines_of(text);
    lemma_scan_chapters_filled(lines, numbered, lines.len());
}

/// The pattern of a numbered chapter heading, such as `第十二章` or `第3章`.
pub const NUMBERED_HEADING: &'static str = "^第[一二三四五六七八九十百千\\d]+章";

#[verifier::external_type_specification]
#[verifier::external_body]
pub struct ExRegex(regex::Regex);

/// Whether `regex::Regex::new` accepts `pattern`.
pub uninterp spec fn regex_compiles(pattern: Seq<char>) -> bool;

/// Whether the regular expression `pattern` matches somewhere in
/// `haystack`, as `regex::Regex::is_match` decides it.
pub uninterp spec fn regex_is_match(pattern: Seq<char>, haystack: Seq<char>) -> bool;

/// A compiled regular expression and the pattern it was compiled from.
struct HeadingPattern {
    pattern: String,
    regex: regex::Regex,
}

/// Relies on `regex::Regex::new`: compiles `pattern`, and fails only on a
/// pattern that it does not accept.
#[verifier::external_body]
fn compile_pattern(pattern: &str) -> (r: Option<HeadingPattern>)
    ensures
        r is Some <==> regex_compiles(pattern@),
        r matches Some(p) ==> p.pattern@ == pattern@,
{
    match regex::Regex::new(pattern) {
        Ok(regex) => Some(HeadingPattern { pattern: pattern.to_string(), regex }),
        Err(_) => None,
    }
}

/// Relies on `regex::Regex::is_match`: whether the pattern matches somewhere
/// in `haystack`.
#[verifier::external_body]
fn pattern_matches(p: &HeadingPattern, haystack: &str) -> (r: bool)
    ensures
        r == regex_is_match(p.pattern@, haystack@),
{
    p.regex.is_match(haystack)
}

/// Relies on `chrono::Utc::now` and `DateTime::to_rfc3339`: the current time
/// in RFC 3339 form. Nothing is promised of the value.
#[verifier::external_body]
fn now_rfc3339() -> String {
    chrono::Utc::now().to_rfc3339()
}

/// For each line of `text`, whether the numbered heading pattern compiles and
/// matches the trimmed line.
pub open spec fn numbered_flags(text: Seq<char>) -> Seq<bool> {
    lines_of(text).map_values(
        |l: Seq<char>| regex_compiles(NUMBERED_HEADING@) && regex_is_match(NUMBERED_HEADING@, trim(l)),
    )
}

/// The chapters that the parser makes of `text`.
pub open spec fn parsed_chapters(text: Seq<char>) -> Seq<ParsedChapter> {
    parse_model(text, numbered_flags(text))
}

/// The metadata and style list that every parsed document carries.
pub open spec fn document_frame(d: DocumentModel) -> bool {
    &&& d.metadata.title@ == "Sample Document"@
    &&& d.metadata.author@ == "Unknown"@
    &&& d.styles.len() == 1
    &&& is_default_style(d.styles[0])
}

/// `d` is the document that parsing `text` gives.
pub open spec fn parsed_from(d: DocumentModel, text: Seq<char>) -> bool {
    chapters_are(d.chapters@, parsed_chapters(text)) && document_frame(d)
}

/// The cache `m` once each of `cs`, in order, is cached under its title.
pub open spec fn cached_after(m: Map<Seq<char>, ChapterView>, cs: Seq<Chapter>) -> Map<
    Seq<char>,
    ChapterView,
>
    decreases cs.len(),
{
    if cs.len() == 0 {
        m
    } else {
        cached_after(m, cs.drop_last()).insert(cs.last().title@, cs.last()@)
    }
}

/// Parsing any text gives at least one chapter.
pub proof fn lemma_parse_has_chapter(text: Seq<char>, d: DocumentModel)
    requires
        parsed_from(d, text),
    ensures
        d.chapters.len() >= 1,
{
    lemma_parse_model_shape(text, numbered_flags(text));
}

/// Parsing any text gives no empty chapter.
pub proof fn lemma_parse_chapters_filled(text: Seq<char>, d: DocumentModel)
    requires
        parsed_from(d, text),
    ensures
        forall|i: int| 0 <= i < d.chapters.len() ==> (#[trigger] d.chapters@[i]).content.len() >= 1,
{
    lemma_parse_model_shape(text, numbered_flags(text));
    assert forall|i: int| 0 <= i < d.chapters.len() implies (#[trigger] d.chapters@[i]).content.len()
        >= 1 by {
        assert(chapter_is(d.chapters@[i], i, parsed_chapters(text)[i]));
    }
}

/// Parsing the same text twice, by any parsers with any caches, gives
/// chapters with the same titles and the same numbers of blocks, in the same
/// order.
pub proof fn lemma_parse_repeatable(text: Seq<char>, first: DocumentModel, second: DocumentModel)
    requires
        parsed_from(first, text),
        parsed_from(second, text),
    ensures
        first.chapters.len() == second.chapters.len(),
        forall|i: int|
            0 <= i < first.chapters.len() ==> (#[trigger] first.chapters@[i]).title@
                == second.chapters@[i].title@ && first.chapters@[i].content.len()
                == second.chapters@[i].content.len(),
{
    assert forall|i: int| 0 <= i < first.chapters.len() implies (#[trigger] first.chapters@[i]).title@
        == second.chapters@[i].title@ && first.chapters@[i].content.len()
        == second.chapters@[i].content.len() by {
        assert(chapter_is(first.chapters@[i], i, parsed_chapters(text)[i]));
        assert(chapter_is(second.chapters@[i], i, parsed_chapters(text)[i]));
    }
}

/// Groups the lines of `content` into chapters; `numbered[i]` tells whether
/// the numbered heading pattern matched line `i`, trimmed.
pub fn segment_chapters(content: &str, numbered: &Vec<bool>) -> (r: Vec<Chapter>)
    requires
        numbered.len() == lines_of(content@).len(),
    ensures
        chapters_are(r@, parse_model(content@, numbered@)),
{
    let lines = split_lines(&chars_of(content));
    segment_lines(content, &lines, numbered)
}

/// A document holding `chapters`, created at `created_at`.
fn assemble_document(chapters: Vec<Chapter>, created_at: String) -> (r: DocumentModel)
    ensures
        document_frame(r),
        r.chapters@ == chapters@,
        r.metadata.created_at == created_at,
{
    let mut styles: Vec<TextStyle> = Vec::new();
    styles.push(default_text_style());
    DocumentModel {
        metadata: DocumentMetadata {
            title: String::from_str("Sample Document"),
            author: String::from_str("Unknown"),
            created_at,
        },
        chapters,
        styles,
    }
}

/// Turns text into chapters, with an optional cache of parsed chapters.
pub struct ParserEngine {
    chapter_cache: ChapterCache,
}

impl ParserEngine {
    pub closed spec fn wf(&self) -> bool {
        self.chapter_cache.wf()
    }

    /// What the cache holds.
    pub closed spec fn cache(&self) -> Map<Seq<char>, ChapterView> {
        self.chapter_cache@
    }

    /// A parser with an empty cache of its own.
    pub fn new() -> (r: Self)
        ensures
            r.wf(),
            r.cache() == Map::<Seq<char>, ChapterView>::empty(),
    {
        ParserEngine { chapter_cache: ChapterCache::new() }
    }

    /// A parser that works with `chapter_cache`.
    pub fn with_cache(chapter_cache: ChapterCache) -> (r: Self)
        requires
            chapter_cache.wf(),
        ensures
            r.wf(),
            r.cache() == chapter_cache@,
    {
        ParserEngine { chapter_cache }
    }

    /// The chapter cached under `title`, if any.
    pub fn get_cached_chapter(&self, title: &str) -> (r: Option<Chapter>)
        requires
            self.wf(),
        ensures
            r is Some <==> self.cache().contains_key(title@),
            r matches Some(c) ==> c@ == self.cache()[title@],
    {
        self.chapter_cache.get(title)
    }

    /// Caches `chapter` under its title, replacing a chapter of that title.
    pub fn cache_chapter(&mut self, chapter: Chapter)
        requires
            old(self).wf(),
        ensures
            final(self).wf(),
            final(self).cache() == old(self).cache().insert(chapter.title@, chapter@),
    {
        self.chapter_cache.insert(chapter);
    }

    /// A copy of the cache, to hand to another parser.
    pub fn get_cache(&self) -> (r: ChapterCache)
        requires
            self.wf(),
        ensures
            r.wf(),
            r@ == self.cache(),
    {
        self.chapter_cache.snapshot()
    }

    /// The cache itself, to hand on to the next parser.
    pub fn into_cache(self) -> (r: ChapterCache)
        requires
            self.wf(),
        ensures
            r.wf(),
            r@ == self.cache(),
    {
        self.chapter_cache
    }

    /// The chapters of `content`.
    fn parse_all_chapters(&self, content: &str) -> (r: Vec<Chapter>)
        ensures
            chapters_are(r@, parsed_chapters(content@)),
    {
        let pattern = compile_pattern(NUMBERED_HEADING);
        let lines = split_lines(&chars_of(content));
        let ghost ls = lines_of(content@);
        assert(ls.len() == lines.len());
        let mut numbered: Vec<bool> = Vec::new();
        let mut i: usize = 0;
        while i < lines.len()
            invariant
                i <= lines.len(),
                views(lines@) == ls,
                ls == lines_of(content@),
                ls.len() == lines.len(),
                numbered@ == numbered_flags(content@).take(i as int),
                pattern is Some <==> regex_compiles(NUMBERED_HEADING@),
                pattern matches Some(p) ==> p.pattern@ == NUMBERED_HEADING@,
            decreases lines.len() - i,
        {
            assert(lines@[i as int]@ == ls[i as int]);
            let trimmed = string_of(&trim_chars(&lines[i]));
            let hit = match &pattern {
                Some(p) => pattern_matches(p, trimmed.as_str()),
                None => false,
            };
            assert(hit == numbered_flags(content@)[i as int]);
            numbered.push(hit);
            i = i + 1;
            assert(numbered@ =~= numbered_flags(content@).take(i as int));
        }
        assert(numbered@ =~= numbered_flags(content@));
        segment_lines(content, &lines, &numbered)
    }

    /// A document holding only the chapter of `content` at `chapter_index`,
    /// or no chapter when there is none at that index. The cache is left
    /// alone.
    pub fn parse_txt_chapter(&self, content: &str, chapter_index: usize) -> (r: DocumentModel)
        ensures
            document_frame(r),
            chapter_index < parsed_chapters(content@).len() ==> r.chapters.len() == 1
                && chapter_is(
                r.chapters@[0],
                chapter_index as int,
                parsed_chapters(content@)[chapter_index as int],
            ),
            chapter_index >= parsed_chapters(content@).len() ==> r.chapters.len() == 0,
    {
        let mut all = self.parse_all_chapters(content);
        let mut chapters: Vec<Chapter> = Vec::new();
        if chapter_index < all.len() {
            let chapter = all.remove(chapter_index);
            chapters.push(chapter);
        }
        assemble_document(chapters, now_rfc3339())
    }

    /// Parses `content` into a document and caches each of its chapters.
    pub fn parse_txt(&mut self, content: &str) -> (r: DocumentModel)
        requires
            old(self).wf(),
        ensures
            final(self).wf(),
            parsed_from(r, content@),
            final(self).cache() == cached_after(old(self).cache(), r.chapters@),
    {
        let chapters = self.parse_all_chapters(content);
        let mut i: usize = 0;
        while i < chapters.len()
            invariant
                i <= chapters.len(),
                self.wf(),
                self.cache() == cached_after(old(self).cache(), chapters@.take(i as int)),
            decreases chapters.len() - i,
        {
            self.chapter_cache.insert(chapters[i].clone());
            i = i + 1;
            assert(chapters@.take(i as int).drop_last() =~= chapters@.take(i - 1));
        }
        assert(chapters@.take(chapters.len() as int) =~= chapters@);
        assemble_document(chapters, now_rfc3339())
    }
}

} // verus!
