//! The layout engine: measures blocks and packs them onto pages, one chapter
//! after another, cutting a block that no page can hold into fragments.
//!
//! Page sizes are whole pixels; heights on a page are tenths of a pixel, so
//! that a line, 1.2 times the font size high, has an exact height.

use vstd::prelude::*;
use crate::document::{copy_blocks, Chapter, ContentBlock, DocumentModel, LayoutMetrics};
use crate::text::{append_chars, chars_of, lines_of, split_lines, string_of, views};

verus! {

/// Page size and margins, in pixels.
#[derive(Clone, Copy, Debug, PartialEq, Eq, Structural)]
pub struct PageConfig {
    pub width: u32,
    pub height: u32,
    pub margin_top: u32,
    pub margin_bottom: u32,
    pub margin_left: u32,
    pub margin_right: u32,
}

impl PageConfig {
    pub open spec fn spec_content_width(&self) -> int {
        self.width - self.margin_left - self.margin_right
    }

    pub open spec fn spec_content_height(&self) -> int {
        self.height - self.margin_top - self.margin_bottom
    }

    /// The width between the left and right margins; negative when the
    /// margins are wider than the page.
    pub fn content_width(&self) -> (r: i64)
        ensures
            r == self.spec_content_width(),
    {
        self.width as i64 - self.margin_left as i64 - self.margin_right as i64
    }

    /// The height between the top and bottom margins; negative when the
    /// margins are taller than the page.
    pub fn content_height(&self) -> (r: i64)
        ensures
            r == self.spec_content_height(),
    {
        self.height as i64 - self.margin_top as i64 - self.margin_bottom as i64
    }
}

/// The height that a page offers, in tenths of a pixel.
pub open spec fn capacity(config: PageConfig) -> int {
    10 * config.spec_content_height()
}

/// A page: the blocks placed on it, and the height they take, in tenths of a
/// pixel.
#[derive(Debug, PartialEq)]
pub struct Page {
    pub blocks: Vec<ContentBlock>,
    pub used_height: u128,
}

impl Clone for Page {
    fn clone(&self) -> (r: Self)
        ensures
            r.blocks@ == self.blocks@,
            r.used_height == self.used_height,
    {
        Page { blocks: copy_blocks(&self.blocks), used_height: self.used_height }
    }
}

/// The number of lines a text is measured by: its lines, and at least one.
pub open spec fn line_count(text: Seq<char>) -> int {
    let n = lines_of(text).len();
    if n == 0 {
        1
    } else {
        n as int
    }
}

/// The height of one line of `b`, in tenths of a pixel: 1.2 times its font
/// size.
pub open spec fn line_height(b: ContentBlock) -> int {
    12 * b.styles.font_size
}

/// The height of `b`, in tenths of a pixel.
pub open spec fn block_height(b: ContentBlock) -> int {
    line_count(b.content@) * line_height(b)
}

/// A block placed on a page: the chapter and the position in it that it
/// comes from, that block, and the text shown, which is all of it or a
/// fragment.
pub struct Placed {
    pub chapter: int,
    pub index: int,
    pub source: ContentBlock,
    pub text: Seq<char>,
}

/// A page as the layout builds it; `split` marks a page that holds one
/// fragment of a block that no page could hold.
pub struct PageModel {
    pub placed: Seq<Placed>,
    pub used: int,
    pub split: bool,
}

/// The pages done so far and the page being filled.
pub struct LayoutState {
    pub done: Seq<PageModel>,
    pub current: PageModel,
}

pub open spec fn empty_page() -> PageModel {
    PageModel { placed: Seq::empty(), used: 0, split: false }
}

pub open spec fn initial_state() -> LayoutState {
    LayoutState { done: Seq::empty(), current: empty_page() }
}

/// Lines per fragment of a block too tall for a page: as many lines of
/// height `unit` as `cap` holds, and at least one.
pub open spec fn lines_per_fragment(cap: int, unit: int) -> int {
    if unit > 0 && cap >= unit {
        cap / unit
    } else {
        1
    }
}

/// The lines a block too tall for a page is cut along: its lines, or one
/// empty line for a text that has none.
pub open spec fn split_source(text: Seq<char>) -> Seq<Seq<char>> {
    let ls = lines_of(text);
    if ls.len() == 0 {
        seq![Seq::empty()]
    } else {
        ls
    }
}

/// `lines` cut into runs of `k` lines, the last run possibly shorter.
pub open spec fn runs(lines: Seq<Seq<char>>, k: int) -> Seq<Seq<Seq<char>>>
    decreases lines.len(),
{
    if lines.len() == 0 {
        Seq::empty()
    } else if k <= 0 || lines.len() <= k {
        seq![lines]
    } else {
        seq![lines.take(k)] + runs(lines.skip(k), k)
    }
}

/// `lines` joined by line feeds.
pub open spec fn join_lines(lines: Seq<Seq<char>>) -> Seq<char>
    decreases lines.len(),
{
    if lines.len() == 0 {
        Seq::empty()
    } else if lines.len() == 1 {
        lines[0]
    } else {
        join_lines(lines.drop_last()) + seq!['\n'] + lines.last()
    }
}

/// The page that holds the fragment `run` of block `b`.
pub open spec fn fragment_page(chapter: int, index: int, b: ContentBlock, run: Seq<Seq<char>>) -> PageModel {
    let text = join_lines(run);
    PageModel {
        placed: seq![Placed { chapter, index, source: b, text }],
        used: line_count(text) * line_height(b),
        split: true,
    }
}

/// The pages that the fragments of `b` fill, one fragment each.
pub open spec fn fragment_pages(chapter: int, index: int, b: ContentBlock, cap: int) -> Seq<PageModel> {
    runs(split_source(b.content@), lines_per_fragment(cap, line_height(b))).map_values(
        |run: Seq<Seq<char>>| fragment_page(chapter, index, b, run),
    )
}

/// Places block `index` of chapter `chapter`: on the page being filled when
/// it fits there; else on a fresh page, or, when no page can hold it, in
/// fragments on pages of their own.
pub open spec fn place_block(st: LayoutState, chapter: int, index: int, b: ContentBlock, cap: int) -> LayoutState {
    let h = block_height(b);
    let here = Placed { chapter, index, source: b, text: b.content@ };
    if st.current.used + h <= cap {
        LayoutState {
            current: PageModel {
                placed: st.current.placed.push(here),
                used: st.current.used + h,
                split: false,
            },
            ..st
        }
    } else {
        let done = if st.current.placed.len() > 0 {
            st.done.push(st.current)
        } else {
            st.done
        };
        if h > cap {
            LayoutState { done: done + fragment_pages(chapter, index, b, cap), current: empty_page() }
        } else {
            LayoutState { done, current: PageModel { placed: seq![here], used: h, split: false } }
        }
    }
}

/// The state once the first `n` blocks of chapter `chapter` are placed.
pub open spec fn lay_blocks(
    st: LayoutState,
    chapter: int,
    blocks: Seq<ContentBlock>,
    cap: int,
    n: nat,
) -> LayoutState
    decreases n,
{
    if n == 0 {
        st
    } else {
        place_block(
            lay_blocks(st, chapter, blocks, cap, (n - 1) as nat),
            chapter,
            n - 1,
            blocks[n - 1],
            cap,
        )
    }
}

/// Ends the page being filled, when it holds anything.
pub open spec fn end_page(st: LayoutState) -> LayoutState {
    if st.current.placed.len() > 0 {
        LayoutState { done: st.done.push(st.current), current: empty_page() }
    } else {
        st
    }
}

/// The state once chapter `chapter` is laid out, starting from `st`; a
/// chapter always ends its last page.
pub open spec fn lay_chapter(st: LayoutState, chapters: Seq<Chapter>, chapter: int, cap: int) -> LayoutState {
    let blocks = chapters[chapter].content@;
    end_page(lay_blocks(st, chapter, blocks, cap, blocks.len()))
}

/// The state once the first `n` chapters are laid out.
pub open spec fn lay_chapters(chapters: Seq<Chapter>, cap: int, n: nat) -> LayoutState
    decreases n,
{
    if n == 0 {
        initial_state()
    } else {
        lay_chapter(lay_chapters(chapters, cap, (n - 1) as nat), chapters, n - 1, cap)
    }
}

/// The pages of a document with `chapters`, for a page of height `cap`.
pub open spec fn layout_model(chapters: Seq<Chapter>, cap: int) -> Seq<PageModel> {
    end_page(lay_chapters(chapters, cap, chapters.len())).done
}

/// The pages of chapter `chapter` alone.
pub open spec fn chapter_layout_model(chapters: Seq<Chapter>, chapter: int, cap: int) -> Seq<PageModel> {
    end_page(lay_chapter(initial_state(), chapters, chapter, cap)).done
}

/// `b` shows `text` of `source`: the block itself when whole, or a fragment
/// of the same kind and style, not yet measured.
pub open spec fn shows(b: ContentBlock, source: ContentBlock, text: Seq<char>, whole: bool) -> bool {
    if whole {
        b == source
    } else {
        &&& b.block_type == source.block_type
        &&& b.styles == source.styles
        &&& b.content@ == text
        &&& b.metrics is None
    }
}

/// `p` is the page `m`.
pub open spec fn page_is(p: Page, m: PageModel) -> bool {
    &&& p.used_height == m.used
    &&& p.blocks.len() == m.placed.len()
    &&& forall|k: int|
        0 <= k < p.blocks.len() ==> shows(
            #[trigger] p.blocks@[k],
            m.placed[k].source,
            m.placed[k].text,
            !m.split,
        )
}

pub open spec fn pages_are(ps: Seq<Page>, ms: Seq<PageModel>) -> bool {
    &&& ps.len() == ms.len()
    &&& forall|k: int| 0 <= k < ps.len() ==> page_is(#[trigger] ps[k], ms[k])
}


/// `pl` names a block of `chapters` and shows that block.
pub open spec fn placed_ok(chapters: Seq<Chapter>, pl: Placed) -> bool {
    &&& 0 <= pl.chapter < chapters.len()
    &&& 0 <= pl.index < chapters[pl.chapter].content.len()
    &&& pl.source == chapters[pl.chapter].content@[pl.index]
}

/// Block `index` of chapter `chapter` is shown on some page of `pages`.
pub open spec fn appears(pages: Seq<PageModel>, chapter: int, index: int) -> bool {
    exists|p: int, k: int|
        0 <= p < pages.len() && 0 <= k < pages[p].placed.len() && (#[trigger] pages[p].placed[k]).chapter
            == chapter && pages[p].placed[k].index == index
}

/// Every page of `a` is still in `b`, at the same place, with what it held
/// still first on it.
pub open spec fn grows(a: Seq<PageModel>, b: Seq<PageModel>) -> bool {
    &&& a.len() <= b.len()
    &&& forall|p: int|
        0 <= p < a.len() ==> (#[trigger] a[p]).placed.len() <= b[p].placed.len() && forall|k: int|
            0 <= k < a[p].placed.len() ==> #[trigger] b[p].placed[k] == a[p].placed[k]
}

/// The pages once the page being filled is ended.
pub open spec fn all_pages(st: LayoutState) -> Seq<PageModel> {
    end_page(st).done
}

/// A finished page: not empty, showing blocks of one chapter only, and
/// within the page height unless it holds a fragment.
pub open spec fn done_ok(chapters: Seq<Chapter>, cap: int, m: PageModel) -> bool {
    &&& m.placed.len() > 0
    &&& forall|k: int|
        0 <= k < m.placed.len() ==> placed_ok(chapters, #[trigger] m.placed[k]) && m.placed[k].chapter
            == m.placed[0].chapter
    &&& !m.split ==> m.used <= cap
}

/// The page being filled while chapter `chapter` is laid out.
pub open spec fn current_ok(chapters: Seq<Chapter>, cap: int, m: PageModel, chapter: int) -> bool {
    &&& !m.split
    &&& forall|k: int|
        0 <= k < m.placed.len() ==> placed_ok(chapters, #[trigger] m.placed[k]) && m.placed[k].chapter
            == chapter
    &&& m.placed.len() > 0 ==> m.used <= cap
}

pub open spec fn state_ok(chapters: Seq<Chapter>, cap: int, st: LayoutState, chapter: int) -> bool {
    &&& forall|p: int| 0 <= p < st.done.len() ==> done_ok(chapters, cap, #[trigger] st.done[p])
    &&& current_ok(chapters, cap, st.current, chapter)
}

proof fn lemma_grows_appears(a: Seq<PageModel>, b: Seq<PageModel>, chapter: int, index: int)
    requires
        grows(a, b),
        appears(a, chapter, index),
    ensures
        appears(b, chapter, index),
{
    let (p, k) = choose|p: int, k: int|
        0 <= p < a.len() && 0 <= k < a[p].placed.len() && (#[trigger] a[p].placed[k]).chapter == chapter
            && a[p].placed[k].index == index;
    assert(a[p].placed.len() <= b[p].placed.len());
    assert(b[p].placed[k] == a[p].placed[k]);
}

proof fn lemma_grows_trans(a: Seq<PageModel>, b: Seq<PageModel>, c: Seq<PageModel>)
    requires
        grows(a, b),
        grows(b, c),
    ensures
        grows(a, c),
{
    assert forall|p: int| 0 <= p < a.len() implies (#[trigger] a[p]).placed.len() <= c[p].placed.len()
        && forall|k: int| 0 <= k < a[p].placed.len() ==> #[trigger] c[p].placed[k] == a[p].placed[k] by {
        assert(a[p].placed.len() <= b[p].placed.len());
        assert forall|k: int| 0 <= k < a[p].placed.len() implies #[trigger] c[p].placed[k]
            == a[p].placed[k] by {
            assert(b[p].placed[k] == a[p].placed[k]);
            assert(c[p].placed[k] == b[p].placed[k]);
        }
    }
}

proof fn lemma_grows_prefix(a: Seq<PageModel>, b: Seq<PageModel>)
    requires
        a.len() <= b.len(),
        forall|p: int| 0 <= p < a.len() ==> b[p] == a[p],
    ensures
        grows(a, b),
{
    assert forall|p: int| 0 <= p < a.len() implies (#[trigger] a[p]).placed.len() <= b[p].placed.len()
        && forall|k: int| 0 <= k < a[p].placed.len() ==> #[trigger] b[p].placed[k] == a[p].placed[k] by {
        assert(b[p] == a[p]);
    }
}

proof fn lemma_fragments(chapters: Seq<Chapter>, cap: int, chapter: int, index: int)
    requires
        0 <= chapter < chapters.len(),
        0 <= index < chapters[chapter].content.len(),
    ensures
        ({
            let frags = fragment_pages(chapter, index, chapters[chapter].content@[index], cap);
            &&& frags.len() >= 1
            &&& forall|j: int| 0 <= j < frags.len() ==> done_ok(chapters, cap, #[trigger] frags[j])
            &&& frags[0].placed[0].chapter == chapter
            &&& frags[0].placed[0].index == index
        }),
{
    let b = chapters[chapter].content@[index];
    let frags = fragment_pages(chapter, index, b, cap);
    let src = split_source(b.content@);
    assert(src.len() >= 1);
    assert forall|j: int| 0 <= j < frags.len() implies done_ok(chapters, cap, #[trigger] frags[j]) by {
        assert(frags[j].placed.len() == 1);
        assert(placed_ok(chapters, frags[j].placed[0]));
    }
}

/// One block placed keeps every page sound, keeps what was on the pages,
/// and puts the block on some page.
proof fn lemma_place_block(chapters: Seq<Chapter>, cap: int, st: LayoutState, chapter: int, index: int)
    requires
        state_ok(chapters, cap, st, chapter),
        0 <= chapter < chapters.len(),
        0 <= index < chapters[chapter].content.len(),
    ensures
        ({
            let next = place_block(st, chapter, index, chapters[chapter].content@[index], cap);
            &&& state_ok(chapters, cap, next, chapter)
            &&& grows(all_pages(st), all_pages(next))
            &&& appears(all_pages(next), chapter, index)
        }),
{
    let b = chapters[chapter].content@[index];
    let next = place_block(st, chapter, index, b, cap);
    let h = block_height(b);
    let a0 = all_pages(st);
    let a1 = all_pages(next);
    let here = Placed { chapter, index, source: b, text: b.content@ };
    assert(placed_ok(chapters, here));
    if st.current.used + h <= cap {
        assert(next.current.placed.len() > 0);
        assert(current_ok(chapters, cap, next.current, chapter)) by {
            assert forall|k: int| 0 <= k < next.current.placed.len() implies placed_ok(
                chapters,
                #[trigger] next.current.placed[k],
            ) && next.current.placed[k].chapter == chapter by {
                if k < st.current.placed.len() {
                    assert(next.current.placed[k] == st.current.placed[k]);
                }
            }
        }
        assert(a1 == st.done.push(next.current));
        if st.current.placed.len() > 0 {
            assert(a0 == st.done.push(st.current));
            assert forall|p: int| 0 <= p < a0.len() implies (#[trigger] a0[p]).placed.len()
                <= a1[p].placed.len() && forall|k: int|
                0 <= k < a0[p].placed.len() ==> #[trigger] a1[p].placed[k] == a0[p].placed[k] by {
                if p < st.done.len() {
                    assert(a0[p] == a1[p]);
                }
            }
        } else {
            assert(a0 == st.done);
            lemma_grows_prefix(a0, a1);
        }
        let p = st.done.len() as int;
        let k = st.current.placed.len() as int;
        assert(a1[p].placed[k] == here);
    } else {
        let done = if st.current.placed.len() > 0 {
            st.done.push(st.current)
        } else {
            st.done
        };
        assert(a0 == done);
        assert forall|p: int| 0 <= p < done.len() implies done_ok(chapters, cap, #[trigger] done[p]) by {
            if p < st.done.len() {
                assert(done[p] == st.done[p]);
            } else {
                assert(done[p] == st.current);
                assert(done_ok(chapters, cap, st.current)) by {
                    assert forall|k: int| 0 <= k < st.current.placed.len() implies placed_ok(
                        chapters,
                        #[trigger] st.current.placed[k],
                    ) && st.current.placed[k].chapter == st.current.placed[0].chapter by {
                        assert(placed_ok(chapters, st.current.placed[0]));
                    }
                }
            }
        }
        if h > cap {
            let frags = fragment_pages(chapter, index, b, cap);
            lemma_fragments(chapters, cap, chapter, index);
            assert(next.done == done + frags);
            assert(a1 == done + frags);
            assert forall|p: int| 0 <= p < next.done.len() implies done_ok(
                chapters,
                cap,
                #[trigger] next.done[p],
            ) by {
                if p < done.len() {
                    assert(next.done[p] == done[p]);
                } else {
                    assert(next.done[p] == frags[p - done.len()]);
                }
            }
            lemma_grows_prefix(a0, a1);
            let p = done.len() as int;
            assert(a1[p] == frags[0]);
            assert(a1[p].placed[0].chapter == chapter);
        } else {
            let fresh = PageModel { placed: seq![here], used: h, split: false };
            assert(next.current == fresh);
            assert(current_ok(chapters, cap, fresh, chapter));
            assert(a1 == done.push(fresh));
            lemma_grows_prefix(a0, a1);
            let p = done.len() as int;
            assert(a1[p].placed[0] == here);
        }
    }
}

proof fn lemma_end_page(chapters: Seq<Chapter>, cap: int, st: LayoutState, chapter: int, next_chapter: int)
    requires
        state_ok(chapters, cap, st, chapter),
    ensures
        state_ok(chapters, cap, end_page(st), next_chapter),
        all_pages(end_page(st)) == all_pages(st),
        end_page(st).current.placed.len() == 0,
{
    let e = end_page(st);
    if st.current.placed.len() > 0 {
        assert forall|p: int| 0 <= p < e.done.len() implies done_ok(chapters, cap, #[trigger] e.done[p]) by {
            if p < st.done.len() {
                assert(e.done[p] == st.done[p]);
            } else {
                assert(e.done[p] == st.current);
                assert forall|k: int| 0 <= k < st.current.placed.len() implies placed_ok(
                    chapters,
                    #[trigger] st.current.placed[k],
                ) && st.current.placed[k].chapter == st.current.placed[0].chapter by {
                    assert(placed_ok(chapters, st.current.placed[0]));
                }
            }
        }
    }
}

proof fn lemma_lay_blocks(chapters: Seq<Chapter>, cap: int, st: LayoutState, chapter: int, n: nat)
    requires
        state_ok(chapters, cap, st, chapter),
        0 <= chapter < chapters.len(),
        n <= chapters[chapter].content.len(),
    ensures
        ({
            let next = lay_blocks(st, chapter, chapters[chapter].content@, cap, n);
            &&& state_ok(chapters, cap, next, chapter)
            &&& grows(all_pages(st), all_pages(next))
            &&& forall|i: int| 0 <= i < n ==> appears(all_pages(next), chapter, i)
        }),
    decreases n,
{
    let blocks = chapters[chapter].content@;
    if n == 0 {
        lemma_grows_prefix(all_pages(st), all_pages(st));
    } else {
        let prev = lay_blocks(st, chapter, blocks, cap, (n - 1) as nat);
        let next = lay_blocks(st, chapter, blocks, cap, n);
        lemma_lay_blocks(chapters, cap, st, chapter, (n - 1) as nat);
        lemma_place_block(chapters, cap, prev, chapter, n - 1);
        lemma_grows_trans(all_pages(st), all_pages(prev), all_pages(next));
        assert forall|i: int| 0 <= i < n implies appears(all_pages(next), chapter, i) by {
            if i < n - 1 {
                lemma_grows_appears(all_pages(prev), all_pages(next), chapter, i);
            }
        }
    }
}

proof fn lemma_lay_chapters(chapters: Seq<Chapter>, cap: int, n: nat)
    requires
        n <= chapters.len(),
    ensures
        ({
            let st = lay_chapters(chapters, cap, n);
            &&& state_ok(chapters, cap, st, n as int)
            &&& st.current.placed.len() == 0
            &&& forall|c: int, i: int|
                0 <= c < n && 0 <= i < chapters[c].content.len() ==> appears(
                    #[trigger] all_pages(st),
                    c,
                    i,
                )
        }),
    decreases n,
{
    if n > 0 {
        let c = n - 1;
        let prev = lay_chapters(chapters, cap, (n - 1) as nat);
        lemma_lay_chapters(chapters, cap, (n - 1) as nat);
        assert(state_ok(chapters, cap, prev, c));
        let blocks = chapters[c].content@;
        let mid = lay_blocks(prev, c, blocks, cap, blocks.len());
        lemma_lay_blocks(chapters, cap, prev, c, blocks.len());
        lemma_end_page(chapters, cap, mid, c, n as int);
        let st = lay_chapters(chapters, cap, n);
        assert(st == end_page(mid));
        assert forall|c2: int, i: int|
            0 <= c2 < n && 0 <= i < chapters[c2].content.len() implies appears(
                #[trigger] all_pages(st),
                c2,
                i,
            ) by {
            if c2 < c {
                lemma_grows_appears(all_pages(prev), all_pages(mid), c2, i);
            }
        }
    }
}

/// The pages of `document` on pages sized by `config`, once every page is
/// ended, together with the soundness of each page.
proof fn lemma_layout_pages(document: DocumentModel, config: PageConfig)
    ensures
        ({
            let chapters = document.chapters@;
            let cap = capacity(config);
            let pages = layout_model(chapters, cap);
            &&& forall|p: int| 0 <= p < pages.len() ==> done_ok(chapters, cap, #[trigger] pages[p])
            &&& forall|c: int, i: int|
                0 <= c < chapters.len() && 0 <= i < chapters[c].content.len() ==> appears(
                    pages,
                    c,
                    i,
                )
        }),
{
    let chapters = document.chapters@;
    let cap = capacity(config);
    lemma_lay_chapters(chapters, cap, chapters.len());
    let st = lay_chapters(chapters, cap, chapters.len());
    assert(end_page(st) == st);
    assert forall|c: int, i: int|
        0 <= c < chapters.len() && 0 <= i < chapters[c].content.len() implies appears(
        layout_model(chapters, cap),
        c,
        i,
    ) by {
        assert(appears(all_pages(st), c, i));
    }
}

/// Layout loses no block: every block of every chapter of `document` is
/// shown on some page, whole or in fragments, and everything shown is a
/// block of the document.
pub proof fn lemma_layout_complete(document: DocumentModel, config: PageConfig)
    ensures
        ({
            let chapters = document.chapters@;
            let pages = layout_model(chapters, capacity(config));
            &&& forall|c: int, i: int|
                0 <= c < chapters.len() && 0 <= i < chapters[c].content.len() ==> appears(
                    pages,
                    c,
                    i,
                )
            &&& forall|p: int, k: int|
                0 <= p < pages.len() && 0 <= k < pages[p].placed.len() ==> placed_ok(
                    chapters,
                    #[trigger] pages[p].placed[k],
                )
        }),
{
    lemma_layout_pages(document, config);
    let chapters = document.chapters@;
    let cap = capacity(config);
    let pages = layout_model(chapters, cap);
    assert forall|p: int, k: int|
        0 <= p < pages.len() && 0 <= k < pages[p].placed.len() implies placed_ok(
        chapters,
        #[trigger] pages[p].placed[k],
    ) by {
        assert(done_ok(chapters, cap, pages[p]));
    }
}

/// Every page of `document` holds at least one block, and a page that does
/// not hold a fragment of a block too tall for any page stays within the
/// height that `config` leaves between the margins.
pub proof fn lemma_layout_capacity(document: DocumentModel, config: PageConfig)
    ensures
        ({
            let pages = layout_model(document.chapters@, capacity(config));
            forall|p: int|
                0 <= p < pages.len() ==> (#[trigger] pages[p]).placed.len() > 0 && (!pages[p].split
                    ==> pages[p].used <= capacity(config))
        }),
{
    lemma_layout_pages(document, config);
    let pages = layout_model(document.chapters@, capacity(config));
    assert forall|p: int| 0 <= p < pages.len() implies (#[trigger] pages[p]).placed.len() > 0 && (
    !pages[p].split ==> pages[p].used <= capacity(config)) by {
        assert(done_ok(document.chapters@, capacity(config), pages[p]));
    }
}

/// No page of `document` shows blocks of two chapters.
pub proof fn lemma_layout_chapter_boundary(document: DocumentModel, config: PageConfig)
    ensures
        ({
            let pages = layout_model(document.chapters@, capacity(config));
            forall|p: int, k: int|
                0 <= p < pages.len() && 0 <= k < pages[p].placed.len() ==> (#[trigger] pages[p].placed[k]).chapter
                    == pages[p].placed[0].chapter
        }),
{
    lemma_layout_pages(document, config);
    let pages = layout_model(document.chapters@, capacity(config));
    assert forall|p: int, k: int|
        0 <= p < pages.len() && 0 <= k < pages[p].placed.len() implies (#[trigger] pages[p].placed[k]).chapter
        == pages[p].placed[0].chapter by {
        assert(done_ok(document.chapters@, capacity(config), pages[p]));
    }
}

/// Lays documents out on pages of one size.
pub struct LayoutEngine {
    page_config: PageConfig,
}

impl LayoutEngine {
    pub closed spec fn config(&self) -> PageConfig {
        self.page_config
    }

    pub open spec fn cap(&self) -> int {
        capacity(self.config())
    }

    pub fn new(page_config: PageConfig) -> (r: Self)
        ensures
            r.config() == page_config,
    {
        LayoutEngine { page_config }
    }

    /// The height that a page offers, in tenths of a pixel.
    fn capacity(&self) -> (r: i64)
        ensures
            r == self.cap(),
    {
        self.page_config.content_height() * 10
    }

    /// Measures `block`: the page's content width, and its line count times
    /// its line height.
    pub fn measure_block(&self, block: &ContentBlock) -> (r: LayoutMetrics)
        ensures
            r.width == self.config().spec_content_width(),
            r.height == block_height(*block),
    {
        let split = split_lines(&chars_of(block.content.as_str()));
        let n = split.len();
        assert(n == lines_of(block.content@).len());
        let lines: u128 = if n == 0 {
            1
        } else {
            n as u128
        };
        let font = block.styles.font_size as u128;
        assert(lines * font <= 0xffff_ffff_ffff_ffff_ffff_ffff_u128) by (nonlinear_arith)
            requires
                lines <= 0xffff_ffff_ffff_ffff_u128,
                font <= 0xffff_ffff_u128,
        ;
        assert(lines * font * 12 == lines * (12 * font)) by (nonlinear_arith);
        LayoutMetrics { width: self.page_config.content_width(), height: lines * font * 12 }
    }

    /// Whether a block measured as `metrics` fits on `page` beside what it
    /// holds.
    pub fn can_fit_in_page(&self, metrics: &LayoutMetrics, page: &Page) -> (r: bool)
        ensures
            r == (page.used_height + metrics.height <= self.cap()),
    {
        let cap = self.capacity();
        cap >= 0 && metrics.height <= cap as u128 && page.used_height <= cap as u128
            - metrics.height
    }

    fn create_empty_page(&self) -> (r: Page)
        ensures
            page_is(r, empty_page()),
    {
        Page { blocks: Vec::new(), used_height: 0 }
    }

    /// Cuts `block`, which no page can hold, into fragments along its lines
    /// and adds one page for each.
    fn layout_large_block(
        &self,
        block: &ContentBlock,
        pages: &mut Vec<Page>,
        Ghost(chapter): Ghost<int>,
        Ghost(index): Ghost<int>,
    )
        ensures
            pages_are(
                final(pages)@.skip(old(pages)@.len() as int),
                fragment_pages(chapter, index, *block, self.cap()),
            ),
            final(pages)@.take(old(pages)@.len() as int) == old(pages)@,
            old(pages)@.len() <= final(pages)@.len(),
    {
        let ghost b = *block;
        let ghost k = lines_per_fragment(self.cap(), line_height(b));
        let cap = self.capacity();
        let mut src = split_lines(&chars_of(block.content.as_str()));
        if src.len() == 0 {
            src.push(Vec::new());
            assert(views(src@) =~= seq![Seq::<char>::empty()]);
        }
        let ghost lines = views(src@);
        assert(lines == split_source(b.content@));
        let n = src.len();
        let unit: u128 = 12 * (block.styles.font_size as u128);
        let per: usize = if unit > 0 && cap >= 0 && cap as u128 >= unit {
            let q = cap as u128 / unit;
            assert(q >= 1) by (nonlinear_arith)
                requires
                    q == cap as u128 / unit,
                    unit > 0,
                    cap as u128 >= unit,
            ;
            if q >= n as u128 {
                n
            } else {
                q as usize
            }
        } else {
            1
        };
        assert(per >= 1);
        assert(per == k || (per == n && k >= n));
        let ghost old_pages = pages@;
        let ghost mut made: Seq<Seq<Seq<char>>> = Seq::empty();
        let mut start: usize = 0;
        assert(lines.skip(0) =~= lines);
        while start < n
            invariant
                b == *block,
                k == lines_per_fragment(self.cap(), line_height(b)),
                n == src.len() == lines.len(),
                lines == views(src@),
                per >= 1,
                per == k || (per == n && k >= n),
                start <= n,
                runs(lines, k) == made + runs(lines.skip(start as int), k),
                pages@.len() == old_pages.len() + made.len(),
                pages@.take(old_pages.len() as int) == old_pages,
                forall|j: int|
                    0 <= j < made.len() ==> page_is(
                        #[trigger] pages@[old_pages.len() + j],
                        fragment_page(chapter, index, b, made[j]),
                    ),
            decreases n - start,
        {
            let end = if n - start > per {
                start + per
            } else {
                n
            };
            let ghost run = lines.subrange(start as int, end as int);
            let ghost rest = lines.skip(start as int);
            if n - start > per {
                assert(rest.take(k) =~= run);
                assert(rest.skip(k) =~= lines.skip(end as int));
            } else {
                assert(rest =~= run);
                assert(lines.skip(end as int) =~= Seq::<Seq<char>>::empty());
            }
            assert(runs(lines, k) =~= made.push(run) + runs(lines.skip(end as int), k));
            let mut text: Vec<char> = Vec::new();
            let mut j: usize = start;
            while j < end
                invariant
                    start <= j <= end <= n == src.len(),
                    lines == views(src@),
                    run == lines.subrange(start as int, end as int),
                    text@ == join_lines(lines.subrange(start as int, j as int)),
                decreases end - j,
            {
                let ghost before = text@;
                if j > start {
                    text.push('\n');
                }
                append_chars(&mut text, &src[j]);
                assert(lines.subrange(start as int, j + 1).drop_last() =~= lines.subrange(
                    start as int,
                    j as int,
                ));
                assert(src@[j as int]@ == lines[j as int]);
                j = j + 1;
                assert(text@ =~= join_lines(lines.subrange(start as int, j as int)));
            }
            let piece = ContentBlock {
                block_type: block.block_type,
                content: string_of(&text),
                styles: block.styles.clone(),
                metrics: None,
            };
            let measured = self.measure_block(&piece);
            let mut blocks: Vec<ContentBlock> = Vec::new();
            blocks.push(piece);
            let ghost before_pages = pages@;
            let page = Page { blocks, used_height: measured.height };
            assert(text@ == join_lines(run));
            assert(page.blocks@[0] == piece);
            assert(page_is(page, fragment_page(chapter, index, b, run)));
            pages.push(page);
            proof {
                made = made.push(run);
                assert(pages@.take(old_pages.len() as int) =~= before_pages.take(
                    old_pages.len() as int,
                ));
                assert forall|j: int| 0 <= j < made.len() implies page_is(
                    #[trigger] pages@[old_pages.len() + j],
                    fragment_page(chapter, index, b, made[j]),
                ) by {
                    if j < made.len() - 1 {
                        assert(pages@[old_pages.len() + j] == before_pages[old_pages.len() + j]);
                    }
                }
            }
            start = end;
        }
        assert(lines.skip(n as int) =~= Seq::<Seq<char>>::empty());
        assert(made =~= runs(lines, k));
        assert(pages@.skip(old_pages.len() as int).len() == made.len());
        assert forall|j: int| 0 <= j < made.len() implies page_is(
            #[trigger] pages@.skip(old_pages.len() as int)[j],
            fragment_pages(chapter, index, b, self.cap())[j],
        ) by {
            assert(pages@.skip(old_pages.len() as int)[j] == pages@[old_pages.len() + j]);
        }
    }

    /// Places `block`, block `index` of chapter `chapter`, on `current` or on
    /// new pages.
    fn place_block(
        &self,
        block: &ContentBlock,
        pages: &mut Vec<Page>,
        current: &mut Page,
        Ghost(st): Ghost<LayoutState>,
        Ghost(chapter): Ghost<int>,
        Ghost(index): Ghost<int>,
    )
        requires
            pages_are(old(pages)@, st.done),
            page_is(*old(current), st.current),
            !st.current.split,
        ensures
            pages_are(final(pages)@, place_block(st, chapter, index, *block, self.cap()).done),
            page_is(*final(current), place_block(st, chapter, index, *block, self.cap()).current),
    {
        let ghost next = place_block(st, chapter, index, *block, self.cap());
        let metrics = self.measure_block(block);
        if self.can_fit_in_page(&metrics, current) {
            current.used_height = current.used_height + metrics.height;
            current.blocks.push(block.clone());
            assert forall|k: int| 0 <= k < current.blocks.len() implies shows(
                #[trigger] current.blocks@[k],
                next.current.placed[k].source,
                next.current.placed[k].text,
                !next.current.split,
            ) by {
                if k < current.blocks.len() - 1 {
                    assert(current.blocks@[k] == old(current).blocks@[k]);
                }
            }
        } else {
            let mut full = self.create_empty_page();
            std::mem::swap(current, &mut full);
            if full.blocks.len() > 0 {
                let ghost before = pages@;
                pages.push(full);
                assert forall|k: int| 0 <= k < pages.len() implies page_is(
                    #[trigger] pages@[k],
                    st.done.push(st.current)[k],
                ) by {
                    if k < before.len() {
                        assert(pages@[k] == before[k]);
                    }
                }
            }
            let cap = self.capacity();
            if cap < 0 || metrics.height > cap as u128 {
                let ghost before = pages@;
                self.layout_large_block(block, pages, Ghost(chapter), Ghost(index));
                let ghost frags = fragment_pages(chapter, index, *block, self.cap());
                assert forall|k: int| 0 <= k < pages.len() implies page_is(
                    #[trigger] pages@[k],
                    next.done[k],
                ) by {
                    if k < before.len() {
                        assert(pages@[k] == pages@.take(before.len() as int)[k]);
                    } else {
                        assert(pages@[k] == pages@.skip(before.len() as int)[k - before.len()]);
                    }
                }
            } else {
                current.used_height = metrics.height;
                current.blocks.push(block.clone());
                assert(current.blocks@[0] == *block);
            }
        }
    }

    /// Lays out `document`: each chapter in order, each starting on a page
    /// of its own.
    pub fn layout_document(&self, document: &DocumentModel) -> (r: Vec<Page>)
        ensures
            pages_are(r@, layout_model(document.chapters@, self.cap())),
    {
        let ghost chapters = document.chapters@;
        let ghost cap = self.cap();
        let mut pages: Vec<Page> = Vec::new();
        let mut current = self.create_empty_page();
        let mut ci: usize = 0;
        while ci < document.chapters.len()
            invariant
                ci <= document.chapters.len(),
                chapters == document.chapters@,
                cap == self.cap(),
                pages_are(pages@, lay_chapters(chapters, cap, ci as nat).done),
                page_is(current, lay_chapters(chapters, cap, ci as nat).current),
                !lay_chapters(chapters, cap, ci as nat).current.split,
            decreases document.chapters.len() - ci,
        {
            let chapter = &document.chapters[ci];
            let ghost start = lay_chapters(chapters, cap, ci as nat);
            let mut bi: usize = 0;
            while bi < chapter.content.len()
                invariant
                    bi <= chapter.content.len(),
                    ci < chapters.len(),
                    *chapter == chapters[ci as int],
                    cap == self.cap(),
                    pages_are(
                        pages@,
                        lay_blocks(start, ci as int, chapter.content@, cap, bi as nat).done,
                    ),
                    page_is(
                        current,
                        lay_blocks(start, ci as int, chapter.content@, cap, bi as nat).current,
                    ),
                    !lay_blocks(start, ci as int, chapter.content@, cap, bi as nat).current.split,
                decreases chapter.content.len() - bi,
            {
                self.place_block(
                    &chapter.content[bi],
                    &mut pages,
                    &mut current,
                    Ghost(lay_blocks(start, ci as int, chapter.content@, cap, bi as nat)),
                    Ghost(ci as int),
                    Ghost(bi as int),
                );
                bi = bi + 1;
            }
            self.end_page(&mut pages, &mut current, Ghost(lay_blocks(start, ci as int, chapter.content@, cap, bi as nat)));
            ci = ci + 1;
        }
        self.end_page(&mut pages, &mut current, Ghost(lay_chapters(chapters, cap, ci as nat)));
        pages
    }

    /// Moves `current` to `pages` when it holds any block.
    fn end_page(&self, pages: &mut Vec<Page>, current: &mut Page, Ghost(st): Ghost<LayoutState>)
        requires
            pages_are(old(pages)@, st.done),
            page_is(*old(current), st.current),
        ensures
            pages_are(final(pages)@, end_page(st).done),
            page_is(*final(current), end_page(st).current),
    {
        if current.blocks.len() > 0 {
            let mut full = self.create_empty_page();
            std::mem::swap(current, &mut full);
            let ghost before = pages@;
            pages.push(full);
            assert forall|k: int| 0 <= k < pages.len() implies page_is(
                #[trigger] pages@[k],
                end_page(st).done[k],
            ) by {
                if k < before.len() {
                    assert(pages@[k] == before[k]);
                }
            }
        }
    }

    /// Lays out chapter `chapter_index` of `document` alone; no page when
    /// there is no such chapter.
    pub fn layout_document_chapter(&self, document: &DocumentModel, chapter_index: usize) -> (r: Vec<Page>)
        ensures
            chapter_index < document.chapters.len() ==> pages_are(
                r@,
                chapter_layout_model(document.chapters@, chapter_index as int, self.cap()),
            ),
            chapter_index >= document.chapters.len() ==> r.len() == 0,
    {
        let mut pages: Vec<Page> = Vec::new();
        if chapter_index >= document.chapters.len() {
            return pages;
        }
        let ghost chapters = document.chapters@;
        let ghost cap = self.cap();
        let mut current = self.create_empty_page();
        let chapter = &document.chapters[chapter_index];
        let mut bi: usize = 0;
        while bi < chapter.content.len()
            invariant
                bi <= chapter.content.len(),
                *chapter == chapters[chapter_index as int],
                cap == self.cap(),
                pages_are(
                    pages@,
                    lay_blocks(initial_state(), chapter_index as int, chapter.content@, cap, bi as nat).done,
                ),
                page_is(
                    current,
                    lay_blocks(initial_state(), chapter_index as int, chapter.content@, cap, bi as nat).current,
                ),
                !lay_blocks(initial_state(), chapter_index as int, chapter.content@, cap, bi as nat).current.split,
            decreases chapter.content.len() - bi,
        {
            self.place_block(
                &chapter.content[bi],
                &mut pages,
                &mut current,
                Ghost(lay_blocks(initial_state(), chapter_index as int, chapter.content@, cap, bi as nat)),
                Ghost(chapter_index as int),
                Ghost(bi as int),
            );
            bi = bi + 1;
        }
        self.end_page(&mut pages, &mut current, Ghost(lay_blocks(initial_state(), chapter_index as int, chapter.content@, cap, bi as nat)));
        self.end_page(&mut pages, &mut current, Ghost(lay_chapter(initial_state(), chapters, chapter_index as int, cap)));
        pages
    }
}

} // verus!
