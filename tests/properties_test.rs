use typesetting_engine::{
    greet, layout_chapter_on_demand, parse_document_chapters, render_pages_for_tauri,
    segment_chapters, typeset_document, typeset_document_with_chapter_info, Chapter,
    ContentBlock, ContentBlockType, DocumentMetadata, DocumentModel, FileFormat, FileLoader,
    LayoutEngine, Page, PageConfig, ParserEngine, Renderer, TextStyle,
};

fn standard_config() -> PageConfig {
    PageConfig {
        width: 400,
        height: 600,
        margin_top: 20,
        margin_bottom: 20,
        margin_left: 20,
        margin_right: 20,
    }
}

fn style(font_size: u32) -> TextStyle {
    TextStyle {
        font_size,
        font_family: "Arial".to_string(),
        bold: false,
        italic: false,
    }
}

fn text_block(content: &str) -> ContentBlock {
    ContentBlock {
        block_type: ContentBlockType::Text,
        content: content.to_string(),
        styles: style(16),
        metrics: None,
    }
}

fn document(chapters: Vec<Chapter>) -> DocumentModel {
    DocumentModel {
        metadata: DocumentMetadata {
            title: "Test".to_string(),
            author: "Author".to_string(),
            created_at: "2023-01-01".to_string(),
        },
        chapters,
        styles: vec![],
    }
}

fn chapter(title: &str, blocks: Vec<ContentBlock>) -> Chapter {
    Chapter {
        id: title.to_string(),
        title: title.to_string(),
        content: blocks,
    }
}

fn parse(content: &str) -> DocumentModel {
    let mut parser = ParserEngine::new();
    parser.parse_txt(content)
}

#[test]
fn two_headed_chapters_hold_one_text_block_each() {
    let d = parse("# Chapter 1\n\nFirst chapter content.\n\n# Chapter 2\n\nSecond chapter content.");
    assert_eq!(d.chapters.len(), 2);
    assert_eq!(d.chapters[0].title, "Chapter 1");
    assert_eq!(d.chapters[1].title, "Chapter 2");
    assert_eq!(d.chapters[0].id, "chapter_0");
    assert_eq!(d.chapters[1].id, "chapter_1");
    for (c, text) in d.chapters.iter().zip(["First chapter content.", "Second chapter content."]) {
        assert_eq!(c.content.len(), 1);
        assert_eq!(c.content[0].block_type, ContentBlockType::Text);
        assert_eq!(c.content[0].content, text);
        assert_eq!(c.content[0].styles, style(16));
        assert_eq!(c.content[0].metrics, None);
    }
}

#[test]
fn empty_text_gives_one_default_chapter() {
    let d = parse("");
    assert_eq!(d.chapters.len(), 1);
    assert_eq!(d.chapters[0].title, "全文");
    assert_eq!(d.chapters[0].id, "chapter_0");
    assert_eq!(d.chapters[0].content.len(), 1);
    assert_eq!(d.chapters[0].content[0].block_type, ContentBlockType::Text);
    assert_eq!(d.chapters[0].content[0].content, "");
}

#[test]
fn headings_alone_keep_the_whole_text() {
    let text = "# Chapter 1\n\n# Chapter 2";
    let d = parse(text);
    assert_eq!(d.chapters.len(), 1);
    assert_eq!(d.chapters[0].title, "全文");
    assert_eq!(d.chapters[0].content[0].content, text);
}

#[test]
fn consecutive_headings_keep_the_last_title() {
    let d = parse("# One\n# Two\nbody");
    assert_eq!(d.chapters.len(), 1);
    assert_eq!(d.chapters[0].title, "Two");
    assert_eq!(d.chapters[0].content[0].content, "body");
}

#[test]
fn paragraph_lines_are_joined_and_carriage_returns_dropped() {
    let d = parse("# A\r\n\r\nfirst\r\nsecond\r\n\r\nthird");
    assert_eq!(d.chapters.len(), 1);
    assert_eq!(d.chapters[0].title, "A");
    assert_eq!(d.chapters[0].content.len(), 2);
    assert_eq!(d.chapters[0].content[0].content, "first\nsecond");
    assert_eq!(d.chapters[0].content[1].content, "third");
}

#[test]
fn every_parse_has_filled_chapters() {
    for text in ["", "\n\n", "   \n\t", "# x", "a\n# b\nc", "第一章\n第二章 x\ny", "#\n# \n"] {
        let d = parse(text);
        assert!(d.chapters.len() >= 1);
        for c in &d.chapters {
            assert!(!c.content.is_empty());
        }
    }
}

#[test]
fn parsing_twice_gives_the_same_chapters() {
    let text = "intro\n\n# A\n\none\n\ntwo\n\n第3章 B\n\nthree";
    let mut parser = ParserEngine::new();
    let first = parser.parse_txt(text);
    let mut shared = ParserEngine::with_cache(parser.get_cache());
    let second = shared.parse_txt(text);
    let third = parse(text);
    for other in [&second, &third] {
        assert_eq!(first.chapters.len(), other.chapters.len());
        for (a, b) in first.chapters.iter().zip(other.chapters.iter()) {
            assert_eq!(a.title, b.title);
            assert_eq!(a.content.len(), b.content.len());
        }
    }
    assert_eq!(first.chapters.len(), 3);
}

#[test]
fn numbered_headings_use_unicode_digits() {
    let d = parse("第３章 全角\n\n内容\n\n第十二章\n\n更多");
    assert_eq!(d.chapters.len(), 2);
    assert_eq!(d.chapters[0].title, "第３章 全角");
    assert_eq!(d.chapters[1].title, "第十二章");
}

#[test]
fn numbered_heading_is_matched_on_the_trimmed_line() {
    let d = parse("  第5章 开始  \n\n内容");
    assert_eq!(d.chapters.len(), 1);
    assert_eq!(d.chapters[0].title, "第5章 开始");
}

#[test]
fn segment_chapters_follows_the_given_heading_marks() {
    let text = "Intro\n\nX\n\nbody";
    let chapters = segment_chapters(text, &vec![false, false, true, false, false]);
    assert_eq!(chapters.len(), 2);
    assert_eq!(chapters[0].title, "全文");
    assert_eq!(chapters[0].content[0].content, "Intro");
    assert_eq!(chapters[1].title, "X");
    assert_eq!(chapters[1].content[0].content, "body");
    let none = segment_chapters(text, &vec![false; 5]);
    assert_eq!(none.len(), 1);
    assert_eq!(none[0].content.len(), 3);
}

#[test]
fn cache_holds_the_last_chapter_of_each_title() {
    let mut parser = ParserEngine::new();
    parser.parse_txt("# A\n\nfirst\n\n# A\n\nsecond\n\n# B\n\nthird");
    let a = parser.get_cached_chapter("A").unwrap();
    assert_eq!(a.content[0].content, "second");
    assert_eq!(a.id, "chapter_1");
    assert!(parser.get_cached_chapter("C").is_none());
    assert_eq!(parser.get_cache().len(), 2);
    parser.cache_chapter(chapter("C", vec![text_block("x")]));
    assert_eq!(parser.get_cached_chapter("C").unwrap().content[0].content, "x");
}

#[test]
fn parse_one_chapter_by_index() {
    let parser = ParserEngine::new();
    let text = "# A\n\none\n\n# B\n\ntwo";
    let d = parser.parse_txt_chapter(text, 1);
    assert_eq!(d.chapters.len(), 1);
    assert_eq!(d.chapters[0].title, "B");
    assert_eq!(d.chapters[0].id, "chapter_1");
    assert_eq!(parser.parse_txt_chapter(text, 2).chapters.len(), 0);
}

#[test]
fn document_carries_metadata_and_default_style() {
    let d = parse("x");
    assert_eq!(d.metadata.title, "Sample Document");
    assert_eq!(d.metadata.author, "Unknown");
    assert!(d.metadata.created_at.contains('T'));
    assert_eq!(d.styles, vec![style(16)]);
}

#[test]
fn content_area_of_standard_page() {
    let config = standard_config();
    assert_eq!(config.content_width(), 360);
    assert_eq!(config.content_height(), 560);
    let narrow = PageConfig { width: 30, ..config };
    assert_eq!(narrow.content_width(), -10);
}

#[test]
fn hundred_lines_split_into_four_pages() {
    let lines: Vec<String> = (0..100).map(|i| format!("line {}", i)).collect();
    let block = text_block(&lines.join("\n"));
    let engine = LayoutEngine::new(standard_config());
    assert_eq!(engine.measure_block(&block).height, 19200);
    let pages = engine.layout_document(&document(vec![chapter("c", vec![block])]));
    assert_eq!(pages.len(), 4);
    let sizes: Vec<usize> = pages.iter().map(|p| p.blocks[0].content.lines().count()).collect();
    assert_eq!(sizes, vec![29, 29, 29, 13]);
    let used: Vec<u128> = pages.iter().map(|p| p.used_height).collect();
    assert_eq!(used, vec![5568, 5568, 5568, 2496]);
    for p in &pages {
        assert_eq!(p.blocks.len(), 1);
        assert_eq!(p.blocks[0].metrics, None);
    }
    assert_eq!(pages[3].blocks[0].content, lines[87..].join("\n"));
}

#[test]
fn each_chapter_starts_a_page() {
    let d = document(vec![
        chapter("a", vec![text_block("one")]),
        chapter("b", vec![text_block("two")]),
    ]);
    let pages = LayoutEngine::new(standard_config()).layout_document(&d);
    assert_eq!(pages.len(), 2);
    assert_eq!(pages[0].blocks[0].content, "one");
    assert_eq!(pages[1].blocks[0].content, "two");
    assert_eq!(pages[0].used_height, 192);
}

#[test]
fn layout_keeps_every_block_and_the_page_height() {
    let mut blocks = Vec::new();
    for i in 0..40 {
        blocks.push(text_block(&format!("paragraph {}\nsecond line", i)));
    }
    let d = document(vec![chapter("a", blocks), chapter("b", vec![text_block("tail")])]);
    let pages = LayoutEngine::new(standard_config()).layout_document(&d);
    let placed: usize = pages.iter().map(|p| p.blocks.len()).sum();
    assert_eq!(placed, 41);
    for p in &pages {
        assert!(!p.blocks.is_empty());
        assert!(p.used_height <= 5600);
    }
    // 14 blocks of 384 fit in 5600; 40 blocks fill three pages, and "b" starts a fourth.
    assert_eq!(pages.len(), 4);
    assert_eq!(pages[3].blocks[0].content, "tail");
    let texts: Vec<&str> = pages[..3].iter().flat_map(|p| p.blocks.iter().map(|b| b.content.as_str())).collect();
    assert_eq!(texts.len(), 40);
    assert_eq!(texts[39], "paragraph 39\nsecond line");
}

#[test]
fn block_without_lines_still_gets_a_page() {
    let config = PageConfig { height: 40, ..standard_config() };
    let d = document(vec![chapter("a", vec![text_block("")])]);
    let pages = LayoutEngine::new(config).layout_document(&d);
    assert_eq!(pages.len(), 1);
    assert_eq!(pages[0].blocks[0].content, "");
    assert_eq!(pages[0].used_height, 192);
}

#[test]
fn font_too_large_for_the_page_gives_one_line_per_page() {
    let config = PageConfig { height: 50, margin_top: 20, margin_bottom: 20, ..standard_config() };
    let block = ContentBlock { styles: style(40), ..text_block("a\nb\nc") };
    let pages = LayoutEngine::new(config).layout_document(&document(vec![chapter("a", vec![block])]));
    let texts: Vec<&str> = pages.iter().map(|p| p.blocks[0].content.as_str()).collect();
    assert_eq!(texts, vec!["a", "b", "c"]);
}

#[test]
fn layout_of_one_chapter_on_demand() {
    let text = "# A\n\none\n\n# B\n\ntwo";
    let pages = layout_chapter_on_demand(text, 1, standard_config());
    assert_eq!(pages.len(), 1);
    assert_eq!(pages[0].blocks[0].content, "two");
    assert!(layout_chapter_on_demand(text, 2, standard_config()).is_empty());
    let engine = LayoutEngine::new(standard_config());
    let d = parse(text);
    assert_eq!(engine.layout_document_chapter(&d, 0)[0].blocks[0].content, "one");
    assert!(engine.layout_document_chapter(&d, 7).is_empty());
}

#[test]
fn render_page_exactly() {
    let page = Page {
        blocks: vec![
            text_block("a"),
            ContentBlock { block_type: ContentBlockType::Blank, ..text_block("") },
            ContentBlock { block_type: ContentBlockType::Title, ..text_block("T") },
        ],
        used_height: 0,
    };
    let r = Renderer::new();
    assert_eq!(r.render_page(&page), "--- Page Start ---\nText: a\n\nTitle: T\n--- Page End ---\n");
    let empty = Page { blocks: vec![], used_height: 0 };
    let pages = vec![page, empty];
    assert_eq!(
        r.render_pages(&pages),
        "Page 1: \n--- Page Start ---\nText: a\n\nTitle: T\n--- Page End ---\n\nPage 2: \n--- Page Start ---\n--- Page End ---\n\n"
    );
    assert_eq!(
        render_pages_for_tauri(&pages[1..]),
        "Page 1\n--- Page Start ---\n--- Page End ---\n\n"
    );
}

#[test]
fn page_numbers_run_past_nine() {
    let pages: Vec<Page> = (0..12).map(|_| Page { blocks: vec![], used_height: 0 }).collect();
    let out = Renderer::new().render_pages(&pages);
    assert!(out.contains("Page 12: \n"));
    assert!(out.contains("Page 10: \n"));
}

#[test]
fn detect_format_follows_path_rules() {
    assert_eq!(FileLoader::detect_format("notes.EPUB"), FileFormat::Other("epub".to_string()));
    assert_eq!(FileLoader::detect_format("archive.Tar.GZ"), FileFormat::Other("gz".to_string()));
    assert_eq!(FileLoader::detect_format("book.ÄBC"), FileFormat::Other("äbc".to_string()));
    assert_eq!(FileLoader::detect_format("read.Txt"), FileFormat::Txt);
    assert_eq!(FileLoader::detect_format(".bashrc"), FileFormat::Txt);
    assert_eq!(FileLoader::detect_format("dir.pdf/file"), FileFormat::Txt);
    assert_eq!(FileLoader::detect_format("dir/file.md/."), FileFormat::Other("md".to_string()));
    assert_eq!(FileLoader::detect_format("dir/file.md/.."), FileFormat::Txt);
    assert_eq!(FileLoader::detect_format("file."), FileFormat::Other(String::new()));
    assert_eq!(FileLoader::detect_format(""), FileFormat::Txt);
}

#[test]
fn decode_text_falls_back_to_one_char_per_byte() {
    assert_eq!(FileLoader::decode_text("中文 text".as_bytes()), "中文 text");
    assert_eq!(FileLoader::decode_text(&[0xC4, 0xE9, 0xF3, 0xF1]), "Äéóñ");
    assert_eq!(FileLoader::decode_text(&[]), "");
}

#[test]
fn load_and_parse_bytes() {
    let loader = FileLoader::new();
    let d = loader.load_and_parse_document("book.txt", "# 第一章 测试章节\n\n这是一个测试段落。\n\n第二段内容。".as_bytes());
    assert_eq!(d.chapters.len(), 1);
    assert_eq!(d.chapters[0].title, "第一章 测试章节");
    assert_eq!(d.chapters[0].content.len(), 2);
    let latin = loader.load_and_parse_document("old.dat", &[b'#', b' ', 0xC9, b'\n', b'x']);
    assert_eq!(latin.chapters[0].title, "É");
}

#[test]
fn reader_commands() {
    assert_eq!(greet("Ada"), "Hello, Ada! You've been greeted from Rust!");
    let text = "# Chapter 1\n\nFirst chapter content.\n\n# Chapter 2\n\nSecond chapter content.";
    assert_eq!(parse_document_chapters(text), vec!["Chapter 1".to_string(), "Chapter 2".to_string()]);
    let rendered = typeset_document(text);
    assert!(rendered.starts_with("Page 1\n--- Page Start ---\nText: First chapter content.\n"));
    assert!(rendered.contains("Page 2\n--- Page Start ---\nText: Second chapter content.\n"));
    let (again, mapping) = typeset_document_with_chapter_info(text);
    assert_eq!(again, rendered);
    assert_eq!(mapping, vec![("Chapter 1".to_string(), 0), ("Chapter 2".to_string(), 1)]);
}

#[test]
fn cache_passes_from_parser_to_parser() {
    let mut first = ParserEngine::new();
    first.parse_txt("# A\n\none");
    let mut second = ParserEngine::with_cache(first.into_cache());
    second.parse_txt("# B\n\ntwo");
    assert_eq!(second.get_cached_chapter("A").unwrap().content[0].content, "one");
    assert_eq!(second.get_cached_chapter("B").unwrap().content[0].content, "two");
    assert_eq!(second.get_cache().len(), 2);
}
