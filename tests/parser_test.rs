use typesetting_engine::ParserEngine;

#[test]
fn test_simple_parsing() {
    let content = "# Chapter 1\n\nThis is a paragraph.\n\nThis is another paragraph.";
    let mut parser = ParserEngine::new();
    let document = parser.parse_txt(content);

    assert_eq!(document.chapters.len(), 1);
    assert_eq!(document.metadata.title, "Sample Document");
}

#[test]
fn test_multiple_chapters() {
    let content = "# Chapter 1\n\nFirst chapter content.\n\n# Chapter 2\n\nSecond chapter content.";
    let mut parser = ParserEngine::new();
    let document = parser.parse_txt(content);

    assert_eq!(document.chapters.len(), 2);
    assert_eq!(document.chapters[0].title, "Chapter 1");
    assert_eq!(document.chapters[1].title, "Chapter 2");
}

#[test]
fn test_empty_document() {
    let content = "";
    let mut parser = ParserEngine::new();
    let document = parser.parse_txt(content);

    assert_eq!(document.chapters.len(), 1);
}

#[test]
fn test_document_with_only_chapters() {
    let content = "# Chapter 1\n\n# Chapter 2\n\n# Chapter 3";
    let mut parser = ParserEngine::new();
    let document = parser.parse_txt(content);

    assert_eq!(document.chapters.len(), 1);
}

#[test]
fn test_document_with_blank_paragraphs() {
    let content = "# Chapter 1\n\n\n\nThis is content.\n\n\n\nMore content.";
    let mut parser = ParserEngine::new();
    let document = parser.parse_txt(content);

    assert_eq!(document.chapters.len(), 1);
    assert!(document.chapters[0].content.len() >= 1);
}

#[test]
fn test_complex_document_structure() {
    let content = "# 第一章 简介\n\n这是第一章的内容。\n\n## 小节标题\n\n这是小节的内容。\n\n# 第二章 详细内容\n\n这是第二章的内容。\n\n列表项1\n列表项2\n列表项3";
    let mut parser = ParserEngine::new();
    let document = parser.parse_txt(content);

    assert_eq!(document.chapters.len(), 2);
    assert!(!document.chapters[0].content.is_empty());
}

#[test]
fn test_chinese_numbered_chapters() {
    let content = "第一页\n\n这是第一页的内容。\n\n第二页\n\n这是第二页的内容。";
    let mut parser = ParserEngine::new();
    let document = parser.parse_txt(content);

    assert_eq!(document.chapters.len(), 1);
    assert_eq!(document.chapters[0].title, "全文");
}

#[test]
fn test_standard_chinese_chapters() {
    let content = "第一章 简介\n\n这是第一章的内容。\n\n第二章 详细信息\n\n这是第二章的内容。";
    let mut parser = ParserEngine::new();
    let document = parser.parse_txt(content);

    assert_eq!(document.chapters.len(), 2);
    assert_eq!(document.chapters[0].title, "第一章 简介");
    assert_eq!(document.chapters[1].title, "第二章 详细信息");
}

#[test]
fn test_mixed_format_chapters() {
    let content = "# English Chapter\n\nContent of English chapter.\n\n第二章 中文标题\n\n中文章节内容。";
    let mut parser = ParserEngine::new();
    let document = parser.parse_txt(content);

    assert_eq!(document.chapters.len(), 2);
    assert_eq!(document.chapters[0].title, "English Chapter");
    assert_eq!(document.chapters[1].title, "第二章 中文标题");
}

#[test]
fn test_chapter_caching() {
    let content1 = "# Chapter 1\n\nContent of chapter 1.\n\n# Chapter 2\n\nContent of chapter 2.";

    let mut parser1 = ParserEngine::new();
    let document1 = parser1.parse_txt(content1);

    let cache = parser1.get_cache();
    let mut parser2 = ParserEngine::with_cache(cache);
    let document2 = parser2.parse_txt(content1);

    assert_eq!(document1.chapters.len(), document2.chapters.len());
    assert_eq!(document1.chapters[0].title, document2.chapters[0].title);
    assert_eq!(document1.chapters[1].title, document2.chapters[1].title);
}
