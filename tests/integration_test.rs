use typesetting_engine::{LayoutEngine, PageConfig, ParserEngine, Renderer};

#[test]
fn test_full_pipeline() {
    let content = "# Chapter 1\n\nThis is a test paragraph.\n\nThis is another paragraph.";

    let mut parser = ParserEngine::new();
    let document = parser.parse_txt(content);

    let page_config = PageConfig {
        width: 400,
        height: 600,
        margin_top: 20,
        margin_bottom: 20,
        margin_left: 20,
        margin_right: 20,
    };
    let layout_engine = LayoutEngine::new(page_config);
    let pages = layout_engine.layout_document(&document);

    let renderer = Renderer::new();
    let rendered = renderer.render_pages(&pages);

    assert!(rendered.contains("This is a test paragraph."));
    assert!(rendered.contains("--- Page Start ---"));
    assert!(rendered.contains("--- Page End ---"));
    assert!(pages.len() >= 1);
}
