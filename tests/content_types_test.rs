use typesetting_engine::{ParserEngine, TextStyle};

#[test]
fn content_types_test_test_content_block_types() {
    let content = "# 标题测试
    
这是普通文本段落。

```
这是代码块内容
包含多行代码
fn example() {
    println!(\"Hello, world!\");
}
```

- 这是列表项1
- 这是列表项2
- 这是列表项3

> 这是引用块内容
> 包含多行引用文本";

    let mut parser = ParserEngine::new();
    let document = parser.parse_txt(content);

    assert_eq!(document.chapters.len(), 1);
    assert!(!document.chapters[0].content.is_empty());

    let blocks = &document.chapters[0].content;
    assert!(!blocks.is_empty());
}

#[test]
fn test_nested_structures() {
    let content = "# 嵌套结构测试
    
## 二级标题
    
### 三级标题
    
这是普通文本。
    
#### 四级标题
    
更多内容。";

    let mut parser = ParserEngine::new();
    let _document = parser.parse_txt(content);
}

#[test]
fn test_style_handling() {
    let style1 = TextStyle {
        font_size: 12,
        font_family: "Arial".into(),
        bold: false,
        italic: false,
    };

    let style2 = TextStyle {
        font_size: 16,
        font_family: "Times New Roman".into(),
        bold: true,
        italic: false,
    };

    assert_ne!(style1.font_size, style2.font_size);
    assert_ne!(style1.font_family, style2.font_family);
    assert_ne!(style1.bold, style2.bold);
}
