use impertio::org::html::HtmlBuilder;
use impertio::org::{Document, Node, Section};

#[test]
fn headings() {
    assert_eq!(
        HtmlBuilder::new().from_document(
            &Document::parse("* Hello, World!", "heading.org", Default::default()).unwrap()
        ),
        "<div class=\"article\"><h1>Hello, World!</h1></div>"
    )
}

#[test]
fn html_paragraphs() {
    assert_eq!(
        HtmlBuilder::new().from_document(
            &Document::parse(
                r#"Hello,
  world!
Hewwo!

Hai!"#,
                "paragraphs.org",
                Default::default()
            )
            .unwrap()
        ),
        "<div class=\"article\"><p>Hello, world!<br />Hewwo!</p><p>Hai!</p></div>"
    )
}

#[test]
fn html_py_src() {
    assert_eq!(
        HtmlBuilder::new().from_document(
            &Document::parse(
                r#"#+BEGIN_SRC python
print('Hello, world!')
#+END_SRC"#,
                "py_src.org",
                Default::default()
            )
            .unwrap()
        ),
        "<div class=\"article\"><pre><code class=\"language-python\">print('Hello, world!')</code></pre></div>"
    )
}

#[test]
fn table() {
    assert_eq!(
        HtmlBuilder::new().from_document(
            &Document::parse(
                r#"
| a | b | c |
| 1 | 2 | 3 |
"#,
                "table.org",
                Default::default()
            )
            .unwrap()
        ),
        "<div class=\"article\"><table><thead></thead><tbody><tr><td></td><td>a</td><td>b</td><td>c</td><td></td></tr><tr><td></td><td>1</td><td>2</td><td>3</td><td></td></tr></tbody></table></div>"
    )
}

#[test]
fn commented_section_renders_to_nothing() {
    let doc = Document::parse(
        "* TODO COMMENT something\n\nsome text",
        "comment_heading.org",
        Default::default(),
    )
    .unwrap();
    assert_eq!(doc.to_html(), "<div class=\"article\"></div>");
}

#[test]
fn heading_title_is_escaped() {
    // would fail if the escaping call handed its argument back unchanged
    let doc = Document::parse("* a < b & c", "esc.org", Default::default()).unwrap();
    assert_eq!(
        doc.to_html(),
        "<div class=\"article\"><h1>a &lt; b &amp; c</h1></div>"
    );
}

#[test]
fn paragraph_text_is_escaped() {
    let doc = Document::parse("2 > 1", "esc.org", Default::default()).unwrap();
    assert_eq!(doc.to_html(), "<div class=\"article\"><p>2 &gt; 1</p></div>");
}

#[test]
fn export_html_block_is_injected_raw() {
    let doc = Document::parse(
        "#+BEGIN_EXPORT html\n<b>bold</b>\n#+END_EXPORT",
        "raw.org",
        Default::default(),
    )
    .unwrap();
    assert_eq!(
        doc.to_html(),
        "<div class=\"article\"><b>bold</b></div>"
    );
}

#[test]
fn export_without_html_is_dropped() {
    let doc = Document::parse(
        "#+BEGIN_EXPORT latex\n\\bf{x}\n#+END_EXPORT",
        "raw.org",
        Default::default(),
    )
    .unwrap();
    assert_eq!(doc.to_html(), "<div class=\"article\"></div>");
}

#[test]
fn hand_built_document_renders() {
    let doc = Document {
        metadata: vec![],
        sections: vec![Section {
            nodes: vec![
                Node::Heading {
                    level: 2,
                    title: "Deep".to_string(),
                    todo_state: None,
                    tags: vec![],
                    commented: false,
                },
                Node::Paragraph("line one\nline two".to_string()),
            ],
            commented: false,
        }],
    };
    assert_eq!(
        HtmlBuilder::new().from_document(&doc),
        "<div class=\"article\"><h2>Deep</h2><p>line one<br />line two</p></div>"
    );
}
