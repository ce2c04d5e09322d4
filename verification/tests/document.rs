use impertio::handler::FileContext;
use impertio::metadata::Metadata;
use impertio::org::{Document, Node, OrgError, Section};

#[test]
fn title() {
    assert_eq!(
        Document::parse("#+TITLE: hello", "hello.org", Default::default()),
        Ok(Document {
            metadata: vec![("title".to_string(), "hello".to_string())],
            sections: vec![Section {
                nodes: vec![],
                commented: false
            }]
        })
    );
}

#[test]
fn heading() {
    assert_eq!(
        Document::parse("* test", "heading.org", Default::default()),
        Ok(Document {
            metadata: vec![],
            sections: vec![
                Section {
                    nodes: vec![],
                    commented: false
                },
                Section {
                    nodes: vec![Node::Heading {
                        level: 1,
                        title: "test".into(),
                        todo_state: None,
                        tags: vec![],
                        commented: false
                    }],
                    commented: false
                }
            ]
        })
    )
}

#[test]
fn py_src() {
    assert_eq!(
        Document::parse(
            "#+BEGIN_SRC python\nprint('Hello, world!')\n#+END_SRC",
            "py_hello.org",
            Default::default()
        ),
        Ok(Document {
            metadata: vec![],
            sections: vec![Section {
                nodes: vec![Node::LesserBlock {
                    type_: "src".into(),
                    args: vec!["python".into()],
                    contents: "print('Hello, world!')".into()
                }],
                commented: false
            }]
        })
    );
}

#[test]
fn comment_heading() {
    // the section opened by a COMMENT heading carries the commented flag
    assert_eq!(
        Document::parse(
            "* TODO COMMENT something\n\nsome text",
            "comment_heading.org",
            Default::default()
        ),
        Ok(Document {
            metadata: vec![],
            sections: vec![
                Section {
                    nodes: vec![],
                    commented: false
                },
                Section {
                    nodes: vec![
                        Node::Heading {
                            level: 1,
                            title: "COMMENT something".into(),
                            todo_state: Some("TODO".into()),
                            tags: vec![],
                            commented: true
                        },
                        Node::Paragraph("some text".into())
                    ],
                    commented: true
                }
            ]
        })
    )
}

#[test]
fn section_count_is_one_plus_headings() {
    let doc = Document::parse("intro\n* one\ntext\n* two\nmore", "s.org", Default::default())
        .unwrap();
    assert_eq!(doc.sections.len(), 3);
}

#[test]
fn keyword_last_write_wins() {
    let doc = Document::parse("#+TITLE: first\n#+TITLE: second", "k.org", Default::default())
        .unwrap();
    assert_eq!(
        doc.metadata,
        vec![("title".to_string(), "second".to_string())]
    );
}

#[test]
fn undefined_macro_is_fatal() {
    assert_eq!(
        Document::parse("#+begin: wat now\n#+end", "m.org", Default::default()),
        Err(OrgError::UndefinedMacro {
            name: "wat".to_string()
        })
    );
}

#[test]
fn planning_line_is_unhandled_by_the_assembler() {
    assert_eq!(
        Document::parse("* h\n    DEADLINE: tomorrow", "p.org", Default::default()),
        Err(OrgError::UnhandledToken)
    );
}

#[test]
fn lex_error_propagates_through_parse() {
    assert_eq!(
        Document::parse("    :drawer:\n    x: y", "d.org", Default::default()),
        Err(OrgError::UnexpectedEof)
    );
}

fn listing_ctx() -> FileContext {
    let mut ctx = FileContext::default();
    ctx.site_url = "https://site.example/".to_string();
    ctx.metadata = vec![
        Metadata::Article {
            title: "First".to_string(),
            description: Some("About things".to_string()),
            author: Some("Someone".to_string()),
            tags: vec!["a".to_string(), "b".to_string()],
            modified: "2024-01-02T03:04:05+00:00".to_string(),
            url: "https://site.example/blog/first.html".to_string(),
        },
        Metadata::Article {
            title: "Elsewhere".to_string(),
            description: None,
            author: None,
            tags: vec![],
            modified: "2024-01-02T03:04:05+00:00".to_string(),
            url: "https://site.example/notes/other.html".to_string(),
        },
        Metadata::Image {
            url: "https://site.example/blog/pic.png".to_string(),
        },
    ];
    ctx
}

#[test]
fn listing_macro_expands_to_cards() {
    let doc = Document::parse("#+begin: listing blog/\n#+end", "l.org", listing_ctx()).unwrap();
    assert_eq!(doc.sections.len(), 2);
    let sec = &doc.sections[1];
    assert!(!sec.commented);
    match &sec.nodes[0] {
        Node::Heading { title, level, .. } => {
            assert_eq!(title, "Articles");
            assert_eq!(*level, 1);
        }
        other => panic!("expected the Articles heading, got {:?}", other),
    }
    match &sec.nodes[1] {
        Node::LesserBlock {
            type_,
            args,
            contents,
        } => {
            assert_eq!(type_, "export");
            assert_eq!(args, &vec!["html".to_string()]);
            let expected = "<div class=\"articles\"><a href=\"https://site.example/blog/first.html\" class=\"article-card\"><div data-title=\"First\" data-last-modified=\"2024-01-02T03:04:05+00:00\" data-description=\"About things\" data-author=\"Someone\" data-tags=\"a, b\"><p class=\"card-title\">First</p><p>About things</p><div><span class=\"card-time\">2024-01-02T03:04:05+00:00</span><span class=\"card-author\">Someone</span></div></div></a></div>";
            assert_eq!(contents, expected);
        }
        other => panic!("expected the export block, got {:?}", other),
    }
}

#[test]
fn listing_filters_by_url_prefix() {
    // a prefix matching nothing leaves an empty card container
    let doc = Document::parse("#+begin: listing gone/\n#+end", "l.org", listing_ctx()).unwrap();
    match &doc.sections[1].nodes[1] {
        Node::LesserBlock { contents, .. } => {
            assert_eq!(contents, "<div class=\"articles\"></div>");
        }
        other => panic!("expected the export block, got {:?}", other),
    }
}

#[test]
fn greater_block_maps_to_lesser_shape() {
    let doc = Document::parse("#+BEGIN_QUOTE deep\nkept\n#+END_QUOTE", "q.org", Default::default())
        .unwrap();
    assert_eq!(
        doc.sections[0].nodes,
        vec![Node::LesserBlock {
            type_: "quote".into(),
            args: vec!["deep".into()],
            contents: "kept".into()
        }]
    );
}

#[test]
fn comment_tokens_are_dropped() {
    let doc = Document::parse("# just a note", "c.org", Default::default()).unwrap();
    assert_eq!(
        doc,
        Document {
            metadata: vec![],
            sections: vec![Section {
                nodes: vec![],
                commented: false
            }]
        }
    );
}
