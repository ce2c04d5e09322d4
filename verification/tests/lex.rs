use impertio::org::lex::{Lexer, Location, Token, TokenKind};
use impertio::org::OrgError;

#[test]
fn test_heading() {
    assert_eq!(
        Lexer::new("headings.org").lex(
            r#"
* TODO #[A] COMMENT test :abc: [3%]
    DEADLINE: tomorrow
    :drawer:
    something: nothing
    :enD:
"#
        ),
        Ok(vec![
            Token {
                kind: TokenKind::Heading {
                    level: 1,
                    todo_state: Some("TODO".to_string()),
                    priority: Some("A".to_string()),
                    commented: true,
                    title: "COMMENT test".to_string(),
                    tags: vec!["abc".to_string()],
                    archived: false,
                    completion_amount: Some("3%".to_string()),
                },
                location: Location {
                    file: "headings.org".to_string(),
                    line: 2
                }
            },
            Token {
                kind: TokenKind::Planning {
                    _type: "DEADLINE".to_string(),
                    value: "tomorrow".to_string(),
                },
                location: Location {
                    file: "headings.org".to_string(),
                    line: 3
                }
            },
            Token {
                kind: TokenKind::Drawer {
                    name: "drawer".to_string(),
                    contents: vec!["    something: nothing".to_string()],
                },
                location: Location {
                    file: "headings.org".to_string(),
                    line: 4
                }
            },
        ])
    )
}

#[test]
fn zeroth_section() {
    assert_eq!(
        Lexer::new("zero.org").lex(
            r#"    :drawer:
    abc: another
    :end:"#
        ),
        Ok(vec![Token {
            kind: TokenKind::Drawer {
                name: "drawer".to_string(),
                contents: vec!["    abc: another".to_string()],
            },
            location: Location {
                file: "zero.org".to_string(),
                line: 1
            }
        }])
    )
}

#[test]
fn comments() {
    assert_eq!(
        Lexer::new("comments.org").lex(
            r#"#+BEGIN_COMMENT
hewwo
#+END_COMMENT
# another comment"#
        ),
        Ok(vec![
            Token {
                kind: TokenKind::Comment {
                    content: "hewwo".into()
                },
                location: Location {
                    file: "comments.org".into(),
                    line: 1
                }
            },
            Token {
                kind: TokenKind::Comment {
                    content: "another comment".into()
                },
                location: Location {
                    file: "comments.org".into(),
                    line: 4
                }
            }
        ])
    )
}

#[test]
fn paragraphs() {
    assert_eq!(
        Lexer::new("paragraphs.org").lex(
            r#"Hewwo!
  How goes it?

Yoooooooo
noooo"#
        ),
        Ok(vec![
            Token {
                kind: TokenKind::Paragraph {
                    content: "Hewwo! How goes it?".into()
                },
                location: Location {
                    file: "paragraphs.org".into(),
                    line: 1
                }
            },
            Token {
                kind: TokenKind::Paragraph {
                    content: "Yoooooooo\nnoooo".into()
                },
                location: Location {
                    file: "paragraphs.org".into(),
                    line: 4
                }
            }
        ])
    )
}

#[test]
fn lstrip_src() {
    assert_eq!(
        Lexer::new("src.org").lex(
            r#"#+BEGIN_SRC py
  normal
    indented
#+END_SRC"#
        ),
        Ok(vec![Token {
            kind: TokenKind::LesserBlock {
                _type: "src".into(),
                contents: vec!["normal".into(), "  indented".into()],
                args: "py".into()
            },
            location: Location {
                file: "src.org".into(),
                line: 1
            }
        }])
    )
}

#[test]
fn unterminated_drawer_fails() {
    // a drawer opened but never closed is an unexpected end of input
    let r = Lexer::new("zero.org").lex("    :drawer:\n    x: y");
    assert_eq!(r, Err(OrgError::UnexpectedEof));
    assert_eq!(
        Lexer::new("zero.org")
            .lex("    :drawer:\n    x: y")
            .unwrap_err()
            .message(),
        "Unexpected EOF."
    );
}

#[test]
fn unterminated_block_fails() {
    let r = Lexer::new("b.org").lex("#+BEGIN_SRC py\nx = 1");
    assert_eq!(r, Err(OrgError::UnexpectedEof));
}

#[test]
fn mismatched_block_close_fails() {
    let r = Lexer::new("b.org").lex("#+BEGIN_SRC py\nx = 1\n#+END_VERSE");
    assert_eq!(r, Err(OrgError::MismatchedBlockType));
}

#[test]
fn paragraph_merge_unindented_keeps_newline() {
    // "A\nB" with B unindented: one paragraph, text "A\nB"
    assert_eq!(
        Lexer::new("p.org").lex("A\nB"),
        Ok(vec![Token {
            kind: TokenKind::Paragraph {
                content: "A\nB".into()
            },
            location: Location {
                file: "p.org".into(),
                line: 1
            }
        }])
    );
}

#[test]
fn paragraph_merge_indented_joins_with_space() {
    // "A\n  B" with B indented: one paragraph, text "A B"
    assert_eq!(
        Lexer::new("p.org").lex("A\n  B"),
        Ok(vec![Token {
            kind: TokenKind::Paragraph {
                content: "A B".into()
            },
            location: Location {
                file: "p.org".into(),
                line: 1
            }
        }])
    );
}

#[test]
fn table_run_is_one_token() {
    // three row lines collapse into one table token with three rows
    assert_eq!(
        Lexer::new("t.org").lex("| a |\n| b |\n| c |"),
        Ok(vec![Token {
            kind: TokenKind::Table {
                rows: vec![
                    vec!["".to_string(), "a".to_string(), "".to_string()],
                    vec!["".to_string(), "b".to_string(), "".to_string()],
                    vec!["".to_string(), "c".to_string(), "".to_string()],
                ]
            },
            location: Location {
                file: "t.org".into(),
                line: 1
            }
        }])
    );
}

#[test]
fn tables_split_by_blank_line_stay_separate() {
    let toks = Lexer::new("t.org").lex("| a |\n\n| b |").unwrap();
    assert_eq!(toks.len(), 2);
    assert!(matches!(toks[0].kind, TokenKind::Table { .. }));
    assert!(matches!(toks[1].kind, TokenKind::Table { .. }));
}

#[test]
fn keyword_name_is_lowercased() {
    assert_eq!(
        Lexer::new("k.org").lex("#+AUTHOR: Somebody"),
        Ok(vec![Token {
            kind: TokenKind::Keyword {
                name: "author".into(),
                content: "Somebody".into()
            },
            location: Location {
                file: "k.org".into(),
                line: 1
            }
        }])
    );
}

#[test]
fn archived_tag_is_noticed() {
    let toks = Lexer::new("a.org").lex("* keep :ARCHIVED:").unwrap();
    match &toks[0].kind {
        TokenKind::Heading {
            archived,
            tags,
            title,
            ..
        } => {
            assert!(*archived);
            assert_eq!(tags, &vec!["ARCHIVED".to_string()]);
            assert_eq!(title, "keep");
        }
        other => panic!("expected a heading, got {:?}", other),
    }
}

#[test]
fn dynamic_block_token() {
    assert_eq!(
        Lexer::new("d.org").lex("#+begin: listing tech/ extra\n#+end"),
        Ok(vec![Token {
            kind: TokenKind::DynBlock {
                name: "listing".into(),
                args: vec!["tech/".to_string(), "extra".to_string()],
            },
            location: Location {
                file: "d.org".into(),
                line: 1
            }
        }])
    );
}

#[test]
fn greater_block_kept_verbatim() {
    assert_eq!(
        Lexer::new("g.org").lex("#+BEGIN_QUOTE deep\n  kept as is\n#+END_QUOTE"),
        Ok(vec![Token {
            kind: TokenKind::GreaterBlock {
                _type: "quote".into(),
                contents: vec!["  kept as is".to_string()],
                args: "deep".into()
            },
            location: Location {
                file: "g.org".into(),
                line: 1
            }
        }])
    );
}

#[test]
fn location_incremented() {
    let loc = Location {
        file: "x.org".into(),
        line: 4,
    };
    let next = loc.incremented();
    assert_eq!(
        next,
        Location {
            file: "x.org".into(),
            line: 5
        }
    );
}

#[test]
fn completion_fraction_form() {
    let toks = Lexer::new("c.org").lex("* half done [1/2]").unwrap();
    match &toks[0].kind {
        TokenKind::Heading {
            completion_amount,
            title,
            ..
        } => {
            assert_eq!(completion_amount.as_deref(), Some("1/2"));
            assert_eq!(title, "half done");
        }
        other => panic!("expected a heading, got {:?}", other),
    }
}
