use impertio::config::Config;
use impertio::files::{filter_file, path_to_rel_path};
use impertio::handler::{extension_of, with_extension, CopyHandler, FileContext, OrgHandler};
use impertio::metadata::Metadata;
use impertio::org::Document;
use impertio::template::Templates;

fn ctx_for(relative: &str, source: &str, output: &str) -> FileContext {
    let config = Config {
        site_url: "https://site.example".to_string(),
        rss: None,
    };
    FileContext::new(
        &config,
        relative,
        source,
        output,
        &Templates::new("data"),
        vec![],
    )
}

#[test]
fn context_reads_extension_from_source() {
    let ctx = ctx_for("blog/post.org", "/in/blog/post.org", "/out/blog/post.org");
    assert_eq!(ctx.ext, "org");
    assert_eq!(ctx.site_url, "https://site.example");
}

#[test]
fn extension_edge_cases() {
    assert_eq!(extension_of("a/b/c.tar.gz"), "gz");
    assert_eq!(extension_of("a/b/noext"), "");
    assert_eq!(extension_of("a/b/.hidden"), "");
}

#[test]
fn with_extension_replaces_or_adds() {
    assert_eq!(with_extension("blog/post.org", "html"), "blog/post.html");
    assert_eq!(with_extension("blog/post", "html"), "blog/post.html");
}

#[test]
fn extract_metadata_uses_document_keywords() {
    let doc = Document::parse(
        "#+TITLE: My Post\n#+AUTHOR: Someone\n#+DESC: All about it\n#+TAGS: a, b",
        "post.org",
        Default::default(),
    )
    .unwrap();
    let ctx = ctx_for("blog/post.org", "/in/blog/post.org", "/out/blog/post.org");
    let m = OrgHandler::new().extract_metadata(&doc, &ctx, "2024-01-02T03:04:05+00:00".to_string());
    assert_eq!(
        m,
        Metadata::Article {
            title: "My Post".to_string(),
            author: Some("Someone".to_string()),
            description: Some("All about it".to_string()),
            tags: vec!["a".to_string(), " b".to_string()],
            modified: "2024-01-02T03:04:05+00:00".to_string(),
            url: "https://site.example/blog/post.html".to_string(),
        }
    );
}

#[test]
fn extract_metadata_title_falls_back_to_stem() {
    let doc = Document::parse("just text", "post.org", Default::default()).unwrap();
    let ctx = ctx_for("blog/post.org", "/in/blog/post.org", "/out/blog/post.org");
    let m = OrgHandler::new().extract_metadata(&doc, &ctx, "now".to_string());
    match m {
        Metadata::Article { title, tags, .. } => {
            assert_eq!(title, "post");
            assert_eq!(tags, Vec::<String>::new());
        }
        other => panic!("expected an article record, got {:?}", other),
    }
}

#[test]
fn extract_metadata_splits_tags_on_whitespace_without_commas() {
    let doc = Document::parse("#+TAGS: x y", "post.org", Default::default()).unwrap();
    let ctx = ctx_for("p.org", "/in/p.org", "/out/p.org");
    let m = OrgHandler::new().extract_metadata(&doc, &ctx, "now".to_string());
    match m {
        Metadata::Article { tags, .. } => {
            assert_eq!(tags, vec!["x".to_string(), "y".to_string()]);
        }
        other => panic!("expected an article record, got {:?}", other),
    }
}

#[test]
fn copy_handler_indexes_images() {
    let ctx = ctx_for("pics/cat.png", "/in/pics/cat.png", "/out/pics/cat.png");
    assert_eq!(
        CopyHandler::new().extract_metadata(&ctx),
        Ok(Metadata::Image {
            url: "https://site.example/pics/cat.png".to_string()
        })
    );
}

#[test]
fn copy_handler_rejects_other_extensions() {
    let ctx = ctx_for("notes.txt", "/in/notes.txt", "/out/notes.txt");
    assert_eq!(
        CopyHandler::new().extract_metadata(&ctx),
        Err("File type not extractable to metadata.".to_string())
    );
}

#[test]
fn copy_handler_rejects_missing_extension() {
    let ctx = ctx_for("LICENSE", "/in/LICENSE", "/out/LICENSE");
    assert_eq!(
        CopyHandler::new().extract_metadata(&ctx),
        Err("File has no extension. /shrug".to_string())
    );
}

#[test]
fn filter_file_skips_editor_and_git_files() {
    assert!(filter_file("/tree/blog/post.org"));
    assert!(!filter_file("/tree/blog/post.org~"));
    assert!(!filter_file("/tree/blog/#post.org#"));
    assert!(!filter_file("/tree/.git/config"));
}

#[test]
fn relative_paths_are_stripped_component_wise() {
    assert_eq!(
        path_to_rel_path("/tree", "/tree/blog/post.org"),
        Some("blog/post.org".to_string())
    );
    assert_eq!(path_to_rel_path("/tree", "/tree"), Some("".to_string()));
    assert_eq!(path_to_rel_path("/tree", "/treehouse/x"), None);
    assert_eq!(path_to_rel_path("/tree", "/elsewhere/x"), None);
}

#[test]
fn template_paths_concatenate() {
    assert_eq!(Templates::concat_pathbuf("data", "root.html"), "data/root.html");
    assert_eq!(Templates::concat_pathbuf("data/", "root.html"), "data/root.html");
    assert_eq!(Templates::concat_pathbuf("data", "/abs.html"), "/abs.html");
    assert_eq!(Templates::new("data").dir, "data");
}
