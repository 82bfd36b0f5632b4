use doctave::config::{Config, NavRule};
use doctave::document::Directory;
use doctave::error::{Error, ErrorKind};
use doctave::generator::BuildInputs;
use doctave::site::Site;
use doctave::document::Document;
use doctave::frontmatter::Frontmatter;
use doctave::ingest::{find, SourceFile};
use doctave::livereload::handshake_reply;
use doctave::markdown::Markdown;
use doctave::navigation::{sort_links, Link};
use doctave::serve::{ServeCommand, ServeOptions};
use doctave::watcher::{notify_message, WatchEvent};

fn doc(path: &str, base: &str) -> Document {
    Document::new(
        path,
        String::new(),
        Frontmatter::new(),
        base,
        Markdown::empty(),
        1,
    )
}

#[test]
fn index_files_collapse_onto_their_directory() {
    assert_eq!(doc("a/b/README.md", "/").uri_path(), "/a/b");
    assert_eq!(doc("README.md", "/").uri_path(), "/");
    assert_eq!(doc("a/b.md", "/").uri_path(), "/a/b");
}

#[test]
fn titles_sort_alphanumerically() {
    let link = |title: &str| Link {
        path: String::new(),
        title: title.to_string(),
        children: vec![],
    };
    let sorted = sort_links(vec![link("11"), link("2"), link("bb"), link("AA")]);
    let titles: Vec<&str> = sorted.iter().map(|l| l.title.as_str()).collect();
    assert_eq!(titles, vec!["2", "11", "AA", "bb"]);
}

#[test]
fn ingestion_synthesizes_missing_indices() {
    let config = Config::assemble("project", "My project", None, None, None, None, None).unwrap();
    let files = vec![
        SourceFile {
            path: String::from("one.md"),
            raw: String::from("---\ntitle: One\n---\nHello"),
            markdown: Markdown::empty(),
        },
        SourceFile {
            path: String::from("child/two.md"),
            raw: String::from("Two"),
            markdown: Markdown::empty(),
        },
    ];

    let root = find(files, &config).unwrap();

    assert_eq!(root.path, "project/docs");
    // The root and the child directory each got exactly one index.
    let root_indices: Vec<_> = root
        .docs
        .iter()
        .filter(|d| d.original_file_name() == "README.md")
        .collect();
    assert_eq!(root_indices.len(), 1);
    assert_eq!(root.dirs.len(), 1);
    let child = &root.dirs[0];
    let child_indices: Vec<_> = child
        .docs
        .iter()
        .filter(|d| d.original_file_name() == "README.md")
        .collect();
    assert_eq!(child_indices.len(), 1);
    // Ingested documents get consecutive ids in walk order; synthesized
    // indexes are filed at their directory's own README.md.
    let one = root
        .docs
        .iter()
        .find(|d| d.original_path().as_str() == "one.md")
        .unwrap();
    assert_eq!(one.id, 1);
    let two = child
        .docs
        .iter()
        .find(|d| d.original_path().as_str() == "child/two.md")
        .unwrap();
    assert_eq!(two.id, 2);
    assert_eq!(root_indices[0].original_path().as_str(), "README.md");
    assert_eq!(child_indices[0].original_path().as_str(), "child/README.md");
    // The synthesized root index links to its direct children.
    let idx = root.index();
    assert!(idx.html().contains("Index of docs"));
    assert_eq!(idx.title(), "docs");
}

#[test]
fn ingestion_rejects_bad_frontmatter() {
    let config = Config::assemble("project", "My project", None, None, None, None, None).unwrap();
    let files = vec![SourceFile {
        path: String::from("one.md"),
        raw: String::from("---\n:::bad: @@!~\n---\nHello"),
        markdown: Markdown::empty(),
    }];

    assert!(find(files, &config).is_err());
}

#[test]
fn base_path_is_normalized_to_end_with_a_slash() {
    let with_slash =
        Config::assemble("", "The Title", None, None, Some("/docs".to_string()), None, None)
            .unwrap();
    assert_eq!(with_slash.base_path(), "/docs/");

    let default = Config::assemble("", "The Title", None, None, None, None, None).unwrap();
    assert_eq!(default.base_path(), "/");

    let relative =
        Config::assemble("", "The Title", None, None, Some("not/absolute".to_string()), None, None);
    assert!(relative.is_err());
}

#[test]
fn default_readme_rule_is_recognized() {
    let file_rule = NavRule::File(String::from("docs/README.md"));
    assert!(file_rule.is_default_readme_rule("project", "project/docs"));
    let other_rule = NavRule::File(String::from("docs/other.md"));
    assert!(!other_rule.is_default_readme_rule("project", "project/docs"));
    let dir_rule = NavRule::Dir(String::from("docs/child"), None);
    assert!(!dir_rule.is_default_readme_rule("project", "project/docs"));
}

#[test]
fn handshake_accepts_only_hello() {
    let reply = handshake_reply("{\"command\":\"hello\"}");
    assert!(reply.is_some());
    assert!(reply.unwrap().contains("livereload.com/protocols/official-7"));

    assert!(handshake_reply("{\"command\":\"info\"}").is_none());
    assert!(handshake_reply("not json at all").is_none());
}

#[test]
fn watch_events_map_to_messages() {
    assert_eq!(notify_message(&WatchEvent::Created), Some("created".to_string()));
    assert_eq!(notify_message(&WatchEvent::Updated), Some("updated".to_string()));
    assert_eq!(notify_message(&WatchEvent::Removed), Some("deleted".to_string()));
    assert_eq!(
        notify_message(&WatchEvent::Renamed("b.md".to_string())),
        Some("renamed to b.md".to_string())
    );
    assert_eq!(notify_message(&WatchEvent::Other), None);
}

#[test]
fn port_option_overrides_configured_port() {
    let config = Config::assemble("p", "T", Some(8080), None, None, None, None).unwrap();
    let defaulted = ServeOptions::default();
    assert_eq!(ServeCommand::effective_port(&defaulted, &config), 8080);
    let chosen = ServeOptions { port: Some(4100) };
    assert_eq!(ServeCommand::effective_port(&chosen, &config), 4100);
}

#[test]
fn document_title_falls_back_to_the_file_stem() {
    let named = {
        let mut fm = Frontmatter::new();
        fm.insert("title".to_string(), "Named".to_string());
        Document::new("a/b.md", String::new(), fm, "/", Markdown::empty(), 1)
    };
    assert_eq!(named.title(), "Named");

    let unnamed = doc("a/guide.md", "/");
    assert_eq!(unnamed.title(), "guide");
}

#[test]
fn error_kinds_name_their_causes() {
    let yaml_err = doctave::frontmatter::parse("---\n:::bad: @@!~\n---\nx").unwrap_err();
    assert!(matches!(yaml_err.kind(), ErrorKind::Yaml));

    let generic =
        Config::assemble("", "T", None, None, Some("relative".to_string()), None, None)
            .unwrap_err();
    assert!(matches!(generic.kind(), ErrorKind::Generic));

    let io = Error::io("disk trouble");
    assert!(matches!(io.kind(), ErrorKind::Io));
    assert_eq!(io.message(), "disk trouble");
}

#[test]
fn a_broken_template_fails_the_build() {
    let config = Config::assemble("project", "T", None, None, None, None, None).unwrap();
    let root = Directory {
        path: config.docs_dir().clone(),
        docs: vec![doc("README.md", "/")],
        dirs: vec![],
    };

    let inputs = BuildInputs {
        page_template: String::from("{{#if}}"),
        navigation_template: String::new(),
        nested_navigation_template: String::new(),
        style_template: String::new(),
        assets: Vec::new(),
        includes: Vec::new(),
        head_include: None,
        theme_main: String::new(),
        theme_main_dark: String::new(),
        timestamp: String::from("0"),
    };

    let mut site = Site::with_root(root, config);
    let err = site.build(&inputs).unwrap_err();
    assert!(matches!(err.kind(), ErrorKind::Handlebars));
}
