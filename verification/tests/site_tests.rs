use doctave::config::Config;
use doctave::document::Directory;
use doctave::generator::BuildInputs;
use doctave::resolve::{content_type_for, respond};
use doctave::site::{InMemorySite, Site, SiteBackend};

fn config(root: &str, title: &str) -> Config {
    Config::assemble(root, title, None, None, None, None, None).unwrap()
}

fn empty_dir(path: &str) -> Directory {
    Directory {
        path: path.to_string(),
        docs: vec![],
        dirs: vec![],
    }
}

fn inputs() -> BuildInputs {
    BuildInputs {
        page_template: String::new(),
        navigation_template: String::new(),
        nested_navigation_template: String::new(),
        style_template: String::new(),
        assets: Vec::new(),
        includes: Vec::new(),
        head_include: None,
        theme_main: String::new(),
        theme_main_dark: String::new(),
        timestamp: String::from("0"),
    }
}

#[test]
fn you_can_add_a_file_and_read_it_back() {
    let path = "/workspace/site/index.html";
    let content = "An Content";

    let config = config("/workspace", "Title");

    let mut site = InMemorySite::new(empty_dir(config.docs_dir()), config.out_dir());

    site.add_file(path, content.as_bytes().to_vec());

    let uri = "index.html";

    assert_eq!(site.read_path(uri).unwrap(), content.as_bytes());
    assert!(site.has_file(uri));
}

#[test]
fn later_write_to_the_same_path_wins() {
    let config = config("/workspace", "Title");
    let mut site = InMemorySite::new(empty_dir(config.docs_dir()), config.out_dir());

    site.add_file("/workspace/site/a.html", b"one".to_vec());
    site.add_file("/workspace/site/a.html", b"two".to_vec());

    assert_eq!(site.read_path("a.html").unwrap(), b"two".to_vec());
}

#[test]
fn reset_discards_artifacts_and_swaps_root() {
    let config = config("/workspace", "Title");
    let mut site = InMemorySite::new(empty_dir(config.docs_dir()), config.out_dir());

    site.add_file("/workspace/site/a.html", b"one".to_vec());
    site.reset(empty_dir("/workspace/docs"));

    assert!(!site.has_file("a.html"));
}

#[test]
fn page_template_really_renders_the_page_data() {
    let config = config("project", "My project");
    let root = Directory {
        path: config.docs_dir().clone(),
        docs: vec![doctave::document::Document::new(
            "README.md",
            "hello".to_string(),
            doctave::frontmatter::Frontmatter::new(),
            "/",
            doctave::markdown::Markdown::empty(),
            1,
        )],
        dirs: vec![],
    };

    let mut build_inputs = inputs();
    build_inputs.page_template = String::from("Title: {{page_title}}");
    build_inputs.style_template = String::from("color: {{theme_main}};");
    build_inputs.theme_main = String::from("#445282");

    let mut site = Site::with_root(root, config);
    site.build(&build_inputs).unwrap();

    // The root page's title is the project title.
    assert_eq!(
        site.backend.read_path("index.html").unwrap(),
        b"Title: My project".to_vec()
    );
    assert_eq!(
        site.backend.read_path("assets/doctave-style.css").unwrap(),
        b"color: #445282;".to_vec()
    );
    assert!(site.backend.has_file("search_index.json"));
}

#[test]
fn server_resolves_like_the_checker() {
    let config = config("project", "My project");
    let root = Directory {
        path: config.docs_dir().clone(),
        docs: vec![doctave::document::Document::new(
            "README.md",
            String::new(),
            doctave::frontmatter::Frontmatter::new(),
            "/",
            doctave::markdown::Markdown::empty(),
            1,
        )],
        dirs: vec![],
    };

    let mut site = Site::with_root(root, config);
    site.build(&inputs()).unwrap();

    let hit = respond("/", &site, "/");
    assert_eq!(hit.status, 200);
    assert_eq!(hit.content_type, Some("text/html; charset=utf8".to_string()));

    let miss = respond("/missing", &site, "/");
    assert_eq!(miss.status, 404);
    assert!(miss.body.is_empty());

    let outside = respond("/elsewhere/page", &site, "/docs/");
    assert_eq!(outside.status, 404);

    let dotdot = respond("/../secret", &site, "/");
    assert_eq!(dotdot.status, 404);
}

#[test]
fn content_types_by_extension() {
    assert_eq!(content_type_for(Some("html")), Some("text/html; charset=utf8"));
    assert_eq!(content_type_for(Some("css")), Some("text/css"));
    assert_eq!(content_type_for(Some("svg")), Some("image/svg+xml"));
    assert_eq!(content_type_for(Some("weird")), None);
    assert_eq!(content_type_for(None), None);
}

#[test]
fn release_builds_leave_out_the_livereload_script() {
    let mut config = config("project", "My project");
    config.set_build_mode(doctave::site::BuildMode::Release);
    let root = Directory {
        path: config.docs_dir().clone(),
        docs: vec![doctave::document::Document::new(
            "README.md",
            String::new(),
            doctave::frontmatter::Frontmatter::new(),
            "/",
            doctave::markdown::Markdown::empty(),
            1,
        )],
        dirs: vec![],
    };

    let mut build_inputs = inputs();
    build_inputs.assets = vec![
        (String::from("livereload.js"), b"reload".to_vec()),
        (String::from("app.js"), b"app".to_vec()),
    ];

    let mut site = Site::with_root(root, config);
    site.build(&build_inputs).unwrap();

    assert!(!site.backend.has_file("assets/livereload.js"));
    assert!(site.backend.has_file("assets/app.js"));
}

#[test]
fn rebuild_replaces_the_whole_artifact_generation() {
    let config = config("project", "My project");
    let old_root = Directory {
        path: config.docs_dir().clone(),
        docs: vec![doctave::document::Document::new(
            "README.md",
            String::new(),
            doctave::frontmatter::Frontmatter::new(),
            "/",
            doctave::markdown::Markdown::empty(),
            1,
        )],
        dirs: vec![],
    };
    let new_root = Directory {
        path: config.docs_dir().clone(),
        docs: vec![
            doctave::document::Document::new(
                "README.md",
                String::new(),
                doctave::frontmatter::Frontmatter::new(),
                "/",
                doctave::markdown::Markdown::empty(),
                1,
            ),
            doctave::document::Document::new(
                "fresh.md",
                String::new(),
                doctave::frontmatter::Frontmatter::new(),
                "/",
                doctave::markdown::Markdown::empty(),
                2,
            ),
        ],
        dirs: vec![],
    };

    let mut site = Site::with_root(old_root, config);
    site.build(&inputs()).unwrap();
    // A stale artifact from the previous generation.
    site.backend.add_file("project/site/stale.html", b"old".to_vec());
    assert!(site.backend.has_file("stale.html"));

    site.rebuild(new_root, &inputs()).unwrap();

    // The new generation is complete, and nothing stale survives.
    assert!(!site.backend.has_file("stale.html"));
    assert!(site.backend.has_file("index.html"));
    assert!(site.backend.has_file("fresh.html"));
    assert!(site.backend.has_file("search_index.json"));
}

#[test]
fn include_files_are_copied_to_the_output_root() {
    let config = config("project", "My project");
    let root = Directory {
        path: config.docs_dir().clone(),
        docs: vec![doctave::document::Document::new(
            "README.md",
            String::new(),
            doctave::frontmatter::Frontmatter::new(),
            "/",
            {
                let mut md = doctave::markdown::Markdown::empty();
                md.links = vec![doctave::markdown::MdLink {
                    title: String::from("the logo"),
                    url: doctave::markdown::UrlType::Local(String::from("/images/logo.png")),
                }];
                md
            },
            1,
        )],
        dirs: vec![],
    };

    let mut build_inputs = inputs();
    build_inputs.includes = vec![(String::from("images/logo.png"), b"png-bytes".to_vec())];

    let mut site = Site::with_root(root, config);
    site.build(&build_inputs).unwrap();

    // The include file lands at the output root unchanged, and a document
    // linking to it passes the link check.
    assert_eq!(
        site.backend.read_path("images/logo.png").unwrap(),
        b"png-bytes".to_vec()
    );
    assert!(doctave::checker::run(&site).is_ok());
}
