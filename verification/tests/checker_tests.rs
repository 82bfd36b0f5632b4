use doctave::checker::run;
use doctave::config::Config;
use doctave::document::{Directory, Document};
use doctave::error::ErrorKind;
use doctave::frontmatter::Frontmatter;
use doctave::generator::BuildInputs;
use doctave::markdown::{Markdown, MdLink, UrlType};
use doctave::site::Site;

// Mirrors the rendering collaborator's link pass: collects every inline
// link of the Markdown body, base-qualifying site-absolute targets.
fn extract_links(content: &str, url_root: &str) -> Vec<MdLink> {
    let mut links = Vec::new();
    let mut parser = pulldown_cmark::Parser::new(content);
    while let Some(event) = parser.next() {
        if let pulldown_cmark::Event::Start(pulldown_cmark::Tag::Link { dest_url, .. }) = event {
            let dest = dest_url.to_string();
            let mut title = String::new();
            for inner in parser.by_ref() {
                match inner {
                    pulldown_cmark::Event::End(pulldown_cmark::TagEnd::Link) => break,
                    pulldown_cmark::Event::Text(t) => title.push_str(&t),
                    _ => {}
                }
            }
            let url = if dest.starts_with("http://") || dest.starts_with("https://") {
                UrlType::Remote(dest)
            } else if dest.starts_with('/') {
                let mut prefixed = url_root.trim_end_matches('/').to_string();
                prefixed.push_str(&dest);
                UrlType::Local(prefixed)
            } else {
                UrlType::Local(dest)
            };
            links.push(MdLink { title, url });
        }
    }
    links
}

fn render(content: &str, url_root: &str) -> Markdown {
    let mut md = Markdown::empty();
    md.links = extract_links(content, url_root);
    md
}

fn page(path: &str, name: &str, content: &str) -> Document {
    let mut frontmatter = Frontmatter::new();
    frontmatter.insert("title".to_string(), name.to_string());

    Document::new(
        path,
        content.to_string(),
        frontmatter,
        "/",
        render(content, "/"),
        1,
    )
}

fn page_with_base_path(path: &str, name: &str, content: &str, base_path: &str) -> Document {
    let mut frontmatter = Frontmatter::new();
    frontmatter.insert("title".to_string(), name.to_string());

    Document::new(
        path,
        content.to_string(),
        frontmatter,
        base_path,
        render(content, base_path),
        1,
    )
}

fn config(base_path: Option<&str>) -> Config {
    Config::assemble(
        "project",
        "My project",
        None,
        None,
        base_path.map(|b| b.to_string()),
        None,
        None,
    )
    .unwrap()
}

fn inputs() -> BuildInputs {
    BuildInputs {
        page_template: String::new(),
        navigation_template: String::new(),
        nested_navigation_template: String::new(),
        style_template: String::new(),
        assets: Vec::new(),
        includes: Vec::new(),
        head_include: None,
        theme_main: String::new(),
        theme_main_dark: String::new(),
        timestamp: String::from("0"),
    }
}

#[test]
fn detects_broken_links() {
    let config = config(None);

    let root = Directory {
        path: config.docs_dir().clone(),
        docs: vec![page(
            "README.md",
            "Getting Started",
            "[highway to hell](/dont-exist)",
        )],
        dirs: vec![],
    };

    let mut site = Site::with_root(root, config);
    site.build(&inputs()).unwrap();

    assert!(run(&site).is_err());
}

#[test]
fn is_fine_if_no_broken_links_exist() {
    let config = config(None);

    let root = Directory {
        path: config.docs_dir().clone(),
        docs: vec![
            page("README.md", "Getting Started", "[highway to hell](/other)"),
            page("other.md", "Getting Started", "No links!"),
        ],
        dirs: vec![],
    };

    let mut site = Site::with_root(root, config);
    site.build(&inputs()).unwrap();
    let result = run(&site);

    println!("{:?}", result);

    assert!(result.is_ok());
}

#[test]
fn does_not_mind_if_the_url_has_an_html_extension() {
    let config = config(None);

    let root = Directory {
        path: config.docs_dir().clone(),
        docs: vec![
            page(
                "README.md",
                "Getting Started",
                "[highway to hell](/other.html)",
            ),
            page("other.md", "Getting Started", "No links!"),
        ],
        dirs: vec![],
    };

    let mut site = Site::with_root(root, config);
    site.build(&inputs()).unwrap();
    let result = run(&site);

    println!("{:?}", result);

    assert!(result.is_ok());
}

#[test]
fn handles_files_in_subdirectories() {
    let config = config(None);

    let root = Directory {
        path: config.docs_dir().clone(),
        docs: vec![
            page(
                "README.md",
                "Getting Started",
                "[I'm on a](/nested/)\n[highway to hell](/nested/other.html)",
            ),
            page("other.md", "Getting Started", "No links!"),
        ],
        dirs: vec![Directory {
            path: format!("{}/nested", config.docs_dir()),
            docs: vec![
                page("nested/README.md", "Nested", "Content"),
                page("nested/other.md", "Nested Child", "No links!"),
            ],
            dirs: vec![],
        }],
    };

    let mut site = Site::with_root(root, config);
    site.build(&inputs()).unwrap();
    let result = run(&site);

    println!("{:?}", result);

    assert!(result.is_ok());
}

#[test]
fn honors_a_different_base_path() {
    let config = config(Some("/not_docs"));

    let root = Directory {
        path: config.docs_dir().clone(),
        docs: vec![
            page_with_base_path(
                "README.md",
                "Getting Started",
                "[I'm on a](/nested/)\n[highway to hell](/nested/other.html)",
                "/not_docs",
            ),
            page_with_base_path("other.md", "Getting Started", "No links!", "/not_docs"),
        ],
        dirs: vec![Directory {
            path: format!("{}/nested", config.docs_dir()),
            docs: vec![
                page_with_base_path("nested/README.md", "Nested", "Content", "/not_docs"),
                page_with_base_path("nested/other.md", "Nested Child", "No links!", "/not_docs"),
            ],
            dirs: vec![],
        }],
    };

    let mut site = Site::with_root(root, config);
    site.build(&inputs()).unwrap();
    let result = run(&site);

    println!("{:?}", result);

    assert!(result.is_ok());
}

#[test]
fn does_not_care_about_anchor_tags_in_paths() {
    let config = config(None);

    let root = Directory {
        path: config.docs_dir().clone(),
        docs: vec![
            page(
                "README.md",
                "Getting Started",
                "[highway to hell](/other#heading-1)",
            ),
            page("other.md", "Getting Started", "# Heading"),
        ],
        dirs: vec![],
    };

    let mut site = Site::with_root(root, config);
    site.build(&inputs()).unwrap();
    let result = run(&site);

    println!("{:?}", result);

    assert!(result.is_ok());
}

#[test]
fn fragment_and_extension_fallback_resolve() {
    let config = config(None);

    let root = Directory {
        path: config.docs_dir().clone(),
        docs: vec![
            page("README.md", "Getting Started", "[link](/other#heading)"),
            page("other.md", "Other", "No links!"),
        ],
        dirs: vec![],
    };

    let mut site = Site::with_root(root, config);
    site.build(&inputs()).unwrap();

    assert!(run(&site).is_ok());
}

#[test]
fn reports_exactly_one_broken_link() {
    let config = config(None);

    let root = Directory {
        path: config.docs_dir().clone(),
        docs: vec![page(
            "README.md",
            "Getting Started",
            "[nowhere](/does-not-exist)",
        )],
        dirs: vec![],
    };

    let mut site = Site::with_root(root, config);
    site.build(&inputs()).unwrap();

    let err = run(&site).unwrap_err();
    match err.kind() {
        ErrorKind::BrokenLinks(list) => {
            assert_eq!(list.len(), 1);
            assert_eq!(list[0].0, "README.md");
            match &list[0].1.url {
                UrlType::Local(p) => assert_eq!(p, "/does-not-exist"),
                UrlType::Remote(_) => panic!("expected a local link"),
            }
        }
        _ => panic!("expected a broken-links error"),
    }
}
