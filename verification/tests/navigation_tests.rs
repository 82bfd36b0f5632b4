use doctave::config::{Config, DirIncludeRule, NavRule};
use doctave::document::{Directory, Document};
use doctave::frontmatter::Frontmatter;
use doctave::markdown::Markdown;
use doctave::navigation::{Link, Navigation};

fn page(path: &str, name: &str, base_path: Option<&str>) -> Document {
    let mut frontmatter = Frontmatter::new();
    frontmatter.insert("title".to_string(), name.to_string());

    Document::new(
        path,
        "Not important".to_string(),
        frontmatter,
        base_path.unwrap_or("/"),
        Markdown::empty(),
        1,
    )
}

fn config(base_path: Option<&str>) -> Config {
    Config::assemble(
        "project",
        "My project",
        None,
        None,
        base_path.map(|b| b.to_string()),
        None,
        None,
    )
    .unwrap()
}

#[test]
fn basic() {
    let config = config(None);
    let root = Directory {
        path: String::from("docs"),
        docs: vec![
            page("README.md", "Getting Started", None),
            page("one.md", "One", None),
            page("two.md", "Two", None),
        ],
        dirs: vec![Directory {
            path: String::from("docs/child"),
            docs: vec![
                page("child/README.md", "Nested Root", None),
                page("child/three.md", "Three", None),
            ],
            dirs: vec![],
        }],
    };

    let navigation = Navigation::new(&config);

    assert_eq!(
        navigation.build_for(&root).unwrap(),
        vec![
            Link {
                path: String::from("/child"),
                title: String::from("Nested Root"),
                children: vec![Link {
                    path: String::from("/child/three"),
                    title: String::from("Three"),
                    children: vec![]
                }]
            },
            Link {
                path: String::from("/one"),
                title: String::from("One"),
                children: vec![]
            },
            Link {
                path: String::from("/two"),
                title: String::from("Two"),
                children: vec![]
            },
        ]
    )
}

#[test]
fn sorting_alphanumerically() {
    let config = config(None);
    let root = Directory {
        path: String::from("docs"),
        docs: vec![
            page("README.md", "Getting Started", None),
            page("001.md", "bb", None),
            page("002.md", "11", None),
        ],
        dirs: vec![
            Directory {
                path: String::from("docs/bb_child"),
                docs: vec![
                    page("child/README.md", "Index", None),
                    page("child/001.md", "BB", None),
                    page("child/002.md", "22", None),
                    page("child/003.md", "AA", None),
                    page("child/004.md", "11", None),
                ],
                dirs: vec![],
            },
            Directory {
                path: String::from("docs/aa_child"),
                docs: vec![
                    page("child2/README.md", "Index", None),
                    page("child2/001.md", "123", None),
                    page("child2/002.md", "aa", None),
                    page("child2/003.md", "cc", None),
                    page("child2/004.md", "bb", None),
                ],
                dirs: vec![],
            },
        ],
    };

    let navigation = Navigation::new(&config);

    assert_eq!(
        navigation.build_for(&root).unwrap(),
        vec![
            Link {
                path: String::from("/002"),
                title: String::from("11"),
                children: vec![],
            },
            Link {
                path: String::from("/child"),
                title: String::from("Index"),
                children: vec![
                    Link {
                        path: String::from("/child/004"),
                        title: String::from("11"),
                        children: vec![],
                    },
                    Link {
                        path: String::from("/child/002"),
                        title: String::from("22"),
                        children: vec![],
                    },
                    Link {
                        path: String::from("/child/003"),
                        title: String::from("AA"),
                        children: vec![],
                    },
                    Link {
                        path: String::from("/child/001"),
                        title: String::from("BB"),
                        children: vec![],
                    },
                ]
            },
            Link {
                path: String::from("/child2"),
                title: String::from("Index"),
                children: vec![
                    Link {
                        path: String::from("/child2/001"),
                        title: String::from("123"),
                        children: vec![]
                    },
                    Link {
                        path: String::from("/child2/002"),
                        title: String::from("aa"),
                        children: vec![]
                    },
                    Link {
                        path: String::from("/child2/004"),
                        title: String::from("bb"),
                        children: vec![]
                    },
                    Link {
                        path: String::from("/child2/003"),
                        title: String::from("cc"),
                        children: vec![]
                    },
                ]
            },
            Link {
                path: String::from("/001"),
                title: String::from("bb"),
                children: vec![],
            },
        ],
    )
}

#[test]
fn manual_menu_simple() {
    let root = Directory {
        path: String::from("docs"),
        docs: vec![
            page("README.md", "Getting Started", None),
            page("one.md", "One", None),
            page("two.md", "Two", None),
        ],
        dirs: vec![Directory {
            path: String::from("docs/child"),
            docs: vec![
                page("child/README.md", "Nested Root", None),
                page("child/three.md", "Three", None),
            ],
            dirs: vec![],
        }],
    };

    let rules = vec![
        NavRule::File(String::from("docs/one.md")),
        NavRule::Dir(String::from("docs/child"), Some(DirIncludeRule::WildCard)),
    ];

    let config = config(None);
    let navigation = Navigation::new(&config);
    let links: Vec<Link> = root.links();

    assert_eq!(
        navigation.customize(&rules, &links).unwrap(),
        vec![
            Link {
                path: String::from("/one"),
                title: String::from("One"),
                children: vec![],
            },
            Link {
                path: String::from("/child"),
                title: String::from("Nested Root"),
                children: vec![Link {
                    path: String::from("/child/three"),
                    title: String::from("Three"),
                    children: vec![],
                },],
            },
        ]
    )
}

#[test]
fn manual_menu_nested() {
    let root = Directory {
        path: String::from("docs"),
        docs: vec![
            page("README.md", "Getting Started", None),
            page("one.md", "One", None),
            page("two.md", "Two", None),
        ],
        dirs: vec![Directory {
            path: String::from("docs/child"),
            docs: vec![
                page("child/README.md", "Nested Root", None),
                page("child/three.md", "Three", None),
            ],
            dirs: vec![Directory {
                path: String::from("docs/child/nested"),
                docs: vec![
                    page("child/nested/README.md", "Nested Root", None),
                    page("child/nested/four.md", "Four", None),
                ],
                dirs: vec![],
            }],
        }],
    };

    let rules = vec![
        NavRule::File(String::from("docs/one.md")),
        NavRule::Dir(
            String::from("docs/child"),
            Some(DirIncludeRule::Explicit(vec![NavRule::Dir(
                String::from("docs/child/nested"),
                Some(DirIncludeRule::Explicit(vec![NavRule::File(String::from(
                    "docs/child/nested/four.md",
                ))])),
            )])),
        ),
    ];

    let config = config(None);
    let navigation = Navigation::new(&config);
    let links: Vec<Link> = root.links();

    assert_eq!(
        navigation.customize(&rules, &links).unwrap(),
        vec![
            Link {
                path: String::from("/one"),
                title: String::from("One"),
                children: vec![]
            },
            Link {
                path: String::from("/child"),
                title: String::from("Nested Root"),
                children: vec![Link {
                    path: String::from("/child/nested"),
                    title: String::from("Nested Root"),
                    children: vec![Link {
                        path: String::from("/child/nested/four"),
                        title: String::from("Four"),
                        children: vec![]
                    },]
                }]
            }
        ]
    );
}

#[test]
fn manual_menu_file_from_nested_directory() {
    let root = Directory {
        path: String::from("docs"),
        docs: vec![page("README.md", "Getting Started", None)],
        dirs: vec![Directory {
            path: String::from("docs/child"),
            docs: vec![
                page("child/README.md", "Nested Root", None),
                page("child/three.md", "Three", None),
            ],
            dirs: vec![],
        }],
    };

    let rules = vec![NavRule::File(String::from("docs/child/three.md"))];

    let config = config(None);
    let navigation = Navigation::new(&config);
    let links: Vec<Link> = root.links();

    assert_eq!(
        navigation.customize(&rules, &links).unwrap(),
        vec![Link {
            path: String::from("/child/three"),
            title: String::from("Three"),
            children: vec![]
        },]
    );
}

#[test]
fn manual_menu_file_from_parent_directory() {
    let root = Directory {
        path: String::from("docs"),
        docs: vec![
            page("README.md", "Getting Started", None),
            page("one.md", "One", None),
        ],
        dirs: vec![Directory {
            path: String::from("docs/child"),
            docs: vec![page("child/README.md", "Nested Root", None)],
            dirs: vec![],
        }],
    };

    let rules = vec![NavRule::Dir(
        String::from("docs/child"),
        Some(DirIncludeRule::Explicit(vec![NavRule::File(String::from(
            "docs/one.md",
        ))])),
    )];

    let config = config(None);
    let navigation = Navigation::new(&config);
    let links: Vec<Link> = root.links();

    assert_eq!(
        navigation.customize(&rules, &links).unwrap(),
        vec![Link {
            path: String::from("/child"),
            title: String::from("Nested Root"),
            children: vec![Link {
                path: String::from("/one"),
                title: String::from("One"),
                children: vec![],
            }]
        },]
    );
}

#[test]
fn build_with_base_path() {
    let config = config(Some("/example"));

    let root = Directory {
        path: String::from("docs"),
        docs: vec![
            page("README.md", "Getting Started", Some(config.base_path())),
            page("one.md", "One", Some(config.base_path())),
            page("two.md", "Two", Some(config.base_path())),
        ],
        dirs: vec![Directory {
            path: String::from("docs/child"),
            docs: vec![
                page("child/README.md", "Nested Root", Some(config.base_path())),
                page("child/three.md", "Three", Some(config.base_path())),
            ],
            dirs: vec![],
        }],
    };

    let navigation = Navigation::new(&config);

    assert_eq!(
        navigation.build_for(&root).unwrap(),
        vec![
            Link {
                path: String::from("/example/child"),
                title: String::from("Nested Root"),
                children: vec![Link {
                    path: String::from("/example/child/three"),
                    title: String::from("Three"),
                    children: vec![],
                },],
            },
            Link {
                path: String::from("/example/one"),
                title: String::from("One"),
                children: vec![],
            },
            Link {
                path: String::from("/example/two"),
                title: String::from("Two"),
                children: vec![],
            },
        ]
    )
}

#[test]
fn path_to_uri_strips_extension_and_collapses_index() {
    assert_eq!(Link::path_to_uri("a/b/c.html"), "a/b/c");
    assert_eq!(Link::path_to_uri("a/b/index.html"), "a/b");
    assert_eq!(Link::path_to_uri("index.html"), "");
    assert_eq!(Link::path_to_uri_with_extension("logo.png"), "logo.png");
}
