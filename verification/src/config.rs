//! Project configuration: the validated, plain-valued inputs the compiler
//! works from. Reading and validating the on-disk YAML configuration is a
//! collaborator's job; this module holds the assembled result and the
//! navigation override rules.

use crate::error::Error;
use crate::paths::{join, spec_join};
use crate::site::BuildMode;
use crate::strutil::{concat2, str_eq};
use vstd::prelude::*;

verus! {

/// One authored navigation override rule: include a single file's page, or
/// a directory with the stated policy for its children.
#[derive(Debug)]
pub enum NavRule {
    File(String),
    Dir(String, Option<DirIncludeRule>),
}

/// How an included directory's children are chosen: all of them, or
/// exactly the ones named by nested rules.
#[derive(Debug)]
pub enum DirIncludeRule {
    WildCard,
    Explicit(Vec<NavRule>),
}

fn clone_nav_rule(r: &NavRule) -> NavRule
    decreases *r,
{
    match r {
        NavRule::File(p) => NavRule::File(p.clone()),
        NavRule::Dir(p, opt) => NavRule::Dir(
            p.clone(),
            (match opt {
                Some(d) => Some(clone_dir_rule(d)),
                None => None,
            }),
        ),
    }
}

fn clone_dir_rule(d: &DirIncludeRule) -> DirIncludeRule
    decreases *d,
{
    match d {
        DirIncludeRule::WildCard => DirIncludeRule::WildCard,
        DirIncludeRule::Explicit(rules) => DirIncludeRule::Explicit(clone_nav_rules(rules)),
    }
}

fn clone_nav_rules(v: &Vec<NavRule>) -> Vec<NavRule>
    decreases v@,
{
    let mut out: Vec<NavRule> = Vec::new();
    let mut i: usize = 0;
    while i < v.len()
        invariant
            i <= v@.len(),
        decreases v@.len() - i,
    {
        out.push(clone_nav_rule(&v[i]));
        i = i + 1;
    }
    out
}

impl Clone for NavRule {
    fn clone(&self) -> NavRule {
        clone_nav_rule(self)
    }
}

impl Clone for DirIncludeRule {
    fn clone(&self) -> DirIncludeRule {
        clone_dir_rule(self)
    }
}

impl NavRule {
    /// Whether this rule names the docs root's own `README.md`, the page
    /// every site gets by default.
    pub fn is_default_readme_rule(&self, root_dir: &str, docs_dir: &str) -> (r: bool)
        ensures
            r == (match self {
                NavRule::File(p) => spec_join(root_dir@, p@) == spec_join(
                    docs_dir@,
                    "README.md"@,
                ),
                NavRule::Dir(_, _) => false,
            }),
    {
        match self {
            NavRule::File(p) => {
                let mine = join(root_dir, p.as_str());
                let readme = join(docs_dir, "README.md");
                str_eq(mine.as_str(), readme.as_str())
            },
            NavRule::Dir(_, _) => false,
        }
    }
}

/// The assembled project configuration.
#[derive(Debug, Clone)]
pub struct Config {
    pub color: bool,
    pub skip_checks: bool,
    pub project_root: String,
    pub out_dir: String,
    pub docs_dir: String,
    pub base_path: String,
    pub title: String,
    pub logo: Option<String>,
    pub navigation: Option<Vec<NavRule>>,
    pub port: u32,
    pub build_mode: BuildMode,
}

impl Config {
    /// Builds a configuration from already-parsed parts, filling defaults
    /// and normalizing the base path. A base path that is not absolute is
    /// rejected; one that does not end in `/` gets one appended.
    pub fn assemble(
        project_root: &str,
        title: &str,
        port: Option<u32>,
        navigation: Option<Vec<NavRule>>,
        base_path: Option<String>,
        docs_dir: Option<String>,
        logo: Option<String>,
    ) -> (r: Result<Config, Error>)
        ensures
            (match base_path {
                Some(bp) => (bp@.len() > 0 && bp@[0] == '/') == (r is Ok),
                None => r is Ok,
            }),
            r matches Ok(c) ==> {
                &&& c.title@ == title@
                &&& c.project_root@ == project_root@
                &&& c.out_dir@ == spec_join(project_root@, "site"@)
                &&& c.docs_dir@ == (match docs_dir {
                    Some(d) => spec_join(project_root@, d@),
                    None => spec_join(project_root@, "docs"@),
                })
                &&& c.base_path@ == (match base_path {
                    Some(bp) => if bp@.len() > 0 && bp@.last() == '/' {
                        bp@
                    } else {
                        bp@ + "/"@
                    },
                    None => "/"@,
                })
                &&& c.logo == logo
                &&& c.navigation == navigation
                &&& c.port == (match port {
                    Some(p) => p,
                    None => 4001u32,
                })
                &&& c.color == true
                &&& c.skip_checks == false
                &&& c.build_mode == BuildMode::Dev
            },
    {
        let base: String = match base_path {
            Some(bp) => {
                let len = bp.as_str().unicode_len();
                if len == 0 || bp.as_str().get_char(0) != '/' {
                    return Err(Error::new("Base path must be an absolute path"));
                }
                if bp.as_str().get_char(len - 1) == '/' {
                    bp
                } else {
                    concat2(bp.as_str(), "/")
                }
            },
            None => "/".to_owned(),
        };
        let docs: String = match docs_dir {
            Some(d) => join(project_root, d.as_str()),
            None => join(project_root, "docs"),
        };
        Ok(
            Config {
                color: true,
                skip_checks: false,
                project_root: project_root.to_owned(),
                out_dir: join(project_root, "site"),
                docs_dir: docs,
                base_path: base,
                title: title.to_owned(),
                logo,
                navigation,
                port: (match port {
                    Some(p) => p,
                    None => 4001,
                }),
                build_mode: BuildMode::Dev,
            },
        )
    }

    /// The title of the project.
    pub fn title(&self) -> (r: &String)
        ensures
            r@ == self.title@,
    {
        &self.title
    }

    /// The root directory of the project.
    pub fn project_root(&self) -> (r: &String)
        ensures
            r@ == self.project_root@,
    {
        &self.project_root
    }

    /// The directory the HTML is built into.
    pub fn out_dir(&self) -> (r: &String)
        ensures
            r@ == self.out_dir@,
    {
        &self.out_dir
    }

    /// The directory holding the Markdown documentation.
    pub fn docs_dir(&self) -> (r: &String)
        ensures
            r@ == self.docs_dir@,
    {
        &self.docs_dir
    }

    /// The URI prefix the site is served under; starts and ends with `/`.
    pub fn base_path(&self) -> (r: &String)
        ensures
            r@ == self.base_path@,
    {
        &self.base_path
    }

    /// URI path to a logo shown beside the title, if one was configured.
    pub fn logo(&self) -> (r: Option<&String>)
        ensures
            (match r {
                Some(l) => self.logo == Some(*l),
                None => self.logo is None,
            }),
    {
        match &self.logo {
            Some(l) => Some(l),
            None => None,
        }
    }

    /// Rules that set the site navigation structure, if any were authored.
    pub fn navigation(&self) -> (r: Option<&Vec<NavRule>>)
        ensures
            (match r {
                Some(n) => self.navigation == Some(*n),
                None => self.navigation is None,
            }),
    {
        match &self.navigation {
            Some(n) => Some(n),
            None => None,
        }
    }

    /// Port the development server listens on.
    pub fn port(&self) -> (r: u32)
        ensures
            r == self.port,
    {
        self.port
    }

    pub fn color_enabled(&self) -> (r: bool)
        ensures
            r == self.color,
    {
        self.color
    }

    pub fn skip_checks(&self) -> (r: bool)
        ensures
            r == self.skip_checks,
    {
        self.skip_checks
    }

    pub fn disable_colors(&mut self)
        ensures
            *final(self) == (Config { color: false, ..*old(self) }),
    {
        self.color = false
    }

    pub fn disable_checks(&mut self)
        ensures
            *final(self) == (Config { skip_checks: true, ..*old(self) }),
    {
        self.skip_checks = true
    }

    pub fn build_mode(&self) -> (r: BuildMode)
        ensures
            r == self.build_mode,
    {
        self.build_mode
    }

    pub fn set_build_mode(&mut self, mode: BuildMode)
        ensures
            *final(self) == (Config { build_mode: mode, ..*old(self) }),
    {
        self.build_mode = mode;
    }
}

} // verus!
