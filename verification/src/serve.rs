//! The development-server orchestration decisions: which port to serve
//! on, and the rebuild step run for every settled filesystem change. The
//! threads, sockets and watcher around them live outside the model and
//! drive these functions.

use crate::config::Config;
use crate::document::{tree_indexed, Directory};
use crate::error::Error;
use crate::generator::{
    nav_ok, spec_build_fails, spec_build_ok, spec_built_map, BuildInputs,
};
use crate::navigation::Link;
use crate::site::{Site, SiteBackend};
use vstd::prelude::*;

verus! {

/// The development-server command.
pub struct ServeCommand {}

/// Its options: an optional port overriding the configured one.
#[derive(Debug, Default)]
pub struct ServeOptions {
    pub port: Option<u32>,
}

impl ServeCommand {
    /// The port the development server listens on: the explicit option
    /// when one was given, the configured port otherwise.
    pub fn effective_port(options: &ServeOptions, config: &Config) -> (r: u32)
        ensures
            r == (match options.port {
                Some(p) => p,
                None => config.port,
            }),
    {
        match options.port {
            Some(p) => p,
            None => config.port,
        }
    }

    /// One turn of the dev loop, run after a settled filesystem change:
    /// swap in the freshly ingested tree, rebuild the whole artifact set,
    /// and report the broken links of the new generation. The first error
    /// of the rebuild comes back in the first slot; the link report in
    /// the second.
    pub fn rebuild_step<B: SiteBackend>(
        site: &mut Site<B>,
        root: Directory,
        inputs: &BuildInputs,
    ) -> (r: (Result<(), Error>, Option<Error>))
        requires
            old(site).backend.spec_out_dir() == old(site).config.out_dir@,
            tree_indexed(root),
        ensures
            final(site).config == old(site).config,
            final(site).backend.site_root() == root,
            r.0 is Ok ==> exists|nav: Seq<Link>|
                {
                    &&& #[trigger] nav_ok(root, old(site).config, nav)
                    &&& spec_build_ok(root, nav, old(site).config, *inputs)
                    &&& final(site).backend.artifacts() == spec_built_map(
                        root,
                        nav,
                        old(site).config,
                        *inputs,
                    )
                },
            r.0 is Ok ==> (r.1 is None <==> crate::checker::broken_in_tree(
                root,
                final(site).backend.artifacts(),
                final(site).config.base_path@,
            ).len() == 0),
            r.0 is Err ==> r.1 is None && spec_build_fails(root, old(site).config, *inputs),
    {
        match site.rebuild(root, inputs) {
            Ok(_) => {
                match site.check_dead_links() {
                    Ok(_) => (Ok(()), None),
                    Err(e) => (Ok(()), Some(e)),
                }
            },
            Err(e) => (Err(e), None),
        }
    }
}

} // verus!
