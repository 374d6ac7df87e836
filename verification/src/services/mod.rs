//! The services panel's data layer: `manifest` is what the operator
//! declared, `probe` judges what is actually happening.
pub mod manifest;
pub mod probe;

use vstd::prelude::*;
use crate::services::manifest::{ServiceDef, ServiceModel, service_models, copy_services};
use crate::text::{push_str};

verus! {

/// The manifest, re-read on demand but remembered until the file's
/// modification time moves: editing it and reloading the page shows the
/// change, without parsing on every request.
pub struct ManifestSource {
    path: String,
    /// Modification time (ns since the epoch) and the definitions read then.
    cache: Option<(i128, Vec<ServiceDef>)>,
}

impl ManifestSource {
    pub closed spec fn path_view(&self) -> Seq<char> {
        self.path@
    }

    pub closed spec fn cache_view(&self) -> Option<(i128, Seq<ServiceModel>)> {
        match self.cache {
            Some(c) => Some((c.0, service_models(c.1@))),
            None => None,
        }
    }

    pub fn new(path: String) -> (s: ManifestSource)
        ensures
            s.path_view() == path@,
            s.cache_view() is None,
    {
        ManifestSource { path, cache: None }
    }

    /// Where the manifest is read from.
    pub fn path(&self) -> (p: &str)
        ensures
            p@ == self.path_view(),
    {
        self.path.as_str()
    }

    /// The definitions remembered for a file last modified at `mtime`, if
    /// they were read at that modification time.
    pub fn cached(&self, mtime: i128) -> (r: Option<Vec<ServiceDef>>)
        ensures
            match self.cache_view() {
                Some((at, defs)) => if at == mtime {
                    r is Some && service_models(r->0@) == defs
                } else {
                    r is None
                },
                None => r is None,
            },
    {
        match &self.cache {
            Some((at, defs)) => if *at == mtime {
                Some(copy_services(defs))
            } else {
                None
            },
            None => None,
        }
    }

    /// Remember the definitions read from the file at modification time
    /// `mtime`.
    pub fn remember(&mut self, mtime: i128, defs: &Vec<ServiceDef>)
        ensures
            final(self).cache_view() == Some((mtime, service_models(defs@))),
            final(self).path_view() == old(self).path_view(),
    {
        self.cache = Some((mtime, copy_services(defs)));
    }
}

/// Where the manifest lives when none is configured: inside webtop's own
/// directory under `home`, where the owning stack's installer links it.
pub fn default_manifest_path(home: &str) -> (p: String)
    ensures
        p@ == home@ + "/.webtop/services.json"@,
{
    let mut p = String::new();
    push_str(&mut p, home);
    push_str(&mut p, "/.webtop/services.json");
    p
}

} // verus!
