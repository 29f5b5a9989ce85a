//! The loaded catalog: the configuration it was fetched under, and the
//! scored entries that the ranker orders.  Fetching the bundle, unpacking it
//! and reading the entry files happen outside this crate; a catalog is
//! assembled here from the already-scored entries.
use vstd::prelude::*;
use crate::config::Config;
use crate::template::Template;

verus! {

/// The view of a loaded catalog.
pub ghost struct LakeView {
    pub url: Seq<char>,
    pub hash: Seq<char>,
    pub templates: Seq<Template>,
}

/// A loaded catalog of scored entries.
pub struct Lake {
    config: Config,
    templates: Vec<Template>,
}

impl View for Lake {
    type V = LakeView;

    closed spec fn view(&self) -> LakeView {
        LakeView { url: self.config.url@, hash: self.config.hash@, templates: self.templates@ }
    }
}

impl Lake {
    /// Assemble a catalog from its stored configuration and scored entries.
    pub fn from_parts(config: Config, templates: Vec<Template>) -> (r: Lake)
        ensures
            r@.url == config.url@,
            r@.hash == config.hash@,
            r@.templates == templates@,
    {
        Lake { config, templates }
    }

    /// The content version marker the catalog was fetched at.
    pub fn get_config_hash(&self) -> (r: String)
        ensures
            r@ == self@.hash,
    {
        self.config.hash.clone()
    }

    /// The location the catalog was fetched from.
    pub fn get_config_url(&self) -> (r: String)
        ensures
            r@ == self@.url,
    {
        self.config.url.clone()
    }

    /// The scored entries, in catalog order.
    pub fn templates(&self) -> (r: &Vec<Template>)
        ensures
            r@ == self@.templates,
    {
        &self.templates
    }
}

} // verus!
