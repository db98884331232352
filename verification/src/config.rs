//! The small config file kept in the data root, read at startup: where the
//! culling catalog lives when the user moved it.
use vstd::prelude::*;

use crate::library::{plain_component, plain_root};
use crate::naming::{join, path_join};

verus! {

/// The app's config.
#[derive(Debug)]
pub struct Config {
    /// Absolute path to the catalog file; `None` means the default one in
    /// the data root.
    pub catalog_path: Option<String>,
}

impl Default for Config {
    fn default() -> (c: Config)
        ensures
            c.catalog_path is None,
    {
        Config { catalog_path: None }
    }
}

/// The config file of a data root.
pub fn config_file(data_root: &str, windows: bool) -> (p: String)
    ensures
        p@ == path_join(data_root@, "config.json"@, windows),
{
    join(data_root, "config.json", windows)
}

/// The catalog to open at startup: the configured one when its folder still
/// exists (`parent_is_dir`), else `catalog.sqlite` in the data root.
pub fn startup_catalog(data_root: &str, cfg: &Config, parent_is_dir: bool, windows: bool) -> (p: String)
    ensures
        p@ == (match cfg.catalog_path {
            Some(c) if parent_is_dir => c@,
            _ => path_join(data_root@, "catalog.sqlite"@, windows),
        }),
{
    match &cfg.catalog_path {
        Some(c) => {
            if parent_is_dir {
                return c.clone();
            }
        },
        None => {},
    }
    join(data_root, "catalog.sqlite", windows)
}

/// `p` is the plain component `name` below the plain root `dir`.
pub open spec fn named_below(dir: Seq<char>, p: Seq<char>, name: Seq<char>) -> bool {
    plain_root(dir) && plain_component(name) && p == path_join(dir, name, false)
}

/// Where `p` is a plain component below a plain root, the parent is that
/// root.
pub open spec fn parent_below(p: Seq<char>, parent: Option<Seq<char>>) -> bool {
    forall|dir: Seq<char>, name: Seq<char>| #[trigger] named_below(dir, p, name) ==> parent == Some(dir)
}

/// `Path::parent` of a path, as a (lossily decoded) string.
///
/// Trusted, as the documentation and the component rules of both Unix and
/// Windows give it: for a plain component below a plain root, the parent is
/// that root. Other paths (prefixes, `.` or `..` components, repeated
/// separators) are left to the platform's path rules, unsaid.
#[verifier::external_body]
fn path_parent(p: &str) -> (parent: Option<String>)
    ensures
        parent_below(p@, crate::listing::opt_view(parent)),
{
    std::path::Path::new(p).parent().map(|d| d.to_string_lossy().to_string())
}

/// `<parent>/thumbs`, or `thumbs` when there is no parent.
pub open spec fn cache_dir_of(parent: Option<Seq<char>>, windows: bool) -> Seq<char> {
    match parent {
        Some(p) => path_join(p, "thumbs"@, windows),
        None => "thumbs"@,
    }
}

/// The thumbnail cache beside a catalog whose folder is `parent`.
pub fn cache_dir_in(parent: Option<String>, windows: bool) -> (d: String)
    ensures
        d@ == cache_dir_of(crate::listing::opt_view(parent), windows),
{
    match parent {
        Some(p) => join(p.as_str(), "thumbs", windows),
        None => "thumbs".to_string(),
    }
}

/// `<catalogDir>/thumbs`: the cache lives beside whatever catalog file is in
/// use. For a plain file name below a plain folder, that folder; otherwise
/// the platform's path rules decide which folder it is.
pub fn cache_dir_for(catalog_path: &str, windows: bool) -> (d: String)
    ensures
        forall|dir: Seq<char>, name: Seq<char>|
            #[trigger] named_below(dir, catalog_path@, name) ==> d@ == path_join(dir, "thumbs"@, windows),
        exists|parent: Option<Seq<char>>| d@ == cache_dir_of(parent, windows),
{
    let parent = path_parent(catalog_path);
    let ghost pv = crate::listing::opt_view(parent);
    let d = cache_dir_in(parent, windows);
    assert(d@ == cache_dir_of(pv, windows));
    d
}

} // verus!
