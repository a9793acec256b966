//! Site configuration and container definitions, as plain values.
//!
//! The external configuration file is read and deserialized outside the
//! library; the library receives the resulting plain values.
use vstd::prelude::*;

verus! {

/// Site configuration.
pub struct Config {
    /// Site title.
    pub title: String,
    /// Site logo.
    pub logo: String,
    /// Content root: the directory holding the source entries.
    pub entries: String,
    /// Output root: the directory receiving the rendered artifacts.
    pub build: String,
    /// Theme directory holding the page and index templates.
    pub theme: String,
    /// Path of the container-definitions file, if container expansion is
    /// configured at all.
    pub containers: Option<String>,
    /// Whether incremental builds (and cache persistence) are enabled.
    pub incremental: bool,
    /// Path of the persisted build cache.
    pub cache: String,
}

/// How a registered container kind reads arguments from its block body.
#[derive(Clone, Copy)]
pub enum ArgPolicy {
    /// The first `n` body lines, trimmed, are positional arguments; the rest
    /// of the body is the content.
    Positional(usize),
    /// Leading contiguous `key: value` lines form a keyed parameter set,
    /// terminated by a blank line; a non-matching line abandons the
    /// interpretation and the whole body becomes content.
    KeyValue,
}

/// One registered container kind. The external definitions file maps a kind
/// to a template path (and optionally a fixed argument count); the caller
/// resolves the path, so `template` holds the template's text.
pub struct ContainerConfig {
    /// The template text the block expands through.
    pub template: String,
    /// The argument policy this kind uses.
    pub args: ArgPolicy,
}

/// The cache file path used when the configuration names none.
pub fn default_cache_path() -> (r: String)
    ensures
        r@ == ".catalyst-cache.yaml"@,
{
    ".catalyst-cache.yaml".to_owned()
}

/// Incremental builds are on unless the configuration switches them off.
pub fn default_incremental() -> (r: bool)
    ensures
        r == true,
{
    true
}

/// The key-value pairs the template context exposes under `config`.
pub open spec fn site_view(config: &Config) -> Seq<(Seq<char>, Seq<char>)> {
    seq![
        ("title"@, config.title@),
        ("logo"@, config.logo@),
        ("entries"@, config.entries@),
        ("build"@, config.build@),
        ("theme"@, config.theme@),
    ]
}

/// The site configuration as key-value pairs, in the shape the template
/// context exposes under `config`.
pub fn site_pairs(config: &Config) -> (r: Vec<(String, String)>)
    ensures
        r.deep_view() == site_view(config),
{
    let mut r: Vec<(String, String)> = Vec::new();
    r.push(("title".to_owned(), config.title.clone()));
    r.push(("logo".to_owned(), config.logo.clone()));
    r.push(("entries".to_owned(), config.entries.clone()));
    r.push(("build".to_owned(), config.build.clone()));
    r.push(("theme".to_owned(), config.theme.clone()));
    proof {
        assert(r.deep_view() =~= site_view(config));
    }
    r
}

} // verus!
