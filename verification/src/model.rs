//! The configuration: sites (a domain in front of a local upstream) with
//! per-path rules.

use vstd::prelude::*;
use vstd::string::*;

verus! {

/// A site: `domain` served by Caddy in front of `upstream`.
#[derive(Debug, Clone)]
pub struct Site {
    pub id: String,
    pub domain: String,
    pub upstream: String,
    pub enabled: bool,
    pub rules: Vec<Rule>,
}

/// A named upstream a proxy rule can switch to (local, staging, ...).
#[derive(Debug, Clone)]
pub struct ProxyEnvPreset {
    pub name: String,
    pub target: String,
}

/// A per-path rule of a site.
#[derive(Debug, Clone)]
pub enum Rule {
    /// Proxy `path` to `target`.
    Proxy { path: String, target: String, envs: Vec<ProxyEnvPreset> },
    /// Serve `path` from the directory `root`.
    Static { path: String, root: String },
    /// Answer `path` with 404.
    Bypass { path: String },
}

/// All sites.
#[derive(Debug, Clone)]
pub struct Config {
    pub sites: Vec<Site>,
}

impl Default for Config {
    /// No sites.
    fn default() -> (r: Config)
        ensures
            r.sites@.len() == 0,
    {
        Config { sites: Vec::new() }
    }
}

/// The domains of the enabled sites, in order.
pub open spec fn enabled_domains_of(sites: Seq<Site>) -> Seq<Seq<char>>
    decreases sites.len(),
{
    if sites.len() == 0 {
        Seq::empty()
    } else {
        let rest = enabled_domains_of(sites.drop_last());
        if sites.last().enabled {
            rest.push(sites.last().domain@)
        } else {
            rest
        }
    }
}

/// The domain list is the domain of every enabled site, in order, whatever
/// rules the site has, and nothing else.
pub proof fn lemma_enabled_domains_are_enabled_sites(sites: Seq<Site>)
    ensures
        enabled_domains_of(sites) == sites.filter(|s: Site| s.enabled).map_values(
            |s: Site| s.domain@,
        ),
    decreases sites.len(),
{
    reveal(Seq::filter);
    if sites.len() > 0 {
        lemma_enabled_domains_are_enabled_sites(sites.drop_last());
        let f = |s: Site| s.enabled;
        let g = |s: Site| s.domain@;
        let sub = sites.drop_last().filter(f);
        if sites.last().enabled {
            assert(sites.filter(f) == sub.push(sites.last()));
            assert(sub.push(sites.last()).map_values(g) =~= sub.map_values(g).push(
                sites.last().domain@,
            ));
        } else {
            assert(sites.filter(f) == sub);
        }
    }
}

/// The domains that must map to the loopback addresses: those of the enabled
/// sites, in order.
pub fn enabled_domains(config: &Config) -> (r: Vec<String>)
    ensures
        r@.map_values(|d: String| d@) == enabled_domains_of(config.sites@),
{
    let mut r: Vec<String> = Vec::new();
    let mut i: usize = 0;
    while i < config.sites.len()
        invariant
            i <= config.sites.len(),
            r@.map_values(|d: String| d@) == enabled_domains_of(config.sites@.take(i as int)),
        decreases config.sites.len() - i,
    {
        assert(config.sites@.take(i + 1).drop_last() =~= config.sites@.take(i as int));
        assert(config.sites@.take(i + 1).last() == config.sites@[i as int]);
        let site = &config.sites[i];
        if site.enabled {
            let ghost before = r@;
            r.push(String::from_str(site.domain.as_str()));
            assert(r@.map_values(|d: String| d@) =~= before.map_values(|d: String| d@).push(
                site.domain@,
            ));
        }
        i = i + 1;
    }
    assert(config.sites@.take(config.sites.len() as int) =~= config.sites@);
    r
}

} // verus!
