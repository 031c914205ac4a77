//! Raw provider definitions as the configuration gives them, and the rules
//! that pick a provider's endpoint and credential for one kind of request.
use vstd::prelude::*;
use crate::text::same_text;

verus! {

/// The endpoint and credential of a provider for one kind of request.
#[derive(Debug, Clone)]
pub struct PlatformConfig {
    pub api_url: String,
    pub api_key: String,
}

/// One raw provider entry: per-kind sub-configurations, and a shared
/// endpoint and credential used for any kind that has none.
#[derive(Debug, Clone)]
pub struct Provider {
    pub enabled: bool,
    pub level: i32,
    pub name: Option<String>,
    pub api_url: Option<String>,
    pub api_key: Option<String>,
    pub codex: Option<PlatformConfig>,
    pub anthropic: Option<PlatformConfig>,
}

/// A kind's sub-configuration: one entry or a list of them.
#[derive(Debug, Clone)]
pub enum PlatformConfigList {
    Single(PlatformConfig),
    List(Vec<PlatformConfig>),
}

/// The per-kind form of the configuration: a list of endpoints for each kind.
#[derive(Debug, Clone)]
pub struct ProviderMapConfig {
    pub codex: Option<PlatformConfigList>,
    pub anthropic: Option<PlatformConfigList>,
}

/// The provider configuration: either a list of raw entries, or the per-kind
/// form.
#[derive(Debug, Clone)]
#[allow(inconsistent_fields)]
pub enum ProviderConfig {
    List { providers: Vec<Provider> },
    PerKind { providers: ProviderMapConfig },
}

/// Why a configuration yields no providers.
#[derive(Debug, Clone, Copy, PartialEq, Eq)]
pub enum ProviderConfigError {
    /// The per-kind form names no endpoint at all.
    NoProvidersDefined,
}

/// Whether a text is non-empty.
pub open spec fn filled(s: Seq<char>) -> bool {
    s.len() > 0
}

/// The configuration that a provider has for `kind`: the sub-configuration
/// of that kind if there is one, else the shared endpoint and credential when
/// both are present and non-empty.
pub open spec fn platform_config_of(p: Provider, kind: Seq<char>) -> Option<PlatformConfig> {
    let explicit = if kind == "codex"@ {
        p.codex
    } else if kind == "anthropic"@ {
        p.anthropic
    } else {
        None
    };
    if explicit is Some {
        explicit
    } else if p.api_url is Some && p.api_key is Some && filled(p.api_url.unwrap()@) && filled(p.api_key.unwrap()@) {
        Some(PlatformConfig { api_url: p.api_url.unwrap(), api_key: p.api_key.unwrap() })
    } else {
        None
    }
}

/// A provider entry made of one endpoint for one kind (`codex` when
/// `for_codex`, else `anthropic`).
pub open spec fn single_kind_provider(c: PlatformConfig, for_codex: bool) -> Provider {
    Provider {
        enabled: true,
        level: 0,
        name: None,
        api_url: None,
        api_key: None,
        codex: if for_codex { Some(c) } else { None },
        anthropic: if for_codex { None } else { Some(c) },
    }
}

/// The entries of an optional sub-configuration.
pub open spec fn configs_of(o: Option<PlatformConfigList>) -> Seq<PlatformConfig> {
    match o {
        Some(l) => l.configs(),
        None => Seq::empty(),
    }
}

/// The providers of the per-kind form: one per codex endpoint, then one per
/// anthropic endpoint, in order.
pub open spec fn map_providers(m: ProviderMapConfig) -> Seq<Provider> {
    configs_of(m.codex).map_values(|c: PlatformConfig| single_kind_provider(c, true))
        + configs_of(m.anthropic).map_values(|c: PlatformConfig| single_kind_provider(c, false))
}

/// The providers a configuration yields, or why it yields none.
pub open spec fn providers_of(c: ProviderConfig) -> Result<Seq<Provider>, ProviderConfigError> {
    match c {
        ProviderConfig::List { providers } => Ok(providers@),
        ProviderConfig::PerKind { providers } => {
            if map_providers(providers).len() == 0 {
                Err(ProviderConfigError::NoProvidersDefined)
            } else {
                Ok(map_providers(providers))
            }
        },
    }
}

impl PlatformConfig {
    /// A field-by-field copy.
    pub fn duplicate(&self) -> (r: PlatformConfig)
        ensures
            r == *self,
    {
        PlatformConfig { api_url: self.api_url.clone(), api_key: self.api_key.clone() }
    }
}

fn duplicate_opt(o: &Option<PlatformConfig>) -> (r: Option<PlatformConfig>)
    ensures
        r == *o,
{
    match o {
        Some(c) => Some(c.duplicate()),
        None => None,
    }
}

impl Provider {
    /// The configuration this provider has for `kind`; see
    /// `platform_config_of`.
    pub fn get_platform_config(&self, kind: &str) -> (r: Option<PlatformConfig>)
        ensures
            r == platform_config_of(*self, kind@),
    {
        let platform_config = if same_text(kind, "codex") {
            duplicate_opt(&self.codex)
        } else if same_text(kind, "anthropic") {
            duplicate_opt(&self.anthropic)
        } else {
            None
        };
        if platform_config.is_some() {
            return platform_config;
        }
        match (&self.api_url, &self.api_key) {
            (Some(url), Some(key)) => {
                if !url.as_str().is_empty() && !key.as_str().is_empty() {
                    Some(PlatformConfig { api_url: url.clone(), api_key: key.clone() })
                } else {
                    None
                }
            },
            _ => None,
        }
    }
}

/// Whether a provider entry is enabled when the configuration does not say.
pub fn default_enabled() -> (r: bool)
    ensures
        r,
{
    true
}

impl PlatformConfigList {
    /// The entries, in order.
    pub open spec fn configs(self) -> Seq<PlatformConfig> {
        match self {
            PlatformConfigList::Single(c) => seq![c],
            PlatformConfigList::List(l) => l@,
        }
    }

    /// The entries, in order.
    pub fn into_vec(self) -> (r: Vec<PlatformConfig>)
        ensures
            r@ == self.configs(),
    {
        match self {
            PlatformConfigList::Single(cfg) => {
                let mut v: Vec<PlatformConfig> = Vec::new();
                v.push(cfg);
                assert(v@ =~= seq![cfg]);
                v
            },
            PlatformConfigList::List(list) => list,
        }
    }
}

/// Appends one single-kind provider per entry of `list`.
fn push_single_kind(out: &mut Vec<Provider>, list: Option<PlatformConfigList>, for_codex: bool)
    ensures
        final(out)@ == old(out)@ + configs_of(list).map_values(|c: PlatformConfig| single_kind_provider(c, for_codex)),
{
    let ghost start = out@;
    let configs = match list {
        Some(l) => l.into_vec(),
        None => Vec::new(),
    };
    assert(configs@ == configs_of(list));
    let mut i: usize = 0;
    while i < configs.len()
        invariant
            i <= configs@.len(),
            configs@ == configs_of(list),
            out@ == start + configs@.subrange(0, i as int).map_values(|c: PlatformConfig| single_kind_provider(c, for_codex)),
        decreases configs@.len() - i,
    {
        let cfg = configs[i].duplicate();
        let p = Provider {
            enabled: default_enabled(),
            level: 0,
            name: None,
            api_url: None,
            api_key: None,
            codex: if for_codex { Some(cfg.duplicate()) } else { None },
            anthropic: if for_codex { None } else { Some(cfg) },
        };
        out.push(p);
        i += 1;
        assert(configs@.subrange(0, i as int).map_values(|c: PlatformConfig| single_kind_provider(c, for_codex))
            =~= configs@.subrange(0, i - 1).map_values(|c: PlatformConfig| single_kind_provider(c, for_codex)).push(
            single_kind_provider(configs@[i - 1], for_codex)));
    }
    assert(configs@.subrange(0, i as int) =~= configs@);
}

impl ProviderConfig {
    /// The provider entries of this configuration: the list as it stands, or
    /// the per-kind form flattened (codex endpoints first, then anthropic ones,
    /// each as an enabled entry of level 0). The per-kind form with no
    /// endpoint at all is an error.
    pub fn into_providers(self) -> (r: Result<Vec<Provider>, ProviderConfigError>)
        ensures
            match (r, providers_of(self)) {
                (Ok(v), Ok(s)) => v@ == s,
                (Err(e), Err(f)) => e == f,
                _ => false,
            },
    {
        match self {
            ProviderConfig::List { providers } => Ok(providers),
            ProviderConfig::PerKind { providers } => {
                let mut flattened: Vec<Provider> = Vec::new();
                push_single_kind(&mut flattened, providers.codex, true);
                push_single_kind(&mut flattened, providers.anthropic, false);
                assert(flattened@ =~= map_providers(providers));
                if flattened.len() == 0 {
                    Err(ProviderConfigError::NoProvidersDefined)
                } else {
                    Ok(flattened)
                }
            },
        }
    }
}

} // verus!
