//! Resolved providers: the flat, ordered list of (kind, endpoint,
//! credential) records that requests are routed over.
use vstd::prelude::*;
use crate::affinity::opt_view;
use crate::provider::{filled, platform_config_of, Provider};
use crate::text::same_text;

verus! {

/// A ready-to-call endpoint and credential for one kind of request.
#[derive(Debug, Clone)]
pub struct ResolvedProvider {
    pub kind: String,
    pub api_url: String,
    pub api_key: String,
    pub name: Option<String>,
    pub level: i32,
}

/// The mathematical value of a resolved provider.
pub struct ResolvedView {
    pub kind: Seq<char>,
    pub api_url: Seq<char>,
    pub api_key: Seq<char>,
    pub name: Option<Seq<char>>,
    pub level: i32,
}

impl View for ResolvedProvider {
    type V = ResolvedView;

    open spec fn view(&self) -> ResolvedView {
        ResolvedView {
            kind: self.kind@,
            api_url: self.api_url@,
            api_key: self.api_key@,
            name: opt_view(self.name),
            level: self.level,
        }
    }
}

/// The views of a list of resolved providers.
pub open spec fn views(s: Seq<ResolvedProvider>) -> Seq<ResolvedView> {
    s.map_values(|p: ResolvedProvider| p@)
}

/// What a provider resolves to for one kind: one record when it has a
/// configuration for that kind with a non-empty endpoint and credential.
pub open spec fn resolved_for(p: Provider, kind: Seq<char>) -> Seq<ResolvedView> {
    match platform_config_of(p, kind) {
        Some(c) => if filled(c.api_url@) && filled(c.api_key@) {
            seq![ResolvedView { kind, api_url: c.api_url@, api_key: c.api_key@, name: opt_view(p.name), level: p.level }]
        } else {
            Seq::empty()
        },
        None => Seq::empty(),
    }
}

/// What a provider resolves to: nothing when disabled, else its codex record
/// then its anthropic record, where present.
pub open spec fn resolved_of(p: Provider) -> Seq<ResolvedView> {
    if p.enabled {
        resolved_for(p, "codex"@) + resolved_for(p, "anthropic"@)
    } else {
        Seq::empty()
    }
}

/// The flattening of a provider list, in configuration order.
pub open spec fn flatten_spec(ps: Seq<Provider>) -> Seq<ResolvedView>
    decreases ps.len(),
{
    if ps.len() == 0 {
        Seq::empty()
    } else {
        flatten_spec(ps.drop_last()) + resolved_of(ps.last())
    }
}

/// The identity of a provider: `{kind}::{endpoint}`.
pub open spec fn id_of(p: ResolvedView) -> Seq<char> {
    p.kind + "::"@ + p.api_url
}

/// How logs name a provider: `{name} ({endpoint})` when it has a non-empty
/// name, else its endpoint.
pub open spec fn label_of(p: ResolvedView) -> Seq<char> {
    match p.name {
        Some(n) => if filled(n) {
            n + " ("@ + p.api_url + ")"@
        } else {
            p.api_url
        },
        None => p.api_url,
    }
}

/// The providers of one kind, in registry order.
pub open spec fn of_kind(s: Seq<ResolvedView>, kind: Seq<char>) -> Seq<ResolvedView>
    decreases s.len(),
{
    if s.len() == 0 {
        Seq::empty()
    } else {
        of_kind(s.drop_last(), kind) + (if s.last().kind == kind { seq![s.last()] } else { Seq::empty() })
    }
}

impl ResolvedProvider {
    /// A field-by-field copy.
    pub fn duplicate(&self) -> (r: ResolvedProvider)
        ensures
            r@ == self@,
    {
        ResolvedProvider {
            kind: self.kind.clone(),
            api_url: self.api_url.clone(),
            api_key: self.api_key.clone(),
            name: match &self.name {
                Some(n) => Some(n.clone()),
                None => None,
            },
            level: self.level,
        }
    }
}

fn push_resolved(out: &mut Vec<ResolvedProvider>, p: &Provider, kind: &str)
    ensures
        views(final(out)@) == views(old(out)@) + resolved_for(*p, kind@),
{
    let ghost start = out@;
    if let Some(config) = p.get_platform_config(kind) {
        if !config.api_url.as_str().is_empty() && !config.api_key.as_str().is_empty() {
            let name = match &p.name {
                Some(n) => Some(n.clone()),
                None => None,
            };
            out.push(ResolvedProvider {
                kind: String::from_str(kind),
                api_url: config.api_url,
                api_key: config.api_key,
                name,
                level: p.level,
            });
            assert(views(out@) =~= views(start) + resolved_for(*p, kind@));
            return;
        }
    }
    assert(views(out@) =~= views(start) + resolved_for(*p, kind@));
}

/// The resolved providers of a provider list: for each enabled entry in
/// order, its codex record then its anthropic record, where it has a
/// configuration for the kind with a non-empty endpoint and credential.
pub fn flatten_providers(providers: Vec<Provider>) -> (r: Vec<ResolvedProvider>)
    ensures
        views(r@) == flatten_spec(providers@),
{
    let mut resolved: Vec<ResolvedProvider> = Vec::new();
    let mut i: usize = 0;
    while i < providers.len()
        invariant
            i <= providers@.len(),
            views(resolved@) == flatten_spec(providers@.subrange(0, i as int)),
        decreases providers@.len() - i,
    {
        let provider = &providers[i];
        let ghost before = views(resolved@);
        if provider.enabled {
            push_resolved(&mut resolved, provider, "codex");
            push_resolved(&mut resolved, provider, "anthropic");
        }
        proof {
            let pre = providers@.subrange(0, i + 1);
            assert(pre.drop_last() =~= providers@.subrange(0, i as int));
            assert(views(resolved@) =~= before + resolved_of(providers@[i as int]));
        }
        i += 1;
    }
    assert(providers@.subrange(0, i as int) =~= providers@);
    resolved
}

/// The identity of a provider: `{kind}::{endpoint}`. It stays the same
/// across reloads as long as the endpoint does.
pub fn provider_id(provider: &ResolvedProvider) -> (r: String)
    ensures
        r@ == id_of(provider@),
{
    let mut r = provider.kind.clone();
    r.append("::");
    r.append(provider.api_url.as_str());
    r
}

/// How logs name a provider; see `label_of`.
pub fn provider_label(provider: &ResolvedProvider) -> (r: String)
    ensures
        r@ == label_of(provider@),
{
    match &provider.name {
        Some(n) => {
            if !n.as_str().is_empty() {
                let mut r = n.clone();
                r.append(" (");
                r.append(provider.api_url.as_str());
                r.append(")");
                return r;
            }
            provider.api_url.clone()
        },
        None => provider.api_url.clone(),
    }
}

/// A copy of the providers of one kind, in registry order.
pub fn providers_for_kind(providers: &Vec<ResolvedProvider>, kind: &str) -> (r: Vec<ResolvedProvider>)
    ensures
        views(r@) == of_kind(views(providers@), kind@),
{
    let mut out: Vec<ResolvedProvider> = Vec::new();
    let mut i: usize = 0;
    while i < providers.len()
        invariant
            i <= providers@.len(),
            views(out@) == of_kind(views(providers@.subrange(0, i as int)), kind@),
        decreases providers@.len() - i,
    {
        let ghost before = views(out@);
        let p = &providers[i];
        if same_text(p.kind.as_str(), kind) {
            out.push(p.duplicate());
        }
        proof {
            let pre = views(providers@.subrange(0, i + 1));
            assert(pre.drop_last() =~= views(providers@.subrange(0, i as int)));
            assert(pre.last() == providers@[i as int]@);
            assert(views(out@) =~= of_kind(pre, kind@));
        }
        i += 1;
    }
    assert(providers@.subrange(0, i as int) =~= providers@);
    out
}

} // verus!
