use vstd::prelude::*;
use crate::error::CoreError;

verus! {

/// The kinds of backend that a provider entry can describe.
#[derive(Clone, Copy, Debug, PartialEq, Eq, Structural)]
pub enum ProviderKind {
    /// An OpenAI-compatible service; needs an API key.
    OpenAi,
    /// A MoFa agent server; the key is optional.
    MoFa,
    /// A DeepInquire service; no client exists for it yet.
    DeepInquire,
}

/// One provider entry of the user's configuration.
pub struct ProviderConfig {
    pub kind: ProviderKind,
    pub url: String,
    pub api_key: Option<String>,
    pub enabled: bool,
}

/// What a backend client is built from.
pub struct ClientConfig {
    pub url: String,
    pub api_key: Option<String>,
}

/// Whether a client is built for the entry at all.
pub open spec fn wants_client(p: ProviderConfig) -> bool {
    match p.kind {
        ProviderKind::OpenAi => p.enabled && p.api_key is Some,
        ProviderKind::MoFa => p.enabled,
        ProviderKind::DeepInquire => false,
    }
}

/// An entry that wants a client but cannot have one: it names no URL.
pub open spec fn is_malformed(p: ProviderConfig) -> bool {
    wants_client(p) && p.url@.len() == 0
}

pub open spec fn client_of(p: ProviderConfig) -> ClientConfig {
    ClientConfig { url: p.url, api_key: p.api_key }
}

/// The clients built for a list of entries, in the entries' order.
pub open spec fn planned(ps: Seq<ProviderConfig>) -> Seq<ClientConfig>
    decreases ps.len(),
{
    if ps.len() == 0 {
        Seq::empty()
    } else {
        let rest = planned(ps.drop_last());
        let p = ps.last();
        if wants_client(p) && !is_malformed(p) {
            rest.push(client_of(p))
        } else {
            rest
        }
    }
}

pub fn copy_key(k: &Option<String>) -> (r: Option<String>)
    ensures
        r == *k,
{
    match k {
        Some(s) => Some(s.clone()),
        None => None,
    }
}

impl ProviderConfig {
    pub fn duplicate(&self) -> (r: ProviderConfig)
        ensures
            r == *self,
    {
        ProviderConfig {
            kind: self.kind,
            url: self.url.clone(),
            api_key: copy_key(&self.api_key),
            enabled: self.enabled,
        }
    }
}

/// The client for one entry: `Ok(None)` where the entry asks for none,
/// `ConfigurationInvalid` where it asks for one but names no URL.
pub fn client_config(p: &ProviderConfig) -> (r: Result<Option<ClientConfig>, CoreError>)
    ensures
        r == (if !wants_client(*p) {
            Ok(None)
        } else if is_malformed(*p) {
            Err(CoreError::ConfigurationInvalid)
        } else {
            Ok(Some(client_of(*p)))
        }),
{
    let wanted = match p.kind {
        ProviderKind::OpenAi => p.enabled && p.api_key.is_some(),
        ProviderKind::MoFa => p.enabled,
        ProviderKind::DeepInquire => false,
    };
    if !wanted {
        Ok(None)
    } else if p.url.as_str().is_empty() {
        Err(CoreError::ConfigurationInvalid)
    } else {
        Ok(Some(ClientConfig { url: p.url.clone(), api_key: copy_key(&p.api_key) }))
    }
}

/// The clients to build for a configuration: one per entry that wants a
/// client, in order; malformed entries are skipped.
pub fn plan_clients(providers: &Vec<ProviderConfig>) -> (r: Vec<ClientConfig>)
    ensures
        r@ == planned(providers@),
{
    let mut r: Vec<ClientConfig> = Vec::new();
    let mut i: usize = 0;
    while i < providers.len()
        invariant
            i <= providers@.len(),
            r@ == planned(providers@.take(i as int)),
        decreases providers@.len() - i,
    {
        assert(providers@.take(i as int + 1).drop_last() =~= providers@.take(i as int));
        match client_config(&providers[i]) {
            Ok(Some(c)) => r.push(c),
            _ => {},
        }
        i = i + 1;
    }
    assert(providers@.take(i as int) =~= providers@);
    r
}

} // verus!
