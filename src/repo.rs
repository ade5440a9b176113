use vstd::prelude::*;
use crate::catalog::{merged, route_of, BotDescriptor, Catalog, Listing};
use crate::error::CoreError;
use crate::provider::{planned, plan_clients, ClientConfig, ProviderConfig};

verus! {

/// The backend clients of one configuration, in registration order.
pub struct MultiClient {
    clients: Vec<ClientConfig>,
}

impl MultiClient {
    pub closed spec fn view(&self) -> Seq<ClientConfig> {
        self.clients@
    }

    pub fn new() -> (r: MultiClient)
        ensures
            r@ == Seq::<ClientConfig>::empty(),
    {
        MultiClient { clients: Vec::new() }
    }

    /// Registers a client after those already there.
    pub fn add_client(&mut self, client: ClientConfig)
        ensures
            final(self)@ == old(self)@.push(client),
    {
        self.clients.push(client);
    }

    /// The clients that a configuration asks for.
    pub fn from_providers(providers: &Vec<ProviderConfig>) -> (r: MultiClient)
        ensures
            r@ == planned(providers@),
    {
        MultiClient { clients: plan_clients(providers) }
    }

    pub fn len(&self) -> (r: usize)
        ensures
            r == self@.len(),
    {
        self.clients.len()
    }

    pub fn client(&self, k: usize) -> (r: &ClientConfig)
        requires
            k < self@.len(),
        ensures
            *r == self@[k as int],
    {
        &self.clients[k]
    }
}

/// Where the bot repository stands.
#[derive(Clone, Copy, Debug, PartialEq, Eq, Structural)]
pub enum RepoState {
    /// No discovery has been started for the current configuration.
    Empty,
    /// A discovery pass is in flight.
    Loading,
    /// A catalog is published; it may be empty or lack failed clients.
    Ready,
}

/// What `load` did: started the pass with this number, or found the pass
/// with this number already in flight.
#[derive(Clone, Copy, Debug, PartialEq, Eq, Structural)]
pub enum LoadStart {
    Started(u64),
    InFlight(u64),
}

/// What became of a finished discovery pass.
pub enum LoadOutcome {
    /// Its catalog was published; these clients failed to list their bots.
    Published(Vec<CoreError>),
    /// A newer pass or configuration made it stale, and it was dropped.
    Discarded,
}

/// The abstract state of a bot repository.
pub ghost struct RepoModel {
    pub state: RepoState,
    pub generation: int,
    pub clients: Seq<ClientConfig>,
    pub catalog: Seq<BotDescriptor>,
}

pub open spec fn pass_of(s: LoadStart) -> u64 {
    match s {
        LoadStart::Started(g) => g,
        LoadStart::InFlight(g) => g,
    }
}

/// `load`: joins a pass in flight, or starts one under a new number.
pub open spec fn load_step(m: RepoModel) -> (RepoModel, LoadStart) {
    if m.state == RepoState::Loading {
        (m, LoadStart::InFlight(m.generation as u64))
    } else {
        (
            RepoModel { state: RepoState::Loading, generation: m.generation + 1, ..m },
            LoadStart::Started((m.generation + 1) as u64),
        )
    }
}

/// A change of configuration: a new client set, nothing published, and no
/// interest left in a pass in flight.
pub open spec fn reconfigure_step(m: RepoModel, clients: Seq<ClientConfig>) -> RepoModel {
    RepoModel { state: RepoState::Empty, clients: clients, catalog: Seq::empty(), ..m }
}

/// Whether a finished pass is the one the repository waits for.
pub open spec fn is_current(m: RepoModel, pass: u64, ls: Seq<Listing>) -> bool {
    m.state == RepoState::Loading && pass == m.generation && ls.len() == m.clients.len()
}

/// The end of a pass: published where it is current, dropped otherwise.
pub open spec fn complete_step(m: RepoModel, pass: u64, ls: Seq<Listing>) -> RepoModel {
    if is_current(m, pass, ls) {
        RepoModel { state: RepoState::Ready, catalog: merged(ls), ..m }
    } else {
        m
    }
}

/// The failures of a pass, one per failed client, in client order.
pub open spec fn failures(ls: Seq<Listing>) -> Seq<CoreError>
    decreases ls.len(),
{
    if ls.len() == 0 {
        Seq::empty()
    } else if ls.last() is None {
        failures(ls.drop_last()).push(CoreError::DiscoveryFailed((ls.len() - 1) as usize))
    } else {
        failures(ls.drop_last())
    }
}

/// The failures reported by one discovery pass.
pub fn failed_clients(listings: &Vec<Listing>) -> (r: Vec<CoreError>)
    ensures
        r@ == failures(listings@),
{
    let mut r: Vec<CoreError> = Vec::new();
    let mut k: usize = 0;
    while k < listings.len()
        invariant
            k <= listings@.len(),
            r@ == failures(listings@.take(k as int)),
        decreases listings@.len() - k,
    {
        assert(listings@.take(k as int + 1).drop_last() =~= listings@.take(k as int));
        if listings[k].is_none() {
            r.push(CoreError::DiscoveryFailed(k));
        }
        k = k + 1;
    }
    assert(listings@.take(k as int) =~= listings@);
    r
}

/// The queryable set of available bots, filled by discovery passes over the
/// clients of the current configuration, and the router of turns to them.
pub struct BotRepo {
    client: MultiClient,
    catalog: Catalog,
    state: RepoState,
    generation: u64,
    current_bot: Option<String>,
}

impl BotRepo {
    pub closed spec fn view(&self) -> RepoModel {
        RepoModel {
            state: self.state,
            generation: self.generation as int,
            clients: self.client@,
            catalog: self.catalog.view(),
        }
    }

    pub closed spec fn wf(&self) -> bool {
        self.catalog.wf()
    }

    pub closed spec fn spec_current_bot(&self) -> Option<String> {
        self.current_bot
    }

    /// A repository over these clients, before any discovery.
    pub fn new(client: MultiClient) -> (r: BotRepo)
        ensures
            r.wf(),
            r@ == (RepoModel {
                state: RepoState::Empty,
                generation: 0,
                clients: client@,
                catalog: Seq::empty(),
            }),
            r.spec_current_bot() is None,
    {
        BotRepo {
            client,
            catalog: Catalog::empty(),
            state: RepoState::Empty,
            generation: 0,
            current_bot: None,
        }
    }

    pub fn state(&self) -> (r: RepoState)
        ensures
            r == self@.state,
    {
        self.state
    }

    pub fn is_ready(&self) -> (r: bool)
        ensures
            r == (self@.state == RepoState::Ready),
    {
        self.state == RepoState::Ready
    }

    /// The number of the latest pass.
    pub fn generation(&self) -> (r: u64)
        ensures
            r as int == self@.generation,
    {
        self.generation
    }

    pub fn clients(&self) -> (r: &MultiClient)
        ensures
            r@ == self@.clients,
    {
        &self.client
    }

    /// The published catalog.
    pub fn catalog(&self) -> (r: &Catalog)
        ensures
            r.view() == self@.catalog,
            self.wf() ==> r.wf(),
    {
        &self.catalog
    }

    /// Starts a discovery pass, or joins the one in flight. A new pass needs
    /// a fresh number.
    pub fn load(&mut self) -> (r: LoadStart)
        requires
            old(self)@.state == RepoState::Loading || old(self)@.generation < u64::MAX,
        ensures
            (final(self)@, r) == load_step(old(self)@),
            final(self).wf() == old(self).wf(),
            final(self).spec_current_bot() == old(self).spec_current_bot(),
    {
        if self.state == RepoState::Loading {
            LoadStart::InFlight(self.generation)
        } else {
            self.generation = self.generation + 1;
            self.state = RepoState::Loading;
            LoadStart::Started(self.generation)
        }
    }

    /// Takes the clients of a new configuration. A pass in flight becomes
    /// stale; the caller starts a new one with `load`.
    pub fn reconfigure(&mut self, client: MultiClient)
        ensures
            final(self)@ == reconfigure_step(old(self)@, client@),
            final(self).wf(),
            final(self).spec_current_bot() == old(self).spec_current_bot(),
    {
        self.client = client;
        self.catalog = Catalog::empty();
        self.state = RepoState::Empty;
    }

    /// Ends the pass with this number, given one listing per client. The
    /// catalog is published as a whole, and only where the repository still
    /// waits for that pass.
    pub fn complete(&mut self, pass: u64, listings: &Vec<Listing>) -> (r: LoadOutcome)
        requires
            old(self).wf(),
        ensures
            final(self)@ == complete_step(old(self)@, pass, listings@),
            final(self).wf(),
            final(self).spec_current_bot() == old(self).spec_current_bot(),
            match r {
                LoadOutcome::Published(f) => is_current(old(self)@, pass, listings@) && f@
                    == failures(listings@),
                LoadOutcome::Discarded => !is_current(old(self)@, pass, listings@),
            },
    {
        if self.state == RepoState::Loading && pass == self.generation && listings.len()
            == self.client.len() {
            self.catalog = Catalog::from_listings(listings);
            self.state = RepoState::Ready;
            LoadOutcome::Published(failed_clients(listings))
        } else {
            LoadOutcome::Discarded
        }
    }

    /// Selects the bot that turns go to.
    pub fn set_current_bot(&mut self, bot: Option<String>)
        ensures
            final(self)@ == old(self)@,
            final(self).wf() == old(self).wf(),
            final(self).spec_current_bot() == bot,
    {
        self.current_bot = bot;
    }

    pub fn current_bot(&self) -> (r: &Option<String>)
        ensures
            *r == self.spec_current_bot(),
    {
        &self.current_bot
    }

    /// The index of the client that serves this bot in the published catalog.
    pub fn dispatch(&self, bot_id: &String) -> (r: Result<usize, CoreError>)
        requires
            self.wf(),
        ensures
            r == route_of(self@.catalog, bot_id@),
    {
        self.catalog.route(bot_id)
    }

    /// The client for the selected bot; `UnknownBot` where none is selected.
    pub fn dispatch_current(&self) -> (r: Result<usize, CoreError>)
        requires
            self.wf(),
        ensures
            r == match self.spec_current_bot() {
                Some(b) => route_of(self@.catalog, b@),
                None => Err(CoreError::UnknownBot),
            },
    {
        match &self.current_bot {
            Some(b) => self.catalog.route(b),
            None => Err(CoreError::UnknownBot),
        }
    }
}

/// A pass that a change of configuration made stale is dropped whenever it
/// ends: the published catalog is that of the pass started after the change,
/// whichever of the two ends first.
pub proof fn lemma_stale_pass_discarded(
    m: RepoModel,
    clients: Seq<ClientConfig>,
    first: Seq<Listing>,
    second: Seq<Listing>,
)
    requires
        m.generation + 2 <= u64::MAX,
        m.generation >= 0,
        second.len() == clients.len(),
    ensures
        ({
            let (m1, p1) = load_step(m);
            let m2 = reconfigure_step(m1, clients);
            let (m3, p2) = load_step(m2);
            let late = complete_step(complete_step(m3, pass_of(p2), second), pass_of(p1), first);
            let early = complete_step(complete_step(m3, pass_of(p1), first), pass_of(p2), second);
            &&& late.state == RepoState::Ready
            &&& late.catalog == merged(second)
            &&& early.state == RepoState::Ready
            &&& early.catalog == merged(second)
        }),
{
}

/// Failed clients never keep the repository from becoming ready: the pass it
/// waits for publishes the merged catalog of the clients that answered, and
/// reports one failure per client that did not.
pub proof fn lemma_failures_still_ready(m: RepoModel, pass: u64, ls: Seq<Listing>)
    requires
        is_current(m, pass, ls),
        ls.len() <= usize::MAX,
    ensures
        complete_step(m, pass, ls).state == RepoState::Ready,
        complete_step(m, pass, ls).catalog == merged(ls),
        forall|i: int|
            0 <= i < failures(ls).len() ==> (#[trigger] failures(ls)[i] is DiscoveryFailed)
                && ls[failures(ls)[i]->DiscoveryFailed_0 as int] is None,
{
    lemma_failures_name_failed_clients(ls);
}

proof fn lemma_failures_name_failed_clients(ls: Seq<Listing>)
    requires
        ls.len() <= usize::MAX,
    ensures
        forall|i: int|
            0 <= i < failures(ls).len() ==> (#[trigger] failures(ls)[i] is DiscoveryFailed)
                && failures(ls)[i]->DiscoveryFailed_0 < ls.len()
                && ls[failures(ls)[i]->DiscoveryFailed_0 as int] is None,
    decreases ls.len(),
{
    if ls.len() > 0 {
        let prev = ls.drop_last();
        lemma_failures_name_failed_clients(prev);
        assert forall|i: int| 0 <= i < failures(ls).len() implies (
        #[trigger] failures(ls)[i] is DiscoveryFailed) && failures(ls)[i]->DiscoveryFailed_0
            < ls.len() && ls[failures(ls)[i]->DiscoveryFailed_0 as int] is None by {
            if i < failures(prev).len() {
                assert(failures(ls)[i] == failures(prev)[i]);
                assert(ls[failures(prev)[i]->DiscoveryFailed_0 as int] == prev[failures(
                    prev,
                )[i]->DiscoveryFailed_0 as int]);
            }
        }
    }
}

} // verus!
