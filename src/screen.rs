use vstd::prelude::*;
use crate::provider::{planned, ProviderConfig};
use crate::repo::{BotRepo, MultiClient, RepoModel, RepoState};
use crate::session::{EntityId, SessionView};
use crate::store::{has_session, session_index, ChatStore, SessionArchive};

verus! {

/// A repository for a configuration: one client per provider entry that
/// wants one, before any discovery.
pub fn create_bot_repo(providers: &Vec<ProviderConfig>) -> (r: BotRepo)
    ensures
        r.wf(),
        r@ == (RepoModel {
            state: RepoState::Empty,
            generation: 0,
            clients: planned(providers@),
            catalog: Seq::empty(),
        }),
        r.spec_current_bot() is None,
{
    BotRepo::new(MultiClient::from_providers(providers))
}

/// What the chat screen does about its repository on an event.
#[derive(Clone, Copy, Debug, PartialEq, Eq, Structural)]
pub enum RepoAction {
    /// Hand the loaded repository to the rest of the application.
    Publish,
    /// Build a repository and start its discovery.
    Create,
    Nothing,
}

/// The chat screen's bookkeeping about its repository.
#[derive(Clone, Copy, Debug, PartialEq, Eq, Structural)]
pub struct ScreenFlags {
    pub first_render: bool,
    pub loaded: bool,
    pub creating: bool,
}

pub open spec fn repo_step_spec(f: ScreenFlags, has_repo: bool) -> (ScreenFlags, RepoAction) {
    if f.loaded {
        (ScreenFlags { loaded: false, ..f }, RepoAction::Publish)
    } else if (f.first_render || !has_repo) && !f.creating {
        (ScreenFlags { first_render: false, creating: true, ..f }, RepoAction::Create)
    } else {
        (f, RepoAction::Nothing)
    }
}

/// The decision on one event: a finished load is published first; otherwise
/// a repository is built on the first render or where none exists, unless
/// one is being built.
pub fn repo_step(f: ScreenFlags, has_repo: bool) -> (r: (ScreenFlags, RepoAction))
    ensures
        r == repo_step_spec(f, has_repo),
{
    if f.loaded {
        (ScreenFlags { loaded: false, ..f }, RepoAction::Publish)
    } else if (f.first_render || !has_repo) && !f.creating {
        (ScreenFlags { first_render: false, creating: true, ..f }, RepoAction::Create)
    } else {
        (f, RepoAction::Nothing)
    }
}

/// The flags once a repository's discovery has finished.
pub fn repo_loaded(f: ScreenFlags) -> (r: ScreenFlags)
    ensures
        r == (ScreenFlags { loaded: true, creating: false, ..f }),
{
    ScreenFlags { loaded: true, creating: false, ..f }
}

/// The user picked a remote model: turns go to it, and the current session,
/// if there is one, is associated with it and saved.
pub fn select_remote_model(
    repo: &mut BotRepo,
    store: &mut ChatStore,
    current: Option<u64>,
    model_id: String,
    archive: &mut SessionArchive,
)
    requires
        old(store).wf(),
        old(archive).wf(),
    ensures
        final(store).wf(),
        final(archive).wf(),
        final(repo)@ == old(repo)@,
        final(repo).wf() == old(repo).wf(),
        final(repo).spec_current_bot() == Some(model_id),
        final(store).spec_next_id() == old(store).spec_next_id(),
        match current {
            Some(id) if has_session(old(store)@, id) => {
                let i = session_index(old(store)@, id);
                let v = SessionView {
                    entity: Some(EntityId::RemoteModel(model_id)),
                    ..old(store)@[i]
                };
                &&& final(store)@ == old(store)@.update(i, v)
                &&& final(archive)@ == old(archive)@.insert(id, v)
            },
            _ => final(store)@ == old(store)@ && final(archive)@ == old(archive)@,
        },
{
    repo.set_current_bot(Some(model_id.clone()));
    match current {
        Some(id) => {
            if store.set_entity(id, Some(EntityId::RemoteModel(model_id))) {
                proof {
                    store.lemma_unique();
                    crate::store::lemma_index_unique(store@, session_index(old(store)@, id));
                }
                store.save(id, archive);
            }
        },
        None => {},
    }
}

} // verus!
