use moly_chat::hook::{capture, handle_batch, ChatTask, EngineMessage, Sender};
use moly_chat::provider::{ProviderConfig, ProviderKind};
use moly_chat::screen::{repo_loaded, repo_step, select_remote_model, create_bot_repo, RepoAction, ScreenFlags};
use moly_chat::repo::LoadStart;
use moly_chat::catalog::RemoteBot;
use moly_chat::session::{ChatSession, EntityId, Message, Role, TitleState, TITLE_MAX_CHARS};
use moly_chat::store::{ChatStore, SessionArchive};

fn assistant(content: &str) -> Message {
    Message {
        id: 0,
        role: Role::Assistant,
        username: Some("bot".to_string()),
        entity: None,
        content: content.to_string(),
        articles: vec!["ref".to_string()],
        stages: vec![],
    }
}

fn same(a: &ChatSession, b: &ChatSession) -> bool {
    let ma: Vec<(u64, Role, String, Vec<String>)> = a
        .messages()
        .iter()
        .map(|m| (m.id, m.role, m.content.clone(), m.articles.clone()))
        .collect();
    let mb: Vec<(u64, Role, String, Vec<String>)> = b
        .messages()
        .iter()
        .map(|m| (m.id, m.role, m.content.clone(), m.articles.clone()))
        .collect();
    let ea = format!("{:?}", entity_text(a.entity()));
    let eb = format!("{:?}", entity_text(b.entity()));
    a.id() == b.id() && a.title() == b.title() && a.title_state() == b.title_state() && ma == mb
        && ea == eb
}

fn entity_text(e: &Option<EntityId>) -> Option<(u8, String)> {
    match e {
        Some(EntityId::ModelFile(s)) => Some((0, s.clone())),
        Some(EntityId::Agent(s)) => Some((1, s.clone())),
        Some(EntityId::RemoteModel(s)) => Some((2, s.clone())),
        None => None,
    }
}

fn user_insert(body: &str) -> ChatTask {
    ChatTask::InsertMessage(0, EngineMessage { from: Sender::User, body: body.to_string() })
}

#[test]
fn appended_ids_count_from_one() {
    let mut s = ChatSession::new(7, None, vec![]);
    assert_eq!(s.append_message(Message::from_user("a".to_string())), 1);
    assert_eq!(s.append_message(assistant("b")), 2);
    assert_eq!(s.append_message(Message::from_user("c".to_string())), 3);
    let got: Vec<(u64, String)> = s.messages().iter().map(|m| (m.id, m.content.clone())).collect();
    assert_eq!(got, vec![(1, "a".to_string()), (2, "b".to_string()), (3, "c".to_string())]);
}

#[test]
fn appends_to_one_session_do_not_number_another() {
    let mut store = ChatStore::new();
    let a = store.create_empty(vec![]);
    let b = store.create_empty(vec![]);
    assert_eq!(store.append_message(a, Message::from_user("a1".to_string())), Some(1));
    assert_eq!(store.append_message(b, Message::from_user("b1".to_string())), Some(1));
    assert_eq!(store.append_message(a, assistant("a2")), Some(2));
    assert_eq!(store.get(a).unwrap().messages().len(), 2);
    assert_eq!(store.get(b).unwrap().messages().len(), 1);
    assert_eq!(store.append_message(99, assistant("x")), None);
}

#[test]
fn new_session_has_placeholder_title() {
    let s = ChatSession::new(1, None, vec![]);
    assert_eq!(s.title(), "New Chat");
    assert_eq!(s.title_state(), TitleState::Default);
    assert!(s.messages().is_empty());
    assert!(s.entity().is_none());
}

#[test]
fn title_comes_from_first_user_message() {
    let mut s = ChatSession::new(1, None, vec![]);
    s.append_message(assistant("welcome"));
    assert_eq!(s.title(), "New Chat");
    s.append_message(Message::from_user("How do I bake bread?".to_string()));
    assert_eq!(s.title(), "How do I bake bread?");
    assert_eq!(s.title_state(), TitleState::Derived);
    s.append_message(Message::from_user("another".to_string()));
    assert_eq!(s.title(), "How do I bake bread?");
}

#[test]
fn long_title_is_truncated_by_characters() {
    let body: String = "é".repeat(TITLE_MAX_CHARS + 5);
    let mut s = ChatSession::new(1, None, vec![]);
    s.append_message(Message::from_user(body));
    assert_eq!(s.title().chars().count(), TITLE_MAX_CHARS);
    assert_eq!(s.title(), &"é".repeat(TITLE_MAX_CHARS));
}

#[test]
fn derive_title_twice_changes_nothing() {
    let mut s = ChatSession::new(1, None, vec![]);
    s.append_message(Message::from_user("first question".to_string()));
    s.derive_title();
    let once = s.title().clone();
    s.derive_title();
    assert_eq!(s.title(), &once);
    assert_eq!(once, "first question");
}

#[test]
fn renamed_title_is_kept() {
    let mut s = ChatSession::new(1, None, vec![]);
    s.rename("Mine".to_string());
    s.append_message(Message::from_user("question".to_string()));
    s.derive_title();
    assert_eq!(s.title(), "Mine");
    assert_eq!(s.title_state(), TitleState::Renamed);
}

#[test]
fn save_then_load_gives_the_session_back() {
    let mut store = ChatStore::new();
    let id = store.create_with_entity(Some(EntityId::Agent("helper".to_string())), vec![]);
    store.append_message(id, Message::from_user("hello".to_string()));
    store.append_message(id, assistant("hi"));
    let mut archive = SessionArchive::new();
    assert!(store.save(id, &mut archive));
    let loaded = archive.load_all();
    assert_eq!(loaded.len(), 1);
    assert!(same(&loaded[0], store.get(id).unwrap()));
    assert_eq!(loaded[0].messages()[1].articles, vec!["ref".to_string()]);
}

#[test]
fn later_save_replaces_earlier_record() {
    let mut store = ChatStore::new();
    let id = store.create_empty(vec![]);
    let mut archive = SessionArchive::new();
    store.save(id, &mut archive);
    store.append_message(id, Message::from_user("later".to_string()));
    store.save(id, &mut archive);
    let loaded = archive.load_all();
    assert_eq!(archive.len(), 1);
    assert_eq!(loaded.len(), 1);
    assert_eq!(loaded[0].messages().len(), 1);
    assert_eq!(loaded[0].title(), "later");
    assert!(!store.save(42, &mut archive));
}

#[test]
fn history_lists_newest_first() {
    let mut store = ChatStore::new();
    store.create_empty(vec![]);
    store.create_empty(vec![]);
    store.create_empty(vec![]);
    assert_eq!(store.history_ids(), vec![3, 2, 1]);
    assert!(ChatStore::new().history_ids().is_empty());
}

#[test]
fn restore_orders_by_id_and_continues_numbering() {
    let mut archive = SessionArchive::new();
    for id in [5u64, 2, 9] {
        let s = ChatSession::new(id, None, vec![]);
        archive.save(&s);
    }
    let store = ChatStore::restore(&archive);
    assert_eq!(store.history_ids(), vec![9, 5, 2]);
    assert_eq!(store.next_id(), 10);
    let mut store = store;
    assert_eq!(store.create_empty(vec![]), 10);
}

#[test]
fn capture_keeps_only_user_insertions_in_order() {
    let tasks = vec![
        user_insert("one"),
        ChatTask::InsertMessage(1, EngineMessage { from: Sender::Bot("b".to_string()), body: "reply".to_string() }),
        ChatTask::Other,
        ChatTask::InsertMessage(2, EngineMessage { from: Sender::App, body: "notice".to_string() }),
        user_insert("two"),
    ];
    assert_eq!(capture(&tasks), vec!["one".to_string(), "two".to_string()]);
    assert!(capture(&vec![]).is_empty());
}

#[test]
fn batch_without_current_session_changes_nothing() {
    let mut store = ChatStore::new();
    let mut archive = SessionArchive::new();
    assert_eq!(handle_batch(&mut store, 3, &vec![user_insert("x")], &mut archive), 0);
    assert_eq!(archive.len(), 0);
}

#[test]
fn repo_step_decisions() {
    let start = ScreenFlags { first_render: true, loaded: false, creating: false };
    let (f, a) = repo_step(start, false);
    assert_eq!(a, RepoAction::Create);
    assert_eq!(f, ScreenFlags { first_render: false, loaded: false, creating: true });
    let (f2, a2) = repo_step(f, false);
    assert_eq!(a2, RepoAction::Nothing);
    assert_eq!(f2, f);
    let f3 = repo_loaded(f2);
    let (f4, a4) = repo_step(f3, true);
    assert_eq!(a4, RepoAction::Publish);
    assert_eq!(f4, ScreenFlags { first_render: false, loaded: false, creating: false });
    assert_eq!(repo_step(f4, true).1, RepoAction::Nothing);
    assert_eq!(repo_step(f4, false).1, RepoAction::Create);
}

#[test]
fn end_to_end_one_user_turn() {
    let providers = vec![
        ProviderConfig { kind: ProviderKind::OpenAi, url: "https://a".to_string(), api_key: Some("ka".to_string()), enabled: true },
        ProviderConfig { kind: ProviderKind::OpenAi, url: "https://b".to_string(), api_key: None, enabled: false },
    ];
    let mut repo = create_bot_repo(&providers);
    assert_eq!(repo.clients().len(), 1);
    let LoadStart::Started(pass) = repo.load() else { panic!() };
    let found = vec![Some(vec![RemoteBot { id: "a/gpt".to_string(), name: "GPT".to_string() }])];
    repo.complete(pass, &found);
    assert_eq!(repo.catalog().len(), 1);
    let mut store = ChatStore::new();
    let mut archive = SessionArchive::new();
    let current = store.create_empty(vec![]);
    select_remote_model(&mut repo, &mut store, Some(current), "a/gpt".to_string(), &mut archive);
    assert_eq!(repo.dispatch_current(), Ok(0));
    let body = "Please summarise the history of the printing press in Europe";
    let n = handle_batch(&mut store, current, &vec![user_insert(body)], &mut archive);
    assert_eq!(n, 1);
    let s = store.get(current).unwrap();
    assert_eq!(s.messages().len(), 1);
    assert_eq!(s.messages()[0].id, 1);
    assert_eq!(s.messages()[0].role, Role::User);
    let expected: String = body.chars().take(TITLE_MAX_CHARS).collect();
    assert_eq!(s.title(), &expected);
    let loaded = archive.load_all();
    assert_eq!(loaded.len(), 1);
    assert!(same(&loaded[0], s));
    assert!(matches!(s.entity(), Some(EntityId::RemoteModel(m)) if m == "a/gpt"));
}
