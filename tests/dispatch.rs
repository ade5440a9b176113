use moly_chat::catalog::{Catalog, Listing, RemoteBot};
use moly_chat::error::CoreError;
use moly_chat::provider::{client_config, plan_clients, ClientConfig, ProviderConfig, ProviderKind};
use moly_chat::repo::{failed_clients, BotRepo, LoadOutcome, LoadStart, MultiClient, RepoState};
use moly_chat::screen::create_bot_repo;

fn provider(kind: ProviderKind, url: &str, key: Option<&str>, enabled: bool) -> ProviderConfig {
    ProviderConfig {
        kind,
        url: url.to_string(),
        api_key: key.map(|k| k.to_string()),
        enabled,
    }
}

fn bot(id: &str, name: &str) -> RemoteBot {
    RemoteBot { id: id.to_string(), name: name.to_string() }
}

fn client(url: &str) -> ClientConfig {
    ClientConfig { url: url.to_string(), api_key: None }
}

fn ids(c: &Catalog) -> Vec<(String, usize)> {
    c.bots().iter().map(|b| (b.id.clone(), b.provider)).collect()
}

#[test]
fn openai_needs_enabled_and_key() {
    let with_key = provider(ProviderKind::OpenAi, "https://a", Some("k"), true);
    let no_key = provider(ProviderKind::OpenAi, "https://a", None, true);
    let disabled = provider(ProviderKind::OpenAi, "https://a", Some("k"), false);
    let c = client_config(&with_key).unwrap().unwrap();
    assert_eq!(c.url, "https://a");
    assert_eq!(c.api_key.as_deref(), Some("k"));
    assert!(client_config(&no_key).unwrap().is_none());
    assert!(client_config(&disabled).unwrap().is_none());
}

#[test]
fn mofa_needs_no_key_and_deep_inquire_gets_no_client() {
    let mofa = provider(ProviderKind::MoFa, "http://m", None, true);
    assert_eq!(client_config(&mofa).unwrap().unwrap().url, "http://m");
    let deep = provider(ProviderKind::DeepInquire, "http://d", Some("k"), true);
    assert!(client_config(&deep).unwrap().is_none());
}

#[test]
fn missing_url_is_configuration_invalid() {
    let bad = provider(ProviderKind::MoFa, "", None, true);
    assert!(matches!(client_config(&bad), Err(CoreError::ConfigurationInvalid)));
    // A disabled entry asks for no client, so it is not malformed.
    let off = provider(ProviderKind::MoFa, "", None, false);
    assert!(client_config(&off).unwrap().is_none());
}

#[test]
fn plan_keeps_order_and_skips() {
    let ps = vec![
        provider(ProviderKind::OpenAi, "https://a", Some("ka"), true),
        provider(ProviderKind::OpenAi, "https://b", Some("kb"), false),
        provider(ProviderKind::MoFa, "", None, true),
        provider(ProviderKind::MoFa, "http://m", None, true),
    ];
    let plan = plan_clients(&ps);
    let urls: Vec<&str> = plan.iter().map(|c| c.url.as_str()).collect();
    assert_eq!(urls, vec!["https://a", "http://m"]);
    assert!(plan_clients(&Vec::new()).is_empty());
}

#[test]
fn discovery_isolates_failed_client() {
    let ls: Vec<Listing> = vec![
        Some(vec![bot("a/1", "A one"), bot("a/2", "A two")]),
        None,
        Some(vec![bot("c/1", "C one")]),
    ];
    let cat = Catalog::from_listings(&ls);
    assert_eq!(
        ids(&cat),
        vec![("a/1".to_string(), 0), ("a/2".to_string(), 0), ("c/1".to_string(), 2)]
    );
    let failed = failed_clients(&ls);
    assert_eq!(failed, vec![CoreError::DiscoveryFailed(1)]);
}

#[test]
fn later_client_wins_a_shared_id() {
    let ls: Vec<Listing> = vec![
        Some(vec![bot("x", "first"), bot("y", "only")]),
        Some(vec![bot("x", "second")]),
    ];
    let cat = Catalog::from_listings(&ls);
    assert_eq!(ids(&cat), vec![("x".to_string(), 1), ("y".to_string(), 0)]);
    assert_eq!(cat.bots()[0].name, "second");
    assert_eq!(cat.route(&"x".to_string()), Ok(1));
    assert_eq!(cat.route(&"y".to_string()), Ok(0));
}

#[test]
fn routing_unknown_bot_fails() {
    let ls: Vec<Listing> = vec![Some(vec![bot("a/1", "A")]), None];
    let cat = Catalog::from_listings(&ls);
    assert_eq!(cat.route(&"b/1".to_string()), Err(CoreError::UnknownBot));
    assert!(cat.contains(&"a/1".to_string()));
    assert!(!cat.contains(&"b/1".to_string()));
    let empty = Catalog::from_listings(&Vec::new());
    assert_eq!(empty.len(), 0);
    assert_eq!(empty.route(&"a/1".to_string()), Err(CoreError::UnknownBot));
}

#[test]
fn all_clients_failing_gives_ready_and_empty() {
    let mut mc = MultiClient::new();
    mc.add_client(client("u1"));
    mc.add_client(client("u2"));
    let mut repo = BotRepo::new(mc);
    let LoadStart::Started(pass) = repo.load() else { panic!("no pass started") };
    let out = repo.complete(pass, &vec![None, None]);
    match out {
        LoadOutcome::Published(f) => {
            assert_eq!(f, vec![CoreError::DiscoveryFailed(0), CoreError::DiscoveryFailed(1)])
        }
        LoadOutcome::Discarded => panic!("discarded"),
    }
    assert_eq!(repo.state(), RepoState::Ready);
    assert_eq!(repo.catalog().len(), 0);
}

#[test]
fn load_while_loading_joins_the_pass() {
    let mut mc = MultiClient::new();
    mc.add_client(client("u1"));
    let mut repo = BotRepo::new(mc);
    assert_eq!(repo.state(), RepoState::Empty);
    assert_eq!(repo.load(), LoadStart::Started(1));
    assert_eq!(repo.state(), RepoState::Loading);
    assert_eq!(repo.load(), LoadStart::InFlight(1));
    assert_eq!(repo.generation(), 1);
    assert!(!repo.is_ready());
}

#[test]
fn stale_pass_is_discarded() {
    let mut mc = MultiClient::new();
    mc.add_client(client("old"));
    let mut repo = BotRepo::new(mc);
    let LoadStart::Started(first) = repo.load() else { panic!() };
    let mut mc2 = MultiClient::new();
    mc2.add_client(client("new1"));
    mc2.add_client(client("new2"));
    repo.reconfigure(mc2);
    let LoadStart::Started(second) = repo.load() else { panic!() };
    assert_ne!(first, second);
    let second_result: Vec<Listing> = vec![Some(vec![bot("n/1", "N")]), Some(vec![])];
    assert!(matches!(repo.complete(second, &second_result), LoadOutcome::Published(_)));
    let first_result: Vec<Listing> = vec![Some(vec![bot("o/1", "O")])];
    assert!(matches!(repo.complete(first, &first_result), LoadOutcome::Discarded));
    assert_eq!(ids(repo.catalog()), vec![("n/1".to_string(), 0)]);
    assert_eq!(repo.dispatch(&"o/1".to_string()), Err(CoreError::UnknownBot));
    assert_eq!(repo.dispatch(&"n/1".to_string()), Ok(0));
}

#[test]
fn stale_pass_arriving_first_is_discarded() {
    let mut mc = MultiClient::new();
    mc.add_client(client("old"));
    let mut repo = BotRepo::new(mc);
    let LoadStart::Started(first) = repo.load() else { panic!() };
    let mut mc2 = MultiClient::new();
    mc2.add_client(client("new"));
    repo.reconfigure(mc2);
    let LoadStart::Started(second) = repo.load() else { panic!() };
    let first_result: Vec<Listing> = vec![Some(vec![bot("o/1", "O")])];
    assert!(matches!(repo.complete(first, &first_result), LoadOutcome::Discarded));
    assert_eq!(repo.state(), RepoState::Loading);
    let second_result: Vec<Listing> = vec![Some(vec![bot("n/1", "N")])];
    assert!(matches!(repo.complete(second, &second_result), LoadOutcome::Published(_)));
    assert_eq!(ids(repo.catalog()), vec![("n/1".to_string(), 0)]);
}

#[test]
fn listing_count_must_match_clients() {
    let mut mc = MultiClient::new();
    mc.add_client(client("u1"));
    let mut repo = BotRepo::new(mc);
    let LoadStart::Started(pass) = repo.load() else { panic!() };
    assert!(matches!(repo.complete(pass, &vec![None, None]), LoadOutcome::Discarded));
    assert_eq!(repo.state(), RepoState::Loading);
}

#[test]
fn dispatch_current_follows_selection() {
    let ps = vec![
        provider(ProviderKind::OpenAi, "https://a", Some("ka"), true),
        provider(ProviderKind::OpenAi, "https://b", None, false),
    ];
    let mut repo = create_bot_repo(&ps);
    assert_eq!(repo.clients().len(), 1);
    assert_eq!(repo.dispatch_current(), Err(CoreError::UnknownBot));
    let LoadStart::Started(pass) = repo.load() else { panic!() };
    repo.complete(pass, &vec![Some(vec![bot("a/gpt", "GPT")])]);
    repo.set_current_bot(Some("a/gpt".to_string()));
    assert_eq!(repo.current_bot().as_deref(), Some("a/gpt"));
    assert_eq!(repo.dispatch_current(), Ok(0));
    repo.set_current_bot(Some("b/gpt".to_string()));
    assert_eq!(repo.dispatch_current(), Err(CoreError::UnknownBot));
}
