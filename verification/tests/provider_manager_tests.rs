use m3u_filter::config::{ConfigInput, ConfigInputAlias, InputType};
use m3u_filter::provider_lineup::ProviderAllocation;
use m3u_filter::provider_manager::ActiveProviderManager;

fn input(id: u16, name: &str, max_connections: u16, aliases: Option<Vec<ConfigInputAlias>>) -> ConfigInput {
    ConfigInput {
        id,
        name: name.to_string(),
        url: "http://main".to_string(),
        username: Some("u".to_string()),
        password: Some("p".to_string()),
        input_type: InputType::Xtream,
        max_connections,
        priority: 0,
        aliases,
        options: None,
    }
}

fn alias(id: u16, name: &str, max_connections: u16) -> ConfigInputAlias {
    ConfigInputAlias {
        id,
        name: name.to_string(),
        url: "http://alias".to_string(),
        username: Some("au".to_string()),
        password: Some("ap".to_string()),
        priority: 0,
        max_connections,
    }
}

fn total(m: &ActiveProviderManager) -> usize {
    m.active_connections().map_or(0, |v| v.iter().map(|(_, c)| *c).sum())
}

#[test]
fn acquire_and_release_count_one_each() {
    let inputs = vec![input(1, "main", 1, Some(vec![alias(2, "alias_a", 1)]))];
    let mut m = ActiveProviderManager::from_inputs(0, 60, &inputs);
    assert_eq!(total(&m), 0);
    let first = m.acquire_connection_at("main", 10);
    assert!(matches!(first, ProviderAllocation::Available(ref p) if p.name == "main"));
    assert_eq!(total(&m), 1);
    let second = m.acquire_connection_at("main", 10);
    assert!(matches!(second, ProviderAllocation::Available(ref p) if p.name == "alias_a"));
    assert_eq!(total(&m), 2);
    let third = m.acquire_connection_at("main", 10);
    assert!(matches!(third, ProviderAllocation::Exhausted));
    assert_eq!(total(&m), 2);
    m.release_connection("alias_a");
    assert_eq!(total(&m), 1);
    assert_eq!(m.active_connections(), Some(vec![("main".to_string(), 1)]));
    m.release_connection("main");
    assert_eq!(m.active_connections(), None);
    m.release_connection("main");
    assert_eq!(total(&m), 0);
}

#[test]
fn unknown_input_is_refused() {
    let inputs = vec![input(1, "main", 1, None)];
    let mut m = ActiveProviderManager::from_inputs(0, 60, &inputs);
    assert!(matches!(m.acquire_connection_at("other", 1), ProviderAllocation::Exhausted));
    assert!(matches!(m.force_exact_acquire_connection("other"), ProviderAllocation::Exhausted));
    assert!(!m.is_over_limit_at("other", 1));
}

#[test]
fn forced_connections_go_over_the_limit() {
    let inputs = vec![input(1, "main", 1, None)];
    let mut m = ActiveProviderManager::from_inputs(0, 60, &inputs);
    assert!(matches!(m.acquire_connection_at("main", 1), ProviderAllocation::Available(_)));
    assert!(matches!(m.force_exact_acquire_connection("main"), ProviderAllocation::Available(_)));
    assert_eq!(total(&m), 2);
    assert!(m.is_over_limit_at("main", 1));
}

#[test]
fn grace_connection_when_configured() {
    let inputs = vec![input(1, "main", 1, None)];
    let mut m = ActiveProviderManager::from_inputs(1000, 60, &inputs);
    assert!(matches!(m.acquire_connection_at("main", 1), ProviderAllocation::Available(_)));
    assert!(matches!(m.acquire_connection_at("main", 2), ProviderAllocation::GracePeriod(_)));
    assert!(matches!(m.acquire_connection_at("main", 3), ProviderAllocation::Exhausted));
}
