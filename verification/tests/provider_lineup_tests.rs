use m3u_filter::config::{ConfigInput, ConfigInputAlias, InputType};
use m3u_filter::provider_lineup::{MultiProviderLineup, ProviderAllocation, SingleProviderLineup};

fn create_config_input(id: u16, name: &str, priority: i16, max_connections: u16) -> ConfigInput {
    ConfigInput {
        id,
        name: name.to_string(),
        url: "http://example.com".to_string(),
        username: None,
        password: None,
        input_type: InputType::Xtream,
        max_connections,
        priority,
        aliases: None,
        options: None,
    }
}

fn create_config_input_alias(id: u16, url: &str, priority: i16, max_connections: u16) -> ConfigInputAlias {
    ConfigInputAlias {
        id,
        name: format!("alias_{id}"),
        url: url.to_string(),
        username: Some("alias_user".to_string()),
        password: Some("alias_pass".to_string()),
        priority,
        max_connections,
    }
}

fn should_available(allocation: ProviderAllocation, provider_id: u16) {
    match allocation {
        ProviderAllocation::Exhausted => panic!("Should available and not exhausted"),
        ProviderAllocation::Available(provider) => assert_eq!(provider.id, provider_id),
        ProviderAllocation::GracePeriod(provider) => panic!("Should available and not grace period: {}", provider.id),
    }
}

fn should_grace_period(allocation: ProviderAllocation, provider_id: u16) {
    match allocation {
        ProviderAllocation::Exhausted => panic!("Should grace period and not exhausted"),
        ProviderAllocation::Available(provider) => panic!("Should grace period and not available: {}", provider.id),
        ProviderAllocation::GracePeriod(provider) => assert_eq!(provider.id, provider_id),
    }
}

fn should_exhausted(allocation: ProviderAllocation) {
    match allocation {
        ProviderAllocation::Exhausted => {}
        ProviderAllocation::Available(provider) => panic!("Should exhausted and not available: {}", provider.id),
        ProviderAllocation::GracePeriod(provider) => panic!("Should exhausted and not grace period: {}", provider.id),
    }
}

#[test]
fn test_provider_with_alias() {
    let mut input = create_config_input(1, "provider1_1", 1, 1);
    let alias = create_config_input_alias(2, "http://alias1", 2, 2);
    input.aliases = Some(vec![alias]);
    let mut lineup = MultiProviderLineup::new(&input);
    should_available(lineup.acquire(true, 5), 1);
    should_available(lineup.acquire(true, 5), 2);
    should_available(lineup.acquire(true, 5), 2);
    should_grace_period(lineup.acquire(true, 5), 1);
    should_grace_period(lineup.acquire(true, 5), 2);
    should_exhausted(lineup.acquire(true, 5));
    should_exhausted(lineup.acquire(true, 5));
}

#[test]
fn test_provider_with_priority_alias() {
    let mut input = create_config_input(1, "provider2_1", 1, 2);
    let alias = create_config_input_alias(2, "http://alias.com", 0, 2);
    input.aliases = Some(vec![alias]);
    let mut lineup = MultiProviderLineup::new(&input);
    for _ in 0..2 {
        should_available(lineup.acquire(true, 5), 2);
    }
    should_available(lineup.acquire(true, 5), 1);
}

#[test]
fn test_provider_with_multiple_aliases() {
    let mut input = create_config_input(1, "provider3_1", 1, 1);
    let alias1 = create_config_input_alias(2, "http://alias1.com", 1, 2);
    let alias2 = create_config_input_alias(3, "http://alias2.com", 0, 1);
    input.aliases = Some(vec![alias1, alias2]);
    let mut lineup = MultiProviderLineup::new(&input);
    should_available(lineup.acquire(true, 5), 3);
    should_available(lineup.acquire(true, 5), 1);
    should_available(lineup.acquire(true, 5), 2);
    should_available(lineup.acquire(true, 5), 2);
    should_grace_period(lineup.acquire(true, 5), 3);
    should_grace_period(lineup.acquire(true, 5), 1);
    should_grace_period(lineup.acquire(true, 5), 2);
    should_exhausted(lineup.acquire(true, 5));
}

#[test]
fn test_provider_with_exhausted_aliases() {
    let mut input = create_config_input(1, "provider4_1", 1, 1);
    let alias1 = create_config_input_alias(2, "http://alias.com", 2, 1);
    let alias2 = create_config_input_alias(3, "http://alias.com", -2, 1);
    input.aliases = Some(vec![alias1, alias2]);
    let mut lineup = MultiProviderLineup::new(&input);
    should_available(lineup.acquire(true, 5), 3);
    should_available(lineup.acquire(true, 5), 1);
    should_available(lineup.acquire(true, 5), 2);
    should_grace_period(lineup.acquire(true, 5), 3);
    should_grace_period(lineup.acquire(true, 5), 1);
    should_grace_period(lineup.acquire(true, 5), 2);
    should_exhausted(lineup.acquire(true, 5));
}

#[test]
fn test_acquire_when_capacity_available() {
    let cfg = create_config_input(1, "provider5_1", 1, 2);
    let mut lineup = SingleProviderLineup::new(&cfg);
    should_available(lineup.acquire(true, 5), 1);
    should_available(lineup.acquire(true, 5), 1);
    should_grace_period(lineup.acquire(true, 5), 1);
    should_exhausted(lineup.acquire(true, 5));
}

#[test]
fn test_release_connection() {
    let cfg = create_config_input(1, "provider7_1", 1, 2);
    let mut lineup = SingleProviderLineup::new(&cfg);
    should_available(lineup.acquire(true, 5), 1);
    should_available(lineup.acquire(true, 5), 1);
    should_grace_period(lineup.acquire(true, 5), 1);
    should_exhausted(lineup.acquire(true, 5));
    lineup.release("provider7_1");
    should_grace_period(lineup.acquire(true, 5), 1);
    lineup.release("provider7_1");
    lineup.release("provider7_1");
    should_available(lineup.acquire(true, 5), 1);
    should_grace_period(lineup.acquire(true, 5), 1);
    should_exhausted(lineup.acquire(true, 5));
}

#[test]
fn test_multi_provider_acquire() {
    let mut cfg1 = create_config_input(1, "provider8_1", 1, 2);
    let alias = create_config_input_alias(2, "http://alias1", 1, 1);
    cfg1.aliases = Some(vec![alias]);
    let mut lineup = MultiProviderLineup::new(&cfg1);
    should_available(lineup.acquire(true, 5), 1);
    should_available(lineup.acquire(true, 5), 2);
    should_available(lineup.acquire(true, 5), 1);
    should_grace_period(lineup.acquire(true, 5), 1);
    should_grace_period(lineup.acquire(true, 5), 2);
    lineup.release("provider8_1");
    lineup.release("alias_2");
    lineup.release("provider8_1");
    should_available(lineup.acquire(true, 5), 1);
    should_grace_period(lineup.acquire(true, 5), 1);
    should_grace_period(lineup.acquire(true, 5), 2);
    should_exhausted(lineup.acquire(true, 5));
}

#[test]
fn test_concurrent_acquire() {
    let cfg = create_config_input(1, "provider9_1", 1, 2);
    let mut lineup = SingleProviderLineup::new(&cfg);
    let mut available_count: u16 = 2;
    let mut grace_period_count: u16 = 1;
    let mut exhausted_count: u16 = 2;
    for _ in 0..5 {
        match lineup.acquire(true, 5) {
            ProviderAllocation::Exhausted => exhausted_count -= 1,
            ProviderAllocation::Available(_) => available_count -= 1,
            ProviderAllocation::GracePeriod(_) => grace_period_count -= 1,
        }
    }
    assert_eq!(exhausted_count, 0);
    assert_eq!(available_count, 0);
    assert_eq!(grace_period_count, 0);
}

#[test]
fn group_round_robin_wraps_to_free_provider() {
    let mut cfg = create_config_input(1, "wrap_1", 1, 1);
    cfg.aliases = Some(vec![create_config_input_alias(2, "http://alias_wrap", 1, 1)]);
    let mut lineup = MultiProviderLineup::new(&cfg);
    should_available(lineup.acquire_at(false, 5, 100), 1);
    should_available(lineup.acquire_at(false, 5, 100), 2);
    lineup.release("wrap_1");
    should_available(lineup.acquire_at(false, 5, 100), 1);
    lineup.release("wrap_1");
    // the round robin now points at the full provider 2; provider 1 is free
    should_available(lineup.acquire_at(false, 5, 100), 1);
}

#[test]
fn lineup_search_wraps_to_groups_before_its_index() {
    let mut cfg = create_config_input(1, "round_1", 1, 1);
    cfg.aliases = Some(vec![
        create_config_input_alias(2, "http://alias_round_a", 2, 1),
        create_config_input_alias(3, "http://alias_round_b", 3, 1),
    ]);
    let mut lineup = MultiProviderLineup::new(&cfg);
    should_available(lineup.acquire_at(false, 5, 100), 1);
    should_available(lineup.acquire_at(false, 5, 100), 2);
    should_available(lineup.acquire_at(false, 5, 100), 3);
    lineup.release("alias_2");
    should_available(lineup.acquire_at(false, 5, 100), 2);
    lineup.release("round_1");
    // the lineup's index points at the full third group; the first group is free
    should_available(lineup.acquire_at(false, 5, 100), 1);
}

#[test]
fn lineup_refuses_only_when_every_provider_is_full() {
    let mut cfg = create_config_input(1, "full_1", 1, 1);
    cfg.aliases = Some(vec![
        create_config_input_alias(2, "http://alias_full_a", 1, 1),
        create_config_input_alias(3, "http://alias_full_b", 2, 1),
    ]);
    let mut lineup = MultiProviderLineup::new(&cfg);
    should_available(lineup.acquire_at(false, 5, 100), 1);
    should_available(lineup.acquire_at(false, 5, 100), 2);
    should_available(lineup.acquire_at(false, 5, 100), 3);
    should_exhausted(lineup.acquire_at(false, 5, 100));
    lineup.release("alias_2");
    should_available(lineup.acquire_at(false, 5, 100), 2);
}
