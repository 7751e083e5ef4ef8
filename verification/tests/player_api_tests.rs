use m3u_filter::config::{ConfigInput, ConfigInputOptions, InputType};
use m3u_filter::playlist::XtreamCluster;
use m3u_filter::player_api::{
    get_skip_flags, parse_action, plan_player_api, plan_player_api_request, PlayerApiPlan, XtreamApiAction,
};

fn input(options: Option<ConfigInputOptions>) -> ConfigInput {
    ConfigInput {
        id: 1,
        name: "in".to_string(),
        url: "http://p".to_string(),
        username: None,
        password: None,
        input_type: InputType::Xtream,
        max_connections: 0,
        priority: 0,
        aliases: None,
        options,
    }
}

fn opts(live: bool, vod: bool, series: bool) -> Option<ConfigInputOptions> {
    Some(ConfigInputOptions {
        xtream_skip_live: live,
        xtream_skip_vod: vod,
        xtream_skip_series: series,
        xtream_live_stream_without_extension: false,
        xtream_live_stream_use_prefix: true,
    })
}

#[test]
fn actions_by_name() {
    assert_eq!(parse_action("get_account_info"), XtreamApiAction::AccountInfo);
    assert_eq!(parse_action("get_epg"), XtreamApiAction::ShortEpg);
    assert_eq!(parse_action("get_short_epg"), XtreamApiAction::ShortEpg);
    assert_eq!(parse_action("get_simple_data_table"), XtreamApiAction::CatchupTable);
    assert_eq!(parse_action("get_series"), XtreamApiAction::Series);
    assert_eq!(parse_action("get_vod_categories"), XtreamApiAction::VodCategories);
    assert_eq!(parse_action("get_everything"), XtreamApiAction::Unknown);
}

#[test]
fn skip_flags_over_inputs() {
    assert_eq!(get_skip_flags(None), (false, false, false));
    assert_eq!(get_skip_flags(Some(&Vec::new())), (true, true, true));
    let v = vec![input(opts(true, false, true)), input(opts(true, true, false))];
    assert_eq!(get_skip_flags(Some(&v)), (true, false, false));
    let w = vec![input(opts(true, true, true)), input(None)];
    assert_eq!(get_skip_flags(Some(&w)), (false, false, false));
}

#[test]
fn player_api_plans() {
    let none = (false, false, false);
    assert_eq!(plan_player_api(false, "get_series", false, none), PlayerApiPlan::UserInfo);
    assert_eq!(plan_player_api(true, "  ", false, none), PlayerApiPlan::UserInfo);
    assert_eq!(plan_player_api(true, "get_series", true, none), PlayerApiPlan::Forbidden);
    assert_eq!(plan_player_api(true, " get_account_info ", false, none), PlayerApiPlan::UserInfo);
    assert_eq!(plan_player_api(true, "get_series", false, none), PlayerApiPlan::Streams(XtreamCluster::Series));
    assert_eq!(plan_player_api(true, "get_series", false, (false, false, true)), PlayerApiPlan::EmptyList);
    assert_eq!(plan_player_api(true, "get_live_categories", false, (true, true, true)), PlayerApiPlan::Categories(XtreamCluster::Live));
    assert_eq!(plan_player_api(true, "get_vod_info", false, (false, true, false)), PlayerApiPlan::EmptyList);
    assert_eq!(plan_player_api(true, "get_vod_info", false, none), PlayerApiPlan::VodInfo);
    assert_eq!(plan_player_api(true, "get_simple_data_table", false, none), PlayerApiPlan::CatchupTable);
    assert_eq!(plan_player_api(true, "what", false, none), PlayerApiPlan::EmptyList);
}

#[test]
fn player_api_request_without_user_is_bad_request() {
    let none = (false, false, false);
    assert_eq!(plan_player_api_request(false, true, "get_series", false, none), PlayerApiPlan::BadRequest);
    assert_eq!(plan_player_api_request(false, false, "", true, none), PlayerApiPlan::BadRequest);
    assert_eq!(plan_player_api_request(true, true, "no_such_action", false, none), PlayerApiPlan::EmptyList);
    assert_eq!(plan_player_api_request(true, true, "get_vod_streams", false, none), PlayerApiPlan::Streams(XtreamCluster::Video));
}
