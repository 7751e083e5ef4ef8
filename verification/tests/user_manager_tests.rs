use m3u_filter::api_model::PlaylistRequestType;
use m3u_filter::user_manager::{ActiveUserManager, UserConnectionPermission};

#[test]
fn connections_are_counted_per_user() {
    let mut m = ActiveUserManager::new(2000, 60, false);
    m.add_connection("alice", 2);
    m.add_connection("alice", 2);
    m.add_connection("bob", 1);
    assert_eq!(m.user_connections("alice"), 2);
    assert_eq!(m.user_connections("bob"), 1);
    assert_eq!(m.active_users(), 2);
    assert_eq!(m.active_connections(), 3);
    m.remove_connection("alice");
    assert_eq!(m.user_connections("alice"), 1);
    assert_eq!(m.active_connections(), 2);
}

#[test]
fn permission_grants_grace_once() {
    let mut m = ActiveUserManager::new(2000, 60, false);
    m.add_connection("carol", 1);
    assert_eq!(m.connection_permission_at("carol", 1, 1000), UserConnectionPermission::GracePeriod);
    assert_eq!(m.connection_permission_at("carol", 1, 1010), UserConnectionPermission::Exhausted);
    assert_eq!(m.connection_permission_at("carol", 1, 1100), UserConnectionPermission::GracePeriod);
    m.remove_connection("carol");
    assert_eq!(m.connection_permission_at("carol", 1, 1101), UserConnectionPermission::Allowed);
    assert_eq!(m.connection_permission_at("nobody", 1, 1101), UserConnectionPermission::Allowed);
    assert_eq!(m.connection_permission_at("carol", 0, 1101), UserConnectionPermission::Allowed);
}

#[test]
fn no_grace_without_grace_period() {
    let mut m = ActiveUserManager::new(0, 60, true);
    assert!(m.log_active_user());
    m.add_connection("dave", 1);
    assert_eq!(m.connection_permission_at("dave", 1, 5), UserConnectionPermission::Exhausted);
}

#[test]
fn sessions_are_found_by_token() {
    let mut m = ActiveUserManager::new(2000, 60, false);
    assert_eq!(m.create_user_session_at("erin", 1, "p", "u", UserConnectionPermission::Allowed, 99, 10), None);
    m.add_connection("erin", 1);
    assert_eq!(m.create_user_session_at("erin", 1, "p", "http://u", UserConnectionPermission::Allowed, 99, 10), Some(99));
    let s = m.update_user_session_at("erin", 99, 20).expect("session");
    assert_eq!(s.token, 99);
    assert_eq!(s.virtual_id, 1);
    assert_eq!(s.provider, "p");
    assert_eq!(s.stream_url, "http://u");
    assert!(m.update_user_session_at("erin", 5, 20).is_none());
}

#[test]
fn playlist_request_type_codes() {
    assert_eq!(PlaylistRequestType::from_code(1), Some(PlaylistRequestType::Input));
    assert_eq!(PlaylistRequestType::from_code(4), Some(PlaylistRequestType::M3U));
    assert_eq!(PlaylistRequestType::from_code(0), None);
    assert_eq!(PlaylistRequestType::from_code(5), None);
    assert_eq!(PlaylistRequestType::Xtream.code(), 3);
    assert_eq!(PlaylistRequestType::default_type(), PlaylistRequestType::Input);
}

use m3u_filter::api_model::{create_config_input_for_m3u, create_config_input_for_xtream, playlist_source, PlaylistRequest, PlaylistSource};
use m3u_filter::config::InputType;

fn request(rtype: PlaylistRequestType, url: Option<&str>, user: Option<&str>, pass: Option<&str>, source_id: Option<u16>) -> PlaylistRequest {
    PlaylistRequest {
        rtype,
        username: user.map(str::to_string),
        password: pass.map(str::to_string),
        url: url.map(str::to_string),
        source_id,
        source_name: None,
    }
}

#[test]
fn request_inputs() {
    let m3u = create_config_input_for_m3u("http://list.m3u");
    assert_eq!(m3u.name, "m3u_req");
    assert_eq!(m3u.url, "http://list.m3u");
    assert_eq!(m3u.input_type, InputType::M3u);
    assert!(m3u.options.unwrap().xtream_live_stream_use_prefix);
    let xc = create_config_input_for_xtream("u", "p", "http://host");
    assert_eq!(xc.name, "xc_req");
    assert_eq!(xc.url, "http://host");
    assert_eq!(xc.username, Some("u".to_string()));
    assert_eq!(xc.password, Some("p".to_string()));
    assert_eq!(xc.input_type, InputType::Xtream);
}

#[test]
fn playlist_sources() {
    assert!(matches!(playlist_source(&request(PlaylistRequestType::Input, None, None, None, Some(3))), Ok(PlaylistSource::Input(3))));
    assert_eq!(playlist_source(&request(PlaylistRequestType::Input, None, None, None, None)).err(), Some("Invalid input".to_string()));
    assert!(matches!(playlist_source(&request(PlaylistRequestType::Target, None, None, None, Some(4))), Ok(PlaylistSource::Target(4))));
    assert_eq!(playlist_source(&request(PlaylistRequestType::Target, None, None, None, None)).err(), Some("Invalid target".to_string()));
    match playlist_source(&request(PlaylistRequestType::Xtream, Some("http://h"), Some("u"), Some("p"), None)) {
        Ok(PlaylistSource::Custom(input)) => {
            assert_eq!(input.url, "http://h");
            assert_eq!(input.input_type, InputType::Xtream);
        },
        _ => panic!("expected a custom input"),
    }
    assert_eq!(playlist_source(&request(PlaylistRequestType::Xtream, Some("http://h"), None, Some("p"), None)).err(), Some("Invalid url".to_string()));
    match playlist_source(&request(PlaylistRequestType::M3U, Some("http://l"), None, None, None)) {
        Ok(PlaylistSource::Custom(input)) => assert_eq!(input.name, "m3u_req"),
        _ => panic!("expected a custom input"),
    }
    assert_eq!(playlist_source(&request(PlaylistRequestType::M3U, None, None, None, None)).err(), Some("Invalid url".to_string()));
}

use m3u_filter::api_model::is_web_auth_enabled;

#[test]
fn web_auth_switch() {
    assert!(is_web_auth_enabled(true, Some(true)));
    assert!(!is_web_auth_enabled(true, Some(false)));
    assert!(!is_web_auth_enabled(true, None));
    assert!(!is_web_auth_enabled(false, Some(true)));
}

#[test]
fn unknown_user_has_no_connections() {
    let m = ActiveUserManager::new(0, 0, false);
    assert_eq!(m.user_connections("alice"), 0);
}

#[test]
fn permission_sequence_of_a_full_user() {
    let mut m = ActiveUserManager::new(2000, 60, false);
    m.add_connection("frank", 3);
    m.add_connection("frank", 3);
    m.add_connection("frank", 3);
    assert_eq!(m.connection_permission_at("frank", 3, 500), UserConnectionPermission::GracePeriod);
    assert_eq!(m.connection_permission_at("frank", 3, 500), UserConnectionPermission::Exhausted);
    assert_eq!(m.connection_permission_at("frank", 0, 500), UserConnectionPermission::Allowed);
    assert_eq!(m.connection_permission_at("stranger", 3, 500), UserConnectionPermission::Allowed);
}

#[test]
fn session_with_random_token_is_found_again() {
    let mut m = ActiveUserManager::new(2000, 60, false);
    m.add_connection("gina", 2);
    let token = m.create_user_session("gina", 7, "prov", "http://s", UserConnectionPermission::Allowed);
    let token = token.expect("the system random source is available");
    let session = m.update_user_session_at("gina", token, 10).expect("session is found");
    assert_eq!(session.token, token);
    assert_eq!(session.virtual_id, 7);
    assert_eq!(m.create_user_session("nobody", 1, "p", "u", UserConnectionPermission::Allowed), None);
}

#[test]
fn permission_sequence_of_a_returning_user() {
    let mut m = ActiveUserManager::new(2000, 60, false);
    m.add_connection("hana", 2);
    m.remove_connection("hana");
    m.add_connection("hana", 2);
    m.add_connection("hana", 2);
    assert_eq!(m.connection_permission_at("hana", 2, 700), UserConnectionPermission::GracePeriod);
    assert_eq!(m.connection_permission_at("hana", 2, 760), UserConnectionPermission::Exhausted);
}
