//! The values the API receives and answers with.

use vstd::prelude::*;
use crate::config::{ConfigInput, ConfigInputOptions, InputType, opt_view};
use crate::text::push_str;

verus! {

/// The user part of an Xtream authorization answer.
pub struct XtreamUserInfo {
    pub active_cons: String,
    pub allowed_output_formats: Vec<String>,
    pub auth: u16,
    pub created_at: i64,
    pub exp_date: i64,
    pub is_trial: String,
    pub max_connections: String,
    pub message: String,
    pub password: String,
    pub username: String,
    pub status: String,
}

/// The server part of an Xtream authorization answer.
pub struct XtreamServerInfo {
    pub url: String,
    pub port: String,
    pub https_port: String,
    pub server_protocol: String,
    pub rtmp_port: String,
    pub timezone: String,
    pub timestamp_now: i64,
    pub time_now: String,
}

/// The answer to an Xtream authorization request.
pub struct XtreamAuthorizationResponse {
    pub user_info: XtreamUserInfo,
    pub server_info: XtreamServerInfo,
}

/// The server description handed to the web UI.
pub struct XtreamServerInfoDto {
    pub url: String,
    pub port: String,
    pub path: Option<String>,
    pub protocol: String,
    pub timezone: String,
    pub timestamp_now: i64,
    pub time_now: String,
}

/// The query or form parameters of a player API request; absent ones are
/// empty.
pub struct UserApiRequest {
    pub username: String,
    pub password: String,
    pub token: String,
    pub action: String,
    pub series_id: String,
    pub vod_id: String,
    pub stream_id: String,
    pub category_id: String,
    pub limit: String,
    pub start: String,
    pub end: String,
    pub stream: String,
    pub duration: String,
    pub content_type: String,
}

/// What a playlist request of the web UI names.
#[derive(Clone, Copy, Debug, PartialEq, Eq, Structural)]
pub enum PlaylistRequestType {
    Input,
    Target,
    Xtream,
    M3U,
}

impl PlaylistRequestType {
    /// The number the type is sent as.
    pub open spec fn spec_code(self) -> u8 {
        match self {
            PlaylistRequestType::Input => 1,
            PlaylistRequestType::Target => 2,
            PlaylistRequestType::Xtream => 3,
            PlaylistRequestType::M3U => 4,
        }
    }

    /// The number the type is sent as.
    pub fn code(&self) -> (r: u8)
        ensures
            r == self.spec_code(),
    {
        match self {
            PlaylistRequestType::Input => 1,
            PlaylistRequestType::Target => 2,
            PlaylistRequestType::Xtream => 3,
            PlaylistRequestType::M3U => 4,
        }
    }

    /// The type a number stands for: 1 to 4; None for any other number.
    pub fn from_code(value: u8) -> (r: Option<Self>)
        ensures
            match r {
                Some(t) => t.spec_code() == value,
                None => value < 1 || value > 4,
            },
    {
        if value == 1 {
            Some(PlaylistRequestType::Input)
        } else if value == 2 {
            Some(PlaylistRequestType::Target)
        } else if value == 3 {
            Some(PlaylistRequestType::Xtream)
        } else if value == 4 {
            Some(PlaylistRequestType::M3U)
        } else {
            None
        }
    }

    /// The type a request names when it names none.
    pub fn default_type() -> (r: Self)
        ensures
            r == PlaylistRequestType::Input,
    {
        PlaylistRequestType::Input
    }
}

/// A playlist request of the web UI.
pub struct PlaylistRequest {
    pub rtype: PlaylistRequestType,
    pub username: Option<String>,
    pub password: Option<String>,
    pub url: Option<String>,
    pub source_id: Option<u16>,
    pub source_name: Option<String>,
}

/// A request to download a file.
pub struct FileDownloadRequest {
    pub url: String,
    pub filename: String,
}

/// The groups a user picked per cluster.
pub struct PlaylistCategories {
    pub live: Option<Vec<String>>,
    pub vod: Option<Vec<String>>,
    pub series: Option<Vec<String>>,
}

/// An input as the configuration UI shows it.
pub struct ServerInputConfig {
    pub id: u16,
    pub input_type: InputType,
    pub url: String,
    pub username: Option<String>,
    pub password: Option<String>,
    pub persist: Option<String>,
    pub name: Option<String>,
    pub enabled: bool,
}

/// A client stream opening or closing, with the user and the input.
pub enum Event {
    StreamConnect((String, Option<String>)),
    StreamDisconnect((String, Option<String>)),
}

/// The options of an input made for a single playlist request: nothing
/// skipped, live streams with the `live` prefix.
pub open spec fn request_input_options() -> ConfigInputOptions {
    ConfigInputOptions {
        xtream_skip_live: false,
        xtream_skip_vod: false,
        xtream_skip_series: false,
        xtream_live_stream_without_extension: false,
        xtream_live_stream_use_prefix: true,
    }
}

/// An owned copy of a string.
fn owned(s: &str) -> (r: String)
    ensures
        r@ == s@,
{
    let mut r = String::new();
    push_str(&mut r, s);
    proof {
        assert(r@ =~= s@);
    }
    r
}

fn default_request_options() -> (r: ConfigInputOptions)
    ensures
        r == request_input_options(),
{
    ConfigInputOptions {
        xtream_skip_live: false,
        xtream_skip_vod: false,
        xtream_skip_series: false,
        xtream_live_stream_without_extension: false,
        xtream_live_stream_use_prefix: true,
    }
}

/// The input for an M3U playlist requested by its url.
pub fn create_config_input_for_m3u(url: &str) -> (r: ConfigInput)
    ensures
        r.id == 0,
        r.name@ == "m3u_req"@,
        r.input_type == InputType::M3u,
        r.url@ == url@,
        r.username is None,
        r.password is None,
        r.max_connections == 0,
        r.priority == 0,
        r.aliases is None,
        r.options == Some(request_input_options()),
{
    ConfigInput {
        id: 0,
        name: owned("m3u_req"),
        url: owned(url),
        username: None,
        password: None,
        input_type: InputType::M3u,
        max_connections: 0,
        priority: 0,
        aliases: None,
        options: Some(default_request_options()),
    }
}

/// The input for an Xtream playlist requested by its account.
pub fn create_config_input_for_xtream(username: &str, password: &str, host: &str) -> (r: ConfigInput)
    ensures
        r.id == 0,
        r.name@ == "xc_req"@,
        r.input_type == InputType::Xtream,
        r.url@ == host@,
        opt_view(r.username) == Some(username@),
        opt_view(r.password) == Some(password@),
        r.max_connections == 0,
        r.priority == 0,
        r.aliases is None,
        r.options == Some(request_input_options()),
{
    ConfigInput {
        id: 0,
        name: owned("xc_req"),
        url: owned(host),
        username: Some(owned(username)),
        password: Some(owned(password)),
        input_type: InputType::Xtream,
        max_connections: 0,
        priority: 0,
        aliases: None,
        options: Some(default_request_options()),
    }
}

/// Where the playlist of a web UI request comes from.
pub enum PlaylistSource {
    /// A configured input, by id.
    Input(u16),
    /// A configured target, by id.
    Target(u16),
    /// An input made for this request.
    Custom(ConfigInput),
}

/// The message for a request that lacks what its type needs.
pub open spec fn spec_playlist_request_error(rtype: PlaylistRequestType) -> Seq<char> {
    match rtype {
        PlaylistRequestType::Input => "Invalid input"@,
        PlaylistRequestType::Target => "Invalid target"@,
        _ => "Invalid url"@,
    }
}

/// Decides where the playlist of a request comes from: inputs and targets
/// need the source id; Xtream requests need url, user name and password;
/// M3U requests need the url.
pub fn playlist_source(req: &PlaylistRequest) -> (r: Result<PlaylistSource, String>)
    ensures
        match req.rtype {
            PlaylistRequestType::Input => match req.source_id {
                Some(id) => r matches Ok(PlaylistSource::Input(i)) && i == id,
                None => r is Err,
            },
            PlaylistRequestType::Target => match req.source_id {
                Some(id) => r matches Ok(PlaylistSource::Target(i)) && i == id,
                None => r is Err,
            },
            PlaylistRequestType::Xtream => {
                if req.url is Some && req.username is Some && req.password is Some {
                    r matches Ok(PlaylistSource::Custom(input)) && {
                        &&& input.input_type == InputType::Xtream
                        &&& Some(input.url@) == opt_view(req.url)
                        &&& opt_view(input.username) == opt_view(req.username)
                        &&& opt_view(input.password) == opt_view(req.password)
                        &&& input.name@ == "xc_req"@
                        &&& input.options == Some(request_input_options())
                    }
                } else {
                    r is Err
                }
            },
            PlaylistRequestType::M3U => match req.url {
                Some(u) => r matches Ok(PlaylistSource::Custom(input)) && {
                    &&& input.input_type == InputType::M3u
                    &&& input.url@ == u@
                    &&& input.name@ == "m3u_req"@
                    &&& input.options == Some(request_input_options())
                },
                None => r is Err,
            },
        },
        r matches Err(msg) ==> msg@ == spec_playlist_request_error(req.rtype),
{
    match req.rtype {
        PlaylistRequestType::Input => match req.source_id {
            Some(id) => Ok(PlaylistSource::Input(id)),
            None => Err(owned("Invalid input")),
        },
        PlaylistRequestType::Target => match req.source_id {
            Some(id) => Ok(PlaylistSource::Target(id)),
            None => Err(owned("Invalid target")),
        },
        PlaylistRequestType::Xtream => match (&req.url, &req.username, &req.password) {
            (Some(url), Some(username), Some(password)) => {
                Ok(PlaylistSource::Custom(create_config_input_for_xtream(username.as_str(), password.as_str(), url.as_str())))
            },
            _ => Err(owned("Invalid url")),
        },
        PlaylistRequestType::M3U => match &req.url {
            Some(url) => Ok(PlaylistSource::Custom(create_config_input_for_m3u(url.as_str()))),
            None => Err(owned("Invalid url")),
        },
    }
}

/// Whether the web UI asks for a login: only when the UI is served and its
/// authentication is configured and enabled.
pub fn is_web_auth_enabled(web_ui_enabled: bool, auth_enabled: Option<bool>) -> (r: bool)
    ensures
        r == (web_ui_enabled && auth_enabled == Some(true)),
{
    if web_ui_enabled {
        match auth_enabled {
            Some(enabled) => enabled,
            None => false,
        }
    } else {
        false
    }
}

} // verus!
