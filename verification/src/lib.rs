//! Verified core of the m3u-filter streaming API: provider and user connection
//! accounting, stream chunking, request parsing and the small text formats the
//! API speaks.

pub mod api_model;
pub mod chunked_buffer;
pub mod clock;
pub mod config;
pub mod epg;
pub mod hdhomerun;
pub mod player_api;
pub mod playlist;
pub mod provider_config;
pub mod provider_lineup;
pub mod provider_manager;
pub mod provider_stream;
pub mod selection;
pub mod session_cookie;
pub mod stream_options;
pub mod stream_response;
pub mod text;
pub mod timeshift;
pub mod ts_stream;
pub mod user_manager;
pub mod video_stream;
pub mod xtream;
