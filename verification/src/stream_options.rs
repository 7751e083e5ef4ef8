//! How a stream request is served: piped or buffered, shared, throttled,
//! with which grace period and which request headers.

use vstd::prelude::*;
use crate::playlist::{PlaylistItemType, is_live_type};
use crate::text::{str_eq, spec_parse_usize, parse_usize_range, decimal, push_decimal_usize, push_str,
    is_ascii_digit, parse_int_value};
use crate::session_cookie::lemma_decimal_denotes;
use crate::user_manager::UserConnectionPermission;

verus! {

/// The number of chunks a stream queue holds when no buffer size is set.
pub const STREAM_QUEUE_SIZE: usize = 1024;

/// The `buffer` section of the stream settings.
#[derive(Clone, Copy, Debug, PartialEq, Eq, Structural)]
pub struct StreamBufferConfig {
    pub enabled: bool,
    pub size: usize,
}

/// The `reverse_proxy.stream` settings.
#[derive(Clone, Copy, Debug, PartialEq, Eq, Structural)]
pub struct StreamConfig {
    pub retry: bool,
    pub forced_retry_interval_secs: u32,
    pub buffer: Option<StreamBufferConfig>,
    pub throttle_kbps: u64,
    pub grace_period_millis: u64,
}

/// The options a stream is served with.
#[derive(Clone, Copy, Debug, PartialEq, Eq, Structural)]
pub struct StreamOptions {
    pub stream_retry: bool,
    pub stream_force_retry_secs: u32,
    pub buffer_enabled: bool,
    pub buffer_size: usize,
    pub pipe_provider_stream: bool,
}

/// The stream options the settings give: without settings nothing is
/// retried or buffered; the provider stream is piped as it is exactly when
/// neither retry nor buffer is enabled.
pub fn get_stream_options(stream: Option<StreamConfig>) -> (r: StreamOptions)
    ensures
        match stream {
            None => r == StreamOptions {
                stream_retry: false,
                stream_force_retry_secs: 0,
                buffer_enabled: false,
                buffer_size: 0,
                pipe_provider_stream: true,
            },
            Some(s) => {
                &&& r.stream_retry == s.retry
                &&& r.stream_force_retry_secs == s.forced_retry_interval_secs
                &&& r.buffer_enabled == (s.buffer matches Some(b) && b.enabled)
                &&& r.buffer_size == (match s.buffer { Some(b) => b.size, None => 0 })
            },
        },
        r.pipe_provider_stream == (!r.stream_retry && !r.buffer_enabled),
{
    let (stream_retry, stream_force_retry_secs, buffer_enabled, buffer_size) = match stream {
        None => (false, 0, false, 0),
        Some(s) => {
            let (buffer_enabled, buffer_size) = match s.buffer {
                None => (false, 0),
                Some(b) => (b.enabled, b.size),
            };
            (s.retry, s.forced_retry_interval_secs, buffer_enabled, buffer_size)
        },
    };
    let pipe_provider_stream = !stream_retry && !buffer_enabled;
    StreamOptions { stream_retry, stream_force_retry_secs, buffer_enabled, buffer_size, pipe_provider_stream }
}

/// The configured throttle in kbit/s, 0 when none is set.
pub fn get_stream_throttle(stream: Option<StreamConfig>) -> (r: u64)
    ensures
        r == (match stream { Some(s) => s.throttle_kbps, None => 0 }),
{
    match stream {
        Some(s) => s.throttle_kbps,
        None => 0,
    }
}

/// Whether a stream is throttled: only video and series content, and only
/// with a throttle above zero.
pub fn is_throttled_stream(item_type: PlaylistItemType, throttle_kbps: usize) -> (r: bool)
    ensures
        r == (throttle_kbps > 0 && (item_type is Video || item_type is Series || item_type is SeriesInfo)),
{
    throttle_kbps > 0 && match item_type {
        PlaylistItemType::Video | PlaylistItemType::Series | PlaylistItemType::SeriesInfo => true,
        _ => false,
    }
}

/// The options of a target that the stream logic reads.
#[derive(Clone, Copy, Debug, PartialEq, Eq, Structural)]
pub struct ConfigTargetOptions {
    pub ignore_logo: bool,
    pub share_live_streams: bool,
    pub remove_duplicates: bool,
}

/// Whether live streams of a target are shared between its users: only
/// plain live streams, and only when the target's options say so.
pub fn is_stream_share_enabled(item_type: PlaylistItemType, target_options: Option<ConfigTargetOptions>) -> (r: bool)
    ensures
        r == (item_type is Live && (target_options matches Some(o) && o.share_live_streams)),
{
    match item_type {
        PlaylistItemType::Live => match target_options {
            Some(o) => o.share_live_streams,
            None => false,
        },
        _ => false,
    }
}

/// The grace period a stream gets: the configured one when the provider or
/// the user is in its grace period, else none.
pub fn get_grace_period_millis(
    connection_permission: UserConnectionPermission,
    provider_grace_period: bool,
    config_grace_period_millis: u64,
) -> (r: u64)
    ensures
        r == (if config_grace_period_millis > 0 && (provider_grace_period || connection_permission is GracePeriod) {
            config_grace_period_millis
        } else {
            0
        }),
{
    let user_grace = match connection_permission {
        UserConnectionPermission::GracePeriod => true,
        _ => false,
    };
    if config_grace_period_millis > 0 && (provider_grace_period || user_grace) {
        config_grace_period_millis
    } else {
        0
    }
}

/// Options of a buffered provider stream.
pub struct BufferStreamOptions {
    item_type: PlaylistItemType,
    reconnect_enabled: bool,
    buffer_enabled: bool,
    buffer_size: usize,
}

impl BufferStreamOptions {
    /// The item type the stream serves.
    pub closed spec fn spec_item_type(&self) -> PlaylistItemType {
        self.item_type
    }

    /// Whether a lost provider connection is reopened.
    pub closed spec fn spec_reconnect(&self) -> bool {
        self.reconnect_enabled
    }

    /// Whether the stream is buffered.
    pub closed spec fn spec_buffer_enabled(&self) -> bool {
        self.buffer_enabled
    }

    /// The configured buffer size, in chunks.
    pub closed spec fn spec_buffer_size(&self) -> usize {
        self.buffer_size
    }

    pub fn new(item_type: PlaylistItemType, reconnect_enabled: bool, buffer_enabled: bool, buffer_size: usize) -> (r: Self)
        ensures
            r.spec_item_type() == item_type,
            r.spec_reconnect() == reconnect_enabled,
            r.spec_buffer_enabled() == buffer_enabled,
            r.spec_buffer_size() == buffer_size,
    {
        BufferStreamOptions { item_type, reconnect_enabled, buffer_enabled, buffer_size }
    }

    pub fn is_buffer_enabled(&self) -> (r: bool)
        ensures
            r == self.spec_buffer_enabled(),
    {
        self.buffer_enabled
    }

    pub fn is_reconnect_enabled(&self) -> (r: bool)
        ensures
            r == self.spec_reconnect(),
    {
        self.reconnect_enabled
    }

    /// The queue size of the stream: the configured size, or
    /// `STREAM_QUEUE_SIZE` when none is configured.
    pub fn get_stream_buffer_size(&self) -> (r: usize)
        ensures
            r == (if self.spec_buffer_size() > 0 { self.spec_buffer_size() } else { STREAM_QUEUE_SIZE }),
    {
        if self.buffer_size > 0 { self.buffer_size } else { STREAM_QUEUE_SIZE }
    }

    /// The number of chunks the client side of the stream queues: the
    /// stream buffer size when buffering, else one.
    pub fn client_queue_size(&self) -> (r: usize)
        ensures
            r == (if self.spec_buffer_enabled() {
                if self.spec_buffer_size() > 0 { self.spec_buffer_size() } else { STREAM_QUEUE_SIZE }
            } else {
                1
            }),
    {
        if self.is_buffer_enabled() { self.get_stream_buffer_size() } else { 1 }
    }
}

/// The filter a request's headers pass before they are sent to a provider.
#[derive(Clone, Copy, Debug, PartialEq, Eq, Structural)]
pub enum HeaderFilter {
    /// Drops the range headers, which live streams cannot serve.
    WithoutRange,
}

/// The header names a live stream request does not forward.
pub open spec fn is_range_header(key: Seq<char>) -> bool {
    key == "accept-ranges"@ || key == "range"@ || key == "content-range"@
}

impl HeaderFilter {
    /// Whether a header with this name passes the filter.
    pub fn accepts(&self, key: &str) -> (r: bool)
        ensures
            r == !is_range_header(key@),
    {
        !(str_eq(key, "accept-ranges") || str_eq(key, "range") || str_eq(key, "content-range"))
    }
}

/// The header filter for an item type: live streams drop the range
/// headers, everything else forwards all headers.
pub fn get_header_filter_for_item_type(item_type: PlaylistItemType) -> (r: Option<HeaderFilter>)
    ensures
        r == (if is_live_type(item_type) { Some(HeaderFilter::WithoutRange) } else { None::<HeaderFilter> }),
{
    match item_type {
        PlaylistItemType::Live | PlaylistItemType::LiveHls | PlaylistItemType::LiveDash
        | PlaylistItemType::LiveUnknown => Some(HeaderFilter::WithoutRange),
        _ => None,
    }
}

/// Whether a header passes an optional filter.
pub open spec fn header_passes(filter: Option<HeaderFilter>, key: Seq<char>) -> bool {
    match filter {
        None => true,
        Some(_) => !is_range_header(key),
    }
}

/// The characters the bytes stand for, one each.
pub open spec fn bytes_as_chars(b: Seq<u8>) -> Seq<char> {
    b.map_values(|x: u8| x as char)
}

/// The position of the first `b`, or -1.
pub open spec fn first_index_of_byte(s: Seq<u8>, b: u8) -> int
    decreases s.len(),
{
    if s.len() == 0 {
        -1
    } else if s[0] == b {
        0
    } else {
        let k = first_index_of_byte(s.drop_first(), b);
        if k < 0 { -1 } else { k + 1 }
    }
}

/// The unit a byte range is given in.
pub open spec fn range_unit() -> Seq<u8> {
    seq![98u8, 121u8, 116u8, 101u8, 115u8, 61u8]
}

/// The first byte offset a `Range` header value asks for: the value must
/// start with `bytes=`, and the part up to the first `-` after it must be a
/// `usize`.
pub open spec fn spec_range_start(value: Seq<u8>) -> Option<usize> {
    if value.len() >= 6 && value.take(6) == range_unit() {
        let rest = value.skip(6);
        let k = first_index_of_byte(rest, 45u8);
        if k < 0 {
            None
        } else {
            spec_parse_usize(bytes_as_chars(rest.take(k)))
        }
    } else {
        None
    }
}

/// The first byte offset a `Range` header value (`bytes=1234-5566/2345345`
/// or `bytes=0-`) asks for, so that a stream can resume there.
pub fn get_request_range_start_bytes(value: &[u8]) -> (r: Option<usize>)
    ensures
        r == spec_range_start(value@),
{
    let n = value.len();
    if n < 6 {
        return None;
    }
    let unit: [u8; 6] = [98u8, 121u8, 116u8, 101u8, 115u8, 61u8];
    let mut k: usize = 0;
    while k < 6
        invariant
            n == value@.len(),
            n >= 6,
            k <= 6,
            unit@ == range_unit(),
            forall|j: int| 0 <= j < k ==> value@[j] == range_unit()[j],
        decreases 6 - k,
    {
        if value[k] != unit[k] {
            proof {
                assert(value@.take(6)[k as int] != range_unit()[k as int]);
            }
            return None;
        }
        k = k + 1;
    }
    proof {
        assert(value@.take(6) =~= range_unit());
    }
    let ghost rest = value@.skip(6);
    let mut i: usize = 6;
    let mut chars: Vec<char> = Vec::new();
    while i < n && value[i] != 45u8
        invariant
            n == value@.len(),
            6 <= i <= n,
            rest == value@.skip(6),
            forall|j: int| 0 <= j < i - 6 ==> rest[j] != 45u8,
            chars@ == bytes_as_chars(rest.take(i - 6)),
        decreases n - i,
    {
        let b = value[i];
        chars.push(b as char);
        proof {
            assert(rest[i - 6] == b);
            assert(rest.take(i - 5) =~= rest.take(i - 6).push(b));
            assert(bytes_as_chars(rest.take(i - 5)) =~= bytes_as_chars(rest.take(i - 6)).push(b as char));
        }
        i = i + 1;
    }
    proof {
        lemma_first_index_of_byte(rest, 45u8, i - 6);
    }
    if i == n {
        return None;
    }
    proof {
        assert(chars@.subrange(0, chars@.len() as int) =~= chars@);
    }
    parse_usize_range(&chars, 0, chars.len())
}

/// The first index found by a scan is the first index the spec names.
pub proof fn lemma_first_index_of_byte(s: Seq<u8>, b: u8, k: int)
    requires
        0 <= k <= s.len(),
        forall|j: int| 0 <= j < k ==> s[j] != b,
        k < s.len() ==> s[k] == b,
    ensures
        first_index_of_byte(s, b) == (if k < s.len() { k } else { -1 }),
    decreases k,
{
    if k > 0 {
        lemma_first_index_of_byte(s.drop_first(), b, k - 1);
    }
}

/// The `Range` header value that resumes a stream at byte `start`:
/// `bytes={start}-`.
pub fn range_header_value(start: usize) -> (r: String)
    ensures
        r@ == "bytes="@ + decimal(start as nat) + "-"@,
{
    let mut s = String::new();
    push_str(&mut s, "bytes=");
    push_decimal_usize(&mut s, start);
    push_str(&mut s, "-");
    s
}

/// The bytes of a text of ASCII characters.
pub open spec fn ascii_bytes(s: Seq<char>) -> Seq<u8> {
    s.map_values(|c: char| c as u8)
}

/// Reading the start of a range that `range_header_value` wrote gives the
/// start back.
pub proof fn lemma_range_round_trip(start: usize)
    ensures
        spec_range_start(ascii_bytes("bytes="@ + decimal(start as nat) + "-"@)) == Some(start),
{
    reveal_strlit("bytes=");
    reveal_strlit("-");
    let d = decimal(start as nat);
    lemma_decimal_denotes(start as nat);
    let text = "bytes="@ + d + "-"@;
    let value = ascii_bytes(text);
    assert(value.take(6) =~= range_unit());
    let rest = value.skip(6);
    let db = ascii_bytes(d);
    assert(rest =~= db.push(45u8));
    assert forall|j: int| 0 <= j < db.len() implies db[j] != 45u8 by {
        assert(is_ascii_digit(d[j]));
    }
    lemma_first_index_of_byte(rest, 45u8, db.len() as int);
    assert(rest.take(db.len() as int) =~= db);
    assert forall|j: int| 0 <= j < d.len() implies (d[j] as u8) as char == d[j] by {
        assert(is_ascii_digit(d[j]));
    }
    assert(bytes_as_chars(db) =~= d);
    assert(is_ascii_digit(d[0]));
    assert(parse_int_value(d, false) == Some(start as int));
}

} // verus!
