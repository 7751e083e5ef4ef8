//! The decisions taken while a provider stream is opened and kept open:
//! whether it is buffered, whether it is reopened when it breaks, and what
//! each answer of the provider means for the next attempt.

use vstd::prelude::*;

verus! {

/// How many failed attempts the first connection may take.
pub const ERR_MAX_RETRY_COUNT: u32 = 5;

/// How many seconds the first connection may take.
pub const RETRY_SECONDS: u64 = 5;

/// Whether the provider stream runs through a buffer before the client:
/// only when it is buffered, neither piped nor shared.
pub fn use_buffered_stream(piped: bool, buffer_enabled: bool, shared: bool) -> (r: bool)
    ensures
        r == (!piped && buffer_enabled && !shared),
{
    !piped && buffer_enabled && !shared
}

/// Whether a stream is reopened when it breaks: it must not be piped, and
/// when the provider's first answer tells its content type that must be
/// video; besides, reconnecting must be switched on.
pub fn reopens_stream(piped: bool, content_is_video: Option<bool>, reconnect_enabled: bool) -> (r: bool)
    ensures
        r == (match content_is_video {
            Some(v) => !piped && v,
            None => !piped,
        } && reconnect_enabled),
{
    let media = match content_is_video {
        Some(v) => !piped && v,
        None => !piped,
    };
    media && reconnect_enabled
}

/// What a reconnect attempt does next.
#[derive(Clone, Copy, Debug, PartialEq, Eq, Structural)]
pub enum ReconnectStep {
    /// The provider answered: stream its body.
    Stream,
    /// Give up.
    Stop,
    /// Try again after a short pause, while the stream is wanted.
    Retry,
}

/// The step after an attempt to reopen a stream that broke (the first
/// connection follows `provider_attempt_step`), from the provider's status code
/// (None when no connection could be made): success streams; a client
/// error stops; of the server errors only 500, 502, 503 and 504 are tried
/// again; any other answer, or none, is tried again.
pub open spec fn spec_reconnect_step(status: Option<u16>) -> ReconnectStep {
    match status {
        None => ReconnectStep::Retry,
        Some(s) => {
            if 200 <= s <= 299 {
                ReconnectStep::Stream
            } else if 400 <= s <= 499 {
                ReconnectStep::Stop
            } else if 500 <= s <= 599 {
                if s == 500 || s == 502 || s == 503 || s == 504 { ReconnectStep::Retry } else { ReconnectStep::Stop }
            } else {
                ReconnectStep::Retry
            }
        },
    }
}

/// Decides the step after a reconnect attempt.
pub fn reconnect_step(status: Option<u16>) -> (r: ReconnectStep)
    ensures
        r == spec_reconnect_step(status),
{
    match status {
        None => ReconnectStep::Retry,
        Some(s) => {
            if 200 <= s && s <= 299 {
                ReconnectStep::Stream
            } else if 400 <= s && s <= 499 {
                ReconnectStep::Stop
            } else if 500 <= s && s <= 599 {
                if s == 500 || s == 502 || s == 503 || s == 504 { ReconnectStep::Retry } else { ReconnectStep::Stop }
            } else {
                ReconnectStep::Retry
            }
        },
    }
}

/// Whether the first connection gives up after a failed attempt: after more
/// than `ERR_MAX_RETRY_COUNT` attempts, or once more than `RETRY_SECONDS`
/// have passed since the first.
pub fn gives_up_first_connection(attempt: u32, elapsed_secs: u64) -> (r: bool)
    ensures
        r == (attempt > ERR_MAX_RETRY_COUNT || elapsed_secs > RETRY_SECONDS),
{
    attempt > ERR_MAX_RETRY_COUNT || elapsed_secs > RETRY_SECONDS
}

/// What one request for a provider stream came back with.
#[derive(Clone, Copy, Debug, PartialEq, Eq, Structural)]
pub enum ProviderAttempt {
    /// A stream was opened (the provider's stream, or the configured
    /// channel-unavailable video in its place).
    Opened,
    /// No stream, and no status to report.
    NoStream,
    /// The provider answered with this status code.
    Failed(u16),
}

/// What the first connection to a provider does after one request.
#[derive(Clone, Copy, Debug, PartialEq, Eq, Structural)]
pub enum ProviderAttemptStep {
    /// Hand the opened stream to the client.
    Stream,
    /// Give up and answer with this status code; reconnecting is switched off.
    Fail(u16),
    /// Ask again, counting one more attempt.
    Retry,
}

/// The rule of the first connection to a provider, which opens the stream
/// with retries (a stream that broke is reopened by `reconnect_step`): an opened
/// stream is handed on; 401, 403 and 503 are final and answered as they
/// came; otherwise, when the stream is no longer wanted, or after more than
/// `ERR_MAX_RETRY_COUNT` attempts, or once more than `RETRY_SECONDS` have
/// passed, the answer is 503; else the request is made again.
pub open spec fn spec_provider_attempt_step(attempt: ProviderAttempt, wanted: bool, attempts: u32, elapsed_secs: u64)
    -> ProviderAttemptStep
{
    match attempt {
        ProviderAttempt::Opened => ProviderAttemptStep::Stream,
        ProviderAttempt::Failed(s) if s == 401 || s == 403 || s == 503 => ProviderAttemptStep::Fail(s),
        _ => if !wanted || attempts > ERR_MAX_RETRY_COUNT || elapsed_secs > RETRY_SECONDS {
            ProviderAttemptStep::Fail(503)
        } else {
            ProviderAttemptStep::Retry
        },
    }
}

/// Decides what the first connection to a provider does after one request
/// (`attempts` counts the requests made so far, from 1; `wanted` tells
/// whether the client still waits for the stream).
pub fn provider_attempt_step(attempt: ProviderAttempt, wanted: bool, attempts: u32, elapsed_secs: u64) -> (r: ProviderAttemptStep)
    ensures
        r == spec_provider_attempt_step(attempt, wanted, attempts, elapsed_secs),
{
    match attempt {
        ProviderAttempt::Opened => ProviderAttemptStep::Stream,
        ProviderAttempt::Failed(s) if s == 401 || s == 403 || s == 503 => ProviderAttemptStep::Fail(s),
        _ => if !wanted || gives_up_first_connection(attempts, elapsed_secs) {
            ProviderAttemptStep::Fail(503)
        } else {
            ProviderAttemptStep::Retry
        },
    }
}

/// A broken stream is reopened after the transient server errors (500,
/// 502, 503, 504), after an answer without status, and after answers that
/// are neither success nor error; success streams; it gives up only on a
/// client error or another server error.
pub proof fn lemma_reconnect_retries_transient_errors(s: u16)
    ensures
        (s == 500 || s == 502 || s == 503 || s == 504) ==> spec_reconnect_step(Some(s)) == ReconnectStep::Retry,
        200 <= s <= 299 <==> spec_reconnect_step(Some(s)) == ReconnectStep::Stream,
        spec_reconnect_step(Some(s)) == ReconnectStep::Stop
            <==> (400 <= s <= 599 && s != 500 && s != 502 && s != 503 && s != 504),
        spec_reconnect_step(None) == ReconnectStep::Retry,
{
}

/// The first connection: an opened stream is handed on; 401, 403 and 503
/// end it with that status whatever the attempt count and time; any other
/// failure is tried again exactly while the stream is wanted, at most
/// `ERR_MAX_RETRY_COUNT` attempts and `RETRY_SECONDS` seconds have passed,
/// and otherwise ends with 503.
pub proof fn lemma_first_connection_steps(attempt: ProviderAttempt, wanted: bool, attempts: u32, elapsed_secs: u64)
    ensures
        ({
            let r = spec_provider_attempt_step(attempt, wanted, attempts, elapsed_secs);
            &&& r == ProviderAttemptStep::Stream <==> attempt is Opened
            &&& (attempt is Failed && (attempt->Failed_0 == 401 || attempt->Failed_0 == 403 || attempt->Failed_0 == 503))
                ==> r == ProviderAttemptStep::Fail(attempt->Failed_0)
            &&& !(attempt is Opened) && !(attempt is Failed && (attempt->Failed_0 == 401 || attempt->Failed_0 == 403
                || attempt->Failed_0 == 503)) ==> (r == ProviderAttemptStep::Retry <==> (wanted && attempts <= 5 && elapsed_secs <= 5))
            &&& r is Fail ==> (r->Fail_0 == 401 || r->Fail_0 == 403 || r->Fail_0 == 503)
        }),
{
}

} // verus!
