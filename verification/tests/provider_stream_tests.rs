use m3u_filter::provider_stream::{
    gives_up_first_connection, provider_attempt_step, reconnect_step, reopens_stream, use_buffered_stream, ProviderAttempt,
    ProviderAttemptStep, ReconnectStep,
};

#[test]
fn buffering_choice() {
    assert!(use_buffered_stream(false, true, false));
    assert!(!use_buffered_stream(true, true, false));
    assert!(!use_buffered_stream(false, true, true));
    assert!(!use_buffered_stream(false, false, false));
}

#[test]
fn reopening_choice() {
    assert!(reopens_stream(false, Some(true), true));
    assert!(!reopens_stream(false, Some(false), true));
    assert!(reopens_stream(false, None, true));
    assert!(!reopens_stream(true, None, true));
    assert!(!reopens_stream(false, Some(true), false));
}

#[test]
fn reconnect_steps() {
    assert_eq!(reconnect_step(Some(200)), ReconnectStep::Stream);
    assert_eq!(reconnect_step(Some(206)), ReconnectStep::Stream);
    assert_eq!(reconnect_step(Some(404)), ReconnectStep::Stop);
    assert_eq!(reconnect_step(Some(502)), ReconnectStep::Retry);
    assert_eq!(reconnect_step(Some(504)), ReconnectStep::Retry);
    assert_eq!(reconnect_step(Some(501)), ReconnectStep::Stop);
    assert_eq!(reconnect_step(Some(302)), ReconnectStep::Retry);
    assert_eq!(reconnect_step(None), ReconnectStep::Retry);
}

#[test]
fn first_connection_limits() {
    assert!(!gives_up_first_connection(5, 5));
    assert!(gives_up_first_connection(6, 0));
    assert!(gives_up_first_connection(1, 6));
}

#[test]
fn first_connection_attempt_steps() {
    assert_eq!(provider_attempt_step(ProviderAttempt::Opened, true, 1, 0), ProviderAttemptStep::Stream);
    assert_eq!(provider_attempt_step(ProviderAttempt::Failed(401), true, 1, 0), ProviderAttemptStep::Fail(401));
    assert_eq!(provider_attempt_step(ProviderAttempt::Failed(403), true, 1, 0), ProviderAttemptStep::Fail(403));
    assert_eq!(provider_attempt_step(ProviderAttempt::Failed(503), true, 1, 0), ProviderAttemptStep::Fail(503));
    assert_eq!(provider_attempt_step(ProviderAttempt::Failed(404), true, 1, 0), ProviderAttemptStep::Retry);
    assert_eq!(provider_attempt_step(ProviderAttempt::Failed(500), true, 2, 1), ProviderAttemptStep::Retry);
    assert_eq!(provider_attempt_step(ProviderAttempt::NoStream, true, 5, 5), ProviderAttemptStep::Retry);
    assert_eq!(provider_attempt_step(ProviderAttempt::NoStream, true, 6, 0), ProviderAttemptStep::Fail(503));
    assert_eq!(provider_attempt_step(ProviderAttempt::Failed(502), true, 1, 6), ProviderAttemptStep::Fail(503));
    assert_eq!(provider_attempt_step(ProviderAttempt::Failed(404), false, 1, 0), ProviderAttemptStep::Fail(503));
}
