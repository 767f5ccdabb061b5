use kurtosis_core::enclave::{
    EnclaveApiContainerStatus, EnclaveContainersStatus, EnclaveMode,
};
use kurtosis_core::engine::RestartPolicy;
use kurtosis_core::events::{EventLog, RunEvent};
use kurtosis_core::poll::{PollOutcome, WaitDecision, WaitPolicy};
use kurtosis_core::service::{ServiceStatus, TransportProtocol};
use kurtosis_core::uuid::{mint_uuid, UUID_LEN};

#[test]
fn enum_names_round_trip() {
    assert_eq!(TransportProtocol::Tcp.as_str_name(), "TCP");
    assert_eq!(TransportProtocol::from_str_name("SCTP"), Some(TransportProtocol::Sctp));
    assert_eq!(TransportProtocol::from_str_name("QUIC"), None);
    assert_eq!(ServiceStatus::Running.as_str_name(), "RUNNING");
    assert_eq!(ServiceStatus::from_str_name("STOPPED"), Some(ServiceStatus::Stopped));
    assert_eq!(ServiceStatus::from_str_name("stopped"), None);
    assert_eq!(
        EnclaveContainersStatus::Empty.as_str_name(),
        "EnclaveContainersStatus_EMPTY"
    );
    assert_eq!(
        EnclaveContainersStatus::from_str_name("EnclaveContainersStatus_RUNNING"),
        Some(EnclaveContainersStatus::Running)
    );
    assert_eq!(
        EnclaveApiContainerStatus::Nonexistent.as_str_name(),
        "EnclaveAPIContainerStatus_NONEXISTENT"
    );
    assert_eq!(
        EnclaveApiContainerStatus::from_str_name("EnclaveAPIContainerStatus_STOPPED"),
        Some(EnclaveApiContainerStatus::Stopped)
    );
    assert_eq!(EnclaveMode::Production.as_str_name(), "PRODUCTION");
    assert_eq!(EnclaveMode::from_str_name("TEST"), Some(EnclaveMode::Test));
    assert_eq!(RestartPolicy::Never.as_str_name(), "NEVER");
    assert_eq!(RestartPolicy::from_str_name("ALWAYS"), Some(RestartPolicy::Always));
}

#[test]
fn minted_uuids_are_distinct_hex() {
    let a = mint_uuid(0);
    let b = mint_uuid(1);
    let c = mint_uuid(16);
    assert_eq!(a.len(), UUID_LEN);
    assert_ne!(a, b);
    assert_ne!(b, c);
    assert!(a.iter().all(|d| d.is_ascii_hexdigit()));
    // Counter digits run low-nibble first.
    assert_eq!(b[0], b'1');
    assert_eq!(&c[0..2], b"01");
}

#[test]
fn wait_policy_decisions() {
    let policy = WaitPolicy {
        initial_delay_milliseconds: 5,
        retries: 2,
        retries_delay_milliseconds: 50,
        expected_body: Some(b"ready".to_vec()),
    };
    // Matching body: available at once.
    let ok = PollOutcome { response_body: Some(b"ready".to_vec()) };
    assert!(matches!(wait(&policy, 1, &ok), WaitDecision::Available));
    // Wrong body: retry until the retries run out.
    let wrong = PollOutcome { response_body: Some(b"booting".to_vec()) };
    assert!(matches!(
        wait(&policy, 1, &wrong),
        WaitDecision::RetryAfter { delay_milliseconds: 50 }
    ));
    assert!(matches!(
        wait(&policy, 2, &wrong),
        WaitDecision::RetryAfter { delay_milliseconds: 50 }
    ));
    assert!(matches!(wait(&policy, 3, &wrong), WaitDecision::Unavailable));
    // No expected body: any response counts.
    let lax = WaitPolicy {
        initial_delay_milliseconds: 0,
        retries: 0,
        retries_delay_milliseconds: 0,
        expected_body: None,
    };
    assert!(matches!(wait(&lax, 1, &wrong), WaitDecision::Available));
    let silent = PollOutcome { response_body: None };
    assert!(matches!(wait(&lax, 1, &silent), WaitDecision::Unavailable));
}

fn wait(p: &WaitPolicy, n: u32, o: &PollOutcome) -> WaitDecision {
    kurtosis_core::poll::wait_decide(p, n, o)
}

#[test]
fn event_log_terminates_once() {
    let mut log = EventLog::new();
    log.emit(RunEvent::Info { message: b"starting".to_vec() });
    log.emit(RunEvent::Warning { message: b"slow".to_vec() });
    log.finish(true, Some(b"output".to_vec()));
    assert!(log.finished);
    assert_eq!(log.events.len(), 3);
    let terminals = log
        .events
        .iter()
        .filter(|e| matches!(e, RunEvent::RunFinishedEvent { .. }))
        .count();
    assert_eq!(terminals, 1);
    assert!(matches!(log.events.last(), Some(RunEvent::RunFinishedEvent { .. })));
}
