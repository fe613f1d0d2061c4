//! Messages of failures.
use rsrpc::error::RsrpcError;

#[test]
fn scan_in_progress_keeps_historical_text() {
    assert_eq!(
        RsrpcError::ScanInProgress.to_string(),
        "Scanning already in progress"
    );
}

#[test]
fn bind_exhaustion_names_range() {
    assert_eq!(
        RsrpcError::WsExhausted {
            start: 6463,
            end: 6472
        }
        .to_string(),
        "websocket bind failed on ports 6463-6472: all in use"
    );
    assert_eq!(
        RsrpcError::BridgeBind {
            name: "json",
            start: 1337,
            end: 1347
        }
        .to_string(),
        "bridge json launch failed on ports 1337-1347: all in use"
    );
}

#[test]
fn invalid_config_names_the_field() {
    assert_eq!(
        RsrpcError::InvalidConfig("event_queue must be non-zero").to_string(),
        "invalid transport config: event_queue must be non-zero"
    );
}

#[test]
fn causes_are_carried() {
    assert_eq!(
        RsrpcError::WsBind {
            start: 1,
            end: 2,
            source: "denied".to_string()
        }
        .to_string(),
        "websocket bind failed on ports 1-2: denied"
    );
    assert_eq!(
        RsrpcError::IpcBind {
            attempts: 10,
            source: "in use".to_string()
        }
        .to_string(),
        "ipc bind failed after 10 attempts: in use"
    );
    assert_eq!(
        RsrpcError::Poisoned("process callback", "boom".to_string()).to_string(),
        "process callback poisoned: boom"
    );
}
