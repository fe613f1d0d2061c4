//! Failures of the library.
use crate::text::{decimal, push_decimal};
use vstd::prelude::*;

verus! {

/// Every failure names its cause.
pub enum RsrpcError {
    /// A scan is running already.
    ScanInProgress,
    /// No port of the game websocket range could be bound.
    WsExhausted { start: u16, end: u16 },
    /// Binding the game websocket failed on every port; `source` is the last
    /// cause.
    WsBind { start: u16, end: u16, source: String },
    /// Binding a bridge server failed on every port.
    BridgeBind { name: &'static str, start: u16, end: u16 },
    /// No IPC socket could be bound; `source` is the last cause.
    IpcBind { attempts: u32, source: String },
    /// A configuration value is out of bounds.
    InvalidConfig(&'static str),
    /// A callback failed while it held a lock.
    Poisoned(&'static str, String),
}

impl RsrpcError {
    /// The message of the failure.
    pub open spec fn message(self) -> Seq<char> {
        match self {
            RsrpcError::ScanInProgress => "Scanning already in progress"@,
            RsrpcError::WsExhausted { start, end } => "websocket bind failed on ports "@ + decimal(
                start as nat,
            ) + "-"@ + decimal(end as nat) + ": all in use"@,
            RsrpcError::WsBind { start, end, source } => "websocket bind failed on ports "@
                + decimal(start as nat) + "-"@ + decimal(end as nat) + ": "@ + source@,
            RsrpcError::BridgeBind { name, start, end } => "bridge "@ + name@
                + " launch failed on ports "@ + decimal(start as nat) + "-"@ + decimal(end as nat)
                + ": all in use"@,
            RsrpcError::IpcBind { attempts, source } => "ipc bind failed after "@ + decimal(
                attempts as nat,
            ) + " attempts: "@ + source@,
            RsrpcError::InvalidConfig(what) => "invalid transport config: "@ + what@,
            RsrpcError::Poisoned(what, cause) => what@ + " poisoned: "@ + cause@,
        }
    }

    /// The message of the failure as text.
    pub fn to_string(&self) -> (r: String)
        ensures
            r@ == self.message(),
    {
        let mut out = String::new();
        match self {
            RsrpcError::ScanInProgress => {
                out.append("Scanning already in progress");
            },
            RsrpcError::WsExhausted { start, end } => {
                out.append("websocket bind failed on ports ");
                assert(out@ == "websocket bind failed on ports "@);
                push_decimal(*start as u64, &mut out);
                out.append("-");
                push_decimal(*end as u64, &mut out);
                out.append(": all in use");
            },
            RsrpcError::WsBind { start, end, source } => {
                out.append("websocket bind failed on ports ");
                assert(out@ == "websocket bind failed on ports "@);
                push_decimal(*start as u64, &mut out);
                out.append("-");
                push_decimal(*end as u64, &mut out);
                out.append(": ");
                out.append(source.as_str());
            },
            RsrpcError::BridgeBind { name, start, end } => {
                out.append("bridge ");
                assert(out@ == "bridge "@);
                out.append(name);
                out.append(" launch failed on ports ");
                push_decimal(*start as u64, &mut out);
                out.append("-");
                push_decimal(*end as u64, &mut out);
                out.append(": all in use");
            },
            RsrpcError::IpcBind { attempts, source } => {
                out.append("ipc bind failed after ");
                assert(out@ == "ipc bind failed after "@);
                push_decimal(*attempts as u64, &mut out);
                out.append(" attempts: ");
                out.append(source.as_str());
            },
            RsrpcError::InvalidConfig(what) => {
                out.append("invalid transport config: ");
                assert(out@ == "invalid transport config: "@);
                out.append(what);
            },
            RsrpcError::Poisoned(what, cause) => {
                out.append(what);
                assert(out@ == what@);
                out.append(" poisoned: ");
                out.append(cause.as_str());
            },
        }
        out
    }
}

} // verus!
