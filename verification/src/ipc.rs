//! Binding the IPC socket: ten names, stale holders are reclaimed.
use crate::error::RsrpcError;
use crate::json::opt_text;
use crate::text::{decimal, push_decimal};
use vstd::prelude::*;

verus! {

/// How an attempt to bind a name went.
pub enum BindAttempt {
    Bound,
    /// The name is held, with the cause that was reported.
    InUse(String),
    /// Anything else, with its cause.
    Failed(String),
}

/// What to do next.
#[derive(Clone, Copy, PartialEq, Eq, Structural, Debug)]
pub enum BindStep {
    /// The current name is bound.
    Done,
    /// Ask whether the holder of the current name answers.
    Probe,
    /// Remove the current name and bind it again.
    Reclaim,
    /// Bind the current name, which is the next one.
    Try,
    /// No name is left.
    GiveUp,
}

/// How many names there are.
pub const SOCKET_NAMES: u8 = 10;

/// The name of an attempt.
pub open spec fn socket_name(base: Seq<char>, attempt: u8) -> Seq<char> {
    base + "-"@ + decimal(attempt as nat)
}

/// The base of socket names in the first directory; in `/tmp` without one.
pub fn socket_base(first_dir: Option<&str>) -> (r: String)
    ensures
        r@ == match first_dir {
            Some(dir) => dir@ + "/discord-ipc"@,
            None => "/tmp/discord-ipc"@,
        },
{
    match first_dir {
        Some(dir) => {
            let mut out = dir.to_owned();
            out.append("/discord-ipc");
            out
        },
        None => "/tmp/discord-ipc".to_owned(),
    }
}

/// A walk over the names of a socket.
pub struct SocketScan {
    base: String,
    attempt: u8,
    last: Option<String>,
}

/// Model of a [`SocketScan`].
#[verifier::ext_equal]
pub struct SocketScanView {
    pub base: Seq<char>,
    /// Names that were given up.
    pub attempt: u8,
    pub last: Option<Seq<char>>,
}

impl View for SocketScan {
    type V = SocketScanView;

    closed spec fn view(&self) -> SocketScanView {
        SocketScanView {
            base: self.base@,
            attempt: self.attempt,
            last: opt_text(self.last),
        }
    }
}

impl SocketScanView {
    /// The walk after the current name is given up.
    pub open spec fn advanced(self) -> SocketScanView {
        SocketScanView { attempt: (self.attempt + 1) as u8, ..self }
    }

    /// What follows once the current name is given up.
    pub open spec fn next_step(self) -> BindStep {
        if self.attempt + 1 < SOCKET_NAMES {
            BindStep::Try
        } else {
            BindStep::GiveUp
        }
    }

    /// Whether names are left.
    pub open spec fn open(self) -> bool {
        self.attempt < SOCKET_NAMES
    }
}

impl SocketScan {
    /// Before the first name.
    pub fn new(base: String) -> (r: Self)
        ensures
            r@ == (SocketScanView { base: base@, attempt: 0, last: None }),
    {
        SocketScan { base, attempt: 0, last: None }
    }

    /// The current name.
    pub fn path(&self) -> (r: String)
        ensures
            r@ == socket_name(self@.base, self@.attempt),
    {
        let mut out = self.base.clone();
        out.append("-");
        push_decimal(self.attempt as u64, &mut out);
        out
    }

    /// Give the current name up.
    fn advance(&mut self) -> (r: BindStep)
        requires
            old(self)@.open(),
        ensures
            final(self)@ == old(self)@.advanced(),
            r == old(self)@.next_step(),
    {
        self.attempt = self.attempt + 1;
        if self.attempt < SOCKET_NAMES {
            BindStep::Try
        } else {
            BindStep::GiveUp
        }
    }

    /// The current name was tried.
    pub fn on_attempt(&mut self, attempt: BindAttempt) -> (r: BindStep)
        requires
            old(self)@.open(),
        ensures
            match attempt {
                BindAttempt::Bound => r == BindStep::Done && final(self)@ == old(self)@,
                BindAttempt::InUse(cause) => r == BindStep::Probe && final(self)@ == (
                SocketScanView { last: Some(cause@), ..old(self)@ }),
                BindAttempt::Failed(cause) => r == old(self)@.next_step() && final(self)@ == (
                SocketScanView { last: Some(cause@), ..old(self)@ }).advanced(),
            },
    {
        match attempt {
            BindAttempt::Bound => BindStep::Done,
            BindAttempt::InUse(cause) => {
                self.last = Some(cause);
                BindStep::Probe
            },
            BindAttempt::Failed(cause) => {
                self.last = Some(cause);
                self.advance()
            },
        }
    }

    /// The holder of the current name was asked. One that answers keeps its
    /// name; otherwise the name is stale and is reclaimed.
    pub fn on_probe(&mut self, alive: bool) -> (r: BindStep)
        requires
            old(self)@.open(),
        ensures
            alive ==> r == old(self)@.next_step() && final(self)@ == old(self)@.advanced(),
            !alive ==> r == BindStep::Reclaim && final(self)@ == old(self)@,
    {
        if alive {
            self.advance()
        } else {
            BindStep::Reclaim
        }
    }

    /// A stale name was removed and tried again.
    pub fn on_rebind(&mut self, bound: bool) -> (r: BindStep)
        requires
            old(self)@.open(),
        ensures
            bound ==> r == BindStep::Done && final(self)@ == old(self)@,
            !bound ==> r == old(self)@.next_step() && final(self)@ == old(self)@.advanced(),
    {
        if bound {
            BindStep::Done
        } else {
            self.advance()
        }
    }

    /// The failure of a walk that bound no name.
    pub fn failure(self) -> (r: RsrpcError)
        ensures
            r matches RsrpcError::IpcBind { attempts, source } && attempts == 10 && source@
                == match self@.last {
                Some(cause) => cause,
                None => "no socket bound"@,
            },
    {
        RsrpcError::IpcBind {
            attempts: 10,
            source: match self.last {
                Some(cause) => cause,
                None => "no socket bound".to_owned(),
            },
        }
    }
}

/// A walk gives up after its tenth name and not before; every name that is
/// given up brings it one closer.
pub proof fn law_walk_ends(scan: SocketScanView)
    requires
        scan.open(),
    ensures
        scan.advanced().attempt == scan.attempt + 1,
        scan.next_step() == BindStep::GiveUp <==> !scan.advanced().open(),
        scan.next_step() == BindStep::Try <==> scan.advanced().open(),
{
}

} // verus!
