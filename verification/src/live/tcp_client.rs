//! Link to the GrandMA2 over TCP (unofficial protocol).
//!
//! One command per line (`Go Executor 1`), terminated by `\n`. The console
//! accepts network connections for console commands; this depends on the
//! console accepting them (the protocol is not officially documented).
//!
//! The socket itself is owned by the caller; this module holds the
//! connection settings and the decisions of the client: what goes on the
//! wire for a command, and whether the link counts as connected.

use vstd::prelude::*;

use crate::error::ShowtimeError;
use crate::text::push_decimal;

verus! {

/// TCP connection settings for the console.
#[derive(Debug, Clone)]
pub struct TcpConfig {
    pub ip: String,
    pub port: u16,
}

impl Default for TcpConfig {
    fn default() -> (r: TcpConfig)
        ensures
            r.ip@ == "192.168.1.10"@,
            r.port == 3000,
    {
        TcpConfig { ip: String::from_str("192.168.1.10"), port: 3000 }
    }
}

impl TcpConfig {
    /// `ip:port`, the address text the client connects to.
    pub fn address(&self) -> (r: String)
        ensures
            r@ == self.ip@ + ":"@ + crate::text::decimal(self.port as nat),
    {
        let mut r = self.ip.clone();
        r.append(":");
        push_decimal(&mut r, self.port as u64);
        r
    }
}

/// The line sent for a command: the command followed by a line break.
pub open spec fn command_line_text(cmd: Seq<char>) -> Seq<char> {
    cmd + "\n"@
}

/// Whether the client holds a live connection, as far as it can tell: it
/// becomes connected when a connection is established, and disconnected on
/// request or when a send fails (the console went away).
#[derive(Debug, Clone, Copy, PartialEq, Eq, Structural)]
pub struct Ma2Link {
    connected: bool,
}

impl Ma2Link {
    /// Whether the link counts as connected.
    pub closed spec fn is_up(&self) -> bool {
        self.connected
    }

    /// A link that is not connected yet.
    pub fn new() -> (r: Ma2Link)
        ensures
            !r.is_up(),
    {
        Ma2Link { connected: false }
    }

    /// Whether the link counts as connected.
    pub fn is_connected(&self) -> (r: bool)
        ensures
            r == self.is_up(),
    {
        self.connected
    }

    /// A connection was established.
    pub fn connected(&mut self)
        ensures
            final(self).is_up(),
    {
        self.connected = true;
    }

    /// The connection was closed on request.
    pub fn disconnected(&mut self)
        ensures
            !final(self).is_up(),
    {
        self.connected = false;
    }

    /// The line to write for `cmd`, or the error when the link is down.
    pub fn command_line(&self, cmd: &str) -> (r: Result<String, ShowtimeError>)
        ensures
            self.is_up() ==> (r matches Ok(line) && line@ == command_line_text(cmd@)),
            !self.is_up() ==> (r matches Err(ShowtimeError::Network(m))
                && m@ == "não conectado ao MA2"@),
    {
        if !self.connected {
            return Err(ShowtimeError::Network(String::from_str("não conectado ao MA2")));
        }
        let mut line = String::from_str(cmd);
        line.append("\n");
        Ok(line)
    }

    /// Records the outcome of writing a command: a failed write means the
    /// socket is dead, so the link goes down; a successful one changes
    /// nothing.
    pub fn send_finished(&mut self, ok: bool)
        ensures
            final(self).is_up() == (old(self).is_up() && ok),
    {
        if !ok {
            self.connected = false;
        }
    }
}

} // verus!
