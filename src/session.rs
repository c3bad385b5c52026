use vstd::prelude::*;

use crate::http::{get_host, host_of, http_header_fields};
use crate::routes::{is_tls, route_of, tls_start, ProxyError, Route, RouteTable};

verus! {

/// Where a proxied connection stands.
#[derive(Clone, Copy, Debug, PartialEq, Eq, Structural)]
pub enum Phase {
    /// Accepted; nothing read yet.
    New,
    /// Its first bytes are known to open a TLS handshake.
    PeekedTls,
    /// Its first bytes are known not to open a TLS handshake.
    PeekedPlain,
    /// The destination is known; the upstream is being opened.
    Resolved,
    /// Bytes are being spliced between client and upstream.
    Splicing,
    /// Done.
    Closed,
    /// Given up.
    Failed,
}

/// What happened on a connection since its last step.
pub enum ConnEvent {
    /// The first bytes of the connection, peeked without consuming them.
    Head(Vec<u8>),
    /// The server name of the TLS ClientHello, if it carried one.
    ClientHello(Option<String>),
    /// The head of a plaintext request, peeked without consuming it.
    RequestHead(Vec<u8>),
    /// The upstream stream is open (after the client handshake, for TLS).
    UpstreamOpened,
    /// Opening the upstream failed.
    UpstreamFailed,
    /// The splice ended: `clean` when both halves closed, or one ended on an
    /// unexpected end of stream.
    SpliceEnded { clean: bool },
}

/// What to do next on a connection.
#[derive(Debug, PartialEq, Eq)]
pub enum ConnAction {
    /// Read the ClientHello, without completing the handshake.
    ReadClientHello,
    /// Peek at the plaintext request head.
    PeekRequest,
    /// Complete the handshake with the certificate for `server_name`, then
    /// open a TLS upstream along `route`.
    Handshake { server_name: String, route: Route },
    /// Open a plain upstream along `route`.
    Open { route: Route },
    /// Splice client and upstream.
    Splice,
    /// Shut the connection down: no destination for its host.
    Shutdown,
    /// Close the connection.
    Close,
    /// Give up on the connection.
    Fail(ProxyError),
}

/// The state of one proxied connection.
pub struct Session {
    pub phase: Phase,
}

impl Session {
    pub fn new() -> (r: Session)
        ensures
            r.phase == Phase::New,
    {
        Session { phase: Phase::New }
    }

    /// Advances the connection on `event`. The first bytes decide TLS or
    /// plaintext; a ClientHello without a server name, or with one that has
    /// no route, fails before the handshake; a plaintext request without a
    /// `Host` fails, and one whose host has no route is shut down; an open
    /// upstream is spliced, and a splice that ends cleanly closes the
    /// connection. Any other event fails it with `OutOfOrder`.
    pub fn step(&mut self, routes: &RouteTable, event: ConnEvent) -> (r: ConnAction)
        ensures
            match (old(self).phase, event) {
                (Phase::New, ConnEvent::Head(head)) => if tls_start(head@) {
                    final(self).phase == Phase::PeekedTls && r == ConnAction::ReadClientHello
                } else {
                    final(self).phase == Phase::PeekedPlain && r == ConnAction::PeekRequest
                },
                (Phase::PeekedTls, ConnEvent::ClientHello(name)) => match name {
                    None => final(self).phase == Phase::Failed && r == ConnAction::Fail(
                        ProxyError::NoServerName,
                    ),
                    Some(n) => match route_of(routes.ingress_clients@, routes.local_clients@, n@) {
                        None => final(self).phase == Phase::Failed && r == ConnAction::Fail(
                            ProxyError::RouteNotFound,
                        ),
                        Some(route) => final(self).phase == Phase::Resolved && r is Handshake
                            && r->Handshake_server_name@ == n@ && r->Handshake_route == route,
                    },
                },
                (Phase::PeekedPlain, ConnEvent::RequestHead(data)) => match host_of(
                    http_header_fields(data@),
                ) {
                    Err(e) => final(self).phase == Phase::Failed && r == ConnAction::Fail(e),
                    Ok(h) => match route_of(routes.ingress_clients@, routes.local_clients@, h) {
                        None => final(self).phase == Phase::Closed && r == ConnAction::Shutdown,
                        Some(route) => final(self).phase == Phase::Resolved && r
                            == ConnAction::Open { route },
                    },
                },
                (Phase::Resolved, ConnEvent::UpstreamOpened) => final(self).phase == Phase::Splicing
                    && r == ConnAction::Splice,
                (Phase::Resolved, ConnEvent::UpstreamFailed) => final(self).phase == Phase::Failed
                    && r == ConnAction::Fail(ProxyError::UpstreamFailed),
                (Phase::Splicing, ConnEvent::SpliceEnded { clean }) => if clean {
                    final(self).phase == Phase::Closed && r == ConnAction::Close
                } else {
                    final(self).phase == Phase::Failed && r == ConnAction::Fail(ProxyError::SpliceFailed)
                },
                _ => final(self).phase == Phase::Failed && r == ConnAction::Fail(ProxyError::OutOfOrder),
            },
    {
        match (self.phase, event) {
            (Phase::New, ConnEvent::Head(head)) => {
                if is_tls(head.as_slice()) {
                    self.phase = Phase::PeekedTls;
                    ConnAction::ReadClientHello
                } else {
                    self.phase = Phase::PeekedPlain;
                    ConnAction::PeekRequest
                }
            },
            (Phase::PeekedTls, ConnEvent::ClientHello(name)) => {
                let found = match &name {
                    None => routes.dispatch_tls(None),
                    Some(n) => routes.dispatch_tls(Some(n.as_str())),
                };
                match found {
                    Err(e) => {
                        self.phase = Phase::Failed;
                        ConnAction::Fail(e)
                    },
                    Ok(route) => {
                        self.phase = Phase::Resolved;
                        match name {
                            Some(n) => ConnAction::Handshake { server_name: n, route },
                            None => ConnAction::Fail(ProxyError::NoServerName),
                        }
                    },
                }
            },
            (Phase::PeekedPlain, ConnEvent::RequestHead(data)) => {
                match get_host(data.as_slice()) {
                    Err(e) => {
                        self.phase = Phase::Failed;
                        ConnAction::Fail(e)
                    },
                    Ok(h) => match routes.route(h.as_str()) {
                        None => {
                            self.phase = Phase::Closed;
                            ConnAction::Shutdown
                        },
                        Some(route) => {
                            self.phase = Phase::Resolved;
                            ConnAction::Open { route }
                        },
                    },
                }
            },
            (Phase::Resolved, ConnEvent::UpstreamOpened) => {
                self.phase = Phase::Splicing;
                ConnAction::Splice
            },
            (Phase::Resolved, ConnEvent::UpstreamFailed) => {
                self.phase = Phase::Failed;
                ConnAction::Fail(ProxyError::UpstreamFailed)
            },
            (Phase::Splicing, ConnEvent::SpliceEnded { clean }) => {
                if clean {
                    self.phase = Phase::Closed;
                    ConnAction::Close
                } else {
                    self.phase = Phase::Failed;
                    ConnAction::Fail(ProxyError::SpliceFailed)
                }
            },
            _ => {
                self.phase = Phase::Failed;
                ConnAction::Fail(ProxyError::OutOfOrder)
            },
        }
    }
}

} // verus!
