use vstd::prelude::*;

use crate::addr::HostAddr;
use crate::cache::texts;
use crate::table::NameTable;

verus! {

/// Why a proxied connection could not be served.
#[derive(Debug, Clone, Copy, PartialEq, Eq, Structural)]
pub enum ProxyError {
    /// The TLS ClientHello named no server.
    NoServerName,
    /// The name is neither a cluster ingress nor a local destination.
    RouteNotFound,
    /// No cluster client serves the name.
    NoCluster,
    /// The request carried no usable `Host` header.
    HostNotFound,
    /// No ingress TLS entry names the host.
    IngressNotFound,
    /// No secret holds a certificate and key for the host.
    CertNotFound,
    /// No pod matches the cluster's label.
    NoPod,
    /// The upstream could not be opened.
    UpstreamFailed,
    /// The splice ended on an error other than an unexpected end of stream.
    SpliceFailed,
    /// An event came that the connection's phase does not expect.
    OutOfOrder,
}

impl ProxyError {
    /// A short human-readable description of the error.
    pub fn message(&self) -> (r: &'static str)
        ensures
            *self == ProxyError::NoServerName ==> r@ == "TLS connection didn't provide server name"@,
            *self == ProxyError::RouteNotFound ==> r@ == "no route to host"@,
            *self == ProxyError::NoCluster ==> r@ == "no cluster client for host"@,
            *self == ProxyError::HostNotFound ==> r@ == "Host not found"@,
            *self == ProxyError::IngressNotFound ==> r@ == "no ingress TLS entry for host"@,
            *self == ProxyError::CertNotFound ==> r@ == "no certificate secret for host"@,
            *self == ProxyError::NoPod ==> r@ == "no free pod"@,
            *self == ProxyError::UpstreamFailed ==> r@ == "upstream unreachable"@,
            *self == ProxyError::SpliceFailed ==> r@ == "connection failed"@,
            *self == ProxyError::OutOfOrder ==> r@ == "unexpected connection event"@,
    {
        match self {
            ProxyError::NoServerName => "TLS connection didn't provide server name",
            ProxyError::RouteNotFound => "no route to host",
            ProxyError::NoCluster => "no cluster client for host",
            ProxyError::HostNotFound => "Host not found",
            ProxyError::IngressNotFound => "no ingress TLS entry for host",
            ProxyError::CertNotFound => "no certificate secret for host",
            ProxyError::NoPod => "no free pod",
            ProxyError::UpstreamFailed => "upstream unreachable",
            ProxyError::SpliceFailed => "connection failed",
            ProxyError::OutOfOrder => "unexpected connection event",
        }
    }
}

/// Where a connection for a name goes.
#[derive(Debug, Clone, Copy, PartialEq, Eq)]
pub enum Route {
    /// Through a port-forward into the cluster with this index.
    Ingress(usize),
    /// Straight to a local address.
    Local(HostAddr),
}

/// Which names the proxy serves, and where they go: names of cluster
/// ingresses, by cluster index, and static local destinations.
pub struct RouteTable {
    pub ingress_clients: NameTable<usize>,
    pub local_clients: NameTable<HostAddr>,
    pub cluster_count: usize,
}

/// Where a name goes: a cluster ingress first, then a local destination.
/// The empty name goes nowhere.
pub open spec fn route_of(
    ingress: Map<Seq<char>, usize>,
    local: Map<Seq<char>, HostAddr>,
    host: Seq<char>,
) -> Option<Route> {
    if host.len() == 0 {
        None
    } else if ingress.contains_key(host) {
        Some(Route::Ingress(ingress[host]))
    } else if local.contains_key(host) {
        Some(Route::Local(local[host]))
    } else {
        None
    }
}

/// The mapping after the names of cluster `c` are added in order.
pub open spec fn with_cluster(m: Map<Seq<char>, usize>, hosts: Seq<Seq<char>>, c: usize) -> Map<
    Seq<char>,
    usize,
>
    decreases hosts.len(),
{
    if hosts.len() == 0 {
        m
    } else {
        with_cluster(m, hosts.drop_last(), c).insert(hosts.last(), c)
    }
}

/// Whether the first bytes of a connection open a TLS handshake: a
/// handshake record (22) of major version 3 and minor version 1 or 3.
pub open spec fn tls_start(b: Seq<u8>) -> bool {
    b.len() >= 3 && b[0] == 22 && b[1] == 3 && (b[2] == 1 || b[2] == 3)
}

/// Whether the first bytes of a connection open a TLS handshake.
pub fn is_tls(head: &[u8]) -> (r: bool)
    ensures
        r == tls_start(head@),
{
    head.len() >= 3 && head[0] == 22 && head[1] == 3 && (head[2] == 1 || head[2] == 3)
}

impl RouteTable {
    pub fn new(cluster_count: usize) -> (r: RouteTable)
        ensures
            r.ingress_clients@ == Map::<Seq<char>, usize>::empty(),
            r.local_clients@ == Map::<Seq<char>, HostAddr>::empty(),
            r.cluster_count == cluster_count,
    {
        RouteTable {
            ingress_clients: NameTable::new(),
            local_clients: NameTable::new(),
            cluster_count,
        }
    }

    /// Records that cluster `cluster` serves `hosts`; a later cluster wins a
    /// name that two serve.
    pub fn add_cluster_hosts(&mut self, cluster: usize, hosts: &Vec<String>)
        ensures
            final(self).ingress_clients@ == with_cluster(
                old(self).ingress_clients@,
                texts(hosts@),
                cluster,
            ),
            final(self).local_clients@ == old(self).local_clients@,
            final(self).cluster_count == old(self).cluster_count,
    {
        let mut i: usize = 0;
        proof {
            assert(texts(hosts@).take(0) =~= Seq::<Seq<char>>::empty());
        }
        while i < hosts.len()
            invariant
                i <= hosts@.len(),
                self.ingress_clients@ == with_cluster(
                    old(self).ingress_clients@,
                    texts(hosts@).take(i as int),
                    cluster,
                ),
                self.local_clients@ == old(self).local_clients@,
                self.cluster_count == old(self).cluster_count,
            decreases hosts@.len() - i,
        {
            proof {
                assert(texts(hosts@).take(i + 1).drop_last() =~= texts(hosts@).take(i as int));
            }
            self.ingress_clients.insert(hosts[i].clone(), cluster);
            i = i + 1;
        }
        proof {
            assert(texts(hosts@).take(i as int) =~= texts(hosts@));
        }
    }

    /// Records a static local destination for `host`.
    pub fn add_local(&mut self, host: String, addr: HostAddr)
        ensures
            final(self).local_clients@ == old(self).local_clients@.insert(host@, addr),
            final(self).ingress_clients@ == old(self).ingress_clients@,
            final(self).cluster_count == old(self).cluster_count,
    {
        self.local_clients.insert(host, addr);
    }

    /// Where a connection for `host` goes, if anywhere.
    pub fn route(&self, host: &str) -> (r: Option<Route>)
        ensures
            r == route_of(self.ingress_clients@, self.local_clients@, host@),
    {
        if host.as_bytes().len() == 0 {
            proof {
                vstd::utf8::encode_utf8_decode_utf8(host@);
            }
            return None;
        }
        proof {
            vstd::utf8::encode_utf8_decode_utf8(host@);
        }
        match self.ingress_clients.get(host) {
            Some(c) => Some(Route::Ingress(*c)),
            None => match self.local_clients.get(host) {
                Some(a) => Some(Route::Local(*a)),
                None => None,
            },
        }
    }

    /// The cluster that serves `host`; without a name, the first cluster.
    pub fn cluster_for(&self, host: Option<&str>) -> (r: Result<usize, ProxyError>)
        ensures
            host is None ==> (self.cluster_count > 0 ==> r == Ok::<usize, ProxyError>(0)) && (
            self.cluster_count == 0 ==> r == Err::<usize, ProxyError>(ProxyError::NoCluster)),
            host is Some ==> (self.ingress_clients@.contains_key(host->0@) ==> r == Ok::<
                usize,
                ProxyError,
            >(self.ingress_clients@[host->0@])) && (!self.ingress_clients@.contains_key(host->0@)
                ==> r == Err::<usize, ProxyError>(ProxyError::NoCluster)),
    {
        match host {
            None => if self.cluster_count > 0 {
                Ok(0)
            } else {
                Err(ProxyError::NoCluster)
            },
            Some(h) => match self.ingress_clients.get(h) {
                Some(c) => Ok(*c),
                None => Err(ProxyError::NoCluster),
            },
        }
    }

    /// The destination of a TLS connection, decided from the server name of
    /// its ClientHello before the handshake completes: a hello without a
    /// name fails with `NoServerName`, a name without a route with
    /// `RouteNotFound`.
    pub fn dispatch_tls(&self, server_name: Option<&str>) -> (r: Result<Route, ProxyError>)
        ensures
            server_name is None ==> r == Err::<Route, ProxyError>(ProxyError::NoServerName),
            server_name is Some ==> match route_of(
                self.ingress_clients@,
                self.local_clients@,
                server_name->0@,
            ) {
                Some(route) => r == Ok::<Route, ProxyError>(route),
                None => r == Err::<Route, ProxyError>(ProxyError::RouteNotFound),
            },
    {
        match server_name {
            None => Err(ProxyError::NoServerName),
            Some(h) => match self.route(h) {
                Some(route) => Ok(route),
                None => Err(ProxyError::RouteNotFound),
            },
        }
    }
}

} // verus!
