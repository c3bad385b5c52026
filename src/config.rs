use vstd::prelude::*;

verus! {

/// The whole configuration.
pub struct Properties {
    pub dns: DnsProps,
    pub k8s: Vec<K8sProps>,
    pub proxy: Option<ProxyProps>,
    pub log_level: String,
}

/// The DNS resolver's configuration: its server and its cache sources.
pub struct DnsProps {
    pub server: DnsServerProps,
    pub cache: Vec<String>,
}

/// Where the resolver listens and where it forwards to.
pub struct DnsServerProps {
    pub public: String,
    pub port: u16,
    pub host: String,
}

/// One cluster: its ingress namespace, its ingress pods and its client
/// configuration (`default`, or a kubeconfig path).
pub struct K8sProps {
    pub ingress_namespace: String,
    pub pod: K8sPodProps,
    pub config: String,
}

/// The ingress controller pods of a cluster.
pub struct K8sPodProps {
    pub namespace: String,
    pub label: String,
    pub port: PortProps,
}

/// Where the proxy listens, and the root CA that mints leaf certificates.
pub struct ProxyProps {
    pub host: String,
    pub port: PortProps,
    pub root_ca: Option<ProxyTlsProps>,
}

/// An HTTP and an HTTPS port.
#[derive(Clone, Copy, Debug, PartialEq, Eq, Structural)]
pub struct PortProps {
    pub http: u16,
    pub https: u16,
}

/// Paths of a PEM certificate and its key.
pub struct ProxyTlsProps {
    pub cert: String,
    pub key: String,
}

/// The default for unset hosts and paths: empty, which disables a
/// subsystem.
pub fn empty() -> (r: String)
    ensures
        r@ == ""@,
{
    "".to_owned()
}

/// The default upstream resolver.
pub fn google_dns() -> (r: String)
    ensures
        r@ == "8.8.8.8"@,
{
    "8.8.8.8".to_owned()
}

/// The default DNS port.
pub fn port_53() -> (r: u16)
    ensures
        r == 53,
{
    53
}

/// The default HTTP port.
pub fn port_80() -> (r: u16)
    ensures
        r == 80,
{
    80
}

/// The default HTTPS port.
pub fn port_443() -> (r: u16)
    ensures
        r == 443,
{
    443
}

/// The default namespace and cluster client configuration.
pub fn default() -> (r: String)
    ensures
        r@ == "default"@,
{
    "default".to_owned()
}

/// The default label of the ingress controller pods.
pub fn ingress_label() -> (r: String)
    ensures
        r@ == "app.kubernetes.io/name=ingress"@,
{
    "app.kubernetes.io/name=ingress".to_owned()
}

/// Whether a subsystem with this listen host is enabled: an empty host
/// disables it.
pub fn is_enabled(host: &str) -> (r: bool)
    ensures
        r == (host@.len() > 0),
{
    proof {
        vstd::utf8::encode_utf8_decode_utf8(host@);
    }
    host.as_bytes().len() > 0
}

impl PortProps {
    pub fn new() -> (r: PortProps)
        ensures
            r.http == 80,
            r.https == 443,
    {
        PortProps { http: port_80(), https: port_443() }
    }
}

} // verus!
