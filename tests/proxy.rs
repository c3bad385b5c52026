use kube_ingress_dns::session::{ConnAction, ConnEvent, Phase, Session};
use kube_ingress_dns::certs::{default_algorithm, leaf_spec, KeyPairAlgorithm};
use kube_ingress_dns::addr::HostAddr;
use kube_ingress_dns::config::{empty, google_dns, ingress_label, is_enabled, port_443, port_53, port_80, PortProps};
use kube_ingress_dns::hosts::{is_k8s_source, split_host_line};
use kube_ingress_dns::http::get_host;
use kube_ingress_dns::ingress::{ingress_hosts, pick_pod, pod_port, tls_material, tls_secret_name, IngressSpec, IngressTls, SecretData};
use kube_ingress_dns::routes::{is_tls, ProxyError, Route, RouteTable};
use kube_ingress_dns::table::NameTable;

#[test]
fn tls_sniff() {
    assert!(is_tls(&[0x16, 0x03, 0x01, 0x02]));
    assert!(is_tls(&[0x16, 0x03, 0x03]));
    assert!(!is_tls(&[0x16, 0x03, 0x02, 0x00]));
    assert!(!is_tls(b"GET / HTTP/1.1"));
    assert!(!is_tls(&[0x16, 0x03]));
}

fn table() -> RouteTable {
    let mut routes = RouteTable::new(2);
    routes.add_cluster_hosts(0, &vec!["svc.example".to_string(), "both.example".to_string()]);
    routes.add_cluster_hosts(1, &vec!["both.example".to_string()]);
    routes.add_local("local.example".to_string(), HostAddr::V4 { ip: [127, 0, 0, 1], port: 9999 });
    routes.add_local("svc.example".to_string(), HostAddr::V4 { ip: [10, 0, 0, 1], port: 80 });
    routes
}

#[test]
fn host_header_dispatch() {
    let routes = table();
    let host = get_host(b"GET / HTTP/1.1\r\nHost: local.example\r\nAccept: */*\r\n\r\n").unwrap();
    assert_eq!(host, "local.example");
    assert_eq!(
        routes.route(&host),
        Some(Route::Local(HostAddr::V4 { ip: [127, 0, 0, 1], port: 9999 }))
    );
    assert_eq!(routes.route("svc.example"), Some(Route::Ingress(0)));
    assert_eq!(routes.route("both.example"), Some(Route::Ingress(1)));
    assert_eq!(routes.route("nowhere.example"), None);
    assert_eq!(routes.route(""), None);
}

#[test]
fn host_header_missing() {
    assert_eq!(get_host(b"GET / HTTP/1.1\r\nAccept: */*\r\n\r\n"), Err(ProxyError::HostNotFound));
    assert_eq!(get_host(b"GET / HTTP/1.1\r\nhost: a\r\n\r\n"), Err(ProxyError::HostNotFound));
    assert_eq!(get_host(b"\x16\x03\x01garbage"), Err(ProxyError::HostNotFound));
    assert_eq!(get_host(b"GET / HTTP/1.1\r\nHost: partial.example\r\n"), Ok("partial.example".to_string()));
}

#[test]
fn tls_without_server_name_fails_at_dispatch() {
    let routes = table();
    assert_eq!(routes.dispatch_tls(None), Err(ProxyError::NoServerName));
    assert_eq!(routes.dispatch_tls(Some("svc.example")), Ok(Route::Ingress(0)));
    assert_eq!(routes.dispatch_tls(Some("nowhere")), Err(ProxyError::RouteNotFound));
    assert_eq!(ProxyError::NoServerName.message(), "TLS connection didn't provide server name");
}

#[test]
fn cluster_lookup() {
    let routes = table();
    assert_eq!(routes.cluster_for(None), Ok(0));
    assert_eq!(routes.cluster_for(Some("both.example")), Ok(1));
    assert_eq!(routes.cluster_for(Some("local.example")), Err(ProxyError::NoCluster));
    assert_eq!(RouteTable::new(0).cluster_for(None), Err(ProxyError::NoCluster));
}

#[test]
fn cached_configs_are_kept_per_name() {
    let mut certs: NameTable<Vec<u8>> = NameTable::new();
    certs.insert("h".to_string(), vec![1, 2, 3]);
    certs.insert("h2".to_string(), vec![4]);
    assert_eq!(certs.get("h"), Some(&vec![1, 2, 3]));
    assert_eq!(certs.get("h"), certs.get("h"));
    assert_ne!(certs.get("h"), certs.get("h2"));
    assert!(certs.contains("h2"));
    assert!(!certs.contains("h3"));
}

#[test]
fn host_file_lines() {
    assert_eq!(
        split_host_line("db.local=10.0.0.5:5432"),
        Some(("db.local".to_string(), "10.0.0.5:5432".to_string()))
    );
    assert_eq!(split_host_line("a=b=c"), Some(("a".to_string(), "b=c".to_string())));
    assert_eq!(split_host_line("no separator"), None);
    assert_eq!(split_host_line(""), None);
    assert!(is_k8s_source("k8s"));
    assert!(is_k8s_source("K8S"));
    assert!(!is_k8s_source("./hosts.txt"));
}

fn tls(hosts: &[&str], secret: Option<&str>) -> IngressTls {
    IngressTls {
        hosts: Some(hosts.iter().map(|h| h.to_string()).collect()),
        secret_name: secret.map(|s| s.to_string()),
    }
}

#[test]
fn ingress_rule_hosts_are_flattened() {
    let specs = vec![
        Some(IngressSpec { rules: Some(vec![Some("a".to_string())]), tls: None }),
        None,
        Some(IngressSpec { rules: None, tls: None }),
        Some(IngressSpec { rules: Some(vec![None, Some("b".to_string()), Some("c".to_string())]), tls: None }),
    ];
    assert_eq!(ingress_hosts(&specs), vec!["a".to_string(), "b".to_string(), "c".to_string()]);
}

#[test]
fn tls_secret_selection() {
    let specs = vec![
        Some(IngressSpec { rules: None, tls: Some(vec![tls(&["x"], Some("x-cert"))]) }),
        Some(IngressSpec {
            rules: None,
            tls: Some(vec![tls(&["h"], None), tls(&["g", "h"], Some("h-cert")), tls(&["h"], Some("late"))]),
        }),
    ];
    assert_eq!(tls_secret_name(&specs, "h"), Some("h-cert".to_string()));
    assert_eq!(tls_secret_name(&specs, "x"), Some("x-cert".to_string()));
    assert_eq!(tls_secret_name(&specs, "nope"), None);

    let secrets = vec![
        SecretData { name: Some("h-cert".to_string()), tls_key: None, tls_crt: Some(vec![1]) },
        SecretData { name: Some("other".to_string()), tls_key: Some(vec![9]), tls_crt: Some(vec![9]) },
        SecretData { name: Some("h-cert".to_string()), tls_key: Some(vec![2]), tls_crt: Some(vec![3]) },
    ];
    assert_eq!(tls_material(&secrets, "h-cert"), Some((vec![2], vec![3])));
    assert_eq!(tls_material(&secrets, "missing"), None);
}

#[test]
fn pods_and_ports() {
    assert_eq!(pick_pod(vec!["pod-a".to_string(), "pod-b".to_string()]), Some("pod-b".to_string()));
    assert_eq!(pick_pod(vec![]), None);
    assert_eq!(pod_port(true, 80, 443), 443);
    assert_eq!(pod_port(false, 80, 443), 80);
}

#[test]
fn configuration_defaults() {
    assert_eq!(empty(), "");
    assert_eq!(google_dns(), "8.8.8.8");
    assert_eq!(port_53(), 53);
    assert_eq!(port_80(), 80);
    assert_eq!(port_443(), 443);
    assert_eq!(kube_ingress_dns::config::default(), "default");
    assert_eq!(ingress_label(), "app.kubernetes.io/name=ingress");
    assert_eq!(PortProps::new(), PortProps { http: 80, https: 443 });
    assert!(is_enabled("0.0.0.0"));
    assert!(!is_enabled(""));
}

#[test]
fn leaf_certificates_name_their_host() {
    let spec = leaf_spec("h2.example", 1_000);
    assert_eq!(spec.common_name, "h2.example");
    assert_eq!(spec.dns_name, "h2.example");
    assert_eq!(spec.not_before, 1_000);
    assert_eq!(spec.not_after, 1_000 + 365 * 86400);
    assert_eq!(spec.algorithm, KeyPairAlgorithm::RSA);
    assert_eq!(default_algorithm(), KeyPairAlgorithm::RSA);
    assert_ne!(leaf_spec("h.example", 1_000).common_name, spec.common_name);
}

#[test]
fn tls_session_without_sni_fails_before_handshake() {
    let routes = table();
    let mut session = Session::new();
    assert_eq!(session.step(&routes, ConnEvent::Head(vec![0x16, 0x03, 0x03])), ConnAction::ReadClientHello);
    assert_eq!(session.phase, Phase::PeekedTls);
    assert_eq!(session.step(&routes, ConnEvent::ClientHello(None)), ConnAction::Fail(ProxyError::NoServerName));
    assert_eq!(session.phase, Phase::Failed);
}

#[test]
fn tls_session_with_known_sni_is_spliced() {
    let routes = table();
    let mut session = Session::new();
    session.step(&routes, ConnEvent::Head(vec![0x16, 0x03, 0x01, 0x00]));
    assert_eq!(
        session.step(&routes, ConnEvent::ClientHello(Some("svc.example".to_string()))),
        ConnAction::Handshake { server_name: "svc.example".to_string(), route: Route::Ingress(0) }
    );
    assert_eq!(session.step(&routes, ConnEvent::UpstreamOpened), ConnAction::Splice);
    assert_eq!(session.step(&routes, ConnEvent::SpliceEnded { clean: true }), ConnAction::Close);
    assert_eq!(session.phase, Phase::Closed);
}

#[test]
fn plain_session_routes_by_host() {
    let routes = table();
    let mut session = Session::new();
    assert_eq!(session.step(&routes, ConnEvent::Head(b"GET".to_vec())), ConnAction::PeekRequest);
    assert_eq!(
        session.step(&routes, ConnEvent::RequestHead(b"GET / HTTP/1.1\r\nHost: local.example\r\n\r\n".to_vec())),
        ConnAction::Open { route: Route::Local(HostAddr::V4 { ip: [127, 0, 0, 1], port: 9999 }) }
    );
    assert_eq!(session.step(&routes, ConnEvent::UpstreamFailed), ConnAction::Fail(ProxyError::UpstreamFailed));

    let mut unknown = Session::new();
    unknown.step(&routes, ConnEvent::Head(b"GET".to_vec()));
    assert_eq!(
        unknown.step(&routes, ConnEvent::RequestHead(b"GET / HTTP/1.1\r\nHost: nowhere\r\n\r\n".to_vec())),
        ConnAction::Shutdown
    );
    assert_eq!(unknown.phase, Phase::Closed);
    assert_eq!(unknown.step(&routes, ConnEvent::UpstreamOpened), ConnAction::Fail(ProxyError::OutOfOrder));
}
