use vstd::prelude::*;
use vstd::slice::slice_to_vec;

use crate::cache::texts;
use crate::text::text_eq;

verus! {

/// What the proxy reads of an ingress spec: the host of each rule and the
/// TLS entries.
pub struct IngressSpec {
    pub rules: Option<Vec<Option<String>>>,
    pub tls: Option<Vec<IngressTls>>,
}

/// One TLS entry of an ingress: the hosts it covers and the secret that
/// holds their certificate.
pub struct IngressTls {
    pub hosts: Option<Vec<String>>,
    pub secret_name: Option<String>,
}

/// What the proxy reads of a secret: its name and its `tls.key` and
/// `tls.crt` data.
pub struct SecretData {
    pub name: Option<String>,
    pub tls_key: Option<Vec<u8>>,
    pub tls_crt: Option<Vec<u8>>,
}

/// The rules of an ingress, none when it has no spec or no rules.
pub open spec fn spec_rules(s: Option<IngressSpec>) -> Seq<Option<String>> {
    match s {
        Some(sp) => match sp.rules {
            Some(r) => r@,
            None => Seq::empty(),
        },
        None => Seq::empty(),
    }
}

/// The hosts that a run of rules names, skipping rules without one.
pub open spec fn rule_hosts(rules: Seq<Option<String>>) -> Seq<Seq<char>>
    decreases rules.len(),
{
    if rules.len() == 0 {
        Seq::empty()
    } else {
        rule_hosts(rules.drop_last()) + match rules.last() {
            Some(h) => seq![h@],
            None => Seq::<Seq<char>>::empty(),
        }
    }
}

/// The hosts of all the rules of a run of ingresses, in order.
pub open spec fn all_hosts(specs: Seq<Option<IngressSpec>>) -> Seq<Seq<char>>
    decreases specs.len(),
{
    if specs.len() == 0 {
        Seq::empty()
    } else {
        all_hosts(specs.drop_last()) + rule_hosts(spec_rules(specs.last()))
    }
}

/// The hosts that the rules of a run of ingresses name, in order.
pub fn ingress_hosts(specs: &Vec<Option<IngressSpec>>) -> (r: Vec<String>)
    ensures
        texts(r@) == all_hosts(specs@),
{
    let mut out: Vec<String> = Vec::new();
    let mut i: usize = 0;
    proof {
        assert(specs@.take(0) =~= Seq::<Option<IngressSpec>>::empty());
        assert(texts(out@) =~= Seq::<Seq<char>>::empty());
    }
    while i < specs.len()
        invariant
            i <= specs@.len(),
            texts(out@) == all_hosts(specs@.take(i as int)),
        decreases specs@.len() - i,
    {
        proof {
            assert(specs@.take(i + 1).drop_last() =~= specs@.take(i as int));
        }
        let ghost base = texts(out@);
        match &specs[i] {
            Some(sp) => match &sp.rules {
                Some(rules) => {
                    let mut j: usize = 0;
                    proof {
                        assert(rules@.take(0) =~= Seq::<Option<String>>::empty());
                        assert(base + rule_hosts(rules@.take(0)) =~= base);
                    }
                    while j < rules.len()
                        invariant
                            j <= rules@.len(),
                            texts(out@) == base + rule_hosts(rules@.take(j as int)),
                        decreases rules@.len() - j,
                    {
                        proof {
                            assert(rules@.take(j + 1).drop_last() =~= rules@.take(j as int));
                        }
                        match &rules[j] {
                            Some(h) => {
                                let ghost before = out@;
                                out.push(h.clone());
                                proof {
                                    assert(texts(out@) =~= texts(before).push(h@));
                                    assert(base + rule_hosts(rules@.take(j + 1)) =~= base
                                        + rule_hosts(rules@.take(j as int)) + seq![h@]);
                                }
                            },
                            None => {
                                proof {
                                    assert(rule_hosts(rules@.take(j + 1)) =~= rule_hosts(
                                        rules@.take(j as int),
                                    ) + Seq::<Seq<char>>::empty());
                                }
                            },
                        }
                        j = j + 1;
                    }
                    proof {
                        assert(rules@.take(j as int) =~= rules@);
                    }
                },
                None => {
                    proof {
                        assert(base + Seq::<Seq<char>>::empty() =~= base);
                    }
                },
            },
            None => {
                proof {
                    assert(base + Seq::<Seq<char>>::empty() =~= base);
                }
            },
        }
        i = i + 1;
    }
    proof {
        assert(specs@.take(i as int) =~= specs@);
    }
    out
}

/// Whether a TLS entry covers `host` and names its secret.
pub open spec fn tls_covers(e: IngressTls, host: Seq<char>) -> bool {
    &&& e.secret_name is Some
    &&& e.hosts is Some
    &&& exists|k: int| 0 <= k < e.hosts->0@.len() && (#[trigger] e.hosts->0@[k])@ == host
}

/// The TLS entries of an ingress, none when it has no spec or no TLS.
pub open spec fn spec_tls(s: Option<IngressSpec>) -> Seq<IngressTls> {
    match s {
        Some(sp) => match sp.tls {
            Some(t) => t@,
            None => Seq::empty(),
        },
        None => Seq::empty(),
    }
}

/// Whether some TLS entry of the run covers `host`.
pub open spec fn some_covers(es: Seq<IngressTls>, host: Seq<char>) -> bool {
    exists|k: int| 0 <= k < es.len() && tls_covers(#[trigger] es[k], host)
}

/// Whether `hosts` holds `host`.
fn holds_host(hosts: &Vec<String>, host: &str) -> (r: bool)
    ensures
        r == exists|k: int| 0 <= k < hosts@.len() && (#[trigger] hosts@[k])@ == host@,
{
    let mut i: usize = 0;
    while i < hosts.len()
        invariant
            i <= hosts@.len(),
            forall|k: int| 0 <= k < i ==> (#[trigger] hosts@[k])@ != host@,
        decreases hosts@.len() - i,
    {
        if text_eq(hosts[i].as_str(), host) {
            return true;
        }
        i = i + 1;
    }
    false
}

/// The secret named by the first TLS entry, over the ingresses in order,
/// that covers `server_name`.
pub fn tls_secret_name(specs: &Vec<Option<IngressSpec>>, server_name: &str) -> (r: Option<String>)
    ensures
        r is None <==> forall|i: int| 0 <= i < specs@.len() ==> !some_covers(spec_tls(#[trigger] specs@[i]), server_name@),
        r is Some ==> exists|i: int, k: int|
            0 <= i < specs@.len() && 0 <= k < spec_tls(specs@[i]).len() && tls_covers(
                #[trigger] spec_tls(specs@[i])[k],
                server_name@,
            ) && spec_tls(specs@[i])[k].secret_name->0@ == r->0@
            && (forall|i2: int| 0 <= i2 < i ==> !some_covers(#[trigger] spec_tls(specs@[i2]), server_name@))
            && (forall|earlier: int| 0 <= earlier < k ==> !tls_covers(#[trigger] spec_tls(specs@[i])[earlier], server_name@)),
{
    let mut i: usize = 0;
    while i < specs.len()
        invariant
            i <= specs@.len(),
            forall|i2: int| 0 <= i2 < i ==> !some_covers(spec_tls(#[trigger] specs@[i2]), server_name@),
        decreases specs@.len() - i,
    {
        let ghost es = spec_tls(specs@[i as int]);
        match &specs[i] {
            Some(sp) => match &sp.tls {
                Some(list) => {
                    let mut k: usize = 0;
                    while k < list.len()
                        invariant
                            k <= list@.len(),
                            es == list@,
                            es == spec_tls(specs@[i as int]),
                            i < specs@.len(),
                            forall|i2: int| 0 <= i2 < i ==> !some_covers(spec_tls(#[trigger] specs@[i2]), server_name@),
                            forall|earlier: int| 0 <= earlier < k ==> !tls_covers(#[trigger] es[earlier], server_name@),
                        decreases list@.len() - k,
                    {
                        let e = &list[k];
                        match (&e.hosts, &e.secret_name) {
                            (Some(hosts), Some(name)) => {
                                if holds_host(hosts, server_name) {
                                    let r = name.clone();
                                    proof {
                                        let ii = i as int;
                                        let kk = k as int;
                                        assert(tls_covers(es[kk], server_name@));
                                        assert(some_covers(spec_tls(specs@[ii]), server_name@));
                                        assert(spec_tls(specs@[ii])[kk].secret_name->0@ == r@);
                                        assert(0 <= ii < specs@.len() && 0 <= kk < spec_tls(specs@[ii]).len()
                                            && tls_covers(spec_tls(specs@[ii])[kk], server_name@)
                                            && spec_tls(specs@[ii])[kk].secret_name->0@ == r@
                                            && (forall|i2: int| 0 <= i2 < ii ==> !some_covers(#[trigger] spec_tls(specs@[i2]), server_name@))
                                            && (forall|earlier: int| 0 <= earlier < kk ==> !tls_covers(#[trigger] spec_tls(specs@[ii])[earlier], server_name@)));
                                    }
                                    return Some(r);
                                }
                            },
                            _ => {},
                        }
                        k = k + 1;
                    }
                },
                None => {},
            },
            None => {},
        }
        i = i + 1;
    }
    None
}

/// The first secret named `secret_name` that holds both a key and a
/// certificate, with those two, key first.
pub open spec fn material_from(secrets: Seq<SecretData>, secret_name: Seq<char>, i: int) -> Option<
    (Seq<u8>, Seq<u8>),
>
    decreases secrets.len() - i,
{
    if i < 0 || i >= secrets.len() {
        None
    } else {
        let s = secrets[i];
        if s.name is Some && s.name->0@ == secret_name && s.tls_key is Some && s.tls_crt is Some {
            Some((s.tls_key->0@, s.tls_crt->0@))
        } else {
            material_from(secrets, secret_name, i + 1)
        }
    }
}

/// The key and certificate of the first secret named `secret_name` that
/// holds both.
pub fn tls_material(secrets: &Vec<SecretData>, secret_name: &str) -> (r: Option<(Vec<u8>, Vec<u8>)>)
    ensures
        match material_from(secrets@, secret_name@, 0) {
            Some((k, c)) => r is Some && (r->0).0@ == k && (r->0).1@ == c,
            None => r is None,
        },
{
    let mut i: usize = 0;
    while i < secrets.len()
        invariant
            i <= secrets@.len(),
            material_from(secrets@, secret_name@, 0) == material_from(secrets@, secret_name@, i as int),
        decreases secrets@.len() - i,
    {
        let s = &secrets[i];
        match (&s.name, &s.tls_key, &s.tls_crt) {
            (Some(name), Some(key), Some(crt)) => {
                if text_eq(name.as_str(), secret_name) {
                    return Some((slice_to_vec(key.as_slice()), slice_to_vec(crt.as_slice())));
                }
            },
            _ => {},
        }
        i = i + 1;
    }
    None
}

/// The pod a port-forward goes to: the last one listed.
pub fn pick_pod(mut pods: Vec<String>) -> (r: Option<String>)
    ensures
        pods@.len() == 0 ==> r is None,
        pods@.len() > 0 ==> r is Some && r->0 == pods@.last(),
{
    pods.pop()
}

/// The pod port a port-forward opens: the HTTPS port for a TLS upstream,
/// else the HTTP port.
pub fn pod_port(secure: bool, http: u16, https: u16) -> (r: u16)
    ensures
        r == if secure {
            https
        } else {
            http
        },
{
    if secure {
        https
    } else {
        http
    }
}

} // verus!
