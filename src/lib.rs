//! An ingress-side DNS resolver and TLS-aware reverse proxy for Kubernetes
//! clusters: the DNS wire codec, the host cache, the query decisions, and the
//! connection routing rules, each with a verified contract.

pub mod config;
pub mod error;
pub mod addr;
pub mod text;
pub mod name;
pub mod buffer;
pub mod header;
pub mod question;
pub mod record;
pub mod packet;
pub mod cache;
pub mod resolver;
pub mod table;
pub mod routes;
pub mod http;
pub mod session;
pub mod hosts;
pub mod ingress;
pub mod certs;
pub mod roundtrip;
