//! The services manifest: what the owning stack declares about itself.
//!
//! The stack writes a merged JSON manifest; webtop reads it and shows
//! exactly what is declared, nothing discovered. Decoding the JSON is the
//! caller's job and yields a [`RawManifest`]; this module checks its schema
//! and turns its entries into [`ServiceDef`]s.
use vstd::prelude::*;
use crate::text::{push_str, push_decimal, decimal};

verus! {

/// The only manifest schema this reader understands. An unfamiliar one is
/// refused rather than guessed at.
pub const SUPPORTED_SCHEMA: u32 = 1;

/// One declared service.
#[derive(Debug)]
pub struct ServiceDef {
    pub name: String,
    pub label: String,
    /// TCP port it listens on, when it listens at all.
    pub port: Option<u16>,
    /// Display grouping.
    pub group: String,
    /// Declared memory ceiling in bytes.
    pub mem_budget: Option<u64>,
    /// Services that must be up first.
    pub depends_on: Vec<String>,
}

/// The manifest as decoded from disk; unknown keys were ignored.
#[derive(Debug)]
pub struct RawManifest {
    pub schema: Option<u32>,
    pub services: Vec<RawService>,
}

#[derive(Debug)]
pub struct RawService {
    pub name: String,
    pub label: String,
    pub port: Option<u16>,
    pub group: Option<String>,
    pub mem_budget: Option<u64>,
    pub depends_on: Vec<String>,
}

/// A service definition as the verifier sees it.
pub struct ServiceModel {
    pub name: Seq<char>,
    pub label: Seq<char>,
    pub port: Option<u16>,
    pub group: Seq<char>,
    pub mem_budget: Option<u64>,
    pub depends_on: Seq<Seq<char>>,
}

pub open spec fn service_model(d: ServiceDef) -> ServiceModel {
    ServiceModel {
        name: d.name@,
        label: d.label@,
        port: d.port,
        group: d.group@,
        mem_budget: d.mem_budget,
        depends_on: d.depends_on.deep_view(),
    }
}

pub open spec fn service_models(ds: Seq<ServiceDef>) -> Seq<ServiceModel> {
    ds.map_values(|d: ServiceDef| service_model(d))
}

/// The group shown for a service: its declared one, or `"other"` when it
/// declares none or an empty one.
pub open spec fn group_or_other(g: Option<String>) -> Seq<char> {
    match g {
        Some(s) => if s@.len() > 0 {
            s@
        } else {
            "other"@
        },
        None => "other"@,
    }
}

pub open spec fn raw_service_model(s: RawService) -> ServiceModel {
    ServiceModel {
        name: s.name@,
        label: s.label@,
        port: s.port,
        group: group_or_other(s.group),
        mem_budget: s.mem_budget,
        depends_on: s.depends_on.deep_view(),
    }
}

/// The message for a schema other than [`SUPPORTED_SCHEMA`].
pub open spec fn unsupported_schema_message(other: u32) -> Seq<char> {
    "manifest schema "@ + decimal(other as nat)
        + " is not supported (expected 1) — rebuild webtop against the current macosctl contract"@
}

/// Check the schema and turn the decoded entries into service definitions.
pub fn from_raw(raw: RawManifest) -> (r: Result<Vec<ServiceDef>, String>)
    ensures
        match raw.schema {
            None => r is Err && r->Err_0@ == "manifest is missing its schema field"@,
            Some(v) => if v == SUPPORTED_SCHEMA {
                r is Ok && service_models(r->Ok_0@) == raw.services@.map_values(
                    |s: RawService| raw_service_model(s),
                )
            } else {
                r is Err && r->Err_0@ == unsupported_schema_message(v)
            },
        },
{
    match raw.schema {
        None => {
            let mut m = String::new();
            push_str(&mut m, "manifest is missing its schema field");
            Err(m)
        },
        Some(v) => {
            if v != SUPPORTED_SCHEMA {
                let mut m = String::new();
                push_str(&mut m, "manifest schema ");
                push_decimal(&mut m, v as u64);
                push_str(
                    &mut m,
                    " is not supported (expected 1) — rebuild webtop against the current macosctl contract",
                );
                return Err(m);
            }
            let ghost raws = raw.services@;
            let mut out: Vec<ServiceDef> = Vec::new();
            let mut services = raw.services;
            let n = services.len();
            let mut i: usize = 0;
            while i < n
                invariant
                    n == raws.len(),
                    services@ == raws,
                    i <= n,
                    service_models(out@) == raws.take(i as int).map_values(
                        |s: RawService| raw_service_model(s),
                    ),
                decreases n - i,
            {
                let s = &services[i];
                let group = match &s.group {
                    Some(g) => if !g.as_str().is_empty() {
                        g.clone()
                    } else {
                        let mut o = String::new();
                        push_str(&mut o, "other");
                        o
                    },
                    None => {
                        let mut o = String::new();
                        push_str(&mut o, "other");
                        o
                    },
                };
                proof {
                    broadcast use vstd::string::group_string_axioms;
                }
                let d = ServiceDef {
                    name: s.name.clone(),
                    label: s.label.clone(),
                    port: s.port,
                    group,
                    mem_budget: s.mem_budget,
                    depends_on: crate::collector::net_interfaces::clone_strings(&s.depends_on),
                };
                let ghost before = out@;
                out.push(d);
                assert(service_models(out@) =~= service_models(before).push(service_model(d)));
                assert(raws.take(i + 1).map_values(|s: RawService| raw_service_model(s)) =~= raws.take(
                    i as int,
                ).map_values(|s: RawService| raw_service_model(s)).push(raw_service_model(raws[i as int])));
                i += 1;
            }
            assert(raws.take(n as int) =~= raws);
            Ok(out)
        },
    }
}

/// A copy of a service definition.
pub fn copy_service(d: &ServiceDef) -> (r: ServiceDef)
    ensures
        service_model(r) == service_model(*d),
{
    ServiceDef {
        name: d.name.clone(),
        label: d.label.clone(),
        port: d.port,
        group: d.group.clone(),
        mem_budget: d.mem_budget,
        depends_on: crate::collector::net_interfaces::clone_strings(&d.depends_on),
    }
}

/// A copy of a list of service definitions.
pub fn copy_services(ds: &Vec<ServiceDef>) -> (r: Vec<ServiceDef>)
    ensures
        service_models(r@) == service_models(ds@),
{
    let mut r: Vec<ServiceDef> = Vec::new();
    let n = ds.len();
    for i in 0..n
        invariant
            n == ds@.len(),
            service_models(r@) == service_models(ds@.take(i as int)),
    {
        let ghost before = r@;
        let d = copy_service(&ds[i]);
        r.push(d);
        assert(service_models(r@) =~= service_models(before).push(service_model(d)));
        assert(service_models(ds@.take(i + 1)) =~= service_models(ds@.take(i as int)).push(
            service_model(ds@[i as int]),
        ));
    }
    assert(ds@.take(n as int) =~= ds@);
    r
}

} // verus!
