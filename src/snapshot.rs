//! The release snapshot: which service, package and database versions
//! were on the stage environment when a release was cut.

use vstd::prelude::*;

verus! {

/// One environment of a service, with the version deployed there if known.
#[derive(Clone, Debug, PartialEq, Eq)]
pub struct ServiceEnv {
    pub env_key: String,
    pub version: Option<Option<String>>,
}

/// A service and its environments.
#[derive(Clone, Debug, PartialEq, Eq)]
pub struct ServiceRecord {
    pub identifier: String,
    pub envs: Vec<ServiceEnv>,
}

/// A package and its stage version.
#[derive(Clone, Debug, PartialEq, Eq)]
pub struct PackageRecord {
    pub identifier: String,
    pub version: String,
}

/// A database schema and its stage version, if known.
#[derive(Clone, Debug, PartialEq, Eq)]
pub struct DatabaseRecord {
    pub name: String,
    pub version: Option<Option<String>>,
}

#[derive(Clone, Debug, PartialEq, Eq)]
pub struct ServiceSnapshot {
    pub identifier: String,
    pub version: String,
}

#[derive(Clone, Debug, PartialEq, Eq)]
pub struct PackageSnapshot {
    pub identifier: String,
    pub version: String,
}

#[derive(Clone, Debug, PartialEq, Eq)]
pub struct DatabaseSnapshot {
    pub name: String,
    pub version: String,
}

/// The versions a release snapshot records.
#[derive(Clone, Debug, PartialEq, Eq)]
pub struct Snapshot {
    pub services: Vec<ServiceSnapshot>,
    pub packages: Vec<PackageSnapshot>,
    pub databases: Vec<DatabaseSnapshot>,
}

/// `@{organization}/{name}`.
pub open spec fn qualified(org: Seq<char>, name: Seq<char>) -> Seq<char> {
    "@"@ + org + "/"@ + name
}

/// The known version of a doubly optional version.
pub open spec fn known_version(v: Option<Option<String>>) -> Option<Seq<char>> {
    match v {
        Some(Some(s)) => Some(s@),
        _ => None,
    }
}

/// The version on the first environment named `stage`, if it is known.
pub open spec fn stage_version(envs: Seq<ServiceEnv>) -> Option<Seq<char>>
    decreases envs.len(),
{
    if envs.len() == 0 {
        None
    } else if envs[0].env_key@ == "stage"@ {
        known_version(envs[0].version)
    } else {
        stage_version(envs.drop_first())
    }
}

/// One entry, in order, per service with a known stage version.
pub open spec fn service_entries(org: Seq<char>, s: Seq<ServiceRecord>) -> Seq<(Seq<char>, Seq<char>)>
    decreases s.len(),
{
    if s.len() == 0 {
        Seq::empty()
    } else {
        let rest = service_entries(org, s.drop_last());
        match stage_version(s.last().envs@) {
            Some(v) => rest.push((qualified(org, s.last().identifier@), v)),
            None => rest,
        }
    }
}

/// One entry, in order, per database with a known version.
pub open spec fn database_entries(org: Seq<char>, s: Seq<DatabaseRecord>) -> Seq<
    (Seq<char>, Seq<char>),
>
    decreases s.len(),
{
    if s.len() == 0 {
        Seq::empty()
    } else {
        let rest = database_entries(org, s.drop_last());
        match known_version(s.last().version) {
            Some(v) => rest.push((qualified(org, s.last().name@), v)),
            None => rest,
        }
    }
}

fn qualified_name(org: &str, name: &str) -> (r: String)
    ensures
        r@ == qualified(org@, name@),
{
    let mut r = String::new();
    r.append("@");
    r.append(org);
    r.append("/");
    r.append(name);
    r
}

fn known(v: &Option<Option<String>>) -> (r: Option<String>)
    ensures
        match r {
            Some(s) => known_version(*v) == Some(s@),
            None => known_version(*v) is None,
        },
{
    match v {
        Some(Some(s)) => Some(s.clone()),
        _ => None,
    }
}

fn stage_version_of(envs: &Vec<ServiceEnv>) -> (r: Option<String>)
    ensures
        match r {
            Some(s) => stage_version(envs@) == Some(s@),
            None => stage_version(envs@) is None,
        },
{
    let stage = String::from_str("stage");
    let mut i: usize = 0;
    assert(envs@.skip(0) =~= envs@);
    while i < envs.len()
        invariant
            0 <= i <= envs.len(),
            stage@ == "stage"@,
            stage_version(envs@) == stage_version(envs@.skip(i as int)),
        decreases envs.len() - i,
    {
        assert(envs@.skip(i as int)[0] == envs@[i as int]);
        if envs[i].env_key == stage {
            return known(&envs[i].version);
        }
        assert(envs@.skip(i as int).drop_first() =~= envs@.skip(i + 1));
        i = i + 1;
    }
    None
}

pub open spec fn service_view(s: Seq<ServiceSnapshot>) -> Seq<(Seq<char>, Seq<char>)> {
    s.map_values(|e: ServiceSnapshot| (e.identifier@, e.version@))
}

pub open spec fn package_view(s: Seq<PackageSnapshot>) -> Seq<(Seq<char>, Seq<char>)> {
    s.map_values(|e: PackageSnapshot| (e.identifier@, e.version@))
}

pub open spec fn database_view(s: Seq<DatabaseSnapshot>) -> Seq<(Seq<char>, Seq<char>)> {
    s.map_values(|e: DatabaseSnapshot| (e.name@, e.version@))
}

/// The stage versions of the organisation's services (see
/// `service_entries`).
pub fn service_snapshots(org: &str, services: &Vec<ServiceRecord>) -> (r: Vec<ServiceSnapshot>)
    ensures
        service_view(r@) == service_entries(org@, services@),
{
    let mut r: Vec<ServiceSnapshot> = Vec::new();
    let mut i: usize = 0;
    assert(services@.take(0) =~= Seq::<ServiceRecord>::empty());
    while i < services.len()
        invariant
            0 <= i <= services.len(),
            service_view(r@) == service_entries(org@, services@.take(i as int)),
        decreases services.len() - i,
    {
        let s = &services[i];
        assert(services@.take(i + 1).drop_last() =~= services@.take(i as int));
        match stage_version_of(&s.envs) {
            Some(v) => {
                let e = ServiceSnapshot { identifier: qualified_name(org, s.identifier.as_str()), version: v };
                let ghost before = r@;
                r.push(e);
                assert(service_view(r@) =~= service_view(before).push((e.identifier@, e.version@)));
            },
            None => {},
        }
        i = i + 1;
    }
    assert(services@.take(i as int) =~= services@);
    r
}

/// The organisation's packages, one entry each, in order.
pub fn package_snapshots(org: &str, packages: &Vec<PackageRecord>) -> (r: Vec<PackageSnapshot>)
    ensures
        package_view(r@) == packages@.map_values(
            |p: PackageRecord| (qualified(org@, p.identifier@), p.version@),
        ),
{
    let mut r: Vec<PackageSnapshot> = Vec::new();
    let mut i: usize = 0;
    while i < packages.len()
        invariant
            0 <= i <= packages.len(),
            package_view(r@) == packages@.take(i as int).map_values(
                |p: PackageRecord| (qualified(org@, p.identifier@), p.version@),
            ),
        decreases packages.len() - i,
    {
        let p = &packages[i];
        let e = PackageSnapshot {
            identifier: qualified_name(org, p.identifier.as_str()),
            version: p.version.clone(),
        };
        let ghost before = r@;
        r.push(e);
        assert(package_view(r@) =~= package_view(before).push((e.identifier@, e.version@)));
        assert(packages@.take(i + 1).map_values(
            |p: PackageRecord| (qualified(org@, p.identifier@), p.version@),
        ) =~= packages@.take(i as int).map_values(
            |p: PackageRecord| (qualified(org@, p.identifier@), p.version@),
        ).push((qualified(org@, p.identifier@), p.version@)));
        assert(package_view(r@) =~= packages@.take(i + 1).map_values(
            |p: PackageRecord| (qualified(org@, p.identifier@), p.version@),
        ));
        i = i + 1;
    }
    assert(packages@.take(i as int) =~= packages@);
    r
}

/// The organisation's database schemas with a known version (see
/// `database_entries`).
pub fn database_snapshots(org: &str, databases: &Vec<DatabaseRecord>) -> (r: Vec<DatabaseSnapshot>)
    ensures
        database_view(r@) == database_entries(org@, databases@),
{
    let mut r: Vec<DatabaseSnapshot> = Vec::new();
    let mut i: usize = 0;
    assert(databases@.take(0) =~= Seq::<DatabaseRecord>::empty());
    while i < databases.len()
        invariant
            0 <= i <= databases.len(),
            database_view(r@) == database_entries(org@, databases@.take(i as int)),
        decreases databases.len() - i,
    {
        let d = &databases[i];
        assert(databases@.take(i + 1).drop_last() =~= databases@.take(i as int));
        match known(&d.version) {
            Some(v) => {
                let e = DatabaseSnapshot { name: qualified_name(org, d.name.as_str()), version: v };
                let ghost before = r@;
                r.push(e);
                assert(database_view(r@) =~= database_view(before).push((e.name@, e.version@)));
            },
            None => {},
        }
        i = i + 1;
    }
    assert(databases@.take(i as int) =~= databases@);
    r
}

} // verus!
