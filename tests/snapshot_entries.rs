use ginger_releaser::snapshot::{
    database_snapshots, package_snapshots, service_snapshots, DatabaseRecord, DatabaseSnapshot,
    PackageRecord, PackageSnapshot, ServiceEnv, ServiceRecord, ServiceSnapshot,
};

fn env(key: &str, version: Option<Option<&str>>) -> ServiceEnv {
    ServiceEnv { env_key: key.to_string(), version: version.map(|v| v.map(|s| s.to_string())) }
}

#[test]
fn services_report_their_stage_version() {
    let services = vec![
        ServiceRecord {
            identifier: "api".to_string(),
            envs: vec![env("dev", Some(Some("9"))), env("stage", Some(Some("1.4.0")))],
        },
        ServiceRecord { identifier: "web".to_string(), envs: vec![env("stage", Some(None))] },
        ServiceRecord { identifier: "db".to_string(), envs: vec![env("prod", Some(Some("2")))] },
        ServiceRecord {
            identifier: "jobs".to_string(),
            envs: vec![env("stage", None), env("stage", Some(Some("7")))],
        },
    ];
    assert_eq!(
        service_snapshots("acme", &services),
        vec![ServiceSnapshot { identifier: "@acme/api".to_string(), version: "1.4.0".to_string() }]
    );
}

#[test]
fn packages_are_all_reported() {
    let packages = vec![
        PackageRecord { identifier: "core".to_string(), version: "0.3.0".to_string() },
        PackageRecord { identifier: "ui".to_string(), version: "1.0.0".to_string() },
    ];
    assert_eq!(
        package_snapshots("acme", &packages),
        vec![
            PackageSnapshot { identifier: "@acme/core".to_string(), version: "0.3.0".to_string() },
            PackageSnapshot { identifier: "@acme/ui".to_string(), version: "1.0.0".to_string() },
        ]
    );
}

#[test]
fn databases_without_version_are_left_out() {
    let dbs = vec![
        DatabaseRecord { name: "main".to_string(), version: Some(Some("5".to_string())) },
        DatabaseRecord { name: "cache".to_string(), version: None },
        DatabaseRecord { name: "logs".to_string(), version: Some(None) },
    ];
    assert_eq!(
        database_snapshots("acme", &dbs),
        vec![DatabaseSnapshot { name: "@acme/main".to_string(), version: "5".to_string() }]
    );
}
