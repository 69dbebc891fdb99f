use cerberus::{AccessError, OriginSource, ProjectData, ProjectKey};

fn project(
    is_enabled: bool,
    keys: Vec<(&str, bool)>,
    allowed_origins: Vec<&str>,
    bundle_ids: Vec<&str>,
    package_names: Vec<&str>,
) -> ProjectData {
    let strings = |v: Vec<&str>| v.into_iter().map(|s| s.to_owned()).collect();
    ProjectData {
        uuid: "test".to_owned(),
        creator: "test".to_owned(),
        name: "test".to_owned(),
        push_url: None,
        keys: keys
            .into_iter()
            .map(|(value, is_valid)| ProjectKey {
                value: value.to_owned(),
                is_valid,
            })
            .collect(),
        is_enabled,
        is_verify_enabled: false,
        is_rate_limited: true,
        allowed_origins: strings(allowed_origins),
        verified_domains: vec![],
        bundle_ids: strings(bundle_ids),
        package_names: strings(package_names),
    }
}

#[test]
fn origin_validation() {
    let project = ProjectData {
        uuid: "test".to_owned(),
        creator: "test".to_owned(),
        push_url: None,
        name: "test".to_owned(),
        keys: vec![ProjectKey {
            value: "test".to_owned(),
            is_valid: true,
        }],
        verified_domains: vec![],
        is_rate_limited: true,
        is_verify_enabled: false,
        allowed_origins: vec![
            "https://prod.bundle.example.com".to_owned(),
            "https://prod.package.example.com".to_owned(),
            "https://prod.header.example.com".to_owned(),
        ],
        is_enabled: true,
        bundle_ids: vec![
            "com.example.bundle".to_owned(),
            "com.example.bundle.dev".to_owned(),
            "com.example.bundle.staging".to_owned(),
        ],
        package_names: vec![
            "com.example.package".to_owned(),
            "com.example.package.dev".to_owned(),
            "com.example.package.staging".to_owned(),
        ],
    };

    assert!(project
        .validate_access("test", Some(("invalid.host.com", OriginSource::Header)))
        .is_err());
    assert!(project
        .validate_access("test", Some(("invalid.host.com", OriginSource::BundleId)))
        .is_err());
    assert!(project
        .validate_access("test", Some(("invalid.host.com", OriginSource::PackageName)))
        .is_err());

    assert!(project
        .validate_access("test", Some(("prod.header.example.com", OriginSource::Header)))
        .is_ok());
    assert!(project
        .validate_access("test", Some(("com.example.header.prod", OriginSource::Header)))
        .is_ok());
    assert!(project
        .validate_access("test", Some(("prod.header.example.com", OriginSource::BundleId)))
        .is_err());
    assert!(project
        .validate_access("test", Some(("prod.header.example.com", OriginSource::PackageName)))
        .is_err());

    assert!(project
        .validate_access("test", Some(("com.example.bundle", OriginSource::Header)))
        .is_err());
    assert!(project
        .validate_access("test", Some(("com.example.bundle", OriginSource::BundleId)))
        .is_ok());
    assert!(project
        .validate_access("test", Some(("com.example.bundle", OriginSource::PackageName)))
        .is_err());

    assert!(project
        .validate_access("test", Some(("com.example.package", OriginSource::Header)))
        .is_err());
    assert!(project
        .validate_access("test", Some(("com.example.package", OriginSource::BundleId)))
        .is_err());
    assert!(project
        .validate_access("test", Some(("com.example.package", OriginSource::PackageName)))
        .is_ok());

    let project = ProjectData {
        uuid: "test".to_owned(),
        creator: "test".to_owned(),
        push_url: None,
        name: "test".to_owned(),
        keys: vec![ProjectKey {
            value: "test".to_owned(),
            is_valid: true,
        }],
        verified_domains: vec![],
        is_rate_limited: true,
        is_verify_enabled: false,
        allowed_origins: vec![],
        is_enabled: true,
        bundle_ids: vec![],
        package_names: vec![],
    };

    assert!(project
        .validate_access("test", Some(("invalid.host.com", OriginSource::Header)))
        .is_ok());
    assert!(project
        .validate_access("test", Some(("invalid.host.com", OriginSource::BundleId)))
        .is_ok());
    assert!(project
        .validate_access("test", Some(("invalid.host.com", OriginSource::PackageName)))
        .is_ok());
}

#[test]
fn end_to_end_example() {
    let p = project(
        true,
        vec![("k1", true)],
        vec!["https://*.example.com"],
        vec!["com.example.bundle"],
        vec![],
    );
    assert_eq!(
        p.validate_access("k1", Some(("https://app.example.com", OriginSource::Header))),
        Ok(())
    );
    assert_eq!(
        p.validate_access("k1", Some(("evil.com", OriginSource::Header))),
        Err(AccessError::OriginNotAllowed)
    );
    assert_eq!(
        p.validate_access("k1", Some(("com.example.bundle", OriginSource::BundleId))),
        Ok(())
    );
    assert_eq!(
        p.validate_access("k1", Some(("com.other.bundle", OriginSource::BundleId))),
        Err(AccessError::OriginNotAllowed)
    );
    assert_eq!(
        p.validate_access("k1", Some(("anything", OriginSource::PackageName))),
        Ok(())
    );
}

#[test]
fn local_host_bypass() {
    let p = project(
        true,
        vec![("k1", true)],
        vec!["https://prod.example.com"],
        vec![],
        vec![],
    );
    for origin in ["http://localhost:3000", "localhost", "127.0.0.1", "https://127.0.0.1:8443/app"] {
        assert_eq!(
            p.validate_access("k1", Some((origin, OriginSource::Header))),
            Ok(()),
            "{origin}"
        );
    }
    // The bypass is for header origins only.
    let p = project(true, vec![("k1", true)], vec![], vec!["com.example.app"], vec![]);
    assert_eq!(
        p.validate_access("k1", Some(("localhost", OriginSource::BundleId))),
        Err(AccessError::OriginNotAllowed)
    );
    // Only these exact hostnames.
    let p = project(
        true,
        vec![("k1", true)],
        vec!["https://prod.example.com"],
        vec![],
        vec![],
    );
    assert_eq!(
        p.validate_access("k1", Some(("localhost.evil.com", OriginSource::Header))),
        Err(AccessError::OriginNotAllowed)
    );
}

#[test]
fn empty_bundle_ids_allow_all() {
    let p = project(true, vec![("k1", true)], vec!["https://x.com"], vec![], vec!["a.b"]);
    for origin in ["com.anything", "x", "http://a.b.c:1"] {
        assert_eq!(
            p.validate_access("k1", Some((origin, OriginSource::BundleId))),
            Ok(())
        );
    }
    // A presented origin that does not parse is still refused.
    assert_eq!(
        p.validate_access("k1", Some(("", OriginSource::BundleId))),
        Err(AccessError::OriginNotAllowed)
    );
    let p = project(true, vec![("k1", true)], vec![], vec!["com.example.app"], vec![]);
    assert_eq!(
        p.validate_access("k1", Some(("com.example.other", OriginSource::BundleId))),
        Err(AccessError::OriginNotAllowed)
    );
}

#[test]
fn key_gating_precedes_origin_gating() {
    let p = project(true, vec![("k1", true), ("k2", false)], vec![], vec![], vec![]);
    assert_eq!(
        p.validate_access("unknown", Some(("anything", OriginSource::Header))),
        Err(AccessError::KeyInvalid)
    );
    assert_eq!(
        p.validate_access("k2", Some(("anything", OriginSource::Header))),
        Err(AccessError::KeyInvalid)
    );
    assert_eq!(p.validate_access("k2", None), Err(AccessError::KeyInvalid));
    assert_eq!(
        p.validate_access("k1", Some(("anything", OriginSource::Header))),
        Ok(())
    );

    let p = project(false, vec![("k1", true)], vec![], vec![], vec![]);
    assert_eq!(
        p.validate_access("k1", Some(("anything", OriginSource::Header))),
        Err(AccessError::ProjectInactive)
    );
    assert_eq!(p.validate_access("k1", None), Err(AccessError::ProjectInactive));
    assert_eq!(p.validate_access("nope", None), Err(AccessError::ProjectInactive));
}

#[test]
fn duplicate_keys_any_valid_one_counts() {
    let p = project(true, vec![("k1", false), ("k1", true)], vec![], vec![], vec![]);
    assert_eq!(p.validate_access("k1", None), Ok(()));
    let p = project(true, vec![], vec![], vec![], vec![]);
    assert_eq!(p.validate_access("", None), Err(AccessError::KeyInvalid));
}

#[test]
fn no_origin_pass_through() {
    let p = project(
        true,
        vec![("k1", true)],
        vec!["https://only.example.com"],
        vec!["com.only"],
        vec!["com.only"],
    );
    assert_eq!(p.validate_access("k1", None), Ok(()));
}

#[test]
fn malformed_origins() {
    let p = project(
        true,
        vec![("k1", true)],
        vec!["https://:bad", "http://x.com:99999", "https://good.example.com"],
        vec![],
        vec![],
    );
    // A presented origin that does not parse is refused.
    assert_eq!(
        p.validate_access("k1", Some(("good.example.com:70000", OriginSource::Header))),
        Err(AccessError::OriginNotAllowed)
    );
    // Malformed entries are skipped; a later entry can still grant.
    assert_eq!(
        p.validate_access("k1", Some(("good.example.com", OriginSource::Header))),
        Ok(())
    );
    let only_bad = project(true, vec![("k1", true)], vec!["::", "/x"], vec![], vec![]);
    assert_eq!(
        only_bad.validate_access("k1", Some(("x", OriginSource::Header))),
        Err(AccessError::OriginNotAllowed)
    );
}

#[test]
fn header_allows_reverse_entries_only() {
    let p = project(
        true,
        vec![("k1", true)],
        vec!["com.example.app"],
        vec!["com.example.app"],
        vec!["com.example.app"],
    );
    assert_eq!(
        p.validate_access("k1", Some(("app.example.com", OriginSource::Header))),
        Ok(())
    );
    assert_eq!(
        p.validate_access("k1", Some(("app.example.com", OriginSource::BundleId))),
        Err(AccessError::OriginNotAllowed)
    );
    assert_eq!(
        p.validate_access("k1", Some(("app.example.com", OriginSource::PackageName))),
        Err(AccessError::OriginNotAllowed)
    );
}
