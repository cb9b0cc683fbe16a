use reli::registry::{are_profiles_compatible, same_major_version, MetricProfile, MetricProfileRegistry, RegistryError};

fn profile(id: &str, vertical: &str, schema: &str, algorithms: &[&str], quality: f64) -> MetricProfile {
    MetricProfile {
        profile_id: id.to_string(),
        vertical: vertical.to_string(),
        schema_version: schema.to_string(),
        supported_algorithms: algorithms.iter().map(|value| value.to_string()).collect(),
        max_latency_ms: 1_000,
        min_quality_score_bits: quality.to_bits(),
    }
}

#[test]
fn registry_accepts_multi_vertical_profiles() {
    let mut registry = MetricProfileRegistry::new();
    registry
        .register_profile(profile(
            "industrial-v1",
            "industrial_iot",
            "1.0.0",
            &["viterbi-basic-bsc", "ldpc-minsum-basic"],
            0.7,
        ))
        .expect("register industrial");
    registry
        .register_profile(profile("satellite-v1", "space_satellite", "1.1.0", &["ldpc-minsum-basic", "turbo-basic"], 0.75))
        .expect("register satellite");

    let profiles = registry.list_profiles();
    assert_eq!(profiles.len(), 2);
}

#[test]
fn compatibility_requires_same_major_and_algorithm_overlap() {
    let a = profile("a", "industrial", "1.0.0", &["ldpc-minsum-basic"], 0.7);
    let b = profile("b", "space", "1.2.0", &["ldpc-minsum-basic"], 0.7);
    let c = profile("c", "space", "2.0.0", &["ldpc-minsum-basic"], 0.7);
    let d = profile("d", "audio", "1.0.0", &["turbo-basic"], 0.7);

    assert!(are_profiles_compatible(&a, &b));
    assert!(!are_profiles_compatible(&a, &c));
    assert!(!are_profiles_compatible(&a, &d));
}

#[test]
fn duplicate_profile_is_rejected() {
    let mut registry = MetricProfileRegistry::new();
    let p = profile("industrial-v1", "industrial", "1.0.0", &["viterbi-basic-bsc"], 0.7);
    registry.register_profile(p.clone()).expect("first insert ok");
    let err = registry.register_profile(p).expect_err("duplicate should fail");
    assert_eq!(err, RegistryError::DuplicateProfile);
}

#[test]
fn invalid_profiles_are_rejected() {
    let mut registry = MetricProfileRegistry::default();
    assert_eq!(
        registry.register_profile(profile("p", "v", "1.0", &[], 0.5)),
        Err(RegistryError::InvalidProfile)
    );
    assert_eq!(
        registry.register_profile(profile("p", "v", "1.0", &["a"], 1.5)),
        Err(RegistryError::InvalidProfile)
    );
    assert_eq!(
        registry.register_profile(profile("p", "", "1.0", &["a"], 0.5)),
        Err(RegistryError::InvalidProfile)
    );
    assert!(registry.get_profile("p").is_err());
    registry.register_profile(profile("p", "v", "1.0", &["a"], 1.0)).expect("ok");
    assert_eq!(registry.get_profile("p").map(|x| x.vertical.clone()), Ok("v".to_string()));
    assert_eq!(registry.get_profile("q").map(|x| x.vertical.clone()), Err(RegistryError::ProfileNotFound));
}

#[test]
fn profiles_are_listed_by_id_and_pairs_found_once() {
    let mut registry = MetricProfileRegistry::new();
    registry.register_profile(profile("c", "v", "1.4", &["x"], 0.5)).expect("c");
    registry.register_profile(profile("a", "v", "1.0", &["x", "y"], 0.5)).expect("a");
    registry.register_profile(profile("b", "v", "2.0", &["x"], 0.5)).expect("b");
    let ids: Vec<String> = registry.list_profiles().iter().map(|p| p.profile_id.clone()).collect();
    assert_eq!(ids, vec!["a".to_string(), "b".to_string(), "c".to_string()]);
    assert_eq!(registry.compatible_profile_pairs(), vec![("a".to_string(), "c".to_string())]);
}

#[test]
fn major_version_is_the_text_before_the_first_dot() {
    assert!(same_major_version("1.0.0", "1.9"));
    assert!(same_major_version("10", "10.2"));
    assert!(!same_major_version("1.0", "10.0"));
    assert!(!same_major_version(".1", ".2"));
    assert!(!same_major_version("", ""));
}

#[test]
fn compatibility_is_symmetric() {
    let a = profile("a", "v", "3.1", &["p", "q"], 0.5);
    let b = profile("b", "v", "3.7", &["q"], 0.5);
    assert_eq!(are_profiles_compatible(&a, &b), are_profiles_compatible(&b, &a));
}
