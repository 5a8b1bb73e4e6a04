//! Tests of the configuration resolver: fragment merging, validation,
//! and the per-role-group configuration transform.

use hello_operator::controller::transform_role_group_config;
use hello_operator::crd::{
    validate_fragment, ClusterOperation, CommonConfiguration, CurrentlySupportedListenerClasses,
    Error, GenericRoleConfig, HelloCluster, HelloClusterConfig, HelloClusterSpec, HelloConfig,
    HelloConfigFragment, HelloRole, ObjectMetadata, PdbConfig, ProductImage, Role, RoleGroup,
};

fn empty_fragment() -> HelloConfigFragment {
    HelloConfigFragment {
        cpu_min: None,
        cpu_max: None,
        memory_limit: None,
        storage_capacity: None,
        storage_class: None,
        logging: None,
        affinity: None,
        graceful_shutdown_timeout_secs: None,
    }
}

fn config_cluster(role_fragment: HelloConfigFragment, group_fragment: HelloConfigFragment) -> HelloCluster {
    let mut role_config = CommonConfiguration::empty();
    role_config.config = role_fragment;
    let mut group_config = CommonConfiguration::empty();
    group_config.config = group_fragment;
    HelloCluster {
        metadata: ObjectMetadata {
            name: Some("demo".to_string()),
            namespace: Some("ns".to_string()),
        },
        spec: HelloClusterSpec {
            cluster_config: HelloClusterConfig {
                vector_aggregator_config_map_name: None,
                listener_class: CurrentlySupportedListenerClasses::ClusterInternal,
            },
            cluster_operation: ClusterOperation {
                reconciliation_paused: false,
                stopped: false,
            },
            image: ProductImage {
                product_version: "0.1.0".to_string(),
                custom: None,
            },
            servers: Some(Role {
                config: role_config,
                role_config: GenericRoleConfig {
                    pod_disruption_budget: PdbConfig {
                        enabled: false,
                        max_unavailable: None,
                    },
                },
                role_groups: vec![(
                    "default".to_string(),
                    RoleGroup {
                        config: group_config,
                        replicas: Some(1),
                    },
                )],
            }),
            recipient: "World".to_string(),
            color: "blue".to_string(),
        },
        status: None,
    }
}

fn resolve(role_fragment: HelloConfigFragment, group_fragment: HelloConfigFragment) -> HelloConfig {
    let hello = config_cluster(role_fragment, group_fragment);
    let rg = hello.server_rolegroup_ref("default");
    hello
        .merged_config(&HelloRole::Server, &rg)
        .expect("resolution failed")
}

#[test]
fn merge_precedence_group_wins_over_role_over_default() {
    // The role sets the cpu bounds, the group overrides only the upper
    // one; everything else falls back to the built-in defaults.
    let mut role_fragment = empty_fragment();
    role_fragment.cpu_min = Some("200m".to_string());
    role_fragment.cpu_max = Some("800m".to_string());
    let mut group_fragment = empty_fragment();
    group_fragment.cpu_max = Some("1600m".to_string());

    let config = resolve(role_fragment, group_fragment);
    assert_eq!(config.cpu_min, "200m"); // role fills the default's gap
    assert_eq!(config.cpu_max, "1600m"); // group always wins when present
    assert_eq!(config.memory_limit, "256Mi"); // built-in default
    assert_eq!(config.storage_capacity, "256Mi"); // built-in default
    assert_eq!(config.graceful_shutdown_timeout_secs, 120);
}

#[test]
fn merge_never_discards_a_higher_precedence_value() {
    let mut mine = empty_fragment();
    mine.memory_limit = Some("1Gi".to_string());
    let mut other = empty_fragment();
    other.memory_limit = Some("64Mi".to_string());
    other.storage_class = Some("fast".to_string());
    mine.merge(&other);
    assert_eq!(mine.memory_limit, Some("1Gi".to_string()));
    assert_eq!(mine.storage_class, Some("fast".to_string()));
}

#[test]
fn validation_names_the_first_missing_field() {
    let err = validate_fragment(empty_fragment(), "default").unwrap_err();
    assert_eq!(
        err,
        Error::FragmentValidationFailure {
            field: "resources.cpu.min".to_string(),
            role_group: "default".to_string(),
        }
    );

    let mut with_cpu_min = empty_fragment();
    with_cpu_min.cpu_min = Some("100m".to_string());
    let err = validate_fragment(with_cpu_min, "big").unwrap_err();
    assert_eq!(
        err,
        Error::FragmentValidationFailure {
            field: "resources.cpu.max".to_string(),
            role_group: "big".to_string(),
        }
    );
}

#[test]
fn setting_a_field_at_any_level_prevents_its_validation_error() {
    // The built-in defaults set every mandatory field, so resolution
    // through the full chain always validates.
    let config = resolve(empty_fragment(), empty_fragment());
    assert_eq!(config.cpu_min, "100m");
    assert_eq!(config.cpu_max, "400m");
    assert!(!config.logging.enable_vector_agent);
    assert_eq!(config.affinity.pod_anti_affinity_preferred.len(), 1);
}

#[test]
fn default_affinity_is_role_scoped_anti_affinity() {
    let config = resolve(empty_fragment(), empty_fragment());
    let term = &config.affinity.pod_anti_affinity_preferred[0];
    assert_eq!(term.weight, 70);
    assert_eq!(term.topology_key, "kubernetes.io/hostname");
    assert_eq!(
        term.match_labels,
        vec![
            ("app.kubernetes.io/name".to_string(), "hello-world".to_string()),
            ("app.kubernetes.io/instance".to_string(), "demo".to_string()),
            ("app.kubernetes.io/component".to_string(), "server".to_string()),
        ]
    );
}

#[test]
fn missing_role_and_role_group_are_distinct_errors() {
    let mut hello = config_cluster(empty_fragment(), empty_fragment());
    let rg = hello.server_rolegroup_ref("absent");
    assert_eq!(
        hello.merged_config(&HelloRole::Server, &rg).unwrap_err(),
        Error::CannotRetrieveHelloRoleGroup {
            role_group: "absent".to_string()
        }
    );

    let mut bad_ref = hello.server_rolegroup_ref("default");
    bad_ref.role = "worker".to_string();
    match hello.merged_config(&HelloRole::Server, &bad_ref).unwrap_err() {
        Error::UnknownHelloRole { role, roles } => {
            assert_eq!(role, "worker");
            assert_eq!(roles, vec!["server".to_string()]);
        }
        other => panic!("expected an unknown-role error, got {:?}", other),
    }

    hello.spec.servers = None;
    let rg = hello.server_rolegroup_ref("default");
    assert_eq!(
        hello.merged_config(&HelloRole::Server, &rg).unwrap_err(),
        Error::CannotRetrieveHelloRole {
            role: "server".to_string()
        }
    );
}

#[test]
fn computed_application_properties() {
    let hello = config_cluster(empty_fragment(), empty_fragment());
    let fragment = empty_fragment();
    let computed = fragment.compute_files(&hello, "server", "application.properties");
    assert_eq!(
        computed,
        vec![
            ("greeting.recipient".to_string(), "World".to_string()),
            ("greeting.color".to_string(), "blue".to_string()),
            ("server.port".to_string(), "8080".to_string()),
            ("logging.config".to_string(), "/stackable/config/logback.xml".to_string()),
        ]
    );
    assert!(fragment.compute_files(&hello, "server", "other.conf").is_empty());
    assert!(fragment.compute_env(&hello, "server").is_empty());
    assert!(fragment.compute_cli(&hello, "server").is_empty());
}

#[test]
fn explicit_overrides_take_priority_over_computed_defaults() {
    let mut hello = config_cluster(empty_fragment(), empty_fragment());
    if let Some(role) = hello.spec.servers.as_mut() {
        // The role overrides the computed port; the group overrides the
        // role's recipient override and adds a new key.
        role.config.config_overrides = vec![(
            "application.properties".to_string(),
            vec![
                ("server.port".to_string(), "9090".to_string()),
                ("greeting.recipient".to_string(), "Role".to_string()),
            ],
        )];
        role.config.env_overrides = vec![("LOG_LEVEL".to_string(), "info".to_string())];
        role.role_groups[0].1.config.config_overrides = vec![(
            "application.properties".to_string(),
            vec![
                ("greeting.recipient".to_string(), "Group".to_string()),
                ("extra.key".to_string(), "extra".to_string()),
            ],
        )];
        role.role_groups[0].1.config.env_overrides =
            vec![("LOG_LEVEL".to_string(), "debug".to_string())];
    }
    let role = hello.spec.servers.as_ref().unwrap();
    let group = &role.role_groups[0].1;
    let cfg = transform_role_group_config(&hello, role, group);

    assert_eq!(cfg.env, vec![("LOG_LEVEL".to_string(), "debug".to_string())]);
    assert!(cfg.cli.is_empty());
    assert_eq!(cfg.files.len(), 2);
    assert_eq!(cfg.files[0].0, "application.properties");
    assert_eq!(
        cfg.files[0].1,
        vec![
            ("greeting.recipient".to_string(), "Group".to_string()),
            ("greeting.color".to_string(), "blue".to_string()),
            ("server.port".to_string(), "9090".to_string()),
            ("logging.config".to_string(), "/stackable/config/logback.xml".to_string()),
            ("extra.key".to_string(), "extra".to_string()),
        ]
    );
    assert_eq!(cfg.files[1].0, "security.properties");
    assert!(cfg.files[1].1.is_empty());
}
