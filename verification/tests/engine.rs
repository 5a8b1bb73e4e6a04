//! End-to-end tests of the reconciliation engine against an in-memory
//! resource store.

use hello_operator::controller::{error_policy, reconcile_hello, Action, Error};
use hello_operator::crd::{
    ClusterConditionType, ClusterOperation, CommonConfiguration, ConditionStatus,
    CurrentlySupportedListenerClasses, GenericRoleConfig, HelloCluster, HelloClusterConfig,
    HelloClusterSpec, HelloRole, ObjectMetadata, PdbConfig, ProductImage, Role, RoleGroup,
};
use hello_operator::crd::Logging;
use hello_operator::pdb::add_pdbs;
use hello_operator::resources::VolumeSource;
use hello_operator::resources::{ResourceIdentity, ResourceKind, ResourcePayload};
use hello_operator::tracker::{OwnershipMarker, ResourceTracker, Store};

fn group(replicas: u16) -> RoleGroup {
    RoleGroup {
        config: CommonConfiguration::empty(),
        replicas: Some(replicas),
    }
}

fn cluster(name: &str, groups: Vec<(String, RoleGroup)>) -> HelloCluster {
    HelloCluster {
        metadata: ObjectMetadata {
            name: Some(name.to_string()),
            namespace: Some("ns".to_string()),
        },
        spec: HelloClusterSpec {
            cluster_config: HelloClusterConfig {
                vector_aggregator_config_map_name: None,
                listener_class: CurrentlySupportedListenerClasses::ClusterInternal,
            },
            cluster_operation: ClusterOperation {
                reconciliation_paused: false,
                stopped: false,
            },
            image: ProductImage {
                product_version: "0.1.0".to_string(),
                custom: None,
            },
            servers: Some(Role {
                config: CommonConfiguration::empty(),
                role_config: GenericRoleConfig {
                    pod_disruption_budget: PdbConfig {
                        enabled: false,
                        max_unavailable: None,
                    },
                },
                role_groups: groups,
            }),
            recipient: "World".to_string(),
            color: "blue".to_string(),
        },
        status: None,
    }
}

fn id(kind: ResourceKind, name: &str) -> ResourceIdentity {
    ResourceIdentity {
        kind,
        namespace: "ns".to_string(),
        name: name.to_string(),
    }
}

fn demo() -> HelloCluster {
    cluster(
        "demo",
        vec![
            ("default".to_string(), group(1)),
            ("big".to_string(), group(3)),
        ],
    )
}

#[test]
fn scenario_demo_cluster() {
    let hello = demo();
    let mut store = Store::new();
    let (_status, action) = reconcile_hello(&hello, &mut store).expect("reconcile failed");
    assert_eq!(action, Action::AwaitChange);

    // One cluster-level endpoint, two role-group endpoints, two
    // configuration bundles, two workloads.
    assert_eq!(store.len(), 7);
    assert!(store.get(&id(ResourceKind::Service, "demo")).is_some());
    assert!(store.get(&id(ResourceKind::Service, "demo-server-default")).is_some());
    assert!(store.get(&id(ResourceKind::Service, "demo-server-big")).is_some());
    assert!(store.get(&id(ResourceKind::ConfigMap, "demo-server-default")).is_some());
    assert!(store.get(&id(ResourceKind::ConfigMap, "demo-server-big")).is_some());

    let sts_default = store
        .get(&id(ResourceKind::StatefulSet, "demo-server-default"))
        .expect("workload for group default missing");
    match &sts_default.payload {
        ResourcePayload::StatefulSet(s) => {
            assert_eq!(s.replicas, Some(1));
            assert_eq!(s.service_name, "demo-server-default");
            // One shell invocation whose single argument is the whole
            // startup script, preamble included.
            let hello_container = &s.template.containers[0];
            assert_eq!(hello_container.command.len(), 5);
            assert_eq!(hello_container.args.len(), 1);
            let script = &hello_container.args[0];
            assert!(script.starts_with("prepare_signal_handlers()"));
            assert!(script.contains("wait_for_termination()"));
            assert!(script.contains(
                "java -Djava.security.properties=/stackable/config/security.properties -jar hello-world.jar &"
            ));
            assert!(script.ends_with("touch /stackable/log/_vector/shutdown"));
        }
        other => panic!("wrong payload kind: {:?}", other),
    }
    let sts_big = store
        .get(&id(ResourceKind::StatefulSet, "demo-server-big"))
        .expect("workload for group big missing");
    match &sts_big.payload {
        ResourcePayload::StatefulSet(s) => assert_eq!(s.replicas, Some(3)),
        other => panic!("wrong payload kind: {:?}", other),
    }

    // The ordinal pod identities the workloads will create, role-groups
    // enumerated in lexicographic name order although "default" was
    // declared first.
    let pods = hello.pods().expect("namespace is set");
    let names: Vec<String> = pods.iter().map(|p| p.pod_name.clone()).collect();
    assert_eq!(
        names,
        vec![
            "demo-server-big-0".to_string(),
            "demo-server-big-1".to_string(),
            "demo-server-big-2".to_string(),
            "demo-server-default-0".to_string(),
        ]
    );
}

#[test]
fn scenario_removing_a_role_group_prunes_its_resources() {
    let hello = demo();
    let mut store = Store::new();
    reconcile_hello(&hello, &mut store).expect("first reconcile failed");
    assert_eq!(store.len(), 7);

    // Remove role-group "big" and reconcile again: its endpoint, bundle
    // and workload must be deleted, "default" left untouched.
    let shrunk = cluster("demo", vec![("default".to_string(), group(1))]);
    reconcile_hello(&shrunk, &mut store).expect("second reconcile failed");
    assert_eq!(store.len(), 4);
    assert!(store.get(&id(ResourceKind::Service, "demo-server-big")).is_none());
    assert!(store.get(&id(ResourceKind::ConfigMap, "demo-server-big")).is_none());
    assert!(store.get(&id(ResourceKind::StatefulSet, "demo-server-big")).is_none());
    assert!(store.get(&id(ResourceKind::Service, "demo")).is_some());
    assert!(store.get(&id(ResourceKind::Service, "demo-server-default")).is_some());
    assert!(store.get(&id(ResourceKind::ConfigMap, "demo-server-default")).is_some());
    assert!(store.get(&id(ResourceKind::StatefulSet, "demo-server-default")).is_some());
}

#[test]
fn idempotent_apply_leaves_store_unchanged() {
    let hello = demo();
    let mut store = Store::new();
    reconcile_hello(&hello, &mut store).expect("first reconcile failed");
    let len_once = store.len();
    let default_once = store
        .get(&id(ResourceKind::StatefulSet, "demo-server-default"))
        .expect("missing")
        .clone();

    reconcile_hello(&hello, &mut store).expect("second reconcile failed");
    assert_eq!(store.len(), len_once);
    let default_twice = store
        .get(&id(ResourceKind::StatefulSet, "demo-server-default"))
        .expect("missing")
        .clone();
    assert_eq!(default_once, default_twice);
}

#[test]
fn readiness_survives_a_second_apply() {
    let hello = demo();
    let mut store = Store::new();
    reconcile_hello(&hello, &mut store).expect("first reconcile failed");

    // The store's side reports the workload ready; a repeated apply must
    // not reset that.
    assert!(store.set_ready(&id(ResourceKind::StatefulSet, "demo-server-default"), true));
    reconcile_hello(&hello, &mut store).expect("second reconcile failed");
    let sts = store
        .get(&id(ResourceKind::StatefulSet, "demo-server-default"))
        .expect("missing");
    assert!(sts.ready);
}

#[test]
fn orphan_isolation_between_two_clusters() {
    let a = cluster("alpha", vec![("default".to_string(), group(1))]);
    let b = cluster("beta", vec![("default".to_string(), group(2))]);
    let mut store = Store::new();
    reconcile_hello(&a, &mut store).expect("reconcile of alpha failed");
    reconcile_hello(&b, &mut store).expect("reconcile of beta failed");
    assert_eq!(store.len(), 8);

    // Shrink alpha to nothing but its role service and prune: beta's
    // resources must survive untouched.
    let a_shrunk = cluster("alpha", Vec::new());
    reconcile_hello(&a_shrunk, &mut store).expect("reconcile of shrunk alpha failed");
    assert!(store.get(&id(ResourceKind::Service, "alpha-server-default")).is_none());
    assert!(store.get(&id(ResourceKind::Service, "beta")).is_some());
    assert!(store.get(&id(ResourceKind::Service, "beta-server-default")).is_some());
    assert!(store.get(&id(ResourceKind::ConfigMap, "beta-server-default")).is_some());
    assert!(store.get(&id(ResourceKind::StatefulSet, "beta-server-default")).is_some());
}

#[test]
fn convergence_after_partial_failure() {
    // Simulate a reconcile that was abandoned after applying only the
    // first role-group's resources: no status update, no pruning.
    let hello = cluster(
        "demo",
        vec![
            ("one".to_string(), group(1)),
            ("two".to_string(), group(1)),
            ("three".to_string(), group(1)),
        ],
    );
    let mut store = Store::new();
    let marker = OwnershipMarker {
        app_name: "hello-world".to_string(),
        cluster_name: "demo".to_string(),
        operator_name: "hello.stackable.tech".to_string(),
        controller_name: "hellocluster".to_string(),
    };
    let image = hello.spec.image.resolve("hello");
    let mut tracker = ResourceTracker::new(marker);
    let rg = hello.server_rolegroup_ref("one");
    let svc = hello_operator::controller::build_rolegroup_service(&hello, &image, &rg)
        .expect("service build failed");
    tracker.add(&mut store, svc);
    assert_eq!(store.len(), 1);

    // A later, complete reconcile converges: groups one, two and three
    // all reach the desired state, group one updated in place.
    reconcile_hello(&hello, &mut store).expect("full reconcile failed");
    assert_eq!(store.len(), 10);
    assert!(store.get(&id(ResourceKind::Service, "demo-server-one")).is_some());
    assert!(store.get(&id(ResourceKind::StatefulSet, "demo-server-two")).is_some());
    assert!(store.get(&id(ResourceKind::StatefulSet, "demo-server-three")).is_some());
}

#[test]
fn status_reports_availability() {
    let hello = cluster("demo", vec![("default".to_string(), group(1))]);
    let mut store = Store::new();
    let (status, _) = reconcile_hello(&hello, &mut store).expect("reconcile failed");
    let available = &status.conditions[0];
    assert_eq!(available.type_, ClusterConditionType::Available);
    assert_eq!(available.status, ConditionStatus::False);

    store.set_ready(&id(ResourceKind::StatefulSet, "demo-server-default"), true);
    let (status, _) = reconcile_hello(&hello, &mut store).expect("reconcile failed");
    assert_eq!(status.conditions[0].status, ConditionStatus::True);
    assert_eq!(status.conditions[0].message, "every workload is ready");
    assert_eq!(status.conditions[1].type_, ClusterConditionType::ReconciliationPaused);
    assert_eq!(status.conditions[1].status, ConditionStatus::False);
    assert_eq!(status.conditions[2].type_, ClusterConditionType::Stopped);
    assert_eq!(status.conditions[2].status, ConditionStatus::False);
}

#[test]
fn paused_cluster_only_refreshes_status() {
    let hello = demo();
    let mut store = Store::new();
    reconcile_hello(&hello, &mut store).expect("reconcile failed");
    let len_before = store.len();

    let mut paused = cluster("demo", vec![("default".to_string(), group(1))]);
    paused.spec.cluster_operation.reconciliation_paused = true;
    let (status, action) = reconcile_hello(&paused, &mut store).expect("paused reconcile failed");
    assert_eq!(action, Action::AwaitChange);
    // Nothing was applied or pruned, "big" survives although the paused
    // spec no longer declares it.
    assert_eq!(store.len(), len_before);
    assert!(store.get(&id(ResourceKind::Service, "demo-server-big")).is_some());
    assert_eq!(status.conditions[1].status, ConditionStatus::True);
    assert_eq!(status.conditions[1].message, "reconciliation is paused");
}

#[test]
fn stopped_cluster_scales_workloads_to_zero() {
    let mut hello = demo();
    hello.spec.cluster_operation.stopped = true;
    let mut store = Store::new();
    let (status, _) = reconcile_hello(&hello, &mut store).expect("reconcile failed");
    let sts = store
        .get(&id(ResourceKind::StatefulSet, "demo-server-big"))
        .expect("missing");
    match &sts.payload {
        ResourcePayload::StatefulSet(s) => assert_eq!(s.replicas, Some(0)),
        other => panic!("wrong payload kind: {:?}", other),
    }
    assert_eq!(status.conditions[2].status, ConditionStatus::True);
}

#[test]
fn missing_role_name_and_namespace_are_reported() {
    let mut store = Store::new();

    let mut no_role = demo();
    no_role.spec.servers = None;
    assert_eq!(
        reconcile_hello(&no_role, &mut store).unwrap_err(),
        Error::NoServerRole
    );

    let mut no_name = demo();
    no_name.metadata.name = None;
    assert_eq!(
        reconcile_hello(&no_name, &mut store).unwrap_err(),
        Error::GlobalServiceNameNotFound
    );

    let mut no_ns = demo();
    no_ns.metadata.namespace = None;
    assert_eq!(
        reconcile_hello(&no_ns, &mut store).unwrap_err(),
        Error::ObjectHasNoNamespace
    );
    assert_eq!(store.len(), 0);
}

#[test]
fn duplicate_role_group_names_are_an_internal_invariant_error() {
    let hello = cluster(
        "demo",
        vec![
            ("default".to_string(), group(1)),
            ("default".to_string(), group(2)),
        ],
    );
    let mut store = Store::new();
    match reconcile_hello(&hello, &mut store) {
        Err(Error::InternalInvariantError { name }) => {
            assert_eq!(name, "demo-server-default");
        }
        other => panic!("expected an internal invariant error, got {:?}", other),
    }
}

#[test]
fn custom_log_configuration_is_mounted_and_enables_the_sidecar() {
    let mut hello = cluster("demo", vec![("default".to_string(), group(1))]);
    if let Some(role) = hello.spec.servers.as_mut() {
        role.role_groups[0].1.config.config.logging = Some(Logging {
            enable_vector_agent: true,
            hello_custom_log_config: Some("my-log-config".to_string()),
            vector_custom_log_config: None,
        });
    }
    let mut store = Store::new();
    reconcile_hello(&hello, &mut store).expect("reconcile failed");
    let sts = store
        .get(&id(ResourceKind::StatefulSet, "demo-server-default"))
        .expect("workload missing");
    match &sts.payload {
        ResourcePayload::StatefulSet(s) => {
            // The sidecar joins the primary container.
            assert_eq!(s.template.containers.len(), 2);
            assert_eq!(s.template.containers[1].name, "vector");
            // The log-config volume mounts the administrator's ConfigMap
            // instead of the role-group's own bundle.
            let log_volume = s
                .template
                .volumes
                .iter()
                .find(|v| v.name == "log-config-mount")
                .expect("log-config volume missing");
            assert_eq!(
                log_volume.source,
                VolumeSource::ConfigMap {
                    config_map_name: "my-log-config".to_string()
                }
            );
        }
        other => panic!("wrong payload kind: {:?}", other),
    }
}

#[test]
fn workload_builder_reports_bad_references() {
    let hello = demo();
    let image = hello.spec.image.resolve("hello");
    let cfg = {
        let role = hello.spec.servers.as_ref().unwrap();
        hello_operator::controller::transform_role_group_config(
            &hello,
            role,
            &role.role_groups[0].1,
        )
    };
    let merged = hello
        .merged_config(&HelloRole::Server, &hello.server_rolegroup_ref("default"))
        .expect("resolution failed");

    let mut bad_ref = hello.server_rolegroup_ref("default");
    bad_ref.role = "worker".to_string();
    let err = hello_operator::controller::build_server_rolegroup_statefulset(
        &hello,
        &image,
        &HelloRole::Server,
        &bad_ref,
        &cfg,
        &merged,
        "sa",
    )
    .unwrap_err();
    match err {
        Error::InternalOperatorFailure { source } => {
            assert!(matches!(
                source,
                hello_operator::crd::Error::UnknownHelloRole { .. }
            ));
        }
        other => panic!("expected an internal operator failure, got {:?}", other),
    }
    assert_eq!(err_category_of_no_server_role(), "NoServerRole");
}

fn err_category_of_no_server_role() -> &'static str {
    Error::NoServerRole.category()
}

#[test]
fn pdb_creation_needs_a_named_cluster() {
    let mut unnamed = demo();
    unnamed.metadata.name = None;
    let mut store = Store::new();
    let marker = OwnershipMarker {
        app_name: "hello-world".to_string(),
        cluster_name: "".to_string(),
        operator_name: "hello.stackable.tech".to_string(),
        controller_name: "hellocluster".to_string(),
    };
    let mut tracker = ResourceTracker::new(marker);
    let pdb_config = PdbConfig {
        enabled: true,
        max_unavailable: None,
    };
    let err = add_pdbs(
        &pdb_config,
        &unnamed,
        &HelloRole::Server,
        &mut tracker,
        &mut store,
    )
    .unwrap_err();
    assert_eq!(
        err,
        hello_operator::pdb::Error::CreatePdb {
            role: "server".to_string()
        }
    );
    assert!(err.message().contains("server"));
}

#[test]
fn error_policy_requeues_after_fixed_backoff() {
    assert_eq!(
        error_policy(&Error::ObjectHasNoNamespace),
        Action::RequeueAfterSecs(5)
    );
}

#[test]
fn disruption_budget_is_applied_when_enabled() {
    let mut hello = cluster("demo", vec![("default".to_string(), group(3))]);
    if let Some(role) = hello.spec.servers.as_mut() {
        role.role_config.pod_disruption_budget = PdbConfig {
            enabled: true,
            max_unavailable: None,
        };
    }
    let mut store = Store::new();
    reconcile_hello(&hello, &mut store).expect("reconcile failed");
    let pdb = store
        .get(&id(ResourceKind::PodDisruptionBudget, "demo-server"))
        .expect("disruption budget missing");
    match &pdb.payload {
        ResourcePayload::PodDisruptionBudget(p) => assert_eq!(p.max_unavailable, 1),
        other => panic!("wrong payload kind: {:?}", other),
    }

    // A second reconcile with the budget disabled prunes it as an orphan.
    if let Some(role) = hello.spec.servers.as_mut() {
        role.role_config.pod_disruption_budget = PdbConfig {
            enabled: false,
            max_unavailable: None,
        };
    }
    reconcile_hello(&hello, &mut store).expect("reconcile failed");
    assert!(store.get(&id(ResourceKind::PodDisruptionBudget, "demo-server")).is_none());
}

#[test]
fn add_pdbs_respects_declared_maximum() {
    let mut hello = cluster("demo", vec![("default".to_string(), group(3))]);
    if let Some(role) = hello.spec.servers.as_mut() {
        role.role_config.pod_disruption_budget = PdbConfig {
            enabled: true,
            max_unavailable: Some(2),
        };
    }
    let mut store = Store::new();
    let marker = OwnershipMarker {
        app_name: "hello-world".to_string(),
        cluster_name: "demo".to_string(),
        operator_name: "hello.stackable.tech".to_string(),
        controller_name: "hellocluster".to_string(),
    };
    let mut tracker = ResourceTracker::new(marker);
    let pdb_config = PdbConfig {
        enabled: true,
        max_unavailable: Some(2),
    };
    add_pdbs(
        &pdb_config,
        &hello,
        &HelloRole::Server,
        &mut tracker,
        &mut store,
    )
    .expect("add_pdbs failed");
    let pdb = store
        .get(&id(ResourceKind::PodDisruptionBudget, "demo-server"))
        .expect("disruption budget missing");
    match &pdb.payload {
        ResourcePayload::PodDisruptionBudget(p) => assert_eq!(p.max_unavailable, 2),
        other => panic!("wrong payload kind: {:?}", other),
    }
}
