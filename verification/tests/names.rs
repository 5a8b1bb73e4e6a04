//! Tests of naming, discovery and the small value types.

use hello_operator::crd::{
    ClusterOperation, CommonConfiguration, CurrentlySupportedListenerClasses, GenericRoleConfig,
    HelloCluster, HelloClusterConfig, HelloClusterSpec, HelloRole, ObjectMetadata, PdbConfig,
    PodRef, ProductImage, Role, RoleGroup, ServiceType,
};
use hello_operator::pdb::max_unavailable_servers;
use hello_operator::strings::u64_to_dec_string;

fn named_cluster(name: Option<&str>, namespace: Option<&str>) -> HelloCluster {
    HelloCluster {
        metadata: ObjectMetadata {
            name: name.map(|n| n.to_string()),
            namespace: namespace.map(|n| n.to_string()),
        },
        spec: HelloClusterSpec {
            cluster_config: HelloClusterConfig {
                vector_aggregator_config_map_name: None,
                listener_class: CurrentlySupportedListenerClasses::ExternalStable,
            },
            cluster_operation: ClusterOperation {
                reconciliation_paused: false,
                stopped: false,
            },
            image: ProductImage {
                product_version: "0.1.0".to_string(),
                custom: None,
            },
            servers: Some(Role {
                config: CommonConfiguration::empty(),
                role_config: GenericRoleConfig {
                    pod_disruption_budget: PdbConfig {
                        enabled: false,
                        max_unavailable: None,
                    },
                },
                role_groups: vec![
                    (
                        "default".to_string(),
                        RoleGroup {
                            config: CommonConfiguration::empty(),
                            replicas: Some(2),
                        },
                    ),
                    (
                        "extra".to_string(),
                        RoleGroup {
                            config: CommonConfiguration::empty(),
                            replicas: None,
                        },
                    ),
                ],
            }),
            recipient: "World".to_string(),
            color: "blue".to_string(),
        },
        status: None,
    }
}

#[test]
fn listener_classes_map_to_service_types() {
    assert_eq!(
        CurrentlySupportedListenerClasses::ClusterInternal.k8s_service_type(),
        "ClusterIP"
    );
    assert_eq!(
        CurrentlySupportedListenerClasses::ExternalUnstable.k8s_service_type(),
        "NodePort"
    );
    assert_eq!(
        CurrentlySupportedListenerClasses::ExternalStable.k8s_service_type(),
        "LoadBalancer"
    );
}

#[test]
fn roles_lists_the_single_server_role() {
    assert_eq!(HelloRole::roles(), vec!["server".to_string()]);
    assert_eq!(HelloRole::Server.as_str(), "server");
    assert_eq!(HelloRole::from_name("server"), Some(HelloRole::Server));
    assert_eq!(HelloRole::from_name("worker"), None);
}

#[test]
fn rolegroup_ref_object_name() {
    let hello = named_cluster(Some("demo"), Some("ns"));
    let rg = HelloRole::Server.rolegroup_ref(&hello, "big");
    assert_eq!(rg.cluster_name, "demo");
    assert_eq!(rg.role, "server");
    assert_eq!(rg.role_group, "big");
    assert_eq!(rg.object_name(), "demo-server-big");
}

#[test]
fn server_role_service_name_is_the_cluster_name() {
    let hello = named_cluster(Some("demo"), Some("ns"));
    assert_eq!(hello.server_role_service_name(), Some("demo"));
    let unnamed = named_cluster(None, Some("ns"));
    assert_eq!(unnamed.server_role_service_name(), None);
}

#[test]
fn pods_enumerates_every_replica_of_every_group() {
    let hello = named_cluster(Some("demo"), Some("ns"));
    let pods = hello.pods().expect("namespace is set");
    // Group "default" has two replicas, group "extra" declares none.
    assert_eq!(pods.len(), 2);
    assert_eq!(pods[0].pod_name, "demo-server-default-0");
    assert_eq!(pods[0].role_group_service_name, "demo-server-default");
    assert_eq!(pods[0].namespace, "ns");
    assert_eq!(pods[1].pod_name, "demo-server-default-1");
}

#[test]
fn pods_enumerates_role_groups_in_name_order() {
    let mut hello = named_cluster(Some("demo"), Some("ns"));
    if let Some(role) = hello.spec.servers.as_mut() {
        // Declared out of name order: "zeta" first, then "alpha".
        role.role_groups = vec![
            (
                "zeta".to_string(),
                RoleGroup {
                    config: CommonConfiguration::empty(),
                    replicas: Some(1),
                },
            ),
            (
                "alpha".to_string(),
                RoleGroup {
                    config: CommonConfiguration::empty(),
                    replicas: Some(1),
                },
            ),
        ];
    }
    let pods = hello.pods().expect("namespace is set");
    assert_eq!(pods[0].pod_name, "demo-server-alpha-0");
    assert_eq!(pods[1].pod_name, "demo-server-zeta-0");
}

#[test]
fn pods_requires_a_namespace() {
    let hello = named_cluster(Some("demo"), None);
    assert!(hello.pods().is_err());
}

#[test]
fn fqdn_of_a_pod() {
    let pod = PodRef {
        namespace: "ns".to_string(),
        role_group_service_name: "demo-server-default".to_string(),
        pod_name: "demo-server-default-0".to_string(),
    };
    assert_eq!(
        pod.fqdn(),
        "demo-server-default-0.demo-server-default.ns.svc.cluster.local"
    );
}

#[test]
fn decimal_rendering() {
    assert_eq!(u64_to_dec_string(0), "0");
    assert_eq!(u64_to_dec_string(7), "7");
    assert_eq!(u64_to_dec_string(10), "10");
    assert_eq!(u64_to_dec_string(8080), "8080");
    assert_eq!(u64_to_dec_string(65535), "65535");
}

#[test]
fn service_type_defaults_to_node_port() {
    assert_eq!(ServiceType::default(), ServiceType::NodePort);
}

#[test]
fn one_server_may_be_unavailable_by_default() {
    assert_eq!(max_unavailable_servers(), 1);
}

#[test]
fn custom_image_reference_wins() {
    let image = ProductImage {
        product_version: "0.1.0".to_string(),
        custom: Some("registry.example.com/hello:latest".to_string()),
    };
    let resolved = image.resolve("hello");
    assert_eq!(resolved.image, "registry.example.com/hello:latest");
    assert_eq!(resolved.product_version, "0.1.0");

    let stock = ProductImage {
        product_version: "0.1.0".to_string(),
        custom: None,
    };
    let resolved = stock.resolve("hello");
    assert_eq!(resolved.image, "oci.stackable.tech/sdp/hello:0.1.0");
    assert_eq!(resolved.app_version_label, "0.1.0");
}
