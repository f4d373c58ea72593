use mayastor::components::{build_error, BuildError, Component, Components, ControlPlaneService};

#[test]
fn build_status_zero_is_success() {
    assert!(build_error("the node service", Some(0)).is_ok());
}

#[test]
fn build_status_nonzero_is_exited() {
    let e = build_error("the pool service", Some(101)).unwrap_err();
    assert!(matches!(e, BuildError::Exited { .. }));
    assert_eq!(e.name(), "the pool service");
    assert_eq!(e.code(), Some(101));
}

#[test]
fn build_without_status_is_interrupted() {
    let e = build_error("the volume service", None).unwrap_err();
    assert!(matches!(e, BuildError::Interrupted { .. }));
    assert_eq!(e.name(), "the volume service");
    assert_eq!(e.code(), None);
}

#[test]
fn boot_orders() {
    assert_eq!(Component::Dns.boot_order(), 0);
    assert_eq!(Component::Mayastor.boot_order(), 1);
    assert_eq!(Component::Node.boot_order(), 2);
    assert_eq!(Component::Volume.boot_order(), 3);
    assert_eq!(Component::Jaeger.boot_order(), 4);
}

#[test]
fn service_names() {
    assert_eq!(ControlPlaneService::from_name("Node"), Some(ControlPlaneService::Node));
    assert_eq!(ControlPlaneService::from_name("Pool"), Some(ControlPlaneService::Pool));
    assert_eq!(ControlPlaneService::from_name("Volume"), Some(ControlPlaneService::Volume));
    assert_eq!(ControlPlaneService::from_name("node"), None);
    assert_eq!(ControlPlaneService::from_name(""), None);
    assert_eq!(ControlPlaneService::Pool.component(), Component::Pool);
}

#[test]
fn components_start_in_boot_order() {
    let c = Components::new(&vec![ControlPlaneService::Volume, ControlPlaneService::Node]);
    assert_eq!(
        c.list().clone(),
        vec![
            Component::Dns,
            Component::Nats,
            Component::Mayastor,
            Component::Node,
            Component::Volume,
            Component::Rest,
            Component::Jaeger,
        ]
    );
    let none = Components::new(&vec![]);
    assert_eq!(none.list().len(), 5);
}

#[test]
fn sort_keeps_order_within_a_stage() {
    let mut c = Components::new(&vec![ControlPlaneService::Volume, ControlPlaneService::Pool]);
    assert_eq!(c.list()[3], Component::Volume);
    assert_eq!(c.list()[4], Component::Pool);
    c.push_except_service(Component::Node);
    assert_eq!(c.list().len(), 7);
    c.push_except_service(Component::Dns);
    c.sort();
    assert_eq!(c.list()[2], Component::Dns);
    assert_eq!(c.list()[0], Component::Dns);
}
