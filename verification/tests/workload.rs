use pod_attach::workload::WorkloadDescriptor;

fn command() -> Vec<String> {
    vec!["sh".to_string(), "-c".to_string(), "echo \"Hello, kube-rs!\" && sleep 10".to_string()]
}

#[test]
fn a_descriptor_holds_what_it_was_built_from() {
    let descriptor = WorkloadDescriptor::new("test-kane8n", "alpine", command());
    assert_eq!(descriptor.name(), "test-kane8n");
    assert_eq!(descriptor.container_name(), "test-kane8n");
    assert_eq!(descriptor.image(), "alpine");
    assert_eq!(descriptor.command(), &command());
    assert_eq!(descriptor.namespace(), &None);
}

#[test]
fn a_descriptor_can_be_placed_in_a_namespace() {
    let descriptor = WorkloadDescriptor::new("web", "nginx", Vec::new()).in_namespace("staging");
    assert_eq!(descriptor.namespace(), &Some("staging".to_string()));
    assert_eq!(descriptor.name(), "web");
    assert_eq!(descriptor.image(), "nginx");
    assert_eq!(descriptor.command(), &Vec::<String>::new());
    let moved = descriptor.in_namespace("production");
    assert_eq!(moved.namespace(), &Some("production".to_string()));
}

#[test]
fn descriptors_are_equal_when_their_parts_are() {
    let one = WorkloadDescriptor::new("web", "nginx", command());
    let other = WorkloadDescriptor::new("web", "nginx", command());
    assert_eq!(one, other);
    assert_ne!(one, WorkloadDescriptor::new("web", "nginx", Vec::new()));
    assert_ne!(one.clone(), other.in_namespace("default"));
}
