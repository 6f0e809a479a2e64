use agent_os::component::{
    BasicComponent, ClonableComponent, Component, ComponentId, ComponentMessage, ComponentProps,
    ComponentRegistry, ComponentState,
};

/// A component for the tests: version "0.1.0", described as a test component.
fn test_component(id: ComponentId, name: String) -> BasicComponent {
    BasicComponent::new(ComponentProps {
        id,
        name,
        version: "0.1.0".to_string(),
        description: Some("Test component".to_string()),
    })
}

#[test]
fn test_component_registry() {
    let mut registry = ComponentRegistry::new();

    // Create a test component
    let component = test_component(
        ComponentId("test-component".to_string()),
        "Test Component".to_string(),
    );

    // Register the component
    let result = registry.register(Box::new(component));
    assert!(result.is_ok());

    // Check that we have one component
    assert_eq!(registry.len(), 1);

    // List component IDs
    let ids = registry.list_ids();
    assert_eq!(ids.len(), 1);
    assert_eq!(ids[0].0, "test-component");

    // Unregister the component
    let unregistered = registry.unregister(&ComponentId("test-component".to_string()));
    assert!(unregistered.is_ok());
    assert!(unregistered.unwrap().is_some());

    // Check that we have zero components
    assert_eq!(registry.len(), 0);
}

#[test]
fn registering_an_id_twice_is_refused() {
    let mut registry = ComponentRegistry::new();
    let a = test_component(ComponentId("dup".to_string()), "A".to_string());
    let b = test_component(ComponentId("dup".to_string()), "B".to_string());
    assert!(registry.register(Box::new(a)).is_ok());
    assert_eq!(
        registry.register(Box::new(b)).unwrap_err(),
        "Component with ID dup already registered"
    );
    assert_eq!(registry.len(), 1);
    let held = registry.get(&ComponentId("dup".to_string())).unwrap().unwrap();
    assert_eq!(held.props().name, "A");
}

#[test]
fn get_finds_registered_components() {
    let mut registry = ComponentRegistry::new();
    assert!(registry.is_empty());
    registry.register(Box::new(test_component(ComponentId("one".to_string()), "One".to_string()))).unwrap();
    registry.register(Box::new(test_component(ComponentId("two".to_string()), "Two".to_string()))).unwrap();
    assert!(!registry.is_empty());
    let two = registry.get(&ComponentId("two".to_string())).unwrap().unwrap();
    assert_eq!(two.id().0, "two");
    assert!(registry.get(&ComponentId("three".to_string())).unwrap().is_none());
    let ids: Vec<String> = registry.list_ids().into_iter().map(|c| c.0).collect();
    assert_eq!(ids, vec!["one".to_string(), "two".to_string()]);
}

#[test]
fn unregistering_an_unknown_id_gives_nothing() {
    let mut registry = ComponentRegistry::new();
    registry.register(Box::new(test_component(ComponentId("one".to_string()), "One".to_string()))).unwrap();
    assert!(registry.unregister(&ComponentId("other".to_string())).unwrap().is_none());
    assert_eq!(registry.len(), 1);
}

#[test]
fn a_clone_can_be_registered() {
    let mut registry = ComponentRegistry::new();
    let source = test_component(ComponentId("c".to_string()), "C".to_string());
    let copy = source.clone_box();
    assert_eq!(copy.0.props().name, "C");
    registry.register(copy.0).unwrap();
    assert_eq!(registry.len(), 1);
}

#[test]
fn messages_clone() {
    let m = ComponentMessage::DataResponse("k".to_string(), serde_json::Value::from("v"));
    match m.clone() {
        ComponentMessage::DataResponse(k, v) => {
            assert_eq!(k, "k");
            assert_eq!(v, serde_json::Value::from("v"));
        }
        _ => panic!("wrong variant"),
    }
}

#[test]
fn basic_component_lifecycle() {
    let mut c = test_component(ComponentId("life".to_string()), "Life".to_string());
    assert!(matches!(c.state(), ComponentState::Uninitialized));
    let config = agent_os::component::ComponentConfig {
        enabled: true,
        auto_start: false,
        settings: std::collections::HashMap::new(),
    };
    c.initialize(config).unwrap();
    assert!(matches!(c.state(), ComponentState::Active));
    c.pause().unwrap();
    assert!(matches!(c.state(), ComponentState::Paused));
    c.resume().unwrap();
    assert!(matches!(c.state(), ComponentState::Active));
    c.stop().unwrap();
    assert!(matches!(c.state(), ComponentState::Inactive));
    c.start().unwrap();
    assert!(matches!(c.state(), ComponentState::Active));
    c.destroy().unwrap();
    assert!(matches!(c.state(), ComponentState::Uninitialized));
    assert!(c.handle_message(ComponentMessage::GetData("x".to_string())).unwrap().is_none());
    assert_eq!(c.id().0, "life");
    assert_eq!(c.props().version, "0.1.0");
}
