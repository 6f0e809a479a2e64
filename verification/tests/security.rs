use agent_os::security::{Permission, SecurityManager, SecurityPolicy};

#[test]
fn test_security_manager_creation() {
    let manager = SecurityManager::new();
    assert!(manager.get_default_policy().is_some());
    assert_eq!(manager.list_policies().len(), 1);
    assert_eq!(manager.list_policies()[0], "default");
}

#[test]
fn test_permission_checking() {
    let mut manager = SecurityManager::new();

    // Create a context with the default policy
    let _context = manager.create_context("test-context", vec!["default".to_string()]).unwrap();

    // Test that basic file read is allowed in default policy
    assert!(manager.is_allowed("test-context", &Permission::FileRead("./".to_string())));

    // Test that writing to root is not allowed
    assert!(!manager.is_allowed("test-context", &Permission::FileWrite("/".to_string())));

    // Test that localhost network access is allowed
    assert!(manager.is_allowed("test-context", &Permission::NetworkOutbound("localhost".to_string())));

    // Test that external network access is not allowed by default
    assert!(!manager.is_allowed("test-context", &Permission::NetworkOutbound("example.com".to_string())));
}

#[test]
fn test_custom_policy() {
    let mut manager = SecurityManager::new();

    // Create a permissive policy
    let permissive_policy = SecurityPolicy {
        name: "permissive".to_string(),
        description: Some("Permissive policy for testing".to_string()),
        permissions: vec![
            Permission::FileRead("/".to_string()),
            Permission::FileWrite("/".to_string()),
            Permission::NetworkAccess,
        ],
        is_default: false,
    };

    manager.add_policy(permissive_policy).unwrap();

    // Create a context with the permissive policy
    let _ = manager.create_context("permissive-context", vec!["permissive".to_string()]).unwrap();

    // Test that root file access is now allowed
    assert!(manager.is_allowed("permissive-context", &Permission::FileRead("/".to_string())));
    assert!(manager.is_allowed("permissive-context", &Permission::FileWrite("/".to_string())));
    assert!(manager.is_allowed("permissive-context", &Permission::NetworkAccess));
}

#[test]
fn duplicate_policy_names_are_refused() {
    let mut manager = SecurityManager::new();
    let again = SecurityPolicy {
        name: "default".to_string(),
        description: None,
        permissions: vec![],
        is_default: false,
    };
    assert_eq!(manager.add_policy(again).unwrap_err(), "Policy with name 'default' already exists");
    assert_eq!(manager.list_policies(), vec!["default".to_string()]);
}

#[test]
fn default_policy_contents() {
    let manager = SecurityManager::new();
    let p = manager.get_policy("default").unwrap();
    assert!(p.is_default);
    assert_eq!(p.description, Some("Default restrictive security policy".to_string()));
    assert_eq!(
        p.permissions,
        vec![
            Permission::FileRead("./".to_string()),
            Permission::FileWrite("./".to_string()),
            Permission::FileCreate("./".to_string()),
            Permission::NetworkOutbound("localhost".to_string()),
            Permission::NetworkOutbound("127.0.0.1".to_string()),
            Permission::NetworkOutbound("::1".to_string()),
            Permission::EnvRead,
        ]
    );
}

#[test]
fn setting_the_default_marks_only_that_policy() {
    let mut manager = SecurityManager::new();
    manager.add_policy(SecurityPolicy::file_access_policy("files".to_string(), None)).unwrap();
    manager.set_default_policy("files").unwrap();
    assert!(manager.get_policy("files").unwrap().is_default);
    assert!(!manager.get_policy("default").unwrap().is_default);
    assert_eq!(manager.get_default_policy().unwrap().name, "files");
    assert_eq!(manager.set_default_policy("nope").unwrap_err(), "Policy 'nope' does not exist");
    assert_eq!(manager.get_default_policy().unwrap().name, "files");
}

#[test]
fn removing_the_default_policy_leaves_no_default() {
    let mut manager = SecurityManager::new();
    let removed = manager.remove_policy("default").unwrap().unwrap();
    assert_eq!(removed.name, "default");
    assert!(manager.get_policy("default").is_none());
    assert!(manager.get_default_policy().is_none());
    assert!(manager.remove_policy("default").unwrap().is_none());
}

#[test]
fn contexts_need_existing_policies() {
    let mut manager = SecurityManager::new();
    let err = manager
        .create_context("ctx", vec!["default".to_string(), "ghost".to_string(), "other".to_string()])
        .err()
        .unwrap();
    assert_eq!(err, "Policy 'ghost' does not exist");
    assert!(manager.get_context("ctx").is_none());
    let ctx = manager.create_context("ctx", vec!["default".to_string()]).unwrap();
    assert_eq!(ctx.id, "ctx");
    assert_eq!(ctx.policies, vec!["default".to_string()]);
    assert!(ctx.overrides.is_empty());
    assert_eq!(manager.list_contexts(), vec!["ctx".to_string()]);
    let read = manager.get_context("ctx").unwrap();
    assert_eq!(read.policies, vec!["default".to_string()]);
    // a context created again under the same id replaces the first
    manager.create_context("ctx", vec![]).unwrap();
    assert!(manager.get_context("ctx").unwrap().policies.is_empty());
    assert_eq!(manager.list_contexts().len(), 1);
}

#[test]
fn overrides_decide_and_the_last_one_wins() {
    let mut manager = SecurityManager::new();
    manager.create_context("ctx", vec!["default".to_string()]).unwrap();
    assert!(manager.is_allowed("ctx", &Permission::FileRead("./".to_string())));
    manager
        .update_overrides(
            "ctx",
            vec![
                (Permission::FileRead("./".to_string()), true),
                (Permission::NetworkAccess, true),
                (Permission::FileRead("./".to_string()), false),
            ],
        )
        .unwrap();
    assert!(!manager.is_allowed("ctx", &Permission::FileRead("./".to_string())));
    assert!(manager.is_allowed("ctx", &Permission::NetworkAccess));
    // a permission without an override still follows the policies
    assert!(manager.is_allowed("ctx", &Permission::EnvRead));
    assert!(!manager.is_allowed("ctx", &Permission::ProcessSpawn));
    assert_eq!(manager.get_context("ctx").unwrap().overrides.len(), 2);
    assert_eq!(
        manager.update_overrides("nope", vec![]).unwrap_err(),
        "Context 'nope' not found"
    );
}

#[test]
fn unknown_contexts_allow_nothing() {
    let manager = SecurityManager::new();
    assert!(!manager.is_allowed("nowhere", &Permission::FileRead("./".to_string())));
    assert!(!manager.is_allowed("nowhere", &Permission::EnvRead));
}

#[test]
fn file_access_policy_contents() {
    let p = SecurityPolicy::file_access_policy("basic".to_string(), Some("d".to_string()));
    assert_eq!(p.name, "basic");
    assert_eq!(p.description, Some("d".to_string()));
    assert_eq!(
        p.permissions,
        vec![Permission::FileRead("./".to_string()), Permission::FileWrite("./".to_string())]
    );
    assert!(!p.is_default);
}

#[test]
fn removing_an_added_policy_restores_the_policies() {
    let mut manager = SecurityManager::new();
    let before = manager.list_policies();
    manager.add_policy(SecurityPolicy::file_access_policy("files".to_string(), None)).unwrap();
    assert_eq!(manager.list_policies(), vec!["default".to_string(), "files".to_string()]);
    let removed = manager.remove_policy("files").unwrap().unwrap();
    assert_eq!(removed.name, "files");
    assert_eq!(manager.list_policies(), before);
    assert!(manager.get_policy("files").is_none());
    assert_eq!(manager.get_default_policy().unwrap().name, "default");
}

#[test]
fn policy_names_are_listed_once_and_match_their_policies() {
    let mut manager = SecurityManager::new();
    manager.add_policy(SecurityPolicy::file_access_policy("a".to_string(), None)).unwrap();
    manager.add_policy(SecurityPolicy::file_access_policy("b".to_string(), None)).unwrap();
    assert!(manager.add_policy(SecurityPolicy::file_access_policy("a".to_string(), None)).is_err());
    manager.set_default_policy("b").unwrap();
    let names = manager.list_policies();
    assert_eq!(names, vec!["default".to_string(), "a".to_string(), "b".to_string()]);
    for name in &names {
        let p = manager.get_policy(name).unwrap();
        assert_eq!(&p.name, name);
        assert_eq!(p.is_default, name == "b");
    }
}
