use nucleus::plugin::Permission;
use nucleus::plugin::PluginRegistry;
use nucleus::plugins::ReadFilePlugin;
use nucleus::plugins::WriteFilePlugin;

#[test]
fn test_registry_permissions() {
    let mut registry = PluginRegistry::new(Permission::read_only());
    let plugin = ReadFilePlugin::new();

    assert!(registry.register(plugin.descriptor()));
    assert!(registry.get("read_file").is_some());
}

#[test]
fn test_registry_permission_denial() {
    let mut registry = PluginRegistry::new(Permission::none());
    let plugin = ReadFilePlugin::new();

    assert!(!registry.register(plugin.descriptor()));
    assert!(registry.get("read_file").is_none());
}

#[test]
fn test_registry_gates_by_capability() {
    // Granted read only: a read+write tool is refused and absent; a
    // read-only tool is admitted and retrievable.
    let mut registry = PluginRegistry::new(Permission::read_only());

    assert!(!registry.register(WriteFilePlugin::new().descriptor()));
    assert!(registry.get("write_file").is_none());

    assert!(registry.register(ReadFilePlugin::new().descriptor()));
    assert!(registry.get("read_file").is_some());

    // Nothing in the registry needs more than what was granted.
    for p in registry.all() {
        assert!(Permission::read_only().allows(&p.required_permission));
    }
}

#[test]
fn test_registry_duplicate_overwrites() {
    let mut registry = PluginRegistry::new(Permission::all_capabilities());
    assert!(registry.register(ReadFilePlugin::new().descriptor()));
    let mut other = ReadFilePlugin::new().descriptor();
    other.description = "replacement".to_string();
    assert!(registry.register(other));
    assert_eq!(registry.get_count(), 1);
    assert_eq!(registry.get("read_file").unwrap().description, "replacement");
}

#[test]
fn test_permission_allows() {
    let rw = Permission {
        read: true,
        write: true,
        execute: false,
    };
    assert!(rw.allows(&Permission::read_only()));
    assert!(rw.allows(&Permission::read_write()));
    assert!(!rw.allows(&Permission::all_capabilities()));
    assert!(Permission::all_capabilities().allows(&rw));
    assert!(rw.allows(&Permission::none()));
}
