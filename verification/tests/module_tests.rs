use io_lang::module::{Module, ModuleManager, ModuleRef, ModuleVisibility};

fn module(name: &str, path: &str, deps: &[&str]) -> Module {
    Module {
        name: name.to_string(),
        path: path.to_string(),
        exports: Vec::new(),
        imports: Vec::new(),
        dependencies: deps
            .iter()
            .map(|d| ModuleRef { name: d.to_string(), version: None, path: format!("/proj/{}", d) })
            .collect(),
        visibility: ModuleVisibility::Public,
    }
}

#[test]
fn registered_module_can_be_resolved() {
    let mut manager = ModuleManager::new("/proj");
    manager.register_module(module("core", "/proj/core", &[])).unwrap();
    assert!(manager.module_exists("core"));
    assert!(!manager.module_exists("other"));
    assert_eq!(manager.resolve_module("core").unwrap().path, "/proj/core");
}

#[test]
fn registering_a_name_twice_fails() {
    let mut manager = ModuleManager::new("/proj");
    manager.register_module(module("core", "/proj/core", &[])).unwrap();
    let err = manager.register_module(module("core", "/proj/core2", &[])).unwrap_err();
    assert_eq!(err.message(), "Module core already exists");
}

#[test]
fn module_outside_the_root_is_refused() {
    let mut manager = ModuleManager::new("/proj");
    let err = manager.register_module(module("x", "/elsewhere/x", &[])).unwrap_err();
    assert_eq!(err.message(), "Module path must be within root path: /proj");
    let err = manager.register_module(module("y", "/project/y", &[])).unwrap_err();
    assert_eq!(err.message(), "Module path must be within root path: /proj");
}

#[test]
fn missing_dependency_is_named() {
    let mut manager = ModuleManager::new("/proj");
    let err = manager.register_module(module("app", "/proj/app", &["missing"])).unwrap_err();
    assert_eq!(err.message(), "Dependency missing not found for module app");
    assert!(!manager.module_exists("app"));
}

#[test]
fn dependency_graph_of_registered_modules_builds() {
    let mut manager = ModuleManager::new("/proj");
    manager.register_module(module("core", "/proj/core", &[])).unwrap();
    manager.register_module(module("app", "/proj/app", &["core"])).unwrap();
    let graph = manager.get_dependency_graph().unwrap();
    assert!(graph.contains_node(&"core".to_string()));
    assert!(graph.contains_node(&"app".to_string()));
    assert!(manager.verify_module_integrity().is_ok());
}

#[test]
fn metrics_count_the_parts_of_a_module() {
    let mut manager = ModuleManager::new("/proj");
    manager.register_module(module("core", "/proj/core", &[])).unwrap();
    manager.register_module(module("app", "/proj/app", &["core"])).unwrap();
    let m = manager.analyze_module_metrics("app").unwrap();
    assert_eq!(m.dependency_count, 1);
    assert_eq!(m.export_count, 0);
    assert!(!m.is_cyclic);
    assert!(manager.analyze_module_metrics("none").is_err());
}

#[test]
fn hot_reload_of_unknown_module_fails() {
    let mut manager = ModuleManager::new("/proj");
    let err = manager.hot_reload("ghost", "fn main() { }").unwrap_err();
    assert_eq!(err.message(), "Module not found");
}

#[test]
fn hot_reload_replaces_the_module() {
    let mut manager = ModuleManager::new("/proj");
    manager.register_module(module("core", "/proj/core", &[])).unwrap();
    manager.hot_reload("core", "fn main() { }").unwrap();
    let m = manager.resolve_module("core").unwrap();
    assert_eq!(m.path, "/proj/core");
    assert!(m.dependencies.is_empty());
    assert!(manager.hot_reload("core", "fn (").is_err());
    assert!(manager.hot_reload("core", "let x = @;").is_err());
}
