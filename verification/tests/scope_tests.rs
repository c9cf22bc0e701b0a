use io_lang::semantic::scope::Scope;

#[test]
fn test_scope_definition() {
    let mut scope = Scope::new();
    assert!(scope.define("x", "int", false).is_ok());
    assert!(scope.define("x", "int", false).is_err());
}

#[test]
fn test_scope_lookup() {
    let mut parent = Scope::new();
    parent.define("x", "int", false).unwrap();

    let mut child = Scope::with_parent(parent);
    child.define("y", "string", true).unwrap();

    assert!(child.lookup("x").is_some());
    assert!(child.lookup("y").is_some());
    assert!(child.lookup("z").is_none());
}

#[test]
fn test_symbol_mutability() {
    let mut scope = Scope::new();
    scope.define("x", "int", true).unwrap();
    scope.define("y", "int", false).unwrap();

    assert!(scope.lookup("x").unwrap().mutable);
    assert!(!scope.lookup("y").unwrap().mutable);
}

#[test]
fn redefinition_names_the_symbol() {
    let mut scope = Scope::new();
    scope.define("x", "int", false).unwrap();
    let err = scope.define("x", "bool", true).unwrap_err();
    assert_eq!(err, "Symbol 'x' already defined in current scope");
    assert_eq!(scope.lookup("x").unwrap().ty_name, "int");
}

#[test]
fn inner_definition_shadows_outer() {
    let mut parent = Scope::new();
    parent.define("x", "int", false).unwrap();
    let mut child = Scope::with_parent(parent);
    child.define("x", "string", true).unwrap();
    let s = child.lookup("x").unwrap();
    assert_eq!(s.ty_name, "string");
    assert!(s.mutable);
}
