//! Route matching, handlers, and the namespace-validation middleware.

use lockstore::routes::{
    get_namespace, get_namespace_key, health_check, namespace_middleware, route,
    ExampleValidator, RouteMatch, ValidateNamespaceLayer,
};

#[test]
fn test_get_namespace() {
    let path = b"/namespaces/123".to_vec();
    let ns = match route(&path) {
        RouteMatch::Namespace(ns) => ns,
        _ => panic!("expected the namespace route to match"),
    };
    // The guard forwards this namespace (response status 200).
    assert!(namespace_middleware(Some(&ns)));

    let namespace = get_namespace(ns);
    assert_eq!(namespace.id, b"123".to_vec());
    assert_eq!(namespace.name, b"Namespace 123".to_vec());
}

#[test]
fn test_get_invalid_namespace() {
    let path = b"/namespaces/invalid".to_vec();
    let ns = match route(&path) {
        RouteMatch::Namespace(ns) => ns,
        _ => panic!("expected the namespace route to match"),
    };
    // The guard turns "invalid" away (response status 404).
    assert!(!namespace_middleware(Some(&ns)));
}

#[test]
fn test_health_check() {
    let path = b"/health".to_vec();
    assert!(matches!(route(&path), RouteMatch::Health));
    assert_eq!(health_check(), 200);
}

#[test]
fn test_not_found() {
    let path = b"/nonexistent".to_vec();
    assert!(matches!(route(&path), RouteMatch::NotFound));
}

#[test]
fn namespace_key_route() {
    let path = b"/namespaces/abc/keys/k1".to_vec();
    let (ns, key) = match route(&path) {
        RouteMatch::NamespaceKey(ns, key) => (ns, key),
        _ => panic!("expected the namespace-key route to match"),
    };
    assert_eq!(ns, b"abc".to_vec());
    assert_eq!(key, b"k1".to_vec());
    assert_eq!(
        get_namespace_key(ns, key),
        b"Namespace abc key k1".to_vec()
    );
}

#[test]
fn malformed_paths_are_not_found() {
    assert!(matches!(route(&b"/namespaces/".to_vec()), RouteMatch::NotFound));
    assert!(matches!(route(&b"/namespaces".to_vec()), RouteMatch::NotFound));
    assert!(matches!(
        route(&b"/namespaces//keys/k".to_vec()),
        RouteMatch::NotFound
    ));
    assert!(matches!(route(&b"/namespaces/a/b".to_vec()), RouteMatch::NotFound));
    assert!(matches!(
        route(&b"/namespaces/a/keys/".to_vec()),
        RouteMatch::NotFound
    ));
    assert!(matches!(
        route(&b"/namespaces/a/keys/x/y".to_vec()),
        RouteMatch::NotFound
    ));
    assert!(matches!(route(&b"".to_vec()), RouteMatch::NotFound));
    assert!(matches!(route(&b"/".to_vec()), RouteMatch::NotFound));
}

#[test]
fn middleware_forwards_only_namespace_routes() {
    let layer = ValidateNamespaceLayer::new(ExampleValidator);
    let middleware = layer.layer(());

    // Namespace routes pass the accept-everything validator.
    assert!(middleware.allows(&b"/namespaces/123".to_vec()));
    assert!(middleware.allows(&b"/namespaces/a/keys/k".to_vec()));
    // Anything that is not a namespace route is turned away.
    assert!(!middleware.allows(&b"/health".to_vec()));
    assert!(!middleware.allows(&b"/nonexistent".to_vec()));
    assert!(!middleware.allows(&b"/namespaces/".to_vec()));
}

#[test]
fn guard_without_namespace_parameter_forwards() {
    assert!(namespace_middleware(None));
    assert!(namespace_middleware(Some(&b"valid".to_vec())));
    assert!(!namespace_middleware(Some(&b"invalid".to_vec())));
}
