use whoami_server::dispatch::{dispatch, BodyPlan, STATUS_NOT_FOUND, STATUS_OK};
use whoami_server::host::{HostIdentity, IpAddress};
use whoami_server::routing::{DispatchTable, Handler, Method, RouteGroup};

fn fixed(s: &str) -> Handler {
    Handler::Fixed(s.to_string())
}

#[test]
fn duplicate_binding_within_group_is_rejected() {
    let mut g = RouteGroup::new();
    assert!(g.bind(Method::Get, "/x".to_string(), fixed("a")).is_ok());
    let err = g
        .bind(Method::Get, "/x".to_string(), fixed("b"))
        .expect_err("second binding of the same (method, path) must fail");
    assert_eq!(err.method, Method::Get);
    assert_eq!(err.path, "/x");
}

#[test]
fn same_path_different_method_is_allowed() {
    let mut g = RouteGroup::new();
    assert!(g.bind(Method::Get, "/x".to_string(), fixed("a")).is_ok());
    assert!(g.bind(Method::Post, "/x".to_string(), fixed("b")).is_ok());
}

fn one_binding_group(method: Method, path: &str, handler: Handler) -> RouteGroup {
    let mut g = RouteGroup::new();
    assert!(g.bind(method, path.to_string(), handler).is_ok());
    g
}

fn resolved_fixed_body(table: &DispatchTable, method: Method, path: &str) -> String {
    match table.resolve(method, &path.to_string()) {
        Some(b) => match &b.handler {
            Handler::Fixed(s) => s.clone(),
            _ => panic!("expected a fixed handler"),
        },
        None => panic!("expected the binding to resolve"),
    }
}

#[test]
fn later_merge_wins_for_colliding_binding() {
    let mut t = DispatchTable::new();
    t.merge(one_binding_group(Method::Get, "/k", fixed("from-a")));
    t.merge(one_binding_group(Method::Get, "/k", fixed("from-b")));
    assert_eq!(resolved_fixed_body(&t, Method::Get, "/k"), "from-b");
}

#[test]
fn merging_in_the_other_order_wins_the_other_way() {
    let mut t = DispatchTable::new();
    t.merge(one_binding_group(Method::Get, "/k", fixed("from-b")));
    t.merge(one_binding_group(Method::Get, "/k", fixed("from-a")));
    assert_eq!(resolved_fixed_body(&t, Method::Get, "/k"), "from-a");
}

#[test]
fn disjoint_groups_keep_their_own_context() {
    let snapshot = HostIdentity::capture(
        Some("alpha".to_string()),
        None,
        vec![IpAddress::V4(10, 0, 0, 1)],
    );
    let mut t = DispatchTable::new();
    t.merge(one_binding_group(Method::Get, "/a", Handler::HostInfo(snapshot)));
    t.merge(one_binding_group(Method::Get, "/b", fixed("beta")));

    match t.resolve(Method::Get, &"/a".to_string()) {
        Some(b) => match &b.handler {
            Handler::HostInfo(h) => assert_eq!(h.render(), "Name: alpha\nIP: 10.0.0.1\n"),
            _ => panic!("the first group's binding must keep its own context"),
        },
        None => panic!("expected /a to resolve"),
    }
    assert_eq!(resolved_fixed_body(&t, Method::Get, "/b"), "beta");
}

#[test]
fn collision_overwrites_only_the_exact_pair() {
    let mut t = DispatchTable::new();
    let mut a = RouteGroup::new();
    assert!(a.bind(Method::Get, "/k".to_string(), fixed("a-get")).is_ok());
    assert!(a.bind(Method::Put, "/k".to_string(), fixed("a-put")).is_ok());
    t.merge(a);
    t.merge(one_binding_group(Method::Get, "/k", fixed("b-get")));
    assert_eq!(resolved_fixed_body(&t, Method::Get, "/k"), "b-get");
    assert_eq!(resolved_fixed_body(&t, Method::Put, "/k"), "a-put");
}

#[test]
fn unregistered_pair_resolves_to_not_found() {
    let t = DispatchTable::new();
    assert!(t.resolve(Method::Get, &"/missing".to_string()).is_none());
    let plan = dispatch(&t, Method::Get, &"/missing".to_string());
    assert_eq!(plan.status, STATUS_NOT_FOUND);
    assert!(plan.content_type.is_none());
    match plan.body {
        BodyPlan::Fixed(s) => assert_eq!(s, ""),
        _ => panic!("a not-found outcome must carry an empty fixed body"),
    }
}

#[test]
fn dispatch_serves_a_fixed_binding() {
    let mut t = DispatchTable::new();
    t.merge(one_binding_group(Method::Get, "/k", fixed("payload")));
    let plan = dispatch(&t, Method::Get, &"/k".to_string());
    assert_eq!(plan.status, STATUS_OK);
    assert!(plan.content_type.is_none());
    match plan.body {
        BodyPlan::Fixed(s) => assert_eq!(s, "payload"),
        _ => panic!("expected a fixed body"),
    }
}
