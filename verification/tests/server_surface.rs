use whoami_server::dispatch::{dispatch, BodyPlan, STATUS_NOT_FOUND, STATUS_OK};
use whoami_server::host::{HostIdentity, IpAddress};
use whoami_server::routes::standard_table;
use whoami_server::routing::{DispatchTable, Method};

fn example_table() -> DispatchTable {
    standard_table(HostIdentity::capture(
        None,
        Some("box1".to_string()),
        vec![IpAddress::V4(10, 0, 0, 5)],
    ))
}

fn fixed_body(table: &DispatchTable, method: Method, path: &str) -> String {
    let plan = dispatch(table, method, &path.to_string());
    assert_eq!(plan.status, STATUS_OK);
    match plan.body {
        BodyPlan::Fixed(s) => s,
        _ => panic!("expected a fixed body at {path}"),
    }
}

#[test]
fn get_hello_returns_the_greeting() {
    assert_eq!(fixed_body(&example_table(), Method::Get, "/hello"), "hello, world");
}

#[test]
fn post_and_put_hello_match_get() {
    let t = example_table();
    assert_eq!(fixed_body(&t, Method::Post, "/hello"), "hello, world");
    assert_eq!(fixed_body(&t, Method::Put, "/hello"), "hello, world");
}

#[test]
fn bench_returns_the_constant_payload() {
    let t = example_table();
    assert_eq!(fixed_body(&t, Method::Get, "/bench"), "1");
    assert_eq!(fixed_body(&t, Method::Post, "/bench"), "1");
    assert_eq!(fixed_body(&t, Method::Put, "/bench"), "1");
}

#[test]
fn root_returns_the_rendered_snapshot() {
    assert_eq!(
        fixed_body(&example_table(), Method::Get, "/"),
        "Hostname: box1\nIP: 10.0.0.5\n"
    );
}

#[test]
fn echo_streams_with_the_binary_content_type() {
    let t = example_table();
    for method in [Method::Post, Method::Put] {
        let plan = dispatch(&t, method, &"/echo".to_string());
        assert_eq!(plan.status, STATUS_OK);
        assert_eq!(plan.content_type.as_deref(), Some("application/octet-stream"));
        assert!(matches!(plan.body, BodyPlan::EchoRequestBody));
    }
}

#[test]
fn unregistered_pairs_get_not_found() {
    let t = example_table();
    for (method, path) in [
        (Method::Get, "/echo"),
        (Method::Post, "/"),
        (Method::Get, "/nope"),
        (Method::Put, "/"),
    ] {
        let plan = dispatch(&t, method, &path.to_string());
        assert_eq!(plan.status, STATUS_NOT_FOUND);
        match plan.body {
            BodyPlan::Fixed(s) => assert_eq!(s, ""),
            _ => panic!("a not-found outcome must carry an empty fixed body"),
        }
    }
}
