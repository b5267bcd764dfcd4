use whoami_server::host::{HostIdentity, IpAddress};

#[test]
fn render_all_absent_is_empty() {
    let h = HostIdentity::capture(None, None, Vec::new());
    assert_eq!(h.render(), "");
}

#[test]
fn render_hostname_and_address() {
    let h = HostIdentity::capture(
        None,
        Some("box1".to_string()),
        vec![IpAddress::V4(10, 0, 0, 5)],
    );
    assert_eq!(h.render(), "Hostname: box1\nIP: 10.0.0.5\n");
}

#[test]
fn render_all_fields_in_fixed_order() {
    let h = HostIdentity::capture(
        Some("app".to_string()),
        Some("host".to_string()),
        vec![
            IpAddress::V4(127, 0, 0, 1),
            IpAddress::V6(0x2001, 0xdb8, 0, 0, 0, 0, 0, 1),
        ],
    );
    assert_eq!(
        h.render(),
        "Name: app\nHostname: host\nIP: 127.0.0.1\nIP: 2001:db8::1\n"
    );
}

#[test]
fn render_name_only() {
    let h = HostIdentity::capture(Some("just-a-name".to_string()), None, Vec::new());
    assert_eq!(h.render(), "Name: just-a-name\n");
}

#[test]
fn render_addresses_only_in_enumeration_order() {
    let h = HostIdentity::capture(
        None,
        None,
        vec![IpAddress::V4(192, 168, 1, 10), IpAddress::V4(10, 0, 0, 1)],
    );
    assert_eq!(h.render(), "IP: 192.168.1.10\nIP: 10.0.0.1\n");
}

#[test]
fn render_ipv4_extremes() {
    let h = HostIdentity::capture(
        None,
        None,
        vec![IpAddress::V4(0, 0, 0, 0), IpAddress::V4(255, 255, 255, 255)],
    );
    assert_eq!(h.render(), "IP: 0.0.0.0\nIP: 255.255.255.255\n");
}

#[test]
fn render_ipv6_extremes() {
    let h = HostIdentity::capture(
        None,
        None,
        vec![
            IpAddress::V6(0, 0, 0, 0, 0, 0, 0, 0),
            IpAddress::V6(0xffff, 0xffff, 0xffff, 0xffff, 0xffff, 0xffff, 0xffff, 0xffff),
            IpAddress::V6(0xabc, 0xd, 0xef0, 0x123, 0x4567, 0x89ab, 0xcdef, 0x10),
        ],
    );
    assert_eq!(
        h.render(),
        "IP: ::\nIP: ffff:ffff:ffff:ffff:ffff:ffff:ffff:ffff\nIP: abc:d:ef0:123:4567:89ab:cdef:10\n"
    );
}

#[test]
fn render_ipv6_zero_run_compression() {
    let h = HostIdentity::capture(
        None,
        None,
        vec![
            IpAddress::V6(0, 0, 0, 0, 0, 0, 0, 1),
            IpAddress::V6(1, 0, 0, 0, 0, 0, 0, 0),
            IpAddress::V6(1, 0, 2, 3, 4, 5, 6, 7),
            IpAddress::V6(1, 0, 0, 2, 0, 0, 3, 4),
            IpAddress::V6(1, 0, 0, 2, 0, 0, 0, 3),
        ],
    );
    // A single zero group is never compressed; of two equally long runs the
    // leftmost is compressed; a strictly longer run wins wherever it is.
    assert_eq!(
        h.render(),
        "IP: ::1\nIP: 1::\nIP: 1:0:2:3:4:5:6:7\nIP: 1::2:0:0:3:4\nIP: 1:0:0:2::3\n"
    );
}

#[test]
fn render_is_deterministic() {
    let make = || {
        HostIdentity::capture(
            Some("n".to_string()),
            Some("h".to_string()),
            vec![IpAddress::V4(1, 2, 3, 4)],
        )
    };
    assert_eq!(make().render(), make().render());
}
