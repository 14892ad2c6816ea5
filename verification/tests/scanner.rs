use sysmon::scanner::{parse_hosts, parse_ports, preset_ports, scan_jobs, service_name};

#[test]
fn service_names_of_well_known_ports() {
    assert_eq!(service_name(22), "SSH");
    assert_eq!(service_name(443), "HTTPS");
    assert_eq!(service_name(27017), "MongoDB");
    assert_eq!(service_name(8443), "HTTPS-Alt");
    assert_eq!(service_name(1), "");
    assert_eq!(service_name(65535), "");
}

#[test]
fn presets_by_name() {
    assert_eq!(preset_ports("Web"), "80,443,8080,8443,8888,9090,9443");
    assert_eq!(preset_ports("远程"), "22,23,3389,5900,5901");
    assert_eq!(preset_ports("数据库"), "1433,1521,3306,5432,6379,27017,9200");
    assert_eq!(
        preset_ports("常用"),
        "21,22,23,25,53,80,110,143,443,445,3306,3389,5432,5900,6379,8080,8443,27017"
    );
    assert_eq!(preset_ports("other"), "1-1024");
    assert_eq!(preset_ports(""), "1-1024");
}

#[test]
fn ports_single_list_and_ranges() {
    assert_eq!(parse_ports("80,443,22-25,8080"), vec![22, 23, 24, 25, 80, 443, 8080]);
}

#[test]
fn ports_are_sorted_and_unique() {
    assert_eq!(parse_ports("443, 80,80 , 22-23,23"), vec![22, 23, 80, 443]);
}

#[test]
fn ports_skip_what_does_not_parse() {
    assert_eq!(parse_ports("0,abc,70000,-5,,22"), vec![22]);
    assert_eq!(parse_ports(""), Vec::<u16>::new());
    assert_eq!(parse_ports("10-5"), Vec::<u16>::new());
    assert_eq!(parse_ports("0-3"), Vec::<u16>::new());
    assert_eq!(parse_ports("x-3"), Vec::<u16>::new());
}

#[test]
fn ports_range_with_spaces_and_plus() {
    assert_eq!(parse_ports(" 5 - 7 ,+9"), vec![5, 6, 7, 9]);
    assert_eq!(parse_ports("65534-65535"), vec![65534, 65535]);
}

#[test]
fn ports_preset_range_is_complete() {
    let ports = parse_ports(preset_ports("nothing"));
    assert_eq!(ports.len(), 1024);
    assert_eq!(ports[0], 1);
    assert_eq!(ports[1023], 1024);
}

#[test]
fn hosts_single() {
    assert_eq!(parse_hosts("  10.0.0.1 "), vec!["10.0.0.1".to_string()]);
    assert_eq!(parse_hosts("example.com"), vec!["example.com".to_string()]);
}

#[test]
fn hosts_range() {
    assert_eq!(
        parse_hosts("192.168.1.1-3"),
        vec!["192.168.1.1".to_string(), "192.168.1.2".to_string(), "192.168.1.3".to_string()]
    );
    assert_eq!(parse_hosts("10.0.0.250-255").len(), 6);
    assert_eq!(parse_hosts("10.0.0.5-3"), Vec::<String>::new());
}

#[test]
fn hosts_range_needs_small_numbers() {
    assert_eq!(parse_hosts("10.0.0.1-256"), vec!["10.0.0.1-256".to_string()]);
    assert_eq!(parse_hosts("my-host"), vec!["my-host".to_string()]);
}

#[test]
fn hosts_network() {
    let hosts = parse_hosts("192.168.7.0/24");
    assert_eq!(hosts.len(), 254);
    assert_eq!(hosts[0], "192.168.7.1");
    assert_eq!(hosts[253], "192.168.7.254");
    assert_eq!(parse_hosts("10.1.2.3/abc").len(), 254);
    assert_eq!(parse_hosts("10.1.2.3/16"), vec!["10.1.2.3/16".to_string()]);
}

#[test]
fn hosts_network_needs_dotted_address() {
    assert_eq!(parse_hosts("10.1.02.3/24"), vec!["10.1.02.3/24".to_string()]);
    assert_eq!(parse_hosts("10.1.2/24"), vec!["10.1.2/24".to_string()]);
    assert_eq!(parse_hosts("::1/24"), vec!["::1/24".to_string()]);
}

#[test]
fn hosts_network_address_forms() {
    let good = ["1.2.3.4", "0.0.0.0", "255.255.255.255", "10.0.0.0"];
    for ip in good {
        assert_eq!(parse_hosts(&format!("{}/24", ip)).len(), 254, "{}", ip);
    }
    let bad = [
        "256.1.1.1", "01.1.1.1", "1.1.1", "1.1.1.1.1", "1..1.1", "+1.1.1.1", "1.1.1.0010",
        "a.b.c.d", "", "1.2.3.04",
    ];
    for ip in bad {
        assert_eq!(parse_hosts(&format!("{}/24", ip)).len(), 1, "{}", ip);
    }
}

#[test]
fn jobs_go_host_by_host() {
    let hosts = vec!["a".to_string(), "b".to_string()];
    let jobs = scan_jobs(&hosts, &vec![22, 80, 443]);
    let expected: Vec<(String, u16)> = vec![
        ("a".to_string(), 22),
        ("a".to_string(), 80),
        ("a".to_string(), 443),
        ("b".to_string(), 22),
        ("b".to_string(), 80),
        ("b".to_string(), 443),
    ];
    assert_eq!(jobs, expected);
    assert!(scan_jobs(&hosts, &vec![]).is_empty());
    assert!(scan_jobs(&vec![], &vec![1]).is_empty());
}

fn written(ports: &[u16]) -> String {
    ports.iter().map(|p| p.to_string()).collect::<Vec<String>>().join(",")
}

#[test]
fn port_list_round_trip() {
    for input in ["80,443,22-25,8080", "1-3,65535", "9", ""] {
        let r = parse_ports(input);
        assert_eq!(parse_ports(&written(&r)), r);
    }
}

#[test]
fn joined_lists_name_both_parts() {
    let (x, y) = ("22-25, 80", "443,23,x");
    let mut both = parse_ports(x);
    both.extend(parse_ports(y));
    both.sort();
    both.dedup();
    assert_eq!(parse_ports(&format!("{},{}", x, y)), both);
    assert_eq!(parse_ports(&format!("{},{}", y, x)), both);
}

#[test]
fn common_preset_is_the_named_services() {
    let named: Vec<u16> = (1u16..=65535).filter(|p| !service_name(*p).is_empty()).collect();
    assert_eq!(parse_ports(preset_ports("常用")), named);
    assert_eq!(named.len(), 18);
}
