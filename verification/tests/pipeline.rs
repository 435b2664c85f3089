use ec2ssh::address::parse_ip;
use ec2ssh::address::IPv4;
use ec2ssh::command::get_command;
use ec2ssh::decimal::u64_to_string;
use ec2ssh::host::get_ec2_ip;
use ec2ssh::ports::get_port_pairs;
use ec2ssh::ports::PortPairs;

#[test]
fn should_parse_ip() {
    let ip = "192.168.73.20";
    let result = parse_ip(ip);
    assert!(result.is_ok());
    let result = result.unwrap();
    assert_eq!(result[0], 192);
    assert_eq!(result[1], 168);
    assert_eq!(result[2], 73);
    assert_eq!(result[3], 20);
}

#[test]
fn should_fail_parse_ip() {
    let ip = "12312215";
    let result = parse_ip(ip);
    assert!(result.is_err());
}

#[test]
fn should_get_port_pairs() {
    let port_pairs = vec!["3000:3000".to_string(), "23:38989".to_string()];
    let result = get_port_pairs(&port_pairs);
    assert!(result.is_ok());
    let result = result.unwrap();
    assert_eq!(result[0].local, "3000");
    assert_eq!(result[0].remote, "3000");
    assert_eq!(result[1].local, "23");
    assert_eq!(result[1].remote, "38989");
}

#[test]
fn should_fail_get_port_pairs() {
    let port_pairs = vec!["3000:3000".to_string(), "2338989".to_string()];
    let result = get_port_pairs(&port_pairs);
    assert!(result.is_err());
}

#[test]
fn should_get_correct_command() {
    let port1 = PortPairs {
        local: "3000".to_string(),
        remote: "5000".to_string(),
    };

    let port2 = PortPairs {
        local: "5000".to_string(),
        remote: "8000".to_string(),
    };
    let ip: IPv4 = vec![192, 168, 0, 1];
    let command = get_command(&ip, &vec![port1, port2]);
    let mut arguments = command.args.iter();
    assert_eq!("-L", arguments.next().unwrap().as_str());
    assert_eq!(
        format!("3000:{}:5000", get_ec2_ip(&ip).unwrap()),
        arguments.next().unwrap().as_str()
    );
    assert_eq!("-L", arguments.next().unwrap().as_str());
    assert_eq!(
        format!("5000:{}:8000", get_ec2_ip(&ip).unwrap()),
        arguments.next().unwrap().as_str()
    );

    assert_eq!(
        format!("ubuntu@{}", get_ec2_ip(&ip).unwrap()),
        arguments.next().unwrap().as_str()
    );
}

#[test]
fn parse_ip_accepts_large_octets_and_leading_zeros() {
    let result = parse_ip("999.1.1.1").unwrap();
    assert_eq!(result, vec![999, 1, 1, 1]);
    let result = parse_ip("007.0.1.2").unwrap();
    assert_eq!(result, vec![7, 0, 1, 2]);
    let result = parse_ip("0.0.0.0").unwrap();
    assert_eq!(result, vec![0, 0, 0, 0]);
    let result = parse_ip("18446744073709551615.0.0.0").unwrap();
    assert_eq!(result[0], u64::MAX);
}

#[test]
fn parse_ip_rejects_malformed_text() {
    assert!(parse_ip("").is_err());
    assert!(parse_ip("1.2.3").is_err());
    assert!(parse_ip("1.2.3.4.5").is_err());
    assert!(parse_ip("a.b.c.d").is_err());
    assert!(parse_ip("1.2.3.4 ").is_err());
    assert!(parse_ip(" 1.2.3.4").is_err());
    assert!(parse_ip("1..2.3").is_err());
    assert!(parse_ip(".1.2.3").is_err());
    assert!(parse_ip("1.2.3.").is_err());
    assert!(parse_ip("1:2:3:4").is_err());
    assert!(parse_ip("1.2.3.4x").is_err());
    assert!(parse_ip("1.2.-3.4").is_err());
}

#[test]
fn parse_ip_rejects_group_beyond_u64() {
    assert!(parse_ip("99999999999999999999.1.1.1").is_err());
    assert!(parse_ip("1.1.1.18446744073709551616").is_err());
}

#[test]
fn parse_ip_error_carries_raw_text() {
    let err = parse_ip("12312215").unwrap_err();
    assert_eq!(err.0, "12312215");
}

#[test]
fn port_pairs_empty_input_is_valid() {
    let result = get_port_pairs(&Vec::new()).unwrap();
    assert!(result.is_empty());
}

#[test]
fn port_pairs_fail_fast_reports_first_offender() {
    let port_pairs = vec!["3000:3000".to_string(), "2338989".to_string()];
    let err = get_port_pairs(&port_pairs).unwrap_err();
    assert_eq!(err.0, "2338989");

    let port_pairs = vec!["bad".to_string(), "also:bad:".to_string()];
    let err = get_port_pairs(&port_pairs).unwrap_err();
    assert_eq!(err.0, "bad");
}

#[test]
fn port_pairs_reject_malformed_specs() {
    assert!(get_port_pairs(&vec!["3000:".to_string()]).is_err());
    assert!(get_port_pairs(&vec![":3000".to_string()]).is_err());
    assert!(get_port_pairs(&vec!["30:00:00".to_string()]).is_err());
    assert!(get_port_pairs(&vec!["".to_string()]).is_err());
    assert!(get_port_pairs(&vec![":".to_string()]).is_err());
    assert!(get_port_pairs(&vec!["3000 :3000".to_string()]).is_err());
}

#[test]
fn host_name_matches_fixed_template() {
    let ip: IPv4 = vec![192, 168, 0, 1];
    let host = get_ec2_ip(&ip).unwrap();
    assert_eq!(host, "ec2-192-168-0-1.ap-southeast-2.compute.amazonaws.com");
}

#[test]
fn host_name_fails_without_four_components() {
    assert!(get_ec2_ip(&vec![1, 2, 3]).is_err());
    assert!(get_ec2_ip(&vec![1, 2, 3, 4, 5]).is_err());
    assert!(get_ec2_ip(&Vec::new()).is_err());
}

#[test]
fn decimal_text_is_canonical() {
    assert_eq!(u64_to_string(0), "0");
    assert_eq!(u64_to_string(7), "7");
    assert_eq!(u64_to_string(1234567890), "1234567890");
    assert_eq!(u64_to_string(u64::MAX), "18446744073709551615");
}

#[test]
fn command_with_no_pairs_has_only_positional_token() {
    let ip: IPv4 = vec![10, 0, 0, 1];
    let command = get_command(&ip, &Vec::new());
    assert_eq!(command.program, "ssh");
    assert_eq!(command.args.len(), 1);
    assert_eq!(
        command.args[0],
        "ubuntu@ec2-10-0-0-1.ap-southeast-2.compute.amazonaws.com"
    );
}

#[test]
fn end_to_end_single_forwarding() {
    let ip = parse_ip("192.168.73.20").unwrap();
    let pairs = get_port_pairs(&vec!["3000:3000".to_string()]).unwrap();
    let command = get_command(&ip, &pairs);
    assert_eq!(command.program, "ssh");
    let expected = vec![
        "-L",
        "3000:ec2-192-168-73-20.ap-southeast-2.compute.amazonaws.com:3000",
        "ubuntu@ec2-192-168-73-20.ap-southeast-2.compute.amazonaws.com",
    ];
    assert_eq!(command.args, expected);
}
