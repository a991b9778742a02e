use upsurge::upsurge::connexion_info::ConnexionInfo;

#[test]
fn new_and_ssh_format() {
    let c = ConnexionInfo::new("u872994712".to_string(), "185.224.138.127".to_string(), 65002);
    assert_eq!(c.ssh_format(), "ssh://u872994712@185.224.138.127:65002");
    let neg = ConnexionInfo::new("a".to_string(), "b".to_string(), -3);
    assert_eq!(neg.ssh_format(), "ssh://a@b:-3");
    assert_eq!(c.formatted(), "u872994712@185.224.138.127:65002");
    assert_eq!(neg.formatted(), "a@b:-3");
}

#[test]
fn empty_connexion() {
    let e = ConnexionInfo::_empty();
    assert_eq!(e.ssh_format(), "ssh://@:-1");
    assert_eq!(e.describe(), "ConnexionInfo { user: \"\", ip: \"\", port: -1 }");
}

#[test]
fn describe_is_debug() {
    let infos = [
        ConnexionInfo::new("user1".to_string(), "127.0.0.1".to_string(), 22),
        ConnexionInfo::new("we\"ird".to_string(), "tab\there".to_string(), -1),
        ConnexionInfo::new("back\\slash".to_string(), "new\nline".to_string(), i32::MIN),
        ConnexionInfo::_empty(),
    ];
    for c in infos.iter() {
        assert_eq!(c.describe(), format!("{:?}", c));
    }
    let plain = ConnexionInfo::new("ab".to_string(), "h".to_string(), 7);
    assert_eq!(plain.describe(), "ConnexionInfo { user: \"ab\", ip: \"h\", port: 7 }");
}

#[test]
fn from_formatted_accepts_the_format() {
    let c = ConnexionInfo::from_formatted("remoteMachine@165.165.165.165:8080".to_string()).unwrap();
    assert_eq!(c.ssh_format(), "ssh://remoteMachine@165.165.165.165:8080");
    let c = ConnexionInfo::from_formatted("a:b@c@d:007".to_string()).unwrap();
    assert_eq!(c.describe(), "ConnexionInfo { user: \"a:b\", ip: \"c@d\", port: 7 }");
    let c = ConnexionInfo::from_formatted(" u@ip:1".to_string()).unwrap();
    assert_eq!(c.ssh_format(), "ssh:// u@ip:1");
    let c = ConnexionInfo::from_formatted("u@h:2147483647".to_string()).unwrap();
    assert_eq!(c.ssh_format(), "ssh://u@h:2147483647");
}

#[test]
fn from_formatted_refuses_other_texts() {
    for t in ["@ip:22", "user@:22", "user@ip:", "user@ip:2a", "userip:22", "u@ip:22:33", "", "u@ip", "u@ip:+1", "u@ip:-1"] {
        let r = ConnexionInfo::from_formatted(t.to_string());
        assert_eq!(r.err(), Some("invalid connexion format"), "case {:?}", t);
    }
}

#[test]
fn port_overflow_is_detected() {
    assert!(ConnexionInfo::port_unreadable("u@h:2147483648"));
    assert!(ConnexionInfo::port_unreadable("u@h:99999999999999999999999"));
    assert!(!ConnexionInfo::port_unreadable("u@h:2147483647"));
    assert!(!ConnexionInfo::port_unreadable("bad"));
    assert!(!ConnexionInfo::port_unreadable("u@h:99x"));
    assert!(ConnexionInfo::port_unreadable("u@h:\u{661}\u{662}"));
    assert!(ConnexionInfo::port_unreadable("u@h:1\u{966}"));
    assert!(!ConnexionInfo::port_unreadable("u@h:1\u{e9}"));
    assert!(!ConnexionInfo::port_unreadable("@h:\u{661}"));
}

#[test]
fn formatted_round_trip() {
    for (u, h, p) in [("user", "10.0.0.1", 22), ("a:b", "c@d", 0), ("x", "y", i32::MAX)] {
        let text = format!("{}@{}:{}", u, h, p);
        let c = ConnexionInfo::from_formatted(text.clone()).unwrap();
        assert_eq!(c.ssh_format(), format!("ssh://{}", text));
        assert_eq!(c.describe(), format!("{:?}", ConnexionInfo::new(u.to_string(), h.to_string(), p)));
    }
}

#[test]
fn grammar_agrees_with_the_connexion_regex() {
    let re = regex::Regex::new(r"^(?P<user>[^@]+)@(?P<ip>[^:]+):(?P<port>\d+)$").unwrap();
    let cases = [
        "u@h:1", "a:b@c@d:007", "@h:1", "u@:1", "u@h:", "u@h", "u@h:1x", "u@h:1:2", "u@@h:3",
        "u@h@i:4", "a b@c d:5", "u@h:+1", "x", "", ":@:", "u:@h:9", "é@ü:12", "u@h:\n1", "u\n@h:1",
    ];
    for c in cases {
        let ours = ConnexionInfo::from_formatted(c.to_string());
        match re.captures(c) {
            Some(caps) => {
                let expected = ConnexionInfo::new(
                    caps["user"].to_string(),
                    caps["ip"].to_string(),
                    caps["port"].parse::<i32>().unwrap(),
                );
                assert_eq!(ours.unwrap().describe(), expected.describe(), "case {:?}", c);
            }
            None => assert!(ours.is_err(), "case {:?}", c),
        }
    }
}

#[test]
fn unreadable_ports_are_those_the_regex_admits_and_parse_refuses() {
    let re = regex::Regex::new(r"^(?P<user>[^@]+)@(?P<ip>[^:]+):(?P<port>\d+)$").unwrap();
    let cases = [
        "u@h:\u{661}\u{662}", "u@h:1\u{966}", "u@h:\u{ff11}", "u@h:1\u{e9}", "u@h:12", "u@h:2147483648",
        "@h:\u{661}", "u@h:\u{1d7ce}", "u@h:x\u{661}",
    ];
    for c in cases {
        let panics = match re.captures(c) {
            Some(caps) => caps["port"].parse::<i32>().is_err(),
            None => false,
        };
        assert_eq!(ConnexionInfo::port_unreadable(c), panics, "case {:?}", c);
    }
}

#[test]
fn read_by_first_separators() {
    let cases = ["u@h:1", "a:b@c@d:007", "@h:1", "u@:1", "u@h:", "u@h", "u@h:1:2", "x", "u@h@i:4", "é@ü:12"];
    for c in cases {
        let expected = c.find('@').and_then(|k| {
            let m = k + 1 + c[k + 1..].find(':')?;
            let port = &c[m + 1..];
            if k > 0 && m > k + 1 && !port.is_empty() && port.bytes().all(|b| b.is_ascii_digit()) {
                Some(format!("ssh://{}@{}:{}", &c[..k], &c[k + 1..m], port.parse::<i32>().unwrap()))
            } else {
                None
            }
        });
        let ours = ConnexionInfo::from_formatted(c.to_string()).ok().map(|i| i.ssh_format());
        assert_eq!(ours, expected, "case {:?}", c);
    }
}
