use debloat_core::codec::{parse_backup, serialize_backup};
use debloat_core::state::{CorePackage, PackageState, PhoneBackup, UserBackup};

fn pkg(name: &str, state: PackageState) -> CorePackage {
    CorePackage { name: name.to_owned(), state }
}

fn sample() -> PhoneBackup {
    PhoneBackup {
        device_id: "serial-1".to_owned(),
        users: vec![
            UserBackup {
                id: 0,
                packages: vec![
                    pkg("com.foo", PackageState::Enabled),
                    pkg("com.bar", PackageState::Disabled),
                    pkg("com.baz", PackageState::Uninstalled),
                ],
            },
            UserBackup { id: 10, packages: vec![pkg("com.foo", PackageState::Uninstalled)] },
        ],
    }
}

#[test]
fn serialize_produces_exact_canonical_text() {
    let b = PhoneBackup {
        device_id: "d".to_owned(),
        users: vec![UserBackup { id: 3, packages: vec![pkg("com.foo", PackageState::Enabled)] }],
    };
    let s = serialize_backup(&b);
    assert_eq!(
        s,
        "{\"device_id\":\"d\",\"users\":[{\"id\":3,\"packages\":[{\"name\":\"com.foo\",\"state\":\"Enabled\"}]}]}"
    );
}

#[test]
fn serialize_empty_users_list() {
    let b = PhoneBackup { device_id: "x".to_owned(), users: vec![] };
    assert_eq!(serialize_backup(&b), "{\"device_id\":\"x\",\"users\":[]}");
    let back = parse_backup(&serialize_backup(&b)).unwrap();
    assert_eq!(back.device_id, "x");
    assert!(back.users.is_empty());
}

fn assert_round_trip(b: &PhoneBackup) {
    let s = serialize_backup(b);
    let back = parse_backup(&s).expect("canonical text must parse");
    assert_eq!(back.device_id, b.device_id);
    assert_eq!(back.users.len(), b.users.len());
    for (u, v) in back.users.iter().zip(b.users.iter()) {
        assert_eq!(u.id, v.id);
        assert_eq!(u.packages.len(), v.packages.len());
        for (p, q) in u.packages.iter().zip(v.packages.iter()) {
            assert_eq!(p.name, q.name);
            assert_eq!(p.state, q.state);
        }
    }
}

#[test]
fn round_trip_reproduces_all_triples() {
    assert_round_trip(&sample());
}

#[test]
fn round_trip_with_escaped_characters() {
    let b = PhoneBackup {
        device_id: "we\"ird\\id".to_owned(),
        users: vec![UserBackup {
            id: 65535,
            packages: vec![
                pkg("na\"me", PackageState::Enabled),
                pkg("ba\\ck", PackageState::Disabled),
                pkg("ta\tb\nnl\u{1}", PackageState::Uninstalled),
            ],
        }],
    };
    assert_round_trip(&b);
    let s = serialize_backup(&b);
    assert!(s.contains("\\\""));
    assert!(s.contains("\\\\"));
    assert!(s.contains("\\u0009"));
    assert!(s.contains("\\u000a"));
    assert!(s.contains("\\u0001"));
}

#[test]
fn round_trip_with_empty_package_list_and_empty_name() {
    let b = PhoneBackup {
        device_id: "".to_owned(),
        users: vec![
            UserBackup { id: 0, packages: vec![] },
            UserBackup { id: 1, packages: vec![pkg("", PackageState::Enabled)] },
        ],
    };
    assert_round_trip(&b);
}

#[test]
fn serialized_form_is_valid_json_with_expected_fields() {
    let s = serialize_backup(&sample());
    let v: serde_json::Value = serde_json::from_str(&s).expect("output must be valid JSON");
    assert_eq!(v["device_id"], "serial-1");
    assert_eq!(v["users"].as_array().unwrap().len(), 2);
    assert_eq!(v["users"][0]["id"], 0);
    assert_eq!(v["users"][0]["packages"][1]["name"], "com.bar");
    assert_eq!(v["users"][0]["packages"][1]["state"], "Disabled");
    assert_eq!(v["users"][1]["id"], 10);
    assert_eq!(v["users"][1]["packages"][0]["state"], "Uninstalled");
}

#[test]
fn malformed_texts_yield_parse_error() {
    for bad in [
        "",
        "{",
        "nonsense",
        "{\"device_id\":\"d\",\"users\":[]}trailing",
        "{\"device_id\":\"d\",\"users\":}",
        "{\"device_id\":\"d\"}",
        "{\"device_id\":\"d\",\"users\":[{\"id\":99999999999,\"packages\":[]}]}",
        "{\"device_id\":\"d\",\"users\":[{\"id\":1,\"packages\":[{\"name\":\"x\",\"state\":\"All\"}]}]}",
        "{\"device_id\":\"d\",\"users\":[{\"id\":1,\"packages\":[{\"name\":\"x\",\"state\":\"On\"}]}]}",
        "{\"device_id\":\"d\",\"users\":[{\"id\":,\"packages\":[]}]}",
        "{\"device_id\":\"d\",\"users\":[{\"id\":1,\"packages\":[]}",
    ] {
        assert!(parse_backup(bad).is_err(), "expected ParseError for {bad:?}");
    }
}

#[test]
fn parse_accepts_id_up_to_u16_range() {
    let ok = "{\"device_id\":\"d\",\"users\":[{\"id\":65535,\"packages\":[]}]}";
    let b = parse_backup(ok).unwrap();
    assert_eq!(b.users[0].id, 65535);
    let too_big = "{\"device_id\":\"d\",\"users\":[{\"id\":65536,\"packages\":[]}]}";
    assert!(parse_backup(too_big).is_err());
}

#[test]
fn parse_unescapes_string_escapes() {
    let s = "{\"device_id\":\"a\\\"b\\\\c\\u0009d\",\"users\":[]}";
    let b = parse_backup(s).unwrap();
    assert_eq!(b.device_id, "a\"b\\c\td");
}
