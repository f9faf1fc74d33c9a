use bootc_lints::users::{loginctl_parse, user_keys_from_file, JsonMember, JsonValue, UserKeys};

/// Convert a parsed JSON document into the library's value shape.
fn convert(v: &serde_json::Value) -> JsonValue {
    match v {
        serde_json::Value::Null => JsonValue::Null,
        serde_json::Value::Bool(b) => JsonValue::Bool(*b),
        serde_json::Value::Number(_) => JsonValue::Number,
        serde_json::Value::String(s) => JsonValue::Text(s.clone().into_bytes()),
        serde_json::Value::Array(elems) => JsonValue::Array(elems.iter().map(convert).collect()),
        serde_json::Value::Object(ms) => JsonValue::Object(
            ms.iter()
                .map(|(k, v)| JsonMember { key: k.clone().into_bytes(), value: convert(v) })
                .collect(),
        ),
    }
}

#[test]
fn test_parse_lsblk() {
    let fixture = r#"[
        {"session": "3", "uid": 1000, "user": "foo-doe", "seat": "seat0"},
        {"session": "7", "uid": 1000, "user": "foo-doe", "seat": ""}
    ]"#;

    let value = convert(&serde_json::from_str(fixture).unwrap());
    let result = loginctl_parse(&value).unwrap();

    assert_eq!(result.len(), 2);
    assert!(result.contains(&b"root".to_vec()));
    assert!(result.contains(&b"foo-doe".to_vec()));
}

#[test]
fn loginctl_parse_sorted_unique() {
    let value = JsonValue::Array(vec![
        JsonValue::Object(vec![JsonMember {
            key: b"user".to_vec(),
            value: JsonValue::Text(b"zeta".to_vec()),
        }]),
        JsonValue::Object(vec![JsonMember {
            key: b"user".to_vec(),
            value: JsonValue::Text(b"alpha".to_vec()),
        }]),
        JsonValue::Object(vec![JsonMember {
            key: b"user".to_vec(),
            value: JsonValue::Text(b"alpha".to_vec()),
        }]),
    ]);
    let result = loginctl_parse(&value).unwrap();
    assert_eq!(
        result,
        vec![b"alpha".to_vec(), b"root".to_vec(), b"zeta".to_vec()]
    );
}

#[test]
fn loginctl_parse_errors() {
    let e = loginctl_parse(&JsonValue::Null).unwrap_err();
    assert_eq!(e, b"loginctl output is not an array".to_vec());

    let e = loginctl_parse(&JsonValue::Array(vec![JsonValue::Number])).unwrap_err();
    assert_eq!(e, b"user entry is not an object".to_vec());

    let e = loginctl_parse(&JsonValue::Array(vec![JsonValue::Object(vec![JsonMember {
        key: b"seat".to_vec(),
        value: JsonValue::Text(b"seat0".to_vec()),
    }])]))
    .unwrap_err();
    assert_eq!(e, b"user object doesn't have a user field".to_vec());

    let e = loginctl_parse(&JsonValue::Array(vec![JsonValue::Object(vec![JsonMember {
        key: b"user".to_vec(),
        value: JsonValue::Number,
    }])]))
    .unwrap_err();
    assert_eq!(e, b"user name field is not a string".to_vec());
}

#[test]
fn num_keys_counts_lines() {
    let k = UserKeys {
        user: b"foo".to_vec(),
        authorized_keys: b"ssh-ed25519 AAA one\nssh-ed25519 BBB two\n".to_vec(),
        authorized_keys_path: b"/home/foo/.ssh/authorized_keys".to_vec(),
    };
    assert_eq!(k.num_keys(), 2);

    let k = UserKeys {
        user: b"foo".to_vec(),
        authorized_keys: b"one\n\ntwo".to_vec(),
        authorized_keys_path: b"p".to_vec(),
    };
    assert_eq!(k.num_keys(), 3);

    let k = UserKeys {
        user: b"foo".to_vec(),
        authorized_keys: Vec::new(),
        authorized_keys_path: b"p".to_vec(),
    };
    assert_eq!(k.num_keys(), 0);
}

#[test]
fn describe_names_user_and_count() {
    let k = UserKeys {
        user: b"alice".to_vec(),
        authorized_keys: b"a\nb\nc\n".to_vec(),
        authorized_keys_path: b"/home/alice/.ssh/authorized_keys".to_vec(),
    };
    assert_eq!(
        String::from_utf8(k.describe()).unwrap(),
        "User alice (3 authorized keys)"
    );
}

#[test]
fn empty_key_files_are_skipped() {
    let r = user_keys_from_file(
        b"bob".to_vec(),
        b"/home/bob/.ssh/authorized_keys".to_vec(),
        b" \n\t\r\n".to_vec(),
    );
    assert!(r.is_none());

    let r = user_keys_from_file(
        b"bob".to_vec(),
        b"/home/bob/.ssh/authorized_keys".to_vec(),
        b"ssh-ed25519 AAA bob\n".to_vec(),
    )
    .unwrap();
    assert_eq!(r.user, b"bob".to_vec());
    assert_eq!(r.authorized_keys, b"ssh-ed25519 AAA bob\n".to_vec());
    assert_eq!(r.authorized_keys_path, b"/home/bob/.ssh/authorized_keys".to_vec());
}
