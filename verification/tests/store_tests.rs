use amf_store::registry::ClassRegistry;
use amf_store::shared_object::{
    clear, constructor, create_proto, create_shared_object_object, delete_all, entry_data,
    entry_name, flush, get_local, on_status, set_data_prop, SoSession,
};
use amf_store::value::{ObjKind, ScriptValue};

const GAME_URL: &str = "https://example.com/game.swf";

fn lookup(session: &mut SoSession, registry: &ClassRegistry, name: &str) -> Option<usize> {
    get_local(session, registry, name, GAME_URL, None, false)
}

fn find_prop<'a>(
    props: &'a [(String, ScriptValue)],
    name: &str,
) -> Option<&'a ScriptValue> {
    props.iter().find(|(n, _)| n == name).map(|(_, v)| v)
}

#[test]
fn key_derivation() {
    let mut session = SoSession::new();
    let registry = ClassRegistry::new();
    let h = lookup(&mut session, &registry, "data").expect("lookup succeeds");
    assert_eq!(entry_name(&session, h), "example.com/game.swf/data");
}

#[test]
fn key_derivation_slashed_name_gets_hash_prefix() {
    let mut session = SoSession::new();
    let registry = ClassRegistry::new();
    let h = get_local(&mut session, &registry, "a/b", GAME_URL, None, false).unwrap();
    assert_eq!(entry_name(&session, h), "example.com/game.swf/#a/b");
}

#[test]
fn key_rejection_bad_character() {
    let mut session = SoSession::new();
    let registry = ClassRegistry::new();
    assert!(lookup(&mut session, &registry, "bad#name").is_none());
    assert!(lookup(&mut session, &registry, "with space").is_none());
}

#[test]
fn key_rejection_secure_requires_https() {
    let mut session = SoSession::new();
    let registry = ClassRegistry::new();
    assert!(
        get_local(
            &mut session,
            &registry,
            "data",
            "http://example.com/game.swf",
            None,
            true
        )
        .is_none()
    );
    assert!(
        get_local(&mut session, &registry, "data", GAME_URL, None, true).is_some()
    );
}

#[test]
fn key_rejection_local_path_must_be_segment_prefix() {
    let mut session = SoSession::new();
    let registry = ClassRegistry::new();
    // "game" is a string prefix of "game.swf" but not a segment prefix.
    assert!(
        get_local(&mut session, &registry, "data", GAME_URL, Some("game"), false).is_none()
    );
    // An empty override always fails.
    assert!(get_local(&mut session, &registry, "data", GAME_URL, Some(""), false).is_none());
    // The full movie path is a valid override.
    assert!(
        get_local(&mut session, &registry, "data", GAME_URL, Some("game.swf"), false).is_some()
    );
}

#[test]
fn key_rejection_dot_segment() {
    let mut session = SoSession::new();
    let registry = ClassRegistry::new();
    assert!(
        get_local(&mut session, &registry, ".hidden", GAME_URL, None, false).is_none()
    );
}

#[test]
fn file_scheme_uses_localhost_and_drops_drive_letter() {
    let mut session = SoSession::new();
    let registry = ClassRegistry::new();
    let h = get_local(
        &mut session,
        &registry,
        "data",
        "file:///C:/games/game.swf",
        None,
        false,
    )
    .expect("file lookup succeeds");
    assert_eq!(entry_name(&session, h), "localhost/games/game.swf/data");
}

#[test]
fn cache_sharing() {
    let mut session = SoSession::new();
    let registry = ClassRegistry::new();
    let h1 = lookup(&mut session, &registry, "data").unwrap();
    let h2 = lookup(&mut session, &registry, "data").unwrap();
    assert_eq!(h1, h2);
    set_data_prop(
        &mut session,
        h1,
        "shared".to_string(),
        ScriptValue::Integer(42),
    );
    let seen = entry_data(&session, h2);
    assert!(matches!(
        find_prop(seen, "shared"),
        Some(ScriptValue::Integer(42))
    ));
}

#[test]
fn distinct_names_get_distinct_entries() {
    let mut session = SoSession::new();
    let registry = ClassRegistry::new();
    let h1 = lookup(&mut session, &registry, "one").unwrap();
    let h2 = lookup(&mut session, &registry, "two").unwrap();
    assert_ne!(h1, h2);
}

#[test]
fn flush_then_fresh_lookup_reconstructs_scalars() {
    let mut session = SoSession::new();
    let registry = ClassRegistry::new();
    let h = lookup(&mut session, &registry, "data").unwrap();
    set_data_prop(
        &mut session,
        h,
        "count".to_string(),
        ScriptValue::Number(3.25f64.to_bits()),
    );
    set_data_prop(
        &mut session,
        h,
        "label".to_string(),
        ScriptValue::String("saved".to_string()),
    );
    set_data_prop(&mut session, h, "flag".to_string(), ScriptValue::Bool(true));
    set_data_prop(&mut session, h, "gone".to_string(), ScriptValue::Null);
    assert!(flush(&mut session, &registry, h));

    // A fresh session over the same storage simulates a new run.
    let mut fresh = SoSession {
        entries: Vec::new(),
        storage: session.storage,
    };
    let h2 = lookup(&mut fresh, &registry, "data").unwrap();
    let data = entry_data(&fresh, h2);
    assert_eq!(data.len(), 4);
    assert!(matches!(
        find_prop(data, "count"),
        Some(ScriptValue::Number(b)) if *b == 3.25f64.to_bits()
    ));
    assert!(matches!(
        find_prop(data, "label"),
        Some(ScriptValue::String(s)) if s == "saved"
    ));
    assert!(matches!(find_prop(data, "flag"), Some(ScriptValue::Bool(true))));
    assert!(matches!(find_prop(data, "gone"), Some(ScriptValue::Null)));
}

#[test]
fn flush_then_fresh_lookup_reconstructs_containers() {
    let mut session = SoSession::new();
    let registry = ClassRegistry::new();
    let h = lookup(&mut session, &registry, "data").unwrap();
    set_data_prop(
        &mut session,
        h,
        "list".to_string(),
        ScriptValue::Object(ObjKind::Array {
            length: 2,
            props: vec![
                ("0".to_string(), ScriptValue::Integer(1)),
                ("1".to_string(), ScriptValue::Integer(2)),
            ],
        }),
    );
    set_data_prop(
        &mut session,
        h,
        "inner".to_string(),
        ScriptValue::Object(ObjKind::Instance {
            class: 0,
            members: Vec::new(),
            props: vec![("deep".to_string(), ScriptValue::String("yes".to_string()))],
        }),
    );
    assert!(flush(&mut session, &registry, h));

    let mut fresh = SoSession {
        entries: Vec::new(),
        storage: session.storage,
    };
    let h2 = lookup(&mut fresh, &registry, "data").unwrap();
    let data = entry_data(&fresh, h2);
    assert_eq!(data.len(), 2);
    // AMF0 integers come back as Numbers, and the legacy reverse
    // enumeration order on flush reverses each level's property order.
    match find_prop(data, "list").expect("array survives") {
        ScriptValue::Object(ObjKind::Array { props, .. }) => {
            assert_eq!(props.len(), 2);
            let a = find_prop(props, "0").expect("index 0 kept");
            let b = find_prop(props, "1").expect("index 1 kept");
            assert!(matches!(a, ScriptValue::Number(bits) if *bits == 1f64.to_bits()));
            assert!(matches!(b, ScriptValue::Number(bits) if *bits == 2f64.to_bits()));
        }
        _ => panic!("expected the array back"),
    }
    match find_prop(data, "inner").expect("object survives") {
        ScriptValue::Object(ObjKind::Instance { props, .. }) => {
            assert!(matches!(
                find_prop(props, "deep"),
                Some(ScriptValue::String(s)) if s == "yes"
            ));
        }
        _ => panic!("expected the object back"),
    }
}

#[test]
fn clear_empties_data_and_removes_storage_but_keeps_handle() {
    let mut session = SoSession::new();
    let registry = ClassRegistry::new();
    let h = lookup(&mut session, &registry, "data").unwrap();
    set_data_prop(&mut session, h, "x".to_string(), ScriptValue::Integer(1));
    assert!(flush(&mut session, &registry, h));
    let key = entry_name(&session, h).clone();
    assert!(session.storage_get(key.as_str()).is_some());

    clear(&mut session, h);
    assert!(entry_data(&session, h).is_empty());
    assert!(session.storage_get(key.as_str()).is_none());

    // The live handle remains usable afterwards.
    set_data_prop(&mut session, h, "y".to_string(), ScriptValue::Integer(2));
    assert!(matches!(
        find_prop(entry_data(&session, h), "y"),
        Some(ScriptValue::Integer(2))
    ));
}

#[test]
fn flush_writes_under_trailing_segment_name() {
    let mut session = SoSession::new();
    let registry = ClassRegistry::new();
    let h = lookup(&mut session, &registry, "data").unwrap();
    assert!(flush(&mut session, &registry, h));
    let key = entry_name(&session, h).clone();
    let bytes = session.storage_get(key.as_str()).expect("bytes stored");
    let parsed = amf_store::lso_io::lso_parse_bytes(&bytes).expect("stored bytes parse");
    assert_eq!(parsed.0, "data");
    assert!(parsed.1.is_empty());
}

#[test]
fn stubs_return_undefined_and_constructor_returns_this() {
    assert!(matches!(delete_all(), ScriptValue::Undefined));
    assert!(matches!(on_status(), ScriptValue::Undefined));
    assert!(matches!(constructor(ScriptValue::Bool(true)), ScriptValue::Bool(true)));
    match create_proto() {
        ScriptValue::Object(ObjKind::Instance { props, .. }) => {
            assert_eq!(props.len(), 9);
            assert_eq!(props[0].0, "clear");
            assert_eq!(props[8].0, "onSync");
        }
        _ => panic!("expected the prototype object"),
    }
    match create_shared_object_object() {
        ScriptValue::Object(ObjKind::Function { props }) => {
            assert_eq!(props.len(), 7);
            assert_eq!(props[2].0, "getLocal");
        }
        _ => panic!("expected the constructor object"),
    }
}

#[test]
fn corrupt_storage_yields_fresh_empty_data_object() {
    let registry = ClassRegistry::new();
    let mut session = SoSession::new();
    session.storage_put("example.com/game.swf/data", vec![0xde, 0xad, 0xbe, 0xef]);
    let h = lookup(&mut session, &registry, "data").expect("lookup still succeeds");
    assert!(entry_data(&session, h).is_empty());
}

#[test]
fn flush_then_fresh_lookup_reconstructs_dates_and_xml() {
    let mut session = SoSession::new();
    let registry = ClassRegistry::new();
    let h = lookup(&mut session, &registry, "data").unwrap();
    set_data_prop(
        &mut session,
        h,
        "when".to_string(),
        ScriptValue::Object(ObjKind::Date { millis: 86_400_000f64.to_bits() }),
    );
    set_data_prop(
        &mut session,
        h,
        "doc".to_string(),
        ScriptValue::Object(ObjKind::Xml { text: "<a/>".to_string() }),
    );
    assert!(flush(&mut session, &registry, h));

    let mut fresh = SoSession {
        entries: Vec::new(),
        storage: session.storage,
    };
    let h2 = lookup(&mut fresh, &registry, "data").unwrap();
    let data = entry_data(&fresh, h2);
    assert!(matches!(
        find_prop(data, "when"),
        Some(ScriptValue::Object(ObjKind::Date { millis })) if *millis == 86_400_000f64.to_bits()
    ));
    assert!(matches!(
        find_prop(data, "doc"),
        Some(ScriptValue::Object(ObjKind::Xml { text })) if text == "<a/>"
    ));
}
