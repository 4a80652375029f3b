use flaredb::coders::resolve::{
    is_resolvable, length_prefix_pickled_leaves, resolve_length_prefixed_coder_id,
};
use flaredb::coders::StandardBeamCoders;
use flaredb::jobservice::urns;
use flaredb::model::{Coder, FunctionSpec};
use flaredb::named::NamedMap;

fn coder(urn: &str, components: &[&str]) -> Coder {
    Coder {
        spec: Some(FunctionSpec {
            urn: urn.to_string(),
            payload: Vec::new(),
        }),
        component_coder_ids: components.iter().map(|c| c.to_string()).collect(),
    }
}

#[test]
fn java_sdk_coders_resolve_custom_ids() {
    let mut coders = NamedMap::new();
    coders.insert(
        "VoidCoder".to_string(),
        coder(urns::JAVA_SDK_CODER, &[]),
    );
    coders.insert(
        "VarIntCoder".to_string(),
        coder(urns::JAVA_SDK_CODER, &[]),
    );
    coders.insert(
        "SomethingElseCoder".to_string(),
        coder(urns::JAVA_SDK_CODER, &[]),
    );

    assert!(StandardBeamCoders::from_urn("VoidCoder", None, Some(&coders)).is_void());
    assert!(matches!(
        StandardBeamCoders::from_urn("VarIntCoder", None, Some(&coders)),
        StandardBeamCoders::VarInt32(_)
    ));
    // Unrecognized java-sdk coders still fall back to opaque bytes.
    assert!(matches!(
        StandardBeamCoders::from_urn("SomethingElseCoder", None, Some(&coders)),
        StandardBeamCoders::Bytes(_)
    ));
}

#[test]
fn pickled_leaves_are_length_prefixed_and_referenced() {
    let mut coders = NamedMap::new();
    coders.insert("bytes".to_string(), coder(urns::BYTES_CODER, &[]));
    coders.insert(
        "fast".to_string(),
        coder(urns::PYTHON_PICKLE_CODER, &[]),
    );
    coders.insert(
        "nullable".to_string(),
        coder(urns::NULLABLE_CODER, &["fast"]),
    );
    coders.insert(
        "tuple".to_string(),
        coder(urns::TUPLE_CODER, &["bytes", "nullable"]),
    );

    length_prefix_pickled_leaves(&mut coders);

    // A length-prefix wrapper is created around the opaque leaf.
    let wrapper = coders.get("fast_lp").expect("expected wrapper coder");
    assert_eq!(
        wrapper.spec.as_ref().unwrap().urn,
        urns::LENGTH_PREFIX_CODER
    );
    assert_eq!(wrapper.component_coder_ids, vec!["fast".to_string()]);

    // The composite now points at the wrapper, not the raw leaf.
    assert_eq!(
        coders.get("nullable").unwrap().component_coder_ids,
        vec!["fast_lp".to_string()]
    );
    // Unrelated references are left untouched.
    assert_eq!(
        coders.get("tuple").unwrap().component_coder_ids,
        vec!["bytes".to_string(), "nullable".to_string()]
    );

    // Rewriting is idempotent.
    length_prefix_pickled_leaves(&mut coders);
    assert_eq!(
        coders.get("nullable").unwrap().component_coder_ids,
        vec!["fast_lp".to_string()]
    );
    assert_eq!(
        coders.get("fast_lp").unwrap().component_coder_ids,
        vec!["fast".to_string()]
    );
}

#[test]
fn resolve_length_prefixed_id_picks_wrapper_for_leaves_only() {
    let mut coders = NamedMap::new();
    coders.insert(
        "fast".to_string(),
        coder(urns::PYTHON_PICKLE_CODER, &[]),
    );
    coders.insert("bytes".to_string(), coder(urns::BYTES_CODER, &[]));

    length_prefix_pickled_leaves(&mut coders);

    assert_eq!(resolve_length_prefixed_coder_id("fast", &coders), "fast_lp");
    assert_eq!(resolve_length_prefixed_coder_id("bytes", &coders), "bytes");
}

#[test]
fn coders_that_cannot_be_resolved_are_told_apart() {
    let mut coders = NamedMap::new();
    coders.insert("list".to_string(), coder(urns::ITERABLE_CODER, &["pair"]));
    coders.insert("pair".to_string(), coder(urns::KV_CODER, &["text", "text"]));
    coders.insert("text".to_string(), coder(urns::STRING_UTF8_CODER, &[]));
    coders.insert("half".to_string(), coder(urns::KV_CODER, &["text"]));
    coders.insert("endless".to_string(), coder(urns::NULLABLE_CODER, &["endless"]));
    coders.insert("strange".to_string(), coder("beam:coder:strange:v1", &["text"]));

    assert!(is_resolvable("text", None, &coders, 0));
    assert!(is_resolvable("list", None, &coders, 2));
    assert!(!is_resolvable("list", None, &coders, 1));
    assert!(!is_resolvable("half", None, &coders, 9));
    assert!(!is_resolvable("endless", None, &coders, 9));
    assert!(!is_resolvable("strange", None, &coders, 9));
    assert!(!is_resolvable("missing", None, &coders, 9));

    let given = vec!["text".to_string(), "list".to_string()];
    assert!(is_resolvable(urns::KV_CODER, Some(&given), &coders, 3));
}
