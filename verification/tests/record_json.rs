use bls_keygen::keypair::BLSKeyPair;
use bls_keygen::record::WrappedBLSKeyPair;

fn sample_pair() -> BLSKeyPair {
    let public: Vec<u8> = (1u8..49).collect();
    let secret: Vec<u8> = (200u8..232).collect();
    BLSKeyPair::from((public, secret))
}

#[test]
fn record_parses_as_json_with_exactly_the_two_fields() {
    let pair = sample_pair();
    let w = WrappedBLSKeyPair::new(&pair);
    let v: serde_json::Value = serde_json::from_str(&pair.to_string()).unwrap();
    let obj = v.as_object().unwrap();
    assert_eq!(obj.len(), 2);
    assert_eq!(obj.get("public").unwrap().as_str().unwrap(), w.public);
    assert_eq!(obj.get("secret").unwrap().as_str().unwrap(), w.secret);
}

#[test]
fn record_matches_json_pretty_printing_byte_for_byte() {
    let pair = sample_pair();
    let w = WrappedBLSKeyPair::new(&pair);
    let mut obj = serde_json::Map::new();
    obj.insert(
        "public".to_string(),
        serde_json::Value::String(w.public.clone()),
    );
    obj.insert(
        "secret".to_string(),
        serde_json::Value::String(w.secret.clone()),
    );
    let pretty = serde_json::to_string_pretty(&serde_json::Value::Object(obj)).unwrap();
    assert_eq!(pair.to_string(), pretty);
}
