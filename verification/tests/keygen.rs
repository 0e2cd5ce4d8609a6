use bls_keygen::config::resolve_target;
use bls_keygen::config::ConfigError;
use bls_keygen::config::OutputTarget;
use bls_keygen::config::file_path;
use bls_keygen::hexcodec::decode_key_material;
use bls_keygen::hexcodec::DecodeError;
use bls_keygen::keypair::BLSKeyPair;
use bls_keygen::record::parse_record;
use bls_keygen::record::WrappedBLSKeyPair;

fn sample_pair() -> BLSKeyPair {
    let public: Vec<u8> = (0u8..48).collect();
    let secret: Vec<u8> = (100u8..132).collect();
    BLSKeyPair::from((public, secret))
}

#[test]
fn key_material_prefix_is_optional() {
    let bare = "aa".repeat(32);
    let prefixed = format!("0x{}", bare);
    let a = decode_key_material(&bare).unwrap();
    let b = decode_key_material(&prefixed).unwrap();
    assert_eq!(a, b);
    assert_eq!(a, vec![0xaau8; 32]);
}

#[test]
fn key_material_upper_case_is_accepted() {
    let a = decode_key_material(&"AB".repeat(32)).unwrap();
    assert_eq!(a, vec![0xabu8; 32]);
}

#[test]
fn key_material_mixed_bytes_decode_exactly() {
    let hexs = format!("{}{}", "0123456789abcdef", "ff".repeat(24));
    let v = decode_key_material(&hexs).unwrap();
    assert_eq!(&v[..8], &[0x01, 0x23, 0x45, 0x67, 0x89, 0xab, 0xcd, 0xef]);
    assert_eq!(&v[8..], &[0xffu8; 24][..]);
}

#[test]
fn key_material_wrong_length_is_rejected() {
    assert_eq!(decode_key_material(""), Err(DecodeError::WrongLength));
    assert_eq!(decode_key_material("ab"), Err(DecodeError::WrongLength));
    assert_eq!(
        decode_key_material(&"ab".repeat(31)),
        Err(DecodeError::WrongLength)
    );
    assert_eq!(
        decode_key_material(&"ab".repeat(33)),
        Err(DecodeError::WrongLength)
    );
    // An odd number of digits can never amount to 32 bytes.
    assert_eq!(
        decode_key_material(&"a".repeat(63)),
        Err(DecodeError::WrongLength)
    );
}

#[test]
fn key_material_malformed_hex_is_rejected() {
    let bad = format!("zz{}", "ab".repeat(31));
    assert_eq!(decode_key_material(&bad), Err(DecodeError::MalformedHex));
}

#[test]
fn key_material_every_leading_prefix_is_stripped() {
    let doubled = format!("0x0x{}", "cd".repeat(32));
    let v = decode_key_material(&doubled).unwrap();
    assert_eq!(v, vec![0xcdu8; 32]);
}

#[test]
fn zero_count_is_rejected_before_any_derivation() {
    let r = resolve_target(Some(0), None, None, None);
    assert_eq!(r.unwrap_err(), ConfigError::InvalidCount);
    let r = resolve_target(Some(0), Some("out".to_string()), None, None);
    assert_eq!(r.unwrap_err(), ConfigError::InvalidCount);
}

#[test]
fn path_conflicts_with_count() {
    let r = resolve_target(Some(3), None, None, Some("k.json".to_string()));
    assert_eq!(r.unwrap_err(), ConfigError::ConflictingOptions);
    let r = resolve_target(
        None,
        Some("out".to_string()),
        None,
        Some("k.json".to_string()),
    );
    assert_eq!(r.unwrap_err(), ConfigError::ConflictingOptions);
}

#[test]
fn directory_or_stem_demand_a_count() {
    let r = resolve_target(None, Some("out".to_string()), None, None);
    assert_eq!(r.unwrap_err(), ConfigError::MissingCount);
    let r = resolve_target(None, None, Some("k_".to_string()), None);
    assert_eq!(r.unwrap_err(), ConfigError::MissingCount);
}

#[test]
fn bare_invocation_prints_to_stdout() {
    match resolve_target(None, None, None, None).unwrap() {
        OutputTarget::Stdout => {}
        _ => panic!("expected the stdout target"),
    }
}

#[test]
fn single_path_invocation_keeps_the_path() {
    match resolve_target(None, None, None, Some("keys/k.json".to_string())).unwrap() {
        OutputTarget::SingleFile { path } => assert_eq!(path, "keys/k.json"),
        _ => panic!("expected the single-file target"),
    }
}

#[test]
fn multi_file_defaults_fill_in() {
    match resolve_target(Some(2), None, None, None).unwrap() {
        OutputTarget::MultiFile { dir, stem, count } => {
            assert_eq!(dir, ".");
            assert_eq!(stem, "bls_");
            assert_eq!(count, 2);
        }
        _ => panic!("expected the multi-file target"),
    }
}

#[test]
fn multi_file_run_names_its_files_by_index() {
    assert_eq!(file_path("out", "k_", 0), "out/k_0.keys.json");
    assert_eq!(file_path("out", "k_", 1), "out/k_1.keys.json");
    assert_eq!(file_path("out", "k_", 2), "out/k_2.keys.json");
}

#[test]
fn file_names_use_plain_decimal_indices() {
    assert_eq!(file_path(".", "bls_", 10), "./bls_10.keys.json");
    assert_eq!(file_path(".", "bls_", 1234567890), "./bls_1234567890.keys.json");
}

#[test]
fn trailing_slashes_of_the_directory_fold_away() {
    assert_eq!(file_path("out/", "k_", 0), "out/k_0.keys.json");
    assert_eq!(file_path("out///", "k_", 7), "out/k_7.keys.json");
}

#[test]
fn chain_seeds_the_next_pair_with_the_secret() {
    let pair = sample_pair();
    assert_eq!(pair.next_material(), (100u8..132).collect::<Vec<u8>>());
}

#[test]
fn from_keeps_both_halves() {
    let pair = sample_pair();
    assert_eq!(pair.public, (0u8..48).collect::<Vec<u8>>());
    assert_eq!(pair.secret, (100u8..132).collect::<Vec<u8>>());
}

#[test]
fn wrapped_pair_holds_lower_case_hex() {
    let w = WrappedBLSKeyPair::new(&sample_pair());
    assert_eq!(
        w.public,
        "000102030405060708090a0b0c0d0e0f101112131415161718191a1b1c1d1e1f\
         202122232425262728292a2b2c2d2e2f"
    );
    assert_eq!(
        w.secret,
        "6465666768696a6b6c6d6e6f707172737475767778797a7b7c7d7e7f80818283"
    );
}

#[test]
fn record_round_trip_recovers_the_bytes() {
    let pair = sample_pair();
    let text = pair.to_string();
    let (public, secret) = parse_record(&text).unwrap();
    assert_eq!(public, pair.public);
    assert_eq!(secret, pair.secret);
}

#[test]
fn parse_rejects_a_mangled_record() {
    let pair = sample_pair();
    let text = pair.to_string();
    assert!(parse_record(&text[1..]).is_none());
    assert!(parse_record(&text.replace("secret", "sekret")).is_none());
    assert!(parse_record(&text.replace("0a", "0A")).is_none());
    assert!(parse_record("").is_none());
}

#[test]
fn record_is_the_pretty_printed_two_field_form() {
    let pair = sample_pair();
    let w = WrappedBLSKeyPair::new(&pair);
    let expected = format!(
        "{{\n  \"public\": \"{}\",\n  \"secret\": \"{}\"\n}}",
        w.public, w.secret
    );
    assert_eq!(pair.to_string(), expected);
}
