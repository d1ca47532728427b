use moray_records::builder::{build_file_object, build_storage_location, EntropySource};
use moray_records::codec::{decode, encode};
use moray_records::ident::is_uuid_string;

/// A deterministic source: a small linear-congruential generator for the
/// integers and numbered strings for the free text.
struct FixedSource {
    state: u64,
    strings: u64,
}

impl FixedSource {
    fn new(seed: u64) -> FixedSource {
        FixedSource { state: seed, strings: 0 }
    }
}

impl EntropySource for FixedSource {
    fn next_u64(&mut self) -> u64 {
        self.state = self
            .state
            .wrapping_mul(6364136223846793005)
            .wrapping_add(1442695040888963407);
        self.state
    }

    fn next_byte(&mut self) -> u8 {
        (self.next_u64() >> 32) as u8
    }

    fn random_string(&mut self, _len: usize) -> String {
        let n = self.strings;
        self.strings += 1;
        format!("s{}", n)
    }
}

fn storage_id_matches_pattern(id: &str) -> bool {
    let parts: Vec<&str> = id.split('.').collect();
    if parts.len() != 3 {
        return false;
    }
    let digits_ok = !parts[0].is_empty() && parts[0].chars().all(|c| c.is_ascii_digit());
    let token_ok = |t: &str| {
        !t.is_empty()
            && t.chars().all(|c| c.is_ascii_alphanumeric() || c == '-')
    };
    digits_ok && token_ok(parts[1]) && token_ok(parts[2])
}

#[test]
fn generated_identity_fields_are_valid_uuids() {
    let mut g = FixedSource::new(7);
    for _ in 0..8 {
        let obj = build_file_object(&mut g);
        for field in [&obj.owner, &obj.etag, &obj.object_id] {
            assert!(is_uuid_string(field), "not uuid text: {}", field);
            let parsed = uuid::Uuid::parse_str(field).expect("uuid crate must accept it");
            assert_eq!(&parsed.to_string(), field);
        }
    }
}

#[test]
fn generated_storage_ids_match_the_pattern() {
    let mut g = FixedSource::new(99);
    for hint in [0usize, 1, 2, 35, 99] {
        let shark = build_storage_location(&mut g, hint);
        assert!(
            storage_id_matches_pattern(&shark.manta_storage_id),
            "bad id: {}",
            shark.manta_storage_id
        );
    }
    let obj = build_file_object(&mut g);
    assert_eq!(obj.sharks.len(), 2);
    for shark in obj.sharks.iter() {
        assert!(storage_id_matches_pattern(&shark.manta_storage_id));
    }
}

#[test]
fn storage_id_encodes_the_hinted_length() {
    let mut g = FixedSource::new(5);
    for hint in [0usize, 1, 5, 36, 99] {
        let effective = if hint == 0 { 1 } else { hint };
        let shark = build_storage_location(&mut g, hint);
        let parts: Vec<&str> = shark.manta_storage_id.split('.').collect();
        assert_eq!(parts.len(), 3);
        assert_eq!(parts[0], format!("{}", effective));
        assert_eq!(parts[1].chars().count(), effective);
        assert_eq!(parts[2].chars().count(), effective);
    }
}

#[test]
fn content_md5_is_the_digest_of_a_generated_string() {
    let mut g = FixedSource::new(1);
    let obj = build_file_object(&mut g);
    // String draws, in order: three header pairs, key, creator, dirname,
    // name, one role, then the digest datum.
    let expected = base64::encode(&md5::compute("s11").0);
    assert_eq!(obj.content_md5, expected);
    assert_eq!(obj.content_md5.len(), 24);
}

#[test]
fn generated_object_type_is_the_object_literal() {
    let mut g = FixedSource::new(3);
    let obj = build_file_object(&mut g);
    assert_eq!(obj.obj_type, "object");
}

#[test]
fn generated_records_survive_the_codec_round_trip() {
    let mut g = FixedSource::new(42);
    for _ in 0..8 {
        let obj = build_file_object(&mut g);
        let decoded = decode(Some(&encode(&obj))).expect("canonical text must decode");
        assert_eq!(decoded, obj);
    }
}

#[test]
fn uuid_checker_rejects_near_misses() {
    assert!(is_uuid_string("bcf17e83-3d55-4b5e-9df7-ee8b04dd6c83"));
    assert!(!is_uuid_string(""));
    assert!(!is_uuid_string("bcf17e83-3d55-4b5e-9df7-ee8b04dd6c8"));
    assert!(!is_uuid_string("bcf17e83-3d55-4b5e-9df7-ee8b04dd6c834"));
    assert!(!is_uuid_string("BCF17E83-3D55-4B5E-9DF7-EE8B04DD6C83"));
    assert!(!is_uuid_string("bcf17e83x3d55-4b5e-9df7-ee8b04dd6c83"));
}
