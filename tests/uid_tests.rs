use dicom_uid::uuid::Uuid;
use dicom_uid::{gen_uid, gen_uid_to, new_uid, new_uid_to, uid_from_u128, UuidBytes};

fn bytes_of(u: &Uuid) -> UuidBytes {
    UuidBytes::from_bytes(*u.as_bytes())
}

#[test]
fn base_test() {
    for _ in 0..16 {
        let uid = gen_uid();
        assert!(uid.starts_with("2.25."));
        assert!(
            uid.len() > 8,
            "expected more than 8 characters, but UID {} is {} characters long",
            uid,
            uid.len()
        );
        assert!(
            uid.len() <= 44,
            "expected less than 40 characters, but UID {} is {} characters long",
            uid,
            uid.len()
        );

        for c in uid.chars() {
            assert!(c == '.' || ('0'..='9').contains(&c));
        }
    }
}

#[test]
fn new_uid_consistency() {
    let uuid = Uuid::new_v4();

    let uid = new_uid(bytes_of(&uuid));
    assert!(uid.starts_with("2.25."));
    assert!(
        uid.len() > 8,
        "expected more than 8 characters, but UID {} is {} characters long",
        uid,
        uid.len()
    );
    assert!(
        uid.len() <= 44,
        "expected less than 44 characters, but UID {} is {} characters long",
        uid,
        uid.len()
    );

    for c in uid.chars() {
        assert!(c == '.' || ('0'..='9').contains(&c));
    }

    let uid2 = new_uid(bytes_of(&uuid));

    assert_eq!(
        uid, uid2,
        "UIDs obtained from the same UUID should be equal"
    );
}

#[test]
fn test_write_to() {
    let mut out = vec![];

    gen_uid_to(&mut out);

    let uid = std::str::from_utf8(&out).expect("output should be valid UTF-8");

    let len = out.len();
    assert_eq!(
        len,
        uid.len(),
        "byte length should be equivalent to string length"
    );

    assert!(
        len > 8,
        "expected more than 8 characters, but UID {} is {} characters long",
        uid,
        len
    );
    assert!(
        uid.len() <= 44,
        "expected less than 44 characters, but UID {} is {} characters long",
        uid,
        uid.len()
    );

    for c in &out {
        assert!(*c == b'.' || (b'0'..=b'9').contains(c));
    }

    gen_uid_to(&mut out);
    assert!(out.len() > len);
}

#[test]
fn zero_value_twice_gives_same_uid() {
    let zero = UuidBytes::from_bytes([0u8; 16]);
    assert_eq!(new_uid(zero), "2.25.0");
    assert_eq!(new_uid(zero), "2.25.0");
    assert_eq!(uid_from_u128(0), "2.25.0");
}

#[test]
fn value_one_has_no_leading_zero() {
    let mut b = [0u8; 16];
    b[0] = 0x01;
    assert_eq!(new_uid(UuidBytes::from_bytes(b)), "2.25.1");
}

#[test]
fn bytes_are_read_little_endian() {
    let mut b = [0u8; 16];
    b[1] = 0x01;
    assert_eq!(new_uid(UuidBytes::from_bytes(b)), "2.25.256");
    let mut c = [0u8; 16];
    c[15] = 0x01;
    assert_eq!(
        new_uid(UuidBytes::from_bytes(c)),
        "2.25.1329227995784915872903807060280344576"
    );
}

#[test]
fn max_value_uid() {
    let uid = new_uid(UuidBytes::from_bytes([0xffu8; 16]));
    assert_eq!(uid, "2.25.340282366920938463463374607431768211455");
    assert_eq!(uid.len(), 44);
    assert_eq!(uid_from_u128(u128::MAX), uid);
}

#[test]
fn uid_matches_uuid_le_value() {
    let uuid = Uuid::new_v4();
    let expected = format!("2.25.{}", uuid.to_u128_le());
    assert_eq!(new_uid(bytes_of(&uuid)), expected);
}

#[test]
fn sink_bytes_decode_to_string() {
    for b in [[0u8; 16], [0xffu8; 16], [0x12u8; 16]] {
        let u = UuidBytes::from_bytes(b);
        let mut out: Vec<u8> = vec![b'x'];
        new_uid_to(u, &mut out);
        assert_eq!(out[0], b'x');
        let text = std::str::from_utf8(&out[1..]).unwrap();
        assert_eq!(text, new_uid(u));
    }
}

#[test]
fn sixteen_generated_uids_are_distinct() {
    let mut seen: Vec<String> = Vec::new();
    for _ in 0..16 {
        let uid = gen_uid();
        assert!(!seen.contains(&uid));
        seen.push(uid);
    }
}

#[test]
fn sink_grows_on_each_call() {
    let mut out: Vec<u8> = Vec::new();
    let mut last = 0usize;
    for _ in 0..5 {
        gen_uid_to(&mut out);
        assert!(out.len() > last);
        let added = out.len() - last;
        assert!(added >= 9 && added <= 44);
        last = out.len();
    }
}

#[test]
fn generated_uid_carries_version_bits() {
    let uid = gen_uid();
    let digits = &uid[5..];
    let value: u128 = digits.parse().unwrap();
    let bytes = value.to_le_bytes();
    assert_eq!(bytes[6] & 0xf0, 0x40);
    assert_eq!(bytes[8] & 0xc0, 0x80);
}
