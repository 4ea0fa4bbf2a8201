use ed25519_dalek::{Keypair, PublicKey, SecretKey, Signer};
use license_parser::calendar::expiration_and_warn;
use license_parser::{
    check_signature, decode, derive_record, public_key_from_hex, type_string, validate_license, validate_license_res,
    LicenseData, LicenseError, LicensePayload, LicenseType,
};

fn keypair(seed: u8) -> Keypair {
    let secret = SecretKey::from_bytes(&[seed; 32]).unwrap();
    let public = PublicKey::from(&secret);
    Keypair { secret, public }
}

fn plan_digit(t: LicenseType) -> char {
    match t {
        LicenseType::Basic => '0',
        LicenseType::Pro => '1',
        LicenseType::ChinaBasic => '2',
        LicenseType::ChinaPro => '3',
        LicenseType::Business => '4',
    }
}

#[allow(clippy::too_many_arguments)]
fn message(
    plan: LicenseType,
    user_id: u32,
    year: u16,
    month: u8,
    day: u8,
    perpetual: bool,
    trial: bool,
    computer_id: &str,
) -> String {
    format!(
        "v3|{}|{:010}|{:04}|{:02}|{:02}|{}|{}|{}",
        plan_digit(plan),
        user_id,
        year,
        month,
        day,
        if perpetual { 1 } else { 0 },
        if trial { 1 } else { 0 },
        computer_id
    )
}

fn hex(bytes: &[u8]) -> String {
    bytes.iter().map(|b| format!("{:02x}", b)).collect()
}

fn sign(kp: &Keypair, msg: &str) -> String {
    let sig = kp.sign(msg.as_bytes());
    format!("{}|{}", msg, hex(&sig.to_bytes()))
}

fn public_bytes(kp: &Keypair) -> Vec<u8> {
    kp.public.to_bytes().to_vec()
}

fn assert_invalid_record(r: &LicenseData) {
    assert_eq!(r.license_type, "");
    assert_eq!(r.expiration, "");
    assert_eq!(r.warn, "");
    assert_eq!(r.user_id, 0);
    assert!(!r.perpetual);
    assert!(!r.trial);
    assert!(!r.valid);
    assert_eq!(r.computer_id, "");
}

#[test]
fn pro_license_for_machine_one() {
    let kp = keypair(7);
    let msg = message(LicenseType::Pro, 42, 2030, 6, 15, false, false, "MACHINE-1");
    let token = sign(&kp, &msg);
    let r = validate_license(&token, &public_bytes(&kp));
    assert_eq!(r.license_type, "pro");
    assert_eq!(r.user_id, 42);
    assert!(!r.perpetual);
    assert!(!r.trial);
    assert_eq!(r.computer_id, "MACHINE-1");
    assert!(r.valid);
    assert_eq!(r.expiration, "1907712000");
    assert_eq!(r.warn, "1905120000");
}

#[test]
fn round_trip_keeps_every_field() {
    let kp = keypair(3);
    let plans = [
        LicenseType::Basic,
        LicenseType::Pro,
        LicenseType::ChinaBasic,
        LicenseType::ChinaPro,
        LicenseType::Business,
    ];
    for (i, plan) in plans.iter().enumerate() {
        let perpetual = i % 2 == 0;
        let trial = i % 3 == 0;
        let user = 4294967295u32 - i as u32;
        let cid = if i == 2 { String::new() } else { format!("host-{}", i) };
        let msg = message(*plan, user, 2025, 12, 31, perpetual, trial, &cid);
        let token = sign(&kp, &msg);
        let r = validate_license(&token, &public_bytes(&kp));
        assert!(r.valid);
        assert_eq!(r.license_type, type_string(*plan));
        assert_eq!(r.user_id, user);
        assert_eq!(r.perpetual, perpetual);
        assert_eq!(r.trial, trial);
        assert_eq!(r.computer_id, cid);
        assert_eq!(r.expiration, "1767139200");
    }
}

#[test]
fn decode_reads_fields_and_signed_bytes() {
    let kp = keypair(9);
    let msg = message(LicenseType::ChinaPro, 1234567, 2031, 1, 2, true, false, "box");
    let token = sign(&kp, &msg);
    let sl = decode(&token).unwrap();
    assert_eq!(sl.license.license_type, LicenseType::ChinaPro);
    assert_eq!(sl.license.user_id, 1234567);
    assert_eq!(sl.license.expiration_year, 2031);
    assert_eq!(sl.license.expiration_month, 1);
    assert_eq!(sl.license.expiration_day, 2);
    assert!(sl.license.perpetual);
    assert!(!sl.license.trial);
    assert_eq!(sl.license.computer_id, Some("box".to_string()));
    assert_eq!(sl.message, msg.as_bytes().to_vec());
    assert_eq!(sl.signature, kp.sign(msg.as_bytes()).to_bytes().to_vec());
}

#[test]
fn unbound_license_has_no_computer_id() {
    let kp = keypair(9);
    let msg = message(LicenseType::Basic, 1, 2031, 1, 2, false, true, "");
    let sl = decode(&sign(&kp, &msg)).unwrap();
    assert_eq!(sl.license.computer_id, None);
    let r = validate_license(&sign(&kp, &msg), &public_bytes(&kp));
    assert_eq!(r.computer_id, "");
    assert!(r.trial);
    assert!(r.valid);
}

#[test]
fn tampered_signature_is_not_valid() {
    let kp = keypair(5);
    let msg = message(LicenseType::Business, 99, 2030, 6, 15, false, false, "M");
    let token = sign(&kp, &msg);
    let key = public_bytes(&kp);
    let start = token.len() - 128;
    for pos in start..token.len() {
        let mut bytes = token.clone().into_bytes();
        bytes[pos] = if bytes[pos] == b'0' { b'1' } else { b'0' };
        let forged = String::from_utf8(bytes).unwrap();
        let r = validate_license(&forged, &key);
        assert!(!r.valid, "accepted a forged signature at {}", pos);
    }
}

#[test]
fn tampered_payload_is_not_valid() {
    let kp = keypair(5);
    let msg = message(LicenseType::Basic, 99, 2030, 6, 15, false, false, "M");
    let token = sign(&kp, &msg);
    let key = public_bytes(&kp);
    for pos in 0..msg.len() {
        for replacement in [b'0', b'1', b'2', b'|', b'x'] {
            let mut bytes = token.clone().into_bytes();
            if bytes[pos] == replacement {
                continue;
            }
            bytes[pos] = replacement;
            let forged = String::from_utf8(bytes).unwrap();
            let r = validate_license(&forged, &key);
            assert!(!r.valid, "accepted a forged payload at {}", pos);
        }
    }
}

#[test]
fn wrong_key_gives_populated_invalid_record() {
    let signer = keypair(5);
    let other = keypair(6);
    let msg = message(LicenseType::Pro, 42, 2030, 6, 15, false, true, "MACHINE-1");
    let token = sign(&signer, &msg);
    let r = validate_license(&token, &public_bytes(&other));
    assert!(!r.valid);
    assert_eq!(r.license_type, "pro");
    assert_eq!(r.user_id, 42);
    assert!(r.trial);
    assert_eq!(r.computer_id, "MACHINE-1");
    assert_eq!(r.expiration, "1907712000");
    assert_eq!(r.warn, "1905120000");
    let sl = decode(&token).unwrap();
    assert_eq!(check_signature(&public_bytes(&other), &sl), Err(LicenseError::SignatureMismatch));
    assert_eq!(check_signature(&public_bytes(&signer), &sl), Ok(()));
}

#[test]
fn warn_is_thirty_days_before_expiration() {
    let kp = keypair(1);
    for (y, m, d) in [(1970u16, 1u8, 1u8), (1960, 1, 1), (2000, 2, 29), (2030, 6, 15), (9999, 12, 31)] {
        let msg = message(LicenseType::Basic, 0, y, m, d, false, false, "");
        let r = validate_license(&sign(&kp, &msg), &public_bytes(&kp));
        let e: i64 = r.expiration.parse().unwrap();
        let w: i64 = r.warn.parse().unwrap();
        assert_eq!(e - w, 2592000);
    }
    let r = validate_license("", &public_bytes(&kp));
    assert_eq!(r.expiration, "");
    assert_eq!(r.warn, "");
}

#[test]
fn timestamps_before_the_epoch() {
    let kp = keypair(1);
    let msg = message(LicenseType::Basic, 0, 1960, 1, 1, false, false, "");
    let r = validate_license(&sign(&kp, &msg), &public_bytes(&kp));
    assert_eq!(r.expiration, "-315619200");
    assert_eq!(r.warn, "-318211200");
    let msg = message(LicenseType::Basic, 0, 0, 1, 1, false, false, "");
    let r = validate_license(&sign(&kp, &msg), &public_bytes(&kp));
    assert_eq!(r.expiration, "-62167219200");
    assert!(r.valid);
}

#[test]
fn epoch_and_leap_days() {
    assert_eq!(expiration_and_warn(1970, 1, 1), Some((0, -2592000)));
    assert_eq!(expiration_and_warn(2000, 2, 29), Some((951782400, 951782400 - 2592000)));
    assert_eq!(expiration_and_warn(2024, 2, 29), Some((1709164800, 1709164800 - 2592000)));
    assert_eq!(expiration_and_warn(2023, 2, 29), None);
    assert_eq!(expiration_and_warn(1900, 2, 29), None);
    assert_eq!(expiration_and_warn(2030, 13, 1), None);
    assert_eq!(expiration_and_warn(2030, 4, 31), None);
    assert_eq!(expiration_and_warn(2030, 0, 1), None);
    assert_eq!(expiration_and_warn(2030, 1, 0), None);
}

#[test]
fn plan_codes_are_distinct_and_stable() {
    let plans = [
        (LicenseType::Basic, "basic"),
        (LicenseType::Pro, "pro"),
        (LicenseType::ChinaBasic, "basic_china"),
        (LicenseType::ChinaPro, "pro_china"),
        (LicenseType::Business, "business"),
    ];
    for (plan, code) in plans.iter() {
        assert_eq!(type_string(*plan), *code);
        assert!(!code.is_empty());
    }
    for i in 0..plans.len() {
        for j in 0..plans.len() {
            assert_eq!(type_string(plans[i].0) == type_string(plans[j].0), i == j);
        }
    }
}

#[test]
fn garbage_gives_the_invalid_record() {
    let kp = keypair(2);
    let key = public_bytes(&kp);
    let msg = message(LicenseType::Pro, 42, 2030, 6, 15, false, false, "MACHINE-1");
    let token = sign(&kp, &msg);
    let truncated = &token[..token.len() - 1];
    for input in ["", "garbage", "v3|", "v3|1|0000000042|2030|06|15|0|0|MACHINE-1|", truncated] {
        assert_invalid_record(&validate_license(input, &key));
        assert_eq!(validate_license_res(input, &key).err(), Some(LicenseError::MalformedToken));
    }
    let long = format!("{}0", token);
    assert_invalid_record(&validate_license(&long, &key));
    let non_ascii = "é".repeat(100);
    assert_invalid_record(&validate_license(&non_ascii, &key));
}

#[test]
fn invalid_date_gives_the_invalid_record() {
    let kp = keypair(2);
    let key = public_bytes(&kp);
    for (m, d) in [(13u8, 1u8), (2, 30), (0, 10), (6, 0), (99, 99)] {
        let msg = message(LicenseType::Pro, 42, 2030, m, d, false, false, "X");
        let token = sign(&kp, &msg);
        assert_invalid_record(&validate_license(&token, &key));
        assert_eq!(validate_license_res(&token, &key).err(), Some(LicenseError::InvalidCalendarDate));
    }
}

#[test]
fn bad_key_gives_the_invalid_record() {
    let kp = keypair(2);
    let msg = message(LicenseType::Pro, 42, 2030, 6, 15, false, false, "X");
    let token = sign(&kp, &msg);
    let short = vec![1u8; 31];
    assert_invalid_record(&validate_license(&token, &short));
    assert_eq!(validate_license_res(&token, &short).err(), Some(LicenseError::KeyLoadFault));
    assert_eq!(validate_license_res(&token, &[]).err(), Some(LicenseError::KeyLoadFault));
}

#[test]
fn malformed_fields_are_rejected() {
    let kp = keypair(4);
    let key = public_bytes(&kp);
    let good = sign(&kp, &message(LicenseType::Pro, 42, 2030, 6, 15, false, false, "X"));
    assert!(validate_license_res(&good, &key).is_ok());
    let cases = [
        good.replacen("v3|", "v2|", 1),
        good.replacen("v3|1|", "v3|5|", 1),
        good.replacen("|0000000042|", "|00000000x2|", 1),
        good.replacen("|0|0|X|", "|2|0|X|", 1),
        good.replacen("|0|0|X|", "|0|y|X|", 1),
        sign(&kp, "v3|1|4294967296|2030|06|15|0|0|X"),
        sign(&kp, "v3|1|42|2030|06|15|0|0|X"),
        sign(&kp, "v3|1|0000000042|2030|6|15|0|0|X"),
    ];
    for t in cases.iter() {
        assert_eq!(validate_license_res(t, &key).err(), Some(LicenseError::MalformedToken), "{}", t);
    }
    let upper = format!("{}{}", &good[..good.len() - 128], good[good.len() - 128..].to_uppercase());
    if upper != good {
        assert_eq!(validate_license_res(&upper, &key).err(), Some(LicenseError::MalformedToken));
    }
    let mut sig = kp.sign(b"v3|1|0000000042|2030|06|15|0|0|X").to_bytes();
    sig[63] |= 0b1110_0000;
    let unreduced = format!("v3|1|0000000042|2030|06|15|0|0|X|{}", hex(&sig));
    assert_eq!(validate_license_res(&unreduced, &key).err(), Some(LicenseError::MalformedToken));
    let max_user = sign(&kp, "v3|1|4294967295|2030|06|15|0|0|X");
    assert_eq!(validate_license(&max_user, &key).user_id, 4294967295);
}

#[test]
fn derive_copies_facts_and_verdict() {
    let payload = LicensePayload {
        license_type: LicenseType::ChinaBasic,
        user_id: 7,
        expiration_year: 2030,
        expiration_month: 6,
        expiration_day: 15,
        perpetual: true,
        trial: false,
        computer_id: None,
    };
    let d = derive_record(&payload, false).unwrap();
    assert_eq!(d.license_type, "basic_china");
    assert_eq!(d.expiration, "1907712000");
    assert_eq!(d.warn, "1905120000");
    assert_eq!(d.user_id, 7);
    assert!(d.perpetual);
    assert!(!d.valid);
    assert_eq!(d.computer_id, "");
    assert!(derive_record(&payload, true).unwrap().valid);
    let bad = LicensePayload { expiration_month: 2, expiration_day: 31, ..payload };
    assert_eq!(derive_record(&bad, true).err(), Some(LicenseError::InvalidCalendarDate));
}

#[test]
fn delimiter_in_computer_id_is_rejected() {
    let kp = keypair(8);
    let key = public_bytes(&kp);
    let cid = format!("X|{}", "0".repeat(128));
    let msg = message(LicenseType::Pro, 42, 2030, 6, 15, false, false, &cid);
    let token = sign(&kp, &msg);
    assert_invalid_record(&validate_license(&token, &key));
    assert_eq!(validate_license_res(&token, &key).err(), Some(LicenseError::MalformedToken));
    let shorter = &token[..161];
    let r = validate_license(shorter, &key);
    assert!(!r.valid);
    assert_eq!(r.computer_id, "X");
}

#[test]
fn every_truncation_gives_the_invalid_record() {
    let kp = keypair(8);
    let key = public_bytes(&kp);
    let msg = message(LicenseType::Pro, 42, 2030, 6, 15, false, false, "MACHINE-1");
    let token = sign(&kp, &msg);
    assert!(validate_license(&token, &key).valid);
    for k in 0..token.len() {
        assert_invalid_record(&validate_license(&token[..k], &key));
    }
}

#[test]
fn public_key_reads_from_hex() {
    let kp = keypair(8);
    let bytes = public_bytes(&kp);
    assert_eq!(public_key_from_hex(&hex(&bytes)), Some(bytes.clone()));
    assert_eq!(public_key_from_hex("00ff"), None);
    assert_eq!(public_key_from_hex(&"G".repeat(64)), None);
    assert_eq!(public_key_from_hex(&hex(&bytes).to_uppercase()).is_some(), hex(&bytes).to_uppercase() == hex(&bytes));
    let mut expected = vec![0u8; 32];
    expected[0] = 0xab;
    expected[31] = 0x01;
    let text = format!("ab{}01", "0".repeat(60));
    assert_eq!(public_key_from_hex(&text), Some(expected));
}
