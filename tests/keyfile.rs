use cosmoline::{KeyFileError, Keypair, PublicKey, SecretKey};

fn pair(seed: u8) -> (Vec<u8>, Vec<u8>) {
    let secret = ed25519_dalek::SecretKey::from_bytes(&[seed; 32]).unwrap();
    let public: ed25519_dalek::PublicKey = (&secret).into();
    (secret.to_bytes().to_vec(), public.to_bytes().to_vec())
}

fn keypair(seed: u8) -> Keypair {
    let (s, p) = pair(seed);
    Keypair {
        public: PublicKey::from_bytes(&p).unwrap(),
        secret: SecretKey::from_bytes(&s).unwrap(),
    }
}

#[test]
fn fields_have_suffix_and_id() {
    let (s, p) = pair(3);
    let f = keypair(3).to_fields();
    let pb = base64::encode(&p);
    let both: Vec<u8> = s.iter().chain(p.iter()).cloned().collect();
    assert_eq!(f.curve, "ed25519");
    assert_eq!(f.public, format!("{}.ed25519", pb));
    assert_eq!(f.private, format!("{}.ed25519", base64::encode(both)));
    assert_eq!(f.id, format!("@{}.ed25519", pb));
}

#[test]
fn fields_read_back() {
    let kp = keypair(4);
    let f = kp.to_fields();
    let back = Keypair::from_fields(Some(&f.curve), Some(&f.public), Some(&f.private)).unwrap();
    assert_eq!(back.public, kp.public);
    assert_eq!(back.secret.to_bytes(), kp.secret.to_bytes());
}

#[test]
fn field_errors() {
    let f = keypair(5).to_fields();
    assert_eq!(
        Keypair::from_fields(None, Some(&f.public), Some(&f.private)).unwrap_err(),
        KeyFileError::MissingField
    );
    assert_eq!(
        Keypair::from_fields(Some("curve25519"), Some(&f.public), Some(&f.private)).unwrap_err(),
        KeyFileError::WrongCurve
    );
    let no_suffix = f.public.trim_end_matches(".ed25519").to_string();
    assert_eq!(
        Keypair::from_fields(Some(&f.curve), Some(&no_suffix), Some(&f.private)).unwrap_err(),
        KeyFileError::BadPublic
    );
    let short = format!("{}.ed25519", base64::encode([1u8; 8]));
    assert_eq!(
        Keypair::from_fields(Some(&f.curve), Some(&f.public), Some(&short)).unwrap_err(),
        KeyFileError::BadPrivate
    );
}

#[test]
fn secret_key_needs_thirty_two_bytes() {
    assert!(SecretKey::from_bytes(&[0u8; 31]).is_none());
    assert_eq!(SecretKey::from_bytes(&[9u8; 32]).unwrap().to_bytes(), vec![9u8; 32]);
}

#[test]
fn json_object_holds_fields() {
    let kp = keypair(6);
    let f = kp.to_fields();
    let obj = kp.to_json();
    assert_eq!(obj["curve"].as_str(), Some("ed25519"));
    assert_eq!(obj["public"].as_str(), Some(f.public.as_str()));
    assert_eq!(obj["private"].as_str(), Some(f.private.as_str()));
    assert_eq!(obj["id"].as_str(), Some(f.id.as_str()));
    let back = Keypair::from_json(&obj).unwrap();
    assert_eq!(back.public, kp.public);
}

#[test]
fn key_file_with_comments_reads_back() {
    let kp = keypair(7);
    let text = format!(
        "# WARNING: keep this secret\n#\n{}\n\n# Your id: {}\n",
        kp.to_json().pretty(2),
        kp.to_fields().id
    );
    let back = Keypair::from_key_file(&text).unwrap();
    assert_eq!(back.public, kp.public);
    assert_eq!(back.secret.to_bytes(), kp.secret.to_bytes());
}

#[test]
fn key_file_that_is_no_json() {
    assert_eq!(Keypair::from_key_file("{ not json").unwrap_err(), KeyFileError::NotJson);
    assert_eq!(
        Keypair::from_key_file("{\"curve\": \"ed25519\"} # no keys").unwrap_err(),
        KeyFileError::MissingField
    );
}

#[test]
fn key_file_with_wrong_curve() {
    let f = keypair(8).to_fields();
    let text = format!(
        "# comment\n{{\"curve\": \"curve25519\", \"public\": \"{}\", \"private\": \"{}\"}}\n",
        f.public, f.private
    );
    assert_eq!(Keypair::from_key_file(&text).unwrap_err(), KeyFileError::WrongCurve);
}

#[test]
fn json_object_with_non_string_member() {
    let kp = keypair(9);
    let mut obj = kp.to_json();
    obj["public"] = json::JsonValue::from(7);
    assert_eq!(Keypair::from_json(&obj).unwrap_err(), KeyFileError::MissingField);
}
