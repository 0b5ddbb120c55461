use mercado_session::codec::decode_session;
use mercado_session::codec::encode_session;
use mercado_session::model::Credential;
use mercado_session::model::Identity;
use mercado_session::model::Profile;
use mercado_session::model::Role;
use mercado_session::model::Session;

fn sample_session() -> Session {
    let identity = Identity::from_bytes(vec![7u8; 33]).unwrap();
    let credential = Credential {
        identity: identity.clone(),
        challenge: String::from("c1"),
        signature: vec![9u8; 64],
    };
    let profile = Profile {
        identity,
        role: Role::User,
        name: Some(String::from("alice")),
    };
    Session { credential: Some(credential), profile: Some(profile) }
}

#[test]
fn roundtrip_logged_out() {
    let s = Session::logged_out();
    let text = encode_session(&s);
    let back = decode_session(text.as_str()).unwrap();
    assert!(back.credential.is_none());
    assert!(back.profile.is_none());
}

#[test]
fn roundtrip_full_session() {
    let s = sample_session();
    let text = encode_session(&s);
    let back = decode_session(text.as_str()).unwrap();
    let cred = back.credential.unwrap();
    assert_eq!(cred.identity.as_bytes(), &vec![7u8; 33]);
    assert_eq!(cred.challenge, "c1");
    assert_eq!(cred.signature, vec![9u8; 64]);
    let prof = back.profile.unwrap();
    assert_eq!(prof.identity.as_bytes(), &vec![7u8; 33]);
    assert!(matches!(prof.role, Role::User));
    assert_eq!(prof.name.as_deref(), Some("alice"));
}

#[test]
fn roundtrip_credential_only() {
    let identity = Identity::from_bytes(vec![3u8; 33]).unwrap();
    let s = Session {
        credential: Some(Credential {
            identity,
            challenge: String::from(""),
            signature: vec![0u8; 64],
        }),
        profile: None,
    };
    let text = encode_session(&s);
    let back = decode_session(text.as_str()).unwrap();
    let cred = back.credential.unwrap();
    assert_eq!(cred.challenge, "");
    assert_eq!(cred.signature.len(), 64);
    assert!(back.profile.is_none());
}

#[test]
fn roundtrip_profile_without_name() {
    let identity = Identity::from_bytes(vec![4u8; 33]).unwrap();
    let s = Session {
        credential: Some(Credential {
            identity: identity.clone(),
            challenge: String::from("x"),
            signature: vec![1u8; 64],
        }),
        profile: Some(Profile { identity, role: Role::Admin, name: None }),
    };
    let text = encode_session(&s);
    let back = decode_session(text.as_str()).unwrap();
    let prof = back.profile.unwrap();
    assert!(matches!(prof.role, Role::Admin));
    assert!(prof.name.is_none());
}

#[test]
fn decode_garbage_is_none() {
    assert!(decode_session("this is no session record").is_none());
    assert!(decode_session("").is_none());
    assert!(decode_session("Z").is_none());
}

#[test]
fn decode_rejects_trailing_content() {
    let s = Session::logged_out();
    let mut text = encode_session(&s);
    assert!(decode_session(text.as_str()).is_some());
    text.push('x');
    assert!(decode_session(text.as_str()).is_none());
}

#[test]
fn encoding_is_not_the_input_text() {
    let s = sample_session();
    let text = encode_session(&s);
    assert_ne!(text, "c1");
    assert!(text.starts_with('C'));
}
