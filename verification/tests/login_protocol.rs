use mercado_session::errors::AuthError;
use mercado_session::keys::parse_identity;
use mercado_session::keys::parse_signature;
use mercado_session::login::LoginProtocol;
use mercado_session::model::Profile;
use mercado_session::model::Role;
use mercado_session::session::SessionCell;
use mercado_session::store::PersistentStore;

fn secret_key(seed: u8) -> secp256k1::SecretKey {
    secp256k1::SecretKey::from_byte_array([seed; 32]).unwrap()
}

fn identity_text(seed: u8) -> String {
    secp256k1::PublicKey::from_secret_key(&secret_key(seed)).to_string()
}

fn signature_text(seed: u8) -> String {
    let sig = secp256k1::ecdsa::sign(secp256k1::Message::from_digest([1u8; 32]), &secret_key(seed));
    sig.to_string()
}

#[test]
fn replayed_challenge_is_rejected() {
    let ktext = identity_text(1);
    let sigtext = signature_text(1);
    let mut protocol = LoginProtocol::new();
    let claimed = protocol.request_challenge(ktext.as_str()).unwrap();
    protocol.challenge_issued(String::from("c1"));
    let credential = protocol.complete(ktext.as_str(), sigtext.as_str(), &String::from("c1")).unwrap();
    protocol.verify_outcome(true);
    protocol.profile_resolved();
    let mut store = PersistentStore::new();
    let mut session = SessionCell::bootstrap(&store);
    let profile = Profile { identity: claimed, role: Role::User, name: None };
    session.commit(&mut store, credential, profile).unwrap();
    assert!(matches!(session.current().profile.as_ref().unwrap().role, Role::User));
    let replay = protocol.complete(ktext.as_str(), sigtext.as_str(), &String::from("c1"));
    assert!(matches!(replay, Err(AuthError::Rejected)));
}

#[test]
fn consumed_challenge_is_rejected_even_after_new_issue() {
    let ktext = identity_text(1);
    let sigtext = signature_text(1);
    let mut protocol = LoginProtocol::new();
    protocol.request_challenge(ktext.as_str()).unwrap();
    protocol.challenge_issued(String::from("c1"));
    protocol.complete(ktext.as_str(), sigtext.as_str(), &String::from("c1")).unwrap();
    protocol.verify_outcome(false);
    protocol.request_challenge(ktext.as_str()).unwrap();
    protocol.challenge_issued(String::from("c1"));
    let again = protocol.complete(ktext.as_str(), sigtext.as_str(), &String::from("c1"));
    assert!(matches!(again, Err(AuthError::Rejected)));
}

#[test]
fn malformed_identity_text_never_reaches_the_server() {
    let mut protocol = LoginProtocol::new();
    let r = protocol.request_challenge("not a public key");
    assert!(matches!(r, Err(AuthError::MalformedInput)));
}

#[test]
fn malformed_signature_text_never_reaches_the_server() {
    let ktext = identity_text(1);
    let mut protocol = LoginProtocol::new();
    protocol.request_challenge(ktext.as_str()).unwrap();
    protocol.challenge_issued(String::from("c1"));
    let r = protocol.complete(ktext.as_str(), "junk signature", &String::from("c1"));
    assert!(matches!(r, Err(AuthError::MalformedInput)));
}

#[test]
fn wrong_challenge_is_rejected() {
    let ktext = identity_text(1);
    let sigtext = signature_text(1);
    let mut protocol = LoginProtocol::new();
    protocol.request_challenge(ktext.as_str()).unwrap();
    protocol.challenge_issued(String::from("c1"));
    let r = protocol.complete(ktext.as_str(), sigtext.as_str(), &String::from("c2"));
    assert!(matches!(r, Err(AuthError::Rejected)));
}

#[test]
fn other_identity_than_claimed_is_rejected() {
    let ktext = identity_text(1);
    let other = identity_text(2);
    let sigtext = signature_text(2);
    let mut protocol = LoginProtocol::new();
    protocol.request_challenge(ktext.as_str()).unwrap();
    protocol.challenge_issued(String::from("c1"));
    let r = protocol.complete(other.as_str(), sigtext.as_str(), &String::from("c1"));
    assert!(matches!(r, Err(AuthError::Rejected)));
}

#[test]
fn completion_without_any_challenge_is_rejected() {
    let ktext = identity_text(1);
    let sigtext = signature_text(1);
    let mut protocol = LoginProtocol::new();
    protocol.request_challenge(ktext.as_str()).unwrap();
    let r = protocol.complete(ktext.as_str(), sigtext.as_str(), &String::from("c1"));
    assert!(matches!(r, Err(AuthError::Rejected)));
}

#[test]
fn parse_identity_yields_the_serialized_key() {
    let key = secp256k1::PublicKey::from_secret_key(&secret_key(3));
    let parsed = parse_identity(key.to_string().as_str()).unwrap();
    assert_eq!(parsed.as_bytes(), &key.serialize().to_vec());
    assert!(matches!(parse_identity("zz"), Err(AuthError::MalformedInput)));
}

#[test]
fn parse_signature_yields_the_compact_form() {
    let sig = secp256k1::ecdsa::sign(secp256k1::Message::from_digest([5u8; 32]), &secret_key(3));
    let parsed = parse_signature(sig.to_string().as_str()).unwrap();
    assert_eq!(parsed, sig.serialize_compact().to_vec());
    assert!(matches!(parse_signature("nope"), Err(AuthError::MalformedInput)));
}

#[test]
fn credential_carries_the_submitted_triple() {
    let ktext = identity_text(1);
    let sigtext = signature_text(1);
    let mut protocol = LoginProtocol::new();
    protocol.request_challenge(ktext.as_str()).unwrap();
    protocol.challenge_issued(String::from("c9"));
    let credential = protocol.complete(ktext.as_str(), sigtext.as_str(), &String::from("c9")).unwrap();
    let key = secp256k1::PublicKey::from_secret_key(&secret_key(1));
    assert_eq!(credential.identity.as_bytes(), &key.serialize().to_vec());
    assert_eq!(credential.challenge, "c9");
    let sig = secp256k1::ecdsa::sign(secp256k1::Message::from_digest([1u8; 32]), &secret_key(1));
    assert_eq!(credential.signature, sig.serialize_compact().to_vec());
}
