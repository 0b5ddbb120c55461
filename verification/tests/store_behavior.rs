use mercado_session::errors::StorageError;
use mercado_session::store::KvStore;
use mercado_session::store::PersistentStore;
use mercado_session::model::Credential;
use mercado_session::model::Identity;
use mercado_session::model::Profile;
use mercado_session::model::Role;
use mercado_session::model::Session;

#[test]
fn kv_set_get_overwrite() {
    let mut kv = KvStore::new();
    assert!(kv.get(&String::from("a")).is_none());
    kv.set(String::from("a"), String::from("1")).unwrap();
    kv.set(String::from("b"), String::from("2")).unwrap();
    assert_eq!(kv.get(&String::from("a")).unwrap().as_str(), "1");
    assert_eq!(kv.get(&String::from("b")).unwrap().as_str(), "2");
    kv.set(String::from("a"), String::from("3")).unwrap();
    assert_eq!(kv.get(&String::from("a")).unwrap().as_str(), "3");
    assert_eq!(kv.get(&String::from("b")).unwrap().as_str(), "2");
}

#[test]
fn kv_clear_empties() {
    let mut kv = KvStore::new();
    kv.set(String::from("a"), String::from("1")).unwrap();
    kv.clear();
    assert!(kv.get(&String::from("a")).is_none());
}

#[test]
fn kv_write_failure_reports_and_keeps_contents() {
    let mut kv = KvStore::new();
    kv.set(String::from("a"), String::from("1")).unwrap();
    kv.set_write_failure(true);
    assert!(!kv.is_writable());
    let r = kv.set(String::from("a"), String::from("2"));
    assert!(matches!(r, Err(StorageError::WriteFailed)));
    assert_eq!(kv.get(&String::from("a")).unwrap().as_str(), "1");
    kv.set_write_failure(false);
    kv.set(String::from("a"), String::from("2")).unwrap();
    assert_eq!(kv.get(&String::from("a")).unwrap().as_str(), "2");
}

#[test]
fn persistent_store_save_then_load() {
    let mut store = PersistentStore::new();
    let identity = Identity::from_bytes(vec![5u8; 33]).unwrap();
    let session = Session {
        credential: Some(Credential {
            identity: identity.clone(),
            challenge: String::from("nonce"),
            signature: vec![2u8; 64],
        }),
        profile: Some(Profile { identity, role: Role::Root, name: None }),
    };
    store.save(&session).unwrap();
    let back = store.load().unwrap();
    let cred = back.credential.unwrap();
    assert_eq!(cred.challenge, "nonce");
    assert!(matches!(back.profile.unwrap().role, Role::Root));
}

#[test]
fn persistent_store_missing_record_loads_none() {
    let store = PersistentStore::new();
    assert!(store.load().is_none());
}

#[test]
fn persistent_store_corrupt_record_loads_none() {
    let mut store = PersistentStore::new();
    store.kv.set(String::from("session"), String::from("{not a record}")).unwrap();
    assert!(store.load().is_none());
}
