use mercado_session::model::Identity;

fn identity(bytes: Vec<u8>) -> Identity {
    Identity::from_bytes(bytes).unwrap()
}

#[test]
fn identities_compare_lexicographically() {
    let a = identity(vec![1u8; 33]);
    let b = identity(vec![2u8; 33]);
    assert!(a.lt(&b));
    assert!(!b.lt(&a));
    assert!(!a.lt(&a));
    let mut close = vec![1u8; 33];
    close[32] = 2;
    let c = identity(close);
    assert!(a.lt(&c));
    assert!(!c.lt(&a));
}

#[test]
fn identity_equality_is_by_bytes() {
    let a = identity(vec![1u8; 33]);
    let b = identity(vec![1u8; 33]);
    let c = identity(vec![9u8; 33]);
    assert!(a == b);
    assert!(a != c);
}
