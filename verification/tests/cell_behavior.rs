use mercado_session::cell::CellState;
use mercado_session::cell::RefreshToken;
use mercado_session::cell::ResourceCell;

#[test]
fn cell_resolves_and_memoizes() {
    let (mut cell, ticket) = ResourceCell::<(u64, bool), u64>::new((7, false));
    assert!(matches!(cell.read(), CellState::Pending));
    assert!(cell.apply(ticket, Ok(42)));
    assert!(matches!(cell.read(), CellState::Ready(42)));
    assert!(matches!(cell.read(), CellState::Ready(42)));
    let again = cell.set_key((7, false));
    assert!(again.is_none());
    assert!(matches!(cell.read(), CellState::Ready(42)));
}

#[test]
fn refresh_toggle_refetches_with_same_semantic_key() {
    let mut refresh = RefreshToken::new();
    let (mut cell, ticket) = ResourceCell::<(u64, bool), u64>::new((7, refresh.value()));
    assert!(cell.apply(ticket, Ok(42)));
    assert!(matches!(cell.read(), CellState::Ready(42)));
    refresh.toggle();
    let ticket2 = cell.set_key((7, refresh.value())).unwrap();
    assert!(matches!(cell.read(), CellState::Pending));
    assert!(cell.apply(ticket2, Ok(43)));
    assert!(matches!(cell.read(), CellState::Ready(43)));
}

#[test]
fn superseded_result_is_dropped_whole() {
    let (mut cell, ticket_old) = ResourceCell::<u64, u64>::new(1);
    let ticket_new = cell.set_key(2).unwrap();
    assert!(!cell.apply(ticket_old, Ok(1111)));
    assert!(matches!(cell.read(), CellState::Pending));
    assert!(cell.apply(ticket_new, Ok(2222)));
    assert!(matches!(cell.read(), CellState::Ready(2222)));
}

#[test]
fn second_result_for_same_generation_is_dropped() {
    let (mut cell, ticket) = ResourceCell::<u64, u64>::new(1);
    assert!(cell.apply(ticket, Ok(5)));
    let (_, ticket_copy) = ResourceCell::<u64, u64>::new(1);
    assert!(!cell.apply(ticket_copy, Ok(6)));
    assert!(matches!(cell.read(), CellState::Ready(5)));
}

#[test]
fn failed_fetch_is_local_to_the_cell() {
    let (mut cell, ticket) = ResourceCell::<u64, u64>::new(1);
    let (mut other, other_ticket) = ResourceCell::<u64, u64>::new(1);
    assert!(cell.apply(ticket, Err(String::from("service unavailable"))));
    match cell.read() {
        CellState::Failed(m) => assert_eq!(m, "service unavailable"),
        _ => panic!("expected a failed state"),
    }
    assert!(other.apply(other_ticket, Ok(9)));
    assert!(matches!(other.read(), CellState::Ready(9)));
}

#[test]
fn refresh_token_always_changes_value() {
    let mut t = RefreshToken::new();
    let v0 = t.value();
    t.toggle();
    let v1 = t.value();
    t.toggle();
    let v2 = t.value();
    assert_ne!(v0, v1);
    assert_ne!(v1, v2);
    assert_eq!(v0, v2);
}
