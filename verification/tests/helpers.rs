use fckloud::ekacore::traits::{Discard, NotOk};

#[test]
fn discard_drops_a_value() {
    let mut seen: Vec<u8> = Vec::new();
    seen.push(1);
    seen.pop().discard();
    assert!(seen.is_empty());
    String::from("unused").discard();
    7u64.discard();
}

#[test]
fn no_error_is_ok() {
    let nothing: Option<String> = None;
    assert_eq!(nothing.not_ok(), Ok(()));
    assert_eq!(Some(String::from("broken")).not_ok(), Err(String::from("broken")));
    assert_eq!(Some(5u8).not_ok(), Err(5));
}
