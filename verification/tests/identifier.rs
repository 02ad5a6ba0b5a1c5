use dht_id::identifier::{BitBuffer, Identifier, IdentifierError};

#[test]
fn new_valid() {
    let id = Identifier::new(b"101").unwrap();

    assert_eq!(id.get_id(), &BitBuffer::from_slice(b"101"));
}

#[test]
fn new_invalid() {
    assert_eq!(
        Identifier::new(b""),
        Err(IdentifierError::InvalidValue(String::from(
            "The ID cannot be nothing.",
        )))
    );
}

#[test]
fn get_id() {
    let id = Identifier::new(b"101").unwrap();
    let id_val = BitBuffer::from_slice(b"101");

    assert_eq!(id.get_id(), &id_val);
}

#[test]
fn is_match() {
    let mut id = Identifier::new(b"101").unwrap();
    let mut other = Identifier::new(b"101").unwrap();

    assert_eq!(id.get_id().len() == other.get_id().len(), true);
    assert_eq!(id.is_match(&other), true);

    other = Identifier::new(b"1").unwrap();

    assert_eq!(id.get_id().len() > other.get_id().len(), true);
    assert_eq!(id.is_match(&other), false);

    other = Identifier::new(b"17").unwrap();
    id = Identifier::new(b"1").unwrap();

    assert_eq!(id.get_id().len() < other.get_id().len(), true);
    assert_eq!(id.is_match(&other), true);
}

#[test]
fn is_match_same_length_different_bits() {
    let id = Identifier::new(b"1").unwrap();
    let other = Identifier::new(b"2").unwrap();

    assert_eq!(id.is_match(&other), false);
}

#[test]
fn new_twice_compares_equal() {
    let a = Identifier::new(b"101").unwrap();
    let b = Identifier::new(b"101").unwrap();

    assert_eq!(a, b);
    assert!(!(a == Identifier::new(b"100").unwrap()));
}
