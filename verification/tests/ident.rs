use minitube::ident::is_valid_id;
use minitube::ident::ID_LEN;

const GOOD_ID: &str = "v1_aaaaaaaaaaaaaaaaaaa";

#[test]
fn generated_shape_is_valid() {
    assert_eq!(GOOD_ID.len(), ID_LEN);
    assert!(is_valid_id(GOOD_ID));
    assert!(is_valid_id("0123456789_abcdefghXYZ"));
    assert!(is_valid_id("______________________"));
}

#[test]
fn character_outside_alphabet_invalidates() {
    assert!(!is_valid_id("v1-aaaaaaaaaaaaaaaaaaa"));
    assert!(!is_valid_id("v1 aaaaaaaaaaaaaaaaaaa"));
    assert!(!is_valid_id("v1_aaaaaaaaaaaaaaaaaa!"));
    assert!(!is_valid_id("#1_aaaaaaaaaaaaaaaaaaa"));
}

#[test]
fn truncating_invalidates() {
    assert!(!is_valid_id(&GOOD_ID[..ID_LEN - 1]));
    assert!(!is_valid_id(""));
}

#[test]
fn padding_invalidates() {
    let mut long = String::from(GOOD_ID);
    long.push('a');
    assert!(!is_valid_id(&long));
}
