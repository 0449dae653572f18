use hex_fmt::Case;
use hex_fmt::HexList;

#[test]
fn empty_list_renders_brackets() {
    assert_eq!("[]", HexList(vec![]).display());
    assert_eq!("[]", HexList(vec![]).upper_hex());
}

#[test]
fn singleton_list_wraps_element_rendering() {
    assert_eq!("[ab]", HexList(vec![vec![0xab]]).display());
    assert_eq!("[AB]", HexList(vec![vec![0xab]]).upper_hex());
}

#[test]
fn list_of_two_elements() {
    let list = HexList(vec![b"AB".to_vec(), b"BA".to_vec()]);
    assert_eq!("[4142, 4241]", list.display());
    let list = HexList(vec![b"JK".to_vec(), b"KJ".to_vec()]);
    assert_eq!("[4A4B, 4B4A]", list.upper_hex());
}

#[test]
fn list_elements_use_default_precision() {
    let long = vec![9, 10, 11, 12, 13, 14, 15];
    let list = HexList(vec![long, vec![0x01]]);
    assert_eq!("[090a..0e0f, 01]", list.display());
}

#[test]
fn list_views_agree() {
    let list = HexList(vec![vec![0xde, 0xad], vec![0xbe, 0xef]]);
    assert_eq!(list.display(), list.debug());
    assert_eq!(list.display(), list.lower_hex());
    assert_eq!(list.display(), list.fmt(Case::Lower));
    assert_eq!(list.upper_hex(), list.fmt(Case::Upper));
}

#[test]
fn list_cases_differ_only_in_digit_case() {
    let list = HexList(vec![vec![0x0f, 0xa5], vec![0x3c, 0xd2]]);
    let lower = list.lower_hex();
    let upper = list.upper_hex();
    assert_eq!(lower.len(), upper.len());
    for (l, u) in lower.chars().zip(upper.chars()) {
        assert_eq!(l.to_ascii_uppercase(), u);
        if !l.is_ascii_alphabetic() {
            assert_eq!(l, u);
        }
    }
}
