use tblis::TblisError;
use tblis::char_parse;

#[test]
fn test_ascii_identity() {
    let out = char_parse(&vec!["ij", "jk"]).unwrap();
    assert_eq!(out, vec![vec![105i8, 106], vec![106i8, 107]]);
}

#[test]
fn test_small_alphabet_mapping() {
    // non-ASCII labels are renamed into [a-zA-Z0-9] by first occurrence
    let out = char_parse(&vec!["\u{3b1}\u{3b2}", "\u{3b2}\u{3b3}"]).unwrap();
    assert_eq!(out, vec![vec![97i8, 98], vec![98i8, 99]]);
}

#[test]
fn test_mapping_is_consistent_and_injective() {
    let out = char_parse(&vec!["\u{3bc}i", "\u{3bd}a", "\u{3bc}\u{3bd}"]).unwrap();
    // same label, same code
    assert_eq!(out[0][0], out[2][0]);
    assert_eq!(out[1][0], out[2][1]);
    // distinct labels, distinct codes
    assert_ne!(out[0][0], out[1][0]);
    assert_ne!(out[0][1], out[1][1]);
}

#[test]
fn test_large_alphabet_rank_mapping() {
    // more than 62 distinct labels fall back to ranks 0..=127
    let mut s = String::new();
    for i in 0..70u32 {
        s.push(char::from_u32(0x100 + i).unwrap());
    }
    let out = char_parse(&vec![s.as_str()]).unwrap();
    assert_eq!(out[0][0], 0);
    assert_eq!(out[0][69], 69);
}

#[test]
fn test_too_many_labels() {
    let mut s = String::new();
    for i in 0..129u32 {
        s.push(char::from_u32(0x100 + i).unwrap());
    }
    let r = char_parse(&vec![s.as_str()]);
    assert_eq!(r, Err(TblisError::TooManyLabels));
}

#[test]
fn test_mapping_uses_sorted_label_order() {
    // codes follow the ascending order of the labels, not their first
    // occurrence: beta appears first but alpha takes the first code
    let out = char_parse(&vec!["\u{3b2}\u{3b1}"]).unwrap();
    assert_eq!(out, vec![vec![98i8, 97]]);
}
