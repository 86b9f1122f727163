use cc_rs::literals::{can_merge_string_literals, merge_adjacent_string_literals};
use cc_rs::tokenize::{new_file, tokenize, TokenKind};

#[test]
fn adjacent_string_literals_are_joined() {
    let f = new_file("t.c".to_string(), 1, "\"ab\" \"cd\" \"e\" x \"f\"\n".chars().collect());
    let mut toks = tokenize(&f);
    assert_eq!(toks.len(), 6);
    assert!(can_merge_string_literals(&toks));
    merge_adjacent_string_literals(&mut toks);
    assert_eq!(toks.len(), 4);
    assert_eq!(toks[0].kind, TokenKind::Str);
    assert_eq!(toks[0].str.as_ref().unwrap(), &b"abcde".to_vec());
    let ty = toks[0].ty.as_ref().unwrap();
    assert_eq!(ty.array_len, 6);
    assert_eq!(ty.size, 6);
    assert_eq!(toks[0].loc, 0);
    assert_eq!(toks[1].kind, TokenKind::Ident);
    assert_eq!(toks[2].str.as_ref().unwrap(), &b"f".to_vec());
    assert_eq!(toks[2].ty.as_ref().unwrap().array_len, 2);
    assert_eq!(toks[3].kind, TokenKind::Eof);
}

#[test]
fn a_single_literal_is_left_alone() {
    let f = new_file("t.c".to_string(), 1, "x \"a\" y\n".chars().collect());
    let mut toks = tokenize(&f);
    let before = toks.len();
    merge_adjacent_string_literals(&mut toks);
    assert_eq!(toks.len(), before);
    assert_eq!(toks[1].str.as_ref().unwrap(), &b"a".to_vec());
}

#[test]
fn without_an_end_of_file_token_nothing_can_be_joined() {
    let f = new_file("t.c".to_string(), 1, "\"a\" \"b\"\n".chars().collect());
    let mut toks = tokenize(&f);
    assert!(can_merge_string_literals(&toks));
    toks.pop();
    assert!(!can_merge_string_literals(&toks));
}
