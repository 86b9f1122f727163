use cc_rs::specifiers::{basic_type_specifiers, type_of_specifiers, CHAR, LONG, UNSIGNED};
use cc_rs::tokenize::{new_file, tokenize, File};
use cc_rs::types::TypeKind;

fn files_of(src: &str) -> Vec<File> {
    vec![new_file("t.c".to_string(), 1, src.chars().collect())]
}

fn read(src: &str) -> Result<(TypeKind, bool, usize), String> {
    let files = files_of(src);
    let toks = tokenize(&files[0]);
    basic_type_specifiers(&files, &toks, 0).map(|(t, k)| (t.kind, t.is_unsigned, k))
}

#[test]
fn specifier_combinations_name_types() {
    assert_eq!(read("unsigned long long x\n"), Ok((TypeKind::Long, true, 3)));
    assert_eq!(read("long int x\n"), Ok((TypeKind::Long, false, 2)));
    assert_eq!(read("char unsigned c\n"), Ok((TypeKind::Char, true, 2)));
    assert_eq!(read("signed x\n"), Ok((TypeKind::Int, false, 1)));
    assert_eq!(read("long double d\n"), Ok((TypeKind::Double, false, 2)));
    assert_eq!(read("short int s\n"), Ok((TypeKind::Short, false, 2)));
    assert_eq!(read("_Bool b\n"), Ok((TypeKind::Bool, false, 1)));
    assert_eq!(read("x\n"), Ok((TypeKind::Int, false, 0)));
}

#[test]
fn an_invalid_combination_is_an_error_at_its_specifier() {
    let e = read("short long x\n").unwrap_err();
    assert!(e.contains("invalid type"), "{}", e);
    assert!(read("long long long x\n").is_err());
    assert!(read("void int\n").is_err());
}

#[test]
fn counts_map_to_types() {
    assert_eq!(type_of_specifiers(UNSIGNED + CHAR).unwrap().kind, TypeKind::Char);
    assert!(type_of_specifiers(UNSIGNED + CHAR).unwrap().is_unsigned);
    assert_eq!(type_of_specifiers(LONG + LONG).unwrap().size, 8);
    assert!(type_of_specifiers(LONG + LONG + LONG).is_none());
}
