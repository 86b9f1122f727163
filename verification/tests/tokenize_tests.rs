use cc_rs::tokenize::{
    consume, convert_pp_number, convert_universal_chars, equal, error_at, error_tok, new_file,
    new_input, prepare_contents, read_escaped_char, read_punct, skip, tokenize, tokenize_file,
    try_parse_int_literal, File, LexError, TokenKind,
};
use cc_rs::types::TypeKind;

fn chars(s: &str) -> Vec<char> {
    s.chars().collect()
}

fn file(src: &str) -> File {
    new_file("t.c".to_string(), 1, chars(src))
}

#[test]
fn tokenize_declaration() {
    let f = file("int x = 42;\n");
    let toks = tokenize(&f);
    let kinds: Vec<TokenKind> = toks.iter().map(|t| t.kind).collect();
    assert_eq!(
        kinds,
        vec![
            TokenKind::Ident,
            TokenKind::Ident,
            TokenKind::Punct,
            TokenKind::PpNum,
            TokenKind::Punct,
            TokenKind::Eof
        ]
    );
    let locs: Vec<usize> = toks.iter().map(|t| t.loc).collect();
    assert_eq!(locs, vec![0, 4, 6, 8, 10, 12]);
    let lens: Vec<usize> = toks.iter().map(|t| t.len).collect();
    assert_eq!(lens, vec![3, 1, 1, 2, 1, 0]);
    assert!(toks[0].at_bol);
    assert!(!toks[1].at_bol);
    assert!(toks[1].has_space);
    assert!(!toks[4].has_space);
    assert_eq!(toks[0].line_no, 1);
    assert_eq!(toks[4].line_no, 1);
    assert_eq!(toks[5].line_no, 2);
}

#[test]
fn tokenize_line_numbers_and_comments() {
    let f = file("a /* x\ny */ b\n// c\nd\n");
    let toks = tokenize(&f);
    assert_eq!(toks.len(), 4);
    assert_eq!(toks[0].line_no, 1);
    assert_eq!(toks[1].line_no, 2);
    assert!(toks[1].has_space);
    assert_eq!(toks[2].line_no, 4);
    assert!(toks[2].at_bol);
}

#[test]
fn tokenize_string_and_char_literals() {
    let f = file("\"a\\n\" 'b' L'c'\n");
    let toks = tokenize(&f);
    assert_eq!(toks[0].kind, TokenKind::Str);
    assert_eq!(toks[0].str, Some(vec![b'a', b'\n']));
    let ty = toks[0].ty.as_ref().unwrap();
    assert_eq!(ty.kind, TypeKind::Array);
    assert_eq!(ty.array_len, 3);
    assert_eq!(toks[1].kind, TokenKind::Num);
    assert_eq!(toks[1].val, 98);
    assert_eq!(toks[2].kind, TokenKind::Num);
    assert_eq!(toks[2].val, 99);
}

#[test]
fn tokenize_unclosed_string_gives_error_token() {
    let f = file("x \"abc\n");
    let toks = tokenize(&f);
    let last = toks.last().unwrap();
    assert_eq!(last.kind, TokenKind::Eof);
    assert_eq!(last.loc, 2);
    assert_eq!(last.str, Some(b"unclosed string literal".to_vec()));
}

#[test]
fn tokenize_invalid_character_gives_error_token() {
    let f = file("a \u{a7}\n");
    let toks = tokenize(&f);
    let last = toks.last().unwrap();
    assert_eq!(last.loc, 2);
    assert_eq!(last.str, Some(b"invalid token".to_vec()));
}

#[test]
fn punctuators_are_longest_first() {
    assert_eq!(read_punct(&chars("<<= 1"), 0), Some(3));
    assert_eq!(read_punct(&chars("->x"), 0), Some(2));
    assert_eq!(read_punct(&chars("+x"), 0), Some(1));
    assert_eq!(read_punct(&chars("..."), 0), Some(3));
    assert_eq!(read_punct(&chars("@"), 0), Some(1));
    assert_eq!(read_punct(&chars("\u{a7}"), 0), None);
}

#[test]
fn escapes() {
    assert_eq!(read_escaped_char(&chars("n"), 0), Ok(('\n', 1)));
    assert_eq!(read_escaped_char(&chars("101"), 0), Ok(('A', 3)));
    assert_eq!(read_escaped_char(&chars("x41z"), 0), Ok(('A', 3)));
    assert_eq!(read_escaped_char(&chars("e"), 0), Ok(('\u{1b}', 1)));
    assert_eq!(read_escaped_char(&chars("xg"), 0), Err(LexError::InvalidHexEscape));
}

#[test]
fn integer_literals() {
    let (v, ty) = try_parse_int_literal(&chars("42")).unwrap();
    assert_eq!(v, 42);
    assert_eq!(ty.kind, TypeKind::Int);
    assert!(!ty.is_unsigned);
    let (v, ty) = try_parse_int_literal(&chars("0x1F")).unwrap();
    assert_eq!(v, 31);
    assert_eq!(ty.kind, TypeKind::Int);
    let (v, ty) = try_parse_int_literal(&chars("0b101")).unwrap();
    assert_eq!(v, 5);
    assert_eq!(ty.kind, TypeKind::Int);
    let (v, ty) = try_parse_int_literal(&chars("017")).unwrap();
    assert_eq!(v, 15);
    assert_eq!(ty.kind, TypeKind::Int);
    let (_, ty) = try_parse_int_literal(&chars("10u")).unwrap();
    assert_eq!(ty.kind, TypeKind::Int);
    assert!(ty.is_unsigned);
    let (_, ty) = try_parse_int_literal(&chars("10L")).unwrap();
    assert_eq!(ty.kind, TypeKind::Long);
    let (_, ty) = try_parse_int_literal(&chars("10ull")).unwrap();
    assert_eq!(ty.kind, TypeKind::Long);
    assert!(ty.is_unsigned);
    let (v, ty) = try_parse_int_literal(&chars("4294967296")).unwrap();
    assert_eq!(v, 4294967296);
    assert_eq!(ty.kind, TypeKind::Long);
    let (_, ty) = try_parse_int_literal(&chars("0xffffffff")).unwrap();
    assert_eq!(ty.kind, TypeKind::Int);
    assert!(ty.is_unsigned);
    assert!(try_parse_int_literal(&chars("1.5")).is_none());
    assert!(try_parse_int_literal(&chars("12abc")).is_none());
}

#[test]
fn pp_numbers_become_numbers() {
    let f = file("123 1.5\n");
    let files = vec![f];
    let mut toks = tokenize(&files[0]);
    assert_eq!(convert_pp_number(&files, &mut toks[0]), Ok(true));
    assert_eq!(toks[0].kind, TokenKind::Num);
    assert_eq!(toks[0].val, 123);
    assert_eq!(convert_pp_number(&files, &mut toks[1]), Ok(false));
    assert_eq!(toks[1].kind, TokenKind::PpNum);
}

#[test]
fn equal_skip_and_consume() {
    let files = vec![file("( a )\n")];
    let toks = tokenize(&files[0]);
    assert!(equal(&files, &toks[0], "("));
    assert!(!equal(&files, &toks[0], ")"));
    assert_eq!(skip(&files, &toks, 0, "("), Ok(1));
    let err = skip(&files, &toks, 1, "(").unwrap_err();
    assert_eq!(err, format!("t.c:1: ( a )\n{}^ expected '('\n", " ".repeat(9)));
    assert_eq!(consume(&files, &toks, 1, "a"), (true, 2));
    assert_eq!(consume(&files, &toks, 1, "b"), (false, 1));
}

#[test]
fn diagnostics_point_at_the_token() {
    let files = vec![file("int x;\nfoo bar;\n")];
    let toks = tokenize(&files[0]);
    assert_eq!(
        error_tok(&files, &toks[4], "oops"),
        format!("t.c:2: foo bar;\n{}^ oops\n", " ".repeat(11))
    );
    assert_eq!(
        error_at(&files, 1, 11, "here"),
        format!("t.c:2: foo bar;\n{}^ here\n", " ".repeat(11))
    );
}

#[test]
fn source_preparation() {
    let out = prepare_contents(chars("a\r\nb\\\nc")).unwrap();
    assert_eq!(out.iter().collect::<String>(), "a\nbc\n\n");
    let out = convert_universal_chars(&chars("x\\u00e9y"));
    assert_eq!(out.iter().collect::<String>(), "x\u{e9}y");
}

#[test]
fn files_read_get_fresh_numbers() {
    let mut input = new_input();
    let toks = tokenize_file(&mut input, "a.c", chars("x\n")).unwrap();
    assert_eq!(input.last_file_no, 1);
    assert_eq!(input.files.len(), 1);
    assert_eq!(input.files[0].name, "a.c");
    assert_eq!(toks[0].file_no, 1);
    let _ = tokenize_file(&mut input, "b.c", chars("y\n")).unwrap();
    assert_eq!(input.last_file_no, 2);
    assert_eq!(input.files[1].file_no, 2);
}

#[test]
fn files_read_are_prepared_before_tokenizing() {
    let mut input = new_input();
    let toks = tokenize_file(&mut input, "c.c", chars("a\r\nb\\\nc")).unwrap();
    assert_eq!(input.files[0].contents.iter().collect::<String>(), "a\nbc\n\n");
    assert_eq!(toks.len(), 3);
    assert_eq!(toks[1].line_no, 2);
    assert_eq!(toks[2].kind, TokenKind::Eof);
}

#[test]
fn a_file_naming_no_character_is_refused() {
    let mut input = new_input();
    assert!(tokenize_file(&mut input, "d.c", chars("\\UFFFFFFFF\n")).is_none());
    assert_eq!(input.files.len(), 0);
    assert_eq!(input.last_file_no, 0);
}

#[test]
fn an_error_token_comes_after_the_tokens_before_it() {
    let mut input = new_input();
    let toks = tokenize_file(&mut input, "e.c", chars("ab \"x\n")).unwrap();
    assert_eq!(toks.len(), 2);
    assert_eq!(toks[1].kind, TokenKind::Eof);
    assert!(toks[1].str.is_some());
    assert!(toks[0].loc + toks[0].len <= toks[1].loc);
}
