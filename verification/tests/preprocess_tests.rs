use cc_rs::preprocess::{
    convert_pp_tokens, copy_line, define_macro, expand_builtin, find_macro, init_macros_at,
    is_keyword, join_tokens, new_macros, paste, print_tokens_text, quote_string, reset_counter,
    skip_cond_incl, skip_cond_incl2, skip_line, stringize, token_str_eq, undef_macro, Builtin,
};
use cc_rs::tokenize::{new_input, tokenize_file, Input, Token, TokenKind};

fn chars(s: &str) -> Vec<char> {
    s.chars().collect()
}

fn read(input: &mut Input, src: &str) -> Vec<Token> {
    tokenize_file(input, "m.c", chars(src)).unwrap()
}

#[test]
fn defined_macros_are_found() {
    let mut input = new_input();
    let mut macros = new_macros();
    let toks = read(&mut input, "FOO BAR\n");
    define_macro(&mut input, &mut macros, "FOO", "1 + 2");
    let i = find_macro(&input.files, &toks[0], &macros).unwrap();
    let m = &macros.defs[i];
    assert_eq!(m.name, "FOO");
    assert!(m.is_objlike);
    assert_eq!(m.body.len(), 4);
    assert_eq!(m.body[1].kind, TokenKind::Punct);
    assert_eq!(input.files.last().unwrap().name, "<built-in>");
    assert!(find_macro(&input.files, &toks[1], &macros).is_none());
}

#[test]
fn undefined_macros_are_gone() {
    let mut input = new_input();
    let mut macros = new_macros();
    let toks = read(&mut input, "FOO\n");
    define_macro(&mut input, &mut macros, "FOO", "1");
    undef_macro(&mut input, &mut macros, "FOO");
    assert!(find_macro(&input.files, &toks[0], &macros).is_none());
    define_macro(&mut input, &mut macros, "FOO", "2");
    let i = find_macro(&input.files, &toks[0], &macros).unwrap();
    assert_eq!(i, 2);
}

#[test]
fn quoting() {
    let q = quote_string(&chars("a\"b\\c"));
    assert_eq!(q.iter().collect::<String>(), "\"a\\\"b\\\\c\"");
    assert_eq!(quote_string(&[]).iter().collect::<String>(), "\"\"");
}

#[test]
fn keywords() {
    assert!(is_keyword(&chars("while")));
    assert!(is_keyword(&chars("_Alignof")));
    assert!(!is_keyword(&chars("whilst")));
    assert!(!is_keyword(&chars("main")));
}

#[test]
fn joining_keeps_single_spaces() {
    let mut input = new_input();
    let toks = read(&mut input, "a+  b ( c)\n");
    assert_eq!(join_tokens(&input.files, &toks, 0, None), "a+ b ( c)");
    assert_eq!(join_tokens(&input.files, &toks, 2, Some(&toks[4])), "b (");
    assert_eq!(join_tokens(&input.files, &toks, 2, None), "b ( c)");
}

#[test]
fn stringizing_makes_a_string_literal() {
    let mut input = new_input();
    let toks = read(&mut input, "# x \"y\"\n");
    let out = stringize(&mut input, &toks[0], &toks, 1);
    assert_eq!(out[0].kind, TokenKind::Str);
    assert_eq!(out[0].str, Some(b"x \"y\"".to_vec()));
    assert_eq!(input.files.last().unwrap().contents.iter().collect::<String>(), "\"x \\\"y\\\"\"");
}

#[test]
fn pasting_tokens() {
    let mut input = new_input();
    let toks = read(&mut input, "foo bar + =\n");
    let out = paste(&mut input, &toks[0], &toks[1]).unwrap();
    assert_eq!(out[0].kind, TokenKind::Ident);
    assert_eq!(out[0].len, 6);
    let out = paste(&mut input, &toks[2], &toks[3]).unwrap();
    assert_eq!(out[0].kind, TokenKind::Punct);
    assert_eq!(out[0].len, 2);
    let err = paste(&mut input, &toks[0], &toks[2]).unwrap_err();
    assert_eq!(err, "m.c:1: foo bar + =\n       ^ pasting forms 'foo+', an invalid token\n");
}

#[test]
fn counter_counts_and_resets() {
    let mut input = new_input();
    let mut macros = new_macros();
    let toks = read(&mut input, "__COUNTER__\n");
    let a = expand_builtin(&mut input, &mut macros, Builtin::Counter, &toks[0]);
    assert_eq!(input.files.last().unwrap().contents.iter().collect::<String>(), "0\n");
    assert_eq!(a[0].kind, TokenKind::PpNum);
    let _ = expand_builtin(&mut input, &mut macros, Builtin::Counter, &toks[0]);
    assert_eq!(input.files.last().unwrap().contents.iter().collect::<String>(), "1\n");
    assert_eq!(macros.counter, 2);
    reset_counter(&mut macros);
    let _ = expand_builtin(&mut input, &mut macros, Builtin::Counter, &toks[0]);
    assert_eq!(input.files.last().unwrap().contents.iter().collect::<String>(), "0\n");
}

#[test]
fn file_and_line_builtins() {
    let mut input = new_input();
    let mut macros = new_macros();
    let toks = read(&mut input, "\n\n__LINE__ __FILE__\n");
    let _ = expand_builtin(&mut input, &mut macros, Builtin::Line, &toks[0]);
    assert_eq!(input.files.last().unwrap().contents.iter().collect::<String>(), "3\n");
    let f = expand_builtin(&mut input, &mut macros, Builtin::File, &toks[1]);
    assert_eq!(f[0].kind, TokenKind::Str);
    assert_eq!(f[0].str, Some(b"m.c".to_vec()));
    assert_eq!(input.files.last().unwrap().name, "m.c");
}

#[test]
fn skipping_conditional_groups() {
    let mut input = new_input();
    let src = "a\n#if X\nb\n#else\nc\n#endif\nd\n";
    let toks = read(&mut input, src);
    // tokens: a # if X b # else c # endif d EOF
    assert!(token_str_eq(&input.files, &toks[2], "if"));
    assert!(!token_str_eq(&input.files, &toks[2], "ifdef"));
    // skipping the false group of `#if X` stops at `#else`
    assert_eq!(skip_cond_incl(&input.files, &toks, 4), 5);
    // skipping to the matching `#endif` goes past it
    assert_eq!(skip_cond_incl2(&input.files, &toks, 4), 10);
}

#[test]
fn nested_groups_are_skipped_whole() {
    let mut input = new_input();
    let src = "x\n#ifdef A\ny\n#else\nz\n#endif\n#elif B\nw\n";
    let toks = read(&mut input, src);
    // x # ifdef A y # else z # endif # elif B w EOF
    assert_eq!(skip_cond_incl(&input.files, &toks, 0), 10);
    assert_eq!(skip_cond_incl2(&input.files, &toks, 0), toks.len() - 1);
}

#[test]
fn lines_of_directives() {
    let mut input = new_input();
    let toks = read(&mut input, "#define X 1 2\ny\n");
    let (line, next) = copy_line(&toks, 2);
    assert_eq!(next, 5);
    assert_eq!(line.len(), 4);
    assert_eq!(line[3].kind, TokenKind::Eof);
    assert_eq!(line[3].loc, 14);
    assert_eq!(skip_line(&toks, 3), (5, true));
    assert_eq!(skip_line(&toks, 5), (5, false));
}

#[test]
fn keywords_and_numbers_after_preprocessing() {
    let mut input = new_input();
    let mut toks = read(&mut input, "int x = 0x10 + 1.5;\n");
    assert_eq!(convert_pp_tokens(&input.files, &mut toks), Ok(()));
    assert_eq!(toks[0].kind, TokenKind::Keyword);
    assert_eq!(toks[1].kind, TokenKind::Ident);
    assert_eq!(toks[3].kind, TokenKind::Num);
    assert_eq!(toks[3].val, 16);
    assert_eq!(toks[5].kind, TokenKind::PpNum);
}

#[test]
fn printing_tokens() {
    let mut input = new_input();
    let toks = read(&mut input, "int  x;\n  \"a\\\"b\" y\n");
    assert_eq!(
        print_tokens_text(&input.files, &toks, 0),
        "\nint x;\n\"a\\\"b\" y\n"
    );
}

#[test]
fn predefined_macros() {
    let mut input = new_input();
    let mut macros = new_macros();
    let toks = read(&mut input, "__STDC__ __DATE__ __LINE__\n");
    init_macros_at(&mut input, &mut macros, &"Jan  1 2024".to_string(), &"12:00:00".to_string());
    let i = find_macro(&input.files, &toks[0], &macros).unwrap();
    assert_eq!(macros.defs[i].body.len(), 2);
    let i = find_macro(&input.files, &toks[1], &macros).unwrap();
    assert_eq!(macros.defs[i].body[0].kind, TokenKind::Str);
    assert_eq!(macros.defs[i].body[0].str, Some(b"Jan  1 2024".to_vec()));
    let i = find_macro(&input.files, &toks[2], &macros).unwrap();
    assert_eq!(macros.defs[i].handler, Some(Builtin::Line));
    assert_eq!(macros.defs.len(), 48);
}

#[test]
fn identifiers_read_as_zero_in_conditions() {
    let f = cc_rs::tokenize::new_file("t.c".to_string(), 1, "a + 1 b\n".chars().collect());
    let mut toks = cc_rs::tokenize::tokenize(&f);
    cc_rs::preprocess::replace_idents_with_zero(&mut toks);
    assert_eq!(toks[0].kind, cc_rs::tokenize::TokenKind::Num);
    assert_eq!(toks[0].val, 0);
    assert_eq!(toks[0].ty.as_ref().unwrap().kind, cc_rs::types::TypeKind::Int);
    assert_eq!(toks[1].kind, cc_rs::tokenize::TokenKind::Punct);
    assert_eq!(toks[2].kind, cc_rs::tokenize::TokenKind::PpNum);
    assert_eq!(toks[3].kind, cc_rs::tokenize::TokenKind::Num);
    assert_eq!(toks[4].kind, cc_rs::tokenize::TokenKind::Eof);
}

#[test]
fn date_and_time_macros_hold_the_given_clock_text() {
    let mut input = new_input();
    let mut macros = new_macros();
    let toks = read(&mut input, "__DATE__ __TIME__\n");
    init_macros_at(&mut input, &mut macros, &"Mar  5 2025".to_string(), &"09:07:03".to_string());
    let i = find_macro(&input.files, &toks[0], &macros).unwrap();
    let date = macros.defs[i].body[0].str.clone().unwrap();
    assert_eq!(date.len(), 11);
    assert!(date[3] == b' ' && date[6] == b' ');
    let i = find_macro(&input.files, &toks[1], &macros).unwrap();
    let time = macros.defs[i].body[0].str.clone().unwrap();
    assert_eq!(time.len(), 8);
    assert_eq!(time[2], b':');
    assert_eq!(time[5], b':');
    assert_eq!(date, b"Mar  5 2025".to_vec());
    assert_eq!(time, b"09:07:03".to_vec());
}
