use cc_rs::macro_args::{
    find_arg, read_macro_arg_one, read_macro_args, read_macro_definition, read_macro_params,
};
use cc_rs::preprocess::new_macros;
use cc_rs::tokenize::{new_input, tokenize_file, Input, Token, TokenKind};

fn read(input: &mut Input, src: &str) -> Vec<Token> {
    tokenize_file(input, "d.c", src.chars().collect()).unwrap()
}

#[test]
fn parameter_lists() {
    let mut input = new_input();
    let toks = read(&mut input, "(a, b, ...) x\n");
    let (params, variadic, next) = read_macro_params(&input.files, &toks, 1).unwrap();
    assert_eq!(params, vec!["a".to_string(), "b".to_string()]);
    assert!(variadic);
    assert_eq!(next, 7);
    let toks = read(&mut input, "() y\n");
    let (params, variadic, next) = read_macro_params(&input.files, &toks, 1).unwrap();
    assert!(params.is_empty());
    assert!(!variadic);
    assert_eq!(next, 2);
}

#[test]
fn bad_parameter_lists() {
    let mut input = new_input();
    let toks = read(&mut input, "(a b)\n");
    let err = read_macro_params(&input.files, &toks, 1).unwrap_err();
    assert_eq!(err, format!("d.c:1: (a b)\n{}^ expected ','\n", " ".repeat(10)));
    let toks = read(&mut input, "(1)\n");
    let err = read_macro_params(&input.files, &toks, 1).unwrap_err();
    assert!(err.ends_with("^ expected an identifier\n"));
}

#[test]
fn one_argument_stops_at_a_comma_outside_parentheses() {
    let mut input = new_input();
    let toks = read(&mut input, "f((a, b), c)\n");
    let (arg, end) = read_macro_arg_one(&input.files, &toks, 2, false).unwrap();
    assert_eq!(end, 7);
    assert_eq!(arg.len(), 6);
    assert_eq!(arg[5].kind, TokenKind::Eof);
    let (arg, end) = read_macro_arg_one(&input.files, &toks, 2, true).unwrap();
    assert_eq!(end, 9);
    assert_eq!(arg.len(), 8);
    let toks = read(&mut input, "f(a\n");
    let err = read_macro_arg_one(&input.files, &toks, 2, false).unwrap_err();
    assert!(err.ends_with("^ premature end of input\n"));
}

#[test]
fn call_arguments_are_bound_to_parameters() {
    let mut input = new_input();
    let toks = read(&mut input, "F(1 + 2, (x, y), z, w)\n");
    let params = vec!["a".to_string(), "b".to_string()];
    let (args, rparen) = read_macro_args(&input.files, &toks, 0, &params, true).unwrap();
    assert_eq!(args.len(), 3);
    assert_eq!(args[0].name, "a");
    assert_eq!(args[0].tok.len(), 4);
    assert_eq!(args[1].name, "b");
    assert_eq!(args[1].tok.len(), 6);
    assert_eq!(args[2].name, "__VA_ARGS__");
    assert_eq!(args[2].tok.len(), 4);
    assert_eq!(rparen, 15);
    let b = read(&mut input, "b\n");
    assert_eq!(find_arg(&args, &input.files, &b[0]), Some(1));
    let err = read_macro_args(&input.files, &toks, 0, &params, false).unwrap_err();
    assert!(err.ends_with("^ expected ')'\n"));
}

#[test]
fn definitions() {
    let mut input = new_input();
    let mut macros = new_macros();
    let toks = read(&mut input, "#define SQ(x) x * x\n#define ONE (1)\n#define 2\n");
    let next = read_macro_definition(&input.files, &toks, 2, &mut macros).unwrap();
    assert_eq!(next, 9);
    let sq = &macros.defs[0];
    assert_eq!(sq.name, "SQ");
    assert!(!sq.is_objlike);
    assert_eq!(sq.params, vec!["x".to_string()]);
    assert_eq!(sq.body.len(), 4);
    let next = read_macro_definition(&input.files, &toks, 11, &mut macros).unwrap();
    assert_eq!(next, 15);
    let one = &macros.defs[1];
    assert!(one.is_objlike);
    assert_eq!(one.body.len(), 4);
    let err = read_macro_definition(&input.files, &toks, 17, &mut macros).unwrap_err();
    assert!(err.ends_with("^ macro name must be an identifier\n"));
    assert_eq!(macros.defs.len(), 2);
}
