use cc_rs::directives::{
    conditional_directive, conditionals_closed, macro_directive, other_directive, CondCtx, CondIncl,
};
use cc_rs::preprocess::{define_macro, find_macro, new_macros};
use cc_rs::tokenize::{new_input, tokenize_file, Input, Token};

const SRC: &str = "#ifdef FOO\nx\n#else\ny\n#endif\nz\n";

fn read(input: &mut Input, src: &str) -> Vec<Token> {
    tokenize_file(input, "c.c", src.chars().collect()).unwrap()
}

#[test]
fn an_undefined_name_skips_to_the_else_part() {
    let mut input = new_input();
    let macros = new_macros();
    let toks = read(&mut input, SRC);
    let mut stack: Vec<CondIncl> = Vec::new();
    let r = conditional_directive(&input.files, &toks, 0, &macros, &mut stack);
    assert_eq!(r, Ok(Some(4)));
    assert_eq!(stack, vec![CondIncl { ctx: CondCtx::Then, tok: 0, included: false }]);
    let r = conditional_directive(&input.files, &toks, 4, &macros, &mut stack);
    assert_eq!(r, Ok(Some(6)));
    assert_eq!(stack[0].ctx, CondCtx::Else);
    let r = conditional_directive(&input.files, &toks, 7, &macros, &mut stack);
    assert_eq!(r, Ok(Some(9)));
    assert!(stack.is_empty());
}

#[test]
fn a_defined_name_takes_the_first_part() {
    let mut input = new_input();
    let mut macros = new_macros();
    let toks = read(&mut input, SRC);
    define_macro(&mut input, &mut macros, "FOO", "1");
    let mut stack: Vec<CondIncl> = Vec::new();
    let r = conditional_directive(&input.files, &toks, 0, &macros, &mut stack);
    assert_eq!(r, Ok(Some(3)));
    assert!(stack[0].included);
    let r = conditional_directive(&input.files, &toks, 4, &macros, &mut stack);
    assert_eq!(r, Ok(Some(7)));
}

#[test]
fn ifndef_takes_the_group_of_an_undefined_name() {
    let mut input = new_input();
    let macros = new_macros();
    let toks = read(&mut input, "#ifndef FOO\nx\n#endif\n");
    let mut stack: Vec<CondIncl> = Vec::new();
    let r = conditional_directive(&input.files, &toks, 0, &macros, &mut stack);
    assert_eq!(r, Ok(Some(3)));
    assert!(stack[0].included);
}

#[test]
fn a_stray_endif_or_else_is_an_error() {
    let mut input = new_input();
    let macros = new_macros();
    let toks = read(&mut input, "#endif\n#else\n");
    let mut stack: Vec<CondIncl> = Vec::new();
    let e = conditional_directive(&input.files, &toks, 0, &macros, &mut stack).unwrap_err();
    assert!(e.ends_with("stray #endif\n"), "{e}");
    let e = conditional_directive(&input.files, &toks, 2, &macros, &mut stack).unwrap_err();
    assert!(e.ends_with("stray #else\n"), "{e}");
}

#[test]
fn other_directives_are_left_alone() {
    let mut input = new_input();
    let macros = new_macros();
    let toks = read(&mut input, "#define X 1\n");
    let mut stack: Vec<CondIncl> = Vec::new();
    assert_eq!(conditional_directive(&input.files, &toks, 0, &macros, &mut stack), Ok(None));
}

#[test]
fn define_and_undef_change_the_macro_table() {
    let mut input = new_input();
    let mut macros = new_macros();
    let toks = read(&mut input, "#define A 5\nA\n#undef A\nA\n");
    let r = macro_directive(&mut input, &toks, 0, &mut macros);
    assert_eq!(r, Ok(Some(4)));
    assert!(find_macro(&input.files, &toks[4], &macros).is_some());
    let r = macro_directive(&mut input, &toks, 5, &mut macros);
    assert_eq!(r, Ok(Some(8)));
    assert!(find_macro(&input.files, &toks[8], &macros).is_none());
}

#[test]
fn undef_needs_an_identifier() {
    let mut input = new_input();
    let mut macros = new_macros();
    let toks = read(&mut input, "#undef 1\n");
    let e = macro_directive(&mut input, &toks, 0, &mut macros).unwrap_err();
    assert!(e.ends_with("macro name must be an identifier\n"), "{e}");
    assert!(macros.defs.is_empty());
    let toks = read(&mut input, "#pragma once\n");
    assert_eq!(macro_directive(&mut input, &toks, 0, &mut macros), Ok(None));
}

#[test]
fn error_null_and_invalid_directives() {
    let mut input = new_input();
    let toks = read(&mut input, "#error stop\n#\n#foo\n");
    let e = other_directive(&input.files, &toks, 0).unwrap_err();
    assert!(e.ends_with("error\n"), "{e}");
    assert_eq!(other_directive(&input.files, &toks, 3), Ok(4));
    let e = other_directive(&input.files, &toks, 4).unwrap_err();
    assert!(e.ends_with("invalid preprocessor directive\n"), "{e}");
}

#[test]
fn an_open_group_at_the_end_is_an_error() {
    let mut input = new_input();
    let macros = new_macros();
    let toks = read(&mut input, "#ifdef X\ny\n");
    let mut stack: Vec<CondIncl> = Vec::new();
    assert_eq!(conditionals_closed(&input.files, &toks, &stack), Ok(()));
    let _ = conditional_directive(&input.files, &toks, 0, &macros, &mut stack);
    let e = conditionals_closed(&input.files, &toks, &stack).unwrap_err();
    assert!(e.ends_with("unterminated conditional directive\n"), "{e}");
}
