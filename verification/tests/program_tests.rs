use cc_rs::new_counters;
use cc_rs::parse::new_var;
use cc_rs::program::emit_data;
use cc_rs::tokenize::new_file;
use cc_rs::types::Type;

#[test]
fn the_data_part_lists_files_then_defined_globals() {
    let mut c = new_counters();
    let files = vec![new_file("a.c".to_string(), 1, vec![]), new_file("b.h".to_string(), 2, vec![])];
    let mut x = new_var("x".to_string(), Type::new_int(), &mut c);
    x.is_definition = true;
    let mut f = new_var("f".to_string(), Type::new_int(), &mut c);
    f.is_function = true;
    f.is_definition = true;
    let mut y = new_var("y".to_string(), Type::new_long(), &mut c);
    y.is_definition = true;
    let d = new_var("d".to_string(), Type::new_int(), &mut c);
    let globals = vec![x, f, y, d];
    let out = emit_data(&files, &globals, &[false, false, true, false], &[false, false, false, false], false);
    assert_eq!(
        out,
        "  .file 1 \"a.c\"\n  .file 2 \"b.h\"\n\
         \x20 .globl x\n  .bss\n  .align 4\nx:\n  .zero 4\n\
         \x20 .globl y\n  .section .tbss,\"awT\",@nobits\n  .align 8\ny:\n  .zero 8\n"
    );
    let common = emit_data(&[], &globals[..1], &[false], &[true], true);
    assert_eq!(common, "  .globl x\n  .comm x, 4, 4\n");
}
