use cc_rs::data::{emit_global_data, emit_prologue, emit_va_area};
use cc_rs::new_counters;
use cc_rs::parse::{new_var, Relocation};
use cc_rs::types::Type;

#[test]
fn initialized_data_is_spelled_byte_by_byte_with_relocations() {
    let mut c = new_counters();
    let mut var = new_var("g".to_string(), Type::new_array(Type::new_char(), 10), &mut c);
    var.init_data = Some(vec![1, 2, 0, 0, 0, 0, 0, 0, 0, 0]);
    var.rel = Some(Box::new(Relocation { next: None, offset: 2, label: "x".to_string(), addend: -4 }));
    let mut out = String::new();
    emit_global_data(&var, false, false, &mut out);
    assert_eq!(
        out,
        "  .globl g\n  .data\n  .type g, @object\n  .size g, 10\n  .align 1\ng:\n  .byte 1\n  .byte 2\n  .quad x+-4\n"
    );
}

#[test]
fn uninitialized_data_is_zeroed_room() {
    let mut c = new_counters();
    let mut var = new_var("z".to_string(), Type::new_long(), &mut c);
    var.is_static = true;
    let mut out = String::new();
    emit_global_data(&var, false, false, &mut out);
    assert_eq!(out, "  .local z\n  .bss\n  .align 8\nz:\n  .zero 8\n");
    let mut tls = String::new();
    emit_global_data(&var, true, false, &mut tls);
    assert!(tls.contains(".tbss"));
    let mut common = String::new();
    emit_global_data(&var, false, true, &mut common);
    assert_eq!(common, "  .local z\n  .comm z, 8, 8\n");
}

#[test]
fn function_entry_sets_up_the_frame() {
    let mut out = String::new();
    emit_prologue("f", false, 32, Some(-8), &mut out);
    assert_eq!(
        out,
        "  .globl f\n  .text\n  .type f, @function\nf:\n  push %rbp\n  mov %rsp, %rbp\n  sub $32, %rsp\n  mov %rsp, -8(%rbp)\n"
    );
}

#[test]
fn the_register_save_area_counts_the_named_parameters() {
    let mut c = new_counters();
    let params = vec![
        new_var("a".to_string(), Type::new_int(), &mut c),
        new_var("b".to_string(), Type::new_double(), &mut c),
        new_var("s".to_string(), Type::new_ptr(Type::new_char()), &mut c),
    ];
    let mut out = String::new();
    emit_va_area(&params, -136, &mut out);
    let lines: Vec<&str> = out.lines().collect();
    assert_eq!(lines.len(), 20);
    assert_eq!(lines[0], "  movl $16, -136(%rbp)");
    assert_eq!(lines[1], "  movl $56, -132(%rbp)");
    assert_eq!(lines[2], "  lea 16(%rbp), %rax");
    assert_eq!(lines[3], "  movq %rax, -128(%rbp)");
    assert_eq!(lines[4], "  lea -112(%rbp), %rax");
    assert_eq!(lines[6], "  movq %rdi, -112(%rbp)");
    assert_eq!(lines[19], "  movsd %xmm7, -8(%rbp)");
}
