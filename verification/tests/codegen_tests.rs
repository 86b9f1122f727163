use cc_rs::codegen::{
    assign_local_offsets, cast_type, cmp_zero, effective_var_align, fix_var_offsets, get_type_id,
    load, store, store_fp, store_gp, F64, I32, I8, U64,
};
use cc_rs::new_counters;
use cc_rs::parse::{new_binary, new_var, new_var_node, NodeKind, Obj};
use cc_rs::types::Type;

#[test]
fn type_ids() {
    assert_eq!(get_type_id(&Type::new_char()), I8);
    assert_eq!(get_type_id(&Type::new_int()), I32);
    assert_eq!(get_type_id(&Type::new_double()), F64);
    assert_eq!(get_type_id(&Type::new_ptr(Type::new_int())), U64);
    assert_eq!(get_type_id(&Type::new_bool()), 4);
}

fn cast(from: Type, to: Type) -> String {
    let mut s = String::new();
    cast_type(&from, &to, &mut s);
    s
}

#[test]
fn conversions() {
    assert_eq!(cast(Type::new_int(), Type::new_char()), "  movsbl %al, %eax\n");
    assert_eq!(cast(Type::new_int(), Type::new_long()), "  movsxd %eax, %rax\n");
    assert_eq!(cast(Type::new_uint(), Type::new_long()), "  mov %eax, %eax\n");
    assert_eq!(cast(Type::new_double(), Type::new_int()), "  cvttsd2sil %xmm0, %eax\n");
    assert_eq!(cast(Type::new_float(), Type::new_double()), "  cvtss2sd %xmm0, %xmm0\n");
    assert_eq!(cast(Type::new_long(), Type::new_int()), "");
    assert_eq!(cast(Type::new_int(), Type::new_int()), "");
    assert_eq!(cast(Type::new_int(), Type::new_void()), "");
    assert_eq!(
        cast(Type::new_int(), Type::new_bool()),
        "  cmp $0, %eax\n  setne %al\n  movzb %al, %rax\n"
    );
    assert_eq!(
        cast(Type::new_float(), Type::new_bool()),
        "  xorps %xmm1, %xmm1\n  ucomiss %xmm0, %xmm1\n  setp %al\n  setne %dl\n  or %dl, %al\n  movzb %al, %rax\n"
    );
}

#[test]
fn loads_and_stores() {
    let mut s = String::new();
    load(&Type::new_uchar(), &mut s);
    load(&Type::new_short(), &mut s);
    load(&Type::new_int(), &mut s);
    load(&Type::new_array(Type::new_int(), 4), &mut s);
    assert_eq!(s, "  movzbl (%rax), %eax\n  movswl (%rax), %eax\n  movsxd (%rax), %rax\n");
    let mut s = String::new();
    let mut depth = 3;
    store(&Type::new_long(), &mut s, &mut depth);
    assert_eq!(s, "  pop %rdi\n  mov %rax, (%rdi)\n");
    assert_eq!(depth, 2);
    let mut st = Type::new_struct();
    st.size = 2;
    let mut s = String::new();
    store(&st, &mut s, &mut depth);
    assert_eq!(
        s,
        "  pop %rdi\n  mov 0(%rax), %r8b\n  mov %r8b, 0(%rdi)\n  mov 1(%rax), %r8b\n  mov %r8b, 1(%rdi)\n"
    );
    let mut s = String::new();
    cmp_zero(&Type::new_long(), &mut s);
    assert_eq!(s, "  cmp $0, %rax\n");
}

#[test]
fn spilling_arguments() {
    let mut s = String::new();
    store_gp(0, -8, 8, &mut s);
    store_gp(1, -12, 4, &mut s);
    assert_eq!(s, "  mov %rdi, -8(%rbp)\n  mov %esi, -12(%rbp)\n");
    let mut s = String::new();
    store_gp(2, -16, 3, &mut s);
    assert_eq!(
        s,
        "  mov %dl, -16(%rbp)\n  shr $8, %rdx\n  mov %dl, -15(%rbp)\n  shr $8, %rdx\n  mov %dl, -14(%rbp)\n  shr $8, %rdx\n"
    );
    let mut s = String::new();
    store_fp(1, -24, 8, &mut s);
    store_fp(0, -28, 4, &mut s);
    assert_eq!(s, "  movsd %xmm1, -24(%rbp)\n  movss %xmm0, -28(%rbp)\n");
}

fn local(name: &str, ty: Type, c: &mut cc_rs::Counters) -> Obj {
    new_var(name.to_string(), ty, c)
}

#[test]
fn frame_layout() {
    let mut c = new_counters();
    let mut locals = vec![
        local("a", Type::new_int(), &mut c),
        local("b", Type::new_char(), &mut c),
        local("c", Type::new_long(), &mut c),
        local("d", Type::new_array(Type::new_char(), 20), &mut c),
    ];
    assert_eq!(effective_var_align(&locals[3]), 16);
    let size = assign_local_offsets(&mut locals, &[]);
    // placed from the last one up: d at -32, c at -40, b at -41, a at -48
    let offsets: Vec<i64> = locals.iter().map(|v| v.offset).collect();
    assert_eq!(offsets, vec![-48, -41, -40, -32]);
    assert_eq!(size, 48);
}

#[test]
fn locals_with_offsets_keep_them() {
    let mut c = new_counters();
    let mut p = local("p", Type::new_long(), &mut c);
    p.offset = 16;
    let mut locals = vec![p, local("x", Type::new_int(), &mut c)];
    let size = assign_local_offsets(&mut locals, &[]);
    assert_eq!(locals[0].offset, 16);
    assert_eq!(locals[1].offset, -4);
    assert_eq!(size, 16);
}

#[test]
fn variable_references_get_local_offsets() {
    let mut c = new_counters();
    let a = local("a", Type::new_int(), &mut c);
    let b = local("b", Type::new_int(), &mut c);
    let mut la = local("a", Type::new_int(), &mut c);
    la.unique_id = a.unique_id;
    la.offset = -4;
    let mut node = new_binary(
        NodeKind::Add,
        new_var_node(a, 0, 1, 1),
        new_var_node(b, 0, 1, 1),
        0,
        1,
        1,
    );
    fix_var_offsets(&mut node, &[la]);
    assert_eq!(node.lhs.as_ref().unwrap().var.as_ref().unwrap().offset, -4);
    assert_eq!(node.rhs.as_ref().unwrap().var.as_ref().unwrap().offset, 0);
}

#[test]
fn alloca_moves_the_temporaries_down() {
    let mut out = String::new();
    cc_rs::codegen::builtin_alloca(-24, &mut out);
    let lines: Vec<&str> = out.lines().collect();
    assert_eq!(lines.len(), 20);
    assert_eq!(lines[0], "  add $15, %rdi");
    assert_eq!(lines[2], "  mov -24(%rbp), %rcx");
    assert_eq!(lines[17], "  mov -24(%rbp), %rax");
    assert_eq!(lines[19], "  mov %rax, -24(%rbp)");
}
