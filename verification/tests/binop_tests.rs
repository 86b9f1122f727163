use cc_rs::binop::gen_binary_op;
use cc_rs::parse::NodeKind;
use cc_rs::types::Type;

fn emit(kind: NodeKind, ty: &Type) -> Option<String> {
    let mut out = String::new();
    if gen_binary_op(kind, ty, &mut out) {
        Some(out)
    } else {
        assert!(out.is_empty());
        None
    }
}

#[test]
fn integer_operators_use_the_registers_of_the_operand_size() {
    assert_eq!(emit(NodeKind::Add, &Type::new_int()).unwrap(), "  add %edi, %eax\n");
    assert_eq!(emit(NodeKind::Sub, &Type::new_long()).unwrap(), "  sub %rdi, %rax\n");
    assert_eq!(
        emit(NodeKind::Mod, &Type::new_long()).unwrap(),
        "  cqo\n  idiv %rdi\n  mov %rdx, %rax\n"
    );
    assert_eq!(
        emit(NodeKind::Div, &Type::new_ulong()).unwrap(),
        "  mov $0, %rdx\n  div %rdi\n"
    );
    assert_eq!(
        emit(NodeKind::Shr, &Type::new_int()).unwrap(),
        "  mov %rdi, %rcx\n  sar %cl, %eax\n"
    );
    assert_eq!(
        emit(NodeKind::Lt, &Type::new_ulong()).unwrap(),
        "  cmp %rdi, %rax\n  setb %al\n  movzb %al, %rax\n"
    );
}

#[test]
fn floating_operators_use_sse_and_x87() {
    assert_eq!(emit(NodeKind::Mul, &Type::new_double()).unwrap(), "  mulsd %xmm1, %xmm0\n");
    assert_eq!(
        emit(NodeKind::Eq, &Type::new_float()).unwrap(),
        "  ucomiss %xmm0, %xmm1\n  sete %al\n  setnp %dl\n  and %dl, %al\n  and $1, %al\n  movzb %al, %rax\n"
    );
    assert_eq!(emit(NodeKind::Mod, &Type::new_double()), None);
}

#[test]
fn non_operators_emit_nothing() {
    assert_eq!(emit(NodeKind::Num, &Type::new_int()), None);
}
