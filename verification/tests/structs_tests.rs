use cc_rs::new_counters;
use cc_rs::parse::new_var;
use cc_rs::parse::{new_node, Node, NodeKind};
use cc_rs::structs::{
    assign_param_offsets, save_param_registers, copy_ret_buffer, copy_struct_mem, copy_struct_reg, count_args, has_flonum, has_flonum1,
    has_flonum2, push_struct,
};
use cc_rs::types::{Member, Type};

fn member(ty: Type, offset: i64, next: Option<Box<Member>>) -> Member {
    Member { next, ty, tok: None, name: None, idx: 0, align: 4, offset }
}

fn struct_of(first: Type, second: Type, second_offset: i64, size: i64) -> Type {
    let b = member(second, second_offset, None);
    let a = member(first, 0, Some(Box::new(b)));
    let mut ty = Type::new_struct();
    ty.members = Some(Box::new(a));
    ty.size = size;
    ty.align = 8;
    ty
}

#[test]
fn eightbytes_of_floats_are_found() {
    let two_floats = struct_of(Type::new_float(), Type::new_float(), 4, 8);
    assert!(has_flonum1(&two_floats));
    let mixed = struct_of(Type::new_int(), Type::new_float(), 4, 8);
    assert!(!has_flonum1(&mixed));
    let long_then_double = struct_of(Type::new_long(), Type::new_double(), 8, 16);
    assert!(!has_flonum1(&long_then_double));
    assert!(has_flonum2(&long_then_double));
    let doubles = Type::new_array(Type::new_double(), 2);
    assert!(has_flonum1(&doubles));
    assert!(has_flonum2(&doubles));
    assert!(has_flonum(&Type::new_int(), 8, 16, 0));
    assert!(!has_flonum(&Type::new_int(), 0, 8, 4));
}

#[test]
fn a_float_struct_is_loaded_into_sse_registers() {
    let ty = struct_of(Type::new_double(), Type::new_float(), 8, 16);
    let mut out = String::new();
    copy_struct_reg(&ty, &mut out);
    assert_eq!(out, "  mov %rax, %rdi\n  movsd (%rdi), %xmm0\n  movsd 8(%rdi), %xmm1\n");
}

#[test]
fn an_integer_struct_is_gathered_byte_by_byte() {
    let ty = struct_of(Type::new_short(), Type::new_char(), 2, 3);
    let mut out = String::new();
    copy_struct_reg(&ty, &mut out);
    assert_eq!(
        out,
        "  mov %rax, %rdi\n  mov $0, %rax\n  shl $8, %rax\n  mov 2(%rdi), %al\n  shl $8, %rax\n  mov 1(%rdi), %al\n  shl $8, %rax\n  mov 0(%rdi), %al\n"
    );
}

#[test]
fn a_returned_struct_is_stored_into_its_buffer() {
    let ty = struct_of(Type::new_float(), Type::new_int(), 8, 10);
    let mut c = new_counters();
    let mut var = new_var("r".to_string(), ty, &mut c);
    var.offset = -16;
    let mut out = String::new();
    copy_ret_buffer(&var, &mut out);
    assert_eq!(
        out,
        "  movsd %xmm0, -16(%rbp)\n  mov %al, -8(%rbp)\n  shr $8, %rax\n  mov %al, -7(%rbp)\n  shr $8, %rax\n"
    );
}

#[test]
fn structs_are_pushed_in_whole_eightbytes() {
    let ty = struct_of(Type::new_char(), Type::new_char(), 1, 2);
    let mut out = String::new();
    let mut depth = 3;
    push_struct(&ty, &mut out, &mut depth);
    assert_eq!(depth, 4);
    assert_eq!(
        out,
        "  sub $8, %rsp\n  mov 0(%rax), %r10b\n  mov %r10b, 0(%rsp)\n  mov 1(%rax), %r10b\n  mov %r10b, 1(%rsp)\n"
    );
    let mut mem = String::new();
    copy_struct_mem(&ty, 24, &mut mem);
    assert_eq!(
        mem,
        "  mov 24(%rbp), %rdi\n  mov 0(%rax), %dl\n  mov %dl, 0(%rdi)\n  mov 1(%rax), %dl\n  mov %dl, 1(%rdi)\n"
    );
}

fn arg_list(tys: Vec<Type>) -> Node {
    let mut head: Option<Box<Node>> = None;
    for ty in tys.into_iter().rev() {
        let mut n = new_node(NodeKind::Num, 0, 1, 1);
        n.ty = Some(ty);
        n.next = head;
        head = Some(Box::new(n));
    }
    *head.unwrap()
}

#[test]
fn arguments_are_classified_into_registers_and_stack() {
    let args = arg_list(vec![
        Type::new_int(),
        Type::new_double(),
        struct_of(Type::new_float(), Type::new_float(), 4, 8),
        Type::new_ldouble(),
    ]);
    let (gp, fp, by_stack, stack) = count_args(&args, None, None);
    assert_eq!((gp, fp, stack), (2, 2, 2));
    assert_eq!(by_stack, vec![false, false, false, true]);
}

#[test]
fn the_seventh_integer_argument_goes_on_the_stack() {
    let args = arg_list((0..7).map(|_| Type::new_long()).collect());
    let (gp, fp, by_stack, stack) = count_args(&args, None, None);
    assert_eq!((gp, fp, stack), (7, 0, 1));
    assert_eq!(by_stack, vec![false, false, false, false, false, false, true]);
}

#[test]
fn a_large_result_buffer_takes_an_integer_register() {
    let mut c = new_counters();
    let buf = new_var("ret".to_string(), Type::new_long(), &mut c);
    let big = struct_of(Type::new_long(), Type::new_long(), 8, 24);
    let args = arg_list(vec![Type::new_int(), big]);
    let (gp, _, by_stack, stack) = count_args(&args, Some(&buf), Some(24));
    assert_eq!(gp, 2);
    assert_eq!(by_stack, vec![false, true]);
    assert_eq!(stack, 3);
    let (gp, _, _, _) = count_args(&args, Some(&buf), Some(16));
    assert_eq!(gp, 1);
}

#[test]
fn parameters_past_the_registers_are_placed_above_the_return_address() {
    let mut c = new_counters();
    let mut params = Vec::new();
    let mut locals = Vec::new();
    for name in ["a", "b", "c", "d", "e", "f", "g"] {
        params.push(new_var(name.to_string(), Type::new_long(), &mut c));
        let mut l = new_var(name.to_string(), Type::new_long(), &mut c);
        l.offset = -8;
        locals.push(l);
    }
    params.push(new_var("s".to_string(), struct_of(Type::new_long(), Type::new_long(), 8, 24), &mut c));
    params.push(new_var("x".to_string(), Type::new_double(), &mut c));
    assign_param_offsets(&mut params, &mut locals);
    let offs: Vec<i64> = params.iter().map(|p| p.offset).collect();
    assert_eq!(offs, vec![0, 0, 0, 0, 0, 0, 16, 24, 0]);
    let loffs: Vec<i64> = locals.iter().map(|l| l.offset).collect();
    assert_eq!(loffs, vec![0, 0, 0, 0, 0, 0, 16]);
}

#[test]
fn register_parameters_are_saved_in_their_homes() {
    let mut c = new_counters();
    let mut params = vec![
        new_var("i".to_string(), Type::new_int(), &mut c),
        new_var("d".to_string(), Type::new_double(), &mut c),
        new_var("p".to_string(), struct_of(Type::new_float(), Type::new_int(), 8, 12), &mut c),
    ];
    let mut locals = Vec::new();
    for (name, off) in [("i", -4), ("d", -16), ("p", -32)] {
        let mut l = new_var(name.to_string(), Type::new_long(), &mut c);
        l.offset = off;
        locals.push(l);
    }
    let mut out = String::new();
    save_param_registers(&mut params, &locals, &mut out);
    assert_eq!(params[2].offset, -32);
    assert_eq!(
        out,
        "  mov %edi, -4(%rbp)\n  movsd %xmm0, -16(%rbp)\n  movsd %xmm1, -32(%rbp)\n  mov %esi, -24(%rbp)\n"
    );
}
