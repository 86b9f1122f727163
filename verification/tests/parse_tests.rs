use cc_rs::parse::{
    add_type, eval, EvalStop, find_typedef, find_var, get_common_type, get_struct_member, is_typename,
    consume_end, create_param_lvars, is_end, new_add, new_binary, new_cast, new_lvar, new_num, new_sub, new_unary, new_var, new_var_node,
    push_tag_scope, find_tag, struct_ref, NodeKind, VarScope,
};
use cc_rs::tokenize::{new_file, tokenize, File};
use cc_rs::types::{Member, Type, TypeKind};
use cc_rs::{new_counters, new_unique_name};

fn files_of(src: &str) -> Vec<File> {
    vec![new_file("t.c".to_string(), 1, src.chars().collect())]
}

#[test]
fn constants_are_typed_by_size() {
    let mut small = new_num(7, 0, 1, 1);
    add_type(&mut small);
    assert_eq!(small.ty.as_ref().unwrap().kind, TypeKind::Int);
    let mut big = new_num(1 << 40, 0, 1, 1);
    add_type(&mut big);
    assert_eq!(big.ty.as_ref().unwrap().kind, TypeKind::Long);
}

#[test]
fn arithmetic_converts_to_the_common_type() {
    let mut n = new_binary(NodeKind::Add, new_num(1, 0, 1, 1), new_num(1 << 40, 0, 1, 1), 0, 1, 1);
    add_type(&mut n);
    assert_eq!(n.ty.as_ref().unwrap().kind, TypeKind::Long);
    let lhs = n.lhs.as_ref().unwrap();
    assert_eq!(lhs.kind, NodeKind::Cast);
    assert_eq!(lhs.ty.as_ref().unwrap().kind, TypeKind::Long);
    let mut c = new_binary(NodeKind::Lt, new_num(1, 0, 1, 1), new_num(1 << 40, 0, 1, 1), 0, 1, 1);
    add_type(&mut c);
    assert_eq!(c.ty.as_ref().unwrap().kind, TypeKind::Int);
}

#[test]
fn common_types() {
    let t = get_common_type(&Type::new_char(), &Type::new_short());
    assert_eq!(t.kind, TypeKind::Int);
    let t = get_common_type(&Type::new_int(), &Type::new_ulong());
    assert_eq!(t.kind, TypeKind::Long);
    assert!(t.is_unsigned);
    let t = get_common_type(&Type::new_float(), &Type::new_double());
    assert_eq!(t.kind, TypeKind::Double);
    let t = get_common_type(&Type::new_ptr(Type::new_int()), &Type::new_long());
    assert_eq!(t.kind, TypeKind::Ptr);
}

#[test]
fn constant_folding() {
    let files = files_of("x\n");
    let mul = new_binary(NodeKind::Mul, new_num(3, 0, 1, 1), new_num(4, 0, 1, 1), 0, 1, 1);
    let mut n = new_binary(NodeKind::Add, new_num(2, 0, 1, 1), mul, 0, 1, 1);
    assert_eq!(eval(&files, &mut n), Ok(14));
    let mut s = new_binary(NodeKind::Shl, new_num(1, 0, 1, 1), new_num(10, 0, 1, 1), 0, 1, 1);
    assert_eq!(eval(&files, &mut s), Ok(1024));
    let mut d = new_binary(NodeKind::Div, new_num(-7, 0, 1, 1), new_num(2, 0, 1, 1), 0, 1, 1);
    assert_eq!(eval(&files, &mut d), Ok(-3));
    let mut m = new_binary(NodeKind::Mod, new_num(-7, 0, 1, 1), new_num(2, 0, 1, 1), 0, 1, 1);
    assert_eq!(eval(&files, &mut m), Ok(-1));
    let mut neg = new_unary(NodeKind::Neg, new_num(5, 0, 1, 1), 0, 1, 1);
    assert_eq!(eval(&files, &mut neg), Ok(-5));
    let mut cmp = new_binary(NodeKind::Lt, new_num(1, 0, 1, 1), new_num(2, 0, 1, 1), 0, 1, 1);
    assert_eq!(eval(&files, &mut cmp), Ok(1));
    let mut c = new_cast(new_num(300, 0, 1, 1), Type::new_char());
    assert_eq!(eval(&files, &mut c), Ok(44));
}

#[test]
fn folding_a_variable_is_an_error() {
    let files = files_of("abc\n");
    let mut counters = new_counters();
    let var = new_var("v".to_string(), Type::new_int(), &mut counters);
    let mut n = new_var_node(var, 1, 1, 1);
    let err = eval(&files, &mut n).unwrap_err();
    assert_eq!(
        err,
        EvalStop::Error(format!("t.c:1: abc\n{}^ not a compile-time constant\n", " ".repeat(8)))
    );
}

#[test]
fn a_floating_point_variable_is_no_constant() {
    let files = files_of("abc\n");
    let mut counters = new_counters();
    let var = new_var("f".to_string(), Type::new_float(), &mut counters);
    let mut n = new_var_node(var, 1, 1, 1);
    let err = eval(&files, &mut n).unwrap_err();
    assert_eq!(
        err,
        EvalStop::Error(format!("t.c:1: abc\n{}^ not a compile-time constant\n", " ".repeat(8)))
    );
}

#[test]
fn a_floating_point_constant_is_left_to_the_caller() {
    let files = files_of("x\n");
    let mut c = new_cast(new_num(1, 0, 1, 1), Type::new_double());
    assert_eq!(eval(&files, &mut c), Err(EvalStop::FloatingPoint));
    let d = new_cast(new_num(2, 0, 1, 1), Type::new_double());
    let mut cmp = new_binary(NodeKind::Lt, d, new_num(3, 0, 1, 1), 0, 1, 1);
    assert_eq!(eval(&files, &mut cmp), Err(EvalStop::FloatingPoint));
}

#[test]
fn pointer_addition_scales_by_the_element_size() {
    let files = files_of("p + 1\n");
    let mut counters = new_counters();
    let p = new_var("p".to_string(), Type::new_ptr(Type::new_int()), &mut counters);
    let r = new_add(new_var_node(p, 0, 1, 1), new_num(3, 4, 1, 1), 2, 1, 1, &files).unwrap();
    assert_eq!(r.kind, NodeKind::Add);
    assert_eq!(r.lhs.as_ref().unwrap().kind, NodeKind::Var);
    let scaled = r.rhs.as_ref().unwrap();
    assert_eq!(scaled.kind, NodeKind::Mul);
    assert_eq!(scaled.lhs.as_ref().unwrap().val, 3);
    assert_eq!(scaled.rhs.as_ref().unwrap().val, 4);
    // number + pointer puts the pointer first
    let q = new_var("q".to_string(), Type::new_ptr(Type::new_long()), &mut counters);
    let r = new_add(new_num(2, 0, 1, 1), new_var_node(q, 4, 1, 1), 2, 1, 1, &files).unwrap();
    assert_eq!(r.lhs.as_ref().unwrap().kind, NodeKind::Var);
    assert_eq!(r.rhs.as_ref().unwrap().rhs.as_ref().unwrap().val, 8);
    // numbers are added as they are
    let r = new_add(new_num(2, 0, 1, 1), new_num(3, 0, 1, 1), 2, 1, 1, &files).unwrap();
    assert_eq!(r.kind, NodeKind::Add);
    assert_eq!(r.rhs.as_ref().unwrap().val, 3);
}

#[test]
fn adding_two_pointers_is_refused() {
    let files = files_of("p + q\n");
    let mut counters = new_counters();
    let p = new_var("p".to_string(), Type::new_ptr(Type::new_int()), &mut counters);
    let q = new_var("q".to_string(), Type::new_ptr(Type::new_int()), &mut counters);
    let err = new_add(new_var_node(p, 0, 1, 1), new_var_node(q, 4, 1, 1), 2, 1, 1, &files)
        .unwrap_err();
    assert_eq!(err, format!("t.c:1: p + q\n{}^ invalid operands\n", " ".repeat(9)));
}

#[test]
fn pointer_subtraction() {
    let files = files_of("p - q\n");
    let mut counters = new_counters();
    let p = new_var("p".to_string(), Type::new_ptr(Type::new_int()), &mut counters);
    let q = new_var("q".to_string(), Type::new_ptr(Type::new_int()), &mut counters);
    let r = new_sub(new_var_node(p, 0, 1, 1), new_var_node(q, 4, 1, 1), 2, 1, 1, &files).unwrap();
    assert_eq!(r.kind, NodeKind::Div);
    assert_eq!(r.ty.as_ref().unwrap().kind, TypeKind::Long);
    assert_eq!(r.lhs.as_ref().unwrap().kind, NodeKind::Sub);
    assert_eq!(r.rhs.as_ref().unwrap().val, 4);
    let p = new_var("p".to_string(), Type::new_ptr(Type::new_short()), &mut counters);
    let r = new_sub(new_var_node(p, 0, 1, 1), new_num(1, 4, 1, 1), 2, 1, 1, &files).unwrap();
    assert_eq!(r.kind, NodeKind::Sub);
    assert_eq!(r.ty.as_ref().unwrap().kind, TypeKind::Ptr);
    let scaled = r.rhs.as_ref().unwrap();
    assert_eq!(scaled.kind, NodeKind::Mul);
    assert_eq!(scaled.ty.as_ref().unwrap().kind, TypeKind::Long);
    let size = scaled.rhs.as_ref().unwrap();
    assert_eq!(size.kind, NodeKind::Cast);
    assert_eq!(size.lhs.as_ref().unwrap().val, 2);
    let err = new_sub(new_num(1, 0, 1, 1), new_var_node(q_of(&mut counters), 4, 1, 1), 2, 1, 1, &files)
        .unwrap_err();
    assert!(err.ends_with("^ invalid operands\n"));
}

fn q_of(counters: &mut cc_rs::Counters) -> cc_rs::parse::Obj {
    new_var("q".to_string(), Type::new_ptr(Type::new_int()), counters)
}

fn point_type() -> Type {
    let mut ty = Type::new_struct();
    let y = Member {
        next: None,
        ty: Type::new_long(),
        tok: None,
        name: Some("y".to_string()),
        idx: 1,
        align: 8,
        offset: 8,
    };
    let x = Member {
        next: Some(Box::new(y)),
        ty: Type::new_int(),
        tok: None,
        name: Some("x".to_string()),
        idx: 0,
        align: 4,
        offset: 0,
    };
    ty.members = Some(Box::new(x));
    ty.size = 16;
    ty.align = 8;
    ty
}

#[test]
fn struct_members_are_found_by_name() {
    let files = files_of("s.y s.z\n");
    let toks = tokenize(&files[0]);
    let ty = point_type();
    let m = get_struct_member(&files, &ty, &toks[2]).unwrap();
    assert_eq!(m.offset, 8);
    assert_eq!(m.ty.kind, TypeKind::Long);
    let err = get_struct_member(&files, &ty, &toks[5]).unwrap_err();
    assert_eq!(err, format!("t.c:1: s.y s.z\n{}^ no such member\n", " ".repeat(13)));
}

#[test]
fn member_access_nodes() {
    let files = files_of("s.y\n");
    let toks = tokenize(&files[0]);
    let mut counters = new_counters();
    let s = new_var("s".to_string(), point_type(), &mut counters);
    let r = struct_ref(&files, new_var_node(s, 0, 1, 1), &toks[2]).unwrap();
    assert_eq!(r.kind, NodeKind::Member);
    assert_eq!(r.member.as_ref().unwrap().offset, 8);
    assert_eq!(r.tok_loc, 2);
    let i = new_var("i".to_string(), Type::new_int(), &mut counters);
    let err = struct_ref(&files, new_var_node(i, 0, 1, 1), &toks[2]).unwrap_err();
    assert!(err.ends_with("^ not a struct nor a union\n"));
}

#[test]
fn scopes_find_the_innermost_name() {
    let mut counters = new_counters();
    let mut locals = Vec::new();
    let mut scopes: Vec<Vec<VarScope>> = vec![Vec::new()];
    let outer = new_lvar("a".to_string(), Type::new_int(), &mut locals, &mut scopes, &mut counters);
    scopes.push(Vec::new());
    let inner = new_lvar("a".to_string(), Type::new_long(), &mut locals, &mut scopes, &mut counters);
    assert_ne!(outer.unique_id, inner.unique_id);
    let found = find_var(&scopes, &[], "a").unwrap();
    assert_eq!(found.var.as_ref().unwrap().unique_id, inner.unique_id);
    assert!(find_var(&scopes, &[], "b").is_none());
    assert_eq!(locals.len(), 2);
}

#[test]
fn typedef_names_are_type_names() {
    let files = files_of("T int x\n");
    let toks = tokenize(&files[0]);
    let scopes: Vec<Vec<VarScope>> = vec![vec![VarScope {
        name: "T".to_string(),
        var: None,
        type_def: Some(Type::new_long()),
        enum_ty: None,
        enum_val: 0,
    }]];
    assert_eq!(find_typedef(&scopes, &toks[0], &files).unwrap().kind, TypeKind::Long);
    assert!(is_typename(&files, &toks[0], &scopes));
    assert!(is_typename(&files, &toks[1], &scopes));
    assert!(!is_typename(&files, &toks[2], &scopes));
}

#[test]
fn tags_are_scoped() {
    let mut tags = vec![Vec::new()];
    push_tag_scope(&mut tags, "s".to_string(), Type::new_struct());
    assert_eq!(find_tag(&tags, "s").unwrap().kind, TypeKind::Struct);
    assert!(find_tag(&tags, "t").is_none());
}

#[test]
fn unique_names_count_up() {
    let mut c = new_counters();
    assert_eq!(new_unique_name(&mut c), ".L..0");
    assert_eq!(new_unique_name(&mut c), ".L..1");
}

#[test]
fn parameters_become_locals_in_order() {
    let files = files_of("a b\n");
    let toks = tokenize(&files[0]);
    let mut second = Type::new_long();
    second.name = Some(1);
    second.name_pos = Some(1);
    let mut first = Type::new_int();
    first.name = Some(0);
    first.name_pos = Some(0);
    first.next = Some(Box::new(second));
    let mut counters = new_counters();
    let mut locals = Vec::new();
    let mut scopes: Vec<Vec<VarScope>> = vec![Vec::new()];
    assert_eq!(create_param_lvars(&files, &toks, &first, &mut locals, &mut scopes, &mut counters), Ok(()));
    assert_eq!(locals.len(), 2);
    assert_eq!(locals[0].name, "a");
    assert_eq!(locals[1].name, "b");
    assert_eq!(locals[1].ty.kind, TypeKind::Long);
    assert!(locals[0].is_local);
    assert_eq!(scopes[0].len(), 2);
    assert_eq!(scopes[0][1].name, "b");
    assert_eq!(find_var(&scopes, &[], "a").unwrap().var.as_ref().unwrap().unique_id, locals[0].unique_id);
}

#[test]
fn a_parameter_without_a_name_is_an_error() {
    let files = files_of("a )\n");
    let toks = tokenize(&files[0]);
    let mut second = Type::new_long();
    second.name_pos = Some(1);
    let mut first = Type::new_int();
    first.name = Some(0);
    first.name_pos = Some(0);
    first.next = Some(Box::new(second));
    let mut counters = new_counters();
    let mut locals = Vec::new();
    let mut scopes: Vec<Vec<VarScope>> = vec![Vec::new()];
    let r = create_param_lvars(&files, &toks, &first, &mut locals, &mut scopes, &mut counters);
    let e = r.unwrap_err();
    assert!(e.contains("parameter name omitted"), "{}", e);
    assert_eq!(locals.len(), 1);
    assert_eq!(locals[0].name, "a");
}

#[test]
fn the_end_of_a_list_is_a_brace_or_a_comma_and_a_brace() {
    let files = files_of("} , } , x\n");
    let toks = tokenize(&files[0]);
    assert!(is_end(&files, &toks, 0));
    assert!(is_end(&files, &toks, 1));
    assert!(!is_end(&files, &toks, 3));
    assert_eq!(consume_end(&files, &toks, 0), (true, 1));
    assert_eq!(consume_end(&files, &toks, 1), (true, 3));
    assert_eq!(consume_end(&files, &toks, 3), (false, 3));
}

#[test]
fn variable_identities_count_up_from_zero() {
    let mut c = new_counters();
    assert_eq!(cc_rs::new_var_unique_id(&mut c), 0);
    assert_eq!(cc_rs::new_var_unique_id(&mut c), 1);
    assert_eq!(cc_rs::new_var_unique_id(&mut c), 2);
    assert_eq!(new_unique_name(&mut c), ".L..0");
}

#[test]
fn the_common_integer_type_does_not_depend_on_the_order() {
    let a = Type::new_short();
    let b = Type::new_uint();
    let r1 = get_common_type(&a, &b);
    let r2 = get_common_type(&b, &a);
    assert_eq!((r1.kind, r1.size, r1.is_unsigned), (r2.kind, r2.size, r2.is_unsigned));
    assert_eq!((r1.size, r1.is_unsigned), (4, true));
    let r = get_common_type(&Type::new_char(), &Type::new_short());
    assert_eq!((r.kind, r.size, r.is_unsigned), (TypeKind::Int, 4, false));
}
