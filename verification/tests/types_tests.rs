use cc_rs::align_to;
use cc_rs::parse::{copy_type, func_type, pointer_to};
use cc_rs::types::{is_flonum, is_integer, is_numeric, Type, TypeKind};

#[test]
fn builtin_types() {
    let t = Type::new_int();
    assert_eq!((t.kind, t.size, t.align), (TypeKind::Int, 4, 4));
    let t = Type::new_ulong();
    assert_eq!((t.kind, t.size, t.is_unsigned), (TypeKind::Long, 8, true));
    let t = Type::new_ldouble();
    assert_eq!((t.size, t.align), (16, 16));
    assert!(is_integer(&Type::new_bool()));
    assert!(is_integer(&Type::new_enum()));
    assert!(!is_integer(&Type::new_float()));
    assert!(is_flonum(&Type::new_double()));
    assert!(is_numeric(&Type::new_char()));
    assert!(!is_numeric(&Type::new_ptr(Type::new_int())));
}

#[test]
fn derived_types() {
    let a = Type::new_array(Type::new_int(), 10);
    assert_eq!((a.kind, a.size, a.align, a.array_len), (TypeKind::Array, 40, 4, 10));
    assert_eq!(a.base.as_ref().unwrap().kind, TypeKind::Int);
    let p = pointer_to(Type::new_char());
    assert_eq!((p.kind, p.size, p.is_unsigned), (TypeKind::Ptr, 8, true));
    let f = func_type(Type::new_void());
    assert_eq!(f.kind, TypeKind::Func);
    assert_eq!(f.return_ty.as_ref().unwrap().kind, TypeKind::Void);
    let c = copy_type(&a);
    assert_eq!((c.kind, c.size, c.array_len), (TypeKind::Array, 40, 10));
}

#[test]
fn alignment() {
    assert_eq!(align_to(0, 8), 0);
    assert_eq!(align_to(1, 8), 8);
    assert_eq!(align_to(16, 16), 16);
    assert_eq!(align_to(17, 4), 20);
    assert_eq!(align_to(-5, 4), 0);
}
