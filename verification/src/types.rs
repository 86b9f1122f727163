use vstd::prelude::*;

verus! {

/// The kinds of C types the compiler knows.
#[derive(Debug, Clone, Copy, PartialEq, Eq, Structural)]
pub enum TypeKind {
    Void,
    Bool,
    Char,
    Short,
    Int,
    Long,
    Float,
    Double,
    LDouble,
    Enum,
    Ptr,
    Func,
    Array,
    Struct,
    Union,
}

/// A member of a struct or union, linked to the next member.
#[derive(Debug)]
pub struct Member {
    pub next: Option<Box<Member>>,
    pub ty: Type,
    /// Index of the token that names the member, if any.
    pub tok: Option<usize>,
    /// The member's name, if any.
    pub name: Option<String>,
    pub idx: i64,
    pub align: i64,
    pub offset: i64,
}

/// A C type. Pointers and arrays own their base type; function types own
/// their return type and a linked list of parameter types.
#[derive(Debug)]
pub struct Type {
    pub kind: TypeKind,
    pub size: i64,
    pub align: i64,
    pub is_unsigned: bool,
    pub base: Option<Box<Type>>,
    /// Index of the token that names a declarator of this type, if any.
    pub name: Option<usize>,
    /// Index of the token where that name stands or would stand.
    pub name_pos: Option<usize>,
    pub return_ty: Option<Box<Type>>,
    pub params: Option<Box<Type>>,
    pub next: Option<Box<Type>>,
    pub array_len: i64,
    pub members: Option<Box<Member>>,
    pub is_flexible: bool,
    pub is_variadic: bool,
}

/// The value of a type with the given kind, size, alignment and signedness
/// and nothing else attached.
pub open spec fn plain_type(kind: TypeKind, size: i64, align: i64, is_unsigned: bool) -> Type {
    Type {
        kind,
        size,
        align,
        is_unsigned,
        base: None,
        name: None,
        name_pos: None,
        return_ty: None,
        params: None,
        next: None,
        array_len: 0,
        members: None,
        is_flexible: false,
        is_variadic: false,
    }
}

/// Integer types: `_Bool`, `char`, `short`, `int`, `long` and enums.
pub open spec fn spec_is_integer(ty: Type) -> bool {
    ty.kind == TypeKind::Bool || ty.kind == TypeKind::Char || ty.kind == TypeKind::Short
        || ty.kind == TypeKind::Int || ty.kind == TypeKind::Long || ty.kind == TypeKind::Enum
}

/// Floating-point types.
pub open spec fn spec_is_flonum(ty: Type) -> bool {
    ty.kind == TypeKind::Float || ty.kind == TypeKind::Double || ty.kind == TypeKind::LDouble
}

/// Arithmetic types: integers and floating-point types.
pub open spec fn spec_is_numeric(ty: Type) -> bool {
    spec_is_integer(ty) || spec_is_flonum(ty)
}

/// Whether a type is an integer type.
pub fn is_integer(ty: &Type) -> (r: bool)
    ensures
        r == spec_is_integer(*ty),
{
    match ty.kind {
        TypeKind::Bool | TypeKind::Char | TypeKind::Short | TypeKind::Int | TypeKind::Long
        | TypeKind::Enum => true,
        _ => false,
    }
}

/// Whether a type is a floating-point type.
pub fn is_flonum(ty: &Type) -> (r: bool)
    ensures
        r == spec_is_flonum(*ty),
{
    match ty.kind {
        TypeKind::Float | TypeKind::Double | TypeKind::LDouble => true,
        _ => false,
    }
}

/// Whether a type is an arithmetic type.
pub fn is_numeric(ty: &Type) -> (r: bool)
    ensures
        r == spec_is_numeric(*ty),
{
    is_integer(ty) || is_flonum(ty)
}

fn plain(kind: TypeKind, size: i64, align: i64, is_unsigned: bool) -> (r: Type)
    ensures
        r == plain_type(kind, size, align, is_unsigned),
{
    Type {
        kind,
        size,
        align,
        is_unsigned,
        base: None,
        name: None,
        name_pos: None,
        return_ty: None,
        params: None,
        next: None,
        array_len: 0,
        members: None,
        is_flexible: false,
        is_variadic: false,
    }
}

/// A deep copy of an optional boxed type.
pub fn clone_type_opt(t: &Option<Box<Type>>) -> (r: Option<Box<Type>>)
    ensures
        r == *t,
    decreases t,
{
    match t {
        Some(b) => Some(Box::new(clone_type(b))),
        None => None,
    }
}

/// A deep copy of an optional boxed member list.
pub fn clone_member_opt(m: &Option<Box<Member>>) -> (r: Option<Box<Member>>)
    ensures
        r == *m,
    decreases m,
{
    match m {
        Some(b) => Some(Box::new(clone_member(b))),
        None => None,
    }
}

/// A copy of an optional string.
pub fn clone_string_opt(s: &Option<String>) -> (r: Option<String>)
    ensures
        r == *s,
{
    match s {
        Some(x) => Some(x.clone()),
        None => None,
    }
}

/// A deep copy of a member list entry.
pub fn clone_member(m: &Member) -> (r: Member)
    ensures
        r == *m,
    decreases m,
{
    Member {
        next: clone_member_opt(&m.next),
        ty: clone_type(&m.ty),
        tok: m.tok,
        name: clone_string_opt(&m.name),
        idx: m.idx,
        align: m.align,
        offset: m.offset,
    }
}

/// A deep copy of a type.
pub fn clone_type(t: &Type) -> (r: Type)
    ensures
        r == *t,
    decreases t,
{
    Type {
        kind: t.kind,
        size: t.size,
        align: t.align,
        is_unsigned: t.is_unsigned,
        base: clone_type_opt(&t.base),
        name: t.name,
        name_pos: t.name_pos,
        return_ty: clone_type_opt(&t.return_ty),
        params: clone_type_opt(&t.params),
        next: clone_type_opt(&t.next),
        array_len: t.array_len,
        members: clone_member_opt(&t.members),
        is_flexible: t.is_flexible,
        is_variadic: t.is_variadic,
    }
}

impl Type {
    /// `void`: size 1, alignment 1.
    pub fn new_void() -> (r: Type)
        ensures
            r == plain_type(TypeKind::Void, 1, 1, false),
    {
        plain(TypeKind::Void, 1, 1, false)
    }

    /// `_Bool`: size 1, alignment 1.
    pub fn new_bool() -> (r: Type)
        ensures
            r == plain_type(TypeKind::Bool, 1, 1, false),
    {
        plain(TypeKind::Bool, 1, 1, false)
    }

    /// `char`: size 1, alignment 1, signed.
    pub fn new_char() -> (r: Type)
        ensures
            r == plain_type(TypeKind::Char, 1, 1, false),
    {
        plain(TypeKind::Char, 1, 1, false)
    }

    /// `short`: size 2, alignment 2, signed.
    pub fn new_short() -> (r: Type)
        ensures
            r == plain_type(TypeKind::Short, 2, 2, false),
    {
        plain(TypeKind::Short, 2, 2, false)
    }

    /// `int`: size 4, alignment 4, signed.
    pub fn new_int() -> (r: Type)
        ensures
            r == plain_type(TypeKind::Int, 4, 4, false),
    {
        plain(TypeKind::Int, 4, 4, false)
    }

    /// `long`: size 8, alignment 8, signed.
    pub fn new_long() -> (r: Type)
        ensures
            r == plain_type(TypeKind::Long, 8, 8, false),
    {
        plain(TypeKind::Long, 8, 8, false)
    }

    /// `unsigned char`.
    pub fn new_uchar() -> (r: Type)
        ensures
            r == plain_type(TypeKind::Char, 1, 1, true),
    {
        plain(TypeKind::Char, 1, 1, true)
    }

    /// `unsigned short`.
    pub fn new_ushort() -> (r: Type)
        ensures
            r == plain_type(TypeKind::Short, 2, 2, true),
    {
        plain(TypeKind::Short, 2, 2, true)
    }

    /// `unsigned int`.
    pub fn new_uint() -> (r: Type)
        ensures
            r == plain_type(TypeKind::Int, 4, 4, true),
    {
        plain(TypeKind::Int, 4, 4, true)
    }

    /// `unsigned long`.
    pub fn new_ulong() -> (r: Type)
        ensures
            r == plain_type(TypeKind::Long, 8, 8, true),
    {
        plain(TypeKind::Long, 8, 8, true)
    }

    /// `float`: size 4, alignment 4.
    pub fn new_float() -> (r: Type)
        ensures
            r == plain_type(TypeKind::Float, 4, 4, false),
    {
        plain(TypeKind::Float, 4, 4, false)
    }

    /// `double`: size 8, alignment 8.
    pub fn new_double() -> (r: Type)
        ensures
            r == plain_type(TypeKind::Double, 8, 8, false),
    {
        plain(TypeKind::Double, 8, 8, false)
    }

    /// `long double`: size 16, alignment 16.
    pub fn new_ldouble() -> (r: Type)
        ensures
            r == plain_type(TypeKind::LDouble, 16, 16, false),
    {
        plain(TypeKind::LDouble, 16, 16, false)
    }

    /// A pointer to `base`: size 8, alignment 8, unsigned.
    pub fn new_ptr(base: Type) -> (r: Type)
        ensures
            r == (Type { base: Some(Box::new(base)), ..plain_type(TypeKind::Ptr, 8, 8, true) }),
    {
        let mut t = plain(TypeKind::Ptr, 8, 8, true);
        t.base = Some(Box::new(base));
        t
    }

    /// A pointer to a base type that is shared with another type; types are
    /// values here, so the base is copied.
    pub fn new_ptr_shared(base: &Type) -> (r: Type)
        ensures
            r == (Type { base: Some(Box::new(*base)), ..plain_type(TypeKind::Ptr, 8, 8, true) }),
    {
        Type::new_ptr(clone_type(base))
    }

    /// An array of `len` elements of `base`. A negative length gives an
    /// incomplete array of size 0; the alignment is that of the base.
    pub fn new_array(base: Type, len: i64) -> (r: Type)
        requires
            len >= 0 ==> i64::MIN <= base.size * len <= i64::MAX,
        ensures
            r == (Type {
                base: Some(Box::new(base)),
                array_len: len,
                ..plain_type(
                    TypeKind::Array,
                    if len < 0 { 0 } else { (base.size * len) as i64 },
                    base.align,
                    false,
                )
            }),
    {
        let size: i64 = if len < 0 { 0 } else { base.size * len };
        let mut t = plain(TypeKind::Array, size, base.align, false);
        t.array_len = len;
        t.base = Some(Box::new(base));
        t
    }

    /// An empty struct: size 0, alignment 1.
    pub fn new_struct() -> (r: Type)
        ensures
            r == plain_type(TypeKind::Struct, 0, 1, false),
    {
        plain(TypeKind::Struct, 0, 1, false)
    }

    /// An enum: size 4, alignment 4.
    pub fn new_enum() -> (r: Type)
        ensures
            r == plain_type(TypeKind::Enum, 4, 4, false),
    {
        plain(TypeKind::Enum, 4, 4, false)
    }
}

} // verus!
