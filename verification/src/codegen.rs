use vstd::prelude::*;

use crate::parse::{Node, Obj};
use crate::text::{i64_to_decimal, push_chars, signed_decimal};
use crate::types::{is_integer, spec_is_integer, Type, TypeKind};

verus! {

// ---------------------------------------------------------------------------
// Writing assembly text

/// Appends the decimal form of a number.
pub fn push_i64(s: &mut String, v: i64)
    ensures
        final(s)@ == old(s)@ + signed_decimal(v as int),
{
    let d = i64_to_decimal(v);
    push_chars(s, &d);
}

// ---------------------------------------------------------------------------
// Loads, stores and comparisons

/// The code that compares `%rax` (or the floating-point register) with zero.
pub open spec fn cmp_zero_text(ty: Type) -> Seq<char> {
    if ty.kind == TypeKind::Float {
        "  xorps %xmm1, %xmm1\n"@ + "  ucomiss %xmm1, %xmm0\n"@
    } else if ty.kind == TypeKind::Double {
        "  xorpd %xmm1, %xmm1\n"@ + "  ucomisd %xmm1, %xmm0\n"@
    } else if ty.kind == TypeKind::LDouble {
        "  fldz\n"@ + "  fucomip\n"@ + "  fstp %st(0)\n"@
    } else if spec_is_integer(ty) && ty.size <= 4 {
        "  cmp $0, %eax\n"@
    } else {
        "  cmp $0, %rax\n"@
    }
}

/// Emits the comparison of the value of type `ty` with zero.
pub fn cmp_zero(ty: &Type, result: &mut String)
    ensures
        final(result)@ == old(result)@ + cmp_zero_text(*ty),
{
    match ty.kind {
        TypeKind::Float => {
            result.append("  xorps %xmm1, %xmm1\n");
            result.append("  ucomiss %xmm1, %xmm0\n");
            return ;
        },
        TypeKind::Double => {
            result.append("  xorpd %xmm1, %xmm1\n");
            result.append("  ucomisd %xmm1, %xmm0\n");
            return ;
        },
        TypeKind::LDouble => {
            result.append("  fldz\n");
            result.append("  fucomip\n");
            result.append("  fstp %st(0)\n");
            return ;
        },
        _ => {},
    }
    if is_integer(ty) && ty.size <= 4 {
        result.append("  cmp $0, %eax\n");
    } else {
        result.append("  cmp $0, %rax\n");
    }
}

/// The code that loads a value of type `ty` from the address in `%rax`.
/// Arrays, structs, unions and functions are used by address: nothing is
/// loaded.
pub open spec fn load_text(ty: Type) -> Seq<char> {
    if ty.kind == TypeKind::Array || ty.kind == TypeKind::Struct || ty.kind == TypeKind::Union
        || ty.kind == TypeKind::Func {
        Seq::empty()
    } else if ty.kind == TypeKind::Float {
        "  movss (%rax), %xmm0\n"@
    } else if ty.kind == TypeKind::Double {
        "  movsd (%rax), %xmm0\n"@
    } else if ty.kind == TypeKind::LDouble {
        "  fldt (%rax)\n"@
    } else if ty.size == 1 {
        if ty.is_unsigned {
            "  movzbl (%rax), %eax\n"@
        } else {
            "  movsbl (%rax), %eax\n"@
        }
    } else if ty.size == 2 {
        if ty.is_unsigned {
            "  movzwl (%rax), %eax\n"@
        } else {
            "  movswl (%rax), %eax\n"@
        }
    } else if ty.size == 4 {
        "  movsxd (%rax), %rax\n"@
    } else {
        "  mov (%rax), %rax\n"@
    }
}

/// Emits the load of a value of type `ty` from the address in `%rax`.
pub fn load(ty: &Type, result: &mut String)
    ensures
        final(result)@ == old(result)@ + load_text(*ty),
{
    match ty.kind {
        TypeKind::Array | TypeKind::Struct | TypeKind::Union | TypeKind::Func => {
            return ;
        },
        TypeKind::Float => {
            result.append("  movss (%rax), %xmm0\n");
            return ;
        },
        TypeKind::Double => {
            result.append("  movsd (%rax), %xmm0\n");
            return ;
        },
        TypeKind::LDouble => {
            result.append("  fldt (%rax)\n");
            return ;
        },
        _ => {},
    }
    if ty.size == 1 {
        if ty.is_unsigned {
            result.append("  movzbl (%rax), %eax\n");
        } else {
            result.append("  movsbl (%rax), %eax\n");
        }
    } else if ty.size == 2 {
        if ty.is_unsigned {
            result.append("  movzwl (%rax), %eax\n");
        } else {
            result.append("  movswl (%rax), %eax\n");
        }
    } else if ty.size == 4 {
        result.append("  movsxd (%rax), %rax\n");
    } else {
        result.append("  mov (%rax), %rax\n");
    }
}

/// The byte-by-byte copy of the first `n` bytes of a struct from `(%rax)`
/// to `(%rdi)`.
pub open spec fn byte_copy_text(n: int) -> Seq<char>
    decreases n,
{
    if n <= 0 {
        Seq::empty()
    } else {
        byte_copy_text(n - 1) + "  mov "@ + signed_decimal(n - 1) + "(%rax), %r8b\n"@ + "  mov %r8b, "@
            + signed_decimal(n - 1) + "(%rdi)\n"@
    }
}

/// The code that stores the value in `%rax` (or the floating-point
/// register) of type `ty` at the address popped from the stack.
pub open spec fn store_text(ty: Type) -> Seq<char> {
    "  pop %rdi\n"@ + if ty.kind == TypeKind::Struct || ty.kind == TypeKind::Union {
        byte_copy_text(ty.size as int)
    } else if ty.kind == TypeKind::Float {
        "  movss %xmm0, (%rdi)\n"@
    } else if ty.kind == TypeKind::Double {
        "  movsd %xmm0, (%rdi)\n"@
    } else if ty.kind == TypeKind::LDouble {
        "  fstpt (%rdi)\n"@
    } else if ty.size == 1 {
        "  mov %al, (%rdi)\n"@
    } else if ty.size == 2 {
        "  mov %ax, (%rdi)\n"@
    } else if ty.size == 4 {
        "  mov %eax, (%rdi)\n"@
    } else {
        "  mov %rax, (%rdi)\n"@
    }
}

/// Emits the store of a value of type `ty` to the address on top of the
/// stack, which it pops (`depth` counts the pushed words).
pub fn store(ty: &Type, result: &mut String, depth: &mut i32)
    requires
        *old(depth) > i32::MIN,
    ensures
        final(result)@ == old(result)@ + store_text(*ty),
        *final(depth) == *old(depth) - 1,
{
    result.append("  pop %rdi\n");
    *depth = *depth - 1;
    let ghost start = result@;
    match ty.kind {
        TypeKind::Struct | TypeKind::Union => {
            let mut i: i64 = 0;
            while i < ty.size
                invariant
                    0 <= i,
                    ty.size >= 0 ==> i <= ty.size,
                    ty.size < 0 ==> i == 0,
                    result@ == start + byte_copy_text(i as int),
                decreases ty.size - i,
            {
                result.append("  mov ");
                push_i64(result, i);
                result.append("(%rax), %r8b\n");
                result.append("  mov %r8b, ");
                push_i64(result, i);
                result.append("(%rdi)\n");
                i = i + 1;
                assert(result@ =~= start + byte_copy_text(i as int));
            }
            proof {
                if ty.size <= 0 {
                    assert(byte_copy_text(ty.size as int) == Seq::<char>::empty());
                    assert(i == 0);
                }
            }
            return ;
        },
        TypeKind::Float => {
            result.append("  movss %xmm0, (%rdi)\n");
            return ;
        },
        TypeKind::Double => {
            result.append("  movsd %xmm0, (%rdi)\n");
            return ;
        },
        TypeKind::LDouble => {
            result.append("  fstpt (%rdi)\n");
            return ;
        },
        _ => {},
    }
    if ty.size == 1 {
        result.append("  mov %al, (%rdi)\n");
    } else if ty.size == 2 {
        result.append("  mov %ax, (%rdi)\n");
    } else if ty.size == 4 {
        result.append("  mov %eax, (%rdi)\n");
    } else {
        result.append("  mov %rax, (%rdi)\n");
    }
}

// ---------------------------------------------------------------------------
// Conversions

pub const I8: usize = 0;
pub const I16: usize = 1;
pub const I32: usize = 2;
pub const I64: usize = 3;
pub const U8: usize = 4;
pub const U16: usize = 5;
pub const U32: usize = 6;
pub const U64: usize = 7;
pub const F32: usize = 8;
pub const F64: usize = 9;
pub const F80: usize = 10;

/// The row or column of a type in the conversion table: its width,
/// signedness and whether it is a floating-point type. Pointers and other
/// types count as 64-bit integers.
pub open spec fn type_id(ty: Type) -> int {
    if ty.kind == TypeKind::Bool {
        U8 as int
    } else if ty.kind == TypeKind::Char {
        if ty.is_unsigned {
            U8 as int
        } else {
            I8 as int
        }
    } else if ty.kind == TypeKind::Short {
        if ty.is_unsigned {
            U16 as int
        } else {
            I16 as int
        }
    } else if ty.kind == TypeKind::Int {
        if ty.is_unsigned {
            U32 as int
        } else {
            I32 as int
        }
    } else if ty.kind == TypeKind::Float {
        F32 as int
    } else if ty.kind == TypeKind::Double {
        F64 as int
    } else if ty.kind == TypeKind::LDouble {
        F80 as int
    } else if ty.is_unsigned {
        U64 as int
    } else {
        I64 as int
    }
}

/// The row or column of a type in the conversion table.
pub fn get_type_id(ty: &Type) -> (r: usize)
    ensures
        r == type_id(*ty),
        r <= F80,
{
    match ty.kind {
        TypeKind::Bool => U8,
        TypeKind::Char => if ty.is_unsigned {
            U8
        } else {
            I8
        },
        TypeKind::Short => if ty.is_unsigned {
            U16
        } else {
            I16
        },
        TypeKind::Int => if ty.is_unsigned {
            U32
        } else {
            I32
        },
        TypeKind::Float => F32,
        TypeKind::Double => F64,
        TypeKind::LDouble => F80,
        _ => if ty.is_unsigned {
            U64
        } else {
            I64
        },
    }
}

/// The instruction that converts a value of type id `t1` to type id `t2`
/// (see `type_id`), if one is needed.
pub open spec fn cast_insn(t1: int, t2: int) -> Option<Seq<char>> {
    if t1 == 0 {
        if t2 == 0 {
            None
        } else if t2 == 1 {
            None
        } else if t2 == 2 {
            None
        } else if t2 == 3 {
            Some("movsxd %eax, %rax"@)
        } else if t2 == 4 {
            Some("movzbl %al, %eax"@)
        } else if t2 == 5 {
            Some("movzwl %ax, %eax"@)
        } else if t2 == 6 {
            None
        } else if t2 == 7 {
            Some("movsxd %eax, %rax"@)
        } else if t2 == 8 {
            Some("cvtsi2ssl %eax, %xmm0"@)
        } else if t2 == 9 {
            Some("cvtsi2sdl %eax, %xmm0"@)
        } else if t2 == 10 {
            Some("mov %eax, -4(%rsp); fildl -4(%rsp)"@)
        } else {
            None
        }
    } else if t1 == 1 {
        if t2 == 0 {
            Some("movsbl %al, %eax"@)
        } else if t2 == 1 {
            None
        } else if t2 == 2 {
            None
        } else if t2 == 3 {
            Some("movsxd %eax, %rax"@)
        } else if t2 == 4 {
            Some("movzbl %al, %eax"@)
        } else if t2 == 5 {
            Some("movzwl %ax, %eax"@)
        } else if t2 == 6 {
            None
        } else if t2 == 7 {
            Some("movsxd %eax, %rax"@)
        } else if t2 == 8 {
            Some("cvtsi2ssl %eax, %xmm0"@)
        } else if t2 == 9 {
            Some("cvtsi2sdl %eax, %xmm0"@)
        } else if t2 == 10 {
            Some("mov %eax, -4(%rsp); fildl -4(%rsp)"@)
        } else {
            None
        }
    } else if t1 == 2 {
        if t2 == 0 {
            Some("movsbl %al, %eax"@)
        } else if t2 == 1 {
            Some("movswl %ax, %eax"@)
        } else if t2 == 2 {
            None
        } else if t2 == 3 {
            Some("movsxd %eax, %rax"@)
        } else if t2 == 4 {
            Some("movzbl %al, %eax"@)
        } else if t2 == 5 {
            Some("movzwl %ax, %eax"@)
        } else if t2 == 6 {
            None
        } else if t2 == 7 {
            Some("movsxd %eax, %rax"@)
        } else if t2 == 8 {
            Some("cvtsi2ssl %eax, %xmm0"@)
        } else if t2 == 9 {
            Some("cvtsi2sdl %eax, %xmm0"@)
        } else if t2 == 10 {
            Some("mov %eax, -4(%rsp); fildl -4(%rsp)"@)
        } else {
            None
        }
    } else if t1 == 3 {
        if t2 == 0 {
            Some("movsbl %al, %eax"@)
        } else if t2 == 1 {
            Some("movswl %ax, %eax"@)
        } else if t2 == 2 {
            None
        } else if t2 == 3 {
            None
        } else if t2 == 4 {
            Some("movzbl %al, %eax"@)
        } else if t2 == 5 {
            Some("movzwl %ax, %eax"@)
        } else if t2 == 6 {
            None
        } else if t2 == 7 {
            None
        } else if t2 == 8 {
            Some("cvtsi2ssq %rax, %xmm0"@)
        } else if t2 == 9 {
            Some("cvtsi2sdq %rax, %xmm0"@)
        } else if t2 == 10 {
            Some("movq %rax, -8(%rsp); fildll -8(%rsp)"@)
        } else {
            None
        }
    } else if t1 == 4 {
        if t2 == 0 {
            Some("movsbl %al, %eax"@)
        } else if t2 == 1 {
            None
        } else if t2 == 2 {
            None
        } else if t2 == 3 {
            Some("movsxd %eax, %rax"@)
        } else if t2 == 4 {
            None
        } else if t2 == 5 {
            None
        } else if t2 == 6 {
            None
        } else if t2 == 7 {
            Some("movsxd %eax, %rax"@)
        } else if t2 == 8 {
            Some("cvtsi2ssl %eax, %xmm0"@)
        } else if t2 == 9 {
            Some("cvtsi2sdl %eax, %xmm0"@)
        } else if t2 == 10 {
            Some("mov %eax, -4(%rsp); fildl -4(%rsp)"@)
        } else {
            None
        }
    } else if t1 == 5 {
        if t2 == 0 {
            Some("movsbl %al, %eax"@)
        } else if t2 == 1 {
            Some("movswl %ax, %eax"@)
        } else if t2 == 2 {
            None
        } else if t2 == 3 {
            Some("movsxd %eax, %rax"@)
        } else if t2 == 4 {
            Some("movzbl %al, %eax"@)
        } else if t2 == 5 {
            None
        } else if t2 == 6 {
            None
        } else if t2 == 7 {
            Some("movsxd %eax, %rax"@)
        } else if t2 == 8 {
            Some("cvtsi2ssl %eax, %xmm0"@)
        } else if t2 == 9 {
            Some("cvtsi2sdl %eax, %xmm0"@)
        } else if t2 == 10 {
            Some("mov %eax, -4(%rsp); fildl -4(%rsp)"@)
        } else {
            None
        }
    } else if t1 == 6 {
        if t2 == 0 {
            Some("movsbl %al, %eax"@)
        } else if t2 == 1 {
            Some("movswl %ax, %eax"@)
        } else if t2 == 2 {
            None
        } else if t2 == 3 {
            Some("mov %eax, %eax"@)
        } else if t2 == 4 {
            Some("movzbl %al, %eax"@)
        } else if t2 == 5 {
            Some("movzwl %ax, %eax"@)
        } else if t2 == 6 {
            None
        } else if t2 == 7 {
            Some("mov %eax, %eax"@)
        } else if t2 == 8 {
            Some("mov %eax, %eax; cvtsi2ssq %rax, %xmm0"@)
        } else if t2 == 9 {
            Some("mov %eax, %eax; cvtsi2sdq %rax, %xmm0"@)
        } else if t2 == 10 {
            Some("mov %eax, %eax; mov %rax, -8(%rsp); fildll -8(%rsp)"@)
        } else {
            None
        }
    } else if t1 == 7 {
        if t2 == 0 {
            Some("movsbl %al, %eax"@)
        } else if t2 == 1 {
            Some("movswl %ax, %eax"@)
        } else if t2 == 2 {
            None
        } else if t2 == 3 {
            None
        } else if t2 == 4 {
            Some("movzbl %al, %eax"@)
        } else if t2 == 5 {
            Some("movzwl %ax, %eax"@)
        } else if t2 == 6 {
            None
        } else if t2 == 7 {
            None
        } else if t2 == 8 {
            Some("cvtsi2ssq %rax, %xmm0"@)
        } else if t2 == 9 {
            Some("test %rax,%rax; js 1f; pxor %xmm0,%xmm0; cvtsi2sd %rax,%xmm0; jmp 2f; 1: mov %rax,%rdi; and $1,%eax; pxor %xmm0,%xmm0; shr %rdi; or %rax,%rdi; cvtsi2sd %rdi,%xmm0; addsd %xmm0,%xmm0; 2:"@)
        } else if t2 == 10 {
            Some("mov %rax, -8(%rsp); fildq -8(%rsp); test %rax, %rax; jns 1f; mov $1602224128, %eax; mov %eax, -4(%rsp); fadds -4(%rsp); 1:"@)
        } else {
            None
        }
    } else if t1 == 8 {
        if t2 == 0 {
            Some("cvttss2sil %xmm0, %eax; movsbl %al, %eax"@)
        } else if t2 == 1 {
            Some("cvttss2sil %xmm0, %eax; movswl %ax, %eax"@)
        } else if t2 == 2 {
            Some("cvttss2sil %xmm0, %eax"@)
        } else if t2 == 3 {
            Some("cvttss2siq %xmm0, %rax"@)
        } else if t2 == 4 {
            Some("cvttss2sil %xmm0, %eax; movzbl %al, %eax"@)
        } else if t2 == 5 {
            Some("cvttss2sil %xmm0, %eax; movzwl %ax, %eax"@)
        } else if t2 == 6 {
            Some("cvttss2siq %xmm0, %rax"@)
        } else if t2 == 7 {
            Some("cvttss2siq %xmm0, %rax"@)
        } else if t2 == 8 {
            None
        } else if t2 == 9 {
            Some("cvtss2sd %xmm0, %xmm0"@)
        } else if t2 == 10 {
            Some("movss %xmm0, -4(%rsp); flds -4(%rsp)"@)
        } else {
            None
        }
    } else if t1 == 9 {
        if t2 == 0 {
            Some("cvttsd2sil %xmm0, %eax; movsbl %al, %eax"@)
        } else if t2 == 1 {
            Some("cvttsd2sil %xmm0, %eax; movswl %ax, %eax"@)
        } else if t2 == 2 {
            Some("cvttsd2sil %xmm0, %eax"@)
        } else if t2 == 3 {
            Some("cvttsd2siq %xmm0, %rax"@)
        } else if t2 == 4 {
            Some("cvttsd2sil %xmm0, %eax; movzbl %al, %eax"@)
        } else if t2 == 5 {
            Some("cvttsd2sil %xmm0, %eax; movzwl %ax, %eax"@)
        } else if t2 == 6 {
            Some("cvttsd2siq %xmm0, %rax"@)
        } else if t2 == 7 {
            Some("cvttsd2siq %xmm0, %rax"@)
        } else if t2 == 8 {
            Some("cvtsd2ss %xmm0, %xmm0"@)
        } else if t2 == 9 {
            None
        } else if t2 == 10 {
            Some("movsd %xmm0, -8(%rsp); fldl -8(%rsp)"@)
        } else {
            None
        }
    } else if t1 == 10 {
        if t2 == 0 {
            Some("fnstcw -10(%rsp); movzwl -10(%rsp), %eax; or $12, %ah; mov %ax, -12(%rsp); fldcw -12(%rsp); fistps -24(%rsp); fldcw -10(%rsp); movsbl -24(%rsp), %eax"@)
        } else if t2 == 1 {
            Some("fnstcw -10(%rsp); movzwl -10(%rsp), %eax; or $12, %ah; mov %ax, -12(%rsp); fldcw -12(%rsp); fistps -24(%rsp); fldcw -10(%rsp); movswl -24(%rsp), %eax"@)
        } else if t2 == 2 {
            Some("fnstcw -10(%rsp); movzwl -10(%rsp), %eax; or $12, %ah; mov %ax, -12(%rsp); fldcw -12(%rsp); fistpl -24(%rsp); fldcw -10(%rsp); mov -24(%rsp), %eax"@)
        } else if t2 == 3 {
            Some("fnstcw -10(%rsp); movzwl -10(%rsp), %eax; or $12, %ah; mov %ax, -12(%rsp); fldcw -12(%rsp); fistpq -24(%rsp); fldcw -10(%rsp); mov -24(%rsp), %rax"@)
        } else if t2 == 4 {
            Some("fnstcw -10(%rsp); movzwl -10(%rsp), %eax; or $12, %ah; mov %ax, -12(%rsp); fldcw -12(%rsp); fistps -24(%rsp); fldcw -10(%rsp); movzbl -24(%rsp), %eax"@)
        } else if t2 == 5 {
            Some("fnstcw -10(%rsp); movzwl -10(%rsp), %eax; or $12, %ah; mov %ax, -12(%rsp); fldcw -12(%rsp); fistpl -24(%rsp); fldcw -10(%rsp); movswl -24(%rsp), %eax"@)
        } else if t2 == 6 {
            Some("fnstcw -10(%rsp); movzwl -10(%rsp), %eax; or $12, %ah; mov %ax, -12(%rsp); fldcw -12(%rsp); fistpl -24(%rsp); fldcw -10(%rsp); mov -24(%rsp), %eax"@)
        } else if t2 == 7 {
            Some("fnstcw -10(%rsp); movzwl -10(%rsp), %eax; or $12, %ah; mov %ax, -12(%rsp); fldcw -12(%rsp); fistpq -24(%rsp); fldcw -10(%rsp); mov -24(%rsp), %rax"@)
        } else if t2 == 8 {
            Some("fstps -8(%rsp); movss -8(%rsp), %xmm0"@)
        } else if t2 == 9 {
            Some("fstpl -8(%rsp); movsd -8(%rsp), %xmm0"@)
        } else if t2 == 10 {
            None
        } else {
            None
        }
    } else {
        None
    }
}

fn cast_insn_str(t1: usize, t2: usize) -> (r: Option<&'static str>)
    ensures
        match cast_insn(t1 as int, t2 as int) {
            Some(s) => r matches Some(x) && x@ == s,
            None => r.is_none(),
        },
{
    match t1 {
        0 => match t2 {
            3 => Some("movsxd %eax, %rax"),
            4 => Some("movzbl %al, %eax"),
            5 => Some("movzwl %ax, %eax"),
            7 => Some("movsxd %eax, %rax"),
            8 => Some("cvtsi2ssl %eax, %xmm0"),
            9 => Some("cvtsi2sdl %eax, %xmm0"),
            10 => Some("mov %eax, -4(%rsp); fildl -4(%rsp)"),
            _ => None,
        },
        1 => match t2 {
            0 => Some("movsbl %al, %eax"),
            3 => Some("movsxd %eax, %rax"),
            4 => Some("movzbl %al, %eax"),
            5 => Some("movzwl %ax, %eax"),
            7 => Some("movsxd %eax, %rax"),
            8 => Some("cvtsi2ssl %eax, %xmm0"),
            9 => Some("cvtsi2sdl %eax, %xmm0"),
            10 => Some("mov %eax, -4(%rsp); fildl -4(%rsp)"),
            _ => None,
        },
        2 => match t2 {
            0 => Some("movsbl %al, %eax"),
            1 => Some("movswl %ax, %eax"),
            3 => Some("movsxd %eax, %rax"),
            4 => Some("movzbl %al, %eax"),
            5 => Some("movzwl %ax, %eax"),
            7 => Some("movsxd %eax, %rax"),
            8 => Some("cvtsi2ssl %eax, %xmm0"),
            9 => Some("cvtsi2sdl %eax, %xmm0"),
            10 => Some("mov %eax, -4(%rsp); fildl -4(%rsp)"),
            _ => None,
        },
        3 => match t2 {
            0 => Some("movsbl %al, %eax"),
            1 => Some("movswl %ax, %eax"),
            4 => Some("movzbl %al, %eax"),
            5 => Some("movzwl %ax, %eax"),
            8 => Some("cvtsi2ssq %rax, %xmm0"),
            9 => Some("cvtsi2sdq %rax, %xmm0"),
            10 => Some("movq %rax, -8(%rsp); fildll -8(%rsp)"),
            _ => None,
        },
        4 => match t2 {
            0 => Some("movsbl %al, %eax"),
            3 => Some("movsxd %eax, %rax"),
            7 => Some("movsxd %eax, %rax"),
            8 => Some("cvtsi2ssl %eax, %xmm0"),
            9 => Some("cvtsi2sdl %eax, %xmm0"),
            10 => Some("mov %eax, -4(%rsp); fildl -4(%rsp)"),
            _ => None,
        },
        5 => match t2 {
            0 => Some("movsbl %al, %eax"),
            1 => Some("movswl %ax, %eax"),
            3 => Some("movsxd %eax, %rax"),
            4 => Some("movzbl %al, %eax"),
            7 => Some("movsxd %eax, %rax"),
            8 => Some("cvtsi2ssl %eax, %xmm0"),
            9 => Some("cvtsi2sdl %eax, %xmm0"),
            10 => Some("mov %eax, -4(%rsp); fildl -4(%rsp)"),
            _ => None,
        },
        6 => match t2 {
            0 => Some("movsbl %al, %eax"),
            1 => Some("movswl %ax, %eax"),
            3 => Some("mov %eax, %eax"),
            4 => Some("movzbl %al, %eax"),
            5 => Some("movzwl %ax, %eax"),
            7 => Some("mov %eax, %eax"),
            8 => Some("mov %eax, %eax; cvtsi2ssq %rax, %xmm0"),
            9 => Some("mov %eax, %eax; cvtsi2sdq %rax, %xmm0"),
            10 => Some("mov %eax, %eax; mov %rax, -8(%rsp); fildll -8(%rsp)"),
            _ => None,
        },
        7 => match t2 {
            0 => Some("movsbl %al, %eax"),
            1 => Some("movswl %ax, %eax"),
            4 => Some("movzbl %al, %eax"),
            5 => Some("movzwl %ax, %eax"),
            8 => Some("cvtsi2ssq %rax, %xmm0"),
            9 => Some("test %rax,%rax; js 1f; pxor %xmm0,%xmm0; cvtsi2sd %rax,%xmm0; jmp 2f; 1: mov %rax,%rdi; and $1,%eax; pxor %xmm0,%xmm0; shr %rdi; or %rax,%rdi; cvtsi2sd %rdi,%xmm0; addsd %xmm0,%xmm0; 2:"),
            10 => Some("mov %rax, -8(%rsp); fildq -8(%rsp); test %rax, %rax; jns 1f; mov $1602224128, %eax; mov %eax, -4(%rsp); fadds -4(%rsp); 1:"),
            _ => None,
        },
        8 => match t2 {
            0 => Some("cvttss2sil %xmm0, %eax; movsbl %al, %eax"),
            1 => Some("cvttss2sil %xmm0, %eax; movswl %ax, %eax"),
            2 => Some("cvttss2sil %xmm0, %eax"),
            3 => Some("cvttss2siq %xmm0, %rax"),
            4 => Some("cvttss2sil %xmm0, %eax; movzbl %al, %eax"),
            5 => Some("cvttss2sil %xmm0, %eax; movzwl %ax, %eax"),
            6 => Some("cvttss2siq %xmm0, %rax"),
            7 => Some("cvttss2siq %xmm0, %rax"),
            9 => Some("cvtss2sd %xmm0, %xmm0"),
            10 => Some("movss %xmm0, -4(%rsp); flds -4(%rsp)"),
            _ => None,
        },
        9 => match t2 {
            0 => Some("cvttsd2sil %xmm0, %eax; movsbl %al, %eax"),
            1 => Some("cvttsd2sil %xmm0, %eax; movswl %ax, %eax"),
            2 => Some("cvttsd2sil %xmm0, %eax"),
            3 => Some("cvttsd2siq %xmm0, %rax"),
            4 => Some("cvttsd2sil %xmm0, %eax; movzbl %al, %eax"),
            5 => Some("cvttsd2sil %xmm0, %eax; movzwl %ax, %eax"),
            6 => Some("cvttsd2siq %xmm0, %rax"),
            7 => Some("cvttsd2siq %xmm0, %rax"),
            8 => Some("cvtsd2ss %xmm0, %xmm0"),
            10 => Some("movsd %xmm0, -8(%rsp); fldl -8(%rsp)"),
            _ => None,
        },
        10 => match t2 {
            0 => Some("fnstcw -10(%rsp); movzwl -10(%rsp), %eax; or $12, %ah; mov %ax, -12(%rsp); fldcw -12(%rsp); fistps -24(%rsp); fldcw -10(%rsp); movsbl -24(%rsp), %eax"),
            1 => Some("fnstcw -10(%rsp); movzwl -10(%rsp), %eax; or $12, %ah; mov %ax, -12(%rsp); fldcw -12(%rsp); fistps -24(%rsp); fldcw -10(%rsp); movswl -24(%rsp), %eax"),
            2 => Some("fnstcw -10(%rsp); movzwl -10(%rsp), %eax; or $12, %ah; mov %ax, -12(%rsp); fldcw -12(%rsp); fistpl -24(%rsp); fldcw -10(%rsp); mov -24(%rsp), %eax"),
            3 => Some("fnstcw -10(%rsp); movzwl -10(%rsp), %eax; or $12, %ah; mov %ax, -12(%rsp); fldcw -12(%rsp); fistpq -24(%rsp); fldcw -10(%rsp); mov -24(%rsp), %rax"),
            4 => Some("fnstcw -10(%rsp); movzwl -10(%rsp), %eax; or $12, %ah; mov %ax, -12(%rsp); fldcw -12(%rsp); fistps -24(%rsp); fldcw -10(%rsp); movzbl -24(%rsp), %eax"),
            5 => Some("fnstcw -10(%rsp); movzwl -10(%rsp), %eax; or $12, %ah; mov %ax, -12(%rsp); fldcw -12(%rsp); fistpl -24(%rsp); fldcw -10(%rsp); movswl -24(%rsp), %eax"),
            6 => Some("fnstcw -10(%rsp); movzwl -10(%rsp), %eax; or $12, %ah; mov %ax, -12(%rsp); fldcw -12(%rsp); fistpl -24(%rsp); fldcw -10(%rsp); mov -24(%rsp), %eax"),
            7 => Some("fnstcw -10(%rsp); movzwl -10(%rsp), %eax; or $12, %ah; mov %ax, -12(%rsp); fldcw -12(%rsp); fistpq -24(%rsp); fldcw -10(%rsp); mov -24(%rsp), %rax"),
            8 => Some("fstps -8(%rsp); movss -8(%rsp), %xmm0"),
            9 => Some("fstpl -8(%rsp); movsd -8(%rsp), %xmm0"),
            _ => None,
        },
        _ => None,
    }
}


/// The code that converts the value in `%rax` (or the floating-point
/// register) from type `from` to type `to`: nothing for `void`; a test
/// against zero for `_Bool`; otherwise the table's instruction, if any.
pub open spec fn cast_text(from: Type, to: Type) -> Seq<char> {
    if to.kind == TypeKind::Void {
        Seq::empty()
    } else if to.kind == TypeKind::Bool {
        if from.kind == TypeKind::Float {
            "  xorps %xmm1, %xmm1\n"@ + "  ucomiss %xmm0, %xmm1\n"@ + "  setp %al\n"@
                + "  setne %dl\n"@ + "  or %dl, %al\n"@ + "  movzb %al, %rax\n"@
        } else if from.kind == TypeKind::Double {
            "  xorpd %xmm1, %xmm1\n"@ + "  ucomisd %xmm0, %xmm1\n"@ + "  setp %al\n"@
                + "  setne %dl\n"@ + "  or %dl, %al\n"@ + "  movzb %al, %rax\n"@
        } else {
            cmp_zero_text(from) + "  setne %al\n"@ + "  movzb %al, %rax\n"@
        }
    } else {
        match cast_insn(type_id(from), type_id(to)) {
            Some(s) => "  "@ + s + "\n"@,
            None => Seq::empty(),
        }
    }
}

/// Integer conversions: narrowing a 32-bit or 64-bit value to 8 or 16 bits
/// extends the low bits by the target's signedness (`movsbl`/`movzbl`,
/// `movswl`/`movzwl`); widening a signed 32-bit value to 64 bits extends
/// its sign (`movsxd`) and an unsigned one its zeros (`mov %eax, %eax`);
/// narrowing 64 bits to 32 and changing only the signedness of a 32-bit
/// or 64-bit value need no instruction.
pub proof fn law_integer_casts_extend_by_signedness()
    ensures
        forall|t1: int|
            t1 == I32 || t1 == I64 || t1 == U32 || t1 == U64 ==> cast_insn(t1, I8 as int) == Some(
                "movsbl %al, %eax"@,
            ) && cast_insn(t1, U8 as int) == Some("movzbl %al, %eax"@) && cast_insn(t1, I16 as int)
                == Some("movswl %ax, %eax"@) && cast_insn(t1, U16 as int) == Some(
                "movzwl %ax, %eax"@,
            ),
        cast_insn(I32 as int, I64 as int) == Some("movsxd %eax, %rax"@),
        cast_insn(I32 as int, U64 as int) == Some("movsxd %eax, %rax"@),
        cast_insn(U32 as int, I64 as int) == Some("mov %eax, %eax"@),
        cast_insn(U32 as int, U64 as int) == Some("mov %eax, %eax"@),
        cast_insn(I64 as int, I32 as int) is None,
        cast_insn(I64 as int, U32 as int) is None,
        cast_insn(U64 as int, I32 as int) is None,
        cast_insn(I32 as int, U32 as int) is None,
        cast_insn(U32 as int, I32 as int) is None,
        cast_insn(I64 as int, U64 as int) is None,
        cast_insn(U64 as int, I64 as int) is None,
{
}

/// Loads of small integers extend the loaded bits by the type's
/// signedness: `movzbl`/`movsbl` for one byte, `movzwl`/`movswl` for two;
/// four bytes are sign-extended (`movsxd`) and eight loaded whole.
pub proof fn law_loads_extend_by_signedness(ty: Type)
    requires
        ty.kind == TypeKind::Bool || ty.kind == TypeKind::Char || ty.kind == TypeKind::Short
            || ty.kind == TypeKind::Int || ty.kind == TypeKind::Long || ty.kind == TypeKind::Ptr,
    ensures
        ty.size == 1 ==> load_text(ty) == if ty.is_unsigned {
            "  movzbl (%rax), %eax\n"@
        } else {
            "  movsbl (%rax), %eax\n"@
        },
        ty.size == 2 ==> load_text(ty) == if ty.is_unsigned {
            "  movzwl (%rax), %eax\n"@
        } else {
            "  movswl (%rax), %eax\n"@
        },
        ty.size == 4 ==> load_text(ty) == "  movsxd (%rax), %rax\n"@,
        ty.size == 8 ==> load_text(ty) == "  mov (%rax), %rax\n"@,
{
}

/// Emits the conversion of a value from type `from` to type `to`.
pub fn cast_type(from: &Type, to: &Type, result: &mut String)
    ensures
        final(result)@ == old(result)@ + cast_text(*from, *to),
{
    if to.kind == TypeKind::Void {
        return ;
    }
    if to.kind == TypeKind::Bool {
        match from.kind {
            TypeKind::Float => {
                result.append("  xorps %xmm1, %xmm1\n");
                result.append("  ucomiss %xmm0, %xmm1\n");
                result.append("  setp %al\n");
                result.append("  setne %dl\n");
                result.append("  or %dl, %al\n");
                result.append("  movzb %al, %rax\n");
            },
            TypeKind::Double => {
                result.append("  xorpd %xmm1, %xmm1\n");
                result.append("  ucomisd %xmm0, %xmm1\n");
                result.append("  setp %al\n");
                result.append("  setne %dl\n");
                result.append("  or %dl, %al\n");
                result.append("  movzb %al, %rax\n");
            },
            _ => {
                cmp_zero(from, result);
                result.append("  setne %al\n");
                result.append("  movzb %al, %rax\n");
            },
        }
        return ;
    }
    let t1 = get_type_id(from);
    let t2 = get_type_id(to);
    if let Some(inst) = cast_insn_str(t1, t2) {
        result.append("  ");
        result.append(inst);
        result.append("\n");
    }
}

/// A conversion between two types with the same place in the table emits
/// nothing.
pub proof fn law_cast_same_id_is_silent(from: Type, to: Type)
    requires
        type_id(from) == type_id(to),
        to.kind != TypeKind::Bool,
    ensures
        cast_text(from, to) == Seq::<char>::empty(),
{
}

// ---------------------------------------------------------------------------
// Spilling register arguments

/// The name of integer argument register `r` at a width of `sz` bytes
/// (1, 2, 4, or 8 for anything else).
pub open spec fn arg_reg(r: int, sz: int) -> Seq<char> {
    if sz == 1 {
        seq!["%dil"@, "%sil"@, "%dl"@, "%cl"@, "%r8b"@, "%r9b"@][r]
    } else if sz == 2 {
        seq!["%di"@, "%si"@, "%dx"@, "%cx"@, "%r8w"@, "%r9w"@][r]
    } else if sz == 4 {
        seq!["%edi"@, "%esi"@, "%edx"@, "%ecx"@, "%r8d"@, "%r9d"@][r]
    } else {
        seq!["%rdi"@, "%rsi"@, "%rdx"@, "%rcx"@, "%r8"@, "%r9"@][r]
    }
}

fn arg_reg_str(r: usize, sz: i64) -> (s: &'static str)
    requires
        r < 6,
    ensures
        s@ == arg_reg(r as int, sz as int),
{
    if sz == 1 {
        match r {
            0 => "%dil",
            1 => "%sil",
            2 => "%dl",
            3 => "%cl",
            4 => "%r8b",
            _ => "%r9b",
        }
    } else if sz == 2 {
        match r {
            0 => "%di",
            1 => "%si",
            2 => "%dx",
            3 => "%cx",
            4 => "%r8w",
            _ => "%r9w",
        }
    } else if sz == 4 {
        match r {
            0 => "%edi",
            1 => "%esi",
            2 => "%edx",
            3 => "%ecx",
            4 => "%r8d",
            _ => "%r9d",
        }
    } else {
        match r {
            0 => "%rdi",
            1 => "%rsi",
            2 => "%rdx",
            3 => "%rcx",
            4 => "%r8",
            _ => "%r9",
        }
    }
}

/// The store of a register at `offset(%rbp)`.
pub open spec fn spill_line(reg: Seq<char>, offset: int) -> Seq<char> {
    "  mov "@ + reg + ", "@ + signed_decimal(offset) + "(%rbp)\n"@
}

/// The byte-by-byte spill of the first `n` bytes of register `r`.
pub open spec fn spill_bytes(r: int, offset: int, n: int) -> Seq<char>
    decreases n,
{
    if n <= 0 {
        Seq::empty()
    } else {
        spill_bytes(r, offset, n - 1) + spill_line(arg_reg(r, 1), offset + n - 1) + "  shr $8, "@
            + arg_reg(r, 8) + "\n"@
    }
}

/// The code that saves `sz` bytes of integer argument register `r` at
/// `offset(%rbp)`: one move for 1, 2, 4 or 8 bytes, else byte by byte.
pub open spec fn store_gp_text(r: int, offset: int, sz: int) -> Seq<char> {
    if sz == 1 || sz == 2 || sz == 4 || sz == 8 {
        spill_line(arg_reg(r, sz), offset)
    } else {
        spill_bytes(r, offset, sz)
    }
}

/// Emits the save of `sz` bytes of integer argument register `r` at
/// `offset(%rbp)`.
pub fn store_gp(r: usize, offset: i64, sz: i64, result: &mut String)
    requires
        r < 6,
        offset + sz <= i64::MAX,
    ensures
        final(result)@ == old(result)@ + store_gp_text(r as int, offset as int, sz as int),
{
    if sz == 1 || sz == 2 || sz == 4 || sz == 8 {
        result.append("  mov ");
        result.append(arg_reg_str(r, sz));
        result.append(", ");
        push_i64(result, offset);
        result.append("(%rbp)\n");
        return ;
    }
    let ghost start = result@;
    let mut i: i64 = 0;
    while i < sz
        invariant
            0 <= i,
            sz >= 0 ==> i <= sz,
            sz < 0 ==> i == 0,
            r < 6,
            offset + sz <= i64::MAX,
            result@ == start + spill_bytes(r as int, offset as int, i as int),
        decreases sz - i,
    {
        result.append("  mov ");
        result.append(arg_reg_str(r, 1));
        result.append(", ");
        push_i64(result, offset + i);
        result.append("(%rbp)\n");
        result.append("  shr $8, ");
        result.append(arg_reg_str(r, 8));
        result.append("\n");
        i = i + 1;
        assert(result@ =~= start + spill_bytes(r as int, offset as int, i as int));
    }
}

/// The code that saves a floating-point argument register of 4 or 8 bytes.
pub open spec fn store_fp_text(r: int, offset: int, sz: int) -> Seq<char> {
    (if sz == 4 {
        "  movss %xmm"@
    } else {
        "  movsd %xmm"@
    }) + signed_decimal(r) + ", "@ + signed_decimal(offset) + "(%rbp)\n"@
}

/// Emits the save of floating-point argument register `r` at
/// `offset(%rbp)`; only 4- and 8-byte values come in such registers.
pub fn store_fp(r: usize, offset: i64, sz: i64, result: &mut String)
    requires
        r <= i64::MAX,
        sz == 4 || sz == 8,
    ensures
        final(result)@ == old(result)@ + store_fp_text(r as int, offset as int, sz as int),
{
    if sz == 4 {
        result.append("  movss %xmm");
    } else {
        result.append("  movsd %xmm");
    }
    push_i64(result, r as i64);
    result.append(", ");
    push_i64(result, offset);
    result.append("(%rbp)\n");
}

// ---------------------------------------------------------------------------
// Stack frames

/// The alignment a variable gets: its own, but at least 16 for arrays of 16
/// bytes or more.
pub open spec fn var_align(var: Obj) -> i64 {
    if var.ty.kind == TypeKind::Array && var.ty.size >= 16 && var.align < 16 {
        16
    } else {
        var.align
    }
}

/// The alignment a variable gets in memory.
pub fn effective_var_align(var: &Obj) -> (r: i64)
    ensures
        r == var_align(*var),
{
    if var.ty.kind == TypeKind::Array && var.ty.size >= 16 {
        if var.align < 16 {
            16
        } else {
            var.align
        }
    } else {
        var.align
    }
}

/// `n` rounded up to a multiple of `a`.
pub open spec fn round_up(n: int, a: int) -> int {
    ((n + a - 1) / a) * a
}

proof fn lemma_round_up(n: int, a: int)
    requires
        n >= 0,
        a > 0,
    ensures
        n <= round_up(n, a) <= n + a - 1,
        round_up(n, a) % a == 0,
{
    let q = (n + a - 1) / a;
    let r = (n + a - 1) % a;
    assert(n + a - 1 == q * a + r && 0 <= r < a) by (nonlinear_arith)
        requires
            a > 0,
            q == (n + a - 1) / a,
            r == (n + a - 1) % a,
    ;
    assert((q * a) % a == 0) by (nonlinear_arith)
        requires
            a > 0,
    ;
}

/// Whether a parameter has the given name.
pub open spec fn is_param_name(params: Seq<Obj>, name: Seq<char>) -> bool {
    exists|j: int| 0 <= j < params.len() && params[j].name@ == name
}

/// The stack space reserved for a local: 16 bytes for a struct or union of
/// at most 16 bytes that receives a parameter, its size otherwise.
pub open spec fn slot_size(v: Obj, params: Seq<Obj>) -> int {
    if (v.ty.kind == TypeKind::Struct || v.ty.kind == TypeKind::Union) && v.ty.size <= 16
        && is_param_name(params, v.name@) {
        16
    } else {
        v.ty.size as int
    }
}

/// How far below the frame base the locals from index `k` on reach. Locals
/// are placed from the last one up, each below the previous one and aligned;
/// a local that has an offset already (a parameter passed on the stack)
/// keeps it and takes no room here.
pub open spec fn frame_bottom(ls: Seq<Obj>, params: Seq<Obj>, k: int) -> int
    decreases ls.len() - k,
{
    if k < 0 || k >= ls.len() {
        0
    } else {
        let b = frame_bottom(ls, params, k + 1);
        if ls[k].offset != 0 {
            b
        } else {
            round_up(b + slot_size(ls[k], params), var_align(ls[k]) as int)
        }
    }
}

/// An upper bound of `frame_bottom`: the slots and alignments of the locals
/// from index `k` on, added up.
pub open spec fn frame_need(ls: Seq<Obj>, params: Seq<Obj>, k: int) -> int
    decreases ls.len() - k,
{
    if k < 0 || k >= ls.len() {
        0
    } else {
        frame_need(ls, params, k + 1) + if ls[k].offset != 0 {
            0
        } else {
            slot_size(ls[k], params) + var_align(ls[k])
        }
    }
}

/// Whether every local still to be placed has a size and an alignment that
/// can be placed.
pub open spec fn placeable(ls: Seq<Obj>) -> bool {
    forall|k: int|
        0 <= k < ls.len() && ls[k].offset == 0 ==> #[trigger] ls[k].ty.size >= 0 && var_align(ls[k])
            > 0
}

/// A local as the layout leaves it.
pub open spec fn placed(ls: Seq<Obj>, params: Seq<Obj>, k: int) -> Obj {
    if ls[k].offset != 0 {
        ls[k]
    } else {
        Obj { offset: (-frame_bottom(ls, params, k)) as i64, ..ls[k] }
    }
}

proof fn lemma_frame_bottom_bounds(ls: Seq<Obj>, params: Seq<Obj>, k: int)
    requires
        placeable(ls),
        0 <= k,
    ensures
        0 <= frame_bottom(ls, params, k) <= frame_need(ls, params, k),
        k < ls.len() ==> frame_bottom(ls, params, k + 1) <= frame_bottom(ls, params, k),
        k < ls.len() && ls[k].offset == 0 ==> frame_bottom(ls, params, k + 1) + slot_size(
            ls[k],
            params,
        ) <= frame_bottom(ls, params, k) && frame_bottom(ls, params, k) % (var_align(
            ls[k],
        ) as int) == 0,
    decreases ls.len() - k,
{
    if k < ls.len() {
        lemma_frame_bottom_bounds(ls, params, k + 1);
        if ls[k].offset == 0 {
            assert(ls[k].ty.size >= 0 && var_align(ls[k]) > 0);
            assert(slot_size(ls[k], params) >= 0);
            lemma_round_up(
                frame_bottom(ls, params, k + 1) + slot_size(ls[k], params),
                var_align(ls[k]) as int,
            );
        }
    }
}

proof fn lemma_frame_bottom_mono(ls: Seq<Obj>, params: Seq<Obj>, j: int, k: int)
    requires
        placeable(ls),
        0 <= j <= k,
    ensures
        frame_bottom(ls, params, k) <= frame_bottom(ls, params, j),
    decreases k - j,
{
    if j < k {
        lemma_frame_bottom_mono(ls, params, j + 1, k);
        if j < ls.len() {
            lemma_frame_bottom_bounds(ls, params, j);
        }
    }
}

/// The frame layout of a function's locals: every local placed gets a slot
/// of its own, aligned as it needs, and inside the frame. For two locals
/// placed, the one declared first lies entirely below the other; the slot of
/// each starts at a multiple of its alignment; and the frame, rounded up to
/// 16 bytes, holds every slot.
pub proof fn law_frame_layout(ls: Seq<Obj>, params: Seq<Obj>, j: int, k: int)
    requires
        placeable(ls),
        0 <= j < k < ls.len(),
        ls[j].offset == 0,
        ls[k].offset == 0,
    ensures
        -frame_bottom(ls, params, j) + slot_size(ls[j], params) <= -frame_bottom(ls, params, k),
        frame_bottom(ls, params, j) % (var_align(ls[j]) as int) == 0,
        frame_bottom(ls, params, k) % (var_align(ls[k]) as int) == 0,
        0 <= frame_bottom(ls, params, k) <= frame_bottom(ls, params, j) <= round_up(
            frame_bottom(ls, params, 0),
            16,
        ),
{
    lemma_frame_bottom_bounds(ls, params, j);
    lemma_frame_bottom_bounds(ls, params, k);
    lemma_frame_bottom_mono(ls, params, j + 1, k);
    lemma_frame_bottom_mono(ls, params, 0, j);
    lemma_frame_bottom_bounds(ls, params, 0);
    lemma_round_up(frame_bottom(ls, params, 0), 16);
}

fn has_param_named(params: &[Obj], name: &String) -> (r: bool)
    ensures
        r == is_param_name(params@, name@),
{
    let mut i: usize = 0;
    while i < params.len()
        invariant
            i <= params.len(),
            forall|j: int| 0 <= j < i ==> params@[j].name@ != name@,
        decreases params.len() - i,
    {
        if params[i].name.eq(name) {
            return true;
        }
        i += 1;
    }
    false
}

/// Places the locals of a function in its stack frame, from the last one
/// up, each below the one placed before and aligned, and gives the frame's
/// size rounded up to 16 bytes. Locals that have an offset already keep it.
pub fn assign_local_offsets(locals: &mut Vec<Obj>, params: &[Obj]) -> (stack_size: i64)
    requires
        placeable(old(locals)@),
        frame_need(old(locals)@, params@, 0) <= i64::MAX - 16,
    ensures
        final(locals)@.len() == old(locals)@.len(),
        forall|k: int|
            0 <= k < old(locals)@.len() ==> #[trigger] final(locals)@[k] == placed(
                old(locals)@,
                params@,
                k,
            ),
        stack_size == round_up(frame_bottom(old(locals)@, params@, 0), 16),
{
    let ghost ls = old(locals)@;
    let ghost n = ls.len();
    let mut out: Vec<Obj> = Vec::new();
    let mut bottom: i64 = 0;
    proof {
        lemma_frame_bottom_bounds(ls, params@, n as int);
    }
    while locals.len() > 0
        invariant
            locals@ == ls.take(locals@.len() as int),
            locals@.len() <= n,
            n == ls.len(),
            placeable(ls),
            frame_need(ls, params@, 0) <= i64::MAX - 16,
            out@.len() == n - locals@.len(),
            forall|j: int| 0 <= j < out@.len() ==> #[trigger] out@[j] == placed(ls, params@, n - 1 - j),
            bottom == frame_bottom(ls, params@, locals@.len() as int),
        decreases locals@.len(),
    {
        let ghost k = locals@.len() - 1;
        assert(ls.take(k + 1).drop_last() =~= ls.take(k));
        let mut v = match locals.pop() {
            Some(v) => v,
            None => {
                assert(false);
                return 0;
            },
        };
        assert(v == ls[k]);
        proof {
            lemma_frame_bottom_bounds(ls, params@, k);
            lemma_frame_bottom_bounds(ls, params@, k + 1);
            lemma_frame_need_mono(ls, params@, 0, k);
        }
        if v.offset == 0 {
            let size = if (v.ty.kind == TypeKind::Struct || v.ty.kind == TypeKind::Union) && v.ty.size
                <= 16 && has_param_named(params, &v.name) {
                16
            } else {
                v.ty.size
            };
            let align = effective_var_align(&v);
            proof {
                lemma_round_up(bottom + size, align as int);
            }
            bottom = bottom + size;
            bottom = crate::align_to(bottom, align);
            assert(bottom == frame_bottom(ls, params@, k));
            v.offset = -bottom;
        }
        out.push(v);
    }
    assert(ls.take(0) =~= Seq::<Obj>::empty());
    while out.len() > 0
        invariant
            n == ls.len(),
            locals@.len() + out@.len() == n,
            forall|j: int| 0 <= j < locals@.len() ==> #[trigger] locals@[j] == placed(ls, params@, j),
            forall|j: int| 0 <= j < out@.len() ==> #[trigger] out@[j] == placed(ls, params@, n - 1 - j),
        decreases out@.len(),
    {
        let ghost m = locals@.len();
        let v = match out.pop() {
            Some(v) => v,
            None => {
                assert(false);
                return 0;
            },
        };
        assert(v == placed(ls, params@, m as int));
        locals.push(v);
    }
    proof {
        lemma_frame_bottom_bounds(ls, params@, 0);
        lemma_round_up(bottom as int, 16);
    }
    crate::align_to(bottom, 16)
}

proof fn lemma_frame_need_mono(ls: Seq<Obj>, params: Seq<Obj>, j: int, k: int)
    requires
        placeable(ls),
        0 <= j <= k,
    ensures
        frame_need(ls, params, k) <= frame_need(ls, params, j),
    decreases k - j,
{
    if j < k {
        lemma_frame_need_mono(ls, params, j + 1, k);
        if j < ls.len() && ls[j].offset == 0 {
            assert(ls[j].ty.size >= 0 && var_align(ls[j]) > 0);
        }
    }
}

// ---------------------------------------------------------------------------
// Offsets in the syntax tree

/// The position of the first local from index `i` on with identity `id`.
pub open spec fn local_with_id(ls: Seq<Obj>, id: u64, i: int) -> Option<int>
    decreases ls.len() - i,
{
    if i < 0 || i >= ls.len() {
        None
    } else if ls[i].unique_id == id {
        Some(i)
    } else {
        local_with_id(ls, id, i + 1)
    }
}

/// A variable reference with the offset of the local of the same identity,
/// if there is one.
pub open spec fn with_local_offset(o: Option<Box<Obj>>, ls: Seq<Obj>) -> Option<Box<Obj>> {
    match o {
        Some(v) => match local_with_id(ls, v.unique_id, 0) {
            Some(k) => Some(Box::new(Obj { offset: ls[k].offset, ..*v })),
            None => Some(v),
        },
        None => None,
    }
}

/// A tree whose variable references carry the offsets of the locals they
/// stand for.
pub open spec fn offsets_fixed(n: Node, ls: Seq<Obj>) -> Node
    decreases n, 1nat,
{
    Node {
        var: with_local_offset(n.var, ls),
        ret_buffer: with_local_offset(n.ret_buffer, ls),
        lhs: offsets_fixed_opt(n.lhs, ls),
        rhs: offsets_fixed_opt(n.rhs, ls),
        cond: offsets_fixed_opt(n.cond, ls),
        then_br: offsets_fixed_opt(n.then_br, ls),
        els: offsets_fixed_opt(n.els, ls),
        init: offsets_fixed_opt(n.init, ls),
        inc: offsets_fixed_opt(n.inc, ls),
        body: offsets_fixed_list(n.body, ls),
        args: offsets_fixed_list(n.args, ls),
        goto_next: offsets_fixed_opt(n.goto_next, ls),
        case_next: offsets_fixed_opt(n.case_next, ls),
        default_case: offsets_fixed_opt(n.default_case, ls),
        ..n
    }
}

/// An optional child with its offsets fixed.
pub open spec fn offsets_fixed_opt(o: Option<Box<Node>>, ls: Seq<Obj>) -> Option<Box<Node>>
    decreases o, 0nat,
{
    match o {
        Some(b) => Some(Box::new(offsets_fixed(*b, ls))),
        None => None,
    }
}

/// A statement list linked through `next`, each with its offsets fixed.
pub open spec fn offsets_fixed_list(o: Option<Box<Node>>, ls: Seq<Obj>) -> Option<Box<Node>>
    decreases o, 0nat,
{
    match o {
        Some(b) => Some(Box::new(Node { next: offsets_fixed_list(b.next, ls), ..offsets_fixed(*b, ls) })),
        None => None,
    }
}

proof fn lemma_local_with_id(ls: Seq<Obj>, id: u64, i: int)
    ensures
        local_with_id(ls, id, i) matches Some(k) ==> 0 <= i <= k < ls.len() && ls[k].unique_id
            == id,
    decreases ls.len() - i,
{
    if 0 <= i < ls.len() && ls[i].unique_id != id {
        lemma_local_with_id(ls, id, i + 1);
    }
}

fn find_local(locals: &[Obj], id: u64) -> (r: Option<usize>)
    ensures
        match local_with_id(locals@, id, 0) {
            Some(k) => 0 <= k < locals@.len() && r == Some(k as usize),
            None => r.is_none(),
        },
{
    proof {
        lemma_local_with_id(locals@, id, 0);
    }
    let mut i: usize = 0;
    while i < locals.len()
        invariant
            i <= locals.len(),
            local_with_id(locals@, id, 0) == local_with_id(locals@, id, i as int),
        decreases locals.len() - i,
    {
        if locals[i].unique_id == id {
            return Some(i);
        }
        i += 1;
    }
    None
}

fn fix_obj(o: &mut Option<Box<Obj>>, locals: &[Obj])
    ensures
        *final(o) == with_local_offset(*old(o), locals@),
{
    match o.take() {
        Some(mut v) => {
            if let Some(k) = find_local(locals, v.unique_id) {
                v.offset = locals[k].offset;
            }
            *o = Some(v);
        },
        None => {},
    }
}

fn fix_opt(o: &mut Option<Box<Node>>, locals: &[Obj])
    ensures
        *final(o) == offsets_fixed_opt(*old(o), locals@),
    decreases *old(o),
{
    match o.take() {
        Some(mut b) => {
            fix_var_offsets(&mut *b, locals);
            *o = Some(b);
        },
        None => {},
    }
}

fn fix_list(o: &mut Option<Box<Node>>, locals: &[Obj])
    ensures
        *final(o) == offsets_fixed_list(*old(o), locals@),
    decreases *old(o),
{
    match o.take() {
        Some(mut b) => {
            let ghost b0 = *b;
            fix_var_offsets(&mut *b, locals);
            let mut next = b.next.take();
            fix_list(&mut next, locals);
            b.next = next;
            assert(*b == Node { next: offsets_fixed_list(b0.next, locals@), ..offsets_fixed(b0, locals@) });
            *o = Some(b);
        },
        None => {},
    }
}

/// Gives every variable reference in a tree the offset of the local with
/// the same identity.
pub fn fix_var_offsets(node: &mut Node, locals: &[Obj])
    ensures
        *final(node) == offsets_fixed(*old(node), locals@),
    decreases *old(node),
{
    fix_obj(&mut node.var, locals);
    fix_obj(&mut node.ret_buffer, locals);
    fix_opt(&mut node.lhs, locals);
    fix_opt(&mut node.rhs, locals);
    fix_opt(&mut node.cond, locals);
    fix_opt(&mut node.then_br, locals);
    fix_opt(&mut node.els, locals);
    fix_opt(&mut node.init, locals);
    fix_opt(&mut node.inc, locals);
    fix_list(&mut node.body, locals);
    fix_list(&mut node.args, locals);
    fix_opt(&mut node.goto_next, locals);
    fix_opt(&mut node.case_next, locals);
    fix_opt(&mut node.default_case, locals);
}

// ---------------------------------------------------------------------------
// alloca

/// The code of `alloca`: the size in `%rdi` is rounded up to 16 bytes, the
/// temporaries between the bottom of the `alloca` area (kept at
/// `off(%rbp)`) and the stack pointer are moved down by that much, byte by
/// byte, and the new bottom is kept and returned in `%rax`.
pub open spec fn builtin_alloca_text(off: int) -> Seq<char> {
    let o = signed_decimal(off);
    "  add $15, %rdi\n"@ + "  and $0xfffffff0, %edi\n"@ + "  mov "@ + o + "(%rbp), %rcx\n"@ + "  sub %rsp, %rcx\n"@
        + "  mov %rsp, %rax\n"@ + "  sub %rdi, %rsp\n"@ + "  mov %rsp, %rdx\n"@ + "1:\n"@ + "  cmp $0, %rcx\n"@
        + "  je 2f\n"@ + "  mov (%rax), %r8b\n"@ + "  mov %r8b, (%rdx)\n"@ + "  inc %rdx\n"@ + "  inc %rax\n"@
        + "  dec %rcx\n"@ + "  jmp 1b\n"@ + "2:\n"@ + "  mov "@ + o + "(%rbp), %rax\n"@ + "  sub %rdi, %rax\n"@
        + "  mov %rax, "@ + o + "(%rbp)\n"@
}

/// Emits the code of `alloca` for a function whose `alloca` area has its
/// bottom kept at `alloca_bottom_offset(%rbp)`.
pub fn builtin_alloca(alloca_bottom_offset: i64, result: &mut String)
    ensures
        final(result)@ == old(result)@ + builtin_alloca_text(alloca_bottom_offset as int),
{
    let ghost r0 = result@;
    let off = alloca_bottom_offset;
    result.append("  add $15, %rdi\n");
    result.append("  and $0xfffffff0, %edi\n");
    result.append("  mov ");
    push_i64(result, off);
    result.append("(%rbp), %rcx\n");
    result.append("  sub %rsp, %rcx\n");
    result.append("  mov %rsp, %rax\n");
    result.append("  sub %rdi, %rsp\n");
    result.append("  mov %rsp, %rdx\n");
    result.append("1:\n");
    result.append("  cmp $0, %rcx\n");
    result.append("  je 2f\n");
    result.append("  mov (%rax), %r8b\n");
    result.append("  mov %r8b, (%rdx)\n");
    result.append("  inc %rdx\n");
    result.append("  inc %rax\n");
    result.append("  dec %rcx\n");
    result.append("  jmp 1b\n");
    result.append("2:\n");
    result.append("  mov ");
    push_i64(result, off);
    result.append("(%rbp), %rax\n");
    result.append("  sub %rdi, %rax\n");
    result.append("  mov %rax, ");
    push_i64(result, off);
    result.append("(%rbp)\n");
    assert(result@ =~= r0 + builtin_alloca_text(alloca_bottom_offset as int));
}

} // verus!
