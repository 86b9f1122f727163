use vstd::prelude::*;

use crate::codegen::push_i64;
use crate::parse::{Node, Obj};
use crate::text::signed_decimal;
use crate::types::{Member, Type, TypeKind};
use crate::trunc_div;

verus! {

// ---------------------------------------------------------------------------
// Small structs in registers: which eightbytes hold only floating point

/// Whether `x` is an `i64` value.
pub open spec fn in_i64(x: int) -> bool {
    i64::MIN <= x <= i64::MAX
}

/// Whether every scalar of `ty`, placed at `offset`, that overlaps the
/// bytes `[lo, hi)` is a `float` or a `double`: for a struct or union, of
/// each member at its offset; for an array, of each element in turn.
pub open spec fn flonum_at(ty: Type, lo: int, hi: int, offset: int) -> bool
    decreases ty, 2nat, 0int,
{
    if ty.kind == TypeKind::Struct || ty.kind == TypeKind::Union {
        members_flonum(ty.members, lo, hi, offset)
    } else if ty.kind == TypeKind::Array {
        match ty.base {
            Some(b) => elems_flonum(*b, ty.array_len as int, lo, hi, offset),
            None => true,
        }
    } else {
        offset < lo || hi <= offset || ty.kind == TypeKind::Float || ty.kind == TypeKind::Double
    }
}

/// `flonum_at` of each member of a list, at its offset from `offset`.
pub open spec fn members_flonum(m: Option<Box<Member>>, lo: int, hi: int, offset: int) -> bool
    decreases m, 1nat, 0int,
{
    match m {
        Some(b) => flonum_at(b.ty, lo, hi, offset + b.offset) && members_flonum(b.next, lo, hi, offset),
        None => true,
    }
}

/// `flonum_at` of the first `n` elements of an array of `base` at `offset`.
pub open spec fn elems_flonum(base: Type, n: int, lo: int, hi: int, offset: int) -> bool
    decreases base, 3nat, n,
{
    if n <= 0 {
        true
    } else {
        elems_flonum(base, n - 1, lo, hi, offset) && flonum_at(base, lo, hi, offset + base.size * (n - 1))
    }
}

/// Whether looking at `ty` as `flonum_at` does stays within `i64` and finds
/// an element type for each array: every offset that is computed before
/// the answer is known fits.
pub open spec fn flonum_ok(ty: Type, lo: int, hi: int, offset: int) -> bool
    decreases ty, 2nat, 0int,
{
    if ty.kind == TypeKind::Struct || ty.kind == TypeKind::Union {
        members_ok(ty.members, lo, hi, offset)
    } else if ty.kind == TypeKind::Array {
        match ty.base {
            Some(b) => elems_ok(*b, ty.array_len as int, lo, hi, offset),
            None => false,
        }
    } else {
        true
    }
}

/// `flonum_ok` for a member list.
pub open spec fn members_ok(m: Option<Box<Member>>, lo: int, hi: int, offset: int) -> bool
    decreases m, 1nat, 0int,
{
    match m {
        Some(b) => {
            &&& in_i64(offset + b.offset)
            &&& flonum_ok(b.ty, lo, hi, offset + b.offset)
            &&& flonum_at(b.ty, lo, hi, offset + b.offset) ==> members_ok(b.next, lo, hi, offset)
        },
        None => true,
    }
}

/// `flonum_ok` for the first `n` elements of an array.
pub open spec fn elems_ok(base: Type, n: int, lo: int, hi: int, offset: int) -> bool
    decreases base, 3nat, n,
{
    if n <= 0 {
        true
    } else {
        &&& elems_ok(base, n - 1, lo, hi, offset)
        &&& elems_flonum(base, n - 1, lo, hi, offset) ==> {
            &&& in_i64(base.size * (n - 1))
            &&& in_i64(offset + base.size * (n - 1))
            &&& flonum_ok(base, lo, hi, offset + base.size * (n - 1))
        }
    }
}

/// Whether every scalar of `ty` at `offset` that overlaps `[lo, hi)` is a
/// `float` or a `double` (`flonum_at`).
#[verifier::rlimit(100)]
#[verifier::spinoff_prover]
pub fn has_flonum(ty: &Type, lo: i64, hi: i64, offset: i64) -> (r: bool)
    requires
        flonum_ok(*ty, lo as int, hi as int, offset as int),
    ensures
        r == flonum_at(*ty, lo as int, hi as int, offset as int),
    decreases *ty, 2nat, 0int,
{
    if ty.kind == TypeKind::Struct || ty.kind == TypeKind::Union {
        members_have_flonum(&ty.members, lo, hi, offset)
    } else if ty.kind == TypeKind::Array {
        match &ty.base {
            Some(b) => {
                let base: &Type = b;
                let mut i: i64 = 0;
                while i < ty.array_len
                    invariant
                        ty.kind == TypeKind::Array,
                        ty.base == Some(*b),
                        *base == **b,
                        0 <= i,
                        ty.array_len >= 0 ==> i <= ty.array_len,
                        elems_ok(*base, ty.array_len as int, lo as int, hi as int, offset as int),
                        elems_flonum(*base, i as int, lo as int, hi as int, offset as int),
                    decreases ty.array_len - i,
                {
                    proof {
                        lemma_elems_ok(*base, ty.array_len as int, i + 1, lo as int, hi as int, offset as int);
                    }
                    let off = offset + base.size * i;
                    proof {
                        assert(decreases_to!(*ty => ty.base));
                        assert(decreases_to!(ty.base => ty.base->0));
                        assert(*base == *ty.base->0);
                    }
                    if !has_flonum(base, lo, hi, off) {
                        proof {
                            assert(!elems_flonum(*base, i + 1, lo as int, hi as int, offset as int));
                            lemma_elems_fail(*base, ty.array_len as int, i + 1, lo as int, hi as int, offset as int);
                        }
                        return false;
                    }
                    i = i + 1;
                }
                true
            },
            None => true,
        }
    } else {
        offset < lo || hi <= offset || ty.kind == TypeKind::Float || ty.kind == TypeKind::Double
    }
}

fn members_have_flonum(m: &Option<Box<Member>>, lo: i64, hi: i64, offset: i64) -> (r: bool)
    requires
        members_ok(*m, lo as int, hi as int, offset as int),
    ensures
        r == members_flonum(*m, lo as int, hi as int, offset as int),
    decreases *m, 1nat, 0int,
{
    match m {
        Some(b) => {
            if !has_flonum(&b.ty, lo, hi, offset + b.offset) {
                return false;
            }
            members_have_flonum(&b.next, lo, hi, offset)
        },
        None => true,
    }
}

/// `elems_ok` for `n` elements gives it for fewer.
proof fn lemma_elems_ok(base: Type, n: int, k: int, lo: int, hi: int, offset: int)
    requires
        elems_ok(base, n, lo, hi, offset),
        0 < k <= n,
    ensures
        elems_ok(base, k, lo, hi, offset),
    decreases n - k,
{
    if k < n {
        lemma_elems_ok(base, n - 1, k, lo, hi, offset);
    }
}

/// A failing element makes all further prefixes fail.
proof fn lemma_elems_fail(base: Type, n: int, k: int, lo: int, hi: int, offset: int)
    requires
        0 < k <= n,
        !elems_flonum(base, k, lo, hi, offset),
    ensures
        !elems_flonum(base, n, lo, hi, offset),
    decreases n - k,
{
    if k < n {
        lemma_elems_fail(base, n - 1, k, lo, hi, offset);
    }
}

/// Whether the first eightbyte of `ty` holds only floating point.
pub open spec fn flonum1(ty: Type) -> bool {
    flonum_at(ty, 0, 8, 0)
}

/// Whether the second eightbyte of `ty` holds only floating point.
pub open spec fn flonum2(ty: Type) -> bool {
    flonum_at(ty, 8, 16, 0)
}

/// Whether the first eightbyte of `ty` holds only floating point.
pub fn has_flonum1(ty: &Type) -> (r: bool)
    requires
        flonum_ok(*ty, 0, 8, 0),
    ensures
        r == flonum1(*ty),
{
    has_flonum(ty, 0, 8, 0)
}

/// Whether the second eightbyte of `ty` holds only floating point.
pub fn has_flonum2(ty: &Type) -> (r: bool)
    requires
        flonum_ok(*ty, 8, 16, 0),
    ensures
        r == flonum2(*ty),
{
    has_flonum(ty, 8, 16, 0)
}

// ---------------------------------------------------------------------------
// Moving small structs between memory, registers and the stack

/// The byte-by-byte copy of the first `n` bytes from `(%rax)` to the top of
/// the stack.
pub open spec fn push_bytes_text(n: int) -> Seq<char>
    decreases n,
{
    if n <= 0 {
        Seq::empty()
    } else {
        push_bytes_text(n - 1) + "  mov "@ + signed_decimal(n - 1) + "(%rax), %r10b\n"@ + "  mov %r10b, "@
            + signed_decimal(n - 1) + "(%rsp)\n"@
    }
}

/// The room a struct of `size` bytes takes on the stack: whole eightbytes.
pub open spec fn stack_room(size: int) -> int {
    trunc_div(size + 7, 8) * 8
}

/// The code that pushes a copy of the struct of type `ty` at `(%rax)`.
pub open spec fn push_struct_text(ty: Type) -> Seq<char> {
    "  sub $"@ + signed_decimal(stack_room(ty.size as int)) + ", %rsp\n"@ + push_bytes_text(ty.size as int)
}

/// Emits the push of a copy of the struct of type `ty` whose address is in
/// `%rax`; `depth` counts the eightbytes pushed.
#[verifier::rlimit(100)]
#[verifier::spinoff_prover]
pub fn push_struct(ty: &Type, result: &mut String, depth: &mut i32)
    requires
        ty.size + 7 <= i64::MAX,
        i32::MIN <= trunc_div(ty.size + 7, 8) <= i32::MAX,
        i32::MIN <= *old(depth) + trunc_div(ty.size + 7, 8) <= i32::MAX,
    ensures
        final(result)@ == old(result)@ + push_struct_text(*ty),
        *final(depth) == *old(depth) + trunc_div(ty.size + 7, 8),
{
    let words: i64 = (ty.size + 7) / 8;
    proof {
        crate::lemma_trunc_div_bound(ty.size + 7, 8);
    }
    let sz: i64 = words * 8;
    result.append("  sub $");
    push_i64(result, sz);
    result.append(", %rsp\n");
    *depth = *depth + words as i32;
    let ghost start = result@;
    let mut i: i64 = 0;
    while i < ty.size
        invariant
            0 <= i,
            ty.size >= 0 ==> i <= ty.size,
            ty.size < 0 ==> i == 0,
            result@ == start + push_bytes_text(i as int),
        decreases ty.size - i,
    {
        result.append("  mov ");
        push_i64(result, i);
        result.append("(%rax), %r10b\n");
        result.append("  mov %r10b, ");
        push_i64(result, i);
        result.append("(%rsp)\n");
        i = i + 1;
        assert(result@ =~= start + push_bytes_text(i as int));
    }
    proof {
        if ty.size <= 0 {
            assert(i == 0);
        }
    }
}

/// How many of the first eight bytes of a value of `size` bytes are moved
/// one by one (a negative size counts as huge).
pub open spec fn low_bytes(size: int) -> int {
    if size < 0 || size > 8 {
        8
    } else {
        size
    }
}

/// The end of the bytes after the first eight that are moved one by one.
pub open spec fn high_end(size: int) -> int {
    if size < 0 || size > 16 {
        16
    } else {
        size
    }
}

/// The byte register of the integer register that holds an eightbyte:
/// `%al` for the first one used, `%dl` for the second.
pub open spec fn byte_reg(gp: int) -> Seq<char> {
    if gp == 0 {
        "%al"@
    } else {
        "%dl"@
    }
}

/// The 64-bit register of the integer register that holds an eightbyte.
pub open spec fn word_reg(gp: int) -> Seq<char> {
    if gp == 0 {
        "%rax"@
    } else {
        "%rdx"@
    }
}

fn byte_reg_str(gp: i32) -> (r: &'static str)
    ensures
        r@ == byte_reg(gp as int),
{
    if gp == 0 {
        "%al"
    } else {
        "%dl"
    }
}

fn word_reg_str(gp: i32) -> (r: &'static str)
    ensures
        r@ == word_reg(gp as int),
{
    if gp == 0 {
        "%rax"
    } else {
        "%rdx"
    }
}

/// The stores of bytes `from..to` of a register into `offset(%rbp)` on,
/// low byte first, shifting the register right after each.
pub open spec fn spill_reg_bytes(reg1: Seq<char>, reg2: Seq<char>, offset: int, from: int, to: int) -> Seq<char>
    decreases to - from,
{
    if to <= from {
        Seq::empty()
    } else {
        spill_reg_bytes(reg1, reg2, offset, from, to - 1) + "  mov "@ + reg1 + ", "@ + signed_decimal(offset + to - 1)
            + "(%rbp)\n"@ + "  shr $8, "@ + reg2 + "\n"@
    }
}

/// What the code that keeps a struct returned in registers needs of its
/// type: the eightbytes can be classified, a floating-point first eightbyte
/// is 4 or at least 8 bytes, a floating-point second one makes 12 or 16
/// bytes in all.
pub open spec fn regs_struct_ok(ty: Type) -> bool {
    &&& flonum_ok(ty, 0, 8, 0)
    &&& ty.size > 8 ==> flonum_ok(ty, 8, 16, 0)
    &&& flonum1(ty) ==> ty.size == 4 || ty.size >= 8
    &&& ty.size > 8 && flonum2(ty) ==> ty.size == 12 || ty.size == 16
}

/// The code that stores a struct returned in registers into its buffer, the
/// local variable `var`: each eightbyte from `%xmm0`/`%xmm1` if it holds
/// only floating point, else byte by byte from `%rax`/`%rdx`.
pub open spec fn copy_ret_buffer_text(var: Obj) -> Seq<char> {
    let ty = var.ty;
    let f1 = flonum1(ty);
    let fp: int = if f1 {
        1
    } else {
        0
    };
    let gp: int = if f1 {
        0
    } else {
        1
    };
    (if f1 {
        (if ty.size == 4 {
            "  movss %xmm0, "@
        } else {
            "  movsd %xmm0, "@
        }) + signed_decimal(var.offset as int) + "(%rbp)\n"@
    } else {
        spill_reg_bytes("%al"@, "%rax"@, var.offset as int, 0, low_bytes(ty.size as int))
    }) + if ty.size > 8 {
        if flonum2(ty) {
            (if ty.size == 12 {
                "  movss %xmm"@
            } else {
                "  movsd %xmm"@
            }) + signed_decimal(fp) + ", "@ + signed_decimal(var.offset + 8) + "(%rbp)\n"@
        } else {
            spill_reg_bytes(byte_reg(gp), word_reg(gp), var.offset as int, 8, high_end(ty.size as int))
        }
    } else {
        Seq::empty()
    }
}

fn emit_spill_reg_bytes(reg1: &str, reg2: &str, offset: i64, from: i64, to: i64, result: &mut String)
    requires
        0 <= from,
        to <= 16,
        offset + 16 <= i64::MAX,
    ensures
        final(result)@ == old(result)@ + spill_reg_bytes(reg1@, reg2@, offset as int, from as int, to as int),
{
    let ghost start = result@;
    let mut i: i64 = from;
    proof {
        assert(spill_reg_bytes(reg1@, reg2@, offset as int, from as int, from as int) == Seq::<char>::empty());
    }
    while i < to
        invariant
            0 <= from <= i,
            to <= 16,
            offset + 16 <= i64::MAX,
            to >= from ==> i <= to,
            to < from ==> i == from,
            result@ == start + spill_reg_bytes(reg1@, reg2@, offset as int, from as int, i as int),
        decreases to - i,
    {
        result.append("  mov ");
        result.append(reg1);
        result.append(", ");
        push_i64(result, offset + i);
        result.append("(%rbp)\n");
        result.append("  shr $8, ");
        result.append(reg2);
        result.append("\n");
        i = i + 1;
        assert(result@ =~= start + spill_reg_bytes(reg1@, reg2@, offset as int, from as int, i as int));
    }
    proof {
        if to < from {
            assert(spill_reg_bytes(reg1@, reg2@, offset as int, from as int, to as int) == Seq::<char>::empty());
        }
    }
}

/// Emits the stores of a struct returned in registers into its buffer
/// `var`.
#[verifier::rlimit(100)]
#[verifier::spinoff_prover]
pub fn copy_ret_buffer(var: &Obj, result: &mut String)
    requires
        regs_struct_ok(var.ty),
        var.offset + 16 <= i64::MAX,
    ensures
        final(result)@ == old(result)@ + copy_ret_buffer_text(*var),
{
    let ty = &var.ty;
    let ghost start = result@;
    let mut gp: i32 = 0;
    let mut fp: i32 = 0;
    if has_flonum1(ty) {
        if ty.size == 4 {
            result.append("  movss %xmm0, ");
        } else {
            result.append("  movsd %xmm0, ");
        }
        push_i64(result, var.offset);
        result.append("(%rbp)\n");
        fp = fp + 1;
    } else {
        let n: i64 = if ty.size < 0 || ty.size > 8 {
            8
        } else {
            ty.size
        };
        emit_spill_reg_bytes("%al", "%rax", var.offset, 0, n, result);
        gp = gp + 1;
    }
    let ghost low_part = result@;
    if ty.size > 8 {
        if has_flonum2(ty) {
            if ty.size == 12 {
                result.append("  movss %xmm");
            } else {
                result.append("  movsd %xmm");
            }
            push_i64(result, fp as i64);
            result.append(", ");
            push_i64(result, var.offset + 8);
            result.append("(%rbp)\n");
        } else {
            let m: i64 = if ty.size > 16 {
                16
            } else {
                ty.size
            };
            emit_spill_reg_bytes(byte_reg_str(gp), word_reg_str(gp), var.offset, 8, m, result);
        }
    }
    assert(result@ =~= old(result)@ + copy_ret_buffer_text(*var));
}

/// The loads of bytes `from..to` of a struct at `(%rdi)` into a register,
/// high byte first, shifting the register left before each.
pub open spec fn gather_bytes(reg1: Seq<char>, reg2: Seq<char>, from: int, to: int) -> Seq<char>
    decreases to - from,
{
    if from >= to {
        Seq::empty()
    } else {
        gather_bytes(reg1, reg2, from + 1, to) + "  shl $8, "@ + reg2 + "\n"@ + "  mov "@ + signed_decimal(from)
            + "(%rdi), "@ + reg1 + "\n"@
    }
}

/// The code that loads a struct at the address in `%rax` into the registers
/// it is returned in: each eightbyte into `%xmm0`/`%xmm1` if it holds only
/// floating point, else byte by byte into `%rax`/`%rdx`.
pub open spec fn copy_struct_reg_text(ty: Type) -> Seq<char> {
    let f1 = flonum1(ty);
    let fp: int = if f1 {
        1
    } else {
        0
    };
    let gp: int = if f1 {
        0
    } else {
        1
    };
    "  mov %rax, %rdi\n"@ + (if f1 {
        if ty.size == 4 {
            "  movss (%rdi), %xmm0\n"@
        } else {
            "  movsd (%rdi), %xmm0\n"@
        }
    } else {
        "  mov $0, %rax\n"@ + gather_bytes("%al"@, "%rax"@, 0, low_bytes(ty.size as int))
    }) + if ty.size > 8 {
        if flonum2(ty) {
            (if ty.size == 12 {
                "  movss 8(%rdi), %xmm"@
            } else {
                "  movsd 8(%rdi), %xmm"@
            }) + signed_decimal(fp) + "\n"@
        } else {
            "  mov $0, "@ + word_reg(gp) + "\n"@ + gather_bytes(byte_reg(gp), word_reg(gp), 8, high_end(ty.size as int))
        }
    } else {
        Seq::empty()
    }
}

fn emit_gather_bytes(reg1: &str, reg2: &str, from: i64, to: i64, result: &mut String)
    requires
        0 <= from <= to <= 16,
    ensures
        final(result)@ == old(result)@ + gather_bytes(reg1@, reg2@, from as int, to as int),
{
    let ghost start = result@;
    let mut i: i64 = to;
    while i > from
        invariant
            from <= i <= to,
            result@ == start + gather_bytes(reg1@, reg2@, i as int, to as int),
        decreases i - from,
    {
        i = i - 1;
        result.append("  shl $8, ");
        result.append(reg2);
        result.append("\n");
        result.append("  mov ");
        push_i64(result, i);
        result.append("(%rdi), ");
        result.append(reg1);
        result.append("\n");
        assert(result@ =~= start + gather_bytes(reg1@, reg2@, i as int, to as int));
    }
}

/// Emits the load of the struct of type `ty` at the address in `%rax` into
/// the registers it is returned in.
#[verifier::rlimit(100)]
#[verifier::spinoff_prover]
pub fn copy_struct_reg(ty: &Type, result: &mut String)
    requires
        regs_struct_ok(*ty),
    ensures
        final(result)@ == old(result)@ + copy_struct_reg_text(*ty),
{
    let mut gp: i32 = 0;
    let mut fp: i32 = 0;
    result.append("  mov %rax, %rdi\n");
    if has_flonum1(ty) {
        if ty.size == 4 {
            result.append("  movss (%rdi), %xmm0\n");
        } else {
            result.append("  movsd (%rdi), %xmm0\n");
        }
        fp = fp + 1;
    } else {
        result.append("  mov $0, %rax\n");
        let n: i64 = if ty.size < 0 || ty.size > 8 {
            8
        } else {
            ty.size
        };
        emit_gather_bytes("%al", "%rax", 0, n, result);
        gp = gp + 1;
    }
    if ty.size > 8 {
        if has_flonum2(ty) {
            if ty.size == 12 {
                result.append("  movss 8(%rdi), %xmm");
            } else {
                result.append("  movsd 8(%rdi), %xmm");
            }
            push_i64(result, fp as i64);
            result.append("\n");
        } else {
            let reg1 = byte_reg_str(gp);
            let reg2 = word_reg_str(gp);
            result.append("  mov $0, ");
            result.append(reg2);
            result.append("\n");
            let m: i64 = if ty.size > 16 {
                16
            } else {
                ty.size
            };
            emit_gather_bytes(reg1, reg2, 8, m, result);
        }
    }
    assert(result@ =~= old(result)@ + copy_struct_reg_text(*ty));
}

/// The byte-by-byte copy of the first `n` bytes from `(%rax)` to `(%rdi)`
/// through `%dl`.
pub open spec fn mem_bytes_text(n: int) -> Seq<char>
    decreases n,
{
    if n <= 0 {
        Seq::empty()
    } else {
        mem_bytes_text(n - 1) + "  mov "@ + signed_decimal(n - 1) + "(%rax), %dl\n"@ + "  mov %dl, "@
            + signed_decimal(n - 1) + "(%rdi)\n"@
    }
}

/// The code that copies a struct returned in memory into the buffer whose
/// address was passed as the hidden parameter at `param_offset(%rbp)`.
pub open spec fn copy_struct_mem_text(ty: Type, param_offset: int) -> Seq<char> {
    "  mov "@ + signed_decimal(param_offset) + "(%rbp), %rdi\n"@ + mem_bytes_text(ty.size as int)
}

/// Emits the copy of the struct of type `ty` at `(%rax)` into the buffer
/// whose address is at `param_offset(%rbp)`.
pub fn copy_struct_mem(ty: &Type, param_offset: i64, result: &mut String)
    ensures
        final(result)@ == old(result)@ + copy_struct_mem_text(*ty, param_offset as int),
{
    result.append("  mov ");
    push_i64(result, param_offset);
    result.append("(%rbp), %rdi\n");
    let ghost start = result@;
    let mut i: i64 = 0;
    while i < ty.size
        invariant
            0 <= i,
            ty.size >= 0 ==> i <= ty.size,
            ty.size < 0 ==> i == 0,
            result@ == start + mem_bytes_text(i as int),
        decreases ty.size - i,
    {
        result.append("  mov ");
        push_i64(result, i);
        result.append("(%rax), %dl\n");
        result.append("  mov %dl, ");
        push_i64(result, i);
        result.append("(%rdi)\n");
        i = i + 1;
        assert(result@ =~= start + mem_bytes_text(i as int));
    }
    proof {
        if ty.size <= 0 {
            assert(i == 0);
        }
    }
}

// ---------------------------------------------------------------------------
// Classifying the arguments of a call

/// The integer argument registers.
pub const GP_MAX: i32 = 6;
/// The floating-point argument registers.
pub const FP_MAX: i32 = 8;

/// The eightbytes a struct argument takes on the stack, as an `i32`.
pub open spec fn arg_words(ty: Type) -> int {
    (trunc_div(ty.size + 7, 8) as i32) as int
}

/// 1 for true, 0 for false.
pub open spec fn b2i(b: bool) -> int {
    if b {
        1
    } else {
        0
    }
}

/// Whether the second eightbyte of a small struct argument holds only
/// floating point; one of no more than 8 bytes counts as not.
pub open spec fn second_flonum(ty: Type) -> bool {
    if ty.size > 8 {
        flonum2(ty)
    } else {
        false
    }
}

/// The floating-point registers a small struct argument asks for.
pub open spec fn fp_regs(ty: Type) -> int {
    b2i(flonum1(ty)) + b2i(second_flonum(ty))
}

/// The integer registers a small struct argument asks for.
pub open spec fn gp_regs(ty: Type) -> int {
    b2i(!flonum1(ty)) + b2i(!second_flonum(ty))
}

/// The classification after one more argument of type `ty`, from the
/// integer and floating-point registers used so far, the eightbytes on the
/// stack so far, and whether each earlier argument goes on the stack.
/// A struct or union of more than 16 bytes goes on the stack; a smaller one
/// takes a floating-point register for each eightbyte of only floating
/// point and an integer register for each other (one that is no more than
/// 8 bytes is counted as having a second, integer, eightbyte), if both
/// kinds still suffice, else it goes on the stack. A `float` or `double`
/// takes the next floating-point register, or a stack slot when none is
/// left; a `long double` always goes on the stack in two slots; anything
/// else takes the next integer register or a stack slot.
pub open spec fn classify_arg(st: (int, int, int, Seq<bool>), ty: Type) -> (int, int, int, Seq<bool>) {
    let (gp, fp, stack, bs) = st;
    if ty.kind == TypeKind::Struct || ty.kind == TypeKind::Union {
        if ty.size > 16 {
            (gp, fp, stack + arg_words(ty), bs.push(true))
        } else {
            let nf = fp_regs(ty);
            let ng = gp_regs(ty);
            if fp + nf < FP_MAX && gp + ng < GP_MAX {
                (gp + ng, fp + nf, stack, bs.push(false))
            } else {
                (gp, fp, stack + arg_words(ty), bs.push(true))
            }
        }
    } else if ty.kind == TypeKind::Float || ty.kind == TypeKind::Double {
        if fp >= FP_MAX {
            (gp, fp + 1, stack + 1, bs.push(true))
        } else {
            (gp, fp + 1, stack, bs.push(false))
        }
    } else if ty.kind == TypeKind::LDouble {
        (gp, fp, stack + 2, bs.push(true))
    } else if gp >= GP_MAX {
        (gp + 1, fp, stack + 1, bs.push(true))
    } else {
        (gp + 1, fp, stack, bs.push(false))
    }
}

/// The classification after the arguments `tys`, from `st`.
pub open spec fn classify_args(st: (int, int, int, Seq<bool>), tys: Seq<Type>) -> (int, int, int, Seq<bool>)
    decreases tys.len(),
{
    if tys.len() == 0 {
        st
    } else {
        classify_arg(classify_args(st, tys.drop_last()), tys.last())
    }
}

/// The types of a list of argument nodes linked through `next`.
pub open spec fn arg_types(n: Node) -> Seq<Type>
    decreases n,
{
    seq![n.ty.unwrap()] + match n.next {
        Some(b) => arg_types(*b),
        None => Seq::empty(),
    }
}

/// Whether each node of an argument list has a type.
pub open spec fn args_typed(n: Node) -> bool
    decreases n,
{
    n.ty is Some && match n.next {
        Some(b) => args_typed(*b),
        None => true,
    }
}

/// The state before the first argument: one integer register already taken
/// by the address of a buffer for a result of more than 16 bytes.
pub open spec fn args_start(has_ret_buffer: bool, ret_ty_size: Option<i64>) -> (int, int, int, Seq<bool>) {
    let size = match ret_ty_size {
        Some(s) => s as int,
        None => 0,
    };
    (if has_ret_buffer && size > 16 {
        1
    } else {
        0
    }, 0, 0, Seq::empty())
}

/// What classifying the arguments `tys` needs: the eightbytes of each small
/// struct can be classified, and every count stays within `i32`.
pub open spec fn args_countable(st: (int, int, int, Seq<bool>), tys: Seq<Type>) -> bool {
    &&& forall|k: int|
        0 <= k < tys.len() && (tys[k].kind == TypeKind::Struct || tys[k].kind == TypeKind::Union)
            && tys[k].size <= 16 ==> flonum_ok(#[trigger] tys[k], 0, 8, 0) && (tys[k].size > 8 ==> flonum_ok(
            tys[k],
            8,
            16,
            0,
        ))
    &&& forall|k: int|
        0 <= k < tys.len() && ((#[trigger] tys[k]).kind == TypeKind::Struct || tys[k].kind == TypeKind::Union)
            ==> tys[k].size + 7 <= i64::MAX
    &&& forall|k: int|
        0 <= k <= tys.len() ==> {
            let c = #[trigger] classify_args(st, tys.take(k));
            &&& i32::MIN <= c.0 <= i32::MAX
            &&& i32::MIN <= c.1 <= i32::MAX
            &&& i32::MIN <= c.2 <= i32::MAX
            &&& k < tys.len() && (tys[k].kind == TypeKind::Struct || tys[k].kind == TypeKind::Union)
                && tys[k].size <= 16 ==> c.1 + fp_regs(tys[k]) <= i32::MAX && c.0 + gp_regs(tys[k]) <= i32::MAX
        }
}

proof fn lemma_arg_types(n: Node)
    ensures
        arg_types(n).len() >= 1,
        arg_types(n)[0] == n.ty.unwrap(),
        n.next matches Some(b) ==> arg_types(n).skip(1) == arg_types(*b),
        n.next is None ==> arg_types(n).len() == 1,
{
    match n.next {
        Some(b) => {
            assert(arg_types(n).skip(1) =~= arg_types(*b));
        },
        None => {},
    }
}

/// Classifies the arguments of a call, the list that starts at `node`: the
/// integer and floating-point registers they take, whether each goes on
/// the stack, and the eightbytes they take there.
#[verifier::rlimit(100)]
#[verifier::spinoff_prover]
pub fn count_args(node: &Node, ret_buffer: Option<&Obj>, ret_ty_size: Option<i64>) -> (r: (i32, i32, Vec<bool>, i32))
    requires
        args_typed(*node),
        args_countable(args_start(ret_buffer is Some, ret_ty_size), arg_types(*node)),
    ensures
        ({
            let c = classify_args(args_start(ret_buffer is Some, ret_ty_size), arg_types(*node));
            r.0 == c.0 && r.1 == c.1 && r.3 == c.2 && r.2@ == c.3
        }),
{
    let ghost tys = arg_types(*node);
    let ghost st0 = args_start(ret_buffer is Some, ret_ty_size);
    let mut gp: i32 = 0;
    let mut fp: i32 = 0;
    let mut stack: i32 = 0;
    let mut pass_by_stack: Vec<bool> = Vec::new();
    let size: i64 = match ret_ty_size {
        Some(s) => s,
        None => 0,
    };
    if ret_buffer.is_some() && size > 16 {
        gp = gp + 1;
    }
    let mut arg: &Node = node;
    let ghost mut k: int = 0;
    assert(tys.take(0) =~= Seq::<Type>::empty());
    assert(tys.skip(0) =~= tys);
    loop
        invariant_except_break
            0 <= k < tys.len(),
            args_typed(*arg),
            arg_types(*arg) == tys.skip(k),
            ({
                let c = classify_args(st0, tys.take(k));
                gp == c.0 && fp == c.1 && stack == c.2 && pass_by_stack@ == c.3
            }),
        invariant
            tys == arg_types(*node),
            st0 == args_start(ret_buffer is Some, ret_ty_size),
            args_countable(st0, tys),
        ensures
            ({
                let c = classify_args(st0, tys);
                gp == c.0 && fp == c.1 && stack == c.2 && pass_by_stack@ == c.3
            }),
        decreases tys.len() - k,
    {
        proof {
            lemma_arg_types(*arg);
            assert(tys.take(k + 1).drop_last() =~= tys.take(k));
            assert(tys.take(k + 1).last() == tys[k]);
            assert(tys[k] == tys.skip(k)[0]);
        }
        let ty: &Type = match &arg.ty {
            Some(t) => t,
            None => {
                assert(false);
                return (gp, fp, pass_by_stack, stack);
            },
        };
        assert(*ty == tys[k]);
        let ghost c1 = classify_args(st0, tys.take(k + 1));
        assert(c1 == classify_arg(classify_args(st0, tys.take(k)), tys[k]));
        assert(i32::MIN <= c1.0 <= i32::MAX && i32::MIN <= c1.1 <= i32::MAX && i32::MIN <= c1.2 <= i32::MAX);
        if ty.kind == TypeKind::Struct || ty.kind == TypeKind::Union {
            if ty.size > 16 {
                pass_by_stack.push(true);
                let sz = #[verifier::truncate] (((ty.size + 7) / 8) as i32);
                stack = stack + sz;
            } else {
                let fp1 = has_flonum1(ty);
                let fp2 = if ty.size > 8 {
                    has_flonum2(ty)
                } else {
                    false
                };
                let nf: i32 = (if fp1 { 1 } else { 0 }) + (if fp2 { 1 } else { 0 });
                let ng: i32 = (if fp1 { 0 } else { 1 }) + (if fp2 { 0 } else { 1 });
                if fp + nf < FP_MAX && gp + ng < GP_MAX {
                    fp = fp + nf;
                    gp = gp + ng;
                    pass_by_stack.push(false);
                } else {
                    pass_by_stack.push(true);
                    let sz = #[verifier::truncate] (((ty.size + 7) / 8) as i32);
                    stack = stack + sz;
                }
            }
        } else if ty.kind == TypeKind::Float || ty.kind == TypeKind::Double {
            if fp >= FP_MAX {
                pass_by_stack.push(true);
                stack = stack + 1;
            } else {
                pass_by_stack.push(false);
            }
            fp = fp + 1;
        } else if ty.kind == TypeKind::LDouble {
            pass_by_stack.push(true);
            stack = stack + 2;
        } else {
            if gp >= GP_MAX {
                pass_by_stack.push(true);
                stack = stack + 1;
            } else {
                pass_by_stack.push(false);
            }
            gp = gp + 1;
        }
        assert(pass_by_stack@ =~= c1.3);
        match &arg.next {
            Some(b) => {
                proof {
                    assert(tys.skip(k + 1) =~= tys.skip(k).skip(1));
                    k = k + 1;
                }
                arg = b;
            },
            None => {
                proof {
                    assert(tys.take(k + 1) =~= tys);
                }
                break;
            },
        }
    }
    (gp, fp, pass_by_stack, stack)
}

/// Each argument is given exactly one place: the classification says for
/// every argument, in order, whether it goes on the stack.
pub proof fn law_one_place_per_argument(st: (int, int, int, Seq<bool>), tys: Seq<Type>)
    ensures
        classify_args(st, tys).3.len() == st.3.len() + tys.len(),
        classify_args(st, tys).3.subrange(0, st.3.len() as int) == st.3,
    decreases tys.len(),
{
    if tys.len() > 0 {
        law_one_place_per_argument(st, tys.drop_last());
        let prev = classify_args(st, tys.drop_last());
        assert(classify_args(st, tys).3 == prev.3.push(classify_args(st, tys).3.last()));
        assert(classify_args(st, tys).3.subrange(0, st.3.len() as int) =~= prev.3.subrange(0, st.3.len() as int));
    }
}

// ---------------------------------------------------------------------------
// Parameters passed on the stack

/// The registers used, the next free offset above the saved frame pointer
/// and return address, and the offsets given so far to the parameters and
/// to the locals.
pub type ParamPlacement = (int, int, int, Seq<i64>, Seq<i64>);

/// The first local from `i` on named `name`, if any.
pub open spec fn first_named(ls: Seq<Obj>, name: Seq<char>, i: int) -> Option<int>
    decreases ls.len() - i,
{
    if i < 0 || i >= ls.len() {
        None
    } else if ls[i].name@ == name {
        Some(i)
    } else {
        first_named(ls, name, i + 1)
    }
}

/// `top` rounded up to a multiple of `a`.
pub open spec fn aligned_up(top: int, a: int) -> int {
    trunc_div(top + a - 1, a) * a
}

/// Parameter `k`, `p`, placed on the stack at `top` aligned to `a`: it and
/// the first local of its name get that offset, and `top` moves past it.
pub open spec fn place_on_stack(st: ParamPlacement, k: int, p: Obj, ls: Seq<Obj>, a: int) -> ParamPlacement {
    let t = aligned_up(st.2, a);
    let loffs = match first_named(ls, p.name@, 0) {
        Some(i) => st.4.update(i, t as i64),
        None => st.4,
    };
    (st.0, st.1, t + p.ty.size, st.3.update(k, t as i64), loffs)
}

/// The alignment on the stack of a parameter that goes there: a
/// `long double` its own, anything else 8; `None` if it comes in registers.
pub open spec fn stack_align(st: ParamPlacement, ty: Type) -> Option<int> {
    if ty.kind == TypeKind::Struct || ty.kind == TypeKind::Union {
        if ty.size > 16 {
            Some(8)
        } else if st.1 + fp_regs(ty) < FP_MAX && st.0 + gp_regs(ty) < GP_MAX {
            None
        } else {
            Some(8)
        }
    } else if ty.kind == TypeKind::Float || ty.kind == TypeKind::Double {
        if st.1 < FP_MAX {
            None
        } else {
            Some(8)
        }
    } else if ty.kind == TypeKind::LDouble {
        Some(ty.align as int)
    } else if st.0 < GP_MAX {
        None
    } else {
        Some(8)
    }
}

/// The registers used after a parameter of type `ty` that comes in
/// registers.
pub open spec fn regs_after(gp: int, fp: int, ty: Type) -> (int, int) {
    if ty.kind == TypeKind::Struct || ty.kind == TypeKind::Union {
        (gp + gp_regs(ty), fp + fp_regs(ty))
    } else if ty.kind == TypeKind::Float || ty.kind == TypeKind::Double {
        (gp, fp + 1)
    } else {
        (gp + 1, fp)
    }
}

/// The placement after parameter `k`: in registers while they last (as the
/// caller passes them), else on the stack.
pub open spec fn place_param(st: ParamPlacement, k: int, p: Obj, ls: Seq<Obj>) -> ParamPlacement {
    match stack_align(st, p.ty) {
        Some(a) => place_on_stack(st, k, p, ls, a),
        None => {
            let r = regs_after(st.0, st.1, p.ty);
            (r.0, r.1, st.2, st.3, st.4)
        },
    }
}

/// Where a parameter of type `ty` comes, with `gp` and `fp` registers used
/// before it: the stack alignment if on the stack, else the registers used
/// after it.
fn classify_param(ty: &Type, gp: i32, fp: i32) -> (r: (Option<i64>, i32, i32))
    requires
        0 <= gp <= GP_MAX,
        0 <= fp <= FP_MAX,
        (ty.kind == TypeKind::Struct || ty.kind == TypeKind::Union) && ty.size <= 16 ==> flonum_ok(*ty, 0, 8, 0)
            && (ty.size > 8 ==> flonum_ok(*ty, 8, 16, 0)),
    ensures
        ({
            let st: ParamPlacement = (gp as int, fp as int, 0, Seq::empty(), Seq::empty());
            match stack_align(st, *ty) {
                Some(a) => r.0 == Some(a as i64) && r.1 == gp && r.2 == fp,
                None => r.0 is None && (r.1 as int, r.2 as int) == regs_after(gp as int, fp as int, *ty),
            }
        }),
{
    let kind = ty.kind;
    if kind == TypeKind::Struct || kind == TypeKind::Union {
        if ty.size > 16 {
            (Some(8), gp, fp)
        } else {
            let fp1 = has_flonum1(ty);
            let fp2 = if ty.size > 8 {
                has_flonum2(ty)
            } else {
                false
            };
            let nf: i32 = (if fp1 { 1 } else { 0 }) + (if fp2 { 1 } else { 0 });
            let ng: i32 = (if fp1 { 0 } else { 1 }) + (if fp2 { 0 } else { 1 });
            if fp + nf < FP_MAX && gp + ng < GP_MAX {
                (None, gp + ng, fp + nf)
            } else {
                (Some(8), gp, fp)
            }
        }
    } else if kind == TypeKind::Float || kind == TypeKind::Double {
        if fp < FP_MAX {
            (None, gp, fp + 1)
        } else {
            (Some(8), gp, fp)
        }
    } else if kind == TypeKind::LDouble {
        (Some(ty.align), gp, fp)
    } else if gp < GP_MAX {
        (None, gp + 1, fp)
    } else {
        (Some(8), gp, fp)
    }
}

/// The placement after the first `n` parameters, every offset first reset
/// to 0 and `top` starting above the saved frame pointer and return
/// address.
pub open spec fn placed_params(ps: Seq<Obj>, ls: Seq<Obj>, n: int) -> ParamPlacement
    decreases n,
{
    if n <= 0 {
        (0, 0, 16, Seq::new(ps.len(), |i: int| 0i64), Seq::new(ls.len(), |i: int| 0i64))
    } else {
        place_param(placed_params(ps, ls, n - 1), n - 1, ps[n - 1], ls)
    }
}

/// What placing the parameters needs: the eightbytes of each small struct
/// can be classified, and each parameter that goes on the stack has a
/// positive alignment and its offset and end fit in `i64`.
pub open spec fn params_placeable(ps: Seq<Obj>, ls: Seq<Obj>) -> bool {
    forall|k: int|
        0 <= k < ps.len() ==> {
            let st = #[trigger] placed_params(ps, ls, k);
            let ty = ps[k].ty;
            &&& (ty.kind == TypeKind::Struct || ty.kind == TypeKind::Union) && ty.size <= 16 ==> flonum_ok(ty, 0, 8, 0)
                && (ty.size > 8 ==> flonum_ok(ty, 8, 16, 0))
            &&& stack_align(st, ty) matches Some(a) ==> {
                &&& a > 0
                &&& st.2 + a <= i64::MAX
                &&& in_i64(aligned_up(st.2, a) + ty.size)
            }
        }
}

proof fn lemma_placed_params_shape(ps: Seq<Obj>, ls: Seq<Obj>, n: int)
    requires
        0 <= n <= ps.len(),
    ensures
        placed_params(ps, ls, n).3.len() == ps.len(),
        placed_params(ps, ls, n).4.len() == ls.len(),
        0 <= placed_params(ps, ls, n).0 <= GP_MAX,
        0 <= placed_params(ps, ls, n).1 <= FP_MAX,
    decreases n,
{
    if n > 0 {
        lemma_placed_params_shape(ps, ls, n - 1);
        lemma_first_named(ls, ps[n - 1].name@, 0);
        let ty = ps[n - 1].ty;
        assert(0 <= gp_regs(ty) <= 2 && 0 <= fp_regs(ty) <= 2);
    }
}

proof fn lemma_first_named_same(a: Seq<Obj>, b: Seq<Obj>, name: Seq<char>, i: int)
    requires
        a.len() == b.len(),
        forall|j: int| 0 <= j < a.len() ==> #[trigger] a[j].name == b[j].name,
    ensures
        first_named(a, name, i) == first_named(b, name, i),
    decreases a.len() - i,
{
    if 0 <= i < a.len() {
        assert(a[i].name == b[i].name);
        lemma_first_named_same(a, b, name, i + 1);
    }
}

proof fn lemma_first_named(ls: Seq<Obj>, name: Seq<char>, i: int)
    requires
        0 <= i <= ls.len(),
    ensures
        first_named(ls, name, i) matches Some(j) ==> i <= j < ls.len() && ls[j].name@ == name,
        first_named(ls, name, i) is None ==> forall|j: int| i <= j < ls.len() ==> ls[j].name@ != name,
    decreases ls.len() - i,
{
    if i < ls.len() && ls[i].name@ != name {
        lemma_first_named(ls, name, i + 1);
    }
}

/// Sets the offset of object `i`, leaving everything else as it is.
fn set_offset(v: &mut Vec<Obj>, i: usize, off: i64)
    requires
        i < old(v)@.len(),
    ensures
        final(v)@ == old(v)@.update(i as int, Obj { offset: off, ..old(v)@[i as int] }),
{
    let mut o = v.remove(i);
    o.offset = off;
    v.insert(i, o);
    assert(v@ =~= old(v)@.update(i as int, Obj { offset: off, ..old(v)@[i as int] }));
}

/// The first local named `name`, if any.
fn find_named(ls: &Vec<Obj>, name: &String) -> (r: Option<usize>)
    ensures
        r matches Some(j) ==> first_named(ls@, name@, 0) == Some(j as int) && j < ls@.len(),
        r is None ==> first_named(ls@, name@, 0) is None,
{
    let mut i: usize = 0;
    proof {
        lemma_first_named(ls@, name@, 0);
    }
    while i < ls.len()
        invariant
            i <= ls.len(),
            first_named(ls@, name@, 0) == first_named(ls@, name@, i as int),
        decreases ls.len() - i,
    {
        if ls[i].name.eq(name) {
            return Some(i);
        }
        i += 1;
    }
    None
}

/// Places the parameters of a function that its caller passes on the stack:
/// every offset of parameters and locals is first reset to 0; then, in
/// order, each parameter that finds no register left (as `count_args`
/// gives them out, except that a `float`, `double` or scalar that goes on
/// the stack takes no register) gets the next offset above the return
/// address, aligned to 8 (a `long double` to its own alignment), and so
/// does the first local of its name.
#[verifier::rlimit(100)]
pub fn assign_param_offsets(params: &mut Vec<Obj>, locals: &mut Vec<Obj>)
    requires
        params_placeable(old(params)@, old(locals)@),
    ensures
        ({
            let c = placed_params(old(params)@, old(locals)@, old(params)@.len() as int);
            &&& final(params)@.len() == old(params)@.len()
            &&& final(locals)@.len() == old(locals)@.len()
            &&& forall|i: int|
                0 <= i < old(params)@.len() ==> #[trigger] final(params)@[i] == (Obj { offset: c.3[i], ..old(params)@[i] })
            &&& forall|i: int|
                0 <= i < old(locals)@.len() ==> #[trigger] final(locals)@[i] == (Obj { offset: c.4[i], ..old(locals)@[i] })
        }),
{
    let ghost ps = params@;
    let ghost ls = locals@;
    let mut i: usize = 0;
    while i < locals.len()
        invariant
            locals@.len() == ls.len(),
            i <= ls.len(),
            forall|j: int| 0 <= j < i ==> #[trigger] locals@[j] == (Obj { offset: 0, ..ls[j] }),
            forall|j: int| i <= j < ls.len() ==> #[trigger] locals@[j] == ls[j],
        decreases ls.len() - i,
    {
        set_offset(locals, i, 0);
        i += 1;
    }
    let mut i: usize = 0;
    while i < params.len()
        invariant
            params@.len() == ps.len(),
            i <= ps.len(),
            forall|j: int| 0 <= j < i ==> #[trigger] params@[j] == (Obj { offset: 0, ..ps[j] }),
            forall|j: int| i <= j < ps.len() ==> #[trigger] params@[j] == ps[j],
        decreases ps.len() - i,
    {
        set_offset(params, i, 0);
        i += 1;
    }
    let mut gp: i32 = 0;
    let mut fp: i32 = 0;
    let mut top: i64 = 16;
    let mut k: usize = 0;
    assert(placed_params(ps, ls, 0).3 =~= Seq::new(ps.len(), |i: int| 0i64));
    while k < params.len()
        invariant
            params@.len() == ps.len(),
            locals@.len() == ls.len(),
            k <= ps.len(),
            params_placeable(ps, ls),
            ({
                let c = placed_params(ps, ls, k as int);
                &&& gp == c.0
                &&& fp == c.1
                &&& top == c.2
                &&& forall|j: int| 0 <= j < ps.len() ==> #[trigger] params@[j] == (Obj { offset: c.3[j], ..ps[j] })
                &&& forall|j: int| 0 <= j < ls.len() ==> #[trigger] locals@[j] == (Obj { offset: c.4[j], ..ls[j] })
            }),
        decreases ps.len() - k,
    {
        proof {
            lemma_placed_params_shape(ps, ls, k as int);
            lemma_placed_params_shape(ps, ls, k + 1);
        }
        let ghost st = placed_params(ps, ls, k as int);
        assert(params@[k as int].ty == ps[k as int].ty);
        assert(params@[k as int].name == ps[k as int].name);
        let size = params[k].ty.size;
        let (placement, gp2, fp2) = classify_param(&params[k].ty, gp, fp);
        assert(stack_align(st, ps[k as int].ty) == stack_align((gp as int, fp as int, 0, Seq::empty(), Seq::empty()), ps[k as int].ty));
        gp = gp2;
        fp = fp2;
        match placement {
            Some(align) => {
                let t = crate::align_to(top, align);
                proof {
                    assert forall|j: int| 0 <= j < ls.len() implies #[trigger] locals@[j].name == ls[j].name by {}
                    lemma_first_named_same(locals@, ls, ps[k as int].name@, 0);
                    lemma_first_named(ls, ps[k as int].name@, 0);
                }
                put_on_stack(params, locals, k, t);
                top = t + size;
            },
            None => {},
        }
        k += 1;
    }
}

/// Gives parameter `k`, and the first local of its name, the offset `t`.
fn put_on_stack(params: &mut Vec<Obj>, locals: &mut Vec<Obj>, k: usize, t: i64)
    requires
        k < old(params)@.len(),
    ensures
        final(params)@ == old(params)@.update(k as int, Obj { offset: t, ..old(params)@[k as int] }),
        final(locals)@ == match first_named(old(locals)@, old(params)@[k as int].name@, 0) {
            Some(i) => old(locals)@.update(i, Obj { offset: t, ..old(locals)@[i] }),
            None => old(locals)@,
        },
{
    set_offset(params, k, t);
    let name = params[k].name.clone();
    assert(name@ == old(params)@[k as int].name@);
    proof {
        lemma_first_named(old(locals)@, name@, 0);
    }
    let found = find_named(locals, &name);
    match found {
        Some(li) => {
            assert(first_named(old(locals)@, name@, 0) == Some(li as int));
            set_offset(locals, li, t);
        },
        None => {
            assert(first_named(old(locals)@, name@, 0) is None);
        },
    }
}

proof fn lemma_placement_steps(ps: Seq<Obj>, ls: Seq<Obj>, j: int, n: int)
    requires
        params_placeable(ps, ls),
        forall|i: int| 0 <= i < ps.len() ==> (#[trigger] ps[i]).ty.size >= 0,
        0 <= j <= n <= ps.len(),
    ensures
        16 <= placed_params(ps, ls, j).2 <= placed_params(ps, ls, n).2,
        forall|i: int| 0 <= i < j ==> #[trigger] placed_params(ps, ls, n).3[i] == placed_params(ps, ls, j).3[i],
    decreases n - j,
{
    lemma_placed_params_shape(ps, ls, n);
    if j < n {
        lemma_placement_steps(ps, ls, j, n - 1);
        let st = placed_params(ps, ls, n - 1);
        lemma_placed_params_shape(ps, ls, n - 1);
        assert(placed_params(ps, ls, n - 1) == st);
        match stack_align(st, ps[n - 1].ty) {
            Some(a) => {
                crate::law_align_to_rounds_up(st.2, a);
                assert(ps[n - 1].ty.size >= 0);
            },
            None => {},
        }
    } else {
        lemma_top_min(ps, ls, j);
    }
}

proof fn lemma_top_min(ps: Seq<Obj>, ls: Seq<Obj>, n: int)
    requires
        params_placeable(ps, ls),
        forall|i: int| 0 <= i < ps.len() ==> (#[trigger] ps[i]).ty.size >= 0,
        0 <= n <= ps.len(),
    ensures
        16 <= placed_params(ps, ls, n).2,
    decreases n,
{
    if n > 0 {
        lemma_top_min(ps, ls, n - 1);
        lemma_placed_params_shape(ps, ls, n - 1);
        let st = placed_params(ps, ls, n - 1);
        match stack_align(st, ps[n - 1].ty) {
            Some(a) => {
                crate::law_align_to_rounds_up(st.2, a);
                assert(ps[n - 1].ty.size >= 0);
            },
            None => {},
        }
    }
}

/// The parameters that come on the stack lie above the saved frame pointer
/// and return address, each at a multiple of its alignment, and each one
/// after the other: for two of them, the earlier one ends at or before the
/// place of the later one.
pub proof fn law_stack_params_in_order(ps: Seq<Obj>, ls: Seq<Obj>, j: int, k: int)
    requires
        params_placeable(ps, ls),
        forall|i: int| 0 <= i < ps.len() ==> (#[trigger] ps[i]).ty.size >= 0,
        0 <= j < k < ps.len(),
        stack_align(placed_params(ps, ls, j), ps[j].ty) is Some,
        stack_align(placed_params(ps, ls, k), ps[k].ty) is Some,
    ensures
        ({
            let c = placed_params(ps, ls, ps.len() as int);
            &&& 16 <= c.3[j]
            &&& (c.3[j] as int) % stack_align(placed_params(ps, ls, j), ps[j].ty)->0 == 0
            &&& (c.3[k] as int) % stack_align(placed_params(ps, ls, k), ps[k].ty)->0 == 0
            &&& c.3[j] + ps[j].ty.size <= c.3[k]
        }),
{
    let n = ps.len() as int;
    let sj = placed_params(ps, ls, j);
    let sk = placed_params(ps, ls, k);
    let aj = stack_align(sj, ps[j].ty)->0;
    let ak = stack_align(sk, ps[k].ty)->0;
    assert(aj > 0 && ak > 0);
    lemma_placement_steps(ps, ls, j, k);
    lemma_placement_steps(ps, ls, j + 1, k);
    lemma_placement_steps(ps, ls, j + 1, n);
    lemma_placement_steps(ps, ls, k + 1, n);
    lemma_placed_params_shape(ps, ls, j);
    lemma_placed_params_shape(ps, ls, k);
    crate::law_align_to_rounds_up(sj.2, aj);
    crate::law_align_to_rounds_up(sk.2, ak);
    assert(placed_params(ps, ls, j + 1).3[j] == aligned_up(sj.2, aj) as i64);
    assert(placed_params(ps, ls, k + 1).3[k] == aligned_up(sk.2, ak) as i64);
    assert(placed_params(ps, ls, j + 1).2 == aligned_up(sj.2, aj) + ps[j].ty.size);
}

// ---------------------------------------------------------------------------
// Saving the parameters that come in registers

/// The offset a parameter is kept at: that of the first local of its name,
/// else its own.
pub open spec fn param_home(p: Obj, ls: Seq<Obj>) -> i64 {
    match first_named(ls, p.name@, 0) {
        Some(i) => ls[i].offset,
        None => p.offset,
    }
}

/// The integer and floating-point registers read so far and the code
/// written so far.
pub type SaveState = (int, int, Seq<char>);

/// The first eightbyte of a small struct: its size, or 8 if more.
pub open spec fn first_part(size: int) -> int {
    if size < 8 {
        size
    } else {
        8
    }
}

/// The code that saves a parameter of type `ty` at `off(%rbp)`, with `gp`
/// integer and `fp` floating-point registers read before it, and the
/// registers read after it: nothing for one that came on the stack (a
/// positive offset), a struct or union of more than 16 bytes or a
/// `long double`; a small struct eightbyte by eightbyte, each from the next
/// floating-point register if it holds only floating point, else from the
/// next integer register; a `float` or `double` from the next
/// floating-point register; anything else from the next integer register.
pub open spec fn save_code(gp: int, fp: int, ty: Type, off: int) -> (int, int, Seq<char>) {
    if off > 0 {
        (gp, fp, Seq::empty())
    } else if ty.kind == TypeKind::Struct || ty.kind == TypeKind::Union {
        if ty.size > 16 {
            (gp, fp, Seq::empty())
        } else {
            let lo = first_part(ty.size as int);
            let s1: (int, int, Seq<char>) = if flonum1(ty) {
                (gp, fp + 1, crate::codegen::store_fp_text(fp, off, lo))
            } else {
                (gp + 1, fp, crate::codegen::store_gp_text(gp, off, lo))
            };
            if ty.size > 8 {
                if second_flonum(ty) {
                    (s1.0, s1.1 + 1, s1.2 + crate::codegen::store_fp_text(s1.1, off + 8, ty.size - 8))
                } else {
                    (s1.0 + 1, s1.1, s1.2 + crate::codegen::store_gp_text(s1.0, off + 8, ty.size - 8))
                }
            } else {
                s1
            }
        }
    } else if ty.kind == TypeKind::Float || ty.kind == TypeKind::Double {
        (gp, fp + 1, crate::codegen::store_fp_text(fp, off, ty.size as int))
    } else if ty.kind == TypeKind::LDouble {
        (gp, fp, Seq::empty())
    } else {
        (gp + 1, fp, crate::codegen::store_gp_text(gp, off, ty.size as int))
    }
}

/// The save of one more parameter, `p`, at its home (`save_code`).
pub open spec fn save_param(st: SaveState, p: Obj, ls: Seq<Obj>) -> SaveState {
    let c = save_code(st.0, st.1, p.ty, param_home(p, ls) as int);
    (c.0, c.1, st.2 + c.2)
}

/// The saves of the first `n` parameters.
pub open spec fn saved_params(ps: Seq<Obj>, ls: Seq<Obj>, n: int) -> SaveState
    decreases n,
{
    if n <= 0 {
        (0, 0, Seq::empty())
    } else {
        save_param(saved_params(ps, ls, n - 1), ps[n - 1], ls)
    }
}

/// Whether the code that saves a parameter of type `ty` at `off(%rbp)`,
/// after `gp` and `fp` registers, reads only registers that exist: an
/// integer register among the six, a floating-point value of 4 or 8 bytes;
/// and a small struct can be classified.
pub open spec fn save_code_ok(gp: int, fp: int, ty: Type, off: int) -> bool {
    off > 0 || if ty.kind == TypeKind::Struct || ty.kind == TypeKind::Union {
        ty.size > 16 || {
            &&& flonum_ok(ty, 0, 8, 0)
            &&& ty.size > 8 ==> flonum_ok(ty, 8, 16, 0)
            &&& flonum1(ty) ==> first_part(ty.size as int) == 4 || first_part(ty.size as int) == 8
            &&& !flonum1(ty) ==> gp < GP_MAX
            &&& ty.size > 8 && second_flonum(ty) ==> ty.size - 8 == 4 || ty.size - 8 == 8
            &&& ty.size > 8 && !second_flonum(ty) ==> gp + b2i(!flonum1(ty)) < GP_MAX
        }
    } else if ty.kind == TypeKind::Float || ty.kind == TypeKind::Double {
        ty.size == 4 || ty.size == 8
    } else if ty.kind == TypeKind::LDouble {
        true
    } else {
        gp < GP_MAX
    }
}

/// Whether the save of parameter `p` reads only registers that exist
/// (`save_code_ok` at its home).
pub open spec fn save_ok(st: SaveState, p: Obj, ls: Seq<Obj>) -> bool {
    save_code_ok(st.0, st.1, p.ty, param_home(p, ls) as int)
}

/// Whether every parameter can be saved (`save_ok` at each step).
pub open spec fn params_savable(ps: Seq<Obj>, ls: Seq<Obj>) -> bool {
    forall|k: int| 0 <= k < ps.len() ==> save_ok(#[trigger] saved_params(ps, ls, k), ps[k], ls)
}

proof fn lemma_saved_counts(ps: Seq<Obj>, ls: Seq<Obj>, n: int)
    requires
        0 <= n <= ps.len(),
    ensures
        0 <= saved_params(ps, ls, n).0 <= 2 * n,
        0 <= saved_params(ps, ls, n).1 <= 2 * n,
    decreases n,
{
    if n > 0 {
        lemma_saved_counts(ps, ls, n - 1);
    }
}

/// Emits the save of a parameter of type `ty` at `home(%rbp)`
/// (`save_code`), and gives the registers read after it.
fn emit_param_save(ty: &Type, home: i64, gp: usize, fp: usize, result: &mut String) -> (r: (usize, usize))
    requires
        gp <= 0x7fff_ffff,
        fp <= 0x7fff_ffff,
        save_code_ok(gp as int, fp as int, *ty, home as int),
    ensures
        ({
            let c = save_code(gp as int, fp as int, *ty, home as int);
            r.0 == c.0 && r.1 == c.1 && final(result)@ == old(result)@ + c.2
        }),
{
    let ghost r0 = result@;
    let mut gp = gp;
    let mut fp = fp;
    if home <= 0 {
        if ty.kind == TypeKind::Struct || ty.kind == TypeKind::Union {
            if ty.size <= 16 {
                let fp1 = has_flonum1(ty);
                let fp2 = if ty.size > 8 {
                    has_flonum2(ty)
                } else {
                    false
                };
                let lo: i64 = if ty.size < 8 {
                    ty.size
                } else {
                    8
                };
                if fp1 {
                    crate::codegen::store_fp(fp, home, lo, result);
                    fp = fp + 1;
                } else {
                    crate::codegen::store_gp(gp, home, lo, result);
                    gp = gp + 1;
                }
                if ty.size > 8 {
                    if fp2 {
                        crate::codegen::store_fp(fp, home + 8, ty.size - 8, result);
                        fp = fp + 1;
                    } else {
                        crate::codegen::store_gp(gp, home + 8, ty.size - 8, result);
                        gp = gp + 1;
                    }
                }
            }
        } else if ty.kind == TypeKind::Float || ty.kind == TypeKind::Double {
            crate::codegen::store_fp(fp, home, ty.size, result);
            fp = fp + 1;
        } else if ty.kind == TypeKind::LDouble {
        } else {
            crate::codegen::store_gp(gp, home, ty.size, result);
            gp = gp + 1;
        }
    }
    (gp, fp)
}

/// Emits the saves of the parameters that come in registers into their
/// homes in the frame, in order; each parameter first takes the offset of
/// the first local of its name.
#[verifier::rlimit(60)]
pub fn save_param_registers(params: &mut Vec<Obj>, locals: &Vec<Obj>, result: &mut String)
    requires
        params_savable(old(params)@, locals@),
        old(params)@.len() <= 0x3fff_ffff,
    ensures
        final(params)@.len() == old(params)@.len(),
        forall|i: int|
            0 <= i < old(params)@.len() ==> #[trigger] final(params)@[i] == (Obj {
                offset: param_home(old(params)@[i], locals@),
                ..old(params)@[i]
            }),
        final(result)@ == old(result)@ + saved_params(old(params)@, locals@, old(params)@.len() as int).2,
{
    let ghost ps = params@;
    let ghost r0 = result@;
    let mut gp: usize = 0;
    let mut fp: usize = 0;
    let mut k: usize = 0;
    while k < params.len()
        invariant
            params@.len() == ps.len(),
            ps.len() <= 0x3fff_ffff,
            k <= ps.len(),
            params_savable(ps, locals@),
            forall|j: int| 0 <= j < k ==> #[trigger] params@[j] == (Obj { offset: param_home(ps[j], locals@), ..ps[j] }),
            forall|j: int| k <= j < ps.len() ==> #[trigger] params@[j] == ps[j],
            ({
                let st = saved_params(ps, locals@, k as int);
                &&& gp == st.0
                &&& fp == st.1
                &&& result@ == r0 + st.2
            }),
        decreases ps.len() - k,
    {
        proof {
            lemma_saved_counts(ps, locals@, k as int);
        }
        let ghost st = saved_params(ps, locals@, k as int);
        assert(save_ok(st, ps[k as int], locals@));
        let found = find_named(locals, &params[k].name);
        let home: i64 = match found {
            Some(li) => locals[li].offset,
            None => params[k].offset,
        };
        assert(home == param_home(ps[k as int], locals@));
        set_offset(params, k, home);
        let ty = &params[k].ty;
        assert(*ty == ps[k as int].ty);
        let (gp2, fp2) = emit_param_save(ty, home, gp, fp, result);
        gp = gp2;
        fp = fp2;
        assert(result@ =~= r0 + saved_params(ps, locals@, k + 1).2);
        k += 1;
    }
}

} // verus!
