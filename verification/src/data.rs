use vstd::prelude::*;

use crate::codegen::{push_i64, var_align};
use crate::parse::{Obj, Relocation};
use crate::text::signed_decimal;
use crate::types::TypeKind;

verus! {

// ---------------------------------------------------------------------------
// The data of global variables

/// The lines that spell the bytes `pos..size` of an initializer, a
/// relocation of the list `rel` standing for the 8 bytes where it starts.
pub open spec fn data_lines(init: Seq<u8>, rel: Option<Box<Relocation>>, pos: int, size: int) -> Seq<char>
    decreases size + 8 - pos,
{
    if pos >= size {
        Seq::empty()
    } else {
        match rel {
            Some(r) => if r.offset == pos {
                "  .quad "@ + r.label@ + "+"@ + signed_decimal(r.addend as int) + "\n"@ + data_lines(
                    init,
                    r.next,
                    pos + 8,
                    size,
                )
            } else {
                "  .byte "@ + signed_decimal(init[pos] as int) + "\n"@ + data_lines(init, rel, pos + 1, size)
            },
            None => "  .byte "@ + signed_decimal(init[pos] as int) + "\n"@ + data_lines(init, rel, pos + 1, size),
        }
    }
}

/// Whether spelling the bytes `pos..size` reads only bytes the initializer
/// has.
pub open spec fn data_in_range(init: Seq<u8>, rel: Option<Box<Relocation>>, pos: int, size: int) -> bool
    decreases size + 8 - pos,
{
    if pos >= size {
        true
    } else {
        match rel {
            Some(r) => if r.offset == pos {
                data_in_range(init, r.next, pos + 8, size)
            } else {
                pos < init.len() && data_in_range(init, rel, pos + 1, size)
            },
            None => pos < init.len() && data_in_range(init, rel, pos + 1, size),
        }
    }
}

/// The assembly for a global variable that is defined: its visibility,
/// then either a common symbol, or its section, size, alignment, label and
/// bytes (relocations as addresses), or room of zeros for it.
pub open spec fn global_data_text(var: Obj, is_tls: bool, as_common: bool) -> Seq<char> {
    let name = var.name@;
    let size = signed_decimal(var.ty.size as int);
    let align = signed_decimal(var_align(var) as int);
    (if var.is_static {
        "  .local "@
    } else {
        "  .globl "@
    }) + name + "\n"@ + if as_common {
        "  .comm "@ + name + ", "@ + size + ", "@ + align + "\n"@
    } else {
        match var.init_data {
            Some(d) => initialized_text(var, d@, is_tls),
            None => (if is_tls {
                "  .section .tbss,\"awT\",@nobits\n"@
            } else {
                "  .bss\n"@
            }) + "  .align "@ + align + "\n"@ + name + ":\n"@ + "  .zero "@ + size + "\n"@,
        }
    }
}

proof fn lemma_byte_step(init: Seq<u8>, rel: Option<Box<Relocation>>, pos: int, size: int)
    requires
        pos < size,
        !(rel matches Some(r) && r.offset == pos),
        data_in_range(init, rel, pos, size),
    ensures
        pos < init.len(),
        data_lines(init, rel, pos, size) == "  .byte "@ + signed_decimal(init[pos] as int) + "\n"@ + data_lines(
            init,
            rel,
            pos + 1,
            size,
        ),
{
}

fn emit_data_lines(init: &Vec<u8>, rel: &Option<Box<Relocation>>, size: i64, result: &mut String)
    requires
        data_in_range(init@, *rel, 0, size as int),
        0 <= size,
        size + 8 <= i64::MAX,
    ensures
        final(result)@ == old(result)@ + data_lines(init@, *rel, 0, size as int),
{
    let ghost r0 = result@;
    let mut pos: i64 = 0;
    let mut cur: &Option<Box<Relocation>> = rel;
    while pos < size
        invariant
            0 <= pos,
            pos <= size + 8,
            0 <= size,
            size + 8 <= i64::MAX,
            data_in_range(init@, *cur, pos as int, size as int),
            r0 + data_lines(init@, *rel, 0, size as int) == result@ + data_lines(init@, *cur, pos as int, size as int),
        decreases size + 8 - pos,
    {
        let is_rel: bool = match cur {
            Some(r) => r.offset == pos,
            None => false,
        };
        if is_rel {
            match cur {
                Some(r) => {
                    let ghost before = result@;
                    result.append("  .quad ");
                    result.append(r.label.as_str());
                    result.append("+");
                    push_i64(result, r.addend);
                    result.append("\n");
                    assert(result@ + data_lines(init@, r.next, pos + 8, size as int) =~= before + data_lines(
                        init@,
                        *cur,
                        pos as int,
                        size as int,
                    ));
                    cur = &r.next;
                    pos = pos + 8;
                },
                None => {},
            }
        } else {
            assert(!(*cur matches Some(r) && r.offset == pos));
            proof {
                lemma_byte_step(init@, *cur, pos as int, size as int);
            }
            let n: usize = init.len();
            assert(pos < n);
            let idx: usize = pos as usize;
            assert(idx == pos);
            let ghost before = result@;
            let b: u8 = init[idx];
            assert(data_lines(init@, *cur, pos as int, size as int) == "  .byte "@ + signed_decimal(b as int) + "\n"@
                + data_lines(init@, *cur, pos + 1, size as int));
            result.append("  .byte ");
            push_i64(result, b as i64);
            result.append("\n");
            assert(result@ + data_lines(init@, *cur, pos + 1, size as int) =~= before + data_lines(
                init@,
                *cur,
                pos as int,
                size as int,
            ));
            pos = pos + 1;
        }
    }
    assert(data_lines(init@, *cur, pos as int, size as int) == Seq::<char>::empty());
    assert(result@ =~= r0 + data_lines(init@, *rel, 0, size as int));
}

/// The text of an initialized global from its section on.
pub open spec fn initialized_text(var: Obj, d: Seq<u8>, is_tls: bool) -> Seq<char> {
    let name = var.name@;
    (if is_tls {
        "  .section .tdata,\"awT\",@progbits\n"@
    } else {
        "  .data\n"@
    }) + "  .type "@ + name + ", @object\n"@ + "  .size "@ + name + ", "@ + signed_decimal(var.ty.size as int) + "\n"@
        + "  .align "@ + signed_decimal(var_align(var) as int) + "\n"@ + name + ":\n"@ + data_lines(d, var.rel, 0, var.ty.size as int)
}

fn emit_initialized(var: &Obj, d: &Vec<u8>, is_tls: bool, align: i64, result: &mut String)
    requires
        align == var_align(*var),
        data_in_range(d@, var.rel, 0, var.ty.size as int),
        0 <= var.ty.size,
        var.ty.size + 8 <= i64::MAX,
    ensures
        final(result)@ == old(result)@ + initialized_text(*var, d@, is_tls),
{
    let ghost r0 = result@;
    if is_tls {
        result.append("  .section .tdata,\"awT\",@progbits\n");
    } else {
        result.append("  .data\n");
    }
    result.append("  .type ");
    result.append(var.name.as_str());
    result.append(", @object\n");
    result.append("  .size ");
    result.append(var.name.as_str());
    result.append(", ");
    push_i64(result, var.ty.size);
    result.append("\n");
    result.append("  .align ");
    push_i64(result, align);
    result.append("\n");
    result.append(var.name.as_str());
    result.append(":\n");
    let ghost header = result@;
    emit_data_lines(d, &var.rel, var.ty.size, result);
    assert(result@ =~= r0 + initialized_text(*var, d@, is_tls));
}

/// The common symbol of a tentative definition.
pub open spec fn common_text(var: Obj) -> Seq<char> {
    "  .comm "@ + var.name@ + ", "@ + signed_decimal(var.ty.size as int) + ", "@ + signed_decimal(
        var_align(var) as int,
    ) + "\n"@
}

/// The room of zeros of a variable with no initializer.
pub open spec fn zeros_text(var: Obj, is_tls: bool) -> Seq<char> {
    (if is_tls {
        "  .section .tbss,\"awT\",@nobits\n"@
    } else {
        "  .bss\n"@
    }) + "  .align "@ + signed_decimal(var_align(var) as int) + "\n"@ + var.name@ + ":\n"@
        + "  .zero "@ + signed_decimal(var.ty.size as int) + "\n"@
}

fn emit_common(var: &Obj, align: i64, result: &mut String)
    requires
        align == var_align(*var),
    ensures
        final(result)@ == old(result)@ + common_text(*var),
{
    let ghost r0 = result@;
    result.append("  .comm ");
    result.append(var.name.as_str());
    result.append(", ");
    push_i64(result, var.ty.size);
    result.append(", ");
    push_i64(result, align);
    result.append("\n");
    assert(result@ =~= r0 + common_text(*var));
}

fn emit_zeros(var: &Obj, is_tls: bool, align: i64, result: &mut String)
    requires
        align == var_align(*var),
    ensures
        final(result)@ == old(result)@ + zeros_text(*var, is_tls),
{
    let ghost r0 = result@;
    if is_tls {
        result.append("  .section .tbss,\"awT\",@nobits\n");
    } else {
        result.append("  .bss\n");
    }
    result.append("  .align ");
    push_i64(result, align);
    result.append("\n");
    result.append(var.name.as_str());
    result.append(":\n");
    result.append("  .zero ");
    push_i64(result, var.ty.size);
    result.append("\n");
    assert(result@ =~= r0 + zeros_text(*var, is_tls));
}

/// Emits the assembly for a defined global variable `var`: `is_tls` puts it
/// in the thread-local sections, `as_common` makes it a common symbol (a
/// tentative definition when common symbols are asked for).
#[verifier::rlimit(100)]
pub fn emit_global_data(var: &Obj, is_tls: bool, as_common: bool, result: &mut String)
    requires
        !as_common ==> (var.init_data matches Some(d) ==> data_in_range(d@, var.rel, 0, var.ty.size as int)
            && 0 <= var.ty.size && var.ty.size + 8 <= i64::MAX),
    ensures
        final(result)@ == old(result)@ + global_data_text(*var, is_tls, as_common),
{
    let ghost r0 = result@;
    if var.is_static {
        result.append("  .local ");
    } else {
        result.append("  .globl ");
    }
    result.append(var.name.as_str());
    result.append("\n");
    let ghost r1 = result@;
    let align = crate::codegen::effective_var_align(var);
    if as_common {
        emit_common(var, align, result);
        assert(global_data_text(*var, is_tls, as_common) =~= (r1.skip(r0.len() as int)) + common_text(*var));
        assert(result@ =~= r0 + global_data_text(*var, is_tls, as_common));
        return;
    }
    match &var.init_data {
        Some(d) => {
            emit_initialized(var, d, is_tls, align, result);
        },
        None => {
            emit_zeros(var, is_tls, align, result);
            assert(global_data_text(*var, is_tls, as_common) =~= (r1.skip(r0.len() as int)) + zeros_text(*var, is_tls));
        },
    }
    assert(result@ =~= r0 + global_data_text(*var, is_tls, as_common));
}

// ---------------------------------------------------------------------------
// Function entry

/// The entry of a function: its visibility, section, symbol type and label,
/// then the new frame of `stack_size` bytes, and the bottom of the
/// `alloca` area saved if the function has one.
pub open spec fn prologue_text(name: Seq<char>, is_static: bool, stack_size: i64, alloca_bottom: Option<i64>) -> Seq<char> {
    (if is_static {
        "  .local "@
    } else {
        "  .globl "@
    }) + name + "\n"@ + "  .text\n"@ + "  .type "@ + name + ", @function\n"@ + name + ":\n"@ + "  push %rbp\n"@
        + "  mov %rsp, %rbp\n"@ + "  sub $"@ + signed_decimal(stack_size as int) + ", %rsp\n"@ + match alloca_bottom {
        Some(off) => "  mov %rsp, "@ + signed_decimal(off as int) + "(%rbp)\n"@,
        None => Seq::empty(),
    }
}

/// Emits the entry of a function (`prologue_text`).
pub fn emit_prologue(name: &str, is_static: bool, stack_size: i64, alloca_bottom: Option<i64>, result: &mut String)
    ensures
        final(result)@ == old(result)@ + prologue_text(name@, is_static, stack_size, alloca_bottom),
{
    let ghost r0 = result@;
    if is_static {
        result.append("  .local ");
    } else {
        result.append("  .globl ");
    }
    result.append(name);
    result.append("\n");
    result.append("  .text\n");
    result.append("  .type ");
    result.append(name);
    result.append(", @function\n");
    result.append(name);
    result.append(":\n");
    result.append("  push %rbp\n");
    result.append("  mov %rsp, %rbp\n");
    result.append("  sub $");
    push_i64(result, stack_size);
    result.append(", %rsp\n");
    match alloca_bottom {
        Some(off) => {
            result.append("  mov %rsp, ");
            push_i64(result, off);
            result.append("(%rbp)\n");
        },
        None => {},
    }
    assert(result@ =~= r0 + prologue_text(name@, is_static, stack_size, alloca_bottom));
}

/// The number of parameters among the first `n` that are a `float` or a
/// `double`.
pub open spec fn sse_params(ps: Seq<Obj>, n: int) -> int
    decreases n,
{
    if n <= 0 {
        0
    } else {
        sse_params(ps, n - 1) + if ps[n - 1].ty.kind == TypeKind::Float || ps[n - 1].ty.kind == TypeKind::Double {
            1int
        } else {
            0int
        }
    }
}

/// One line that stores `reg` at `off(%rbp)` with `insn`.
pub open spec fn save_line(insn: Seq<char>, reg: Seq<char>, off: int) -> Seq<char> {
    "  "@ + insn + " "@ + reg + ", "@ + signed_decimal(off) + "(%rbp)\n"@
}

/// The first part of the set-up of the register save area at `off(%rbp)`:
/// the offsets of the next integer and floating-point register arguments
/// after `gp` and `fp` named ones, and the addresses of the arguments on
/// the stack and of the saved registers.
pub open spec fn va_header_text(gp: int, fp: int, off: int) -> Seq<char> {
    "  movl $"@ + signed_decimal(gp * 8) + ", "@ + signed_decimal(off) + "(%rbp)\n"@ + "  movl $"@ + signed_decimal(
        fp * 8 + 48,
    ) + ", "@ + signed_decimal(off + 4) + "(%rbp)\n"@ + "  lea 16(%rbp), %rax\n"@ + save_line("movq"@, "%rax"@, off + 8)
        + "  lea "@ + signed_decimal(off + 24) + "(%rbp), %rax\n"@ + save_line("movq"@, "%rax"@, off + 16)
}

/// The saves of the six integer argument registers from `off + 24(%rbp)`
/// on.
pub open spec fn va_gp_regs_text(off: int) -> Seq<char> {
    save_line("movq"@, "%rdi"@, off + 24) + save_line("movq"@, "%rsi"@, off + 32) + save_line("movq"@, "%rdx"@, off + 40)
        + save_line("movq"@, "%rcx"@, off + 48) + save_line("movq"@, "%r8"@, off + 56) + save_line("movq"@, "%r9"@, off + 64)
}

/// The saves of the eight floating-point argument registers from
/// `off + 72(%rbp)` on.
pub open spec fn va_fp_regs_text(off: int) -> Seq<char> {
    save_line("movsd"@, "%xmm0"@, off + 72) + save_line("movsd"@, "%xmm1"@, off + 80) + save_line("movsd"@, "%xmm2"@, off + 88)
        + save_line("movsd"@, "%xmm3"@, off + 96) + save_line("movsd"@, "%xmm4"@, off + 104) + save_line(
        "movsd"@,
        "%xmm5"@,
        off + 112,
    ) + save_line("movsd"@, "%xmm6"@, off + 120) + save_line("movsd"@, "%xmm7"@, off + 128)
}

/// The set-up of the register save area of a variadic function at
/// `off(%rbp)`: the offsets of the next integer and floating-point
/// register arguments (past the named parameters), the address of the
/// arguments on the stack and of the saved registers, then the six integer
/// and eight floating-point argument registers.
pub open spec fn va_area_text(ps: Seq<Obj>, off: int) -> Seq<char> {
    let fp = sse_params(ps, ps.len() as int);
    let gp = ps.len() - fp;
    va_header_text(gp, fp, off) + va_gp_regs_text(off) + va_fp_regs_text(off)
}

fn emit_save_line(insn: &str, reg: &str, off: i64, result: &mut String)
    ensures
        final(result)@ == old(result)@ + save_line(insn@, reg@, off as int),
{
    let ghost r0 = result@;
    result.append("  ");
    result.append(insn);
    result.append(" ");
    result.append(reg);
    result.append(", ");
    push_i64(result, off);
    result.append("(%rbp)\n");
    assert(result@ =~= r0 + save_line(insn@, reg@, off as int));
}

#[verifier::rlimit(60)]
fn emit_va_header(gp: i64, fp: i64, off: i64, result: &mut String)
    requires
        0 <= gp <= 0x0fff_ffff,
        0 <= fp <= 0x0fff_ffff,
        i64::MIN + 8 <= off <= i64::MAX - 128,
    ensures
        final(result)@ == old(result)@ + va_header_text(gp as int, fp as int, off as int),
{
    let ghost r0 = result@;
    result.append("  movl $");
    push_i64(result, gp * 8);
    result.append(", ");
    push_i64(result, off);
    result.append("(%rbp)\n");
    result.append("  movl $");
    push_i64(result, fp * 8 + 48);
    result.append(", ");
    push_i64(result, off + 4);
    result.append("(%rbp)\n");
    result.append("  lea 16(%rbp), %rax\n");
    emit_save_line("movq", "%rax", off + 8, result);
    result.append("  lea ");
    push_i64(result, off + 24);
    result.append("(%rbp), %rax\n");
    emit_save_line("movq", "%rax", off + 16, result);
    assert(result@ =~= r0 + va_header_text(gp as int, fp as int, off as int));
}

fn emit_va_gp_regs(off: i64, result: &mut String)
    requires
        i64::MIN + 8 <= off <= i64::MAX - 128,
    ensures
        final(result)@ == old(result)@ + va_gp_regs_text(off as int),
{
    let ghost r0 = result@;
    emit_save_line("movq", "%rdi", off + 24, result);
    emit_save_line("movq", "%rsi", off + 32, result);
    emit_save_line("movq", "%rdx", off + 40, result);
    emit_save_line("movq", "%rcx", off + 48, result);
    emit_save_line("movq", "%r8", off + 56, result);
    emit_save_line("movq", "%r9", off + 64, result);
    assert(result@ =~= r0 + va_gp_regs_text(off as int));
}

fn emit_va_fp_regs(off: i64, result: &mut String)
    requires
        i64::MIN + 8 <= off <= i64::MAX - 128,
    ensures
        final(result)@ == old(result)@ + va_fp_regs_text(off as int),
{
    let ghost r0 = result@;
    emit_save_line("movsd", "%xmm0", off + 72, result);
    emit_save_line("movsd", "%xmm1", off + 80, result);
    emit_save_line("movsd", "%xmm2", off + 88, result);
    emit_save_line("movsd", "%xmm3", off + 96, result);
    emit_save_line("movsd", "%xmm4", off + 104, result);
    emit_save_line("movsd", "%xmm5", off + 112, result);
    emit_save_line("movsd", "%xmm6", off + 120, result);
    emit_save_line("movsd", "%xmm7", off + 128, result);
    assert(result@ =~= r0 + va_fp_regs_text(off as int));
}

/// Emits the set-up of the register save area of a variadic function
/// (`va_area_text`).
pub fn emit_va_area(params: &[Obj], off: i64, result: &mut String)
    requires
        params@.len() <= 0x0fff_ffff,
        i64::MIN + 8 <= off <= i64::MAX - 128,
    ensures
        final(result)@ == old(result)@ + va_area_text(params@, off as int),
{
    let ghost r0 = result@;
    let mut gp: i64 = 0;
    let mut fp: i64 = 0;
    let mut i: usize = 0;
    while i < params.len()
        invariant
            i <= params@.len(),
            params@.len() <= 0x0fff_ffff,
            fp == sse_params(params@, i as int),
            gp == i - fp,
            0 <= fp <= i,
        decreases params@.len() - i,
    {
        if params[i].ty.kind == TypeKind::Float || params[i].ty.kind == TypeKind::Double {
            fp = fp + 1;
        } else {
            gp = gp + 1;
        }
        i += 1;
    }
    emit_va_header(gp, fp, off, result);
    emit_va_gp_regs(off, result);
    emit_va_fp_regs(off, result);
    assert(result@ =~= r0 + va_area_text(params@, off as int));
}

} // verus!
