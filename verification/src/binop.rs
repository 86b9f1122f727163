//! The instructions of a binary operator, once its right operand has been
//! saved and its left operand computed: SSE instructions for `float` and
//! `double`, x87 instructions for `long double`, and integer instructions
//! on 32-bit or 64-bit registers otherwise.

use vstd::prelude::*;

use crate::parse::NodeKind;
use crate::types::{Type, TypeKind};

verus! {

/// The accumulator, operand and remainder registers for operands of type
/// `ty`: the 64-bit ones for `long` and pointers, the 32-bit ones otherwise.
pub open spec fn int_regs(ty: Type) -> (Seq<char>, Seq<char>, Seq<char>) {
    if ty.kind == TypeKind::Long || ty.base.is_some() {
        ("%rax"@, "%rdi"@, "%rdx"@)
    } else {
        ("%eax"@, "%edi"@, "%edx"@)
    }
}

fn int_regs_exec(ty: &Type) -> (r: (&'static str, &'static str, &'static str))
    ensures
        (r.0@, r.1@, r.2@) == int_regs(*ty),
{
    if ty.kind == TypeKind::Long || ty.base.is_some() {
        ("%rax", "%rdi", "%rdx")
    } else {
        ("%eax", "%edi", "%edx")
    }
}

/// An instruction with two register operands.
pub open spec fn two_regs(op: Seq<char>, a: Seq<char>, b: Seq<char>) -> Seq<char> {
    "  "@ + op + " "@ + a + ", "@ + b + "\n"@
}

/// The flag test after a comparison of `float` or `double` values (the
/// parity flag marks an unordered result).
pub open spec fn float_set(kind: NodeKind) -> Seq<char> {
    if kind == NodeKind::Eq {
        "  sete %al\n"@ + "  setnp %dl\n"@ + "  and %dl, %al\n"@
    } else if kind == NodeKind::Ne {
        "  setne %al\n"@ + "  setp %dl\n"@ + "  or %dl, %al\n"@
    } else if kind == NodeKind::Lt {
        "  seta %al\n"@
    } else {
        "  setae %al\n"@
    }
}

/// The flag test after an x87 comparison.
pub open spec fn x87_set(kind: NodeKind) -> Seq<char> {
    if kind == NodeKind::Eq {
        "  sete %al\n"@
    } else if kind == NodeKind::Ne {
        "  setne %al\n"@
    } else if kind == NodeKind::Lt {
        "  seta %al\n"@
    } else {
        "  setae %al\n"@
    }
}

/// The flag test after an integer comparison.
pub open spec fn int_set(kind: NodeKind, unsigned: bool) -> Seq<char> {
    if kind == NodeKind::Eq {
        "  sete %al\n"@
    } else if kind == NodeKind::Ne {
        "  setne %al\n"@
    } else if kind == NodeKind::Lt {
        if unsigned {
            "  setb %al\n"@
        } else {
            "  setl %al\n"@
        }
    } else if unsigned {
        "  setbe %al\n"@
    } else {
        "  setle %al\n"@
    }
}

/// Whether a node kind is one of the four comparisons.
pub open spec fn is_comparison(kind: NodeKind) -> bool {
    kind == NodeKind::Eq || kind == NodeKind::Ne || kind == NodeKind::Lt || kind == NodeKind::Le
}

/// The integer division: unsigned with a zeroed high half, or signed with
/// the sign extended into it.
pub open spec fn int_divide(ty: Type) -> Seq<char> {
    let (ax, di, dx) = int_regs(ty);
    if ty.is_unsigned {
        "  mov $0, "@ + dx + "\n"@ + "  div "@ + di + "\n"@
    } else {
        (if ty.size == 8 {
            "  cqo\n"@
        } else {
            "  cdq\n"@
        }) + "  idiv "@ + di + "\n"@
    }
}

/// The instructions of the binary operator `kind` whose left operand has
/// type `ty`, or `None` when the operator has no such form (an invalid
/// expression).
pub open spec fn binop_text(kind: NodeKind, ty: Type) -> Option<Seq<char>> {
    if ty.kind == TypeKind::Float || ty.kind == TypeKind::Double {
        let sz = if ty.kind == TypeKind::Float {
            "ss"@
        } else {
            "sd"@
        };
        if kind == NodeKind::Add {
            Some("  add"@ + sz + " %xmm1, %xmm0\n"@)
        } else if kind == NodeKind::Sub {
            Some("  sub"@ + sz + " %xmm1, %xmm0\n"@)
        } else if kind == NodeKind::Mul {
            Some("  mul"@ + sz + " %xmm1, %xmm0\n"@)
        } else if kind == NodeKind::Div {
            Some("  div"@ + sz + " %xmm1, %xmm0\n"@)
        } else if is_comparison(kind) {
            Some("  ucomi"@ + sz + " %xmm0, %xmm1\n"@ + float_set(kind) + "  and $1, %al\n"@
                + "  movzb %al, %rax\n"@)
        } else {
            None
        }
    } else if ty.kind == TypeKind::LDouble {
        if kind == NodeKind::Add {
            Some("  faddp\n"@)
        } else if kind == NodeKind::Sub {
            Some("  fsubrp\n"@)
        } else if kind == NodeKind::Mul {
            Some("  fmulp\n"@)
        } else if kind == NodeKind::Div {
            Some("  fdivrp\n"@)
        } else if is_comparison(kind) {
            Some("  fcomip\n"@ + "  fstp %st(0)\n"@ + x87_set(kind) + "  movzb %al, %rax\n"@)
        } else {
            None
        }
    } else {
        let (ax, di, dx) = int_regs(ty);
        if kind == NodeKind::Add {
            Some(two_regs("add"@, di, ax))
        } else if kind == NodeKind::Sub {
            Some(two_regs("sub"@, di, ax))
        } else if kind == NodeKind::Mul {
            Some(two_regs("imul"@, di, ax))
        } else if kind == NodeKind::Div {
            Some(int_divide(ty))
        } else if kind == NodeKind::Mod {
            Some(int_divide(ty) + "  mov %rdx, %rax\n"@)
        } else if kind == NodeKind::BitAnd {
            Some(two_regs("and"@, di, ax))
        } else if kind == NodeKind::BitOr {
            Some(two_regs("or"@, di, ax))
        } else if kind == NodeKind::BitXor {
            Some(two_regs("xor"@, di, ax))
        } else if kind == NodeKind::Shl {
            Some("  mov %rdi, %rcx\n"@ + "  shl %cl, "@ + ax + "\n"@)
        } else if kind == NodeKind::Shr {
            Some("  mov %rdi, %rcx\n"@ + (if ty.is_unsigned {
                "  shr %cl, "@
            } else {
                "  sar %cl, "@
            }) + ax + "\n"@)
        } else if is_comparison(kind) {
            Some(two_regs("cmp"@, di, ax) + int_set(kind, ty.is_unsigned) + "  movzb %al, %rax\n"@)
        } else {
            None
        }
    }
}

fn push_two_regs(out: &mut String, op: &str, a: &str, b: &str)
    ensures
        final(out)@ == old(out)@ + two_regs(op@, a@, b@),
{
    out.append("  ");
    out.append(op);
    out.append(" ");
    out.append(a);
    out.append(", ");
    out.append(b);
    out.append("\n");
}

fn push_float_set(out: &mut String, kind: NodeKind)
    requires
        is_comparison(kind),
    ensures
        final(out)@ == old(out)@ + float_set(kind),
{
    match kind {
        NodeKind::Eq => {
            out.append("  sete %al\n");
            out.append("  setnp %dl\n");
            out.append("  and %dl, %al\n");
        },
        NodeKind::Ne => {
            out.append("  setne %al\n");
            out.append("  setp %dl\n");
            out.append("  or %dl, %al\n");
        },
        NodeKind::Lt => out.append("  seta %al\n"),
        _ => out.append("  setae %al\n"),
    }
}

fn push_x87_set(out: &mut String, kind: NodeKind)
    requires
        is_comparison(kind),
    ensures
        final(out)@ == old(out)@ + x87_set(kind),
{
    match kind {
        NodeKind::Eq => out.append("  sete %al\n"),
        NodeKind::Ne => out.append("  setne %al\n"),
        NodeKind::Lt => out.append("  seta %al\n"),
        _ => out.append("  setae %al\n"),
    }
}

fn push_int_set(out: &mut String, kind: NodeKind, unsigned: bool)
    requires
        is_comparison(kind),
    ensures
        final(out)@ == old(out)@ + int_set(kind, unsigned),
{
    match kind {
        NodeKind::Eq => out.append("  sete %al\n"),
        NodeKind::Ne => out.append("  setne %al\n"),
        NodeKind::Lt => {
            if unsigned {
                out.append("  setb %al\n");
            } else {
                out.append("  setl %al\n");
            }
        },
        _ => {
            if unsigned {
                out.append("  setbe %al\n");
            } else {
                out.append("  setle %al\n");
            }
        },
    }
}

fn push_int_divide(out: &mut String, ty: &Type)
    ensures
        final(out)@ == old(out)@ + int_divide(*ty),
{
    let (_ax, di, dx) = int_regs_exec(ty);
    if ty.is_unsigned {
        out.append("  mov $0, ");
        out.append(dx);
        out.append("\n");
        out.append("  div ");
        out.append(di);
        out.append("\n");
    } else {
        if ty.size == 8 {
            out.append("  cqo\n");
        } else {
            out.append("  cdq\n");
        }
        out.append("  idiv ");
        out.append(di);
        out.append("\n");
    }
}

fn is_comparison_exec(kind: NodeKind) -> (r: bool)
    ensures
        r == is_comparison(kind),
{
    match kind {
        NodeKind::Eq | NodeKind::Ne | NodeKind::Lt | NodeKind::Le => true,
        _ => false,
    }
}

/// Emits the instructions of the binary operator `kind` on a left operand
/// of type `ty` (see `binop_text`): `true` when it has them, `false` with
/// nothing emitted when it is an invalid expression.
#[verifier::rlimit(40)]
pub fn gen_binary_op(kind: NodeKind, ty: &Type, out: &mut String) -> (ok: bool)
    ensures
        ok == binop_text(kind, *ty) is Some,
        ok ==> final(out)@ == old(out)@ + binop_text(kind, *ty)->0,
        !ok ==> final(out)@ == old(out)@,
{
    if ty.kind == TypeKind::Float || ty.kind == TypeKind::Double {
        let sz = if ty.kind == TypeKind::Float {
            "ss"
        } else {
            "sd"
        };
        match kind {
            NodeKind::Add => out.append("  add"),
            NodeKind::Sub => out.append("  sub"),
            NodeKind::Mul => out.append("  mul"),
            NodeKind::Div => out.append("  div"),
            _ => {},
        }
        match kind {
            NodeKind::Add | NodeKind::Sub | NodeKind::Mul | NodeKind::Div => {
                out.append(sz);
                out.append(" %xmm1, %xmm0\n");
                return true;
            },
            _ => {},
        }
        if is_comparison_exec(kind) {
            out.append("  ucomi");
            out.append(sz);
            out.append(" %xmm0, %xmm1\n");
            push_float_set(out, kind);
            out.append("  and $1, %al\n");
            out.append("  movzb %al, %rax\n");
            return true;
        }
        return false;
    }
    if ty.kind == TypeKind::LDouble {
        match kind {
            NodeKind::Add => {
                out.append("  faddp\n");
                return true;
            },
            NodeKind::Sub => {
                out.append("  fsubrp\n");
                return true;
            },
            NodeKind::Mul => {
                out.append("  fmulp\n");
                return true;
            },
            NodeKind::Div => {
                out.append("  fdivrp\n");
                return true;
            },
            _ => {},
        }
        if is_comparison_exec(kind) {
            out.append("  fcomip\n");
            out.append("  fstp %st(0)\n");
            push_x87_set(out, kind);
            out.append("  movzb %al, %rax\n");
            return true;
        }
        return false;
    }
    let (ax, di, _dx) = int_regs_exec(ty);
    match kind {
        NodeKind::Add => push_two_regs(out, "add", di, ax),
        NodeKind::Sub => push_two_regs(out, "sub", di, ax),
        NodeKind::Mul => push_two_regs(out, "imul", di, ax),
        NodeKind::Div => push_int_divide(out, ty),
        NodeKind::Mod => {
            push_int_divide(out, ty);
            out.append("  mov %rdx, %rax\n");
        },
        NodeKind::BitAnd => push_two_regs(out, "and", di, ax),
        NodeKind::BitOr => push_two_regs(out, "or", di, ax),
        NodeKind::BitXor => push_two_regs(out, "xor", di, ax),
        NodeKind::Shl => {
            out.append("  mov %rdi, %rcx\n");
            out.append("  shl %cl, ");
            out.append(ax);
            out.append("\n");
        },
        NodeKind::Shr => {
            out.append("  mov %rdi, %rcx\n");
            if ty.is_unsigned {
                out.append("  shr %cl, ");
            } else {
                out.append("  sar %cl, ");
            }
            out.append(ax);
            out.append("\n");
        },
        NodeKind::Eq | NodeKind::Ne | NodeKind::Lt | NodeKind::Le => {
            push_two_regs(out, "cmp", di, ax);
            push_int_set(out, kind, ty.is_unsigned);
            out.append("  movzb %al, %rax\n");
        },
        _ => {
            return false;
        },
    }
    true
}

/// Whether a type is held in the general registers (no floating type).
pub open spec fn in_general_registers(ty: Type) -> bool {
    ty.kind != TypeKind::Float && ty.kind != TypeKind::Double && ty.kind != TypeKind::LDouble
}

/// Signedness on integer operands: a right shift of an unsigned value is
/// the logical `shr`, of a signed one the arithmetic `sar`; division of an
/// unsigned value clears `%rdx`/`%edx` and uses `div`, of a signed one
/// extends the sign (`cqo` for 8 bytes, `cdq` otherwise) and uses `idiv`;
/// `<` and `<=` test the unsigned flags (`setb`, `setbe`) for an unsigned
/// left operand and the signed ones (`setl`, `setle`) otherwise.
pub proof fn law_integer_ops_follow_signedness(ty: Type)
    requires
        in_general_registers(ty),
    ensures
        ({
            let wide = ty.kind == TypeKind::Long || ty.base.is_some();
            let ax = if wide {
                "%rax"@
            } else {
                "%eax"@
            };
            let di = if wide {
                "%rdi"@
            } else {
                "%edi"@
            };
            let dx = if wide {
                "%rdx"@
            } else {
                "%edx"@
            };
            let cmp = "  "@ + "cmp"@ + " "@ + di + ", "@ + ax + "\n"@;
            &&& binop_text(NodeKind::Shr, ty) == Some(
                "  mov %rdi, %rcx\n"@ + (if ty.is_unsigned {
                    "  shr %cl, "@
                } else {
                    "  sar %cl, "@
                }) + ax + "\n"@,
            )
            &&& binop_text(NodeKind::Shl, ty) == Some("  mov %rdi, %rcx\n"@ + "  shl %cl, "@ + ax + "\n"@)
            &&& binop_text(NodeKind::Div, ty) == Some(
                if ty.is_unsigned {
                    "  mov $0, "@ + dx + "\n"@ + "  div "@ + di + "\n"@
                } else {
                    (if ty.size == 8 {
                        "  cqo\n"@
                    } else {
                        "  cdq\n"@
                    }) + "  idiv "@ + di + "\n"@
                },
            )
            &&& binop_text(NodeKind::Mod, ty) == Some(binop_text(NodeKind::Div, ty)->0 + "  mov %rdx, %rax\n"@)
            &&& binop_text(NodeKind::Lt, ty) == Some(
                cmp + (if ty.is_unsigned {
                    "  setb %al\n"@
                } else {
                    "  setl %al\n"@
                }) + "  movzb %al, %rax\n"@,
            )
            &&& binop_text(NodeKind::Le, ty) == Some(
                cmp + (if ty.is_unsigned {
                    "  setbe %al\n"@
                } else {
                    "  setle %al\n"@
                }) + "  movzb %al, %rax\n"@,
            )
            &&& binop_text(NodeKind::Eq, ty) == Some(cmp + "  sete %al\n"@ + "  movzb %al, %rax\n"@)
            &&& binop_text(NodeKind::Ne, ty) == Some(cmp + "  setne %al\n"@ + "  movzb %al, %rax\n"@)
        }),
{
}

/// The arithmetic and bitwise operators on integer operands act on the
/// 64-bit registers for `long` and pointer operands and on the 32-bit ones
/// otherwise, with the right operand in `%rdi`/`%edi` and the result in
/// `%rax`/`%eax`.
pub proof fn law_integer_ops_use_operand_width(ty: Type)
    requires
        in_general_registers(ty),
    ensures
        ({
            let wide = ty.kind == TypeKind::Long || ty.base.is_some();
            let ax = if wide {
                "%rax"@
            } else {
                "%eax"@
            };
            let di = if wide {
                "%rdi"@
            } else {
                "%edi"@
            };
            &&& binop_text(NodeKind::Add, ty) == Some("  "@ + "add"@ + " "@ + di + ", "@ + ax + "\n"@)
            &&& binop_text(NodeKind::Sub, ty) == Some("  "@ + "sub"@ + " "@ + di + ", "@ + ax + "\n"@)
            &&& binop_text(NodeKind::Mul, ty) == Some("  "@ + "imul"@ + " "@ + di + ", "@ + ax + "\n"@)
            &&& binop_text(NodeKind::BitAnd, ty) == Some("  "@ + "and"@ + " "@ + di + ", "@ + ax + "\n"@)
            &&& binop_text(NodeKind::BitOr, ty) == Some("  "@ + "or"@ + " "@ + di + ", "@ + ax + "\n"@)
            &&& binop_text(NodeKind::BitXor, ty) == Some("  "@ + "xor"@ + " "@ + di + ", "@ + ax + "\n"@)
        }),
{
}

/// Floating operators: `float` operands use the single-precision SSE
/// forms (`ss`), `double` operands the double-precision ones (`sd`), and
/// `long double` operands the x87 stack.
pub proof fn law_floating_ops_follow_precision(ty: Type)
    ensures
        ty.kind == TypeKind::Float ==> binop_text(NodeKind::Add, ty) == Some(
            "  add"@ + "ss"@ + " %xmm1, %xmm0\n"@,
        ) && binop_text(NodeKind::Div, ty) == Some("  div"@ + "ss"@ + " %xmm1, %xmm0\n"@),
        ty.kind == TypeKind::Double ==> binop_text(NodeKind::Add, ty) == Some(
            "  add"@ + "sd"@ + " %xmm1, %xmm0\n"@,
        ) && binop_text(NodeKind::Div, ty) == Some("  div"@ + "sd"@ + " %xmm1, %xmm0\n"@),
        ty.kind == TypeKind::LDouble ==> binop_text(NodeKind::Add, ty) == Some("  faddp\n"@)
            && binop_text(NodeKind::Sub, ty) == Some("  fsubrp\n"@),
        !in_general_registers(ty) ==> binop_text(NodeKind::Mod, ty) is None && binop_text(
            NodeKind::Shr,
            ty,
        ) is None,
{
}

} // verus!
