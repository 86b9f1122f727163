//! A C compiler's front end: tokenizer, types, syntax trees, constant
//! folding and type checking, the macro table of the preprocessor, stack
//! layout for code generation, and a string-keyed hash table.

use vstd::prelude::*;

pub mod text;
pub mod types;
pub mod tokenize;
pub mod parse;
pub mod preprocess;
pub mod macro_args;
pub mod codegen;
pub mod hashmap;
pub mod gvar;
pub mod literals;
pub mod labels;
pub mod structs;
pub mod specifiers;
pub mod directives;
pub mod binop;
pub mod program;
pub mod data;

use crate::text::{i64_to_decimal, push_char, push_chars, signed_decimal};
use crate::tokenize::{diag_text, format_diag, line_of, count_line, Token};

verus! {

/// Rounds `n` up to the nearest multiple of `align` (with C's truncating
/// division for negative `n`).
pub fn align_to(n: i64, align: i64) -> (r: i64)
    requires
        align > 0,
        n + align - 1 <= i64::MAX,
    ensures
        r == trunc_div(n + align - 1, align as int) * align,
{
    let q = (n + (align - 1)) / align;
    proof {
        lemma_trunc_div_bound(n + align - 1, align as int);
    }
    q * align
}

/// For a non-negative `n`, `align_to` gives the least multiple of `align`
/// that is at least `n`.
pub proof fn law_align_to_rounds_up(n: int, align: int)
    requires
        n >= 0,
        align > 0,
    ensures
        n <= trunc_div(n + align - 1, align) * align < n + align,
        (trunc_div(n + align - 1, align) * align) % align == 0,
{
    let q = (n + (align - 1)) / align;
    let r = (n + align - 1) % align;
    assert(n + align - 1 == q * align + r && 0 <= r < align) by (nonlinear_arith)
        requires
            align > 0,
            q == (n + align - 1) / align,
            r == (n + align - 1) % align,
    ;
    assert((q * align) % align == 0) by (nonlinear_arith)
        requires
            align > 0,
    ;
}

/// Division rounding toward zero, as C and Rust do.
pub open spec fn trunc_div(a: int, b: int) -> int
    recommends
        b > 0,
{
    if a >= 0 {
        a / b
    } else {
        -((-a) / b)
    }
}

proof fn lemma_trunc_div_bound(a: int, b: int)
    requires
        b > 0,
        i64::MIN <= a <= i64::MAX,
    ensures
        i64::MIN <= trunc_div(a, b) * b <= i64::MAX,
{
    if a >= 0 {
        assert(0 <= (a / b) * b <= a) by (nonlinear_arith)
            requires
                a >= 0,
                b > 0,
        ;
    } else {
        assert(0 <= ((-a) / b) * b <= -a) by (nonlinear_arith)
            requires
                -a > 0,
                b > 0,
        ;
        assert(-((-a) / b) * b == -(((-a) / b) * b)) by (nonlinear_arith);
    }
}

/// The counters behind fresh label names and variable identities.
pub struct Counters {
    pub unique_id: i32,
    pub var_unique_id: u64,
}

/// Both counters at zero.
pub fn new_counters() -> (r: Counters)
    ensures
        r.unique_id == 0,
        r.var_unique_id == 0,
{
    Counters { unique_id: 0, var_unique_id: 0 }
}

/// The text of a fresh local label: `.L..` and the counter's value.
pub open spec fn unique_name_text(id: i32) -> Seq<char> {
    seq!['.', 'L', '.', '.'] + signed_decimal(id as int)
}

/// A fresh label name `.L..N`, where `N` is the counter, which then goes up
/// by one (wrapping around).
pub fn new_unique_name(c: &mut Counters) -> (r: String)
    ensures
        r@ == unique_name_text(old(c).unique_id),
        final(c).unique_id == old(c).unique_id.wrapping_add(1),
        final(c).var_unique_id == old(c).var_unique_id,
{
    let id = c.unique_id;
    c.unique_id = c.unique_id.wrapping_add(1);
    let mut s = String::new();
    push_chars(&mut s, &['.', 'L', '.', '.']);
    let digits = i64_to_decimal(id as i64);
    push_chars(&mut s, &digits);
    assert(['.', 'L', '.', '.']@ =~= seq!['.', 'L', '.', '.']);
    assert(s@ =~= unique_name_text(id));
    s
}

/// A fresh variable identity: the counter's value, which then goes up by
/// one (wrapping around).
pub fn new_var_unique_id(c: &mut Counters) -> (r: u64)
    ensures
        r == old(c).var_unique_id,
        final(c).var_unique_id == old(c).var_unique_id.wrapping_add(1),
        final(c).unique_id == old(c).unique_id,
{
    let id = c.var_unique_id;
    c.var_unique_id = c.var_unique_id.wrapping_add(1);
    id
}

/// Whether `ids` are the values a counter takes over successive calls that
/// each add one, wrapping around, starting from zero.
pub open spec fn counted_from_zero_i32(ids: Seq<i32>) -> bool {
    &&& ids.len() > 0 ==> ids[0] == 0
    &&& forall|k: int| 0 <= k < ids.len() - 1 ==> #[trigger] ids[k + 1] == ids[k].wrapping_add(1)
}

/// Whether `ids` are the values a counter takes over successive calls that
/// each add one, wrapping around, starting from zero.
pub open spec fn counted_from_zero_u64(ids: Seq<u64>) -> bool {
    &&& ids.len() > 0 ==> ids[0] == 0
    &&& forall|k: int| 0 <= k < ids.len() - 1 ==> #[trigger] ids[k + 1] == ids[k].wrapping_add(1)
}

/// Label names from fresh counters: over fewer than 2^31 calls of
/// `new_unique_name`, the call numbered `k` (from zero) gives `.L..k`, and
/// no two calls give the same name.
pub proof fn law_unique_names_never_repeat(ids: Seq<i32>)
    requires
        counted_from_zero_i32(ids),
        ids.len() <= 0x8000_0000,
    ensures
        forall|k: int| 0 <= k < ids.len() ==> #[trigger] ids[k] == k,
        forall|i: int, j: int|
            0 <= i < j < ids.len() ==> unique_name_text(#[trigger] ids[i]) != unique_name_text(
                #[trigger] ids[j],
            ),
    decreases ids.len(),
{
    if ids.len() > 0 {
        let front = ids.drop_last();
        assert forall|k: int| 0 <= k < front.len() - 1 implies #[trigger] front[k + 1]
            == front[k].wrapping_add(1) by {
            assert(ids[k + 1] == ids[k].wrapping_add(1));
        }
        law_unique_names_never_repeat(front);
        let n = ids.len() - 1;
        if n > 0 {
            assert(front[n - 1] == n - 1);
            assert(ids[n] == ids[n - 1].wrapping_add(1));
        }
        assert forall|k: int| 0 <= k < ids.len() implies #[trigger] ids[k] == k by {
            if k < n {
                assert(front[k] == ids[k]);
            }
        }
        assert forall|i: int, j: int| 0 <= i < j < ids.len() implies unique_name_text(
            #[trigger] ids[i],
        ) != unique_name_text(#[trigger] ids[j]) by {
            if unique_name_text(ids[i]) == unique_name_text(ids[j]) {
                assert(unique_name_text(ids[i]).skip(4) =~= crate::text::decimal(i as nat));
                assert(unique_name_text(ids[j]).skip(4) =~= crate::text::decimal(j as nat));
                crate::text::lemma_decimal_injective(i as nat, j as nat);
            }
        }
    }
}

/// Variable identities from fresh counters: over at most 2^64 calls of
/// `new_var_unique_id`, the call numbered `k` (from zero) gives `k`, so no
/// two calls give the same identity.
pub proof fn law_var_ids_never_repeat(ids: Seq<u64>)
    requires
        counted_from_zero_u64(ids),
        ids.len() <= 0x1_0000_0000_0000_0000,
    ensures
        forall|k: int| 0 <= k < ids.len() ==> #[trigger] ids[k] == k,
        forall|i: int, j: int| 0 <= i < j < ids.len() ==> #[trigger] ids[i] != #[trigger] ids[j],
    decreases ids.len(),
{
    if ids.len() > 0 {
        let front = ids.drop_last();
        assert forall|k: int| 0 <= k < front.len() - 1 implies #[trigger] front[k + 1]
            == front[k].wrapping_add(1) by {
            assert(ids[k + 1] == ids[k].wrapping_add(1));
        }
        law_var_ids_never_repeat(front);
        let n = ids.len() - 1;
        if n > 0 {
            assert(front[n - 1] == n - 1);
            assert(ids[n] == ids[n - 1].wrapping_add(1));
        }
        assert forall|k: int| 0 <= k < ids.len() implies #[trigger] ids[k] == k by {
            if k < n {
                assert(front[k] == ids[k]);
            }
        }
    }
}

/// The diagnostic `msg` for position `loc` of the source `src` of file
/// `filename`, with the line number counted from the source.
pub fn error_at(filename: &str, src: &[char], loc: usize, msg: &str) -> (r: String)
    requires
        src.len() <= usize::MAX / 16,
        filename@.len() <= usize::MAX / 16,
    ensures
        r@ == diag_text(
            filename@,
            src@,
            loc as int,
            line_of(
                src@,
                if loc < src.len() {
                    loc as int
                } else {
                    src.len() as int
                },
            ),
            msg@,
        ),
{
    let l = if loc < src.len() {
        loc
    } else {
        src.len()
    };
    let line_no = count_line(src, l);
    format_diag(filename, src, loc, line_no, msg)
}

/// The diagnostic `msg` for a token of the source `src` of file `filename`,
/// at the token's position and with its line number.
pub fn error_tok(filename: &str, src: &[char], tok: &Token, msg: &str) -> (r: String)
    requires
        src.len() <= usize::MAX / 16,
        filename@.len() <= usize::MAX / 16,
    ensures
        r@ == diag_text(filename@, src@, tok.loc as int, tok.line_no as nat, msg@),
{
    format_diag(filename, src, tok.loc, tok.line_no, msg)
}

} // verus!
