use vstd::prelude::*;

use crate::parse::files_fit;
use crate::tokenize::{equal, error_tok, has_file, spec_equal, token_error_text, well_ended, File, Token, TokenV};
use crate::types::{plain_type, Type, TypeKind};

verus! {

// ---------------------------------------------------------------------------
// Basic type specifiers: which combinations name which type

/// The weight of `void` in the count of a declaration's type specifiers.
pub const VOID: i32 = 1;
/// The weight of `_Bool`.
pub const BOOL: i32 = 4;
/// The weight of `char`.
pub const CHAR: i32 = 16;
/// The weight of `short`.
pub const SHORT: i32 = 64;
/// The weight of `int`.
pub const INT: i32 = 256;
/// The weight of `long`; `long long` counts it twice.
pub const LONG: i32 = 1024;
/// The weight of `float`.
pub const FLOAT: i32 = 4096;
/// The weight of `double`.
pub const DOUBLE: i32 = 16384;
/// The weight of any other type (a struct, union, enum or typedef name).
pub const OTHER: i32 = 65536;
/// The bit of `signed`.
pub const SIGNED: i32 = 131072;
/// The bit of `unsigned`.
pub const UNSIGNED: i32 = 262144;

/// The type that a count of type specifiers names, if it is a valid
/// combination: `char` and `signed char` are `char`; `short`, `short int`
/// and their `signed` forms are `short`; `int`, `signed`, `signed int` are
/// `int`; every form of `long` and `long long` is `long`; the `unsigned`
/// forms are the unsigned types; `double` and `long double` are `double`.
pub open spec fn specifier_type(c: i32) -> Option<Type> {
    if c == VOID {
        Some(plain_type(TypeKind::Void, 1, 1, false))
    } else if c == BOOL {
        Some(plain_type(TypeKind::Bool, 1, 1, false))
    } else if c == CHAR || c == SIGNED + CHAR {
        Some(plain_type(TypeKind::Char, 1, 1, false))
    } else if c == UNSIGNED + CHAR {
        Some(plain_type(TypeKind::Char, 1, 1, true))
    } else if c == SHORT || c == SHORT + INT || c == SIGNED + SHORT || c == SIGNED + SHORT + INT {
        Some(plain_type(TypeKind::Short, 2, 2, false))
    } else if c == UNSIGNED + SHORT || c == UNSIGNED + SHORT + INT {
        Some(plain_type(TypeKind::Short, 2, 2, true))
    } else if c == INT || c == SIGNED || c == SIGNED + INT {
        Some(plain_type(TypeKind::Int, 4, 4, false))
    } else if c == UNSIGNED || c == UNSIGNED + INT {
        Some(plain_type(TypeKind::Int, 4, 4, true))
    } else if c == LONG || c == LONG + INT || c == LONG + LONG || c == LONG + LONG + INT || c == SIGNED + LONG
        || c == SIGNED + LONG + INT || c == SIGNED + LONG + LONG || c == SIGNED + LONG + LONG + INT {
        Some(plain_type(TypeKind::Long, 8, 8, false))
    } else if c == UNSIGNED + LONG || c == UNSIGNED + LONG + INT || c == UNSIGNED + LONG + LONG || c
        == UNSIGNED + LONG + LONG + INT {
        Some(plain_type(TypeKind::Long, 8, 8, true))
    } else if c == FLOAT {
        Some(plain_type(TypeKind::Float, 4, 4, false))
    } else if c == DOUBLE || c == LONG + DOUBLE {
        Some(plain_type(TypeKind::Double, 8, 8, false))
    } else {
        None
    }
}

/// The type that the count `c` of type specifiers names, if any
/// (`specifier_type`).
pub fn type_of_specifiers(c: i32) -> (r: Option<Type>)
    ensures
        r == specifier_type(c),
{
    if c == VOID {
        Some(Type::new_void())
    } else if c == BOOL {
        Some(Type::new_bool())
    } else if c == CHAR || c == SIGNED + CHAR {
        Some(Type::new_char())
    } else if c == UNSIGNED + CHAR {
        Some(Type::new_uchar())
    } else if c == SHORT || c == SHORT + INT || c == SIGNED + SHORT || c == SIGNED + SHORT + INT {
        Some(Type::new_short())
    } else if c == UNSIGNED + SHORT || c == UNSIGNED + SHORT + INT {
        Some(Type::new_ushort())
    } else if c == INT || c == SIGNED || c == SIGNED + INT {
        Some(Type::new_int())
    } else if c == UNSIGNED || c == UNSIGNED + INT {
        Some(Type::new_uint())
    } else if c == LONG || c == LONG + INT || c == LONG + LONG || c == LONG + LONG + INT || c == SIGNED + LONG
        || c == SIGNED + LONG + INT || c == SIGNED + LONG + LONG || c == SIGNED + LONG + LONG + INT {
        Some(Type::new_long())
    } else if c == UNSIGNED + LONG || c == UNSIGNED + LONG + INT || c == UNSIGNED + LONG + LONG || c
        == UNSIGNED + LONG + LONG + INT {
        Some(Type::new_ulong())
    } else if c == FLOAT {
        Some(Type::new_float())
    } else if c == DOUBLE || c == LONG + DOUBLE {
        Some(Type::new_double())
    } else {
        None
    }
}

/// What a valid combination of basic type specifiers names: the type is
/// unsigned exactly when `unsigned` is among the specifiers, and, by the
/// type words besides `signed` and `unsigned` (the count without those
/// bits), `short` and `short int` name a 2-byte `short`, `int` alone or no
/// type word a 4-byte `int`, the forms of `long` an 8-byte `long`, and
/// `char` a 1-byte `char`. So `unsigned short` and `unsigned short int`
/// name an unsigned 2-byte `short`.
pub proof fn law_specifiers_name_their_type(c: i32)
    requires
        specifier_type(c) is Some,
    ensures
        ({
            let t = specifier_type(c)->0;
            let words = c % SIGNED;
            &&& t.is_unsigned == (c >= UNSIGNED)
            &&& (words == SHORT || words == SHORT + INT) ==> t.kind == TypeKind::Short && t.size == 2
            &&& (words == INT || words == 0) ==> t.kind == TypeKind::Int && t.size == 4
            &&& (words == LONG || words == LONG + INT || words == LONG + LONG || words == LONG + LONG
                + INT) ==> t.kind == TypeKind::Long && t.size == 8
            &&& words == CHAR ==> t.kind == TypeKind::Char && t.size == 1
            &&& words == FLOAT ==> t.kind == TypeKind::Float && t.size == 4
            &&& (words == DOUBLE || words == LONG + DOUBLE) ==> t.kind == TypeKind::Double && t.size == 8
        }),
{
}

/// A valid count is small.
proof fn lemma_specifier_count_small(c: i32)
    requires
        specifier_type(c) is Some,
    ensures
        0 < c < 0x80000,
{
}

/// The basic type specifier that token `t` spells, as its index among
/// `void`, `_Bool`, `char`, `short`, `int`, `long`, `float`, `double`,
/// `signed`, `unsigned`.
pub open spec fn specifier_word(files: Seq<File>, t: TokenV) -> Option<int> {
    if spec_equal(files, t, "void"@) {
        Some(0)
    } else if spec_equal(files, t, "_Bool"@) {
        Some(1)
    } else if spec_equal(files, t, "char"@) {
        Some(2)
    } else if spec_equal(files, t, "short"@) {
        Some(3)
    } else if spec_equal(files, t, "int"@) {
        Some(4)
    } else if spec_equal(files, t, "long"@) {
        Some(5)
    } else if spec_equal(files, t, "float"@) {
        Some(6)
    } else if spec_equal(files, t, "double"@) {
        Some(7)
    } else if spec_equal(files, t, "signed"@) {
        Some(8)
    } else if spec_equal(files, t, "unsigned"@) {
        Some(9)
    } else {
        None
    }
}

/// The count after one more specifier: the weight of a type word is added,
/// the bit of `signed` or `unsigned` is set.
pub open spec fn counted(c: i32, w: int) -> int {
    if w == 0 {
        c + VOID
    } else if w == 1 {
        c + BOOL
    } else if w == 2 {
        c + CHAR
    } else if w == 3 {
        c + SHORT
    } else if w == 4 {
        c + INT
    } else if w == 5 {
        c + LONG
    } else if w == 6 {
        c + FLOAT
    } else if w == 7 {
        c + DOUBLE
    } else if w == 8 {
        (c | SIGNED) as int
    } else {
        (c | UNSIGNED) as int
    }
}

/// Reading basic type specifiers from token `i` on, with count `c` and type
/// `ty` so far: at the first token that is none, the type and that
/// position; at the first specifier that makes no valid combination, the
/// error at its position.
pub open spec fn read_specifiers(files: Seq<File>, toks: Seq<TokenV>, i: int, c: i32, ty: Type) -> Result<(Type, int), int>
    decreases toks.len() - i,
{
    if i < 0 || i >= toks.len() {
        Ok((ty, i))
    } else {
        match specifier_word(files, toks[i]) {
            None => Ok((ty, i)),
            Some(w) => {
                let c2 = counted(c, w);
                if i32::MIN <= c2 <= i32::MAX {
                    match specifier_type(c2 as i32) {
                        Some(t) => read_specifiers(files, toks, i + 1, c2 as i32, t),
                        None => Err(i),
                    }
                } else {
                    Err(i)
                }
            },
        }
    }
}

/// Reads the basic type specifiers (`void`, `_Bool`, `char`, `short`,
/// `int`, `long`, `float`, `double`, `signed`, `unsigned`) from token `i`
/// on, in any order, and gives the type they name together (`int` if there
/// are none) and the position after them; a combination that names no type
/// is the error "invalid type" at the specifier that makes it.
pub fn basic_type_specifiers(files: &[File], toks: &[Token], i: usize) -> (r: Result<(Type, usize), String>)
    requires
        well_ended(toks@),
        i < toks.len(),
        files_fit(files@),
    ensures
        match read_specifiers(files@, crate::tokenize::views(toks@), i as int, 0, plain_type(TypeKind::Int, 4, 4, false)) {
            Ok((t, k)) => r == Ok::<(Type, usize), String>((t, k as usize)),
            Err(k) => r matches Err(e) && e@ == token_error_text(files@, toks@[k]@, "invalid type"@),
        },
{
    let ghost ts = crate::tokenize::views(toks@);
    let mut ty = Type::new_int();
    let mut counter: i32 = 0;
    let mut k: usize = i;
    loop
        invariant
            ts == crate::tokenize::views(toks@),
            i <= k <= toks.len(),
            files_fit(files@),
            counter == 0 || specifier_type(counter) is Some,
            read_specifiers(files@, ts, i as int, 0, plain_type(TypeKind::Int, 4, 4, false))
                == read_specifiers(files@, ts, k as int, counter, ty),
        ensures
            k <= toks.len(),
            read_specifiers(files@, ts, i as int, 0, plain_type(TypeKind::Int, 4, 4, false))
                == Ok::<(Type, int), int>((ty, k as int)),
        decreases toks.len() - k,
    {
        if k >= toks.len() {
            break;
        }
        let tok = &toks[k];
        assert(ts[k as int] == tok@);
        let w = match specifier_word_of(files, tok) {
            Some(w) => w,
            None => {
                break;
            },
        };
        proof {
            if counter != 0 {
                lemma_specifier_count_small(counter);
            }
        }
        let next: i32 = if w == 0 {
            counter + VOID
        } else if w == 1 {
            counter + BOOL
        } else if w == 2 {
            counter + CHAR
        } else if w == 3 {
            counter + SHORT
        } else if w == 4 {
            counter + INT
        } else if w == 5 {
            counter + LONG
        } else if w == 6 {
            counter + FLOAT
        } else if w == 7 {
            counter + DOUBLE
        } else if w == 8 {
            counter | SIGNED
        } else {
            counter | UNSIGNED
        };
        assert(next == counted(counter, w as int));
        match type_of_specifiers(next) {
            Some(t) => {
                ty = t;
                counter = next;
            },
            None => {
                proof {
                    crate::tokenize::lemma_file_index_valid(files@, tok.file_no);
                }
                return Err(error_tok(files, tok, "invalid type"));
            },
        }
        k += 1;
    }
    Ok((ty, k))
}

/// The basic type specifier that `tok` spells, if any (`specifier_word`).
fn specifier_word_of(files: &[File], tok: &Token) -> (r: Option<u8>)
    ensures
        match specifier_word(files@, tok@) {
            Some(w) => r == Some(w as u8),
            None => r is None,
        },
{
    if equal(files, tok, "void") {
        Some(0)
    } else if equal(files, tok, "_Bool") {
        Some(1)
    } else if equal(files, tok, "char") {
        Some(2)
    } else if equal(files, tok, "short") {
        Some(3)
    } else if equal(files, tok, "int") {
        Some(4)
    } else if equal(files, tok, "long") {
        Some(5)
    } else if equal(files, tok, "float") {
        Some(6)
    } else if equal(files, tok, "double") {
        Some(7)
    } else if equal(files, tok, "signed") {
        Some(8)
    } else if equal(files, tok, "unsigned") {
        Some(9)
    } else {
        None
    }
}

} // verus!
