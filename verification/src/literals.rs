use vstd::prelude::*;

use crate::tokenize::{clone_bytes, clone_token, views, Token, TokenKind, TokenV};
use crate::types::{clone_type, plain_type, Type, TypeKind};

verus! {

// ---------------------------------------------------------------------------
// Joining adjacent string literals

/// The first index from `j` on whose token is no string literal, or the
/// length of `s`.
pub open spec fn str_run_end(s: Seq<TokenV>, j: int) -> int
    decreases s.len() - j,
{
    if j < 0 || j >= s.len() {
        s.len() as int
    } else if s[j].kind != TokenKind::Str {
        j
    } else {
        str_run_end(s, j + 1)
    }
}

/// The bytes a string literal token holds (none if it holds none).
pub open spec fn str_bytes(t: TokenV) -> Seq<u8> {
    match t.str {
        Some(b) => b,
        None => Seq::empty(),
    }
}

/// The bytes of the tokens `i..e`, one after another.
pub open spec fn joined_bytes(s: Seq<TokenV>, i: int, e: int) -> Seq<u8>
    decreases e - i,
{
    if e <= i {
        Seq::empty()
    } else {
        joined_bytes(s, i, e - 1) + str_bytes(s[e - 1])
    }
}

/// The number of array elements of string literal token `t`.
pub open spec fn str_array_len(t: TokenV) -> int {
    t.ty.unwrap().array_len as int
}

/// The number of elements of the literals `i..e` joined: those of the
/// first, and those of each further one less its terminating null.
pub open spec fn joined_len(s: Seq<TokenV>, i: int, e: int) -> int
    decreases e - i,
{
    if e <= i + 1 {
        str_array_len(s[i])
    } else {
        joined_len(s, i, e - 1) + str_array_len(s[e - 1]) - 1
    }
}

/// The element type of string literal token `t`.
pub open spec fn str_elem(t: TokenV) -> Type {
    *t.ty.unwrap().base.unwrap()
}

/// The array of `len` elements of `base`, as `Type::new_array` makes it.
pub open spec fn array_type(base: Type, len: int) -> Type {
    Type {
        base: Some(Box::new(base)),
        array_len: len as i64,
        ..plain_type(
            TypeKind::Array,
            if len < 0 {
                0
            } else {
                (base.size * len) as i64
            },
            base.align,
            false,
        )
    }
}

/// Token `i` with the string literals `i..e` joined into it.
pub open spec fn joined_token(s: Seq<TokenV>, i: int, e: int) -> TokenV {
    TokenV {
        str: Some(joined_bytes(s, i, e)),
        ty: Some(array_type(str_elem(s[i]), joined_len(s, i, e))),
        ..s[i]
    }
}

pub proof fn lemma_str_run_end(s: Seq<TokenV>, j: int)
    requires
        0 <= j <= s.len(),
    ensures
        j <= str_run_end(s, j) <= s.len(),
        forall|k: int| j <= k < str_run_end(s, j) ==> s[k].kind == TokenKind::Str,
        str_run_end(s, j) < s.len() ==> s[str_run_end(s, j)].kind != TokenKind::Str,
    decreases s.len() - j,
{
    if j < s.len() && s[j].kind == TokenKind::Str {
        lemma_str_run_end(s, j + 1);
    }
}

/// `s` from `i` on, with each run of two or more adjacent string literals
/// joined into the first of them, up to the first end-of-file token; from
/// there on nothing changes.
pub open spec fn joined_strings(s: Seq<TokenV>, i: int) -> Seq<TokenV>
    decreases s.len() - i,
{
    if i < 0 || i >= s.len() {
        Seq::empty()
    } else if s[i].kind == TokenKind::Eof {
        s.skip(i)
    } else if s[i].kind == TokenKind::Str && i + 1 < s.len() && s[i + 1].kind == TokenKind::Str {
        let e = str_run_end(s, i + 1);
        proof {
            lemma_str_run_end(s, i + 1);
        }
        seq![joined_token(s, i, e)] + joined_strings(s, e)
    } else {
        seq![s[i]] + joined_strings(s, i + 1)
    }
}

/// Whether a run of two or more string literals starts at `i`.
pub open spec fn run_start(s: Seq<TokenV>, i: int) -> bool {
    &&& 0 <= i
    &&& i + 1 < s.len()
    &&& s[i].kind == TokenKind::Str
    &&& s[i + 1].kind == TokenKind::Str
    &&& (i == 0 || s[i - 1].kind != TokenKind::Str)
}

/// Whether no token before `i` is an end-of-file token.
pub open spec fn before_eof(s: Seq<TokenV>, i: int) -> bool {
    forall|j: int| 0 <= j < i ==> s[j].kind != TokenKind::Eof
}

/// What joining the run of string literals `i..e` reads of it: each is
/// typed, the first with an element type; the running element count stays
/// within `i64`, as does the size of the joined array; and none of them
/// stands where the token that ends the run stands.
pub open spec fn run_ok(s: Seq<TokenV>, i: int, e: int) -> bool {
    &&& s[i].ty is Some
    &&& s[i].ty.unwrap().base is Some
    &&& forall|k: int| i < k < e ==> (#[trigger] s[k]).ty is Some && s[k].ty.unwrap().array_len > i64::MIN
    &&& forall|k: int| i < k <= e ==> i64::MIN <= #[trigger] joined_len(s, i, k) <= i64::MAX
    &&& joined_len(s, i, e) >= 0 ==> i64::MIN <= str_elem(s[i]).size * joined_len(s, i, e) <= i64::MAX
    &&& forall|k: int| i < k < e ==> !((#[trigger] s[k]).loc == s[e].loc && s[k].file_no == s[e].file_no)
}

/// Whether the string literals of `s` can be joined: there is an
/// end-of-file token, and each run before the first one is fit to join.
pub open spec fn joinable_strings(s: Seq<TokenV>) -> bool {
    &&& exists|k: int| 0 <= k < s.len() && #[trigger] s[k].kind == TokenKind::Eof
    &&& forall|i: int| #[trigger] run_start(s, i) && before_eof(s, i) ==> run_ok(s, i, str_run_end(s, i + 1))
}

/// Whether the run of string literals `i..e` is fit to join.
fn run_fits(toks: &Vec<Token>, i: usize, e: usize) -> (r: bool)
    requires
        i + 1 < e < toks.len(),
    ensures
        r == run_ok(views(toks@), i as int, e as int),
{
    let ghost s = views(toks@);
    let first = &toks[i];
    assert(s[i as int] == first@);
    let fty = match &first.ty {
        Some(t) => t,
        None => {
            return false;
        },
    };
    let size: i64 = match &fty.base {
        Some(b) => b.size,
        None => {
            return false;
        },
    };
    let end = &toks[e];
    assert(s[e as int] == end@);
    let mut len: i128 = fty.array_len as i128;
    let mut k: usize = i + 1;
    assert(joined_len(s, i as int, i + 1) == len);
    while k < e
        invariant
            s == views(toks@),
            i + 1 <= k <= e < toks.len(),
            s[i as int].ty is Some,
            s[i as int].ty.unwrap().base is Some,
            s[e as int] == end@,
            forall|j: int| i < j < k ==> (#[trigger] s[j]).ty is Some && s[j].ty.unwrap().array_len > i64::MIN,
            forall|j: int| i < j <= k ==> i64::MIN <= #[trigger] joined_len(s, i as int, j) <= i64::MAX,
            forall|j: int| i < j < k ==> !((#[trigger] s[j]).loc == s[e as int].loc && s[j].file_no == s[e as int].file_no),
            len == joined_len(s, i as int, k as int),
        decreases e - k,
    {
        let t = &toks[k];
        assert(s[k as int] == t@);
        let n: i64 = match &t.ty {
            Some(ty) => ty.array_len,
            None => {
                return false;
            },
        };
        if n == i64::MIN {
            return false;
        }
        if t.loc == end.loc && t.file_no == end.file_no {
            return false;
        }
        assert(joined_len(s, i as int, k + 1) == joined_len(s, i as int, k as int) + n - 1);
        len = len + (n as i128 - 1);
        if len < i64::MIN as i128 || len > i64::MAX as i128 {
            return false;
        }
        k += 1;
    }
    if len >= 0 {
        let sz: i128 = size as i128;
        proof {
            let b: int = 0x8000_0000_0000_0000;
            if sz >= 0 {
                assert(0 <= sz * len <= b * b) by (nonlinear_arith)
                    requires
                        0 <= sz <= b,
                        0 <= len <= b,
                ;
            } else {
                assert(-(b * b) <= sz * len <= 0) by (nonlinear_arith)
                    requires
                        -b <= sz < 0,
                        0 <= len <= b,
                ;
            }
        }
        let prod: i128 = sz * len;
        assert(prod == str_elem(s[i as int]).size * joined_len(s, i as int, e as int));
        if prod < i64::MIN as i128 || prod > i64::MAX as i128 {
            return false;
        }
    }
    true
}

/// Whether the string literals of `toks` can be joined
/// (`joinable_strings`).
pub fn can_merge_string_literals(toks: &Vec<Token>) -> (r: bool)
    ensures
        r == joinable_strings(views(toks@)),
{
    let ghost s = views(toks@);
    let n = toks.len();
    let mut i: usize = 0;
    while i < n
        invariant
            s == views(toks@),
            n == toks.len(),
            i <= n,
            before_eof(s, i as int),
            0 < i < n && s[i - 1].kind == TokenKind::Str ==> s[i as int].kind != TokenKind::Str,
            forall|j: int| 0 <= j < i && #[trigger] run_start(s, j) && before_eof(s, j) ==> run_ok(s, j, str_run_end(s, j + 1)),
        decreases n - i,
    {
        if toks[i].kind == TokenKind::Eof {
            assert(s[i as int].kind == TokenKind::Eof);
            assert forall|j: int| #[trigger] run_start(s, j) && before_eof(s, j) implies run_ok(s, j, str_run_end(s, j + 1)) by {
                if j >= i {
                    assert(s[i as int].kind == TokenKind::Eof);
                }
            }
            return true;
        }
        if toks[i].kind == TokenKind::Str && i + 1 < n && toks[i + 1].kind == TokenKind::Str {
            proof {
                lemma_str_run_end(s, i + 1);
                assert(run_start(s, i as int));
            }
            let mut m: usize = i + 1;
            while m < n && toks[m].kind == TokenKind::Str
                invariant
                    s == views(toks@),
                    n == toks.len(),
                    i + 1 <= m <= n,
                    str_run_end(s, i + 1) == str_run_end(s, m as int),
                decreases n - m,
            {
                assert(s[m as int].kind == TokenKind::Str);
                m += 1;
            }
            assert(str_run_end(s, i + 1) == m);
            if m == n {
                assert forall|k: int| 0 <= k < s.len() implies s[k].kind != TokenKind::Eof by {
                    if k >= i {
                        assert(s[k].kind == TokenKind::Str);
                    }
                }
                return false;
            }
            if !run_fits(toks, i, m) {
                return false;
            }
            assert forall|j: int| 0 <= j < m && #[trigger] run_start(s, j) && before_eof(s, j) implies run_ok(s, j, str_run_end(s, j + 1)) by {
                if j > i {
                    assert(s[j - 1].kind == TokenKind::Str);
                }
            }
            assert forall|j: int| 0 <= j < m implies s[j].kind != TokenKind::Eof by {
                if j >= i {
                    assert(s[j].kind == TokenKind::Str);
                }
            }
            i = m;
        } else {
            i += 1;
        }
    }
    false
}

/// The token made of the string literals `i..e`.
fn join_run(toks: &Vec<Token>, i: usize, e: usize) -> (r: Token)
    requires
        i + 1 < e <= toks.len(),
        run_ok(views(toks@), i as int, e as int),
    ensures
        r@ == joined_token(views(toks@), i as int, e as int),
{
    let ghost s = views(toks@);
    let first = &toks[i];
    assert(s[i as int] == first@);
    let fty = match &first.ty {
        Some(t) => t,
        None => {
            assert(false);
            return clone_token(first);
        },
    };
    let base = match &fty.base {
        Some(b) => clone_type(b),
        None => {
            assert(false);
            return clone_token(first);
        },
    };
    let mut len: i64 = fty.array_len;
    let mut buf: Vec<u8> = match &first.str {
        Some(b) => clone_bytes(b),
        None => Vec::new(),
    };
    assert(joined_bytes(s, i as int, i as int) =~= Seq::<u8>::empty());
    assert(buf@ =~= joined_bytes(s, i as int, i + 1));
    let mut k: usize = i + 1;
    while k < e
        invariant
            s == views(toks@),
            i + 1 <= k <= e <= toks.len(),
            run_ok(s, i as int, e as int),
            len == joined_len(s, i as int, k as int),
            buf@ == joined_bytes(s, i as int, k as int),
        decreases e - k,
    {
        let t = &toks[k];
        assert(s[k as int] == t@);
        let n = match &t.ty {
            Some(ty) => ty.array_len,
            None => {
                assert(false);
                0
            },
        };
        assert(joined_len(s, i as int, k + 1) == joined_len(s, i as int, k as int) + n - 1);
        len = len + (n - 1);
        match &t.str {
            Some(b) => {
                let mut j: usize = 0;
                let ghost b0 = buf@;
                while j < b.len()
                    invariant
                        j <= b.len(),
                        buf@ == b0 + b@.take(j as int),
                    decreases b.len() - j,
                {
                    buf.push(b[j]);
                    j += 1;
                    assert(buf@ =~= b0 + b@.take(j as int));
                }
                assert(b@.take(b.len() as int) =~= b@);
            },
            None => {},
        }
        assert(buf@ =~= joined_bytes(s, i as int, k + 1));
        k += 1;
    }
    let mut r = clone_token(first);
    r.str = Some(buf);
    r.ty = Some(Type::new_array(base, len));
    r
}

/// Joins each run of adjacent string literals into its first literal, up to
/// the first end-of-file token: the bytes one after another, and the type
/// an array of the first literal's element type whose length counts one
/// terminating null.
pub fn merge_adjacent_string_literals(toks: &mut Vec<Token>)
    requires
        joinable_strings(views(old(toks)@)),
    ensures
        views(final(toks)@) == joined_strings(views(old(toks)@), 0),
{
    let ghost s = views(toks@);
    let mut out: Vec<Token> = Vec::new();
    let mut i: usize = 0;
    let n = toks.len();
    assert(joined_strings(s, 0) =~= views(out@) + joined_strings(s, 0));
    loop
        invariant_except_break
            i < n,
            before_eof(s, i as int),
            0 < i < n && s[i - 1].kind == TokenKind::Str ==> s[i as int].kind != TokenKind::Str,
            joined_strings(s, 0) == views(out@) + joined_strings(s, i as int),
        invariant
            s == views(toks@),
            n == toks.len(),
            joinable_strings(s),
            i <= n,
        ensures
            joined_strings(s, 0) == views(out@),
        decreases n - i,
    {
        if toks[i].kind == TokenKind::Eof {
            assert(s[i as int].kind == TokenKind::Eof);
            let ghost out0 = views(out@);
            let mut j: usize = i;
            while j < n
                invariant
                    s == views(toks@),
                    n == toks.len(),
                    i <= j <= n,
                    views(out@) == out0 + s.subrange(i as int, j as int),
                decreases n - j,
            {
                let ghost o1 = views(out@);
                let c = clone_token(&toks[j]);
                assert(c@ == s[j as int]);
                out.push(c);
                assert(views(out@) =~= o1.push(s[j as int]));
                assert(o1.push(s[j as int]) =~= out0 + s.subrange(i as int, j + 1));
                j += 1;
            }
            assert(s.subrange(i as int, n as int) =~= s.skip(i as int));
            assert(joined_strings(s, i as int) == s.skip(i as int));
            assert(views(out@) =~= out0 + joined_strings(s, i as int));
            break;
        }
        if toks[i].kind == TokenKind::Str && i + 1 < n && toks[i + 1].kind == TokenKind::Str {
            proof {
                lemma_str_run_end(s, i + 1);
                assert(run_start(s, i as int));
            }
            let mut m: usize = i + 1;
            while m < n && toks[m].kind == TokenKind::Str
                invariant
                    s == views(toks@),
                    n == toks.len(),
                    i + 1 <= m <= n,
                    str_run_end(s, i + 1) == str_run_end(s, m as int),
                decreases n - m,
            {
                assert(s[m as int].kind == TokenKind::Str);
                m += 1;
            }
            assert(str_run_end(s, i + 1) == m);
            proof {
                // an end-of-file token exists and none stands before `i`; the
                // run is all string literals, so the run ends before the end
                let k = choose|k: int| 0 <= k < s.len() && #[trigger] s[k].kind == TokenKind::Eof;
                if m == n {
                    assert(k >= i as int);
                    assert(s[k].kind == TokenKind::Str);
                }
            }
            let t = join_run(toks, i, m);
            let ghost o0 = views(out@);
            assert(joined_strings(s, i as int) == seq![joined_token(s, i as int, m as int)] + joined_strings(s, m as int));
            out.push(t);
            assert(views(out@) =~= o0.push(joined_token(s, i as int, m as int)));
            assert(views(out@) + joined_strings(s, m as int) =~= o0 + joined_strings(s, i as int));
            assert forall|j: int| 0 <= j < m implies s[j].kind != TokenKind::Eof by {
                if j >= i {
                    assert(s[j].kind == TokenKind::Str);
                }
            }
            i = m;
        } else {
            let ghost o0 = views(out@);
            assert(joined_strings(s, i as int) == seq![s[i as int]] + joined_strings(s, i + 1));
            out.push(clone_token(&toks[i]));
            assert(views(out@) =~= o0.push(s[i as int]));
            assert(views(out@) + joined_strings(s, i + 1) =~= o0 + joined_strings(s, i as int));
            i += 1;
        }
    }
    *toks = out;
}

proof fn lemma_joined_first(s: Seq<TokenV>, j: int)
    requires
        0 <= j < s.len(),
        s[j].kind != TokenKind::Str,
    ensures
        joined_strings(s, j).len() >= 1,
        joined_strings(s, j)[0] == s[j],
{
}

/// Whether no end-of-file token comes among the first `n` tokens of `r`.
pub open spec fn no_eof_before(r: Seq<TokenV>, n: int) -> bool {
    forall|k: int| 0 <= k < n ==> r[k].kind != TokenKind::Eof
}

/// After the string literals are joined, no two string literals stand side
/// by side before the first end-of-file token.
pub proof fn law_no_adjacent_literals_after_merge(s: Seq<TokenV>, i: int, k: int)
    requires
        0 <= i,
        0 <= k,
        k + 1 < joined_strings(s, i).len(),
        no_eof_before(joined_strings(s, i), k + 1),
    ensures
        !(joined_strings(s, i)[k].kind == TokenKind::Str && joined_strings(s, i)[k + 1].kind == TokenKind::Str),
    decreases s.len() - i,
{
    let r = joined_strings(s, i);
    if i >= s.len() {
    } else if s[i].kind == TokenKind::Eof {
        assert(r[0] == s[i]);
    } else if s[i].kind == TokenKind::Str && i + 1 < s.len() && s[i + 1].kind == TokenKind::Str {
        let e = str_run_end(s, i + 1);
        lemma_str_run_end(s, i + 1);
        let rest = joined_strings(s, e);
        assert(r == seq![joined_token(s, i, e)] + rest);
        if k == 0 {
            if e < s.len() {
                lemma_joined_first(s, e);
                assert(r[1] == s[e]);
            }
        } else {
            assert(forall|x: int| 0 <= x < k ==> rest[x] == r[x + 1]);
            law_no_adjacent_literals_after_merge(s, e, k - 1);
            assert(r[k] == rest[k - 1] && r[k + 1] == rest[k]);
        }
    } else {
        let rest = joined_strings(s, i + 1);
        assert(r == seq![s[i]] + rest);
        if k == 0 {
            if i + 1 < s.len() && s[i].kind == TokenKind::Str {
                lemma_joined_first(s, i + 1);
            }
        } else {
            assert(forall|x: int| 0 <= x < k ==> rest[x] == r[x + 1]);
            law_no_adjacent_literals_after_merge(s, i + 1, k - 1);
            assert(r[k] == rest[k - 1] && r[k + 1] == rest[k]);
        }
    }
}

} // verus!
