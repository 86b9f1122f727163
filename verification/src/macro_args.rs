//! Reading a macro's definition and the arguments of a macro call.

use vstd::prelude::*;

use crate::preprocess::{add_macro, copy_line, eof_at, new_eof, Macro, Macros};
use crate::text::{chars_to_string, str_to_chars};
use crate::tokenize::{
    equal, error_tok, find_file, has_file, skip, spec_equal, text_slice, token_error_text,
    token_text, views, well_ended, File, Token, TokenKind, TokenV,
};

verus! {

// ---------------------------------------------------------------------------
// Parameter lists and arguments

/// Whether every token lies in a known file.
pub open spec fn files_known(files: Seq<File>, toks: Seq<Token>) -> bool {
    forall|k: int| 0 <= k < toks.len() ==> has_file(files, #[trigger] toks[k].file_no)
}

/// The message of a missing token `s`.
pub open spec fn expected_msg(s: Seq<char>) -> Seq<char> {
    seq!['e', 'x', 'p', 'e', 'c', 't', 'e', 'd', ' ', '\''] + s + seq!['\'']
}

/// What reading a macro's parameter list gives: the parameter names,
/// whether the list ends in `...`, and the position after its `)`; or the
/// position of the token at fault and the message.
pub enum ParamsOut {
    Params(Seq<Seq<char>>, bool, int),
    Fail(int, Seq<char>),
}

/// One step of a parameter list, at a token other than `)`: a name and the
/// position after it, `...)` and the position after it, or a failure.
pub enum ParamStep {
    Name(Seq<char>, int),
    Variadic(int),
    Fail(int, Seq<char>),
}

/// One step of a parameter list at token `i`; `more` when names were read
/// before, so that a comma must come first.
pub open spec fn param_step(files: Seq<File>, toks: Seq<Token>, i: int, more: bool) -> ParamStep {
    if more && !crate::tokenize::spec_equal(files, toks[i]@, ","@) {
        ParamStep::Fail(i, expected_msg(","@))
    } else {
        let j = if more {
            i + 1
        } else {
            i
        };
        if j >= toks.len() {
            ParamStep::Fail(j, Seq::empty())
        } else if crate::tokenize::spec_equal(files, toks[j]@, "..."@) {
            if j + 1 >= toks.len() {
                ParamStep::Fail(j + 1, Seq::empty())
            } else if crate::tokenize::spec_equal(files, toks[j + 1]@, ")"@) {
                ParamStep::Variadic(j + 2)
            } else {
                ParamStep::Fail(j + 1, expected_msg(")"@))
            }
        } else if toks[j].kind != TokenKind::Ident {
            ParamStep::Fail(j, "expected an identifier"@)
        } else {
            ParamStep::Name(token_text(files, toks[j]@), j + 1)
        }
    }
}

/// Reading a parameter list from token `i`, with the names `acc` read so
/// far: names separated by commas, perhaps ending in `...`, up to `)`.
pub open spec fn params_from(files: Seq<File>, toks: Seq<Token>, i: int, acc: Seq<Seq<char>>) -> ParamsOut
    decreases toks.len() - i,
{
    if i < 0 || i >= toks.len() {
        ParamsOut::Fail(i, Seq::empty())
    } else if crate::tokenize::spec_equal(files, toks[i]@, ")"@) {
        ParamsOut::Params(acc, false, i + 1)
    } else {
        match param_step(files, toks, i, acc.len() > 0) {
            ParamStep::Name(n, j) => params_from(files, toks, j, acc.push(n)),
            ParamStep::Variadic(j) => ParamsOut::Params(acc, true, j),
            ParamStep::Fail(at, m) => ParamsOut::Fail(at, m),
        }
    }
}

/// The names of a list of strings.
pub open spec fn names(v: Seq<String>) -> Seq<Seq<char>> {
    v.map_values(|s: String| s@)
}

#[verifier::rlimit(60)]
fn read_param(files: &[File], toks: &[Token], i: usize, more: bool) -> (r: Result<(Option<String>, usize), String>)
    requires
        crate::tokenize::well_ended(toks@),
        i < toks.len(),
        files_known(files@, toks@),
        crate::parse::files_fit(files@),
    ensures
        match param_step(files@, toks@, i as int, more) {
            ParamStep::Name(n, j) => r matches Ok((Some(x), k)) && x@ == n && k == j && j < toks.len(),
            ParamStep::Variadic(j) => r matches Ok((None, k)) && k == j && j < toks.len(),
            ParamStep::Fail(at, msg) => r matches Err(e) && 0 <= at < toks.len() && e@
                == crate::tokenize::token_error_text(files@, toks@[at]@, msg),
        },
{
    proof {
        reveal_strlit(",");
        reveal_strlit(")");
        crate::tokenize::lemma_file_index_valid(files@, toks@[i as int].file_no);
    }
    let mut j = i;
    if more {
        j = match crate::tokenize::skip(files, toks, i, ",") {
            Ok(j) => j,
            Err(e) => return Err(e),
        };
    }
    proof {
        crate::tokenize::lemma_file_index_valid(files@, toks@[j as int].file_no);
    }
    if crate::tokenize::equal(files, &toks[j], "...") {
        proof {
            crate::tokenize::lemma_file_index_valid(files@, toks@[j + 1].file_no);
        }
        let k = match crate::tokenize::skip(files, toks, j + 1, ")") {
            Ok(k) => k,
            Err(e) => return Err(e),
        };
        return Ok((None, k));
    }
    if toks[j].kind != TokenKind::Ident {
        return Err(crate::tokenize::error_tok(files, &toks[j], "expected an identifier"));
    }
    let fi = match find_file(files, toks[j].file_no) {
        Some(k) => k,
        None => {
            assert(false);
            0
        },
    };
    let name = chars_to_string(&text_slice(&files[fi].contents, toks[j].loc, toks[j].len));
    Ok((Some(name), j + 1))
}

/// Reads a function-like macro's parameter list, from the token after its
/// `(`: the names, whether it ends in `...`, and the position after the `)`.
#[verifier::rlimit(40)]
pub fn read_macro_params(files: &[File], toks: &[Token], start: usize) -> (r: Result<(Vec<String>, bool, usize), String>)
    requires
        crate::tokenize::well_ended(toks@),
        start < toks.len(),
        files_known(files@, toks@),
        crate::parse::files_fit(files@),
    ensures
        match params_from(files@, toks@, start as int, Seq::empty()) {
            ParamsOut::Params(ps, v, j) => r matches Ok((n, var, k)) && names(n@) == ps && var == v
                && k == j && j < toks.len(),
            ParamsOut::Fail(at, msg) => r matches Err(e) && 0 <= at < toks.len() && e@
                == crate::tokenize::token_error_text(files@, toks@[at]@, msg),
        },
{
    let mut params: Vec<String> = Vec::new();
    let mut i = start;
    assert(names(params@) =~= Seq::<Seq<char>>::empty());
    while !crate::tokenize::equal(files, &toks[i], ")")
        invariant
            crate::tokenize::well_ended(toks@),
            i < toks.len(),
            files_known(files@, toks@),
            crate::parse::files_fit(files@),
            params_from(files@, toks@, start as int, Seq::empty()) == params_from(
                files@,
                toks@,
                i as int,
                names(params@),
            ),
        decreases toks.len() - i,
    {
        let more = params.len() > 0;
        match read_param(files, toks, i, more) {
            Ok((Some(name), j)) => {
                let ghost before = names(params@);
                params.push(name);
                assert(names(params@) =~= before.push(name@));
                i = j;
            },
            Ok((None, j)) => {
                return Ok((params, true, j));
            },
            Err(e) => {
                return Err(e);
            },
        }
    }
    proof {
        assert(toks@[i as int].kind != TokenKind::Eof);
    }
    Ok((params, false, i + 1))
}

/// Where a macro argument that starts at token `i` ends, `level` parentheses
/// deep: at a `)` (or, unless `rest`, a `,`) outside parentheses; or, when
/// the input ends first, the position of the end.
pub enum ArgEnd {
    Stop(int),
    Premature(int),
}

/// Where a macro argument from token `i` ends.
pub open spec fn arg_end(files: Seq<File>, toks: Seq<Token>, i: int, level: int, rest: bool) -> ArgEnd
    decreases toks.len() - i,
{
    if i < 0 || i >= toks.len() {
        ArgEnd::Premature(i)
    } else if level == 0 && crate::tokenize::spec_equal(files, toks[i]@, ")"@) {
        ArgEnd::Stop(i)
    } else if level == 0 && !rest && crate::tokenize::spec_equal(files, toks[i]@, ","@) {
        ArgEnd::Stop(i)
    } else if toks[i].kind == TokenKind::Eof {
        ArgEnd::Premature(i)
    } else {
        arg_end(
            files,
            toks,
            i + 1,
            if crate::tokenize::spec_equal(files, toks[i]@, "("@) {
                level + 1
            } else if crate::tokenize::spec_equal(files, toks[i]@, ")"@) {
                level - 1
            } else {
                level
            },
            rest,
        )
    }
}

/// The tokens of an argument that runs from `i` to `j`, closed by an
/// end-of-input token where it stops.
pub open spec fn arg_tokens(toks: Seq<Token>, i: int, j: int) -> Seq<TokenV> {
    views(toks.subrange(i, j)).push(eof_at(toks[j]@))
}

/// Reads one macro argument from token `i`: the tokens up to the `)` (or,
/// unless `read_rest`, the `,`) that ends it outside parentheses, as a list
/// of their own, and the position of that token.
#[verifier::rlimit(60)]
pub fn read_macro_arg_one(files: &[File], toks: &[Token], i: usize, read_rest: bool) -> (r: Result<
    (Vec<Token>, usize),
    String,
>)
    requires
        crate::tokenize::well_ended(toks@),
        i < toks.len(),
        toks.len() <= i32::MAX,
        files_known(files@, toks@),
        crate::parse::files_fit(files@),
    ensures
        match arg_end(files@, toks@, i as int, 0, read_rest) {
            ArgEnd::Stop(j) => r matches Ok((v, k)) && k == j && i <= j < toks.len() && views(v@)
                == arg_tokens(toks@, i as int, j),
            ArgEnd::Premature(at) => r matches Err(e) && 0 <= at < toks.len() && e@
                == crate::tokenize::token_error_text(files@, toks@[at]@, "premature end of input"@),
        },
{
    let mut out: Vec<Token> = Vec::new();
    let mut j = i;
    let mut level: i32 = 0;
    loop
        invariant
            crate::tokenize::well_ended(toks@),
            i <= j < toks.len(),
            toks.len() <= i32::MAX,
            0 <= level <= j - i,
            files_known(files@, toks@),
            crate::parse::files_fit(files@),
            arg_end(files@, toks@, i as int, 0, read_rest) == arg_end(
                files@,
                toks@,
                j as int,
                level as int,
                read_rest,
            ),
            views(out@) == views(toks@.subrange(i as int, j as int)),
        ensures
            i <= j < toks.len(),
            arg_end(files@, toks@, i as int, 0, read_rest) == ArgEnd::Stop(j as int),
            views(out@) == views(toks@.subrange(i as int, j as int)),
        decreases toks.len() - j,
    {
        let close = crate::tokenize::equal(files, &toks[j], ")");
        if level == 0 && close {
            break;
        }
        if level == 0 && !read_rest && crate::tokenize::equal(files, &toks[j], ",") {
            break;
        }
        if toks[j].kind == TokenKind::Eof {
            proof {
                crate::tokenize::lemma_file_index_valid(files@, toks@[j as int].file_no);
            }
            return Err(crate::tokenize::error_tok(files, &toks[j], "premature end of input"));
        }
        if crate::tokenize::equal(files, &toks[j], "(") {
            level = level + 1;
        } else if close {
            level = level - 1;
        }
        let ghost before = views(out@);
        out.push(crate::tokenize::clone_token(&toks[j]));
        assert(views(out@) =~= before.push(toks@[j as int]@));
        assert(views(toks@.subrange(i as int, j + 1)) =~= views(toks@.subrange(i as int, j as int)).push(toks@[j as int]@));
        j = j + 1;
    }
    let ghost before = views(out@);
    out.push(new_eof(&toks[j]));
    assert(views(out@) =~= before.push(eof_at(toks@[j as int]@)));
    Ok((out, j))
}

/// A macro argument: the parameter it binds and its tokens.
#[derive(Debug)]
pub struct MacroArg {
    pub name: String,
    pub tok: Vec<Token>,
}



/// The abstract value of a macro argument.
pub struct ArgV {
    pub name: Seq<char>,
    pub toks: Seq<TokenV>,
}

/// What reading a macro call's arguments gives: the arguments and the
/// position of the `)` that ends the call; or the position of the token at
/// fault and the message.
pub enum ArgsOut {
    Args(Seq<ArgV>, int),
    Fail(int, Seq<char>),
}

/// Reading the arguments of parameters `k` on, from token `t`, with the
/// arguments `acc` read so far: each ends at a `,` or `)` outside
/// parentheses; a comma comes before every argument but the first.
pub open spec fn args_from(
    files: Seq<File>,
    toks: Seq<Token>,
    t: int,
    params: Seq<Seq<char>>,
    k: int,
    acc: Seq<ArgV>,
) -> ArgsOut
    decreases params.len() - k,
{
    if k < 0 || k >= params.len() {
        ArgsOut::Args(acc, t)
    } else if k > 0 && !(0 <= t < toks.len() && spec_equal(files, toks[t]@, ","@)) {
        ArgsOut::Fail(t, expected_msg(","@))
    } else {
        let t1 = if k > 0 {
            t + 1
        } else {
            t
        };
        match arg_end(files, toks, t1, 0, false) {
            ArgEnd::Stop(j) => args_from(
                files,
                toks,
                j,
                params,
                k + 1,
                acc.push(ArgV { name: params[k], toks: arg_tokens(toks, t1, j) }),
            ),
            ArgEnd::Premature(at) => ArgsOut::Fail(at, "premature end of input"@),
        }
    }
}

/// The variadic argument `__VA_ARGS__`, after the named ones, which ended
/// at token `t`: empty at a `)`, else the rest up to the closing `)`.
pub open spec fn va_args(
    files: Seq<File>,
    toks: Seq<Token>,
    t: int,
    nparams: int,
    acc: Seq<ArgV>,
) -> ArgsOut {
    if 0 <= t < toks.len() && spec_equal(files, toks[t]@, ")"@) {
        ArgsOut::Args(acc.push(ArgV { name: "__VA_ARGS__"@, toks: seq![eof_at(toks[t]@)] }), t)
    } else if nparams > 0 && !(0 <= t < toks.len() && spec_equal(files, toks[t]@, ","@)) {
        ArgsOut::Fail(t, expected_msg(","@))
    } else {
        let t1 = if nparams > 0 {
            t + 1
        } else {
            t
        };
        match arg_end(files, toks, t1, 0, true) {
            ArgEnd::Stop(j) => ArgsOut::Args(
                acc.push(ArgV { name: "__VA_ARGS__"@, toks: arg_tokens(toks, t1, j) }),
                j,
            ),
            ArgEnd::Premature(at) => ArgsOut::Fail(at, "premature end of input"@),
        }
    }
}

/// Reading the arguments of a call of a macro named at token `i` (with its
/// `(` next): one per parameter, then `__VA_ARGS__` for a variadic macro,
/// then the closing `)`.
pub open spec fn macro_args(
    files: Seq<File>,
    toks: Seq<Token>,
    i: int,
    params: Seq<Seq<char>>,
    variadic: bool,
) -> ArgsOut {
    let named = args_from(files, toks, i + 2, params, 0, Seq::empty());
    let all = match named {
        ArgsOut::Args(acc, t) => if variadic {
            va_args(files, toks, t, params.len() as int, acc)
        } else {
            named
        },
        ArgsOut::Fail(_, _) => named,
    };
    match all {
        ArgsOut::Args(a, t) => if 0 <= t < toks.len() && spec_equal(files, toks[t]@, ")"@) {
            all
        } else {
            ArgsOut::Fail(t, expected_msg(")"@))
        },
        ArgsOut::Fail(_, _) => all,
    }
}

/// The abstract values of macro arguments.
pub open spec fn arg_views(v: Seq<MacroArg>) -> Seq<ArgV> {
    v.map_values(|a: MacroArg| ArgV { name: a.name@, toks: views(a.tok@) })
}

/// The requirements shared by the readers of a token list.
pub open spec fn readable(files: Seq<File>, toks: Seq<Token>) -> bool {
    &&& well_ended(toks)
    &&& toks.len() <= i32::MAX
    &&& files_known(files, toks)
    &&& crate::parse::files_fit(files)
}

#[verifier::rlimit(60)]
fn read_named_args(files: &[File], toks: &[Token], start: usize, params: &[String]) -> (r: Result<
    (Vec<MacroArg>, usize),
    String,
>)
    requires
        readable(files@, toks@),
        start < toks.len(),
    ensures
        match args_from(files@, toks@, start as int, names(params@), 0, Seq::empty()) {
            ArgsOut::Args(a, t) => r matches Ok((v, k)) && arg_views(v@) == a && k == t && t
                < toks.len(),
            ArgsOut::Fail(at, msg) => r matches Err(e) && 0 <= at < toks.len() && e@
                == token_error_text(files@, toks@[at]@, msg),
        },
{
    let mut args: Vec<MacroArg> = Vec::new();
    let mut t = start;
    let mut k: usize = 0;
    assert(arg_views(args@) =~= Seq::<ArgV>::empty());
    while k < params.len()
        invariant
            readable(files@, toks@),
            t < toks.len(),
            k <= params.len(),
            args_from(files@, toks@, start as int, names(params@), 0, Seq::empty()) == args_from(
                files@,
                toks@,
                t as int,
                names(params@),
                k as int,
                arg_views(args@),
            ),
        decreases params.len() - k,
    {
        proof {
            reveal_strlit(",");
            crate::tokenize::lemma_file_index_valid(files@, toks@[t as int].file_no);
        }
        if k > 0 {
            t = match skip(files, toks, t, ",") {
                Ok(j) => j,
                Err(e) => return Err(e),
            };
        }
        let (tok, j) = match read_macro_arg_one(files, toks, t, false) {
            Ok(p) => p,
            Err(e) => return Err(e),
        };
        let name = params[k].clone();
        let ghost before = arg_views(args@);
        args.push(MacroArg { name, tok });
        assert(arg_views(args@) =~= before.push(
            ArgV { name: names(params@)[k as int], toks: arg_tokens(toks@, t as int, j as int) },
        ));
        t = j;
        k += 1;
    }
    Ok((args, t))
}

#[verifier::rlimit(60)]
fn read_va_args(files: &[File], toks: &[Token], t: usize, nparams: usize, args: Vec<MacroArg>) -> (r: Result<
    (Vec<MacroArg>, usize),
    String,
>)
    requires
        readable(files@, toks@),
        t < toks.len(),
    ensures
        match va_args(files@, toks@, t as int, nparams as int, arg_views(args@)) {
            ArgsOut::Args(a, t2) => r matches Ok((v, k)) && arg_views(v@) == a && k == t2 && t2
                < toks.len(),
            ArgsOut::Fail(at, msg) => r matches Err(e) && 0 <= at < toks.len() && e@
                == token_error_text(files@, toks@[at]@, msg),
        },
{
    proof {
        reveal_strlit(",");
        crate::tokenize::lemma_file_index_valid(files@, toks@[t as int].file_no);
    }
    let mut args = args;
    let ghost before = arg_views(args@);
    if equal(files, &toks[t], ")") {
        let mut only: Vec<Token> = Vec::new();
        only.push(new_eof(&toks[t]));
        assert(views(only@) =~= seq![eof_at(toks@[t as int]@)]);
        args.push(MacroArg { name: String::from_str("__VA_ARGS__"), tok: only });
        assert(arg_views(args@) =~= before.push(
            ArgV { name: "__VA_ARGS__"@, toks: seq![eof_at(toks@[t as int]@)] },
        ));
        return Ok((args, t));
    }
    let mut t1 = t;
    if nparams > 0 {
        t1 = match skip(files, toks, t, ",") {
            Ok(j) => j,
            Err(e) => return Err(e),
        };
    }
    let (tok, j) = match read_macro_arg_one(files, toks, t1, true) {
        Ok(p) => p,
        Err(e) => return Err(e),
    };
    args.push(MacroArg { name: String::from_str("__VA_ARGS__"), tok });
    assert(arg_views(args@) =~= before.push(
        ArgV { name: "__VA_ARGS__"@, toks: arg_tokens(toks@, t1 as int, j as int) },
    ));
    Ok((args, j))
}

/// Reads the arguments of a call of the macro named at token `i`, whose `(`
/// comes next: the arguments, bound to the parameter names (and
/// `__VA_ARGS__`), and the position of the closing `)`.
#[verifier::rlimit(60)]
pub fn read_macro_args(
    files: &[File],
    toks: &[Token],
    i: usize,
    params: &[String],
    is_variadic: bool,
) -> (r: Result<(Vec<MacroArg>, usize), String>)
    requires
        readable(files@, toks@),
        i + 2 < toks.len(),
    ensures
        match macro_args(files@, toks@, i as int, names(params@), is_variadic) {
            ArgsOut::Args(a, t) => r matches Ok((v, k)) && arg_views(v@) == a && k == t,
            ArgsOut::Fail(at, msg) => r matches Err(e) && 0 <= at < toks.len() && e@
                == token_error_text(files@, toks@[at]@, msg),
        },
{
    let ghost named = args_from(files@, toks@, i + 2, names(params@), 0, Seq::empty());
    let (args, t) = match read_named_args(files, toks, i + 2, params) {
        Ok(p) => p,
        Err(e) => return Err(e),
    };
    assert(named == ArgsOut::Args(arg_views(args@), t as int));
    let ghost all = if is_variadic {
        va_args(files@, toks@, t as int, params@.len() as int, arg_views(args@))
    } else {
        named
    };
    let (args, t) = if is_variadic {
        match read_va_args(files, toks, t, params.len(), args) {
            Ok(p) => p,
            Err(e) => return Err(e),
        }
    } else {
        (args, t)
    };
    assert(all == ArgsOut::Args(arg_views(args@), t as int));
    proof {
        reveal_strlit(")");
        crate::tokenize::lemma_file_index_valid(files@, toks@[t as int].file_no);
    }
    match skip(files, toks, t, ")") {
        Ok(_) => {},
        Err(e) => return Err(e),
    }
    Ok((args, t))
}

/// The first argument from `k` on bound to `name`.
pub open spec fn arg_named(args: Seq<ArgV>, name: Seq<char>, k: int) -> Option<int>
    decreases args.len() - k,
{
    if k < 0 || k >= args.len() {
        None
    } else if args[k].name == name {
        Some(k)
    } else {
        arg_named(args, name, k + 1)
    }
}

/// The argument bound to the parameter that a token names, if any.
#[verifier::rlimit(60)]
pub fn find_arg(args: &[MacroArg], files: &[File], tok: &Token) -> (r: Option<usize>)
    ensures
        args@.len() == 0 || !has_file(files@, tok.file_no) ==> r.is_none(),
        args@.len() > 0 && has_file(files@, tok.file_no) ==> match arg_named(
            arg_views(args@),
            token_text(files@, tok@),
            0,
        ) {
            Some(k) => r == Some(k as usize),
            None => r.is_none(),
        },
{
    if args.len() == 0 {
        return None;
    }
    let fi = match find_file(files, tok.file_no) {
        Some(f) => f,
        None => return None,
    };
    let name = chars_to_string(&text_slice(&files[fi].contents, tok.loc, tok.len));
    let ghost av = arg_views(args@);
    let mut k: usize = 0;
    while k < args.len()
        invariant
            k <= args.len(),
            args@.len() > 0,
            has_file(files@, tok.file_no),
            av == arg_views(args@),
            name@ == token_text(files@, tok@),
            arg_named(av, name@, 0) == arg_named(av, name@, k as int),
        decreases args.len() - k,
    {
        assert(av[k as int].name == args@[k as int].name@);
        if args[k].name.eq(&name) {
            return Some(k);
        }
        k += 1;
    }
    None
}

/// Whether a definition is the macro `name` with the given kind,
/// parameters and body, neither deleted nor built in.
pub open spec fn defines(
    m: Macro,
    name: Seq<char>,
    objlike: bool,
    params: Seq<Seq<char>>,
    variadic: bool,
    body: Seq<TokenV>,
) -> bool {
    &&& m.name@ == name
    &&& m.is_objlike == objlike
    &&& names(m.params@) == params
    &&& m.is_variadic == variadic
    &&& views(m.body@) == body
    &&& !m.deleted
    &&& m.handler.is_none()
}

/// Whether token `i` starts a function-like definition: the macro name with
/// a `(` right after it.
pub open spec fn function_like(files: Seq<File>, toks: Seq<Token>, i: int) -> bool {
    !toks[i + 1].has_space && spec_equal(files, toks[i + 1]@, "("@)
}

/// What reading a `#define` from the macro name at token `i` does: the
/// error for a name that is no identifier or for a bad parameter list, or
/// the position after the line, with the definition recorded after the
/// table `before` (object-like, or function-like when a `(` follows the
/// name with no space), giving `after`.
pub open spec fn definition_read(
    files: Seq<File>,
    toks: Seq<Token>,
    i: int,
    before: Seq<Macro>,
    after: Seq<Macro>,
    r: Result<usize, String>,
) -> bool {
    &&& (toks[i].kind != TokenKind::Ident ==> (r matches Err(e) && e@ == token_error_text(
            files,
            toks[i]@,
            "macro name must be an identifier"@,
        )) && after == before)
    &&& (toks[i].kind == TokenKind::Ident && !function_like(files, toks, i) ==> ({
            let stop = crate::preprocess::line_stop(toks, i + 1);
            &&& r == Ok::<usize, String>(stop as usize)
            &&& after.len() == before.len() + 1
            &&& after.drop_last() == before
            &&& defines(
                after.last(),
                token_text(files, toks[i]@),
                true,
                Seq::empty(),
                false,
                arg_tokens(toks, i + 1, stop),
            )
        }))
    &&& (toks[i].kind == TokenKind::Ident && function_like(files, toks, i) ==> match params_from(
            files,
            toks,
            i + 2,
            Seq::empty(),
        ) {
            ParamsOut::Params(ps, v, t) => {
                let stop = crate::preprocess::line_stop(toks, t);
                &&& r == Ok::<usize, String>(stop as usize)
                &&& after.len() == before.len() + 1
                &&& after.drop_last() == before
                &&& defines(
                    after.last(),
                    token_text(files, toks[i]@),
                    false,
                    ps,
                    v,
                    arg_tokens(toks, t, stop),
                )
            },
            ParamsOut::Fail(at, msg) => (r matches Err(e) && 0 <= at < toks.len() && e@
                == token_error_text(files, toks[at]@, msg)) && after == before,
        })
}

/// Reads a `#define` from the macro name at token `i` and records the
/// definition: function-like when a `(` follows the name with no space,
/// with the parameters read from it; the body is the rest of the line. The
/// result is the position after the line.
pub fn read_macro_definition(files: &[File], toks: &[Token], i: usize, macros: &mut Macros) -> (r: Result<usize, String>)
    requires
        readable(files@, toks@),
        i < toks.len(),
    ensures
        definition_read(files@, toks@, i as int, old(macros).defs@, final(macros).defs@, r),
        final(macros).counter == old(macros).counter,
{
    proof {
        crate::tokenize::lemma_file_index_valid(files@, toks@[i as int].file_no);
    }
    if toks[i].kind != TokenKind::Ident {
        return Err(error_tok(files, &toks[i], "macro name must be an identifier"));
    }
    let fi = match find_file(files, toks[i].file_no) {
        Some(f) => f,
        None => {
            assert(false);
            0
        },
    };
    let name = chars_to_string(&text_slice(&files[fi].contents, toks[i].loc, toks[i].len));
    if !toks[i + 1].has_space && equal(files, &toks[i + 1], "(") {
        define_function_like(files, toks, i, name, macros)
    } else {
        define_object_like(toks, i, name, macros)
    }
}

fn define_object_like(toks: &[Token], i: usize, name: String, macros: &mut Macros) -> (r: Result<usize, String>)
    requires
        well_ended(toks@),
        i + 1 < toks.len(),
    ensures
        ({
            let stop = crate::preprocess::line_stop(toks@, i + 1);
            &&& r == Ok::<usize, String>(stop as usize)
            &&& final(macros).defs@.len() == old(macros).defs@.len() + 1
            &&& final(macros).defs@.drop_last() == old(macros).defs@
            &&& defines(
                final(macros).defs@.last(),
                name@,
                true,
                Seq::empty(),
                false,
                arg_tokens(toks@, i + 1, stop),
            )
        }),
        final(macros).counter == old(macros).counter,
{
    let (body, rest) = copy_line(toks, i + 1);
    let no_params: Vec<String> = Vec::new();
    assert(names(no_params@) =~= Seq::<Seq<char>>::empty());
    let m = Macro {
        name,
        is_objlike: true,
        params: no_params,
        is_variadic: false,
        body,
        deleted: false,
        handler: None,
    };
    add_macro(macros, m);
    assert(macros.defs@.drop_last() =~= old(macros).defs@);
    Ok(rest)
}

fn define_function_like(files: &[File], toks: &[Token], i: usize, name: String, macros: &mut Macros) -> (r: Result<usize, String>)
    requires
        readable(files@, toks@),
        i + 2 < toks.len(),
    ensures
        match params_from(files@, toks@, i + 2, Seq::empty()) {
            ParamsOut::Params(ps, v, t) => {
                let stop = crate::preprocess::line_stop(toks@, t);
                &&& r == Ok::<usize, String>(stop as usize)
                &&& final(macros).defs@.len() == old(macros).defs@.len() + 1
                &&& final(macros).defs@.drop_last() == old(macros).defs@
                &&& defines(final(macros).defs@.last(), name@, false, ps, v, arg_tokens(toks@, t, stop))
            },
            ParamsOut::Fail(at, msg) => (r matches Err(e) && 0 <= at < toks.len() && e@
                == token_error_text(files@, toks@[at]@, msg)) && final(macros).defs@ == old(
                macros,
            ).defs@,
        },
        final(macros).counter == old(macros).counter,
{
    let (params, is_variadic, t) = match read_macro_params(files, toks, i + 2) {
        Ok(p) => p,
        Err(e) => return Err(e),
    };
    let (body, rest) = copy_line(toks, t);
    let m = Macro {
        name,
        is_objlike: false,
        params,
        is_variadic,
        body,
        deleted: false,
        handler: None,
    };
    add_macro(macros, m);
    assert(macros.defs@.drop_last() =~= old(macros).defs@);
    Ok(rest)
}

} // verus!
