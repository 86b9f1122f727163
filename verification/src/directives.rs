//! The conditional-inclusion directives `#ifdef`, `#ifndef`, `#else` and
//! `#endif`, with the stack of open conditional groups.

use vstd::prelude::*;

use crate::macro_args::{definition_read, files_known, read_macro_definition, readable};
use crate::parse::files_fit;
use crate::preprocess::{
    adds_builtin_file, clean_end, defined_as, find_macro, hash_at, macro_for, next_bol,
    skip_cond_incl, skip_line, skipped_to, spelled_as, token_str_eq, undef_macro, Macro, Macros,
};
use crate::text::chars_to_string;
use crate::tokenize::{
    error_tok, find_file, has_file, text_slice, token_error_text, token_text, File, Input, Token,
    TokenKind,
};

verus! {

/// Which part of a conditional group is being read.
#[derive(Debug, Clone, Copy, PartialEq, Eq, Structural)]
pub enum CondCtx {
    Then,
    Elif,
    Else,
}

/// An open conditional group: the part being read, the index of the `#`
/// that opened it, and whether one of its parts was taken.
#[derive(Debug, Clone, Copy, PartialEq, Eq, Structural)]
pub struct CondIncl {
    pub ctx: CondCtx,
    pub tok: usize,
    pub included: bool,
}

/// What a conditional directive does: reading goes on at a token, it is a
/// stray directive (with the message), or it is no directive of this kind.
pub enum CondStep {
    Next(int),
    Stray(Seq<char>),
    Other,
}

/// Whether the token at `k` names a macro that is defined.
pub open spec fn defined_at(files: Seq<File>, toks: Seq<Token>, k: int, defs: Seq<Macro>) -> bool {
    &&& toks[k].kind == TokenKind::Ident
    &&& has_file(files, toks[k].file_no)
    &&& macro_for(defs, token_text(files, toks[k]@)) is Some
}

/// The directive whose `#` is at `i`, on the stack of open groups `stack`
/// (innermost last): where reading goes on and the new stack. `#ifdef` and
/// `#ifndef` open a group, taken when the macro named next is (is not)
/// defined, and an untaken group is skipped; `#else` switches the innermost
/// group to its last part, skipped when a part was taken; `#endif` closes
/// it. Each goes on at the next line.
pub open spec fn cond_step(
    files: Seq<File>,
    toks: Seq<Token>,
    i: int,
    defs: Seq<Macro>,
    stack: Seq<CondIncl>,
) -> (CondStep, Seq<CondIncl>) {
    let name = toks[i + 1];
    if spelled_as(files, name, "ifdef"@) || spelled_as(files, name, "ifndef"@) {
        let d = defined_at(files, toks, i + 2, defs);
        let take = if spelled_as(files, name, "ifdef"@) {
            d
        } else {
            !d
        };
        let j = next_bol(toks, i + 3);
        (
            CondStep::Next(
                if take {
                    j
                } else {
                    skipped_to(files, toks, j, 0, true)
                },
            ),
            stack.push(CondIncl { ctx: CondCtx::Then, tok: i as usize, included: take }),
        )
    } else if spelled_as(files, name, "else"@) {
        if stack.len() == 0 || stack.last().ctx == CondCtx::Else {
            (CondStep::Stray("stray #else"@), stack)
        } else {
            let top = stack.last();
            let j = next_bol(toks, i + 2);
            (
                CondStep::Next(
                    if top.included {
                        skipped_to(files, toks, j, 0, true)
                    } else {
                        j
                    },
                ),
                stack.drop_last().push(CondIncl { ctx: CondCtx::Else, ..top }),
            )
        }
    } else if spelled_as(files, name, "endif"@) {
        if stack.len() == 0 {
            (CondStep::Stray("stray #endif"@), stack)
        } else {
            (CondStep::Next(next_bol(toks, i + 2)), stack.drop_last())
        }
    } else {
        (CondStep::Other, stack)
    }
}

/// Whether the tokens after the directive at `i` are there to be read: the
/// name after `#ifdef`/`#ifndef` is followed by more tokens, and a line
/// starts after each directive that goes on.
pub open spec fn directive_fits(files: Seq<File>, toks: Seq<Token>, i: int, stack: Seq<CondIncl>) -> bool {
    let name = toks[i + 1];
    &&& (spelled_as(files, name, "ifdef"@) || spelled_as(files, name, "ifndef"@)) ==> i + 3
        < toks.len() && next_bol(toks, i + 3) < toks.len()
    &&& (spelled_as(files, name, "else"@) && stack.len() > 0 && stack.last().ctx != CondCtx::Else)
        ==> next_bol(toks, i + 2) < toks.len()
    &&& (spelled_as(files, name, "endif"@) && stack.len() > 0) ==> next_bol(toks, i + 2)
        < toks.len()
}

proof fn lemma_next_bol_from(toks: Seq<Token>, i: int)
    requires
        0 <= i,
    ensures
        i <= next_bol(toks, i),
    decreases toks.len() - i,
{
    if i < toks.len() && !toks[i].at_bol {
        lemma_next_bol_from(toks, i + 1);
    }
}

/// Runs the conditional directive whose `#` is at `i` (see `cond_step`):
/// `Ok(Some(j))` when reading goes on at `j`, `Ok(None)` when the directive
/// is of another kind, and the "stray" error at the `#` for an `#else` or
/// `#endif` with no group to close.
pub fn conditional_directive(
    files: &[File],
    toks: &[Token],
    i: usize,
    macros: &Macros,
    stack: &mut Vec<CondIncl>,
) -> (r: Result<Option<usize>, String>)
    requires
        hash_at(files@, toks@, i as int),
        i + 1 < toks.len(),
        clean_end(toks@),
        files_known(files@, toks@),
        files_fit(files@),
        directive_fits(files@, toks@, i as int, old(stack)@),
    ensures
        match cond_step(files@, toks@, i as int, macros.defs@, old(stack)@) {
            (CondStep::Next(j), st) => r == Ok::<Option<usize>, String>(Some(j as usize))
                && final(stack)@ == st,
            (CondStep::Stray(msg), st) => r matches Err(e) && e@ == token_error_text(
                files@,
                toks@[i as int]@,
                msg,
            ) && final(stack)@ == st,
            (CondStep::Other, st) => r == Ok::<Option<usize>, String>(None) && final(stack)@ == st,
        },
{
    let name = &toks[i + 1];
    let is_ifdef = token_str_eq(files, name, "ifdef");
    let is_ifndef = token_str_eq(files, name, "ifndef");
    if is_ifdef || is_ifndef {
        let defined = find_macro(files, &toks[i + 2], macros).is_some();
        let take = if is_ifdef {
            defined
        } else {
            !defined
        };
        stack.push(CondIncl { ctx: CondCtx::Then, tok: i, included: take });
        proof {
            lemma_next_bol_from(toks@, i + 3);
        }
        let (j, _) = skip_line(toks, i + 3);
        if take {
            return Ok(Some(j));
        }
        return Ok(Some(skip_cond_incl(files, toks, j)));
    }
    proof {
        assert(has_file(files@, toks@[i as int].file_no));
        crate::tokenize::lemma_file_index_valid(files@, toks@[i as int].file_no);
    }
    if token_str_eq(files, name, "else") {
        let n = stack.len();
        if n == 0 || stack[n - 1].ctx == CondCtx::Else {
            return Err(error_tok(files, &toks[i], "stray #else"));
        }
        let top = stack[n - 1];
        stack.set(n - 1, CondIncl { ctx: CondCtx::Else, tok: top.tok, included: top.included });
        assert(stack@ =~= old(stack)@.drop_last().push(CondIncl { ctx: CondCtx::Else, ..top }));
        proof {
            lemma_next_bol_from(toks@, i + 2);
        }
        let (j, _) = skip_line(toks, i + 2);
        if top.included {
            return Ok(Some(skip_cond_incl(files, toks, j)));
        }
        return Ok(Some(j));
    }
    if token_str_eq(files, name, "endif") {
        if stack.len() == 0 {
            return Err(error_tok(files, &toks[i], "stray #endif"));
        }
        stack.pop();
        proof {
            lemma_next_bol_from(toks@, i + 2);
        }
        let (j, _) = skip_line(toks, i + 2);
        return Ok(Some(j));
    }
    Ok(None)
}

/// Whether the `#undef` at `i` names a macro: the token after `undef` is
/// an identifier.
pub open spec fn undef_names(files: Seq<File>, toks: Seq<Token>, i: int) -> bool {
    spelled_as(files, toks[i + 1], "undef"@) && toks[i + 2].kind == TokenKind::Ident
}

/// Runs the directive `#define` or `#undef` whose `#` is at `i`, or gives
/// `Ok(None)`, changing nothing, for a directive of another kind.
/// `#define` reads the definition after it (see `definition_read`).
/// `#undef` with an identifier after it records that macro as undefined
/// (in a new entry of the table, made with a new built-in file) and goes
/// on at the next line; with anything else it is the error "macro name
/// must be an identifier" at that token.
pub fn macro_directive(input: &mut Input, toks: &[Token], i: usize, macros: &mut Macros) -> (r:
    Result<Option<usize>, String>)
    requires
        hash_at(old(input).files@, toks@, i as int),
        i + 1 < toks.len(),
        clean_end(toks@),
        readable(old(input).files@, toks@),
        old(input).last_file_no < usize::MAX,
        undef_names(old(input).files@, toks@, i as int) ==> i + 3 < toks.len() && next_bol(
            toks@,
            i + 3,
        ) < toks.len(),
    ensures
        final(macros).counter == old(macros).counter,
        ({
            let files = old(input).files@;
            let name = toks@[i + 1];
            if spelled_as(files, name, "define"@) {
                &&& *final(input) == *old(input)
                &&& match r {
                    Ok(Some(j)) => definition_read(
                        files,
                        toks@,
                        i + 2,
                        old(macros).defs@,
                        final(macros).defs@,
                        Ok(j),
                    ),
                    Err(e) => definition_read(
                        files,
                        toks@,
                        i + 2,
                        old(macros).defs@,
                        final(macros).defs@,
                        Err(e),
                    ),
                    Ok(None) => false,
                }
            } else if spelled_as(files, name, "undef"@) {
                if toks@[i + 2].kind != TokenKind::Ident {
                    &&& r matches Err(e) && e@ == token_error_text(
                        files,
                        toks@[i + 2]@,
                        "macro name must be an identifier"@,
                    )
                    &&& *final(input) == *old(input)
                    &&& final(macros).defs@ == old(macros).defs@
                } else {
                    &&& r == Ok::<Option<usize>, String>(Some(next_bol(toks@, i + 3) as usize))
                    &&& adds_builtin_file(*old(input), *final(input), Seq::empty())
                    &&& final(macros).defs@.drop_last() == old(macros).defs@
                    &&& defined_as(
                        final(macros).defs@.last(),
                        token_text(files, toks@[i + 2]@),
                        Seq::empty(),
                        final(input).last_file_no,
                    )
                    &&& final(macros).defs@.last().deleted
                }
            } else {
                &&& r == Ok::<Option<usize>, String>(None)
                &&& *final(input) == *old(input)
                &&& final(macros).defs@ == old(macros).defs@
            }
        }),
{
    let name = &toks[i + 1];
    if token_str_eq(&input.files, name, "define") {
        proof {
            reveal_strlit("define");
            assert(toks@[i + 1].len != toks@.last().len);
        }
        let r = read_macro_definition(&input.files, toks, i + 2, macros);
        return match r {
            Ok(j) => Ok(Some(j)),
            Err(e) => Err(e),
        };
    }
    if token_str_eq(&input.files, name, "undef") {
        proof {
            reveal_strlit("undef");
            assert(toks@[i + 1].len != toks@.last().len);
        }
        let t = &toks[i + 2];
        proof {
            assert(has_file(input.files@, toks@[i + 2].file_no));
            crate::tokenize::lemma_file_index_valid(input.files@, t.file_no);
        }
        if t.kind != TokenKind::Ident {
            return Err(error_tok(&input.files, t, "macro name must be an identifier"));
        }
        let fi = match find_file(&input.files, t.file_no) {
            Some(k) => k,
            None => {
                return Ok(None);
            },
        };
        let text = text_slice(&input.files[fi].contents, t.loc, t.len);
        let word = chars_to_string(&text);
        proof {
            lemma_next_bol_from(toks@, i + 3);
        }
        let (j, _) = skip_line(toks, i + 3);
        undef_macro(input, macros, word.as_str());
        return Ok(Some(j));
    }
    Ok(None)
}

/// Ends the directive whose `#` is at `i` when it is none of those above:
/// `#error` is the error "error" at `error`; a `#` alone on its line is
/// skipped; anything else is the error "invalid preprocessor directive" at
/// the token after the `#`.
pub fn other_directive(files: &[File], toks: &[Token], i: usize) -> (r: Result<usize, String>)
    requires
        hash_at(files@, toks@, i as int),
        i + 1 < toks.len(),
        files_known(files@, toks@),
        files_fit(files@),
    ensures
        spelled_as(files@, toks@[i + 1], "error"@) ==> (r matches Err(e) && e@ == token_error_text(
            files@,
            toks@[i + 1]@,
            "error"@,
        )),
        !spelled_as(files@, toks@[i + 1], "error"@) && toks@[i + 1].at_bol ==> r == Ok::<
            usize,
            String,
        >((i + 1) as usize),
        !spelled_as(files@, toks@[i + 1], "error"@) && !toks@[i + 1].at_bol ==> (r matches Err(e)
            && e@ == token_error_text(files@, toks@[i + 1]@, "invalid preprocessor directive"@)),
{
    let t = &toks[i + 1];
    proof {
        assert(has_file(files@, toks@[i + 1].file_no));
        crate::tokenize::lemma_file_index_valid(files@, t.file_no);
    }
    if token_str_eq(files, t, "error") {
        return Err(error_tok(files, t, "error"));
    }
    if t.at_bol {
        return Ok(i + 1);
    }
    Err(error_tok(files, t, "invalid preprocessor directive"))
}

/// At the end of the input every conditional group must be closed: the
/// error "unterminated conditional directive" at the `#` that opened the
/// innermost open group, if any.
pub fn conditionals_closed(files: &[File], toks: &[Token], stack: &[CondIncl]) -> (r: Result<(), String>)
    requires
        files_known(files@, toks@),
        files_fit(files@),
        forall|k: int| 0 <= k < stack.len() ==> (#[trigger] stack@[k]).tok < toks.len(),
    ensures
        stack.len() == 0 ==> r is Ok,
        stack.len() > 0 ==> (r matches Err(e) && e@ == token_error_text(
            files@,
            toks@[stack@.last().tok as int]@,
            "unterminated conditional directive"@,
        )),
{
    if stack.len() == 0 {
        return Ok(());
    }
    let top = stack[stack.len() - 1];
    let t = &toks[top.tok];
    proof {
        assert(has_file(files@, toks@[top.tok as int].file_no));
        crate::tokenize::lemma_file_index_valid(files@, t.file_no);
    }
    Err(error_tok(files, t, "unterminated conditional directive"))
}

/// `#ifdef NAME` and `#ifndef NAME` open a group that is taken exactly when
/// `NAME` is (for `#ifndef`: is not) an identifier naming a defined macro;
/// a taken group is read from the next line, an untaken one is skipped up
/// to its `#elif`, `#else` or `#endif`. The stack grows by that group.
pub proof fn law_ifdef_takes_defined_names(
    files: Seq<File>,
    toks: Seq<Token>,
    i: int,
    defs: Seq<Macro>,
    stack: Seq<CondIncl>,
)
    requires
        0 <= i,
        i + 2 < toks.len(),
        spelled_as(files, toks[i + 1], "ifdef"@) || spelled_as(files, toks[i + 1], "ifndef"@),
    ensures
        ({
            let t = toks[i + 2];
            let defined = t.kind == TokenKind::Ident && has_file(files, t.file_no) && macro_for(
                defs,
                token_text(files, t@),
            ) is Some;
            let taken = if spelled_as(files, toks[i + 1], "ifndef"@) {
                !defined
            } else {
                defined
            };
            let out = cond_step(files, toks, i, defs, stack);
            let line = next_bol(toks, i + 3);
            &&& out.1.len() == stack.len() + 1
            &&& out.1.drop_last() == stack
            &&& out.1.last().included == taken
            &&& out.1.last().ctx == CondCtx::Then
            &&& out.1.last().tok == i as usize
            &&& taken ==> out.0 == CondStep::Next(line)
            &&& !taken ==> out.0 == CondStep::Next(skipped_to(files, toks, line, 0, true))
        }),
{
    reveal_strlit("ifdef");
    reveal_strlit("ifndef");
    let out = cond_step(files, toks, i, defs, stack);
    assert(out.1.drop_last() =~= stack);
}

/// `#else` on an open group whose last part is not an `#else` switches the
/// group to its `#else` part, keeping whether a part was taken, and reads
/// that part exactly when no part was taken; otherwise it is a stray
/// `#else` and the stack stays.
pub proof fn law_else_reads_untaken_groups(
    files: Seq<File>,
    toks: Seq<Token>,
    i: int,
    defs: Seq<Macro>,
    stack: Seq<CondIncl>,
)
    requires
        0 <= i,
        i + 1 < toks.len(),
        spelled_as(files, toks[i + 1], "else"@),
    ensures
        ({
            let out = cond_step(files, toks, i, defs, stack);
            let line = next_bol(toks, i + 2);
            if stack.len() == 0 || stack.last().ctx == CondCtx::Else {
                out.0 == CondStep::Stray("stray #else"@) && out.1 == stack
            } else {
                &&& out.1.len() == stack.len()
                &&& out.1.drop_last() == stack.drop_last()
                &&& out.1.last().ctx == CondCtx::Else
                &&& out.1.last().included == stack.last().included
                &&& out.1.last().tok == stack.last().tok
                &&& stack.last().included ==> out.0 == CondStep::Next(
                    skipped_to(files, toks, line, 0, true),
                )
                &&& !stack.last().included ==> out.0 == CondStep::Next(line)
            }
        }),
{
    reveal_strlit("ifdef");
    reveal_strlit("ifndef");
    reveal_strlit("else");
    let out = cond_step(files, toks, i, defs, stack);
    if !(stack.len() == 0 || stack.last().ctx == CondCtx::Else) {
        assert(out.1.drop_last() =~= stack.drop_last());
    }
}

/// `#endif` closes the innermost open group and reading goes on at the
/// next line; with no open group it is a stray `#endif`.
pub proof fn law_endif_closes_the_innermost_group(
    files: Seq<File>,
    toks: Seq<Token>,
    i: int,
    defs: Seq<Macro>,
    stack: Seq<CondIncl>,
)
    requires
        0 <= i,
        i + 1 < toks.len(),
        spelled_as(files, toks[i + 1], "endif"@),
    ensures
        ({
            let out = cond_step(files, toks, i, defs, stack);
            if stack.len() == 0 {
                out.0 == CondStep::Stray("stray #endif"@) && out.1 == stack
            } else {
                out.0 == CondStep::Next(next_bol(toks, i + 2)) && out.1 == stack.drop_last()
            }
        }),
{
    reveal_strlit("ifdef");
    reveal_strlit("ifndef");
    reveal_strlit("else");
    reveal_strlit("endif");
    assert("endif"@[0] != "ifdef"@[0]);
    if spelled_as(files, toks[i + 1], "ifdef"@) {
        assert(token_text(files, toks[i + 1]@) == "endif"@);
        assert(token_text(files, toks[i + 1]@) == "ifdef"@);
    }
}

} // verus!
