use vstd::prelude::*;

use crate::text::{chars_eq, chars_to_string, i64_to_decimal, push_char, push_chars, signed_decimal, str_to_chars};
use crate::tokenize::{
    file_index, find_file, has_file, spec_tokenize, text_slice, token_text, tokenize_text,
    views, File, Input, Token, TokenKind, TokenV,
};

verus! {

// ---------------------------------------------------------------------------
// The macro table

/// The built-in macros whose expansion is computed where they are used.
#[derive(Debug, Clone, Copy, PartialEq, Eq, Structural)]
pub enum Builtin {
    File,
    Line,
    Counter,
}

/// A macro definition. An `#undef` is recorded as a definition marked
/// deleted.
#[derive(Debug)]
pub struct Macro {
    pub name: String,
    pub is_objlike: bool,
    pub params: Vec<String>,
    pub is_variadic: bool,
    pub body: Vec<Token>,
    pub deleted: bool,
    pub handler: Option<Builtin>,
}

/// The macro table: every definition in the order it was made, and the
/// value that `__COUNTER__` expands to next.
#[derive(Debug)]
pub struct Macros {
    pub defs: Vec<Macro>,
    pub counter: i32,
}

/// An empty macro table.
pub fn new_macros() -> (r: Macros)
    ensures
        r.defs@.len() == 0,
        r.counter == 0,
{
    Macros { defs: Vec::new(), counter: 0 }
}

/// Sets `__COUNTER__` back to zero.
pub fn reset_counter(macros: &mut Macros)
    ensures
        final(macros).counter == 0,
        final(macros).defs == old(macros).defs,
{
    macros.counter = 0;
}

/// `__COUNTER__` after `reset_counter`: when `cs` are the counter values
/// before successive expansions of `__COUNTER__` (each adds one, wrapping
/// around; `reset_counter` sets the first to 0), over fewer than 2^31
/// expansions the one numbered `k` (from zero) spells `k`.
pub proof fn law_counter_after_reset(cs: Seq<i32>)
    requires
        crate::counted_from_zero_i32(cs),
        cs.len() <= 0x8000_0000,
    ensures
        forall|k: int| 0 <= k < cs.len() ==> #[trigger] cs[k] == k,
        forall|k: int|
            0 <= k < cs.len() ==> signed_decimal(#[trigger] cs[k] as int).push('\n') == signed_decimal(
                k,
            ).push('\n'),
{
    crate::law_unique_names_never_repeat(cs);
}

/// The newest definition made for a name, if any.
pub open spec fn newest_def(defs: Seq<Macro>, name: Seq<char>) -> Option<int>
    decreases defs.len(),
{
    if defs.len() == 0 {
        None
    } else if defs.last().name@ == name {
        Some(defs.len() - 1)
    } else {
        newest_def(defs.drop_last(), name)
    }
}

/// The definition in force for a name: the newest one, unless it is an
/// `#undef`.
pub open spec fn macro_for(defs: Seq<Macro>, name: Seq<char>) -> Option<int> {
    match newest_def(defs, name) {
        Some(i) => if defs[i].deleted {
            None
        } else {
            Some(i)
        },
        None => None,
    }
}

proof fn lemma_newest_def_bounds(defs: Seq<Macro>, name: Seq<char>)
    ensures
        newest_def(defs, name) matches Some(i) ==> 0 <= i < defs.len() && defs[i].name@ == name,
    decreases defs.len(),
{
    if defs.len() > 0 && defs.last().name@ != name {
        lemma_newest_def_bounds(defs.drop_last(), name);
    }
}

/// The position in the table of the definition in force for the macro that
/// an identifier names; `None` for any other token.
pub fn find_macro(files: &[File], tok: &Token, macros: &Macros) -> (r: Option<usize>)
    ensures
        tok.kind != TokenKind::Ident || !has_file(files@, tok.file_no) ==> r.is_none(),
        tok.kind == TokenKind::Ident && has_file(files@, tok.file_no) ==> match macro_for(
            macros.defs@,
            token_text(files@, tok@),
        ) {
            Some(i) => r == Some(i as usize) && i < macros.defs@.len(),
            None => r.is_none(),
        },
{
    if tok.kind != TokenKind::Ident {
        return None;
    }
    let fi = match find_file(files, tok.file_no) {
        Some(i) => i,
        None => return None,
    };
    let name = text_slice(&files[fi].contents, tok.loc, tok.len);
    let defs = &macros.defs;
    let mut k = defs.len();
    assert(defs@.take(k as int) =~= defs@);
    while k > 0
        invariant
            k <= defs.len(),
            tok.kind == TokenKind::Ident,
            has_file(files@, tok.file_no),
            defs@ == macros.defs@,
            name@ == token_text(files@, tok@),
            newest_def(defs@, name@) == newest_def(defs@.take(k as int), name@),
        decreases k,
    {
        assert(defs@.take(k as int).drop_last() =~= defs@.take(k - 1));
        let dn = str_to_chars(defs[k - 1].name.as_str());
        if chars_eq(&dn, &name) {
            if defs[k - 1].deleted {
                return None;
            }
            return Some(k - 1);
        }
        k -= 1;
    }
    None
}

/// Records a definition.
pub fn add_macro(macros: &mut Macros, m: Macro)
    ensures
        final(macros).defs@ == old(macros).defs@.push(m),
        final(macros).counter == old(macros).counter,
{
    macros.defs.push(m);
}

/// Whether a definition is the object-like macro `name` with a body read
/// from a file of its own, numbered `file_no`, holding `text`.
pub open spec fn defined_as(m: Macro, name: Seq<char>, text: Seq<char>, file_no: usize) -> bool {
    &&& m.name@ == name
    &&& m.is_objlike
    &&& m.params@.len() == 0
    &&& !m.is_variadic
    &&& views(m.body@) == spec_tokenize(text, file_no)
    &&& m.handler.is_none()
}

/// What a definition from the command line or the compiler's own list does
/// to the files read: one more file, named `<built-in>`, with a fresh number.
pub open spec fn adds_builtin_file(old_input: Input, new_input: Input, text: Seq<char>) -> bool {
    &&& new_input.last_file_no == old_input.last_file_no + 1
    &&& new_input.files@.len() == old_input.files@.len() + 1
    &&& new_input.files@.take(old_input.files@.len() as int) == old_input.files@
    &&& new_input.files@.last().name@ == "<built-in>"@
    &&& new_input.files@.last().file_no == new_input.last_file_no
    &&& new_input.files@.last().contents@ == text
}

/// Defines the object-like macro `name` as the tokens of `body`.
pub fn define_macro(input: &mut Input, macros: &mut Macros, name: &str, body: &str)
    requires
        old(input).last_file_no < usize::MAX,
        body@.len() <= usize::MAX / 8,
    ensures
        adds_builtin_file(*old(input), *final(input), body@),
        final(macros).defs@.len() == old(macros).defs@.len() + 1,
        final(macros).defs@.drop_last() == old(macros).defs@,
        defined_as(final(macros).defs@.last(), name@, body@, final(input).last_file_no),
        !final(macros).defs@.last().deleted,
        final(macros).counter == old(macros).counter,
{
    let text = str_to_chars(body);
    let toks = tokenize_text(input, "<built-in>", text);
    let m = Macro {
        name: String::from_str(name),
        is_objlike: true,
        params: Vec::new(),
        is_variadic: false,
        body: toks,
        deleted: false,
        handler: None,
    };
    add_macro(macros, m);
    assert(macros.defs@.drop_last() =~= old(macros).defs@);
}

/// Removes the definition of `name`: later lookups find no macro.
pub fn undef_macro(input: &mut Input, macros: &mut Macros, name: &str)
    requires
        old(input).last_file_no < usize::MAX,
    ensures
        adds_builtin_file(*old(input), *final(input), Seq::empty()),
        final(macros).defs@.len() == old(macros).defs@.len() + 1,
        final(macros).defs@.drop_last() == old(macros).defs@,
        defined_as(final(macros).defs@.last(), name@, Seq::empty(), final(input).last_file_no),
        final(macros).defs@.last().deleted,
        final(macros).counter == old(macros).counter,
{
    let toks = tokenize_text(input, "<built-in>", Vec::new());
    let m = Macro {
        name: String::from_str(name),
        is_objlike: true,
        params: Vec::new(),
        is_variadic: false,
        body: toks,
        deleted: true,
        handler: None,
    };
    add_macro(macros, m);
    assert(macros.defs@.drop_last() =~= old(macros).defs@);
}

/// A lookup after a definition finds that definition.
pub proof fn law_find_after_define(defs: Seq<Macro>, m: Macro)
    requires
        !m.deleted,
    ensures
        macro_for(defs.push(m), m.name@) == Some(defs.len() as int),
{
}

/// A lookup after an `#undef` finds no macro.
pub proof fn law_find_after_undef(defs: Seq<Macro>, m: Macro)
    requires
        m.deleted,
    ensures
        macro_for(defs.push(m), m.name@).is_none(),
{
}

/// A definition of one name leaves the lookup of every other name as it was.
pub proof fn law_define_other_name(defs: Seq<Macro>, m: Macro, name: Seq<char>)
    requires
        m.name@ != name,
    ensures
        macro_for(defs.push(m), name) == macro_for(defs, name),
{
    assert(defs.push(m).drop_last() =~= defs);
    lemma_newest_def_bounds(defs, name);
}

// ---------------------------------------------------------------------------
// Tokens made by the preprocessor

/// The characters of `s` with a backslash before each backslash and quote.
pub open spec fn escape_quotes(s: Seq<char>) -> Seq<char>
    decreases s.len(),
{
    if s.len() == 0 {
        Seq::empty()
    } else {
        let c = s.last();
        escape_quotes(s.drop_last()) + if c == '\\' || c == '"' {
            seq!['\\', c]
        } else {
            seq![c]
        }
    }
}

/// The characters of an escaped text with each backslash dropped and the
/// character after it kept as it is.
pub open spec fn unescape(t: Seq<char>) -> Seq<char>
    decreases t.len(),
{
    if t.len() == 0 {
        Seq::empty()
    } else if t[0] == '\\' && t.len() >= 2 {
        seq![t[1]] + unescape(t.skip(2))
    } else {
        seq![t[0]] + unescape(t.skip(1))
    }
}

proof fn lemma_escape_front(c: char, rest: Seq<char>)
    ensures
        escape_quotes(seq![c] + rest) == (if c == '\\' || c == '"' {
            seq!['\\', c]
        } else {
            seq![c]
        }) + escape_quotes(rest),
    decreases rest.len(),
{
    if rest.len() > 0 {
        lemma_escape_front(c, rest.drop_last());
        assert((seq![c] + rest).drop_last() =~= seq![c] + rest.drop_last());
        assert((seq![c] + rest).last() == rest.last());
        let e = if c == '\\' || c == '"' {
            seq!['\\', c]
        } else {
            seq![c]
        };
        let l = rest.last();
        let el = if l == '\\' || l == '"' {
            seq!['\\', l]
        } else {
            seq![l]
        };
        let whole = seq![c] + rest;
        assert(whole.len() > 0);
        assert(escape_quotes(whole) == escape_quotes(whole.drop_last()) + el);
        assert(escape_quotes(rest) == escape_quotes(rest.drop_last()) + el);
        assert(e + escape_quotes(rest.drop_last()) + el =~= e + (escape_quotes(rest.drop_last()) + el));
    } else {
        let e = if c == '\\' || c == '"' {
            seq!['\\', c]
        } else {
            seq![c]
        };
        assert(escape_quotes(seq![c]) == escape_quotes(seq![c].drop_last()) + e);
        assert(escape_quotes(Seq::<char>::empty()) == Seq::<char>::empty());
        assert(e + Seq::<char>::empty() =~= e);
        assert(seq![c] + rest =~= seq![c]);
        assert(seq![c].drop_last() =~= Seq::<char>::empty());
    }
}

/// Escaping is undone by dropping the backslashes it put in: the quoted
/// text reads back as `s`; and no quote of the escaped text stands without
/// a backslash before it, so the text cannot end the literal early.
pub proof fn law_escaped_text_reads_back(s: Seq<char>)
    ensures
        unescape(escape_quotes(s)) == s,
        forall|i: int|
            0 <= i < escape_quotes(s).len() && #[trigger] escape_quotes(s)[i] == '"' ==> i > 0
                && escape_quotes(s)[i - 1] == '\\',
    decreases s.len(),
{
    if s.len() > 0 {
        let c = s[0];
        let rest = s.skip(1);
        assert(s =~= seq![c] + rest);
        lemma_escape_front(c, rest);
        law_escaped_text_reads_back(rest);
        let er = escape_quotes(rest);
        let t = escape_quotes(s);
        if c == '\\' || c == '"' {
            assert(t =~= seq!['\\', c] + er);
            assert(t.skip(2) =~= er);
            assert forall|i: int| 0 <= i < t.len() && #[trigger] t[i] == '"' implies i > 0 && t[i - 1] == '\\' by {
                if i >= 2 {
                    assert(t[i] == er[i - 2]);
                    if i - 2 > 0 {
                        assert(t[i - 1] == er[i - 3]);
                    }
                }
            }
        } else {
            assert(t =~= seq![c] + er);
            assert(t.skip(1) =~= er);
            assert forall|i: int| 0 <= i < t.len() && #[trigger] t[i] == '"' implies i > 0 && t[i - 1] == '\\' by {
                if i >= 1 {
                    assert(t[i] == er[i - 1]);
                    if i - 1 > 0 {
                        assert(t[i - 1] == er[i - 2]);
                    }
                }
            }
        }
    }
}

/// The C string literal that spells `s`.
pub open spec fn quoted(s: Seq<char>) -> Seq<char> {
    seq!['"'] + escape_quotes(s) + seq!['"']
}

proof fn lemma_escape_len(s: Seq<char>)
    ensures
        escape_quotes(s).len() <= 2 * s.len(),
    decreases s.len(),
{
    if s.len() > 0 {
        lemma_escape_len(s.drop_last());
    }
}

/// The string literal that spells `s`: quotes around it, and a backslash
/// before each backslash and quote in it.
pub fn quote_string(s: &[char]) -> (r: Vec<char>)
    requires
        s.len() <= usize::MAX / 4,
    ensures
        r@ == quoted(s@),
{
    let mut buf: Vec<char> = Vec::new();
    buf.push('"');
    let mut i: usize = 0;
    while i < s.len()
        invariant
            i <= s.len(),
            buf@ == seq!['"'] + escape_quotes(s@.take(i as int)),
        decreases s.len() - i,
    {
        let c = s[i];
        assert(s@.take(i + 1).drop_last() =~= s@.take(i as int));
        if c == '\\' || c == '"' {
            buf.push('\\');
        }
        buf.push(c);
        i += 1;
        assert(buf@ =~= seq!['"'] + escape_quotes(s@.take(i as int)));
    }
    buf.push('"');
    assert(s@.take(s.len() as int) =~= s@);
    assert(buf@ =~= quoted(s@));
    buf
}

/// What reading a made-up source `text` under the name of the file of
/// `tmpl` does: the files read get one more, with a fresh number, and the
/// result is its tokens.
pub open spec fn reads_text_as(
    old_input: Input,
    new_input: Input,
    r: Seq<Token>,
    tmpl: Token,
    text: Seq<char>,
) -> bool {
    &&& new_input.last_file_no == old_input.last_file_no + 1
    &&& new_input.files@.len() == old_input.files@.len() + 1
    &&& new_input.files@.take(old_input.files@.len() as int) == old_input.files@
    &&& new_input.files@.last().name@ == old_input.files@[file_index(
        old_input.files@,
        tmpl.file_no,
    )].name@
    &&& new_input.files@.last().file_no == new_input.last_file_no
    &&& new_input.files@.last().contents@ == text
    &&& views(r) == spec_tokenize(text, new_input.last_file_no)
}

/// `reads_text_as` without the tokens: what it does to the files read.
pub open spec fn adds_text_file(old_input: Input, new_input: Input, tmpl: Token, text: Seq<char>) -> bool {
    &&& new_input.last_file_no == old_input.last_file_no + 1
    &&& new_input.files@.len() == old_input.files@.len() + 1
    &&& new_input.files@.take(old_input.files@.len() as int) == old_input.files@
    &&& new_input.files@.last().name@ == old_input.files@[file_index(
        old_input.files@,
        tmpl.file_no,
    )].name@
    &&& new_input.files@.last().file_no == new_input.last_file_no
    &&& new_input.files@.last().contents@ == text
}

fn read_text_as(input: &mut Input, text: Vec<char>, tmpl: &Token) -> (r: Vec<Token>)
    requires
        old(input).last_file_no < usize::MAX,
        has_file(old(input).files@, tmpl.file_no),
        text@.len() <= usize::MAX / 8,
    ensures
        reads_text_as(*old(input), *final(input), r@, *tmpl, text@),
{
    let fi = match find_file(&input.files, tmpl.file_no) {
        Some(i) => i,
        None => {
            assert(false);
            0
        },
    };
    let name = input.files[fi].name.clone();
    tokenize_text(input, name.as_str(), text)
}

/// The string literal token that spells `s`, as if written where `tmpl`
/// stands.
pub fn new_str_token(input: &mut Input, s: &[char], tmpl: &Token) -> (r: Vec<Token>)
    requires
        old(input).last_file_no < usize::MAX,
        has_file(old(input).files@, tmpl.file_no),
        s.len() <= usize::MAX / 32,
    ensures
        reads_text_as(*old(input), *final(input), r@, *tmpl, quoted(s@)),
{
    proof {
        lemma_escape_len(s@);
    }
    let q = quote_string(s);
    read_text_as(input, q, tmpl)
}

proof fn lemma_i64_decimal_len(v: i64)
    ensures
        signed_decimal(v as int).len() <= 21,
{
    reveal_with_fuel(crate::tokenize::pow10, 21);
    let m: nat = if v < 0 {
        (-(v as int)) as nat
    } else {
        v as nat
    };
    assert(m < crate::tokenize::pow10(20));
    crate::tokenize::lemma_decimal_len(m, 20);
}

/// The number token for `val`, as if written where `tmpl` stands.
pub fn new_num_token(input: &mut Input, val: i64, tmpl: &Token) -> (r: Vec<Token>)
    requires
        old(input).last_file_no < usize::MAX,
        has_file(old(input).files@, tmpl.file_no),
    ensures
        reads_text_as(*old(input), *final(input), r@, *tmpl, signed_decimal(val as int).push('\n')),
{
    let mut buf = i64_to_decimal(val);
    proof {
        lemma_i64_decimal_len(val);
    }
    buf.push('\n');
    read_text_as(input, buf, tmpl)
}

// ---------------------------------------------------------------------------
// Built-in macros

/// What a built-in macro expands to where `tmpl` stands: `__FILE__` the
/// name of the token's file as a string literal, `__LINE__` its line
/// number, `__COUNTER__` the counter, which then goes up by one.
pub fn expand_builtin(input: &mut Input, macros: &mut Macros, b: Builtin, tmpl: &Token) -> (r: Vec<
    Token,
>)
    requires
        old(input).last_file_no < usize::MAX,
        has_file(old(input).files@, tmpl.file_no),
        old(input).files@[file_index(old(input).files@, tmpl.file_no)].name@.len() <= usize::MAX
            / 32,
        tmpl.line_no <= i64::MAX,
    ensures
        final(macros).defs == old(macros).defs,
        b != Builtin::Counter ==> final(macros).counter == old(macros).counter,
        b == Builtin::Counter ==> final(macros).counter == old(macros).counter.wrapping_add(1),
        reads_text_as(
            *old(input),
            *final(input),
            r@,
            *tmpl,
            match b {
                Builtin::File => quoted(
                    old(input).files@[file_index(old(input).files@, tmpl.file_no)].name@,
                ),
                Builtin::Line => signed_decimal(tmpl.line_no as int).push('\n'),
                Builtin::Counter => signed_decimal(old(macros).counter as int).push('\n'),
            },
        ),
{
    match b {
        Builtin::File => {
            let fi = match find_file(&input.files, tmpl.file_no) {
                Some(i) => i,
                None => {
                    assert(false);
                    0
                },
            };
            let name = str_to_chars(input.files[fi].name.as_str());
            new_str_token(input, &name, tmpl)
        },
        Builtin::Line => {
            let line = tmpl.line_no as i64;
            new_num_token(input, line, tmpl)
        },
        Builtin::Counter => {
            let n = macros.counter;
            macros.counter = macros.counter.wrapping_add(1);
            new_num_token(input, n as i64, tmpl)
        },
    }
}

/// Records a built-in macro under `name`.
pub fn add_builtin(input: &mut Input, macros: &mut Macros, name: &str, handler: Builtin)
    requires
        old(input).last_file_no < usize::MAX,
    ensures
        adds_builtin_file(*old(input), *final(input), Seq::empty()),
        final(macros).defs@.len() == old(macros).defs@.len() + 1,
        final(macros).defs@.drop_last() == old(macros).defs@,
        final(macros).defs@.last().name@ == name@,
        final(macros).defs@.last().handler == Some(handler),
        !final(macros).defs@.last().deleted,
        final(macros).counter == old(macros).counter,
{
    let toks = tokenize_text(input, "<built-in>", Vec::new());
    let m = Macro {
        name: String::from_str(name),
        is_objlike: true,
        params: Vec::new(),
        is_variadic: false,
        body: toks,
        deleted: false,
        handler: Some(handler),
    };
    add_macro(macros, m);
    assert(macros.defs@.drop_last() =~= old(macros).defs@);
}

// ---------------------------------------------------------------------------
// Spelling tokens

/// Whether a name is one of C's keywords.
pub open spec fn spec_is_keyword(name: Seq<char>) -> bool {
    name == "return"@ || name == "if"@ || name == "else"@ || name == "for"@ || name == "while"@
        || name == "int"@ || name == "sizeof"@ || name == "char"@ || name == "short"@ || name
        == "struct"@ || name == "union"@ || name == "long"@ || name == "void"@ || name
        == "typedef"@ || name == "_Bool"@ || name == "enum"@ || name == "static"@ || name
        == "goto"@ || name == "break"@ || name == "continue"@ || name == "switch"@ || name
        == "case"@ || name == "default"@ || name == "extern"@ || name == "_Alignof"@ || name
        == "_Alignas"@ || name == "do"@ || name == "signed"@ || name == "unsigned"@ || name
        == "const"@ || name == "volatile"@ || name == "auto"@ || name == "register"@ || name
        == "restrict"@ || name == "__restrict"@ || name == "__restrict__"@ || name
        == "_Noreturn"@ || name == "float"@ || name == "double"@
}

fn spelled(name: &[char], word: &str) -> (r: bool)
    ensures
        r == (name@ == word@),
{
    let w = str_to_chars(word);
    chars_eq(name, &w)
}

/// Whether a name is one of C's keywords.
pub fn is_keyword(name: &[char]) -> (r: bool)
    ensures
        r == spec_is_keyword(name@),
{
    spelled(name, "return") || spelled(name, "if") || spelled(name, "else") || spelled(name, "for")
        || spelled(name, "while") || spelled(name, "int") || spelled(name, "sizeof") || spelled(
        name,
        "char",
    ) || spelled(name, "short") || spelled(name, "struct") || spelled(name, "union") || spelled(
        name,
        "long",
    ) || spelled(name, "void") || spelled(name, "typedef") || spelled(name, "_Bool") || spelled(
        name,
        "enum",
    ) || spelled(name, "static") || spelled(name, "goto") || spelled(name, "break") || spelled(
        name,
        "continue",
    ) || spelled(name, "switch") || spelled(name, "case") || spelled(name, "default") || spelled(
        name,
        "extern",
    ) || spelled(name, "_Alignof") || spelled(name, "_Alignas") || spelled(name, "do") || spelled(
        name,
        "signed",
    ) || spelled(name, "unsigned") || spelled(name, "const") || spelled(name, "volatile")
        || spelled(name, "auto") || spelled(name, "register") || spelled(name, "restrict")
        || spelled(name, "__restrict") || spelled(name, "__restrict__") || spelled(
        name,
        "_Noreturn",
    ) || spelled(name, "float") || spelled(name, "double")
}

/// The token an optional reference points to.
pub open spec fn deref_opt(o: Option<&Token>) -> Option<Token> {
    match o {
        Some(t) => Some(*t),
        None => None,
    }
}

/// Whether token `t` is where a run of tokens stops: at the end of input,
/// or at the token that `end` stands for (same position in the same file).
pub open spec fn stops_at(t: Token, end: Option<Token>) -> bool {
    t.kind == TokenKind::Eof || (end matches Some(e) && t.loc == e.loc && t.file_no == e.file_no)
}

/// Whether the run from `i` reaches its stop, every token before it in a
/// known file.
pub open spec fn joinable(files: Seq<File>, toks: Seq<Token>, i: int, end: Option<Token>) -> bool
    decreases toks.len() - i,
{
    if i < 0 || i >= toks.len() {
        false
    } else if stops_at(toks[i], end) {
        true
    } else {
        has_file(files, toks[i].file_no) && joinable(files, toks, i + 1, end)
    }
}

/// The spelling of the run of tokens from `i` to its stop: each token's
/// text, with one space before every token but the first (by position)
/// that has space before it.
pub open spec fn joined(
    files: Seq<File>,
    toks: Seq<Token>,
    i: int,
    first_loc: usize,
    end: Option<Token>,
) -> Seq<char>
    decreases toks.len() - i,
{
    if i < 0 || i >= toks.len() || stops_at(toks[i], end) {
        Seq::empty()
    } else {
        let t = toks[i];
        (if t.has_space && t.loc != first_loc {
            seq![' ']
        } else {
            Seq::empty()
        }) + token_text(files, t@) + joined(files, toks, i + 1, first_loc, end)
    }
}

proof fn lemma_joined_step(
    files: Seq<File>,
    toks: Seq<Token>,
    start: int,
    i: int,
    first_loc: usize,
    end: Option<Token>,
    acc: Seq<char>,
)
    requires
        0 <= start <= i < toks.len(),
        !stops_at(toks[i], end),
        joined(files, toks, start, first_loc, end) == acc + joined(files, toks, i, first_loc, end),
    ensures
        joined(files, toks, start, first_loc, end) == (acc + (if toks[i].has_space && toks[i].loc
            != first_loc {
            seq![' ']
        } else {
            Seq::<char>::empty()
        }) + token_text(files, toks[i]@)) + joined(files, toks, i + 1, first_loc, end),
{
    assert(acc + ((if toks[i].has_space && toks[i].loc != first_loc {
        seq![' ']
    } else {
        Seq::<char>::empty()
    }) + token_text(files, toks[i]@) + joined(files, toks, i + 1, first_loc, end)) =~= (acc + (
    if toks[i].has_space && toks[i].loc != first_loc {
        seq![' ']
    } else {
        Seq::<char>::empty()
    }) + token_text(files, toks[i]@)) + joined(files, toks, i + 1, first_loc, end));
}

/// The spelling of the tokens from `start` up to the end of input or to the
/// token that `end` stands for.
#[verifier::rlimit(40)]
pub fn join_tokens(files: &[File], toks: &[Token], start: usize, end: Option<&Token>) -> (r: String)
    requires
        joinable(files@, toks@, start as int, deref_opt(end)),
    ensures
        r@ == joined(files@, toks@, start as int, toks@[start as int].loc, deref_opt(end)),
{
    let ghost e = deref_opt(end);
    let first_loc = toks[start].loc;
    let mut buf = String::new();
    let mut i = start;
    while i < toks.len()
        invariant
            start <= i,
            joinable(files@, toks@, i as int, e),
            e == deref_opt(end),
            first_loc == toks@[start as int].loc,
            joined(files@, toks@, start as int, first_loc, e) == buf@ + joined(
                files@,
                toks@,
                i as int,
                first_loc,
                e,
            ),
        decreases toks.len() - i,
    {
        let t = &toks[i];
        let stop = t.kind == TokenKind::Eof || match end {
            Some(x) => t.loc == x.loc && t.file_no == x.file_no,
            None => false,
        };
        if stop {
            assert(buf@ + joined(files@, toks@, i as int, first_loc, e) =~= buf@);
            return buf;
        }
        proof {
            lemma_joined_step(files@, toks@, start as int, i as int, first_loc, e, buf@);
        }
        if t.has_space && t.loc != first_loc {
            push_char(&mut buf, ' ');
        }
        let fi = match find_file(files, t.file_no) {
            Some(k) => k,
            None => {
                assert(false);
                0
            },
        };
        let text = text_slice(&files[fi].contents, t.loc, t.len);
        push_chars(&mut buf, &text);
        i += 1;
    }
    buf
}

/// The string literal spelling the tokens of a macro argument (`#arg`), as
/// if written where the `#` stands.
pub fn stringize(input: &mut Input, hash: &Token, arg: &[Token], start: usize) -> (r: Vec<Token>)
    requires
        old(input).last_file_no < usize::MAX,
        has_file(old(input).files@, hash.file_no),
        joinable(old(input).files@, arg@, start as int, None),
        joined(old(input).files@, arg@, start as int, arg@[start as int].loc, None).len()
            <= usize::MAX / 32,
    ensures
        reads_text_as(
            *old(input),
            *final(input),
            r@,
            *hash,
            quoted(joined(old(input).files@, arg@, start as int, arg@[start as int].loc, None)),
        ),
{
    let s = join_tokens(&input.files, arg, start, None);
    let cs = str_to_chars(s.as_str());
    new_str_token(input, &cs, hash)
}

/// The message for a `##` whose result is no single token.
pub open spec fn paste_error_msg(text: Seq<char>) -> Seq<char> {
    "pasting forms '"@ + text + "', an invalid token"@
}

/// Whether a token list is more than one token and its end.
pub open spec fn more_than_one_token(ts: Seq<TokenV>) -> bool {
    ts.len() > 1 && ts[1].kind != TokenKind::Eof
}

/// The token formed by pasting two tokens together (`lhs ## rhs`): their
/// texts are joined and read as source, as if written where `lhs` stands.
/// More than one token out is the error "pasting forms '...', an invalid
/// token" at `lhs`.
pub fn paste(input: &mut Input, lhs: &Token, rhs: &Token) -> (r: Result<Vec<Token>, String>)
    requires
        old(input).last_file_no < usize::MAX,
        has_file(old(input).files@, lhs.file_no),
        has_file(old(input).files@, rhs.file_no),
        crate::parse::files_fit(old(input).files@),
        lhs.len <= usize::MAX / 64,
        rhs.len <= usize::MAX / 64,
    ensures
        ({
            let text = token_text(old(input).files@, lhs@) + token_text(old(input).files@, rhs@);
            let ts = spec_tokenize(text, final(input).last_file_no);
            &&& adds_text_file(*old(input), *final(input), *lhs, text)
            &&& more_than_one_token(ts) ==> (r matches Err(e) && e@
                == crate::tokenize::token_error_text(
                old(input).files@,
                lhs@,
                paste_error_msg(text),
            ))
            &&& !more_than_one_token(ts) ==> (r matches Ok(v) && views(v@) == ts)
        }),
{
    let text = pasted_text(&input.files, lhs, rhs);
    let msg = paste_message(&text);
    proof {
        crate::tokenize::lemma_file_index_valid(input.files@, lhs.file_no);
    }
    let err = crate::tokenize::error_tok(&input.files, lhs, msg.as_str());
    let toks = read_text_as(input, text, lhs);
    if toks.len() > 1 && toks[1].kind != TokenKind::Eof {
        return Err(err);
    }
    Ok(toks)
}

fn paste_message(text: &[char]) -> (r: String)
    ensures
        r@ == paste_error_msg(text@),
{
    let mut msg = String::from_str("pasting forms '");
    push_chars(&mut msg, text);
    msg.append("', an invalid token");
    msg
}

proof fn lemma_text_at_len(cs: Seq<char>, loc: int, len: int)
    requires
        0 <= loc,
        0 <= len,
    ensures
        crate::tokenize::text_at(cs, loc, len).len() <= len,
{
}

fn pasted_text(files: &[File], lhs: &Token, rhs: &Token) -> (r: Vec<char>)
    requires
        has_file(files@, lhs.file_no),
        has_file(files@, rhs.file_no),
        lhs.len <= usize::MAX / 64,
        rhs.len <= usize::MAX / 64,
    ensures
        r@ == token_text(files@, lhs@) + token_text(files@, rhs@),
        r@.len() <= usize::MAX / 32,
{
    let lf = match find_file(files, lhs.file_no) {
        Some(i) => i,
        None => {
            assert(false);
            0
        },
    };
    let rf = match find_file(files, rhs.file_no) {
        Some(i) => i,
        None => {
            assert(false);
            0
        },
    };
    let buf = text_slice(&files[lf].contents, lhs.loc, lhs.len);
    let rtext = text_slice(&files[rf].contents, rhs.loc, rhs.len);
    proof {
        lemma_text_at_len(files@[lf as int].contents@, lhs.loc as int, lhs.len as int);
        lemma_text_at_len(files@[rf as int].contents@, rhs.loc as int, rhs.len as int);
    }
    append_chars(buf, &rtext)
}

fn append_chars(a: Vec<char>, b: &[char]) -> (r: Vec<char>)
    ensures
        r@ == a@ + b@,
{
    let mut buf = a;
    let mut k: usize = 0;
    while k < b.len()
        invariant
            k <= b.len(),
            buf@ == a@ + b@.take(k as int),
        decreases b.len() - k,
    {
        buf.push(b[k]);
        k += 1;
        assert(buf@ =~= a@ + b@.take(k as int));
    }
    assert(b@.take(b.len() as int) =~= b@);
    buf
}

// ---------------------------------------------------------------------------
// Directives

/// Whether a token is spelled `s` (in its file, with as many characters).
pub open spec fn spelled_as(files: Seq<File>, t: Token, s: Seq<char>) -> bool {
    has_file(files, t.file_no) && t.len == s.len() && token_text(files, t@) == s
}

/// Whether a token is spelled `s`.
pub fn token_str_eq(files: &[File], tok: &Token, s: &str) -> (r: bool)
    ensures
        r == spelled_as(files@, *tok, s@),
{
    let fi = match find_file(files, tok.file_no) {
        Some(i) => i,
        None => return false,
    };
    let sc = str_to_chars(s);
    if tok.len != sc.len() {
        return false;
    }
    let text = text_slice(&files[fi].contents, tok.loc, tok.len);
    chars_eq(&text, &sc)
}

/// Whether token `i` is a `#` at the start of a line.
pub open spec fn hash_at(files: Seq<File>, toks: Seq<Token>, i: int) -> bool {
    0 <= i < toks.len() && toks[i].at_bol && crate::tokenize::spec_equal(files, toks[i]@, "#"@)
}

/// Whether a token is a `#` at the start of a line.
pub fn is_hash(files: &[File], tok: &Token) -> (r: bool)
    ensures
        r == (tok.at_bol && crate::tokenize::spec_equal(files@, tok@, "#"@)),
{
    tok.at_bol && crate::tokenize::equal(files, tok, "#")
}

/// Whether token `i` starts `#if`, `#ifdef` or `#ifndef`.
pub open spec fn opens_cond(files: Seq<File>, toks: Seq<Token>, i: int) -> bool {
    hash_at(files, toks, i) && i + 1 < toks.len() && (spelled_as(files, toks[i + 1], "if"@)
        || spelled_as(files, toks[i + 1], "ifdef"@) || spelled_as(files, toks[i + 1], "ifndef"@))
}

/// Whether token `i` starts `#endif`.
pub open spec fn ends_cond(files: Seq<File>, toks: Seq<Token>, i: int) -> bool {
    hash_at(files, toks, i) && i + 1 < toks.len() && spelled_as(files, toks[i + 1], "endif"@)
}

/// Whether token `i` starts `#elif`, `#else` or `#endif`.
pub open spec fn branches_cond(files: Seq<File>, toks: Seq<Token>, i: int) -> bool {
    hash_at(files, toks, i) && i + 1 < toks.len() && (spelled_as(files, toks[i + 1], "elif"@)
        || spelled_as(files, toks[i + 1], "else"@) || spelled_as(files, toks[i + 1], "endif"@))
}

/// Where skipping a group from token `i` stops, `depth` conditionals deep:
/// nested `#if`s are skipped whole; at depth zero a `#endif` ends the skip
/// after it, and, when `branch` is set, a `#elif`, `#else` or `#endif` ends
/// it before it. The end of input ends it too.
pub open spec fn skipped_to(
    files: Seq<File>,
    toks: Seq<Token>,
    i: int,
    depth: nat,
    branch: bool,
) -> int
    decreases toks.len() - i,
{
    if i < 0 || i >= toks.len() || toks[i].kind == TokenKind::Eof {
        i
    } else if opens_cond(files, toks, i) {
        skipped_to(files, toks, i + 2, depth + 1, branch)
    } else if depth == 0 && branch && branches_cond(files, toks, i) {
        i
    } else if ends_cond(files, toks, i) {
        if depth == 0 {
            i + 2
        } else {
            skipped_to(files, toks, i + 2, (depth - 1) as nat, branch)
        }
    } else {
        skipped_to(files, toks, i + 1, depth, branch)
    }
}

/// Whether a token list ends in a plain end-of-input token (one that is no
/// error report).
pub open spec fn clean_end(toks: Seq<Token>) -> bool {
    crate::tokenize::well_ended(toks) && toks.last().len == 0
}

fn classify(files: &[File], toks: &[Token], i: usize) -> (r: (bool, bool, bool))
    requires
        i < toks.len(),
    ensures
        r.0 == opens_cond(files@, toks@, i as int),
        r.1 == branches_cond(files@, toks@, i as int),
        r.2 == ends_cond(files@, toks@, i as int),
{
    if !is_hash(files, &toks[i]) || i + 1 >= toks.len() {
        return (false, false, false);
    }
    let n = &toks[i + 1];
    let opens = token_str_eq(files, n, "if") || token_str_eq(files, n, "ifdef") || token_str_eq(
        files,
        n,
        "ifndef",
    );
    let ends = token_str_eq(files, n, "endif");
    let branches = token_str_eq(files, n, "elif") || token_str_eq(files, n, "else") || ends;
    (opens, branches, ends)
}

fn skip_group(files: &[File], toks: &[Token], start: usize, branch: bool) -> (r: usize)
    requires
        clean_end(toks@),
        start < toks.len(),
    ensures
        r == skipped_to(files@, toks@, start as int, 0, branch),
        r < toks.len(),
{
    let mut i = start;
    let mut depth: usize = 0;
    while toks[i].kind != TokenKind::Eof
        invariant
            clean_end(toks@),
            i < toks.len(),
            depth <= i,
            skipped_to(files@, toks@, start as int, 0, branch) == skipped_to(
                files@,
                toks@,
                i as int,
                depth as nat,
                branch,
            ),
        decreases toks.len() - i,
    {
        let (opens, branches, ends) = classify(files, toks, i);
        proof {
            reveal_strlit("if");
            reveal_strlit("ifdef");
            reveal_strlit("ifndef");
            reveal_strlit("endif");
            if opens || ends {
                assert(toks@[i + 1].len >= 2);
                assert(i + 1 != toks.len() - 1);
            }
        }
        if opens {
            i = i + 2;
            depth = depth + 1;
        } else if depth == 0 && branch && branches {
            return i;
        } else if ends {
            if depth == 0 {
                return i + 2;
            }
            i = i + 2;
            depth = depth - 1;
        } else {
            i = i + 1;
        }
    }
    i
}

/// Skips to just after the `#endif` that closes the group being skipped,
/// nested conditionals included, or to the end of input.
pub fn skip_cond_incl2(files: &[File], toks: &[Token], i: usize) -> (r: usize)
    requires
        clean_end(toks@),
        i < toks.len(),
    ensures
        r == skipped_to(files@, toks@, i as int, 0, false),
        r < toks.len(),
{
    skip_group(files, toks, i, false)
}

/// Skips a group whose condition is false: to the `#elif`, `#else` or
/// `#endif` that belongs to it (nested conditionals are skipped whole), or
/// to the end of input.
pub fn skip_cond_incl(files: &[File], toks: &[Token], i: usize) -> (r: usize)
    requires
        clean_end(toks@),
        i < toks.len(),
    ensures
        r == skipped_to(files@, toks@, i as int, 0, true),
        r < toks.len(),
{
    skip_group(files, toks, i, true)
}

/// The first token from `i` on that starts a line (or the end of the list).
pub open spec fn next_bol(toks: Seq<Token>, i: int) -> int
    decreases toks.len() - i,
{
    if i < 0 || i >= toks.len() || toks[i].at_bol {
        i
    } else {
        next_bol(toks, i + 1)
    }
}

proof fn lemma_next_bol_ge(toks: Seq<Token>, i: int)
    requires
        0 <= i,
    ensures
        i <= next_bol(toks, i),
    decreases toks.len() - i,
{
    if i < toks.len() && !toks[i].at_bol {
        lemma_next_bol_ge(toks, i + 1);
    }
}

/// Skips what is left of a directive's line: the position of the next token
/// that starts a line, and whether tokens were skipped (they draw the
/// warning "extra token").
pub fn skip_line(toks: &[Token], i: usize) -> (r: (usize, bool))
    requires
        i <= next_bol(toks@, i as int) < toks.len(),
    ensures
        r.0 == next_bol(toks@, i as int),
        r.1 == !toks@[i as int].at_bol,
{
    if toks[i].at_bol {
        return (i, false);
    }
    let mut j = i;
    while !toks[j].at_bol
        invariant
            i <= j <= next_bol(toks@, i as int) < toks.len(),
            next_bol(toks@, j as int) == next_bol(toks@, i as int),
        decreases toks.len() - j,
    {
        proof {
            lemma_next_bol_ge(toks@, j + 1);
        }
        j = j + 1;
    }
    (j, true)
}

/// The first token from `i` on that starts a line or ends the input.
pub open spec fn line_stop(toks: Seq<Token>, i: int) -> int
    decreases toks.len() - i,
{
    if i < 0 || i >= toks.len() || toks[i].at_bol || toks[i].kind == TokenKind::Eof {
        i
    } else {
        line_stop(toks, i + 1)
    }
}

proof fn lemma_line_stop_bounds(toks: Seq<Token>, i: int)
    requires
        crate::tokenize::well_ended(toks),
        0 <= i < toks.len(),
    ensures
        i <= line_stop(toks, i) < toks.len(),
    decreases toks.len() - i,
{
    if !(toks[i].at_bol || toks[i].kind == TokenKind::Eof) {
        lemma_line_stop_bounds(toks, i + 1);
    }
}

/// The end-of-input token that stands where `t` stands.
pub open spec fn eof_at(t: TokenV) -> TokenV {
    TokenV { kind: TokenKind::Eof, len: 0, ..t }
}

/// An end-of-input token at the position of `tok`.
pub fn new_eof(tok: &Token) -> (r: Token)
    ensures
        r@ == eof_at(tok@),
{
    let mut t = crate::tokenize::clone_token(tok);
    t.kind = TokenKind::Eof;
    t.len = 0;
    t
}

/// The rest of the line from token `i` as a token list of its own, closed by
/// an end-of-input token, and the position where the line stops.
pub fn copy_line(toks: &[Token], i: usize) -> (r: (Vec<Token>, usize))
    requires
        crate::tokenize::well_ended(toks@),
        i < toks.len(),
    ensures
        r.1 == line_stop(toks@, i as int),
        r.1 < toks.len(),
        views(r.0@) == views(toks@.subrange(i as int, r.1 as int)).push(eof_at(toks@[r.1 as int]@)),
{
    proof {
        lemma_line_stop_bounds(toks@, i as int);
    }
    let mut line: Vec<Token> = Vec::new();
    let mut j = i;
    while !toks[j].at_bol && toks[j].kind != TokenKind::Eof
        invariant
            crate::tokenize::well_ended(toks@),
            i <= j <= line_stop(toks@, i as int) < toks.len(),
            line_stop(toks@, j as int) == line_stop(toks@, i as int),
            views(line@) == views(toks@.subrange(i as int, j as int)),
        decreases toks.len() - j,
    {
        let ghost before = views(line@);
        proof {
            lemma_line_stop_bounds(toks@, j + 1);
        }
        let t = crate::tokenize::clone_token(&toks[j]);
        line.push(t);
        assert(views(line@) =~= before.push(toks@[j as int]@));
        assert(views(toks@.subrange(i as int, j + 1)) =~= views(toks@.subrange(i as int, j as int)).push(toks@[j as int]@));
        j = j + 1;
    }
    let ghost before = views(line@);
    line.push(new_eof(&toks[j]));
    assert(views(line@) =~= before.push(eof_at(toks@[j as int]@)));
    (line, j)
}

// ---------------------------------------------------------------------------
// Preprocessed tokens

/// What a token becomes once preprocessing is over: an identifier that
/// spells a keyword becomes a keyword; a preprocessing number that spells an
/// integer constant becomes that number; others stay as they are.
pub open spec fn pp_converted(files: Seq<File>, t: TokenV) -> TokenV {
    if t.kind == TokenKind::Ident && spec_is_keyword(token_text(files, t)) {
        TokenV { kind: TokenKind::Keyword, ..t }
    } else if t.kind == TokenKind::PpNum {
        match crate::tokenize::int_literal(token_text(files, t)) {
            Some((v, ty)) => TokenV { kind: TokenKind::Num, val: v, ty: Some(ty), ..t },
            None => t,
        }
    } else {
        t
    }
}

/// The position of the first identifier or preprocessing number whose file
/// is unknown, or the length of the list.
pub open spec fn conversion_stop(files: Seq<File>, ts: Seq<TokenV>, i: int) -> int
    decreases ts.len() - i,
{
    if i < 0 || i >= ts.len() {
        ts.len() as int
    } else if (ts[i].kind == TokenKind::Ident || ts[i].kind == TokenKind::PpNum) && !has_file(
        files,
        ts[i].file_no,
    ) {
        i
    } else {
        conversion_stop(files, ts, i + 1)
    }
}

/// Whether every preprocessing number in a known file spells at least one
/// character.
pub open spec fn pp_numbers_spelled(files: Seq<File>, ts: Seq<TokenV>) -> bool {
    forall|k: int|
        0 <= k < ts.len() && ts[k].kind == TokenKind::PpNum && has_file(files, ts[k].file_no)
            ==> crate::tokenize::text_at(
            files[file_index(files, ts[k].file_no)].contents@,
            ts[k].loc as int,
            ts[k].len as int,
        ).len() >= 1
}

proof fn lemma_conversion_stop_bounds(files: Seq<File>, ts: Seq<TokenV>, i: int)
    requires
        0 <= i <= ts.len(),
    ensures
        i <= conversion_stop(files, ts, i) <= ts.len(),
    decreases ts.len() - i,
{
    if i < ts.len() {
        lemma_conversion_stop_bounds(files, ts, i + 1);
    }
}

/// A token with identifiers read as the number 0, as in the expression of
/// an `#if`: its kind becomes a number of type `int` and value 0.
pub open spec fn zeroed(t: TokenV) -> TokenV {
    if t.kind == TokenKind::Ident {
        TokenV { kind: TokenKind::Num, val: 0, ty: Some(crate::types::plain_type(crate::types::TypeKind::Int, 4, 4, false)), ..t }
    } else {
        t
    }
}

/// The first end-of-file token of `toks` from `i` on, or the length.
pub open spec fn eof_index(toks: Seq<TokenV>, i: int) -> int
    decreases toks.len() - i,
{
    if i < 0 || i >= toks.len() || toks[i].kind == TokenKind::Eof {
        i
    } else {
        eof_index(toks, i + 1)
    }
}

proof fn lemma_eof_index(toks: Seq<TokenV>, i: int)
    requires
        0 <= i <= toks.len(),
    ensures
        i <= eof_index(toks, i) <= toks.len(),
        eof_index(toks, i) < toks.len() ==> toks[eof_index(toks, i)].kind == TokenKind::Eof,
        forall|k: int| i <= k < eof_index(toks, i) ==> toks[k].kind != TokenKind::Eof,
    decreases toks.len() - i,
{
    if i < toks.len() && toks[i].kind != TokenKind::Eof {
        lemma_eof_index(toks, i + 1);
    }
}

/// Replaces each identifier before the first end-of-file token with the
/// number 0 (of type `int`), as the expression of an `#if` reads it; the
/// rest stays as it is.
pub fn replace_idents_with_zero(toks: &mut Vec<Token>)
    requires
        exists|k: int| 0 <= k < old(toks)@.len() && #[trigger] old(toks)@[k].kind == TokenKind::Eof,
    ensures
        ({
            let ts = views(old(toks)@);
            let e = eof_index(ts, 0);
            &&& views(final(toks)@).len() == ts.len()
            &&& forall|k: int| 0 <= k < e ==> #[trigger] views(final(toks)@)[k] == zeroed(ts[k])
            &&& forall|k: int| e <= k < ts.len() ==> #[trigger] views(final(toks)@)[k] == ts[k]
        }),
{
    let ghost ts = views(toks@);
    proof {
        lemma_eof_index(ts, 0);
        let k = choose|k: int| 0 <= k < old(toks)@.len() && #[trigger] old(toks)@[k].kind == TokenKind::Eof;
        assert(ts[k].kind == TokenKind::Eof);
    }
    let n = toks.len();
    let mut i: usize = 0;
    loop
        invariant
            ts == views(old(toks)@),
            views(toks@).len() == ts.len(),
            toks@.len() == ts.len(),
            n == ts.len(),
            0 <= i <= eof_index(ts, 0) < ts.len(),
            eof_index(ts, 0) == eof_index(ts, i as int),
            forall|k: int| 0 <= k < i ==> #[trigger] views(toks@)[k] == zeroed(ts[k]),
            forall|k: int| i <= k < ts.len() ==> #[trigger] views(toks@)[k] == ts[k],
        ensures
            i == eof_index(ts, 0),
            views(toks@).len() == ts.len(),
            forall|k: int| 0 <= k < i ==> #[trigger] views(toks@)[k] == zeroed(ts[k]),
            forall|k: int| i <= k < ts.len() ==> #[trigger] views(toks@)[k] == ts[k],
        decreases ts.len() - i,
    {
        assert(views(toks@)[i as int] == toks@[i as int]@);
        if toks[i].kind == TokenKind::Eof {
            assert(eof_index(ts, i as int) == i);
            break;
        }
        let ghost before = views(toks@);
        if toks[i].kind == TokenKind::Ident {
            let mut t = crate::tokenize::clone_token(&toks[i]);
            t.kind = TokenKind::Num;
            t.val = 0;
            t.ty = Some(crate::types::Type::new_int());
            toks.set(i, t);
            assert(views(toks@) =~= before.update(i as int, zeroed(ts[i as int])));
        } else {
            assert(views(toks@) =~= before.update(i as int, zeroed(ts[i as int])));
        }
        assert(eof_index(ts, i as int) == eof_index(ts, i + 1));
        proof {
            lemma_eof_index(ts, i + 1);
        }
        i += 1;
    }
}

/// Turns identifiers that spell keywords into keywords and preprocessing
/// numbers that spell integer constants into numbers, up to the first such
/// token whose file is unknown: at an identifier the conversion just stops;
/// at a number it is the error "file not found". Numbers that are no
/// integer constants (floating-point constants) are left for the caller.
pub fn convert_pp_tokens(files: &[File], toks: &mut Vec<Token>) -> (r: Result<(), String>)
    requires
        pp_numbers_spelled(files@, views(old(toks)@)),
    ensures
        ({
            let ts = views(old(toks)@);
            let stop = conversion_stop(files@, ts, 0);
            &&& views(final(toks)@).len() == ts.len()
            &&& forall|k: int|
                0 <= k < stop ==> #[trigger] views(final(toks)@)[k] == pp_converted(files@, ts[k])
            &&& forall|k: int| stop <= k < ts.len() ==> #[trigger] views(final(toks)@)[k] == ts[k]
            &&& (stop < ts.len() && ts[stop].kind == TokenKind::PpNum) ==> (r matches Err(e) && e@
                == "file not found"@)
            &&& !(stop < ts.len() && ts[stop].kind == TokenKind::PpNum) ==> r is Ok
        }),
{
    let ghost ts = views(toks@);
    proof {
        lemma_conversion_stop_bounds(files@, ts, 0);
    }
    let mut i: usize = 0;
    while i < toks.len()
        invariant
            ts == views(old(toks)@),
            pp_numbers_spelled(files@, ts),
            views(toks@).len() == ts.len(),
            i <= conversion_stop(files@, ts, 0),
            conversion_stop(files@, ts, 0) == conversion_stop(files@, ts, i as int),
            forall|k: int| 0 <= k < i ==> #[trigger] views(toks@)[k] == pp_converted(files@, ts[k]),
            forall|k: int| i <= k < ts.len() ==> #[trigger] views(toks@)[k] == ts[k],
        decreases toks.len() - i,
    {
        let ghost before = views(toks@);
        assert(before[i as int] == ts[i as int]);
        if toks[i].kind == TokenKind::Ident {
            let fi = match find_file(files, toks[i].file_no) {
                Some(f) => f,
                None => {
                    return Ok(());
                },
            };
            let name = text_slice(&files[fi].contents, toks[i].loc, toks[i].len);
            if is_keyword(&name) {
                let mut t = crate::tokenize::clone_token(&toks[i]);
                t.kind = TokenKind::Keyword;
                toks.set(i, t);
            }
        } else if toks[i].kind == TokenKind::PpNum {
            let mut t = crate::tokenize::clone_token(&toks[i]);
            match crate::tokenize::convert_pp_number(files, &mut t) {
                Ok(_) => {},
                Err(e) => {
                    return Err(e);
                },
            }
            toks.set(i, t);
        }
        assert(views(toks@)[i as int] == pp_converted(files@, ts[i as int]));
        proof {
            lemma_conversion_stop_bounds(files@, ts, i + 1);
        }
        assert forall|k: int| 0 <= k < i + 1 implies #[trigger] views(toks@)[k] == pp_converted(
            files@,
            ts[k],
        ) by {
            if k < i {
                assert(views(toks@)[k] == before[k]);
            }
        }
        assert forall|k: int| i + 1 <= k < ts.len() implies #[trigger] views(toks@)[k] == ts[k] by {
            assert(views(toks@)[k] == before[k]);
        }
        i += 1;
    }
    Ok(())
}

// ---------------------------------------------------------------------------
// Printing preprocessed tokens

/// The bytes of a string literal up to its first NUL, each as the character
/// with that code, with a backslash before each quote and backslash.
pub open spec fn escaped_bytes(b: Seq<u8>) -> Seq<char>
    decreases b.len(),
{
    if b.len() == 0 || b[0] == 0 {
        Seq::empty()
    } else {
        (if b[0] == 34 || b[0] == 92 {
            seq!['\\']
        } else {
            Seq::empty()
        }) + seq![b[0] as char] + escaped_bytes(b.skip(1))
    }
}

/// The text of the tokens from `i` to the end of input, as `-E` prints it:
/// a newline before each token that starts a line, a space before each
/// other token with space before it, a string literal spelled from its
/// bytes and any other token as written; a newline at the end.
pub open spec fn printed(files: Seq<File>, toks: Seq<Token>, i: int) -> Seq<char>
    decreases toks.len() - i,
{
    if i < 0 || i >= toks.len() || toks[i].kind == TokenKind::Eof {
        seq!['\n']
    } else {
        let t = toks[i];
        (if t.at_bol {
            seq!['\n']
        } else if t.has_space {
            seq![' ']
        } else {
            Seq::empty()
        }) + (if t.kind == TokenKind::Str {
            seq!['"'] + escaped_bytes(t.str.unwrap()@) + seq!['"']
        } else {
            token_text(files, t@)
        }) + printed(files, toks, i + 1)
    }
}

/// Whether every token up to the end of input can be printed: string
/// literals carry their bytes, other tokens lie in known files.
pub open spec fn printable(files: Seq<File>, toks: Seq<Token>, i: int) -> bool
    decreases toks.len() - i,
{
    if i < 0 || i >= toks.len() {
        false
    } else if toks[i].kind == TokenKind::Eof {
        true
    } else {
        (if toks[i].kind == TokenKind::Str {
            toks[i].str.is_some()
        } else {
            has_file(files, toks[i].file_no)
        }) && printable(files, toks, i + 1)
    }
}

fn push_escaped_bytes(out: &mut String, b: &[u8])
    ensures
        final(out)@ == old(out)@ + escaped_bytes(b@),
{
    let mut i: usize = 0;
    assert(b@.skip(0) =~= b@);
    while i < b.len() && b[i] != 0
        invariant
            i <= b.len(),
            old(out)@ + escaped_bytes(b@) == out@ + escaped_bytes(b@.skip(i as int)),
        decreases b.len() - i,
    {
        let c = b[i];
        let ghost rest = b@.skip(i as int);
        assert(rest.skip(1) =~= b@.skip(i + 1));
        if c == 34 || c == 92 {
            push_char(out, '\\');
        }
        push_char(out, c as char);
        i += 1;
        assert(old(out)@ + escaped_bytes(b@) =~= out@ + escaped_bytes(b@.skip(i as int)));
    }
    assert(escaped_bytes(b@.skip(i as int)) == Seq::<char>::empty());
}

/// The text of the tokens from `start` on, as `-E` prints it.
pub fn print_tokens_text(files: &[File], toks: &[Token], start: usize) -> (r: String)
    requires
        printable(files@, toks@, start as int),
    ensures
        r@ == printed(files@, toks@, start as int),
{
    let mut out = String::new();
    let mut i = start;
    while toks[i].kind != TokenKind::Eof
        invariant
            printable(files@, toks@, i as int),
            i < toks.len(),
            printed(files@, toks@, start as int) == out@ + printed(files@, toks@, i as int),
        decreases toks.len() - i,
    {
        let t = &toks[i];
        let ghost o0 = out@;
        if t.at_bol {
            push_char(&mut out, '\n');
        } else if t.has_space {
            push_char(&mut out, ' ');
        }
        if t.kind == TokenKind::Str {
            push_char(&mut out, '"');
            match &t.str {
                Some(b) => push_escaped_bytes(&mut out, b.as_slice()),
                None => {},
            }
            push_char(&mut out, '"');
        } else {
            let fi = match find_file(files, t.file_no) {
                Some(k) => k,
                None => {
                    assert(false);
                    0
                },
            };
            let text = text_slice(&files[fi].contents, t.loc, t.len);
            push_chars(&mut out, &text);
        }
        proof {
            let pre = if t.at_bol {
                seq!['\n']
            } else if t.has_space {
                seq![' ']
            } else {
                Seq::<char>::empty()
            };
            let body = if t.kind == TokenKind::Str {
                seq!['"'] + escaped_bytes(t.str.unwrap()@) + seq!['"']
            } else {
                token_text(files@, t@)
            };
            assert(out@ =~= o0 + pre + body);
            assert(printed(files@, toks@, i as int) == pre + body + printed(files@, toks@, i + 1));
            assert(o0 + printed(files@, toks@, i as int) =~= out@ + printed(files@, toks@, i + 1));
            assert(printable(files@, toks@, i + 1));
        }
        i += 1;
    }
    push_char(&mut out, '\n');
    out
}

// ---------------------------------------------------------------------------
// Predefined macros

/// The object-like macros every compilation starts with: name and body.
pub open spec fn predefined() -> Seq<(Seq<char>, Seq<char>)> {
    seq![
        ("_LP64"@, "1"@),
        ("__C99_MACRO_WITH_VA_ARGS"@, "1"@),
        ("__ELF__"@, "1"@),
        ("__LP64__"@, "1"@),
        ("__SIZEOF_DOUBLE__"@, "8"@),
        ("__SIZEOF_FLOAT__"@, "4"@),
        ("__SIZEOF_INT__"@, "4"@),
        ("__SIZEOF_LONG_DOUBLE__"@, "8"@),
        ("__SIZEOF_LONG_LONG__"@, "8"@),
        ("__SIZEOF_LONG__"@, "8"@),
        ("__SIZEOF_POINTER__"@, "8"@),
        ("__SIZEOF_PTRDIFF_T__"@, "8"@),
        ("__SIZEOF_SHORT__"@, "2"@),
        ("__SIZEOF_SIZE_T__"@, "8"@),
        ("__SIZE_TYPE__"@, "unsigned long"@),
        ("__STDC_HOSTED__"@, "1"@),
        ("__STDC_NO_ATOMICS__"@, "1"@),
        ("__STDC_NO_COMPLEX__"@, "1"@),
        ("__STDC_NO_THREADS__"@, "1"@),
        ("__STDC_NO_VLA__"@, "1"@),
        ("__STDC_UTF_16__"@, "1"@),
        ("__STDC_UTF_32__"@, "1"@),
        ("__STDC_VERSION__"@, "201112L"@),
        ("__STDC__"@, "1"@),
        ("__USER_LABEL_PREFIX__"@, ""@),
        ("__alignof__"@, "_Alignof"@),
        ("__amd64"@, "1"@),
        ("__amd64__"@, "1"@),
        ("__cc_rs__"@, "1"@),
        ("__const__"@, "const"@),
        ("__gnu_linux__"@, "1"@),
        ("__inline__"@, "inline"@),
        ("__linux"@, "1"@),
        ("__linux__"@, "1"@),
        ("__signed__"@, "signed"@),
        ("__typeof__"@, "typeof"@),
        ("__unix"@, "1"@),
        ("__unix__"@, "1"@),
        ("__volatile__"@, "volatile"@),
        ("__x86_64"@, "1"@),
        ("__x86_64__"@, "1"@),
        ("linux"@, "1"@),
        ("unix"@, "1"@)
    ]
}

fn predefined_table() -> (r: Vec<(&'static str, &'static str)>)
    ensures
        r@.len() == predefined().len(),
        forall|k: int|
            0 <= k < r@.len() ==> (#[trigger] r@[k]).0@ == predefined()[k].0 && r@[k].1@
                == predefined()[k].1 && r@[k].1@.len() <= 16,
{
    proof {
        reveal_strlit("");
        reveal_strlit("1");
        reveal_strlit("2");
        reveal_strlit("201112L");
        reveal_strlit("4");
        reveal_strlit("8");
        reveal_strlit("_Alignof");
        reveal_strlit("const");
        reveal_strlit("inline");
        reveal_strlit("signed");
        reveal_strlit("typeof");
        reveal_strlit("unsigned long");
        reveal_strlit("volatile");
    }
    let v = vec![
        ("_LP64", "1"),
        ("__C99_MACRO_WITH_VA_ARGS", "1"),
        ("__ELF__", "1"),
        ("__LP64__", "1"),
        ("__SIZEOF_DOUBLE__", "8"),
        ("__SIZEOF_FLOAT__", "4"),
        ("__SIZEOF_INT__", "4"),
        ("__SIZEOF_LONG_DOUBLE__", "8"),
        ("__SIZEOF_LONG_LONG__", "8"),
        ("__SIZEOF_LONG__", "8"),
        ("__SIZEOF_POINTER__", "8"),
        ("__SIZEOF_PTRDIFF_T__", "8"),
        ("__SIZEOF_SHORT__", "2"),
        ("__SIZEOF_SIZE_T__", "8"),
        ("__SIZE_TYPE__", "unsigned long"),
        ("__STDC_HOSTED__", "1"),
        ("__STDC_NO_ATOMICS__", "1"),
        ("__STDC_NO_COMPLEX__", "1"),
        ("__STDC_NO_THREADS__", "1"),
        ("__STDC_NO_VLA__", "1"),
        ("__STDC_UTF_16__", "1"),
        ("__STDC_UTF_32__", "1"),
        ("__STDC_VERSION__", "201112L"),
        ("__STDC__", "1"),
        ("__USER_LABEL_PREFIX__", ""),
        ("__alignof__", "_Alignof"),
        ("__amd64", "1"),
        ("__amd64__", "1"),
        ("__cc_rs__", "1"),
        ("__const__", "const"),
        ("__gnu_linux__", "1"),
        ("__inline__", "inline"),
        ("__linux", "1"),
        ("__linux__", "1"),
        ("__signed__", "signed"),
        ("__typeof__", "typeof"),
        ("__unix", "1"),
        ("__unix__", "1"),
        ("__volatile__", "volatile"),
        ("__x86_64", "1"),
        ("__x86_64__", "1"),
        ("linux", "1"),
        ("unix", "1")
    ];
    v
}

/// A string literal spelled with quotes around `s` (nothing escaped).
pub open spec fn in_quotes(s: Seq<char>) -> Seq<char> {
    seq!['"'] + s + seq!['"']
}

fn quoted_plain(s: &String) -> (r: String)
    ensures
        r@ == in_quotes(s@),
{
    let mut out = String::new();
    push_char(&mut out, '"');
    out.append(s.as_str());
    push_char(&mut out, '"');
    out
}

/// Records the predefined macros, the built-in macros `__FILE__`,
/// `__LINE__` and `__COUNTER__`, and `__DATE__` and `__TIME__` as the given
/// date and time in quotes.
pub fn init_macros_at(input: &mut Input, macros: &mut Macros, date: &String, time: &String)
    requires
        old(input).last_file_no + 100 <= usize::MAX,
        date@.len() <= usize::MAX / 16,
        time@.len() <= usize::MAX / 16,
    ensures
        ({
            let n = old(macros).defs@.len() as int;
            let f = old(input).last_file_no as int;
            let p = predefined().len() as int;
            &&& final(macros).defs@.len() == n + p + 5
            &&& final(macros).defs@.take(n as int) == old(macros).defs@
            &&& forall|k: int|
                0 <= k < p ==> defined_as(
                    #[trigger] final(macros).defs@[n + k],
                    predefined()[k].0,
                    predefined()[k].1,
                    (f + 1 + k) as usize,
                )
            &&& final(macros).defs@[n + p].name@ == "__FILE__"@
            &&& final(macros).defs@[n + p].handler == Some(Builtin::File)
            &&& final(macros).defs@[n + p + 1].name@ == "__LINE__"@
            &&& final(macros).defs@[n + p + 1].handler == Some(Builtin::Line)
            &&& final(macros).defs@[n + p + 2].name@ == "__COUNTER__"@
            &&& final(macros).defs@[n + p + 2].handler == Some(Builtin::Counter)
            &&& defined_as(
                final(macros).defs@[n + p + 3],
                "__DATE__"@,
                in_quotes(date@),
                (f + p + 4) as usize,
            )
            &&& defined_as(
                final(macros).defs@[n + p + 4],
                "__TIME__"@,
                in_quotes(time@),
                (f + p + 5) as usize,
            )
            &&& forall|k: int| n <= k < n + p + 5 ==> !(#[trigger] final(macros).defs@[k]).deleted
            &&& final(input).last_file_no == f + p + 5
            &&& final(macros).counter == old(macros).counter
        }),
{
    let table = predefined_table();
    let ghost n = old(macros).defs@.len() as int;
    let ghost f = old(input).last_file_no as int;
    let mut k: usize = 0;
    while k < table.len()
        invariant
            table@.len() == predefined().len(),
            forall|j: int|
                0 <= j < table@.len() ==> (#[trigger] table@[j]).0@ == predefined()[j].0
                    && table@[j].1@ == predefined()[j].1 && table@[j].1@.len() <= 16,
            k <= table.len(),
            n == old(macros).defs@.len(),
            f == old(input).last_file_no,
            f + 100 <= usize::MAX,
            input.last_file_no == f + k,
            macros.defs@.len() == n + k,
            macros.defs@.take(n as int) == old(macros).defs@,
            macros.counter == old(macros).counter,
            forall|j: int|
                0 <= j < k ==> defined_as(
                    #[trigger] macros.defs@[n + j],
                    predefined()[j].0,
                    predefined()[j].1,
                    (f + 1 + j) as usize,
                ) && !macros.defs@[n + j].deleted,
        decreases table.len() - k,
    {
        let (name, body) = table[k];
        let ghost before = macros.defs@;
        define_macro(input, macros, name, body);
        assert(macros.defs@.drop_last() == before);
        assert(macros.defs@.take(n as int) =~= before.take(n as int));
        assert forall|j: int| 0 <= j < k + 1 implies defined_as(
            #[trigger] macros.defs@[n + j],
            predefined()[j].0,
            predefined()[j].1,
            (f + 1 + j) as usize,
        ) && !macros.defs@[n + j].deleted by {
            if j < k {
                assert(macros.defs@[n + j] == before[n + j]);
            }
        }
        k += 1;
    }
    let ghost p = predefined().len() as int;
    let ghost before = macros.defs@;
    assert(before.len() == n + p);
    add_builtin(input, macros, "__FILE__", Builtin::File);
    let ghost s1 = macros.defs@;
    add_builtin(input, macros, "__LINE__", Builtin::Line);
    let ghost s2 = macros.defs@;
    add_builtin(input, macros, "__COUNTER__", Builtin::Counter);
    let ghost s3 = macros.defs@;
    let d = quoted_plain(date);
    define_macro(input, macros, "__DATE__", d.as_str());
    let ghost s4 = macros.defs@;
    let t = quoted_plain(time);
    define_macro(input, macros, "__TIME__", t.as_str());
    let ghost s5 = macros.defs@;
    proof {
        assert(s1.drop_last() == before && s2.drop_last() == s1 && s3.drop_last() == s2);
        assert(s4.drop_last() == s3 && s5.drop_last() == s4);
        assert(s5[n + p] == s1[n + p]);
        assert(s5[n + p + 1] == s2[n + p + 1]);
        assert(s5[n + p + 2] == s3[n + p + 2]);
        assert(s5[n + p + 3] == s4[n + p + 3]);
        assert forall|j: int| 0 <= j < p implies defined_as(
            #[trigger] s5[n + j],
            predefined()[j].0,
            predefined()[j].1,
            (f + 1 + j) as usize,
        ) && !s5[n + j].deleted by {
            assert(s5[n + j] == before[n + j]);
        }
        assert forall|k: int| n <= k < n + p + 5 implies !(#[trigger] s5[k]).deleted by {
            if k < n + p {
                assert(s5[k] == before[k]);
                assert(s5[n + (k - n)] == s5[k]);
            }
        }
        assert(s5.take(n) =~= before.take(n));
    }
}

} // verus!
