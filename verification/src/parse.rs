use vstd::prelude::*;

use crate::text::{chars_to_string, str_to_chars};
use crate::tokenize::{
    at_text, equal, error_at, error_tok, file_index, has_file, spec_equal, text_at, text_slice,
    token_error_text, token_text, File, Token, TokenKind,
};
use crate::types::{
    clone_member, clone_type, is_integer, is_numeric, plain_type, spec_is_integer, spec_is_numeric,
    Member, Type, TypeKind,
};
use crate::{new_unique_name, new_var_unique_id, unique_name_text, Counters};

verus! {

/// The kinds of syntax tree nodes.
#[derive(Debug, Clone, Copy, PartialEq, Eq, Structural)]
pub enum NodeKind {
    Add,
    Sub,
    Mul,
    Div,
    Mod,
    Neg,
    BitAnd,
    BitOr,
    BitXor,
    Shl,
    Shr,
    Eq,
    Ne,
    Lt,
    Le,
    Assign,
    Cond,
    Comma,
    Member,
    Addr,
    Deref,
    Not,
    BitNot,
    LogAnd,
    LogOr,
    Return,
    If,
    For,
    While,
    Do,
    Block,
    FuncCall,
    ExprStmt,
    StmtExpr,
    Var,
    Num,
    Cast,
    Goto,
    Label,
    Switch,
    Case,
    NullExpr,
    Memzero,
}

/// A relocation in a global variable's initial data: at `offset`, the
/// address of `label` plus `addend`.
#[derive(Debug)]
pub struct Relocation {
    pub next: Option<Box<Relocation>>,
    pub offset: i64,
    pub label: String,
    pub addend: i64,
}

/// A variable or function.
#[derive(Debug)]
pub struct Obj {
    pub name: String,
    pub ty: Type,
    pub is_local: bool,
    pub align: i64,
    pub offset: i64,
    pub is_function: bool,
    pub is_definition: bool,
    pub is_static: bool,
    pub init_data: Option<Vec<u8>>,
    pub rel: Option<Box<Relocation>>,
    pub stack_size: i64,
    pub unique_id: u64,
}

/// The abstract value of a variable: its fields, with names and initial
/// data taken by value.
pub struct ObjV {
    pub name: Seq<char>,
    pub ty: Type,
    pub is_local: bool,
    pub align: i64,
    pub offset: i64,
    pub is_function: bool,
    pub is_definition: bool,
    pub is_static: bool,
    pub init_data: Option<Seq<u8>>,
    pub rel: Option<Box<Relocation>>,
    pub stack_size: i64,
    pub unique_id: u64,
}

impl View for Obj {
    type V = ObjV;

    open spec fn view(&self) -> ObjV {
        ObjV {
            name: self.name@,
            ty: self.ty,
            is_local: self.is_local,
            align: self.align,
            offset: self.offset,
            is_function: self.is_function,
            is_definition: self.is_definition,
            is_static: self.is_static,
            init_data: match self.init_data {
                Some(v) => Some(v@),
                None => None,
            },
            rel: self.rel,
            stack_size: self.stack_size,
            unique_id: self.unique_id,
        }
    }
}

/// A node of the syntax tree. Lists of statements and arguments are linked
/// through `next`.
#[derive(Debug)]
pub struct Node {
    pub kind: NodeKind,
    pub tok_loc: usize,
    pub file_no: usize,
    pub line_no: usize,
    pub ty: Option<Type>,
    pub next: Option<Box<Node>>,
    pub lhs: Option<Box<Node>>,
    pub rhs: Option<Box<Node>>,
    pub cond: Option<Box<Node>>,
    pub then_br: Option<Box<Node>>,
    pub els: Option<Box<Node>>,
    pub init: Option<Box<Node>>,
    pub inc: Option<Box<Node>>,
    pub body: Option<Box<Node>>,
    pub func_ty: Option<Type>,
    pub args: Option<Box<Node>>,
    pub pass_by_stack: bool,
    pub var: Option<Box<Obj>>,
    pub ret_buffer: Option<Box<Obj>>,
    pub val: i64,
    pub fval_bits: u64,
    pub member: Option<Box<Member>>,
    pub label: Option<String>,
    pub unique_label: Option<String>,
    pub goto_next: Option<Box<Node>>,
    pub brk_label: Option<String>,
    pub cont_label: Option<String>,
    pub case_next: Option<Box<Node>>,
    pub default_case: Option<Box<Node>>,
}

/// A name in a block scope: a variable, a typedef or an enum constant.
#[derive(Debug)]
pub struct VarScope {
    pub name: String,
    pub var: Option<Obj>,
    pub type_def: Option<Type>,
    pub enum_ty: Option<Type>,
    pub enum_val: i64,
}

/// The abstract value of a scope entry.
pub struct VarScopeV {
    pub name: Seq<char>,
    pub var: Option<ObjV>,
    pub type_def: Option<Type>,
    pub enum_ty: Option<Type>,
    pub enum_val: i64,
}

impl View for VarScope {
    type V = VarScopeV;

    open spec fn view(&self) -> VarScopeV {
        VarScopeV {
            name: self.name@,
            var: match self.var {
                Some(o) => Some(o@),
                None => None,
            },
            type_def: self.type_def,
            enum_ty: self.enum_ty,
            enum_val: self.enum_val,
        }
    }
}

/// A struct, union or enum tag in a block scope.
#[derive(Debug)]
pub struct TagScope {
    pub name: String,
    pub ty: Type,
}

/// Storage-class and alignment attributes of a declaration.
#[derive(Debug)]
pub struct VarAttr {
    pub is_typedef: bool,
    pub is_static: bool,
    pub is_extern: bool,
    pub align: i64,
}

impl Default for VarAttr {
    /// No attributes and no alignment.
    fn default() -> (r: Self)
        ensures
            !r.is_typedef && !r.is_static && !r.is_extern && r.align == 0,
    {
        VarAttr { is_typedef: false, is_static: false, is_extern: false, align: 0 }
    }
}

// ---------------------------------------------------------------------------
// Copies

fn clone_string_opt(s: &Option<String>) -> (r: Option<String>)
    ensures
        r == *s,
{
    match s {
        Some(x) => Some(x.clone()),
        None => None,
    }
}

fn clone_type_o(t: &Option<Type>) -> (r: Option<Type>)
    ensures
        r == *t,
{
    match t {
        Some(x) => Some(clone_type(x)),
        None => None,
    }
}

/// A copy of a relocation list.
pub fn clone_rel(r: &Option<Box<Relocation>>) -> (out: Option<Box<Relocation>>)
    ensures
        out == *r,
    decreases r,
{
    match r {
        Some(b) => Some(
            Box::new(
                Relocation {
                    next: clone_rel(&b.next),
                    offset: b.offset,
                    label: b.label.clone(),
                    addend: b.addend,
                },
            ),
        ),
        None => None,
    }
}

/// A copy of a variable.
pub fn clone_obj(o: &Obj) -> (r: Obj)
    ensures
        r@ == o@,
{
    Obj {
        name: o.name.clone(),
        ty: clone_type(&o.ty),
        is_local: o.is_local,
        align: o.align,
        offset: o.offset,
        is_function: o.is_function,
        is_definition: o.is_definition,
        is_static: o.is_static,
        init_data: match &o.init_data {
            Some(v) => Some(crate::tokenize::clone_bytes(v)),
            None => None,
        },
        rel: clone_rel(&o.rel),
        stack_size: o.stack_size,
        unique_id: o.unique_id,
    }
}

/// A copy of a scope entry.
pub fn clone_var_scope(v: &VarScope) -> (r: VarScope)
    ensures
        r@ == v@,
{
    VarScope {
        name: v.name.clone(),
        var: match &v.var {
            Some(o) => Some(clone_obj(o)),
            None => None,
        },
        type_def: clone_type_o(&v.type_def),
        enum_ty: clone_type_o(&v.enum_ty),
        enum_val: v.enum_val,
    }
}

// ---------------------------------------------------------------------------
// Node constructors

/// A node of the given kind at a source position, with nothing attached.
pub open spec fn node_at(kind: NodeKind, tok_loc: usize, file_no: usize, line_no: usize) -> Node {
    Node {
        kind,
        tok_loc,
        file_no,
        line_no,
        ty: None,
        next: None,
        lhs: None,
        rhs: None,
        cond: None,
        then_br: None,
        els: None,
        init: None,
        inc: None,
        body: None,
        func_ty: None,
        args: None,
        pass_by_stack: false,
        var: None,
        ret_buffer: None,
        val: 0,
        fval_bits: 0,
        member: None,
        label: None,
        unique_label: None,
        goto_next: None,
        brk_label: None,
        cont_label: None,
        case_next: None,
        default_case: None,
    }
}

/// A node of the given kind at a source position.
pub fn new_node(kind: NodeKind, tok_loc: usize, file_no: usize, line_no: usize) -> (r: Node)
    ensures
        r == node_at(kind, tok_loc, file_no, line_no),
{
    Node {
        kind,
        tok_loc,
        file_no,
        line_no,
        ty: None,
        next: None,
        lhs: None,
        rhs: None,
        cond: None,
        then_br: None,
        els: None,
        init: None,
        inc: None,
        body: None,
        func_ty: None,
        args: None,
        pass_by_stack: false,
        var: None,
        ret_buffer: None,
        val: 0,
        fval_bits: 0,
        member: None,
        label: None,
        unique_label: None,
        goto_next: None,
        brk_label: None,
        cont_label: None,
        case_next: None,
        default_case: None,
    }
}

/// A `case` node that only carries the label and value of `node`.
pub fn new_case_link(node: &Node) -> (r: Node)
    ensures
        r == (Node {
            label: node.label,
            val: node.val,
            ..node_at(NodeKind::Case, node.tok_loc, node.file_no, node.line_no)
        }),
{
    let mut link = new_node(NodeKind::Case, node.tok_loc, node.file_no, node.line_no);
    link.label = clone_string_opt(&node.label);
    link.val = node.val;
    link
}

/// The binary node `lhs kind rhs`.
pub open spec fn binary_node(
    kind: NodeKind,
    lhs: Node,
    rhs: Node,
    tok_loc: usize,
    file_no: usize,
    line_no: usize,
) -> Node {
    Node {
        lhs: Some(Box::new(lhs)),
        rhs: Some(Box::new(rhs)),
        ..node_at(kind, tok_loc, file_no, line_no)
    }
}

/// A binary node.
pub fn new_binary(
    kind: NodeKind,
    lhs: Node,
    rhs: Node,
    tok_loc: usize,
    file_no: usize,
    line_no: usize,
) -> (r: Node)
    ensures
        r == binary_node(kind, lhs, rhs, tok_loc, file_no, line_no),
{
    let mut node = new_node(kind, tok_loc, file_no, line_no);
    node.lhs = Some(Box::new(lhs));
    node.rhs = Some(Box::new(rhs));
    node
}

/// A unary node.
pub fn new_unary(kind: NodeKind, expr: Node, tok_loc: usize, file_no: usize, line_no: usize) -> (r:
    Node)
    ensures
        r == (Node { lhs: Some(Box::new(expr)), ..node_at(kind, tok_loc, file_no, line_no) }),
{
    let mut node = new_node(kind, tok_loc, file_no, line_no);
    node.lhs = Some(Box::new(expr));
    node
}

/// An integer constant whose type is left to `add_type`.
pub fn new_num(val: i64, tok_loc: usize, file_no: usize, line_no: usize) -> (r: Node)
    ensures
        r == (Node { val, ..node_at(NodeKind::Num, tok_loc, file_no, line_no) }),
{
    let mut node = new_node(NodeKind::Num, tok_loc, file_no, line_no);
    node.val = val;
    node
}

/// The `long` constant node.
pub open spec fn long_node(val: i64, tok_loc: usize, file_no: usize, line_no: usize) -> Node {
    Node {
        val,
        ty: Some(plain_type(TypeKind::Long, 8, 8, false)),
        ..node_at(NodeKind::Num, tok_loc, file_no, line_no)
    }
}

/// A constant of type `long`.
pub fn new_long(val: i64, tok_loc: usize, file_no: usize, line_no: usize) -> (r: Node)
    ensures
        r == long_node(val, tok_loc, file_no, line_no),
{
    let mut node = new_node(NodeKind::Num, tok_loc, file_no, line_no);
    node.val = val;
    node.ty = Some(Type::new_long());
    node
}

/// A constant of type `unsigned long`.
pub fn new_ulong(val: i64, tok_loc: usize, file_no: usize, line_no: usize) -> (r: Node)
    ensures
        r == (Node {
            val,
            ty: Some(plain_type(TypeKind::Long, 8, 8, true)),
            ..node_at(NodeKind::Num, tok_loc, file_no, line_no)
        }),
{
    let mut node = new_node(NodeKind::Num, tok_loc, file_no, line_no);
    node.val = val;
    node.ty = Some(Type::new_ulong());
    node
}

/// A reference to a variable; its type is the variable's.
pub fn new_var_node(var: Obj, tok_loc: usize, file_no: usize, line_no: usize) -> (r: Node)
    ensures
        r == (Node {
            var: Some(Box::new(var)),
            ty: Some(var.ty),
            ..node_at(NodeKind::Var, tok_loc, file_no, line_no)
        }),
{
    let mut node = new_node(NodeKind::Var, tok_loc, file_no, line_no);
    let ty = clone_type(&var.ty);
    node.var = Some(Box::new(var));
    node.ty = Some(ty);
    node
}

// ---------------------------------------------------------------------------
// Scopes

/// The entries of all scopes, outermost first.
pub open spec fn flatten<T>(scopes: Seq<Seq<T>>) -> Seq<T>
    decreases scopes.len(),
{
    if scopes.len() == 0 {
        Seq::empty()
    } else {
        flatten(scopes.drop_last()) + scopes.last()
    }
}

/// The views of the scope stack's entries, outermost first.
pub open spec fn scope_entries(scopes: Seq<Vec<VarScope>>) -> Seq<VarScopeV> {
    flatten(scopes.map_values(|v: Vec<VarScope>| v@.map_values(|e: VarScope| e@)))
}

/// The last (innermost) entry named `name`.
pub open spec fn last_named(entries: Seq<VarScopeV>, name: Seq<char>) -> Option<VarScopeV>
    decreases entries.len(),
{
    if entries.len() == 0 {
        None
    } else if entries.last().name == name {
        Some(entries.last())
    } else {
        last_named(entries.drop_last(), name)
    }
}

/// The first global named `name`.
pub open spec fn first_global(globals: Seq<ObjV>, name: Seq<char>) -> Option<ObjV>
    decreases globals.len(),
{
    if globals.len() == 0 {
        None
    } else if globals[0].name == name {
        Some(globals[0])
    } else {
        first_global(globals.drop_first(), name)
    }
}

/// What a name means: the innermost scope entry with that name, else the
/// first global variable with it.
pub open spec fn spec_find_var(
    scopes: Seq<Vec<VarScope>>,
    globals: Seq<ObjV>,
    name: Seq<char>,
) -> Option<VarScopeV> {
    match last_named(scope_entries(scopes), name) {
        Some(e) => Some(e),
        None => match first_global(globals, name) {
            Some(g) => Some(
                VarScopeV { name: g.name, var: Some(g), type_def: None, enum_ty: None, enum_val: 0 },
            ),
            None => None,
        },
    }
}

proof fn lemma_last_named_append(a: Seq<VarScopeV>, b: Seq<VarScopeV>, name: Seq<char>)
    requires
        last_named(b, name).is_none(),
    ensures
        last_named(a + b, name) == last_named(a, name),
    decreases b.len(),
{
    if b.len() == 0 {
        assert(a + b =~= a);
    } else {
        assert((a + b).drop_last() =~= a + b.drop_last());
        lemma_last_named_append(a, b.drop_last(), name);
    }
}

/// The position of the innermost scope entry named `name`.
pub fn find_entry(scope_stack: &[Vec<VarScope>], name: &String) -> (r: Option<(usize, usize)>)
    ensures
        match r {
            Some((i, j)) => i < scope_stack.len() && j < scope_stack@[i as int].len() && last_named(
                scope_entries(scope_stack@),
                name@,
            ) == Some(scope_stack@[i as int]@[j as int]@),
            None => last_named(scope_entries(scope_stack@), name@).is_none(),
        },
{
    let ghost scopes = scope_stack@.map_values(|v: Vec<VarScope>| v@.map_values(|e: VarScope| e@));
    let mut i = scope_stack.len();
    assert(scopes.take(i as int) =~= scopes);
    while i > 0
        invariant
            i <= scope_stack.len(),
            scopes == scope_stack@.map_values(|v: Vec<VarScope>| v@.map_values(|e: VarScope| e@)),
            last_named(flatten(scopes), name@) == last_named(flatten(scopes.take(i as int)), name@),
        decreases i,
    {
        let scope = &scope_stack[i - 1];
        let ghost si = scopes[i - 1];
        assert(si == scope@.map_values(|e: VarScope| e@));
        assert(scopes.take(i as int).drop_last() =~= scopes.take(i - 1));
        assert(flatten(scopes.take(i as int)) == flatten(scopes.take(i - 1)) + si);
        let mut j = scope.len();
        assert(si.take(j as int) =~= si);
        while j > 0
            invariant
                j <= scope.len(),
                0 < i <= scope_stack.len(),
                scope == &scope_stack@[i - 1],
                si == scope@.map_values(|e: VarScope| e@),
                scopes == scope_stack@.map_values(|v: Vec<VarScope>| v@.map_values(|e: VarScope| e@)),
                last_named(flatten(scopes), name@) == last_named(flatten(scopes.take(i as int)), name@),
                flatten(scopes.take(i as int)) == flatten(scopes.take(i - 1)) + si,
                last_named(flatten(scopes.take(i - 1)) + si, name@) == last_named(
                    flatten(scopes.take(i - 1)) + si.take(j as int),
                    name@,
                ),
            decreases j,
        {
            let ghost pre = flatten(scopes.take(i - 1)) + si.take(j as int);
            assert(pre.drop_last() =~= flatten(scopes.take(i - 1)) + si.take(j - 1));
            assert(pre.last() == scope@[j - 1]@);
            if scope[j - 1].name.eq(name) {
                assert(last_named(pre, name@) == Some(scope@[j - 1]@));
                assert(scope_entries(scope_stack@) == flatten(scopes));
                return Some((i - 1, j - 1));
            }
            j -= 1;
        }
        assert(flatten(scopes.take(i - 1)) + si.take(0) =~= flatten(scopes.take(i - 1)));
        i -= 1;
    }
    assert(scopes.take(0) =~= Seq::<Seq<VarScopeV>>::empty());
    assert(scope_entries(scope_stack@) == flatten(scopes));
    None
}

/// Looks a name up in the block scopes, innermost first and latest entry
/// first, and then among the global variables.
pub fn find_var(scope_stack: &[Vec<VarScope>], globals: &[Obj], name: &str) -> (r: Option<
    VarScope,
>)
    ensures
        match r {
            Some(v) => spec_find_var(
                scope_stack@,
                globals@.map_values(|o: Obj| o@),
                name@,
            ) == Some(v@),
            None => spec_find_var(scope_stack@, globals@.map_values(|o: Obj| o@), name@).is_none(),
        },
{
    let owned = name.to_owned();
    match find_entry(scope_stack, &owned) {
        Some((i, j)) => {
            return Some(clone_var_scope(&scope_stack[i][j]));
        },
        None => {},
    }
    let ghost gs = globals@.map_values(|o: Obj| o@);
    let mut k: usize = 0;
    assert(gs.skip(0) =~= gs);
    while k < globals.len()
        invariant
            k <= globals.len(),
            gs == globals@.map_values(|o: Obj| o@),
            first_global(gs, name@) == first_global(gs.skip(k as int), name@),
            owned@ == name@,
            last_named(scope_entries(scope_stack@), name@).is_none(),
        decreases globals.len() - k,
    {
        assert(gs.skip(k as int)[0] == globals@[k as int]@);
        assert(gs.skip(k as int).drop_first() =~= gs.skip(k + 1));
        if globals[k].name.eq(&owned) {
            let o = clone_obj(&globals[k]);
            assert(first_global(gs, name@) == Some(globals@[k as int]@));
            return Some(
                VarScope {
                    name: globals[k].name.clone(),
                    var: Some(o),
                    type_def: None,
                    enum_ty: None,
                    enum_val: 0,
                },
            );
        }
        k += 1;
    }
    assert(gs.skip(k as int) =~= Seq::<ObjV>::empty());
    None
}

/// The name a token spells.
pub fn token_name(files: &[File], tok: &Token) -> (r: String)
    requires
        has_file(files@, tok.file_no),
    ensures
        r@ == token_text(files@, tok@),
{
    let fi = match crate::tokenize::find_file(files, tok.file_no) {
        Some(i) => i,
        None => {
            assert(false);
            0
        },
    };
    let cs = text_slice(&files[fi].contents, tok.loc, tok.len);
    chars_to_string(&cs)
}

/// The type a token names as a typedef: the innermost entry with its name
/// decides (a variable of that name hides the typedef).
pub open spec fn spec_find_typedef(
    scopes: Seq<Vec<VarScope>>,
    files: Seq<File>,
    tok: crate::tokenize::TokenV,
) -> Option<Type> {
    if tok.kind != TokenKind::Ident {
        None
    } else {
        match last_named(scope_entries(scopes), token_text(files, tok)) {
            Some(e) => e.type_def,
            None => None,
        }
    }
}

/// The typedef an identifier token names, if any.
pub fn find_typedef(scope_stack: &[Vec<VarScope>], tok: &Token, files: &[File]) -> (r: Option<Type>)
    requires
        tok.kind == TokenKind::Ident ==> has_file(files@, tok.file_no),
    ensures
        r == spec_find_typedef(scope_stack@, files@, tok@),
{
    if tok.kind != TokenKind::Ident {
        return None;
    }
    let name = token_name(files, tok);
    match find_entry(scope_stack, &name) {
        Some((i, j)) => clone_type_o(&scope_stack[i][j].type_def),
        None => None,
    }
}

/// The tag entries of all tag scopes, outermost first.
pub open spec fn tag_entries(stack: Seq<Vec<TagScope>>) -> Seq<TagScope> {
    flatten(stack.map_values(|v: Vec<TagScope>| v@))
}

/// The type of the innermost, latest tag named `name`.
pub open spec fn last_tag(entries: Seq<TagScope>, name: Seq<char>) -> Option<Type>
    decreases entries.len(),
{
    if entries.len() == 0 {
        None
    } else if entries.last().name@ == name {
        Some(entries.last().ty)
    } else {
        last_tag(entries.drop_last(), name)
    }
}

/// Looks a struct, union or enum tag up, innermost scope first.
pub fn find_tag(tag_scope_stack: &[Vec<TagScope>], name: &str) -> (r: Option<Type>)
    ensures
        r == last_tag(tag_entries(tag_scope_stack@), name@),
{
    let owned = name.to_owned();
    let ghost scopes = tag_scope_stack@.map_values(|v: Vec<TagScope>| v@);
    let mut i = tag_scope_stack.len();
    assert(scopes.take(i as int) =~= scopes);
    while i > 0
        invariant
            i <= tag_scope_stack.len(),
            owned@ == name@,
            scopes == tag_scope_stack@.map_values(|v: Vec<TagScope>| v@),
            last_tag(flatten(scopes), name@) == last_tag(flatten(scopes.take(i as int)), name@),
        decreases i,
    {
        let scope = &tag_scope_stack[i - 1];
        let ghost si = scopes[i - 1];
        assert(scopes.take(i as int).drop_last() =~= scopes.take(i - 1));
        assert(flatten(scopes.take(i as int)) == flatten(scopes.take(i - 1)) + si);
        let mut j = scope.len();
        assert(si.take(j as int) =~= si);
        while j > 0
            invariant
                j <= scope.len(),
                0 < i <= tag_scope_stack.len(),
                scope == &tag_scope_stack@[i - 1],
                si == scope@,
                owned@ == name@,
                scopes == tag_scope_stack@.map_values(|v: Vec<TagScope>| v@),
                last_tag(flatten(scopes), name@) == last_tag(flatten(scopes.take(i as int)), name@),
                flatten(scopes.take(i as int)) == flatten(scopes.take(i - 1)) + si,
                last_tag(flatten(scopes.take(i - 1)) + si, name@) == last_tag(
                    flatten(scopes.take(i - 1)) + si.take(j as int),
                    name@,
                ),
            decreases j,
        {
            let ghost pre = flatten(scopes.take(i - 1)) + si.take(j as int);
            assert(pre.drop_last() =~= flatten(scopes.take(i - 1)) + si.take(j - 1));
            assert(pre.last() == scope@[j - 1]);
            if scope[j - 1].name.eq(&owned) {
                return Some(clone_type(&scope[j - 1].ty));
            }
            j -= 1;
        }
        assert(flatten(scopes.take(i - 1)) + si.take(0) =~= flatten(scopes.take(i - 1)));
        i -= 1;
    }
    assert(scopes.take(0) =~= Seq::<Seq<TagScope>>::empty());
    None
}

/// The type of the first tag named `name` in a scope.
pub open spec fn first_tag(entries: Seq<TagScope>, name: Seq<char>) -> Option<Type>
    decreases entries.len(),
{
    if entries.len() == 0 {
        None
    } else if entries[0].name@ == name {
        Some(entries[0].ty)
    } else {
        first_tag(entries.drop_first(), name)
    }
}

/// Looks a tag up in the innermost tag scope only.
pub fn find_tag_in_current_scope(tag_scope_stack: &[Vec<TagScope>], name: &str) -> (r: Option<
    Type,
>)
    ensures
        tag_scope_stack@.len() == 0 ==> r.is_none(),
        tag_scope_stack@.len() > 0 ==> r == first_tag(tag_scope_stack@.last()@, name@),
{
    if tag_scope_stack.len() == 0 {
        return None;
    }
    let owned = name.to_owned();
    let scope = &tag_scope_stack[tag_scope_stack.len() - 1];
    let mut k: usize = 0;
    assert(scope@.skip(0) =~= scope@);
    while k < scope.len()
        invariant
            k <= scope.len(),
            owned@ == name@,
            tag_scope_stack@.len() > 0,
            scope == &tag_scope_stack@.last(),
            first_tag(scope@, name@) == first_tag(scope@.skip(k as int), name@),
        decreases scope.len() - k,
    {
        assert(scope@.skip(k as int)[0] == scope@[k as int]);
        assert(scope@.skip(k as int).drop_first() =~= scope@.skip(k + 1));
        if scope[k].name.eq(&owned) {
            return Some(clone_type(&scope[k].ty));
        }
        k += 1;
    }
    assert(scope@.skip(k as int) =~= Seq::<TagScope>::empty());
    None
}

/// Adds a tag to the innermost tag scope.
pub fn push_tag_scope(tag_scope_stack: &mut Vec<Vec<TagScope>>, name: String, ty: Type)
    requires
        old(tag_scope_stack)@.len() > 0,
    ensures
        final(tag_scope_stack)@.len() == old(tag_scope_stack)@.len(),
        final(tag_scope_stack)@.drop_last() == old(tag_scope_stack)@.drop_last(),
        final(tag_scope_stack)@.last()@ == old(tag_scope_stack)@.last()@.push(
            TagScope { name, ty },
        ),
{
    let mut scope = tag_scope_stack.pop().unwrap();
    scope.push(TagScope { name, ty });
    tag_scope_stack.push(scope);
    assert(tag_scope_stack@.drop_last() =~= old(tag_scope_stack)@.drop_last());
}

// ---------------------------------------------------------------------------
// Variables

/// A fresh variable of type `ty` named `name`, with the given identity.
pub open spec fn fresh_var(name: Seq<char>, ty: Type, id: u64) -> ObjV {
    ObjV {
        name,
        ty,
        is_local: false,
        align: ty.align,
        offset: 0,
        is_function: false,
        is_definition: false,
        is_static: false,
        init_data: None,
        rel: None,
        stack_size: 0,
        unique_id: id,
    }
}

/// A variable with a fresh identity from the counters.
pub fn new_var(name: String, ty: Type, c: &mut Counters) -> (r: Obj)
    ensures
        r@ == fresh_var(name@, ty, old(c).var_unique_id),
        final(c).var_unique_id == old(c).var_unique_id.wrapping_add(1),
        final(c).unique_id == old(c).unique_id,
{
    let id = new_var_unique_id(c);
    let align = ty.align;
    Obj {
        name,
        ty,
        is_local: false,
        align,
        offset: 0,
        is_function: false,
        is_definition: false,
        is_static: false,
        init_data: None,
        rel: None,
        stack_size: 0,
        unique_id: id,
    }
}

/// An anonymous global variable definition with a fresh label name.
pub fn new_anon_gvar(ty: Type, c: &mut Counters) -> (r: Obj)
    ensures
        r@ == (ObjV {
            is_definition: true,
            ..fresh_var(
                unique_name_text(old(c).unique_id),
                ty,
                old(c).var_unique_id,
            )
        }),
        final(c).unique_id == old(c).unique_id.wrapping_add(1),
        final(c).var_unique_id == old(c).var_unique_id.wrapping_add(1),
{
    let name = new_unique_name(c);
    let mut var = new_var(name, ty, c);
    var.is_definition = true;
    var
}

/// An anonymous global holding a string literal's bytes and a final NUL.
pub fn new_string_literal(str_content: &[u8], ty: Type, c: &mut Counters) -> (r: Obj)
    ensures
        r@ == (ObjV {
            is_definition: true,
            init_data: Some(str_content@.push(0u8)),
            ..fresh_var(
                unique_name_text(old(c).unique_id),
                ty,
                old(c).var_unique_id,
            )
        }),
        final(c).unique_id == old(c).unique_id.wrapping_add(1),
        final(c).var_unique_id == old(c).var_unique_id.wrapping_add(1),
{
    let mut var = new_anon_gvar(ty, c);
    let mut init_data: Vec<u8> = Vec::new();
    let mut i: usize = 0;
    while i < str_content.len()
        invariant
            i <= str_content.len(),
            init_data@ == str_content@.take(i as int),
        decreases str_content.len() - i,
    {
        init_data.push(str_content[i]);
        i += 1;
        assert(init_data@ =~= str_content@.take(i as int));
    }
    assert(str_content@.take(i as int) =~= str_content@);
    init_data.push(0);
    var.init_data = Some(init_data);
    var
}

/// A local variable: recorded among the function's locals and in the
/// innermost scope.
pub fn new_lvar(
    name: String,
    ty: Type,
    locals: &mut Vec<Obj>,
    scope_stack: &mut Vec<Vec<VarScope>>,
    c: &mut Counters,
) -> (r: Obj)
    requires
        old(scope_stack)@.len() > 0,
    ensures
        r@ == (ObjV { is_local: true, ..fresh_var(name@, ty, old(c).var_unique_id) }),
        final(locals)@.map_values(|o: Obj| o@) == old(locals)@.map_values(|o: Obj| o@).push(r@),
        final(scope_stack)@.len() == old(scope_stack)@.len(),
        final(scope_stack)@.drop_last() == old(scope_stack)@.drop_last(),
        final(scope_stack)@.last()@.map_values(|e: VarScope| e@) == old(
            scope_stack,
        )@.last()@.map_values(|e: VarScope| e@).push(
            VarScopeV { name: name@, var: Some(r@), type_def: None, enum_ty: None, enum_val: 0 },
        ),
        final(c).var_unique_id == old(c).var_unique_id.wrapping_add(1),
        final(c).unique_id == old(c).unique_id,
{
    let mut var = new_var(name.clone(), ty, c);
    var.is_local = true;
    locals.push(clone_obj(&var));
    assert(locals@.map_values(|o: Obj| o@) =~= old(locals)@.map_values(|o: Obj| o@).push(var@));
    let mut scope = scope_stack.pop().unwrap();
    let ghost before = scope@;
    scope.push(
        VarScope { name, var: Some(clone_obj(&var)), type_def: None, enum_ty: None, enum_val: 0 },
    );
    assert(scope@.map_values(|e: VarScope| e@) =~= before.map_values(|e: VarScope| e@).push(
        VarScopeV { name: name@, var: Some(var@), type_def: None, enum_ty: None, enum_val: 0 },
    ));
    scope_stack.push(scope);
    assert(scope_stack@.drop_last() =~= old(scope_stack)@.drop_last());
    var
}

/// The parameter types of a function type, from `t` along `next`.
pub open spec fn param_chain(t: Type) -> Seq<Type>
    decreases t,
{
    match t.next {
        Some(b) => seq![t] + param_chain(*b),
        None => seq![t],
    }
}

/// The first parameter from `j` on without a name (or whose name token is
/// no identifier), or the number of parameters.
pub open spec fn first_unnamed(toks: Seq<Token>, ps: Seq<Type>, j: int) -> int
    decreases ps.len() - j,
{
    if j < 0 || j >= ps.len() {
        ps.len() as int
    } else if ps[j].name.is_none() || toks[ps[j].name.unwrap() as int].kind != TokenKind::Ident {
        j
    } else {
        first_unnamed(toks, ps, j + 1)
    }
}

/// Whether the name (or the place of the missing name) of each parameter
/// read is a token of a known file.
pub open spec fn params_placed(files: Seq<File>, toks: Seq<Token>, ps: Seq<Type>) -> bool {
    forall|j: int|
        0 <= j < ps.len() && j <= first_unnamed(toks, ps, 0) ==> match (#[trigger] ps[j]).name {
            Some(i) => i < toks.len() && has_file(files, toks[i as int].file_no),
            None => ps[j].name_pos matches Some(i) && i < toks.len() && has_file(
                files,
                toks[i as int].file_no,
            ),
        }
}

/// The name of parameter `j`.
pub open spec fn param_name(files: Seq<File>, toks: Seq<Token>, ps: Seq<Type>, j: int) -> Seq<char> {
    token_text(files, toks[ps[j].name.unwrap() as int]@)
}

/// The local variable made for parameter `j`, with identity `id`.
pub open spec fn param_var(files: Seq<File>, toks: Seq<Token>, ps: Seq<Type>, j: int, id: u64) -> ObjV {
    ObjV { is_local: true, ..fresh_var(param_name(files, toks, ps, j), ps[j], id) }
}

/// The local variables made for the first `n` parameters, with identities
/// counted from `id0`.
pub open spec fn param_vars(files: Seq<File>, toks: Seq<Token>, ps: Seq<Type>, id0: u64, n: int) -> Seq<ObjV> {
    Seq::new(n as nat, |i: int| param_var(files, toks, ps, i, (id0 + i) as u64))
}

/// The scope entries made for the first `n` parameters.
pub open spec fn param_entries(files: Seq<File>, toks: Seq<Token>, ps: Seq<Type>, id0: u64, n: int) -> Seq<VarScopeV> {
    Seq::new(
        n as nat,
        |i: int|
            VarScopeV {
                name: param_name(files, toks, ps, i),
                var: Some(param_var(files, toks, ps, i, (id0 + i) as u64)),
                type_def: None,
                enum_ty: None,
                enum_val: 0,
            },
    )
}

proof fn lemma_param_chain(t: Type)
    ensures
        param_chain(t).len() >= 1,
        param_chain(t)[0] == t,
        t.next matches Some(b) ==> param_chain(t).skip(1) == param_chain(*b),
        t.next is None ==> param_chain(t).len() == 1,
{
    match t.next {
        Some(b) => {
            assert(param_chain(t).skip(1) =~= param_chain(*b));
        },
        None => {},
    }
}

proof fn lemma_first_unnamed(toks: Seq<Token>, ps: Seq<Type>, j: int)
    requires
        0 <= j <= ps.len(),
    ensures
        j <= first_unnamed(toks, ps, j) <= ps.len(),
    decreases ps.len() - j,
{
    if j < ps.len() {
        lemma_first_unnamed(toks, ps, j + 1);
    }
}

/// Makes a local variable for each parameter of a function type, in order,
/// each in the innermost scope; a parameter without a name is the error
/// "parameter name omitted" where the name would stand.
#[verifier::rlimit(100)]
pub fn create_param_lvars(
    files: &[File],
    toks: &[Token],
    param: &Type,
    locals: &mut Vec<Obj>,
    scope_stack: &mut Vec<Vec<VarScope>>,
    c: &mut Counters,
) -> (r: Result<(), String>)
    requires
        old(scope_stack)@.len() > 0,
        files_fit(files@),
        params_placed(files@, toks@, param_chain(*param)),
        old(c).var_unique_id + param_chain(*param).len() <= u64::MAX,
    ensures
        ({
            let ps = param_chain(*param);
            let k = first_unnamed(toks@, ps, 0);
            let id0 = old(c).var_unique_id;
            &&& final(locals)@.map_values(|o: Obj| o@) == old(locals)@.map_values(|o: Obj| o@) + param_vars(files@, toks@, ps, id0, k)
            &&& final(scope_stack)@.len() == old(scope_stack)@.len()
            &&& final(scope_stack)@.drop_last() == old(scope_stack)@.drop_last()
            &&& final(scope_stack)@.last()@.map_values(|e: VarScope| e@) == old(scope_stack)@.last()@.map_values(
                |e: VarScope| e@,
            ) + param_entries(files@, toks@, ps, id0, k)
            &&& final(c).var_unique_id == id0 + k
            &&& final(c).unique_id == old(c).unique_id
            &&& k == ps.len() ==> r is Ok
            &&& k < ps.len() && ps[k].name.is_none() ==> (r matches Err(e) && e@ == token_error_text(
                files@,
                toks@[ps[k].name_pos.unwrap() as int]@,
                "parameter name omitted"@,
            ))
            &&& k < ps.len() && ps[k].name.is_some() ==> (r matches Err(e) && e@ == token_error_text(
                files@,
                toks@[ps[k].name.unwrap() as int]@,
                "expected an identifier"@,
            ))
        }),
{
    let ghost ps = param_chain(*param);
    let ghost id0 = old(c).var_unique_id;
    let ghost l0 = old(locals)@.map_values(|o: Obj| o@);
    let ghost s0 = old(scope_stack)@.last()@.map_values(|e: VarScope| e@);
    proof {
        lemma_first_unnamed(toks@, ps, 0);
    }
    let mut cur: &Type = param;
    let mut j: u64 = 0;
    assert(ps.skip(0) =~= ps);
    loop
        invariant_except_break
            j < ps.len(),
            param_chain(*cur) == ps.skip(j as int),
            first_unnamed(toks@, ps, 0) == first_unnamed(toks@, ps, j as int),
        invariant
            ps == param_chain(*param),
            id0 == old(c).var_unique_id,
            l0 == old(locals)@.map_values(|o: Obj| o@),
            s0 == old(scope_stack)@.last()@.map_values(|e: VarScope| e@),
            j <= ps.len(),
            j <= first_unnamed(toks@, ps, 0),
            files_fit(files@),
            params_placed(files@, toks@, ps),
            id0 + ps.len() <= u64::MAX,
            c.var_unique_id == id0 + j,
            c.unique_id == old(c).unique_id,
            scope_stack@.len() == old(scope_stack)@.len(),
            scope_stack@.drop_last() == old(scope_stack)@.drop_last(),
            scope_stack@.len() > 0,
            locals@.map_values(|o: Obj| o@) == l0 + param_vars(files@, toks@, ps, id0, j as int),
            scope_stack@.last()@.map_values(|e: VarScope| e@) == s0 + param_entries(files@, toks@, ps, id0, j as int),
        ensures
            j == ps.len(),
            first_unnamed(toks@, ps, 0) == ps.len(),
        decreases ps.len() - j,
    {
        proof {
            lemma_param_chain(*cur);
            assert(ps.skip(j as int)[0] == ps[j as int]);
        }
        assert(cur == ps[j as int]);
        let name_idx = match cur.name {
            Some(i) => i,
            None => {
                let pos = match cur.name_pos {
                    Some(p) => p,
                    None => {
                        assert(false);
                        0
                    },
                };
                proof {
                    crate::tokenize::lemma_file_index_valid(files@, toks@[pos as int].file_no);
                    assert(first_unnamed(toks@, ps, j as int) == j);
                }
                let e = error_tok(files, &toks[pos], "parameter name omitted");
                return Err(e);
            },
        };
        proof {
            crate::tokenize::lemma_file_index_valid(files@, toks@[name_idx as int].file_no);
        }
        let name = match get_ident(files, &toks[name_idx]) {
            Ok(n) => n,
            Err(e) => {
                assert(first_unnamed(toks@, ps, j as int) == j);
                return Err(e);
            },
        };
        assert(first_unnamed(toks@, ps, j as int) == first_unnamed(toks@, ps, j + 1));
        proof {
            lemma_first_unnamed(toks@, ps, j + 1);
        }
        let _ = new_lvar(name, clone_type(cur), locals, scope_stack, c);
        proof {
            assert(locals@.map_values(|o: Obj| o@) =~= l0 + param_vars(files@, toks@, ps, id0, j + 1));
            assert(scope_stack@.last()@.map_values(|e: VarScope| e@) =~= s0 + param_entries(files@, toks@, ps, id0, j + 1));
        }
        j = j + 1;
        match &cur.next {
            Some(b) => {
                assert(ps.skip(j as int) =~= ps.skip(j - 1).skip(1));
                cur = &**b;
            },
            None => {
                assert(ps.len() == j);
                break;
            },
        }
    }
    Ok(())
}

/// A global variable definition (marked static).
pub fn new_gvar(name: String, ty: Type, c: &mut Counters) -> (r: Obj)
    ensures
        r@ == (ObjV {
            is_definition: true,
            is_static: true,
            ..fresh_var(name@, ty, old(c).var_unique_id)
        }),
        final(c).var_unique_id == old(c).var_unique_id.wrapping_add(1),
        final(c).unique_id == old(c).unique_id,
{
    let mut var = new_var(name, ty, c);
    var.is_local = false;
    var.is_definition = true;
    var.is_static = true;
    var
}

/// The name an identifier token spells, or the "expected an identifier"
/// error at it.
pub fn get_ident(files: &[File], tok: &Token) -> (r: Result<String, String>)
    requires
        has_file(files@, tok.file_no),
        files@[file_index(files@, tok.file_no)].contents@.len() <= usize::MAX / 16,
        files@[file_index(files@, tok.file_no)].name@.len() <= usize::MAX / 16,
    ensures
        tok.kind == TokenKind::Ident ==> r.is_ok() && r.unwrap()@ == token_text(files@, tok@),
        tok.kind != TokenKind::Ident ==> r.is_err() && r.unwrap_err()@ == token_error_text(
            files@,
            tok@,
            "expected an identifier"@,
        ),
{
    if tok.kind != TokenKind::Ident {
        return Err(error_tok(files, tok, "expected an identifier"));
    }
    Ok(token_name(files, tok))
}

/// Whether the tokens at `i` close a brace-enclosed list: `}`, or `,`
/// followed by `}`.
pub open spec fn list_end_at(files: Seq<File>, toks: Seq<Token>, i: int) -> bool {
    spec_equal(files, toks[i]@, "}"@) || (spec_equal(files, toks[i]@, ","@) && i + 1 < toks.len() && spec_equal(
        files,
        toks[i + 1]@,
        "}"@,
    ))
}

/// Whether the tokens at `i` close a brace-enclosed list.
pub fn is_end(files: &[File], toks: &[Token], i: usize) -> (r: bool)
    requires
        i < toks.len(),
    ensures
        r == list_end_at(files@, toks@, i as int),
{
    equal(files, &toks[i], "}") || (equal(files, &toks[i], ",") && i + 1 < toks.len() && equal(
        files,
        &toks[i + 1],
        "}",
    ))
}

/// Skips the end of a brace-enclosed list at `i` (`}` or `, }`): whether
/// there was one, and the position after it (or `i`).
pub fn consume_end(files: &[File], toks: &[Token], i: usize) -> (r: (bool, usize))
    requires
        crate::tokenize::well_ended(toks@),
        i < toks.len(),
    ensures
        spec_equal(files@, toks@[i as int]@, "}"@) ==> r == (true, (i + 1) as usize),
        !spec_equal(files@, toks@[i as int]@, "}"@) && list_end_at(files@, toks@, i as int) ==> r == (
            true,
            (i + 2) as usize,
        ),
        !list_end_at(files@, toks@, i as int) ==> r == (false, i),
        r.1 < toks.len(),
{
    if equal(files, &toks[i], "}") {
        assert(toks@[i as int].kind != TokenKind::Eof);
        return (true, i + 1);
    }
    if equal(files, &toks[i], ",") && i + 1 < toks.len() && equal(files, &toks[i + 1], "}") {
        assert(toks@[i + 1].kind != TokenKind::Eof);
        return (true, i + 2);
    }
    (false, i)
}

/// The value of a number token.
pub fn get_number(tok: &Token) -> (r: Result<i64, String>)
    ensures
        tok.kind == TokenKind::Num ==> r == Ok::<i64, String>(tok.val),
        tok.kind != TokenKind::Num ==> r.is_err() && r.unwrap_err()@ == "expected a number"@,
{
    if tok.kind != TokenKind::Num {
        return Err(String::from_str("expected a number"));
    }
    Ok(tok.val)
}

// ---------------------------------------------------------------------------
// Types of expressions

/// A pointer to `base`.
pub fn pointer_to(base: Type) -> (r: Type)
    ensures
        r == (Type { base: Some(Box::new(base)), ..plain_type(TypeKind::Ptr, 8, 8, true) }),
{
    Type::new_ptr(base)
}

/// The function type `func_type(ret)`: a function returning `ret`, with no
/// parameters yet, of size and alignment 0.
pub open spec fn spec_func_type(return_ty: Type) -> Type {
    Type { return_ty: Some(Box::new(return_ty)), ..plain_type(TypeKind::Func, 0, 0, false) }
}

/// A function type returning `return_ty`.
pub fn func_type(return_ty: Type) -> (r: Type)
    ensures
        r == spec_func_type(return_ty),
{
    let mut t = Type::new_void();
    t.kind = TypeKind::Func;
    t.size = 0;
    t.align = 0;
    t.return_ty = Some(Box::new(return_ty));
    t
}

/// A copy of a type.
pub fn copy_type(ty: &Type) -> (r: Type)
    ensures
        r == *ty,
{
    clone_type(ty)
}

/// A copy of a struct type with its own copy of the member list.
pub fn copy_struct_type(ty: &Type) -> (r: Type)
    ensures
        r == *ty,
{
    let mut t = copy_type(ty);
    t.members = match &ty.members {
        Some(m) => Some(Box::new(clone_member(m))),
        None => None,
    };
    t
}

/// The type two operands are converted to: pointers and functions decay to
/// pointers, floating types win, small integers become `int`, then the
/// larger size wins, and on a tie the second if it is unsigned.
pub open spec fn spec_common_type(ty1: Type, ty2: Type) -> Type {
    if ty1.base.is_some() {
        Type { base: Some(Box::new(*ty1.base.unwrap())), ..plain_type(TypeKind::Ptr, 8, 8, true) }
    } else if ty1.kind == TypeKind::Func {
        Type { base: Some(Box::new(ty1)), ..plain_type(TypeKind::Ptr, 8, 8, true) }
    } else if ty2.kind == TypeKind::Func {
        Type { base: Some(Box::new(ty2)), ..plain_type(TypeKind::Ptr, 8, 8, true) }
    } else if ty1.kind == TypeKind::Double || ty2.kind == TypeKind::Double {
        plain_type(TypeKind::Double, 8, 8, false)
    } else if ty1.kind == TypeKind::Float || ty2.kind == TypeKind::Float {
        plain_type(TypeKind::Float, 4, 4, false)
    } else {
        let t1 = if ty1.size < 4 {
            plain_type(TypeKind::Int, 4, 4, false)
        } else {
            ty1
        };
        let t2 = if ty2.size < 4 {
            plain_type(TypeKind::Int, 4, 4, false)
        } else {
            ty2
        };
        if t1.size != t2.size {
            if t1.size < t2.size {
                t2
            } else {
                t1
            }
        } else if t2.is_unsigned {
            t2
        } else {
            t1
        }
    }
}

/// Pointer operands: a left operand that points to something (a pointer
/// or an array) makes the common type a pointer to the same base; a
/// function operand, otherwise, makes it a pointer to that function.
pub proof fn law_common_pointer_type(t1: Type, t2: Type)
    ensures
        t1.base.is_some() ==> spec_common_type(t1, t2).kind == TypeKind::Ptr && spec_common_type(
            t1,
            t2,
        ).size == 8 && spec_common_type(t1, t2).base == t1.base,
        t1.base.is_none() && t1.kind == TypeKind::Func ==> spec_common_type(t1, t2).kind
            == TypeKind::Ptr && spec_common_type(t1, t2).base == Some(Box::new(t1)),
        t1.base.is_none() && t1.kind != TypeKind::Func && t2.kind == TypeKind::Func
            ==> spec_common_type(t1, t2).kind == TypeKind::Ptr && spec_common_type(t1, t2).base == Some(
            Box::new(t2),
        ),
{
}

/// Floating operands: when neither operand is a pointer, array or function,
/// a `double` operand makes the common type `double` and otherwise a
/// `float` operand makes it `float`, in either order of the operands.
pub proof fn law_common_floating_type(t1: Type, t2: Type)
    requires
        t1.base.is_none(),
        t2.base.is_none(),
        t1.kind != TypeKind::Func,
        t2.kind != TypeKind::Func,
    ensures
        (t1.kind == TypeKind::Double || t2.kind == TypeKind::Double) ==> spec_common_type(t1, t2).kind
            == TypeKind::Double && spec_common_type(t1, t2).size == 8 && spec_common_type(t2, t1).kind
            == TypeKind::Double,
        (t1.kind != TypeKind::Double && t2.kind != TypeKind::Double && (t1.kind == TypeKind::Float
            || t2.kind == TypeKind::Float)) ==> spec_common_type(t1, t2).kind == TypeKind::Float
            && spec_common_type(t1, t2).size == 4 && spec_common_type(t2, t1).kind == TypeKind::Float
            && spec_common_type(t2, t1).size == 4,
{
}

/// Whether a type is an integer type of its usual size: `_Bool` and
/// `char` of one byte, `short` of two, `int` of four, `long` of eight.
pub open spec fn sized_integer(t: Type) -> bool {
    &&& t.base.is_none()
    &&& ((t.kind == TypeKind::Bool || t.kind == TypeKind::Char) && t.size == 1 || t.kind
        == TypeKind::Short && t.size == 2 || t.kind == TypeKind::Int && t.size == 4 || t.kind
        == TypeKind::Long && t.size == 8)
}

/// An integer type after promotion: types smaller than `int` become `int`.
pub open spec fn promoted(t: Type) -> Type {
    if t.size < 4 {
        plain_type(TypeKind::Int, 4, 4, false)
    } else {
        t
    }
}

/// The usual arithmetic conversion of two integer types: the common type
/// is as large as the larger promoted operand and at least `int`; on equal
/// sizes it is unsigned when either promoted operand is, and otherwise it
/// is signed as the larger one is. It does not depend on the order of the
/// operands.
pub proof fn law_common_integer_type(t1: Type, t2: Type)
    requires
        sized_integer(t1),
        sized_integer(t2),
    ensures
        ({
            let r = spec_common_type(t1, t2);
            let r2 = spec_common_type(t2, t1);
            let p1 = promoted(t1);
            let p2 = promoted(t2);
            &&& r.size == if p1.size < p2.size {
                p2.size
            } else {
                p1.size
            }
            &&& r.size >= 4
            &&& r.is_unsigned == if p1.size == p2.size {
                p1.is_unsigned || p2.is_unsigned
            } else if p1.size < p2.size {
                p2.is_unsigned
            } else {
                p1.is_unsigned
            }
            &&& r.kind == r2.kind
            &&& r.size == r2.size
            &&& r.is_unsigned == r2.is_unsigned
        }),
{
}

/// The common type of two operands.
pub fn get_common_type(ty1: &Type, ty2: &Type) -> (r: Type)
    ensures
        r == spec_common_type(*ty1, *ty2),
{
    if let Some(base) = &ty1.base {
        return Type::new_ptr(clone_type(base));
    }
    if ty1.kind == TypeKind::Func {
        return pointer_to(clone_type(ty1));
    }
    if ty2.kind == TypeKind::Func {
        return pointer_to(clone_type(ty2));
    }
    if ty1.kind == TypeKind::Double || ty2.kind == TypeKind::Double {
        return Type::new_double();
    }
    if ty1.kind == TypeKind::Float || ty2.kind == TypeKind::Float {
        return Type::new_float();
    }
    let t1 = if ty1.size < 4 {
        Type::new_int()
    } else {
        clone_type(ty1)
    };
    let t2 = if ty2.size < 4 {
        Type::new_int()
    } else {
        clone_type(ty2)
    };
    if t1.size != t2.size {
        return if t1.size < t2.size {
            t2
        } else {
            t1
        };
    }
    if t2.is_unsigned {
        t2
    } else {
        t1
    }
}


// ---------------------------------------------------------------------------
// Type checking

/// The cast of an already typed expression to `ty`.
pub open spec fn cast_node(e: Node, ty: Type) -> Node {
    Node {
        lhs: Some(Box::new(e)),
        ty: Some(ty),
        ..node_at(NodeKind::Cast, e.tok_loc, e.file_no, e.line_no)
    }
}

/// Whether `v` fits in 32 bits as a signed number.
pub open spec fn fits_i32(v: i64) -> bool {
    i32::MIN <= v <= i32::MAX
}

/// Whether a node kind is an arithmetic binary operator.
pub open spec fn is_arith_kind(k: NodeKind) -> bool {
    k == NodeKind::Add || k == NodeKind::Sub || k == NodeKind::Mul || k == NodeKind::Div || k
        == NodeKind::Mod || k == NodeKind::BitAnd || k == NodeKind::BitOr || k == NodeKind::BitXor
        || k == NodeKind::Shl || k == NodeKind::Shr
}

/// Whether a node kind is a comparison.
pub open spec fn is_cmp_kind(k: NodeKind) -> bool {
    k == NodeKind::Eq || k == NodeKind::Ne || k == NodeKind::Lt || k == NodeKind::Le
}

/// The last statement of a statement list.
pub open spec fn last_stmt(n: Node) -> Node
    decreases n,
{
    match n.next {
        Some(b) => last_stmt(*b),
        None => n,
    }
}

/// The type an expression node gets once its children are typed (`n` is the
/// node with typed children; the children may be replaced by casts).
#[verifier::opaque]
pub open spec fn finish_type(n: Node) -> Node {
    let int_ty = plain_type(TypeKind::Int, 4, 4, false);
    if n.kind == NodeKind::Num {
        Node {
            ty: Some(
                if fits_i32(n.val) {
                    int_ty
                } else {
                    plain_type(TypeKind::Long, 8, 8, false)
                },
            ),
            ..n
        }
    } else if is_arith_kind(n.kind) || is_cmp_kind(n.kind) {
        let l = *n.lhs.unwrap();
        let r = *n.rhs.unwrap();
        let t = spec_common_type(l.ty.unwrap(), r.ty.unwrap());
        Node {
            lhs: Some(Box::new(cast_node(l, t))),
            rhs: Some(Box::new(cast_node(r, t))),
            ty: Some(
                if is_cmp_kind(n.kind) {
                    int_ty
                } else {
                    t
                },
            ),
            ..n
        }
    } else if n.kind == NodeKind::Neg {
        let l = *n.lhs.unwrap();
        let t = spec_common_type(int_ty, l.ty.unwrap());
        Node { lhs: Some(Box::new(cast_node(l, t))), ty: Some(t), ..n }
    } else if n.kind == NodeKind::Assign {
        let lt = n.lhs.unwrap().ty.unwrap();
        if lt.kind == TypeKind::Array {
            Node { ty: Some(int_ty), ..n }
        } else if lt.kind != TypeKind::Struct && lt.kind != TypeKind::Union {
            Node { rhs: Some(Box::new(cast_node(*n.rhs.unwrap(), lt))), ty: Some(lt), ..n }
        } else {
            Node { ty: Some(lt), ..n }
        }
    } else if n.kind == NodeKind::FuncCall {
        Node { ty: Some(plain_type(TypeKind::Long, 8, 8, false)), ..n }
    } else if n.kind == NodeKind::Not || n.kind == NodeKind::LogAnd || n.kind == NodeKind::LogOr {
        Node { ty: Some(int_ty), ..n }
    } else if n.kind == NodeKind::BitNot {
        Node { ty: n.lhs.unwrap().ty, ..n }
    } else if n.kind == NodeKind::Var {
        Node { ty: Some(n.var.unwrap().ty), ..n }
    } else if n.kind == NodeKind::Cond {
        let t = *n.then_br.unwrap();
        let e = *n.els.unwrap();
        if t.ty.unwrap().kind == TypeKind::Void || e.ty.unwrap().kind == TypeKind::Void {
            Node { ty: Some(plain_type(TypeKind::Void, 1, 1, false)), ..n }
        } else {
            let c = spec_common_type(t.ty.unwrap(), e.ty.unwrap());
            Node {
                then_br: Some(Box::new(cast_node(t, c))),
                els: Some(Box::new(cast_node(e, c))),
                ty: Some(c),
                ..n
            }
        }
    } else if n.kind == NodeKind::Comma {
        Node { ty: n.rhs.unwrap().ty, ..n }
    } else if n.kind == NodeKind::Member {
        Node { ty: Some(n.member.unwrap().ty), ..n }
    } else if n.kind == NodeKind::Addr {
        let lt = n.lhs.unwrap().ty.unwrap();
        if lt.kind == TypeKind::Array {
            Node {
                ty: Some(
                    Type {
                        base: Some(Box::new(*lt.base.unwrap())),
                        ..plain_type(TypeKind::Ptr, 8, 8, true)
                    },
                ),
                ..n
            }
        } else {
            Node {
                ty: Some(Type { base: Some(Box::new(lt)), ..plain_type(TypeKind::Ptr, 8, 8, true) }),
                ..n
            }
        }
    } else if n.kind == NodeKind::Deref {
        let lt = n.lhs.unwrap().ty.unwrap();
        if lt.kind == TypeKind::Ptr || lt.kind == TypeKind::Array {
            Node { ty: Some(*lt.base.unwrap()), ..n }
        } else {
            Node { ty: Some(int_ty), ..n }
        }
    } else if n.kind == NodeKind::StmtExpr {
        match n.body {
            Some(b) => if last_stmt(*b).kind == NodeKind::ExprStmt {
                Node { ty: last_stmt(*b).lhs.unwrap().ty, ..n }
            } else {
                n
            },
            None => n,
        }
    } else {
        n
    }
}

/// Whether `finish_type` finds everything it needs in a node with typed
/// children.
pub open spec fn can_finish(n: Node) -> bool {
    if is_arith_kind(n.kind) || is_cmp_kind(n.kind) {
        n.lhs.is_some() && n.rhs.is_some() && n.lhs.unwrap().ty.is_some()
            && n.rhs.unwrap().ty.is_some()
    } else if n.kind == NodeKind::Neg {
        n.lhs.is_some() && n.lhs.unwrap().ty.is_some()
    } else if n.kind == NodeKind::Assign {
        n.lhs.is_some() && n.lhs.unwrap().ty.is_some() && ((n.lhs.unwrap().ty.unwrap().kind
            != TypeKind::Array && n.lhs.unwrap().ty.unwrap().kind != TypeKind::Struct
            && n.lhs.unwrap().ty.unwrap().kind != TypeKind::Union) ==> n.rhs.is_some())
    } else if n.kind == NodeKind::BitNot {
        n.lhs.is_some()
    } else if n.kind == NodeKind::Var {
        n.var.is_some()
    } else if n.kind == NodeKind::Cond {
        n.then_br.is_some() && n.els.is_some() && n.then_br.unwrap().ty.is_some()
            && n.els.unwrap().ty.is_some()
    } else if n.kind == NodeKind::Comma {
        n.rhs.is_some()
    } else if n.kind == NodeKind::Member {
        n.member.is_some()
    } else if n.kind == NodeKind::Addr {
        n.lhs.is_some() && n.lhs.unwrap().ty.is_some() && (n.lhs.unwrap().ty.unwrap().kind
            == TypeKind::Array ==> n.lhs.unwrap().ty.unwrap().base.is_some())
    } else if n.kind == NodeKind::Deref {
        n.lhs.is_some() && n.lhs.unwrap().ty.is_some() && ((n.lhs.unwrap().ty.unwrap().kind
            == TypeKind::Ptr || n.lhs.unwrap().ty.unwrap().kind == TypeKind::Array)
            ==> n.lhs.unwrap().ty.unwrap().base.is_some())
    } else if n.kind == NodeKind::StmtExpr {
        match n.body {
            Some(b) => last_stmt(*b).kind == NodeKind::ExprStmt ==> last_stmt(*b).lhs.is_some(),
            None => true,
        }
    } else {
        true
    }
}

/// A node with its children typed and its own type filled in; nodes that
/// have a type already are left as they are. `add_type` computes it.
pub open spec fn typed(n: Node) -> Node
    decreases n, 1nat,
{
    if n.ty.is_some() {
        n
    } else {
        finish_type(
            Node {
                lhs: typed_opt(n.lhs),
                rhs: typed_opt(n.rhs),
                cond: typed_opt(n.cond),
                then_br: typed_opt(n.then_br),
                els: typed_opt(n.els),
                init: typed_opt(n.init),
                inc: typed_opt(n.inc),
                body: typed_list(n.body),
                args: typed_list(n.args),
                ..n
            },
        )
    }
}

/// An optional child, typed.
pub open spec fn typed_opt(o: Option<Box<Node>>) -> Option<Box<Node>>
    decreases o, 0nat,
{
    match o {
        Some(b) => Some(Box::new(typed(*b))),
        None => None,
    }
}

/// A list of nodes linked through `next`, each typed.
pub open spec fn typed_list(o: Option<Box<Node>>) -> Option<Box<Node>>
    decreases o, 0nat,
{
    match o {
        Some(b) => Some(Box::new(Node { next: typed_list(b.next), ..typed(*b) })),
        None => None,
    }
}

/// Whether typing a node never finds a part missing that it needs.
pub open spec fn typeable(n: Node) -> bool
    decreases n, 1nat,
{
    n.ty.is_some() || (typeable_opt(n.lhs) && typeable_opt(n.rhs) && typeable_opt(n.cond)
        && typeable_opt(n.then_br) && typeable_opt(n.els) && typeable_opt(n.init) && typeable_opt(
        n.inc,
    ) && typeable_list(n.body) && typeable_list(n.args) && can_finish(
        Node {
            lhs: typed_opt(n.lhs),
            rhs: typed_opt(n.rhs),
            cond: typed_opt(n.cond),
            then_br: typed_opt(n.then_br),
            els: typed_opt(n.els),
            init: typed_opt(n.init),
            inc: typed_opt(n.inc),
            body: typed_list(n.body),
            args: typed_list(n.args),
            ..n
        },
    ))
}

/// Whether an optional child is typeable.
pub open spec fn typeable_opt(o: Option<Box<Node>>) -> bool
    decreases o, 0nat,
{
    match o {
        Some(b) => typeable(*b),
        None => true,
    }
}

/// Whether every node of a list is typeable.
pub open spec fn typeable_list(o: Option<Box<Node>>) -> bool
    decreases o, 0nat,
{
    match o {
        Some(b) => typeable(*b) && typeable_list(b.next),
        None => true,
    }
}

fn add_type_opt(o: &mut Option<Box<Node>>)
    requires
        typeable_opt(*old(o)),
    ensures
        *final(o) == typed_opt(*old(o)),
    decreases *old(o),
{
    match o.take() {
        Some(mut b) => {
            add_type(&mut *b);
            *o = Some(b);
        },
        None => {},
    }
}

fn add_type_list(o: &mut Option<Box<Node>>)
    requires
        typeable_list(*old(o)),
    ensures
        *final(o) == typed_list(*old(o)),
    decreases *old(o),
{
    match o.take() {
        Some(mut b) => {
            let ghost b0 = *b;
            proof {
                lemma_typed_frame(b0);
            }
            add_type(&mut *b);
            let mut next = b.next.take();
            add_type_list(&mut next);
            b.next = next;
            assert(*b == Node { next: typed_list(b0.next), ..typed(b0) });
            *o = Some(b);
        },
        None => {},
    }
}

fn last_stmt_ref(n: &Node) -> (r: &Node)
    ensures
        *r == last_stmt(*n),
    decreases n,
{
    match &n.next {
        Some(b) => last_stmt_ref(b),
        None => n,
    }
}

fn cast_to(e: Node, ty: Type) -> (r: Node)
    ensures
        r == cast_node(e, ty),
{
    let mut node = new_node(NodeKind::Cast, e.tok_loc, e.file_no, e.line_no);
    node.lhs = Some(Box::new(e));
    node.ty = Some(ty);
    node
}

/// Fills in the type of every expression in a tree, inserting the casts of
/// the usual arithmetic conversions.
pub fn add_type(node: &mut Node)
    requires
        typeable(*old(node)),
    ensures
        *final(node) == typed(*old(node)),
    decreases *old(node),
{
    if node.ty.is_some() {
        return;
    }
    let ghost n0 = *node;
    add_type_opt(&mut node.lhs);
    add_type_opt(&mut node.rhs);
    add_type_opt(&mut node.cond);
    add_type_opt(&mut node.then_br);
    add_type_opt(&mut node.els);
    add_type_opt(&mut node.init);
    add_type_opt(&mut node.inc);
    add_type_list(&mut node.body);
    add_type_list(&mut node.args);
    let ghost n1 = *node;
    proof {
        lemma_typed_idem_opt(n0.rhs);
    }
    assert(n1 == Node {
        lhs: typed_opt(n0.lhs),
        rhs: typed_opt(n0.rhs),
        cond: typed_opt(n0.cond),
        then_br: typed_opt(n0.then_br),
        els: typed_opt(n0.els),
        init: typed_opt(n0.init),
        inc: typed_opt(n0.inc),
        body: typed_list(n0.body),
        args: typed_list(n0.args),
        ..n0
    });
    finish_type_exec(node);
}

/// Whether the right side of an assignment that gets a cast is typeable and
/// typed already.
pub open spec fn rhs_settled(n: Node) -> bool {
    (n.kind == NodeKind::Assign && n.lhs.is_some() && n.lhs.unwrap().ty.is_some() && n.lhs.unwrap().ty.unwrap().kind
        != TypeKind::Array && n.lhs.unwrap().ty.unwrap().kind != TypeKind::Struct
        && n.lhs.unwrap().ty.unwrap().kind != TypeKind::Union && n.rhs.is_some()) ==> (typeable(
        *n.rhs.unwrap(),
    ) && typed(*n.rhs.unwrap()) == *n.rhs.unwrap())
}

#[verifier::rlimit(60)]
fn finish_arith(node: &mut Node)
    requires
        can_finish(*old(node)),
        rhs_settled(*old(node)),
        is_arith_kind(old(node).kind) || is_cmp_kind(old(node).kind),
    ensures
        *final(node) == finish_type(*old(node)),
{
    reveal(finish_type);
    let mut l = node.lhs.take().unwrap();
    let mut r = node.rhs.take().unwrap();
    usual_arith_conv(&mut *l, &mut *r);
    let is_comparison = match node.kind {
        NodeKind::Eq | NodeKind::Ne | NodeKind::Lt | NodeKind::Le => true,
        _ => false,
    };
    if is_comparison {
        node.ty = Some(Type::new_int());
    } else {
        node.ty = clone_type_o(&l.ty);
    }
    node.lhs = Some(l);
    node.rhs = Some(r);
}

#[verifier::rlimit(60)]
fn finish_neg(node: &mut Node)
    requires
        can_finish(*old(node)),
        rhs_settled(*old(node)),
        old(node).kind == NodeKind::Neg,
    ensures
        *final(node) == finish_type(*old(node)),
{
    reveal(finish_type);
    let l = node.lhs.take().unwrap();
    let t = get_common_type(&Type::new_int(), l.ty.as_ref().unwrap());
    let t2 = clone_type(&t);
    node.lhs = Some(Box::new(cast_to(*l, t)));
    node.ty = Some(t2);
}

#[verifier::rlimit(60)]
fn finish_assign(node: &mut Node)
    requires
        can_finish(*old(node)),
        rhs_settled(*old(node)),
        old(node).kind == NodeKind::Assign,
    ensures
        *final(node) == finish_type(*old(node)),
{
    reveal(finish_type);
    let lt = clone_type(node.lhs.as_ref().unwrap().ty.as_ref().unwrap());
    if lt.kind == TypeKind::Array {
        node.ty = Some(Type::new_int());
    } else {
        if lt.kind != TypeKind::Struct && lt.kind != TypeKind::Union {
            let r = node.rhs.take().unwrap();
            // typing the settled right side again would leave it as it is
            let c = cast_to(*r, clone_type(&lt));
            node.rhs = Some(Box::new(c));
        }
        node.ty = Some(lt);
    }
}

#[verifier::rlimit(60)]
fn finish_cond(node: &mut Node)
    requires
        can_finish(*old(node)),
        rhs_settled(*old(node)),
        old(node).kind == NodeKind::Cond,
    ensures
        *final(node) == finish_type(*old(node)),
{
    reveal(finish_type);
    let tk = node.then_br.as_ref().unwrap().ty.as_ref().unwrap().kind;
    let ek = node.els.as_ref().unwrap().ty.as_ref().unwrap().kind;
    if tk == TypeKind::Void || ek == TypeKind::Void {
        node.ty = Some(Type::new_void());
    } else {
        let mut t = node.then_br.take().unwrap();
        let mut e = node.els.take().unwrap();
        usual_arith_conv(&mut *t, &mut *e);
        node.ty = clone_type_o(&t.ty);
        node.then_br = Some(t);
        node.els = Some(e);
    }
}

#[verifier::rlimit(60)]
fn finish_addr(node: &mut Node)
    requires
        can_finish(*old(node)),
        rhs_settled(*old(node)),
        old(node).kind == NodeKind::Addr,
    ensures
        *final(node) == finish_type(*old(node)),
{
    reveal(finish_type);
    let lt = node.lhs.as_ref().unwrap().ty.as_ref().unwrap();
    if lt.kind == TypeKind::Array {
        node.ty = Some(Type::new_ptr(clone_type(lt.base.as_ref().unwrap())));
    } else {
        node.ty = Some(Type::new_ptr(clone_type(lt)));
    }
}

#[verifier::rlimit(60)]
fn finish_deref(node: &mut Node)
    requires
        can_finish(*old(node)),
        rhs_settled(*old(node)),
        old(node).kind == NodeKind::Deref,
    ensures
        *final(node) == finish_type(*old(node)),
{
    reveal(finish_type);
    let lt = node.lhs.as_ref().unwrap().ty.as_ref().unwrap();
    if lt.kind == TypeKind::Ptr || lt.kind == TypeKind::Array {
        node.ty = Some(clone_type(lt.base.as_ref().unwrap()));
    } else {
        node.ty = Some(Type::new_int());
    }
}

#[verifier::rlimit(60)]
fn finish_type_exec(node: &mut Node)
    requires
        can_finish(*old(node)),
        rhs_settled(*old(node)),
    ensures
        *final(node) == finish_type(*old(node)),
{
    reveal(finish_type);
    match node.kind {
        NodeKind::Num => {
            if node.val == (node.val as i32) as i64 {
                node.ty = Some(Type::new_int());
            } else {
                node.ty = Some(Type::new_long());
            }
        },
        NodeKind::Add | NodeKind::Sub | NodeKind::Mul | NodeKind::Div | NodeKind::Mod
        | NodeKind::BitAnd | NodeKind::BitOr | NodeKind::BitXor | NodeKind::Shl | NodeKind::Shr
        | NodeKind::Eq | NodeKind::Ne | NodeKind::Lt | NodeKind::Le => {
            finish_arith(node);
        },
        NodeKind::Neg => {
            finish_neg(node);
        },
        NodeKind::Assign => {
            finish_assign(node);
        },
        NodeKind::FuncCall => {
            node.ty = Some(Type::new_long());
        },
        NodeKind::Not | NodeKind::LogAnd | NodeKind::LogOr => {
            node.ty = Some(Type::new_int());
        },
        NodeKind::BitNot => {
            node.ty = clone_type_o(&node.lhs.as_ref().unwrap().ty);
        },
        NodeKind::Var => {
            node.ty = Some(clone_type(&node.var.as_ref().unwrap().ty));
        },
        NodeKind::Cond => {
            finish_cond(node);
        },
        NodeKind::Comma => {
            node.ty = clone_type_o(&node.rhs.as_ref().unwrap().ty);
        },
        NodeKind::Member => {
            node.ty = Some(clone_type(&node.member.as_ref().unwrap().ty));
        },
        NodeKind::Addr => {
            finish_addr(node);
        },
        NodeKind::Deref => {
            finish_deref(node);
        },
        NodeKind::StmtExpr => {
            if let Some(body) = &node.body {
                let st = last_stmt_ref(body);
                if st.kind == NodeKind::ExprStmt {
                    node.ty = clone_type_o(&st.lhs.as_ref().unwrap().ty);
                }
            }
        },
        _ => {},
    }
}

/// Converts both operands to their common type.
pub fn usual_arith_conv(lhs: &mut Node, rhs: &mut Node)
    requires
        old(lhs).ty.is_some(),
        old(rhs).ty.is_some(),
    ensures
        *final(lhs) == cast_node(
            *old(lhs),
            spec_common_type(old(lhs).ty.unwrap(), old(rhs).ty.unwrap()),
        ),
        *final(rhs) == cast_node(
            *old(rhs),
            spec_common_type(old(lhs).ty.unwrap(), old(rhs).ty.unwrap()),
        ),
{
    let t = get_common_type(lhs.ty.as_ref().unwrap(), rhs.ty.as_ref().unwrap());
    let mut l = new_node(NodeKind::NullExpr, 0, 0, 0);
    std::mem::swap(&mut l, lhs);
    let mut r = new_node(NodeKind::NullExpr, 0, 0, 0);
    std::mem::swap(&mut r, rhs);
    *lhs = cast_to(l, clone_type(&t));
    *rhs = cast_to(r, t);
}

/// The cast of an expression to `ty`; the expression is typed first.
pub fn new_cast(expr: Node, ty: Type) -> (r: Node)
    requires
        typeable(expr),
    ensures
        r == (Node {
            lhs: Some(Box::new(typed(expr))),
            ty: Some(ty),
            ..node_at(NodeKind::Cast, expr.tok_loc, expr.file_no, expr.line_no)
        }),
{
    let mut expr = expr;
    let ghost e0 = expr;
    proof {
        lemma_typed_frame(e0);
    }
    add_type(&mut expr);
    assert(expr.tok_loc == e0.tok_loc && expr.file_no == e0.file_no && expr.line_no == e0.line_no);
    let mut node = new_node(NodeKind::Cast, expr.tok_loc, expr.file_no, expr.line_no);
    node.lhs = Some(Box::new(expr));
    node.ty = Some(ty);
    node
}


// ---------------------------------------------------------------------------
// Struct members and type names

/// The first member of a member list with the given name.
pub open spec fn find_member(m: Option<Box<Member>>, name: Seq<char>) -> Option<Member>
    decreases m,
{
    match m {
        Some(b) => if b.name.is_some() && b.name.unwrap()@ == name {
            Some(*b)
        } else {
            find_member(b.next, name)
        },
        None => None,
    }
}

/// Whether the diagnostics for a token's file can be formed.
pub open spec fn tok_reportable(files: Seq<File>, tok: Token) -> bool {
    has_file(files, tok.file_no) && files_fit(files)
}

/// The member of a struct or union type that the token names, or the error
/// "no such member" at the token.
pub fn get_struct_member(files: &[File], ty: &Type, tok: &Token) -> (r: Result<Member, String>)
    requires
        tok_reportable(files@, *tok),
    ensures
        match find_member(ty.members, token_text(files@, tok@)) {
            Some(m) => r == Ok::<Member, String>(m),
            None => r matches Err(e) && e@ == token_error_text(files@, tok@, "no such member"@),
        },
{
    proof {
        crate::tokenize::lemma_file_index_valid(files@, tok.file_no);
    }
    let name = token_name(files, tok);
    let mut cur = &ty.members;
    while cur.is_some()
        invariant
            name@ == token_text(files@, tok@),
            find_member(*cur, name@) == find_member(ty.members, name@),
        decreases *cur,
    {
        let m = cur.as_ref().unwrap();
        let hit = match &m.name {
            Some(n) => n.eq(&name),
            None => false,
        };
        if hit {
            return Ok(clone_member(m));
        }
        cur = &m.next;
    }
    Err(error_tok(files, tok, "no such member"))
}

/// The access `lhs.member` named by `tok`; `lhs` is typed first and must be
/// a struct or a union.
pub fn struct_ref(files: &[File], lhs: Node, tok: &Token) -> (r: Result<Node, String>)
    requires
        typeable(lhs),
        typed(lhs).ty.is_some(),
        tok_reportable(files@, *tok),
    ensures
        ({
            let l = typed(lhs);
            let k = l.ty.unwrap().kind;
            if k != TypeKind::Struct && k != TypeKind::Union {
                r matches Err(e) && e@ == token_error_text(
                    files@,
                    tok@,
                    "not a struct nor a union"@,
                )
            } else {
                match find_member(l.ty.unwrap().members, token_text(files@, tok@)) {
                    Some(m) => r == Ok::<Node, String>(
                        Node {
                            lhs: Some(Box::new(l)),
                            member: Some(Box::new(m)),
                            ..node_at(NodeKind::Member, tok.loc, tok.file_no, tok.line_no)
                        },
                    ),
                    None => r matches Err(e) && e@ == token_error_text(
                        files@,
                        tok@,
                        "no such member"@,
                    ),
                }
            }
        }),
{
    let mut lhs = lhs;
    add_type(&mut lhs);
    let k = lhs.ty.as_ref().unwrap().kind;
    if k != TypeKind::Struct && k != TypeKind::Union {
        proof {
            crate::tokenize::lemma_file_index_valid(files@, tok.file_no);
        }
        return Err(error_tok(files, tok, "not a struct nor a union"));
    }
    let member = match get_struct_member(files, lhs.ty.as_ref().unwrap(), tok) {
        Ok(m) => m,
        Err(e) => return Err(e),
    };
    let mut node = new_unary(NodeKind::Member, lhs, tok.loc, tok.file_no, tok.line_no);
    node.member = Some(Box::new(member));
    Ok(node)
}

/// Whether a token starts a type name: a type keyword, a storage class or
/// qualifier, or a name declared by `typedef`.
pub open spec fn spec_is_typename(
    scopes: Seq<Vec<VarScope>>,
    files: Seq<File>,
    tok: crate::tokenize::TokenV,
) -> bool {
    spec_equal(files, tok, "void"@) || spec_equal(files, tok, "_Bool"@) || spec_equal(
        files,
        tok,
        "char"@,
    ) || spec_equal(files, tok, "short"@) || spec_equal(files, tok, "int"@) || spec_equal(
        files,
        tok,
        "long"@,
    ) || spec_equal(files, tok, "struct"@) || spec_equal(files, tok, "union"@) || spec_equal(
        files,
        tok,
        "typedef"@,
    ) || spec_equal(files, tok, "enum"@) || spec_equal(files, tok, "static"@) || spec_equal(
        files,
        tok,
        "extern"@,
    ) || spec_equal(files, tok, "_Alignas"@) || spec_equal(files, tok, "signed"@) || spec_equal(
        files,
        tok,
        "unsigned"@,
    ) || spec_equal(files, tok, "const"@) || spec_equal(files, tok, "volatile"@) || spec_equal(
        files,
        tok,
        "auto"@,
    ) || spec_equal(files, tok, "register"@) || spec_equal(files, tok, "restrict"@) || spec_equal(
        files,
        tok,
        "__restrict"@,
    ) || spec_equal(files, tok, "__restrict__"@) || spec_equal(files, tok, "_Noreturn"@)
        || spec_equal(files, tok, "float"@) || spec_equal(files, tok, "double"@)
        || spec_find_typedef(scopes, files, tok).is_some()
}

/// Whether a token starts a type name.
pub fn is_typename(files: &[File], tok: &Token, scope_stack: &[Vec<VarScope>]) -> (r: bool)
    requires
        tok.kind == TokenKind::Ident ==> has_file(files@, tok.file_no),
    ensures
        r == spec_is_typename(scope_stack@, files@, tok@),
{
    equal(files, tok, "void") || equal(files, tok, "_Bool") || equal(files, tok, "char") || equal(
        files,
        tok,
        "short",
    ) || equal(files, tok, "int") || equal(files, tok, "long") || equal(files, tok, "struct")
        || equal(files, tok, "union") || equal(files, tok, "typedef") || equal(files, tok, "enum")
        || equal(files, tok, "static") || equal(files, tok, "extern") || equal(
        files,
        tok,
        "_Alignas",
    ) || equal(files, tok, "signed") || equal(files, tok, "unsigned") || equal(files, tok, "const")
        || equal(files, tok, "volatile") || equal(files, tok, "auto") || equal(
        files,
        tok,
        "register",
    ) || equal(files, tok, "restrict") || equal(files, tok, "__restrict") || equal(
        files,
        tok,
        "__restrict__",
    ) || equal(files, tok, "_Noreturn") || equal(files, tok, "float") || equal(files, tok, "double")
        || find_typedef(scope_stack, tok, files).is_some()
}

// ---------------------------------------------------------------------------
// Pointer arithmetic

/// Pointers and arrays, the types that `+` and `-` scale by their base.
pub open spec fn pointer_like(t: Type) -> bool {
    t.kind == TypeKind::Ptr || t.kind == TypeKind::Array
}

/// Operand types that `+` refuses: two pointers, two arrays, or two
/// operands of which neither is an integer.
pub open spec fn add_invalid(lt: Type, rt: Type) -> bool {
    !(spec_is_numeric(lt) && spec_is_numeric(rt)) && ((lt.kind == TypeKind::Ptr && rt.kind
        == TypeKind::Ptr) || (lt.kind == TypeKind::Array && rt.kind == TypeKind::Array) || (
    !spec_is_integer(lt) && !spec_is_integer(rt)))
}

/// Whether `+` puts the pointer operand first (`num + ptr`).
pub open spec fn add_swaps(lt: Type, rt: Type) -> bool {
    spec_is_integer(lt) && pointer_like(rt)
}

/// Whether `+` finds the base type it scales by: the operand taken as the
/// pointer must have one.
pub open spec fn add_defined(lt: Type, rt: Type) -> bool {
    add_invalid(lt, rt) || (spec_is_numeric(lt) && spec_is_numeric(rt)) || (if add_swaps(lt, rt) {
        rt.base.is_some()
    } else {
        lt.base.is_some()
    })
}

/// The tree of `l + r` for two typed operands that `+` accepts: a plain
/// addition of numbers, or the pointer plus the integer scaled by the size
/// of what the pointer points to.
pub open spec fn add_node(l: Node, r: Node, tok_loc: usize, file_no: usize, line_no: usize) -> Node {
    let lt = l.ty.unwrap();
    let rt = r.ty.unwrap();
    if spec_is_numeric(lt) && spec_is_numeric(rt) {
        binary_node(NodeKind::Add, l, r, tok_loc, file_no, line_no)
    } else {
        let p = if add_swaps(lt, rt) {
            r
        } else {
            l
        };
        let i = if add_swaps(lt, rt) {
            l
        } else {
            r
        };
        let size = p.ty.unwrap().base.unwrap().size;
        binary_node(
            NodeKind::Add,
            p,
            binary_node(
                NodeKind::Mul,
                i,
                long_node(size, tok_loc, file_no, line_no),
                tok_loc,
                file_no,
                line_no,
            ),
            tok_loc,
            file_no,
            line_no,
        )
    }
}

/// The addition `lhs + rhs`, typed: numbers are added, a pointer moves by
/// whole elements, anything else is refused with "invalid operands".
pub fn new_add(
    lhs: Node,
    rhs: Node,
    tok_loc: usize,
    line_no: usize,
    file_no: usize,
    files: &[File],
) -> (r: Result<Node, String>)
    requires
        typeable(lhs),
        typeable(rhs),
        typed(lhs).ty.is_some(),
        typed(rhs).ty.is_some(),
        add_defined(typed(lhs).ty.unwrap(), typed(rhs).ty.unwrap()),
        add_invalid(typed(lhs).ty.unwrap(), typed(rhs).ty.unwrap()) ==> has_file(files@, file_no)
            && files_fit(files@),
    ensures
        add_invalid(typed(lhs).ty.unwrap(), typed(rhs).ty.unwrap()) ==> (r matches Err(e) && e@
            == at_text(files@, file_no, tok_loc, "invalid operands"@)),
        !add_invalid(typed(lhs).ty.unwrap(), typed(rhs).ty.unwrap()) ==> r == Ok::<Node, String>(
            add_node(typed(lhs), typed(rhs), tok_loc, file_no, line_no),
        ),
{
    let mut lhs = lhs;
    let mut rhs = rhs;
    add_type(&mut lhs);
    add_type(&mut rhs);
    let l_num = is_numeric(lhs.ty.as_ref().unwrap());
    let r_num = is_numeric(rhs.ty.as_ref().unwrap());
    if l_num && r_num {
        return Ok(new_binary(NodeKind::Add, lhs, rhs, tok_loc, file_no, line_no));
    }
    let lk = lhs.ty.as_ref().unwrap().kind;
    let rk = rhs.ty.as_ref().unwrap().kind;
    let l_int = is_integer(lhs.ty.as_ref().unwrap());
    let r_int = is_integer(rhs.ty.as_ref().unwrap());
    if (lk == TypeKind::Ptr && rk == TypeKind::Ptr) || (lk == TypeKind::Array && rk
        == TypeKind::Array) || (!l_int && !r_int) {
        proof {
            crate::tokenize::lemma_file_index_valid(files@, file_no);
        }
        return Err(error_at(files, file_no, tok_loc, "invalid operands"));
    }
    if l_int && (rk == TypeKind::Ptr || rk == TypeKind::Array) {
        std::mem::swap(&mut lhs, &mut rhs);
    }
    let base_size = lhs.ty.as_ref().unwrap().base.as_ref().unwrap().size;
    let scaled = new_binary(
        NodeKind::Mul,
        rhs,
        new_long(base_size, tok_loc, file_no, line_no),
        tok_loc,
        file_no,
        line_no,
    );
    Ok(new_binary(NodeKind::Add, lhs, scaled, tok_loc, file_no, line_no))
}

/// Adding a pointer and an integer gives the same tree in either order:
/// the pointer first, the integer scaled.
pub proof fn law_pointer_addition_commutes(
    l: Node,
    r: Node,
    tok_loc: usize,
    file_no: usize,
    line_no: usize,
)
    requires
        l.ty.is_some(),
        r.ty.is_some(),
        pointer_like(l.ty.unwrap()),
        spec_is_integer(r.ty.unwrap()),
    ensures
        add_node(l, r, tok_loc, file_no, line_no) == add_node(r, l, tok_loc, file_no, line_no),
        !add_invalid(l.ty.unwrap(), r.ty.unwrap()),
        !add_invalid(r.ty.unwrap(), l.ty.unwrap()),
{
}

/// The type `pointer to base`.
pub open spec fn ptr_type(base: Type) -> Type {
    Type { base: Some(Box::new(base)), ..plain_type(TypeKind::Ptr, 8, 8, true) }
}

/// Whether `-` accepts two typed operands: two numbers, a pointer minus an
/// integer, or two pointers.
pub open spec fn sub_valid(lt: Type, rt: Type) -> bool {
    (spec_is_numeric(lt) && spec_is_numeric(rt)) || (pointer_like(lt) && (spec_is_integer(rt)
        || pointer_like(rt)))
}

/// Whether `-` finds the base type it scales by.
pub open spec fn sub_defined(lt: Type, rt: Type) -> bool {
    (spec_is_numeric(lt) && spec_is_numeric(rt)) || !pointer_like(lt) || lt.base.is_some()
}

/// The tree of `l - r` for two typed operands that `-` accepts: a plain
/// subtraction of numbers; a pointer moved back by whole elements; or the
/// distance of two pointers, in elements, as a `long`.
pub open spec fn sub_node(l: Node, r: Node, tok_loc: usize, file_no: usize, line_no: usize) -> Node {
    let lt = l.ty.unwrap();
    let rt = r.ty.unwrap();
    let long_ty = plain_type(TypeKind::Long, 8, 8, false);
    if spec_is_numeric(lt) && spec_is_numeric(rt) {
        binary_node(NodeKind::Sub, l, r, tok_loc, file_no, line_no)
    } else if spec_is_integer(rt) {
        let base = *lt.base.unwrap();
        let scaled = typed(
            binary_node(
                NodeKind::Mul,
                r,
                long_node(base.size, tok_loc, file_no, line_no),
                tok_loc,
                file_no,
                line_no,
            ),
        );
        Node {
            ty: Some(ptr_type(base)),
            ..binary_node(NodeKind::Sub, l, scaled, tok_loc, file_no, line_no)
        }
    } else {
        let diff = Node {
            ty: Some(long_ty),
            ..binary_node(NodeKind::Sub, l, r, tok_loc, file_no, line_no)
        };
        Node {
            ty: Some(long_ty),
            ..binary_node(
                NodeKind::Div,
                diff,
                long_node(lt.base.unwrap().size, tok_loc, file_no, line_no),
                tok_loc,
                file_no,
                line_no,
            )
        }
    }
}

/// The subtraction `lhs - rhs`, typed: numbers are subtracted, a pointer
/// moves back by whole elements, two pointers give their distance in
/// elements; anything else is refused with "invalid operands".
pub fn new_sub(
    lhs: Node,
    rhs: Node,
    tok_loc: usize,
    line_no: usize,
    file_no: usize,
    files: &[File],
) -> (r: Result<Node, String>)
    requires
        typeable(lhs),
        typeable(rhs),
        typed(lhs).ty.is_some(),
        typed(rhs).ty.is_some(),
        sub_defined(typed(lhs).ty.unwrap(), typed(rhs).ty.unwrap()),
        !sub_valid(typed(lhs).ty.unwrap(), typed(rhs).ty.unwrap()) ==> has_file(files@, file_no)
            && files_fit(files@),
    ensures
        !sub_valid(typed(lhs).ty.unwrap(), typed(rhs).ty.unwrap()) ==> (r matches Err(e) && e@
            == at_text(files@, file_no, tok_loc, "invalid operands"@)),
        sub_valid(typed(lhs).ty.unwrap(), typed(rhs).ty.unwrap()) ==> r == Ok::<Node, String>(
            sub_node(typed(lhs), typed(rhs), tok_loc, file_no, line_no),
        ),
{
    let mut lhs = lhs;
    let mut rhs = rhs;
    let ghost rhs0 = rhs;
    add_type(&mut lhs);
    add_type(&mut rhs);
    let l_num = is_numeric(lhs.ty.as_ref().unwrap());
    let r_num = is_numeric(rhs.ty.as_ref().unwrap());
    if l_num && r_num {
        return Ok(new_binary(NodeKind::Sub, lhs, rhs, tok_loc, file_no, line_no));
    }
    let lk = lhs.ty.as_ref().unwrap().kind;
    let rk = rhs.ty.as_ref().unwrap().kind;
    let l_ptr = lk == TypeKind::Ptr || lk == TypeKind::Array;
    if l_ptr && is_integer(rhs.ty.as_ref().unwrap()) {
        let base = clone_type(lhs.ty.as_ref().unwrap().base.as_ref().unwrap());
        proof {
            lemma_typed_idem(rhs0);
        }
        let mut scaled = new_binary(
            NodeKind::Mul,
            rhs,
            new_long(base.size, tok_loc, file_no, line_no),
            tok_loc,
            file_no,
            line_no,
        );
        proof {
            let lng = long_node(base.size, tok_loc, file_no, line_no);
            assert(typeable(lng));
            assert(typed(lng) == lng);
            assert(typeable_opt(scaled.lhs));
            assert(typeable_opt(scaled.rhs));
            assert(typed_opt(scaled.lhs) == scaled.lhs);
            assert(typed_opt(scaled.rhs) == scaled.rhs);
        }
        add_type(&mut scaled);
        let mut node = new_binary(NodeKind::Sub, lhs, scaled, tok_loc, file_no, line_no);
        node.ty = Some(Type::new_ptr(base));
        return Ok(node);
    }
    if l_ptr && (rk == TypeKind::Ptr || rk == TypeKind::Array) {
        let base_size = lhs.ty.as_ref().unwrap().base.as_ref().unwrap().size;
        let mut node = new_binary(NodeKind::Sub, lhs, rhs, tok_loc, file_no, line_no);
        node.ty = Some(Type::new_long());
        let mut result = new_binary(
            NodeKind::Div,
            node,
            new_long(base_size, tok_loc, file_no, line_no),
            tok_loc,
            file_no,
            line_no,
        );
        result.ty = Some(Type::new_long());
        return Ok(result);
    }
    proof {
        crate::tokenize::lemma_file_index_valid(files@, file_no);
    }
    Err(error_at(files, file_no, tok_loc, "invalid operands"))
}

/// Typing a tree twice changes nothing: the typed tree can be typed again,
/// and typing it gives it back as it is.
pub proof fn law_typing_twice_changes_nothing(x: Node)
    requires
        typeable(x),
    ensures
        typeable(typed(x)),
        typed(typed(x)) == typed(x),
{
    lemma_typed_idem(x);
}

proof fn lemma_typed_idem(x: Node)
    requires
        typeable(x),
    ensures
        typeable(typed(x)),
        typed(typed(x)) == typed(x),
    decreases x, 1nat,
{
    if x.ty.is_none() {
        lemma_typed_idem_opt(x.lhs);
        lemma_typed_idem_opt(x.rhs);
        lemma_typed_idem_opt(x.cond);
        lemma_typed_idem_opt(x.then_br);
        lemma_typed_idem_opt(x.els);
        lemma_typed_idem_opt(x.init);
        lemma_typed_idem_opt(x.inc);
        lemma_typed_idem_list(x.body);
        lemma_typed_idem_list(x.args);
        let x1 = Node {
            lhs: typed_opt(x.lhs),
            rhs: typed_opt(x.rhs),
            cond: typed_opt(x.cond),
            then_br: typed_opt(x.then_br),
            els: typed_opt(x.els),
            init: typed_opt(x.init),
            inc: typed_opt(x.inc),
            body: typed_list(x.body),
            args: typed_list(x.args),
            ..x
        };
        let y = typed(x);
        assert(y == finish_type(x1));
        lemma_finish_none(x1);
        if y.ty.is_none() {
            assert(y == x1);
            let x2 = Node {
                lhs: typed_opt(x1.lhs),
                rhs: typed_opt(x1.rhs),
                cond: typed_opt(x1.cond),
                then_br: typed_opt(x1.then_br),
                els: typed_opt(x1.els),
                init: typed_opt(x1.init),
                inc: typed_opt(x1.inc),
                body: typed_list(x1.body),
                args: typed_list(x1.args),
                ..x1
            };
            assert(x2 == x1);
            assert(typed(y) == finish_type(x2));
        }
    }
}

proof fn lemma_finish_none(n: Node)
    requires
        n.ty.is_none(),
    ensures
        finish_type(n).ty.is_none() ==> finish_type(n) == n,
{
    reveal(finish_type);
}

proof fn lemma_typed_idem_opt(o: Option<Box<Node>>)
    requires
        typeable_opt(o),
    ensures
        typeable_opt(typed_opt(o)),
        typed_opt(typed_opt(o)) == typed_opt(o),
    decreases o, 0nat,
{
    match o {
        Some(b) => {
            lemma_typed_idem(*b);
        },
        None => {},
    }
}

proof fn lemma_typed_idem_list(o: Option<Box<Node>>)
    requires
        typeable_list(o),
    ensures
        typeable_list(typed_list(o)),
        typed_list(typed_list(o)) == typed_list(o),
    decreases o, 0nat,
{
    match o {
        Some(b) => {
            lemma_typed_idem(*b);
            lemma_typed_idem_list(b.next);
            lemma_typed_next(typed(*b), typed_list(b.next));
        },
        None => {},
    }
}

proof fn lemma_typed_next(n: Node, next: Option<Box<Node>>)
    ensures
        typed((Node { next, ..n })) == (Node { next, ..typed(n) }),
        typeable((Node { next, ..n })) == typeable(n),
{
    reveal(finish_type);
}

/// Typing keeps a node's kind, position and link to the next node.
proof fn lemma_typed_frame(n: Node)
    ensures
        typed(n).next == n.next,
        typed(n).kind == n.kind,
        typed(n).tok_loc == n.tok_loc,
        typed(n).file_no == n.file_no,
        typed(n).line_no == n.line_no,
{
    reveal(finish_type);
}


// ---------------------------------------------------------------------------
// Constant expressions

/// Why a constant expression cannot be evaluated.
#[derive(Debug, Clone, Copy, PartialEq, Eq, Structural)]
pub enum EvalError {
    NotConstant,
    InvalidInitializer,
}

/// The message of an evaluation error.
pub open spec fn eval_error_text(e: EvalError) -> Seq<char> {
    match e {
        EvalError::NotConstant => "not a compile-time constant"@,
        EvalError::InvalidInitializer => "invalid initializer"@,
    }
}

fn eval_error_message(e: EvalError) -> (r: &'static str)
    ensures
        r@ == eval_error_text(e),
{
    match e {
        EvalError::NotConstant => "not a compile-time constant",
        EvalError::InvalidInitializer => "invalid initializer",
    }
}

/// Why a constant expression gives no integer: a diagnostic, or a value
/// that floating-point arithmetic computes, which this library leaves to
/// its caller.
#[derive(Debug, PartialEq, Eq)]
pub enum EvalStop {
    Error(String),
    FloatingPoint,
}

/// The outcome of evaluating a constant expression.
pub enum EvalOut {
    Val(i64),
    /// An error at position `loc` of file `file_no`.
    Fail(usize, usize, EvalError),
    /// A value that floating-point arithmetic computes: a floating-point
    /// expression, or one that takes such a value as an operand.
    Float,
    /// The evaluation would stop the program (a missing operand, a division
    /// by zero, an overflowing negation or remainder, a shift out of range),
    /// or meets a node whose parts are not typed yet.
    Stuck,
}

/// Division rounding toward zero (`/` on integers here is Euclidean, so
/// the sign is handled apart); the most negative number divided by -1 wraps
/// around to itself.
pub open spec fn wrapping_sdiv(a: i64, b: i64) -> i64 {
    if a == i64::MIN && b == -1 {
        i64::MIN
    } else if a >= 0 {
        (a as int / b as int) as i64
    } else {
        (-((-(a as int)) / (b as int))) as i64
    }
}

/// The remainder of division rounding toward zero: it has the sign of `a`.
pub open spec fn srem(a: i64, b: i64) -> i64 {
    if a >= 0 {
        (a as int % b as int) as i64
    } else {
        (-((-(a as int)) % (b as int))) as i64
    }
}

/// An integer value cut to a type of the given size and signedness.
pub open spec fn truncate_to(val: i64, size: i64, is_unsigned: bool) -> i64 {
    if size == 1 {
        if is_unsigned {
            val as u8 as i64
        } else {
            val as i8 as i64
        }
    } else if size == 2 {
        if is_unsigned {
            val as u16 as i64
        } else {
            val as i16 as i64
        }
    } else if size == 4 {
        if is_unsigned {
            val as u32 as i64
        } else {
            val as i32 as i64
        }
    } else {
        val
    }
}

/// The value of a binary operator on already evaluated operands.
pub open spec fn binop_value(n: Node, l: i64, r: i64) -> EvalOut {
    let uns = n.ty.unwrap().is_unsigned;
    let luns = n.lhs.unwrap().ty.unwrap().is_unsigned;
    if n.kind == NodeKind::Add {
        EvalOut::Val(l.wrapping_add(r))
    } else if n.kind == NodeKind::Sub {
        EvalOut::Val(l.wrapping_sub(r))
    } else if n.kind == NodeKind::Mul {
        EvalOut::Val(l.wrapping_mul(r))
    } else if n.kind == NodeKind::Div {
        if r == 0 {
            EvalOut::Stuck
        } else if uns {
            EvalOut::Val(((l as u64) / (r as u64)) as i64)
        } else {
            EvalOut::Val(wrapping_sdiv(l, r))
        }
    } else if n.kind == NodeKind::Mod {
        if r == 0 {
            EvalOut::Stuck
        } else if uns {
            EvalOut::Val(((l as u64) % (r as u64)) as i64)
        } else if l == i64::MIN && r == -1 {
            EvalOut::Stuck
        } else {
            EvalOut::Val(srem(l, r))
        }
    } else if n.kind == NodeKind::BitAnd {
        EvalOut::Val(l & r)
    } else if n.kind == NodeKind::BitOr {
        EvalOut::Val(l | r)
    } else if n.kind == NodeKind::BitXor {
        EvalOut::Val(l ^ r)
    } else if n.kind == NodeKind::Shl {
        if r < 0 || r >= 64 {
            EvalOut::Stuck
        } else {
            EvalOut::Val(l << (r as u64))
        }
    } else if n.kind == NodeKind::Shr {
        if uns && n.ty.unwrap().size == 8 {
            if r < 0 || r >= 64 {
                EvalOut::Stuck
            } else {
                EvalOut::Val(((l as u64) >> (r as u64)) as i64)
            }
        } else if r < 0 || r >= 64 {
            EvalOut::Stuck
        } else {
            EvalOut::Val(l >> (r as u64))
        }
    } else if n.kind == NodeKind::Eq {
        EvalOut::Val(if l == r { 1 } else { 0 })
    } else if n.kind == NodeKind::Ne {
        EvalOut::Val(if l != r { 1 } else { 0 })
    } else if n.kind == NodeKind::Lt {
        EvalOut::Val(if (luns && (l as u64) < (r as u64)) || (!luns && l < r) { 1 } else { 0 })
    } else if n.kind == NodeKind::Le {
        EvalOut::Val(if (luns && (l as u64) <= (r as u64)) || (!luns && l <= r) { 1 } else { 0 })
    } else if n.kind == NodeKind::LogAnd {
        EvalOut::Val(if l != 0 && r != 0 { 1 } else { 0 })
    } else {
        EvalOut::Val(if l != 0 || r != 0 { 1 } else { 0 })
    }
}

/// Whether a node kind folds two evaluated operands.
pub open spec fn is_binop_kind(k: NodeKind) -> bool {
    is_arith_kind(k) || is_cmp_kind(k) || k == NodeKind::LogAnd || k == NodeKind::LogOr
}

/// Whether the left operand of a binary operator keeps the label.
pub open spec fn lhs_keeps_label(k: NodeKind) -> bool {
    k == NodeKind::Add || k == NodeKind::Sub
}

/// The kinds of node that floating-point constant folding evaluates; any
/// other floating-point node is no constant.
pub open spec fn float_foldable(k: NodeKind) -> bool {
    k == NodeKind::Add || k == NodeKind::Sub || k == NodeKind::Mul || k == NodeKind::Div || k
        == NodeKind::Neg || k == NodeKind::Cond || k == NodeKind::Comma || k == NodeKind::Cast || k
        == NodeKind::Num
}

fn is_float_foldable(k: NodeKind) -> (r: bool)
    ensures
        r == float_foldable(k),
{
    match k {
        NodeKind::Add | NodeKind::Sub | NodeKind::Mul | NodeKind::Div | NodeKind::Neg
        | NodeKind::Cond | NodeKind::Comma | NodeKind::Cast | NodeKind::Num => true,
        _ => false,
    }
}

/// The value of a constant expression over a typed tree, and the label it
/// refers to. `lab`: whether the expression may refer to a global's
/// address; `cur`: the label so far.
pub open spec fn ev(n: Node, lab: bool, cur: Option<Seq<char>>) -> (EvalOut, Option<Seq<char>>)
    decreases n, 1nat,
{
    if n.ty.is_none() || typed(n) != n {
        (EvalOut::Stuck, cur)
    } else if crate::types::spec_is_flonum(n.ty.unwrap()) {
        if float_foldable(n.kind) {
            (EvalOut::Float, cur)
        } else {
            (EvalOut::Fail(n.file_no, n.tok_loc, EvalError::NotConstant), cur)
        }
    } else if is_binop_kind(n.kind) {
        match n.lhs {
            None => (EvalOut::Stuck, cur),
            Some(lb) => {
                let (o1, c1) = ev(*lb, lab && lhs_keeps_label(n.kind), cur);
                match o1 {
                    EvalOut::Val(l) => match n.rhs {
                        None => (EvalOut::Stuck, c1),
                        Some(rb) => {
                            let (o2, c2) = ev(*rb, false, c1);
                            match o2 {
                                EvalOut::Val(r) => (binop_value(n, l, r), c2),
                                _ => (o2, c2),
                            }
                        },
                    },
                    _ => (o1, c1),
                }
            },
        }
    } else if n.kind == NodeKind::Neg || n.kind == NodeKind::Not || n.kind == NodeKind::BitNot {
        match n.lhs {
            None => (EvalOut::Stuck, cur),
            Some(lb) => {
                let (o1, c1) = ev(*lb, false, cur);
                match o1 {
                    EvalOut::Val(l) => (
                        if n.kind == NodeKind::Neg {
                            if l == i64::MIN {
                                EvalOut::Stuck
                            } else {
                                EvalOut::Val((-l) as i64)
                            }
                        } else if n.kind == NodeKind::Not {
                            EvalOut::Val(if l == 0 { 1 } else { 0 })
                        } else {
                            EvalOut::Val(!l)
                        },
                        c1,
                    ),
                    _ => (o1, c1),
                }
            },
        }
    } else if n.kind == NodeKind::Cond {
        match n.cond {
            None => (EvalOut::Stuck, cur),
            Some(cb) => {
                let (o1, c1) = ev(*cb, false, cur);
                match o1 {
                    EvalOut::Val(c) => if c != 0 {
                        match n.then_br {
                            None => (EvalOut::Stuck, c1),
                            Some(tb) => ev(*tb, lab, c1),
                        }
                    } else {
                        match n.els {
                            None => (EvalOut::Stuck, c1),
                            Some(eb) => ev(*eb, lab, c1),
                        }
                    },
                    _ => (o1, c1),
                }
            },
        }
    } else if n.kind == NodeKind::Comma {
        match n.rhs {
            None => (EvalOut::Stuck, cur),
            Some(rb) => ev(*rb, lab, cur),
        }
    } else if n.kind == NodeKind::Cast {
        let ty = n.ty.unwrap();
        if crate::types::spec_is_integer(ty) {
            match n.lhs {
                None => (EvalOut::Stuck, cur),
                Some(lb) => if lb.ty.is_some() && crate::types::spec_is_flonum(lb.ty.unwrap()) {
                    (EvalOut::Float, cur)
                } else {
                    let (o1, c1) = ev(*lb, lab, cur);
                    match o1 {
                        EvalOut::Val(v) => (EvalOut::Val(truncate_to(v, ty.size, ty.is_unsigned)), c1),
                        _ => (o1, c1),
                    }
                },
            }
        } else if ty.kind == TypeKind::Ptr {
            match n.lhs {
                None => (EvalOut::Stuck, cur),
                Some(lb) => ev(*lb, lab, cur),
            }
        } else {
            (EvalOut::Fail(n.file_no, n.tok_loc, EvalError::NotConstant), cur)
        }
    } else if n.kind == NodeKind::Addr {
        match n.lhs {
            None => (EvalOut::Stuck, cur),
            Some(lb) => ev_rval(*lb, lab, cur),
        }
    } else if n.kind == NodeKind::Member {
        if !lab {
            (EvalOut::Fail(n.file_no, n.tok_loc, EvalError::NotConstant), cur)
        } else if n.ty.unwrap().kind != TypeKind::Array {
            (EvalOut::Fail(n.file_no, n.tok_loc, EvalError::InvalidInitializer), cur)
        } else {
            match n.lhs {
                None => (EvalOut::Stuck, cur),
                Some(lb) => {
                    let (o1, c1) = ev_rval(*lb, lab, cur);
                    match o1 {
                        EvalOut::Val(v) => match n.member {
                            None => (EvalOut::Stuck, c1),
                            Some(m) => if i64::MIN <= v + m.offset <= i64::MAX {
                                (EvalOut::Val((v + m.offset) as i64), c1)
                            } else {
                                (EvalOut::Stuck, c1)
                            },
                        },
                        _ => (o1, c1),
                    }
                },
            }
        }
    } else if n.kind == NodeKind::Var {
        if !lab {
            (EvalOut::Fail(n.file_no, n.tok_loc, EvalError::NotConstant), cur)
        } else {
            match n.var {
                None => (EvalOut::Stuck, cur),
                Some(v) => if v.ty.kind != TypeKind::Array && v.ty.kind != TypeKind::Func {
                    (EvalOut::Fail(n.file_no, n.tok_loc, EvalError::InvalidInitializer), cur)
                } else {
                    (EvalOut::Val(0), Some(v.name@))
                },
            }
        }
    } else if n.kind == NodeKind::Num {
        (EvalOut::Val(n.val), cur)
    } else {
        (EvalOut::Fail(n.file_no, n.tok_loc, EvalError::NotConstant), cur)
    }
}

/// The address of an lvalue in a constant initializer, relative to the
/// global it names.
pub open spec fn ev_rval(n: Node, lab: bool, cur: Option<Seq<char>>) -> (EvalOut, Option<Seq<char>>)
    decreases n, 0nat,
{
    if n.kind == NodeKind::Var {
        match n.var {
            None => (EvalOut::Stuck, cur),
            Some(v) => if v.is_local {
                (EvalOut::Fail(n.file_no, n.tok_loc, EvalError::NotConstant), cur)
            } else {
                (EvalOut::Val(0), if lab {
                    Some(v.name@)
                } else {
                    cur
                })
            },
        }
    } else if n.kind == NodeKind::Deref {
        match n.lhs {
            None => (EvalOut::Stuck, cur),
            Some(lb) => ev(*lb, lab, cur),
        }
    } else if n.kind == NodeKind::Member {
        match n.lhs {
            None => (EvalOut::Stuck, cur),
            Some(lb) => {
                let (o1, c1) = ev_rval(*lb, lab, cur);
                match o1 {
                    EvalOut::Val(v) => match n.member {
                        None => (EvalOut::Stuck, c1),
                        Some(m) => if i64::MIN <= v + m.offset <= i64::MAX {
                            (EvalOut::Val((v + m.offset) as i64), c1)
                        } else {
                            (EvalOut::Stuck, c1)
                        },
                    },
                    _ => (o1, c1),
                }
            },
        }
    } else {
        (EvalOut::Fail(n.file_no, n.tok_loc, EvalError::InvalidInitializer), cur)
    }
}

/// Folding unary operators and conditionals on integer values: `-` negates
/// (a value other than the most negative), `!` gives 1 for 0 and 0
/// otherwise, `~` flips every bit; `c ? a : b` folds to the value of `a`
/// when `c` is not 0 and of `b` otherwise.
pub proof fn law_fold_unary(n: Node, lab: bool, cur: Option<Seq<char>>, l: i64)
    requires
        n.ty.is_some(),
        typed(n) == n,
        !crate::types::spec_is_flonum(n.ty.unwrap()),
    ensures
        (n.kind == NodeKind::Neg || n.kind == NodeKind::Not || n.kind == NodeKind::BitNot) && n.lhs.is_some()
            && ev(*n.lhs.unwrap(), false, cur).0 == EvalOut::Val(l) ==> {
            let o = ev(n, lab, cur).0;
            &&& (n.kind == NodeKind::Neg && l != i64::MIN) ==> o == EvalOut::Val((-l) as i64)
            &&& n.kind == NodeKind::Not ==> o == EvalOut::Val(if l == 0 { 1 } else { 0 })
            &&& n.kind == NodeKind::BitNot ==> o == EvalOut::Val(!l)
        },
        (n.kind == NodeKind::Cond && n.cond.is_some() && n.then_br.is_some() && n.els.is_some() && ev(
            *n.cond.unwrap(),
            false,
            cur,
        ).0 == EvalOut::Val(l)) ==> ev(n, lab, cur) == if l != 0 {
            ev(*n.then_br.unwrap(), lab, ev(*n.cond.unwrap(), false, cur).1)
        } else {
            ev(*n.els.unwrap(), lab, ev(*n.cond.unwrap(), false, cur).1)
        },
        (n.kind == NodeKind::Comma && n.rhs.is_some()) ==> ev(n, lab, cur) == ev(*n.rhs.unwrap(), lab, cur),
{
}

/// Folding a cast to an integer type of a value `v` keeps its low bits:
/// to one byte, `v` modulo 256 (read as signed or unsigned by the target),
/// to two bytes modulo 2^16, to four bytes modulo 2^32; to eight bytes it
/// is unchanged.
pub proof fn law_cast_truncates(v: i64, size: i64, is_unsigned: bool)
    ensures
        size == 1 && is_unsigned ==> truncate_to(v, size, is_unsigned) as int == (v as int) % 256,
        size == 2 && is_unsigned ==> truncate_to(v, size, is_unsigned) as int == (v as int) % 65536,
        size == 4 && is_unsigned ==> truncate_to(v, size, is_unsigned) as int == (v as int) % 0x1_0000_0000,
        size == 1 && !is_unsigned ==> -128 <= truncate_to(v, size, is_unsigned) < 128 && (truncate_to(
            v,
            size,
            is_unsigned,
        ) as int - v as int) % 256 == 0,
        size == 4 && !is_unsigned ==> i32::MIN <= truncate_to(v, size, is_unsigned) <= i32::MAX && (
        truncate_to(v, size, is_unsigned) as int - v as int) % 0x1_0000_0000 == 0,
        size == 8 ==> truncate_to(v, size, is_unsigned) == v,
{
    if size == 1 && is_unsigned {
        assert((v as u8) as int == (v as int) % 256) by (bit_vector);
    }
    if size == 2 && is_unsigned {
        assert((v as u16) as int == (v as int) % 65536) by (bit_vector);
    }
    if size == 4 && is_unsigned {
        assert((v as u32) as int == (v as int) % 0x1_0000_0000) by (bit_vector);
    }
    if size == 1 && !is_unsigned {
        assert(((v as i8) as int - v as int) % 256 == 0) by (bit_vector);
    }
    if size == 4 && !is_unsigned {
        assert(((v as i32) as int - v as int) % 0x1_0000_0000 == 0) by (bit_vector);
    }
}

/// Folding a binary operator on integer operands whose values are `l` and
/// `r`: addition, subtraction and multiplication wrap around; the bitwise
/// operators combine the bits; division and remainder of a non-negative
/// value by a positive one are the quotient and remainder; the comparisons
/// and logical operators give 1 or 0, `<` and `<=` comparing as unsigned
/// when the left operand is unsigned.
pub proof fn law_fold_binary(n: Node, lab: bool, cur: Option<Seq<char>>, l: i64, r: i64)
    requires
        n.ty.is_some(),
        typed(n) == n,
        !crate::types::spec_is_flonum(n.ty.unwrap()),
        is_binop_kind(n.kind),
        n.lhs.is_some(),
        n.rhs.is_some(),
        n.lhs.unwrap().ty.is_some(),
        ev(*n.lhs.unwrap(), lab && lhs_keeps_label(n.kind), cur).0 == EvalOut::Val(l),
        ev(*n.rhs.unwrap(), false, ev(*n.lhs.unwrap(), lab && lhs_keeps_label(n.kind), cur).1).0
            == EvalOut::Val(r),
    ensures
        ({
            let o = ev(n, lab, cur).0;
            let luns = n.lhs.unwrap().ty.unwrap().is_unsigned;
            &&& n.kind == NodeKind::Add ==> o == EvalOut::Val(l.wrapping_add(r))
            &&& n.kind == NodeKind::Sub ==> o == EvalOut::Val(l.wrapping_sub(r))
            &&& n.kind == NodeKind::Mul ==> o == EvalOut::Val(l.wrapping_mul(r))
            &&& n.kind == NodeKind::BitAnd ==> o == EvalOut::Val(l & r)
            &&& n.kind == NodeKind::BitOr ==> o == EvalOut::Val(l | r)
            &&& n.kind == NodeKind::BitXor ==> o == EvalOut::Val(l ^ r)
            &&& (n.kind == NodeKind::Div && 0 <= l && 0 < r) ==> o == EvalOut::Val((l as int / r as int) as i64)
            &&& (n.kind == NodeKind::Mod && 0 <= l && 0 < r) ==> o == EvalOut::Val((l as int % r as int) as i64)
            &&& n.kind == NodeKind::Eq ==> o == EvalOut::Val(if l == r { 1 } else { 0 })
            &&& n.kind == NodeKind::Ne ==> o == EvalOut::Val(if l != r { 1 } else { 0 })
            &&& n.kind == NodeKind::Lt ==> o == EvalOut::Val(
                if (luns && (l as u64) < (r as u64)) || (!luns && l < r) {
                    1
                } else {
                    0
                },
            )
            &&& n.kind == NodeKind::Le ==> o == EvalOut::Val(
                if (luns && (l as u64) <= (r as u64)) || (!luns && l <= r) {
                    1
                } else {
                    0
                },
            )
            &&& n.kind == NodeKind::LogAnd ==> o == EvalOut::Val(if l != 0 && r != 0 { 1 } else { 0 })
            &&& n.kind == NodeKind::LogOr ==> o == EvalOut::Val(if l != 0 || r != 0 { 1 } else { 0 })
        }),
{
    if n.kind == NodeKind::Div && 0 <= l && 0 < r {
        assert((l as u64) == l && (r as u64) == r);
    }
    if n.kind == NodeKind::Mod && 0 <= l && 0 < r {
        assert((l as u64) == l && (r as u64) == r);
    }
}

/// Whether every file is small enough for diagnostics.
pub open spec fn files_fit(files: Seq<File>) -> bool {
    forall|i: int|
        0 <= i < files.len() ==> files[i].contents@.len() <= usize::MAX / 16
            && files[i].name@.len() <= usize::MAX / 16
}

/// Whether an outcome can be reported: it is no stuck evaluation, and a
/// failure points into a known file.
pub open spec fn reportable(files: Seq<File>, o: EvalOut) -> bool {
    match o {
        EvalOut::Val(_) => true,
        EvalOut::Fail(f, _, _) => has_file(files, f),
        EvalOut::Float => true,
        EvalOut::Stuck => false,
    }
}

/// The diagnostic for an evaluation failure.
pub open spec fn eval_fail_text(files: Seq<File>, file_no: usize, loc: usize, e: EvalError) -> Seq<
    char,
> {
    let f = files[file_index(files, file_no)];
    let l = if loc < f.contents@.len() {
        loc as int
    } else {
        f.contents@.len() as int
    };
    crate::tokenize::diag_text(f.name@, f.contents@, loc as int, crate::tokenize::line_of(f.contents@, l), eval_error_text(e))
}

/// Whether a result matches an outcome.
pub open spec fn result_matches(files: Seq<File>, r: Result<i64, EvalStop>, o: EvalOut) -> bool {
    match o {
        EvalOut::Val(v) => r == Ok::<i64, EvalStop>(v),
        EvalOut::Fail(f, loc, e) => r matches Err(EvalStop::Error(m)) && m@ == eval_fail_text(
            files,
            f,
            loc,
            e,
        ),
        EvalOut::Float => r matches Err(EvalStop::FloatingPoint),
        EvalOut::Stuck => false,
    }
}

fn eval_fail(files: &[File], file_no: usize, loc: usize, e: EvalError) -> (r: Result<i64, EvalStop>)
    requires
        has_file(files@, file_no),
        files_fit(files@),
    ensures
        result_matches(files@, r, EvalOut::Fail(file_no, loc, e)),
{
    proof {
        crate::tokenize::lemma_file_index_valid(files@, file_no);
    }
    Err(EvalStop::Error(crate::tokenize::error_at(files, file_no, loc, eval_error_message(e))))
}

fn unsigned_or(ty: &Option<Type>) -> (r: bool)
    requires
        ty.is_some(),
    ensures
        r == ty.unwrap().is_unsigned,
{
    ty.as_ref().unwrap().is_unsigned
}

fn eval_binop(n: &Node, l: i64, r: i64) -> (out: i64)
    requires
        is_binop_kind(n.kind),
        n.ty.is_some(),
        n.lhs.is_some(),
        n.lhs.unwrap().ty.is_some(),
        binop_value(*n, l, r) is Val,
    ensures
        binop_value(*n, l, r) == EvalOut::Val(out),
{
    let uns = unsigned_or(&n.ty);
    let luns = unsigned_or(&n.lhs.as_ref().unwrap().ty);
    match n.kind {
        NodeKind::Add => l.wrapping_add(r),
        NodeKind::Sub => l.wrapping_sub(r),
        NodeKind::Mul => l.wrapping_mul(r),
        NodeKind::Div => {
            if uns {
                assert(r != 0 ==> r as u64 != 0) by (bit_vector);
                ((l as u64) / (r as u64)) as i64
            } else if l == i64::MIN && r == -1 {
                i64::MIN
            } else {
                let q = l / r;
                assert(q == wrapping_sdiv(l, r));
                q
            }
        },
        NodeKind::Mod => {
            if uns {
                assert(r != 0 ==> r as u64 != 0) by (bit_vector);
                ((l as u64) % (r as u64)) as i64
            } else {
                let m = l % r;
                assert(m == srem(l, r));
                m
            }
        },
        NodeKind::BitAnd => l & r,
        NodeKind::BitOr => l | r,
        NodeKind::BitXor => l ^ r,
        NodeKind::Shl => l << (r as u64),
        NodeKind::Shr => {
            if uns && n.ty.as_ref().unwrap().size == 8 {
                ((l as u64) >> (r as u64)) as i64
            } else {
                l >> (r as u64)
            }
        },
        NodeKind::Eq => if l == r { 1 } else { 0 },
        NodeKind::Ne => if l != r { 1 } else { 0 },
        NodeKind::Lt => {
            if luns {
                if (l as u64) < (r as u64) { 1 } else { 0 }
            } else {
                if l < r { 1 } else { 0 }
            }
        },
        NodeKind::Le => {
            if luns {
                if (l as u64) <= (r as u64) { 1 } else { 0 }
            } else {
                if l <= r { 1 } else { 0 }
            }
        },
        NodeKind::LogAnd => if l != 0 && r != 0 { 1 } else { 0 },
        _ => if l != 0 || r != 0 { 1 } else { 0 },
    }
}


/// The characters of an optional string.
pub open spec fn opt_view(o: Option<String>) -> Option<Seq<char>> {
    match o {
        Some(s) => Some(s@),
        None => None,
    }
}

#[verifier::rlimit(40)]
fn eval_node(files: &[File], n: &Node, lab: bool, label: &mut Option<String>) -> (r: Result<
    i64,
    EvalStop,
>)
    requires
        files_fit(files@),
        reportable(files@, ev(*n, lab, opt_view(*old(label))).0),
    ensures
        result_matches(files@, r, ev(*n, lab, opt_view(*old(label))).0),
        opt_view(*final(label)) == ev(*n, lab, opt_view(*old(label))).1,
    decreases n, 1nat,
{
    let ty = n.ty.as_ref().unwrap();
    if crate::types::is_flonum(ty) {
        if is_float_foldable(n.kind) {
            return Err(EvalStop::FloatingPoint);
        }
        return eval_fail(files, n.file_no, n.tok_loc, EvalError::NotConstant);
    }
    match n.kind {
        NodeKind::Add | NodeKind::Sub | NodeKind::Mul | NodeKind::Div | NodeKind::Mod
        | NodeKind::BitAnd | NodeKind::BitOr | NodeKind::BitXor | NodeKind::Shl | NodeKind::Shr
        | NodeKind::Eq | NodeKind::Ne | NodeKind::Lt | NodeKind::Le | NodeKind::LogAnd
        | NodeKind::LogOr => {
            let keep = match n.kind {
                NodeKind::Add | NodeKind::Sub => lab,
                _ => false,
            };
            let l = eval_node(files, n.lhs.as_ref().unwrap(), keep, label)?;
            let r = eval_node(files, n.rhs.as_ref().unwrap(), false, label)?;
            Ok(eval_binop(n, l, r))
        },
        NodeKind::Neg => {
            let l = eval_node(files, n.lhs.as_ref().unwrap(), false, label)?;
            Ok(-l)
        },
        NodeKind::Not => {
            let l = eval_node(files, n.lhs.as_ref().unwrap(), false, label)?;
            Ok(if l == 0 { 1 } else { 0 })
        },
        NodeKind::BitNot => {
            let l = eval_node(files, n.lhs.as_ref().unwrap(), false, label)?;
            Ok(!l)
        },
        NodeKind::Cond => {
            let c = eval_node(files, n.cond.as_ref().unwrap(), false, label)?;
            if c != 0 {
                eval_node(files, n.then_br.as_ref().unwrap(), lab, label)
            } else {
                eval_node(files, n.els.as_ref().unwrap(), lab, label)
            }
        },
        NodeKind::Comma => eval_node(files, n.rhs.as_ref().unwrap(), lab, label),
        NodeKind::Cast => {
            if crate::types::is_integer(ty) {
                let lb = n.lhs.as_ref().unwrap();
                let lflo = match &lb.ty {
                    Some(t) => crate::types::is_flonum(t),
                    None => false,
                };
                if lflo {
                    return Err(EvalStop::FloatingPoint);
                }
                let v = eval_node(files, lb, lab, label)?;
                Ok(truncate_exec(v, ty.size, ty.is_unsigned))
            } else if ty.kind == TypeKind::Ptr {
                eval_node(files, n.lhs.as_ref().unwrap(), lab, label)
            } else {
                eval_fail(files, n.file_no, n.tok_loc, EvalError::NotConstant)
            }
        },
        NodeKind::Addr => eval_rval_node(files, n.lhs.as_ref().unwrap(), lab, label),
        NodeKind::Member => {
            if !lab {
                return eval_fail(files, n.file_no, n.tok_loc, EvalError::NotConstant);
            }
            if ty.kind != TypeKind::Array {
                return eval_fail(files, n.file_no, n.tok_loc, EvalError::InvalidInitializer);
            }
            let v = eval_rval_node(files, n.lhs.as_ref().unwrap(), lab, label)?;
            Ok(v + n.member.as_ref().unwrap().offset)
        },
        NodeKind::Var => {
            if !lab {
                return eval_fail(files, n.file_no, n.tok_loc, EvalError::NotConstant);
            }
            let var = n.var.as_ref().unwrap();
            if var.ty.kind != TypeKind::Array && var.ty.kind != TypeKind::Func {
                return eval_fail(files, n.file_no, n.tok_loc, EvalError::InvalidInitializer);
            }
            *label = Some(var.name.clone());
            Ok(0)
        },
        NodeKind::Num => Ok(n.val),
        _ => eval_fail(files, n.file_no, n.tok_loc, EvalError::NotConstant),
    }
}

fn truncate_exec(val: i64, size: i64, is_unsigned: bool) -> (r: i64)
    ensures
        r == truncate_to(val, size, is_unsigned),
{
    if size == 1 {
        if is_unsigned {
            (val as u8) as i64
        } else {
            (val as i8) as i64
        }
    } else if size == 2 {
        if is_unsigned {
            (val as u16) as i64
        } else {
            (val as i16) as i64
        }
    } else if size == 4 {
        if is_unsigned {
            (val as u32) as i64
        } else {
            (val as i32) as i64
        }
    } else {
        val
    }
}

fn eval_rval_node(files: &[File], n: &Node, lab: bool, label: &mut Option<String>) -> (r: Result<
    i64,
    EvalStop,
>)
    requires
        files_fit(files@),
        reportable(files@, ev_rval(*n, lab, opt_view(*old(label))).0),
    ensures
        result_matches(files@, r, ev_rval(*n, lab, opt_view(*old(label))).0),
        opt_view(*final(label)) == ev_rval(*n, lab, opt_view(*old(label))).1,
    decreases n, 0nat,
{
    match n.kind {
        NodeKind::Var => {
            let var = n.var.as_ref().unwrap();
            if var.is_local {
                return eval_fail(files, n.file_no, n.tok_loc, EvalError::NotConstant);
            }
            if lab {
                *label = Some(var.name.clone());
            }
            Ok(0)
        },
        NodeKind::Deref => eval_node(files, n.lhs.as_ref().unwrap(), lab, label),
        NodeKind::Member => {
            let v = eval_rval_node(files, n.lhs.as_ref().unwrap(), lab, label)?;
            Ok(v + n.member.as_ref().unwrap().offset)
        },
        _ => eval_fail(files, n.file_no, n.tok_loc, EvalError::InvalidInitializer),
    }
}

/// Evaluates a constant expression after typing it. When `allow_label` is
/// set, the expression may be the address of a global (plus an offset); the
/// global's name is stored in `label` and the offset returned.
pub fn eval2(files: &[File], node: &mut Node, allow_label: bool, label: &mut Option<String>) -> (r:
    Result<i64, EvalStop>)
    requires
        typeable(*old(node)),
        files_fit(files@),
        reportable(files@, ev(typed(*old(node)), allow_label, opt_view(*old(label))).0),
    ensures
        *final(node) == typed(*old(node)),
        result_matches(files@, r, ev(typed(*old(node)), allow_label, opt_view(*old(label))).0),
        opt_view(*final(label)) == ev(typed(*old(node)), allow_label, opt_view(*old(label))).1,
{
    add_type(node);
    eval_node(files, node, allow_label, label)
}

/// Evaluates a constant expression that may not refer to addresses.
pub fn eval(files: &[File], node: &mut Node) -> (r: Result<i64, EvalStop>)
    requires
        typeable(*old(node)),
        files_fit(files@),
        reportable(files@, ev(typed(*old(node)), false, None).0),
    ensures
        *final(node) == typed(*old(node)),
        result_matches(files@, r, ev(typed(*old(node)), false, None).0),
{
    let mut label: Option<String> = None;
    eval2(files, node, false, &mut label)
}

} // verus!
