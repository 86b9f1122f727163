use vstd::prelude::*;

use crate::parse::{files_fit, Node, NodeKind};
use crate::tokenize::{diag_text, error_tok, file_index, has_file, File, Token, TokenKind};

verus! {

// ---------------------------------------------------------------------------
// Resolving `goto` statements to their labels

/// Whether two optional label names are the same.
pub open spec fn same_label(a: Option<String>, b: Option<String>) -> bool {
    match (a, b) {
        (Some(x), Some(y)) => x@ == y@,
        (None, None) => true,
        _ => false,
    }
}

/// `n` with the label `ul` given to each `goto` to `label` in it: in `n`
/// itself, in its children, and along the lists of statements and
/// arguments that hang from it.
pub open spec fn relabeled(n: Node, label: Option<String>, ul: Option<String>) -> Node
    decreases n, 1nat,
{
    Node {
        unique_label: if n.kind == NodeKind::Goto && same_label(n.label, label) {
            ul
        } else {
            n.unique_label
        },
        lhs: relabeled_opt(n.lhs, label, ul),
        rhs: relabeled_opt(n.rhs, label, ul),
        cond: relabeled_opt(n.cond, label, ul),
        then_br: relabeled_opt(n.then_br, label, ul),
        els: relabeled_opt(n.els, label, ul),
        init: relabeled_opt(n.init, label, ul),
        inc: relabeled_opt(n.inc, label, ul),
        body: relabeled_list(n.body, label, ul),
        args: relabeled_list(n.args, label, ul),
        goto_next: relabeled_opt(n.goto_next, label, ul),
        ..n
    }
}

/// An optional child, relabeled.
pub open spec fn relabeled_opt(o: Option<Box<Node>>, label: Option<String>, ul: Option<String>) -> Option<Box<Node>>
    decreases o, 0nat,
{
    match o {
        Some(b) => Some(Box::new(relabeled(*b, label, ul))),
        None => None,
    }
}

/// A list of nodes linked through `next`, each relabeled.
pub open spec fn relabeled_list(o: Option<Box<Node>>, label: Option<String>, ul: Option<String>) -> Option<Box<Node>>
    decreases o, 0nat,
{
    match o {
        Some(b) => Some(Box::new(Node { next: relabeled_list(b.next, label, ul), ..relabeled(*b, label, ul) })),
        None => None,
    }
}

fn labels_equal(a: &Option<String>, b: &Option<String>) -> (r: bool)
    ensures
        r == same_label(*a, *b),
{
    match (a, b) {
        (Some(x), Some(y)) => *x == *y,
        (None, None) => true,
        _ => false,
    }
}

fn clone_label(a: &Option<String>) -> (r: Option<String>)
    ensures
        r == *a,
{
    match a {
        Some(x) => Some(x.clone()),
        None => None,
    }
}

/// Gives the label `unique_label` to each `goto` to `label` in the tree of
/// `node`: in the node, its children, and the lists of statements and
/// arguments below it.
pub fn set_unique_label(node: &mut Node, label: &Option<String>, unique_label: &Option<String>)
    ensures
        *final(node) == relabeled(*old(node), *label, *unique_label),
    decreases *old(node),
{
    if node.kind == NodeKind::Goto && labels_equal(&node.label, label) {
        node.unique_label = clone_label(unique_label);
    }
    relabel_opt(&mut node.lhs, label, unique_label);
    relabel_opt(&mut node.rhs, label, unique_label);
    relabel_opt(&mut node.cond, label, unique_label);
    relabel_opt(&mut node.then_br, label, unique_label);
    relabel_opt(&mut node.els, label, unique_label);
    relabel_opt(&mut node.init, label, unique_label);
    relabel_opt(&mut node.inc, label, unique_label);
    relabel_list(&mut node.body, label, unique_label);
    relabel_list(&mut node.args, label, unique_label);
    relabel_opt(&mut node.goto_next, label, unique_label);
}

fn relabel_opt(o: &mut Option<Box<Node>>, label: &Option<String>, unique_label: &Option<String>)
    ensures
        *final(o) == relabeled_opt(*old(o), *label, *unique_label),
    decreases *old(o),
{
    match o.take() {
        Some(mut b) => {
            set_unique_label(&mut *b, label, unique_label);
            *o = Some(b);
        },
        None => {},
    }
}

fn relabel_list(o: &mut Option<Box<Node>>, label: &Option<String>, unique_label: &Option<String>)
    ensures
        *final(o) == relabeled_list(*old(o), *label, *unique_label),
    decreases *old(o),
{
    match o.take() {
        Some(mut b) => {
            let ghost b0 = *b;
            set_unique_label(&mut *b, label, unique_label);
            let mut next = b.next.take();
            relabel_list(&mut next, label, unique_label);
            b.next = next;
            assert(*b == Node { next: relabeled_list(b0.next, *label, *unique_label), ..relabeled(b0, *label, *unique_label) });
            *o = Some(b);
        },
        None => {},
    }
}

/// The first label node from `k` on that carries label `l`, or the number
/// of label nodes.
pub open spec fn label_index(labels: Seq<Node>, l: Option<String>, k: int) -> int
    decreases labels.len() - k,
{
    if k < 0 || k >= labels.len() {
        labels.len() as int
    } else if same_label(labels[k].label, l) {
        k
    } else {
        label_index(labels, l, k + 1)
    }
}

/// The first `goto` from `j` on whose label no label node carries, or the
/// number of gotos.
pub open spec fn first_unresolved(gotos: Seq<Node>, labels: Seq<Node>, j: int) -> int
    decreases gotos.len() - j,
{
    if j < 0 || j >= gotos.len() {
        gotos.len() as int
    } else if label_index(labels, gotos[j].label, 0) >= labels.len() {
        j
    } else {
        first_unresolved(gotos, labels, j + 1)
    }
}

/// `body` with the first `n` gotos pointed at their labels, one after
/// another.
pub open spec fn resolved(body: Node, gotos: Seq<Node>, labels: Seq<Node>, n: int) -> Node
    decreases n,
{
    if n <= 0 {
        body
    } else {
        let g = gotos[n - 1];
        relabeled(
            resolved(body, gotos, labels, n - 1),
            g.label,
            labels[label_index(labels, g.label, 0)].unique_label,
        )
    }
}

/// The diagnostic "use of undeclared label" at `goto` node `g`: at its
/// place and with its line number.
pub open spec fn undeclared_label_text(files: Seq<File>, g: Node) -> Seq<char> {
    let f = files[file_index(files, g.file_no)];
    diag_text(f.name@, f.contents@, g.tok_loc as int, g.line_no as nat, "use of undeclared label"@)
}

proof fn lemma_label_index(labels: Seq<Node>, l: Option<String>, k: int)
    requires
        0 <= k <= labels.len(),
    ensures
        k <= label_index(labels, l, k) <= labels.len(),
        label_index(labels, l, k) < labels.len() ==> same_label(labels[label_index(labels, l, k)].label, l),
    decreases labels.len() - k,
{
    if k < labels.len() && !same_label(labels[k].label, l) {
        lemma_label_index(labels, l, k + 1);
    }
}

proof fn lemma_first_unresolved(gotos: Seq<Node>, labels: Seq<Node>, j: int)
    requires
        0 <= j <= gotos.len(),
    ensures
        j <= first_unresolved(gotos, labels, j) <= gotos.len(),
    decreases gotos.len() - j,
{
    if j < gotos.len() && label_index(labels, gotos[j].label, 0) < labels.len() {
        lemma_first_unresolved(gotos, labels, j + 1);
    }
}

/// Points each `goto` at the label of the same name, in order: every goto
/// to that name in `body` gets the unique label of the first label node
/// that carries it. A goto whose label no label node carries stops this
/// with the error "use of undeclared label" at the goto.
pub fn resolve_goto_labels(files: &[File], body: &mut Node, gotos: &[Node], labels: &[Node]) -> (r: Result<(), String>)
    requires
        first_unresolved(gotos@, labels@, 0) < gotos@.len() ==> ({
            let g = gotos@[first_unresolved(gotos@, labels@, 0)];
            &&& g.label is Some
            &&& has_file(files@, g.file_no)
            &&& files_fit(files@)
        }),
    ensures
        ({
            let u = first_unresolved(gotos@, labels@, 0);
            &&& *final(body) == resolved(*old(body), gotos@, labels@, u)
            &&& u == gotos@.len() ==> r is Ok
            &&& u < gotos@.len() ==> (r matches Err(e) && e@ == undeclared_label_text(files@, gotos@[u]))
        }),
{
    proof {
        lemma_first_unresolved(gotos@, labels@, 0);
    }
    let mut i: usize = 0;
    while i < gotos.len()
        invariant
            i <= first_unresolved(gotos@, labels@, 0) <= gotos@.len(),
            first_unresolved(gotos@, labels@, 0) == first_unresolved(gotos@, labels@, i as int),
            *body == resolved(*old(body), gotos@, labels@, i as int),
            first_unresolved(gotos@, labels@, 0) < gotos@.len() ==> ({
                let g = gotos@[first_unresolved(gotos@, labels@, 0)];
                &&& g.label is Some
                &&& has_file(files@, g.file_no)
                &&& files_fit(files@)
            }),
        decreases gotos.len() - i,
    {
        let g = &gotos[i];
        let mut k: usize = 0;
        while k < labels.len() && !labels_equal(&labels[k].label, &g.label)
            invariant
                k <= labels@.len(),
                label_index(labels@, g.label, 0) == label_index(labels@, g.label, k as int),
            decreases labels.len() - k,
        {
            k += 1;
        }
        proof {
            lemma_label_index(labels@, g.label, 0);
        }
        if k == labels.len() {
            assert(first_unresolved(gotos@, labels@, i as int) == i);
            let name = match &g.label {
                Some(s) => s,
                None => {
                    assert(false);
                    return Ok(());
                },
            };
            let tok = Token {
                kind: TokenKind::Ident,
                val: 0,
                fval_bits: 0,
                loc: g.tok_loc,
                len: name.as_str().len(),
                ty: None,
                str: None,
                file_no: g.file_no,
                line_no: g.line_no,
                at_bol: false,
                has_space: false,
            };
            proof {
                crate::tokenize::lemma_file_index_valid(files@, g.file_no);
            }
            let e = error_tok(files, &tok, "use of undeclared label");
            return Err(e);
        }
        assert(first_unresolved(gotos@, labels@, i as int) == first_unresolved(gotos@, labels@, i + 1));
        proof {
            lemma_first_unresolved(gotos@, labels@, i + 1);
        }
        set_unique_label(body, &g.label, &labels[k].unique_label);
        i += 1;
    }
    Ok(())
}

} // verus!
