//! The data part of a program: the `.file` lines of the input files and
//! the data of the global variables.

use vstd::prelude::*;

use crate::data::{data_in_range, emit_global_data, global_data_text};
use crate::parse::Obj;
use crate::text::{decimal, push_chars, u64_to_decimal};
use crate::tokenize::File;

verus! {

/// The `.file` directive of each input file, in order.
pub open spec fn file_lines(files: Seq<File>) -> Seq<char>
    decreases files.len(),
{
    if files.len() == 0 {
        Seq::empty()
    } else {
        let f = files.last();
        file_lines(files.drop_last()) + "  .file "@ + decimal(f.file_no as nat) + " \""@ + f.name@
            + "\"\n"@
    }
}

/// Whether the data of a global can be written out: a defined variable
/// that is not laid out as a common symbol has its bytes and relocations
/// inside its size.
pub open spec fn data_writable(var: Obj, as_common: bool) -> bool {
    var.is_function || !var.is_definition || as_common || (var.init_data matches Some(d) ==> data_in_range(
        d@,
        var.rel,
        0,
        var.ty.size as int,
    ) && 0 <= var.ty.size && var.ty.size + 8 <= i64::MAX)
}

/// The data of the globals, in order: each defined variable (functions and
/// declarations are left out), thread-local when `tls` marks it, and a
/// common symbol when common symbols are wanted and `tentative` marks it.
pub open spec fn globals_text(
    globals: Seq<Obj>,
    tls: Seq<bool>,
    tentative: Seq<bool>,
    fcommon: bool,
) -> Seq<char>
    decreases globals.len(),
{
    if globals.len() == 0 {
        Seq::empty()
    } else {
        let n = globals.len() - 1;
        let g = globals[n];
        globals_text(globals.drop_last(), tls.drop_last(), tentative.drop_last(), fcommon) + if g.is_function
            || !g.is_definition {
            Seq::empty()
        } else {
            global_data_text(g, tls[n], fcommon && tentative[n])
        }
    }
}

/// Emits the data part of a program: a `.file` line for each input file,
/// then the data of each defined global variable. `tls` and `tentative`
/// give, for each global, whether it is thread-local and whether it is a
/// tentative definition.
pub fn emit_data(files: &[File], globals: &[Obj], tls: &[bool], tentative: &[bool], fcommon: bool) -> (r:
    String)
    requires
        tls@.len() == globals@.len(),
        tentative@.len() == globals@.len(),
        forall|k: int|
            0 <= k < globals@.len() ==> data_writable(#[trigger] globals@[k], fcommon && tentative@[k]),
    ensures
        r@ == file_lines(files@) + globals_text(globals@, tls@, tentative@, fcommon),
{
    let mut out = String::new();
    let mut i: usize = 0;
    while i < files.len()
        invariant
            i <= files.len(),
            out@ == file_lines(files@.take(i as int)),
        decreases files.len() - i,
    {
        let f = &files[i];
        let ghost before = out@;
        out.append("  .file ");
        let d = u64_to_decimal(f.file_no as u64);
        push_chars(&mut out, &d);
        out.append(" \"");
        out.append(f.name.as_str());
        out.append("\"\n");
        assert(files@.take(i + 1).drop_last() =~= files@.take(i as int));
        i += 1;
    }
    assert(files@.take(files.len() as int) =~= files@);
    let ghost head = out@;
    let mut k: usize = 0;
    while k < globals.len()
        invariant
            k <= globals.len(),
            tls@.len() == globals@.len(),
            tentative@.len() == globals@.len(),
            forall|j: int|
                0 <= j < globals@.len() ==> data_writable(#[trigger] globals@[j], fcommon && tentative@[j]),
            out@ == head + globals_text(
                globals@.take(k as int),
                tls@.take(k as int),
                tentative@.take(k as int),
                fcommon,
            ),
        decreases globals.len() - k,
    {
        let g = &globals[k];
        proof {
            assert(globals@.take(k + 1).drop_last() =~= globals@.take(k as int));
            assert(tls@.take(k + 1).drop_last() =~= tls@.take(k as int));
            assert(tentative@.take(k + 1).drop_last() =~= tentative@.take(k as int));
            assert(data_writable(globals@[k as int], fcommon && tentative@[k as int]));
        }
        if !g.is_function && g.is_definition {
            emit_global_data(g, tls[k], fcommon && tentative[k], &mut out);
        }
        k += 1;
    }
    assert(globals@.take(globals.len() as int) =~= globals@);
    assert(tls@.take(globals.len() as int) =~= tls@);
    assert(tentative@.take(globals.len() as int) =~= tentative@);
    out
}

} // verus!
