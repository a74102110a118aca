//! The output sink: result text and diagnostic text, kept apart. The
//! calculators and printers write into a sink; the program around the library
//! hands its text to standard output and standard error.
use vstd::prelude::*;
use crate::text::{append, string_of};

verus! {

/// Result text and diagnostic text written so far.
pub struct Output {
    pub res: Vec<char>,
    pub diag: Vec<char>,
}

pub struct OutputV {
    pub res: Seq<char>,
    pub diag: Seq<char>,
}

impl View for Output {
    type V = OutputV;

    open spec fn view(&self) -> OutputV {
        OutputV { res: self.res@, diag: self.diag@ }
    }
}

impl Output {
    /// An empty sink.
    pub fn new() -> (r: Output)
        ensures
            r@.res == Seq::<char>::empty(),
            r@.diag == Seq::<char>::empty(),
    {
        Output { res: Vec::new(), diag: Vec::new() }
    }
}


/// Appends a line of result text.
pub fn emit_res_line(out: &mut Output, line: &[char])
    ensures
        final(out)@.res == old(out)@.res + line@ + seq!['\n'],
        final(out)@.diag == old(out)@.diag,
{
    append(&mut out.res, line);
    out.res.push('\n');
}

/// Appends a line of diagnostic text.
pub fn emit_diag_line(out: &mut Output, line: &[char])
    ensures
        final(out)@.diag == old(out)@.diag + line@ + seq!['\n'],
        final(out)@.res == old(out)@.res,
{
    append(&mut out.diag, line);
    out.diag.push('\n');
}

/// Runs `f` on a fresh, empty sink and returns what it gave back together
/// with the result text and the diagnostic text it wrote.
pub fn capture<R, F: FnOnce(Output) -> (R, Output)>(f: F) -> (r: (R, String, String))
    requires
        forall|o: Output| o@.res.len() == 0 && o@.diag.len() == 0 ==> f.requires((o,)),
    ensures
        exists|start: Output, end: Output|
            #![trigger f.ensures((start,), (r.0, end))]
            start@.res.len() == 0 && start@.diag.len() == 0 && f.ensures((start,), (r.0, end))
                && r.1@ == end@.res && r.2@ == end@.diag,
{
    let out = Output::new();
    let ghost start = out;
    let pair = f(out);
    let ghost done = pair;
    let (r, end) = pair;
    let res = string_of(end.res.as_slice());
    let diag = string_of(end.diag.as_slice());
    let ret = (r, res, diag);
    assert(f.ensures((start,), (ret.0, done.1)));
    assert(ret.1@ == done.1@.res);
    assert(ret.2@ == done.1@.diag);
    ret
}

} // verus!
