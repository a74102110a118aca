//! The text of a tool reply: result text and diagnostics put together.
use vstd::prelude::*;
use crate::text::{append, chars_of, push_str, string_of, trim, trim_chars};

verus! {

/// `out` then `diag`, with a line break between them where `out` does not
/// end with one.
pub open spec fn combined(out: Seq<char>, diag: Seq<char>) -> Seq<char> {
    if diag.len() == 0 {
        out
    } else if out.len() > 0 && out.last() != '\n' {
        out + seq!['\n'] + diag
    } else {
        out + diag
    }
}

pub fn combine(out: String, diag: String) -> (r: String)
    ensures
        r@ == combined(out@, diag@),
{
    let o = chars_of(out.as_str());
    let d = chars_of(diag.as_str());
    if d.len() == 0 {
        return out;
    }
    let mut t = o;
    if t.len() > 0 && t[t.len() - 1] != '\n' {
        t.push('\n');
    }
    append(&mut t, d.as_slice());
    string_of(t.as_slice())
}

/// A successful reply: the result text, then the diagnostics under a
/// `--- warnings ---` rule where there are any but white space;
/// `(no output)` where nothing at all was written.
pub open spec fn success_text(out: Seq<char>, diag: Seq<char>) -> Seq<char> {
    let t = if trim(diag).len() > 0 {
        (if out.len() > 0 && out.last() != '\n' {
            out + seq!['\n']
        } else {
            out
        }) + "\n--- warnings ---\n"@ + diag
    } else {
        out
    };
    if t.len() == 0 {
        "(no output)"@
    } else {
        t
    }
}

pub fn success_reply(out: String, diag: String) -> (r: String)
    ensures
        r@ == success_text(out@, diag@),
{
    let mut t = chars_of(out.as_str());
    let d = chars_of(diag.as_str());
    let trimmed = trim_chars(d.as_slice());
    if trimmed.len() > 0 {
        if t.len() > 0 && t[t.len() - 1] != '\n' {
            t.push('\n');
        }
        push_str(&mut t, "\n--- warnings ---\n");
        append(&mut t, d.as_slice());
    }
    if t.len() == 0 {
        push_str(&mut t, "(no output)");
    }
    string_of(t.as_slice())
}

/// A failed reply: everything written, then the error message on a line of
/// its own.
pub open spec fn failure_text(out: Seq<char>, diag: Seq<char>, msg: Seq<char>) -> Seq<char> {
    let c = combined(out, diag);
    (if c.len() > 0 {
        c + seq!['\n']
    } else {
        c
    }) + msg
}

pub fn failure_reply(out: String, diag: String, msg: &str) -> (r: String)
    ensures
        r@ == failure_text(out@, diag@, msg@),
{
    let c = combine(out, diag);
    let mut t = chars_of(c.as_str());
    if t.len() > 0 {
        t.push('\n');
    }
    push_str(&mut t, msg);
    string_of(t.as_slice())
}

} // verus!
