//! The boundary of the PvZ emulator: what a request must satisfy before the
//! emulator runs it, and how an error reply is read. The emulator itself is
//! native code that the program links; the library checks what goes to it
//! and reads what comes back.
use vstd::prelude::*;
use crate::seml::parser::actions::matches_at;
use crate::text::{append, chars_of, find_char, lead_from, push_str, string_of};

verus! {

/// The calculators the emulator runs.
pub open spec fn known_calculator(c: Seq<char>) -> bool {
    c == "pos"@ || c == "smash"@ || c == "explode"@ || c == "refresh"@ || c == "pogo"@ || c
        == "survive"@
}

/// What `serde_json::from_str::<serde_json::Value>` makes of a text: `None`
/// where it is not JSON, else whether it is an object.
pub uninterp spec fn json_object_shape(text: Seq<char>) -> Option<bool>;

/// `serde_json::from_str` into a `serde_json::Value`; reports whether the text
/// parses and, where it does, whether the value is an object. The contract
/// names the result and says no more of it; it depends on the text alone.
#[verifier::external_body]
fn json_shape(text: &str) -> (r: Option<bool>)
    ensures
        r == json_object_shape(text@),
{
    match serde_json::from_str::<serde_json::Value>(text) {
        Ok(serde_json::Value::Object(_)) => Some(true),
        Ok(_) => Some(false),
        Err(_) => None,
    }
}

pub open spec fn has_nul(s: Seq<char>) -> bool {
    exists|i: int| 0 <= i < s.len() && s[i] == '\0'
}

/// Why a request is refused before the emulator runs.
pub open spec fn request_error(calc: Seq<char>, scenario: Seq<char>, params: Seq<char>) -> Option<
    Seq<char>,
> {
    if has_nul(calc) {
        Some("calculator contains NUL"@)
    } else if has_nul(scenario) {
        Some("scenario JSON contains NUL"@)
    } else if has_nul(params) {
        Some("params JSON contains NUL"@)
    } else if !known_calculator(calc) {
        Some("unknown calculator: "@ + calc)
    } else {
        match json_object_shape(scenario) {
            None => Some("invalid JSON in scenario"@),
            Some(false) => Some("scenario must be a JSON object"@),
            Some(true) => None,
        }
    }
}

fn has_nul_exec(s: &[char]) -> (r: bool)
    ensures
        r == has_nul(s@),
{
    proof {
        lemma_find_nul(s@);
    }
    find_char(s, '\0', 0) < s.len()
}

proof fn lemma_find_nul(s: Seq<char>)
    ensures
        (crate::text::find_from(s, '\0', 0) < s.len()) == has_nul(s),
{
    crate::text::lemma_find_from_bounds(s, '\0', 0);
    lemma_find_from_first(s, '\0', 0);
}

proof fn lemma_find_from_first(s: Seq<char>, c: char, i: int)
    requires
        0 <= i <= s.len(),
    ensures
        crate::text::find_from(s, c, i) < s.len() ==> s[crate::text::find_from(s, c, i)] == c,
        crate::text::find_from(s, c, i) == s.len() ==> forall|k: int| i <= k < s.len() ==> s[k]
            != c,
    decreases s.len() - i,
{
    if i < s.len() && s[i] != c {
        lemma_find_from_first(s, c, i + 1);
    }
}

/// Checks a request for the emulator: no text may hold a NUL character, the
/// calculator must be one the emulator runs, and the scenario must be a JSON
/// object. `Ok` means the emulator may be called.
pub fn check_request(calculator: &str, scenario_json: &str, params_json: &str) -> (r: Result<
    (),
    String,
>)
    ensures
        match (r, request_error(calculator@, scenario_json@, params_json@)) {
            (Ok(_), None) => true,
            (Err(m), Some(e)) => m@ == e,
            _ => false,
        },
{
    let c = chars_of(calculator);
    let s = chars_of(scenario_json);
    let p = chars_of(params_json);
    proof {
        lemma_find_nul(c@);
        lemma_find_nul(s@);
        lemma_find_nul(p@);
    }
    if has_nul_exec(c.as_slice()) {
        return Err("calculator contains NUL".to_owned());
    }
    if has_nul_exec(s.as_slice()) {
        return Err("scenario JSON contains NUL".to_owned());
    }
    if has_nul_exec(p.as_slice()) {
        return Err("params JSON contains NUL".to_owned());
    }
    let known = crate::text::eq_str(c.as_slice(), "pos") || crate::text::eq_str(c.as_slice(), "smash")
        || crate::text::eq_str(c.as_slice(), "explode") || crate::text::eq_str(
        c.as_slice(),
        "refresh",
    ) || crate::text::eq_str(c.as_slice(), "pogo") || crate::text::eq_str(c.as_slice(), "survive");
    if !known {
        let mut m: Vec<char> = Vec::new();
        push_str(&mut m, "unknown calculator: ");
        append(&mut m, c.as_slice());
        return Err(string_of(m.as_slice()));
    }
    match json_shape(scenario_json) {
        None => Err("invalid JSON in scenario".to_owned()),
        Some(false) => Err("scenario must be a JSON object".to_owned()),
        Some(true) => Ok(()),
    }
}

/// A JSON string body with its escapes `\n`, `\t`, `\"` and `\\` resolved;
/// any other backslash is kept.
pub open spec fn unescape(s: Seq<char>) -> Seq<char>
    decreases s.len(),
{
    if s.len() == 0 {
        Seq::empty()
    } else if s[0] == '\\' {
        if s.len() == 1 {
            seq!['\\']
        } else {
            let c = s[1];
            (if c == 'n' {
                seq!['\n']
            } else if c == 't' {
                seq!['\t']
            } else if c == '"' {
                seq!['"']
            } else if c == '\\' {
                seq!['\\']
            } else {
                seq!['\\', c]
            }) + unescape(s.subrange(2, s.len() as int))
        }
    } else {
        seq![s[0]] + unescape(s.subrange(1, s.len() as int))
    }
}

pub fn unescape_json(s: &str) -> (r: String)
    ensures
        r@ == unescape(s@),
{
    let v = chars_of(s);
    let mut out: Vec<char> = Vec::new();
    let mut i: usize = 0;
    assert(v@.subrange(0, v@.len() as int) =~= s@);
    assert(out@ + unescape(v@.subrange(0, v@.len() as int)) =~= unescape(s@));
    while i < v.len()
        invariant
            i <= v@.len(),
            v@ == s@,
            out@ + unescape(v@.subrange(i as int, v@.len() as int)) == unescape(s@),
        decreases v@.len() - i,
    {
        let ghost rest = v@.subrange(i as int, v@.len() as int);
        let c = v[i];
        if c == '\\' {
            if i + 1 >= v.len() {
                out.push('\\');
                i = i + 1;
                assert(rest =~= seq!['\\']);
                assert(v@.subrange(i as int, v@.len() as int) =~= Seq::<char>::empty());
            } else {
                let d = v[i + 1];
                if d == 'n' {
                    out.push('\n');
                } else if d == 't' {
                    out.push('\t');
                } else if d == '"' {
                    out.push('"');
                } else if d == '\\' {
                    out.push('\\');
                } else {
                    out.push('\\');
                    out.push(d);
                }
                assert(rest.subrange(2, rest.len() as int) =~= v@.subrange(i + 2, v@.len() as int));
                i = i + 2;
            }
        } else {
            out.push(c);
            assert(rest.subrange(1, rest.len() as int) =~= v@.subrange(i + 1, v@.len() as int));
            i = i + 1;
        }
    }
    assert(v@.subrange(i as int, v@.len() as int) =~= Seq::<char>::empty());
    assert(out@ =~= unescape(s@));
    string_of(out.as_slice())
}

/// First index at or after `i` where `p` occurs in `s`, or `s.len()`.
pub open spec fn find_text(s: Seq<char>, p: Seq<char>, i: int) -> int
    decreases s.len() - i,
{
    if i >= s.len() || i < 0 {
        s.len() as int
    } else if p.len() <= s.len() - i && s.subrange(i, i + p.len()) == p {
        i
    } else {
        find_text(s, p, i + 1)
    }
}

/// Index of the quote that closes a JSON string whose text starts at `i`:
/// the first `"` at or after `i` that no backslash escapes (`s.len()` where
/// there is none).
pub open spec fn closing_quote(s: Seq<char>, i: int) -> int
    decreases s.len() + 1 - i,
{
    if i >= s.len() || i < 0 {
        s.len() as int
    } else if s[i] == '"' {
        i
    } else if s[i] == '\\' {
        closing_quote(s, i + 2)
    } else {
        closing_quote(s, i + 1)
    }
}

/// The message of the emulator's error reply `{"error":"<message>"}`: the
/// string field up to its closing quote, escaped quotes included, with its
/// escapes undone; or the whole reply where it is not shaped so.
pub open spec fn error_message(json: Seq<char>) -> Seq<char> {
    let key = "\"error\":"@;
    let k = find_text(json, key, 0);
    if k >= json.len() {
        json
    } else {
        let rest = json.subrange(k + key.len(), json.len() as int);
        let a = lead_from(rest, 0);
        if a < rest.len() && rest[a] == '"' {
            let inner = rest.subrange(a + 1, rest.len() as int);
            let end = closing_quote(inner, 0);
            if end < inner.len() {
                unescape(inner.subrange(0, end))
            } else {
                json
            }
        } else {
            json
        }
    }
}

pub fn extract_error(json: &str) -> (r: String)
    ensures
        r@ == error_message(json@),
{
    let v = chars_of(json);
    let key = chars_of("\"error\":");
    let mut k: usize = 0;
    while k < v.len() && !matches_at(v.as_slice(), k, key.as_slice())
        invariant
            k <= v@.len(),
            v@ == json@,
            key@ == "\"error\":"@,
            find_text(json@, key@, 0) == find_text(json@, key@, k as int),
        decreases v@.len() - k,
    {
        k = k + 1;
    }
    if k >= v.len() {
        return string_of(v.as_slice());
    }
    assert(key@.len() <= v@.len() - k);
    let rest = crate::text::copy_range(v.as_slice(), k + key.len(), v.len());
    let mut a: usize = 0;
    while a < rest.len() && crate::text::is_whitespace(rest[a])
        invariant
            a <= rest@.len(),
            lead_from(rest@, 0) == lead_from(rest@, a as int),
        decreases rest@.len() - a,
    {
        a = a + 1;
    }
    if a < rest.len() && rest[a] == '"' {
        let inner = crate::text::copy_range(rest.as_slice(), a + 1, rest.len());
        let mut end: usize = 0;
        while end < inner.len() && inner[end] != '"'
            invariant
                end <= inner@.len(),
                closing_quote(inner@, 0) == closing_quote(inner@, end as int),
            decreases inner@.len() - end,
        {
            let ghost e0 = end as int;
            if inner[end] == '\\' && end + 1 < inner.len() {
                end = end + 2;
            } else if inner[end] == '\\' {
                assert(closing_quote(inner@, e0 + 2) == inner@.len());
                end = inner.len();
            } else {
                end = end + 1;
            }
            assert(closing_quote(inner@, e0) == closing_quote(inner@, end as int));
        }
        if end < inner.len() {
            let body = crate::text::copy_range(inner.as_slice(), 0, end);
            let t = string_of(body.as_slice());
            return unescape_json(t.as_str());
        }
    }
    string_of(v.as_slice())
}

} // verus!
