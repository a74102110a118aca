//! Header lines (`name:value`): positive integers, booleans, zombie type
//! lists and protected positions. Each header may be given once.
use vstd::prelude::*;
use crate::seml::error::{err, err_d, mk_err, mk_err_d, ErrKind, SemlError, SemlErrorV};
use crate::seml::parser::fields::{
    arg_value, arg_value_exec, lowercase_of, one, one_exec, to_lower,
};
use crate::seml::string::{
    chopped_suffix, chop_suffix_chars, edit_distance, find_closest_string, natural_value,
    parse_natural_chars, suggestible,
};
use crate::seml::types::{ProtectKind, ProtectPos};
use crate::seml::zombie::{
    acceptable, acceptable_spec, banned_chars, banned_spec, cn_lookup_chars, cn_lookup_spec,
    en_abbr_spec, en_keys, en_lookup_chars, en_lookup_spec,
};
use crate::text::{
    chars_of, ends_with, ends_with_chars, eq_chars, eq_str, is_ascii_alpha, is_whitespace,
    is_ws, split, split_chars, views,
};

verus! {

pub fn contains_name(seen: &Vec<Vec<char>>, name: &[char]) -> (r: bool)
    ensures
        r == views(seen@).contains(name@),
{
    let mut k: usize = 0;
    while k < seen.len()
        invariant
            k <= seen@.len(),
            forall|j: int| 0 <= j < k ==> seen@[j]@ != name@,
        decreases seen@.len() - k,
    {
        if eq_chars(seen[k].as_slice(), name) {
            assert(views(seen@)[k as int] == name@);
            return true;
        }
        k = k + 1;
    }
    assert forall|j: int| 0 <= j < views(seen@).len() implies views(seen@)[j] != name@ by {
        assert(views(seen@)[j] == seen@[j]@);
    }
    false
}

pub proof fn lemma_views_push(v: Seq<Vec<char>>, x: Vec<char>)
    ensures
        views(v.push(x)) == views(v).push(x@),
{
    assert(views(v.push(x)) =~= views(v).push(x@));
}

/// A positive integer header.
pub open spec fn int_arg_value(
    seen: Seq<Seq<char>>,
    name: Seq<char>,
    ln: usize,
    line: Seq<char>,
) -> Result<(i32, Seq<Seq<char>>), SemlErrorV> {
    if seen.contains(name) {
        Err(mk_err(ln, ErrKind::DupParam, name))
    } else {
        let value = arg_value(line);
        match natural_value(value) {
            Some(v) if v > 0 => Ok((v, seen.push(name))),
            _ => Err(mk_err_d(ln, ErrKind::ValuePositiveInt, value, name)),
        }
    }
}

pub fn parse_int_arg(seen: &mut Vec<Vec<char>>, name: &str, ln: usize, line: &[char]) -> (r:
    Result<i32, SemlError>)
    ensures
        match (r, int_arg_value(views(old(seen)@), name@, ln, line@)) {
            (Ok(a), Ok(b)) => a == b.0 && views(final(seen)@) == b.1,
            (Err(e), Err(f)) => e@ == f,
            _ => false,
        },
{
    let nm = chars_of(name);
    if contains_name(seen, nm.as_slice()) {
        return Err(err(ln, ErrKind::DupParam, nm.as_slice()));
    }
    let value = arg_value_exec(line);
    match parse_natural_chars(value.as_slice()) {
        Some(v) if v > 0 => {
            proof {
                lemma_views_push(seen@, nm);
            }
            seen.push(nm);
            Ok(v)
        },
        _ => Err(err_d(ln, ErrKind::ValuePositiveInt, value.as_slice(), nm.as_slice())),
    }
}

/// A boolean header: `true` sets it, `false` leaves it unset; case-insensitive.
pub open spec fn bool_arg_value(
    seen: Seq<Seq<char>>,
    name: Seq<char>,
    ln: usize,
    line: Seq<char>,
) -> Result<(Option<bool>, Seq<Seq<char>>), SemlErrorV> {
    if seen.contains(name) {
        Err(mk_err(ln, ErrKind::DupParam, name))
    } else {
        let value = lowercase_of(arg_value(line));
        if value == "true"@ {
            Ok((Some(true), seen.push(name)))
        } else if value == "false"@ {
            Ok((None, seen))
        } else {
            Err(mk_err_d(ln, ErrKind::ValueBool, value, name))
        }
    }
}

pub fn parse_bool_arg(seen: &mut Vec<Vec<char>>, name: &str, ln: usize, line: &[char]) -> (r:
    Result<Option<bool>, SemlError>)
    ensures
        match (r, bool_arg_value(views(old(seen)@), name@, ln, line@)) {
            (Ok(a), Ok(b)) => a == b.0 && views(final(seen)@) == b.1,
            (Err(e), Err(f)) => e@ == f,
            _ => false,
        },
{
    let nm = chars_of(name);
    if contains_name(seen, nm.as_slice()) {
        return Err(err(ln, ErrKind::DupParam, nm.as_slice()));
    }
    let raw = arg_value_exec(line);
    let value = to_lower(raw.as_slice());
    if eq_str(value.as_slice(), "true") {
        proof {
            lemma_views_push(seen@, nm);
        }
        seen.push(nm);
        Ok(Some(true))
    } else if eq_str(value.as_slice(), "false") {
        Ok(None)
    } else {
        Err(err_d(ln, ErrKind::ValueBool, value.as_slice(), nm.as_slice()))
    }
}

/// The English abbreviations, as the candidates of a spelling suggestion.
pub open spec fn en_key_seq() -> Seq<&'static str> {
    Seq::new(en_abbr_spec().len(), |i: int| en_abbr_spec()[i].0)
}

/// `i` is the suggestion for `q`: the first candidate of least edit distance
/// among those not completely different from `q`.
pub open spec fn is_closest(q: Seq<char>, keys: Seq<&'static str>, i: int) -> bool {
    &&& 0 <= i < keys.len()
    &&& suggestible(q, keys[i]@)
    &&& forall|j: int|
        0 <= j < keys.len() && suggestible(q, (#[trigger] keys[j])@) ==> edit_distance(
            q,
            keys[i]@,
        ) <= edit_distance(q, keys[j]@)
    &&& forall|j: int|
        0 <= j < i && suggestible(q, (#[trigger] keys[j])@) ==> edit_distance(q, keys[i]@)
            < edit_distance(q, keys[j]@)
}

/// The suggested spelling for an unknown English abbreviation (empty when none).
pub open spec fn suggestion(q: Seq<char>) -> Seq<char> {
    let keys = en_key_seq();
    if exists|i: int| is_closest(q, keys, i) {
        keys[choose|i: int| is_closest(q, keys, i)]@
    } else {
        Seq::empty()
    }
}

pub proof fn lemma_closest_unique(q: Seq<char>, keys: Seq<&'static str>, i: int, j: int)
    requires
        is_closest(q, keys, i),
        is_closest(q, keys, j),
    ensures
        i == j,
{
    if i < j {
        assert(edit_distance(q, keys[j]@) < edit_distance(q, keys[i]@));
    } else if j < i {
        assert(edit_distance(q, keys[i]@) < edit_distance(q, keys[j]@));
    }
}

fn suggest(q: &[char]) -> (r: Vec<char>)
    ensures
        r@ == suggestion(q@),
{
    let keys = en_keys();
    assert(keys@ =~= en_key_seq());
    let qs = crate::text::string_of(q);
    match find_closest_string(qs.as_str(), keys.as_slice()) {
        Some(c) => {
            proof {
                let i = choose|i: int|
                    0 <= i < keys@.len() && c == keys@[i] && suggestible(q@, keys@[i]@) && (
                    forall|j: int|
                        0 <= j < keys@.len() && suggestible(q@, (#[trigger] keys@[j])@)
                            ==> edit_distance(q@, keys@[i]@) <= edit_distance(q@, keys@[j]@))
                        && (forall|j: int|
                        0 <= j < i && suggestible(q@, (#[trigger] keys@[j])@) ==> edit_distance(
                            q@,
                            keys@[i]@,
                        ) < edit_distance(q@, keys@[j]@));
                assert(is_closest(q@, en_key_seq(), i));
                let k = choose|k: int| is_closest(q@, en_key_seq(), k);
                lemma_closest_unique(q@, en_key_seq(), i, k);
            }
            chars_of(c)
        },
        None => {
            assert(!exists|i: int| is_closest(q@, en_key_seq(), i)) by {
                if exists|i: int| is_closest(q@, en_key_seq(), i) {
                    let i = choose|i: int| is_closest(q@, en_key_seq(), i);
                    assert(!suggestible(q@, keys@[i]@));
                }
            }
            Vec::new()
        },
    }
}

/// Whether a type list is written in Chinese (holds a character that is
/// neither an ASCII letter nor white space).
pub open spec fn is_chinese(s: Seq<char>) -> bool {
    exists|i: int| 0 <= i < s.len() && !(is_ascii_alpha(s[i]) || is_ws(s[i]))
}

/// The abbreviations of a type list: single characters in Chinese, space-separated words otherwise.
pub open spec fn zombie_tokens(abbrs: Seq<char>) -> Seq<Seq<char>> {
    if is_chinese(abbrs) {
        Seq::new(abbrs.len(), |i: int| one(abbrs[i]))
    } else {
        split(abbrs, ' ')
    }
}

/// Type ids of `tokens[i..]`, appended to `acc`, with the checks of a type list.
pub open spec fn zombie_types_from(
    tokens: Seq<Seq<char>>,
    i: int,
    acc: Seq<i32>,
    chinese: bool,
    scene: Seq<char>,
    prev: Seq<i32>,
    check_acceptable: bool,
    ln: usize,
) -> Result<Seq<i32>, SemlErrorV>
    decreases tokens.len() - i,
{
    if i >= tokens.len() || i < 0 {
        Ok(acc)
    } else {
        let abbr = tokens[i];
        let found = if chinese {
            cn_lookup_spec(abbr)
        } else {
            en_lookup_spec(lowercase_of(abbr))
        };
        match found {
            None => if chinese {
                Err(mk_err(ln, ErrKind::UnknownZombieCn, abbr))
            } else {
                Err(mk_err_d(ln, ErrKind::UnknownZombieEn, abbr, suggestion(lowercase_of(abbr))))
            },
            Some(z) => if check_acceptable && !acceptable_spec().contains(z) {
                Err(mk_err(ln, ErrKind::CannotSpecifyZombie, abbr))
            } else if acc.contains(z) || prev.contains(z) {
                Err(mk_err(ln, ErrKind::DupZombie, abbr))
            } else if banned_spec(scene).contains(z) {
                Err(mk_err_d(ln, ErrKind::SceneCannotZombie, abbr, scene))
            } else {
                zombie_types_from(
                    tokens,
                    i + 1,
                    acc.push(z),
                    chinese,
                    scene,
                    prev,
                    check_acceptable,
                    ln,
                )
            },
        }
    }
}

/// A zombie type list header (`types:`, `require:`, `ban:`).
pub open spec fn zombie_arg_value(
    seen: Seq<Seq<char>>,
    name: Seq<char>,
    scene: Seq<char>,
    ln: usize,
    line: Seq<char>,
    prev: Seq<i32>,
    check_acceptable: bool,
) -> Result<(Seq<i32>, Seq<Seq<char>>), SemlErrorV> {
    if seen.contains(name) {
        Err(mk_err(ln, ErrKind::DupParam, name))
    } else {
        let abbrs = arg_value(line);
        match zombie_types_from(
            zombie_tokens(abbrs),
            0,
            Seq::empty(),
            is_chinese(abbrs),
            scene,
            prev,
            check_acceptable,
            ln,
        ) {
            Ok(types) => Ok((types, seen.push(name))),
            Err(e) => Err(e),
        }
    }
}

fn is_chinese_exec(s: &[char]) -> (r: bool)
    ensures
        r == is_chinese(s@),
{
    let mut k: usize = 0;
    while k < s.len()
        invariant
            k <= s@.len(),
            forall|j: int| 0 <= j < k ==> (is_ascii_alpha(s@[j]) || is_ws(s@[j])),
        decreases s@.len() - k,
    {
        let u = s[k] as u32;
        let alpha = (65 <= u && u <= 90) || (97 <= u && u <= 122);
        if !(alpha || is_whitespace(s[k])) {
            return true;
        }
        k = k + 1;
    }
    false
}

pub fn parse_zombie_type_arg(
    seen: &mut Vec<Vec<char>>,
    name: &str,
    scene: &[char],
    ln: usize,
    line: &[char],
    prev: &Vec<i32>,
    check_acceptable: bool,
) -> (r: Result<Vec<i32>, SemlError>)
    ensures
        match (r, zombie_arg_value(
            views(old(seen)@),
            name@,
            scene@,
            ln,
            line@,
            prev@,
            check_acceptable,
        )) {
            (Ok(a), Ok(b)) => a@ == b.0 && views(final(seen)@) == b.1,
            (Err(e), Err(f)) => e@ == f,
            _ => false,
        },
{
    let nm = chars_of(name);
    if contains_name(seen, nm.as_slice()) {
        return Err(err(ln, ErrKind::DupParam, nm.as_slice()));
    }
    let abbrs = arg_value_exec(line);
    let chinese = is_chinese_exec(abbrs.as_slice());
    let tokens: Vec<Vec<char>> = if chinese {
        let mut t: Vec<Vec<char>> = Vec::new();
        let mut k: usize = 0;
        while k < abbrs.len()
            invariant
                k <= abbrs@.len(),
                views(t@) == Seq::new(k as nat, |i: int| one(abbrs@[i])),
            decreases abbrs@.len() - k,
        {
            let o = one_exec(abbrs[k]);
            proof {
                lemma_views_push(t@, o);
            }
            t.push(o);
            k = k + 1;
            assert(views(t@) =~= Seq::new(k as nat, |i: int| one(abbrs@[i])));
        }
        t
    } else {
        split_chars(abbrs.as_slice(), ' ')
    };
    assert(views(tokens@) == zombie_tokens(abbrs@));
    let acc_list = acceptable();
    let banned = banned_chars(scene);
    let mut types: Vec<i32> = Vec::new();
    let mut i: usize = 0;
    while i < tokens.len()
        invariant
            i <= tokens@.len(),
            nm@ == name@,
            seen@ == old(seen)@,
            !views(seen@).contains(nm@),
            abbrs@ == arg_value(line@),
            views(tokens@) == zombie_tokens(abbrs@),
            chinese == is_chinese(abbrs@),
            acc_list@ == acceptable_spec(),
            banned@ == banned_spec(scene@),
            zombie_types_from(
                zombie_tokens(abbrs@),
                0,
                Seq::empty(),
                chinese,
                scene@,
                prev@,
                check_acceptable,
                ln,
            ) == zombie_types_from(
                zombie_tokens(abbrs@),
                i as int,
                types@,
                chinese,
                scene@,
                prev@,
                check_acceptable,
                ln,
            ),
        decreases tokens@.len() - i,
    {
        let abbr = &tokens[i];
        assert(abbr@ == zombie_tokens(abbrs@)[i as int]);
        let lower = to_lower(abbr.as_slice());
        let found = if chinese {
            cn_lookup_chars(abbr.as_slice())
        } else {
            en_lookup_chars(lower.as_slice())
        };
        match found {
            None => {
                if chinese {
                    return Err(err(ln, ErrKind::UnknownZombieCn, abbr.as_slice()));
                } else {
                    let sug = suggest(lower.as_slice());
                    return Err(
                        err_d(ln, ErrKind::UnknownZombieEn, abbr.as_slice(), sug.as_slice()),
                    );
                }
            },
            Some(z) => {
                if check_acceptable && !crate::seml::parser::fields::contains_i32(&acc_list, z) {
                    return Err(err(ln, ErrKind::CannotSpecifyZombie, abbr.as_slice()));
                }
                if crate::seml::parser::fields::contains_i32(&types, z)
                    || crate::seml::parser::fields::contains_i32(prev, z) {
                    return Err(err(ln, ErrKind::DupZombie, abbr.as_slice()));
                }
                if crate::seml::parser::fields::contains_i32(&banned, z) {
                    return Err(err_d(ln, ErrKind::SceneCannotZombie, abbr.as_slice(), scene));
                }
                types.push(z);
            },
        }
        i = i + 1;
    }
    proof {
        lemma_views_push(seen@, nm);
    }
    seen.push(nm);
    Ok(types)
}

/// Whether two protected positions in one row share a column (a cob covers
/// its column and the one before).
pub open spec fn col_overlap(pk: ProtectKind, pc: i32, nk: ProtectKind, nc: i32) -> bool {
    ||| pc == nc
    ||| (pk == ProtectKind::Cob && pc - 1 == nc)
    ||| (nk == ProtectKind::Cob && nc - 1 == pc)
}

/// Protected positions of `tokens[i..]` appended to `acc`.
pub open spec fn protect_from(
    tokens: Seq<Seq<char>>,
    i: int,
    acc: Seq<ProtectPos>,
    max: i32,
    ln: usize,
    line: Seq<char>,
) -> Result<Seq<ProtectPos>, SemlErrorV>
    decreases tokens.len() - i,
{
    if i >= tokens.len() || i < 0 {
        Ok(acc)
    } else {
        let tok = tokens[i];
        let is_normal = ends_with(tok, seq!['\'']);
        let chopped = chopped_suffix(tok, seq!['\'']);
        if chopped.len() < 2 {
            Err(mk_err(ln, ErrKind::NeedProtectRowCol, line))
        } else {
            match natural_value(one(chopped[0])) {
                Some(row) if 1 <= row <= max => {
                    let min_col: i32 = if is_normal {
                        1
                    } else {
                        2
                    };
                    match natural_value(one(chopped[1])) {
                        Some(col) if min_col <= col <= 9 => {
                            let kind = if is_normal {
                                ProtectKind::Normal
                            } else {
                                ProtectKind::Cob
                            };
                            if exists|k: int|
                                0 <= k < acc.len() && acc[k].row == row && col_overlap(
                                    acc[k].kind,
                                    acc[k].col,
                                    kind,
                                    col,
                                ) {
                                Err(mk_err(ln, ErrKind::ProtectOverlap, tok))
                            } else {
                                protect_from(
                                    tokens,
                                    i + 1,
                                    acc.push(ProtectPos { kind, row, col }),
                                    max,
                                    ln,
                                    line,
                                )
                            }
                        },
                        _ => Err(
                            mk_err(
                                ln,
                                ErrKind::ColRange { normal: is_normal, min: min_col },
                                one(chopped[1]),
                            ),
                        ),
                    }
                },
                _ => Err(mk_err(ln, ErrKind::ProtectRowRange { max }, one(chopped[0]))),
            }
        }
    }
}

/// The `protect:` header.
pub open spec fn protect_value(already: bool, max: i32, ln: usize, line: Seq<char>) -> Result<
    Seq<ProtectPos>,
    SemlErrorV,
> {
    if already {
        Err(mk_err(ln, ErrKind::DupParam, "protect"@))
    } else {
        let value = arg_value(line);
        if value.len() == 0 {
            Err(mk_err(ln, ErrKind::ProtectValueEmpty, line))
        } else {
            protect_from(split(value, ' '), 0, Seq::empty(), max, ln, line)
        }
    }
}

pub fn parse_protect(already: bool, max: i32, ln: usize, line: &[char]) -> (r: Result<
    Vec<ProtectPos>,
    SemlError,
>)
    ensures
        match (r, protect_value(already, max, ln, line@)) {
            (Ok(a), Ok(b)) => a@ == b,
            (Err(e), Err(f)) => e@ == f,
            _ => false,
        },
{
    if already {
        let p = chars_of("protect");
        return Err(err(ln, ErrKind::DupParam, p.as_slice()));
    }
    let value = arg_value_exec(line);
    if value.len() == 0 {
        return Err(err(ln, ErrKind::ProtectValueEmpty, line));
    }
    let tokens = split_chars(value.as_slice(), ' ');
    let q: [char; 1] = ['\''];
    assert(q@ =~= seq!['\'']);
    let mut acc: Vec<ProtectPos> = Vec::new();
    let mut i: usize = 0;
    while i < tokens.len()
        invariant
            i <= tokens@.len(),
            !already,
            value@ == arg_value(line@),
            value@.len() > 0,
            q@ == seq!['\''],
            views(tokens@) == split(value@, ' '),
            protect_from(split(value@, ' '), 0, Seq::empty(), max, ln, line@) == protect_from(
                split(value@, ' '),
                i as int,
                acc@,
                max,
                ln,
                line@,
            ),
        decreases tokens@.len() - i,
    {
        let tok = &tokens[i];
        assert(tok@ == split(value@, ' ')[i as int]);
        let is_normal = ends_with_chars(tok.as_slice(), &q);
        let chopped = chop_suffix_chars(tok.as_slice(), &q);
        if chopped.len() < 2 {
            return Err(err(ln, ErrKind::NeedProtectRowCol, line));
        }
        let r0 = one_exec(chopped[0]);
        let row = match parse_natural_chars(r0.as_slice()) {
            Some(row) if 1 <= row && row <= max => row,
            _ => {
                return Err(err(ln, ErrKind::ProtectRowRange { max }, r0.as_slice()));
            },
        };
        let min_col: i32 = if is_normal {
            1
        } else {
            2
        };
        let c0 = one_exec(chopped[1]);
        let col = match parse_natural_chars(c0.as_slice()) {
            Some(col) if min_col <= col && col <= 9 => col,
            _ => {
                return Err(
                    err(
                        ln,
                        ErrKind::ColRange { normal: is_normal, min: min_col },
                        c0.as_slice(),
                    ),
                );
            },
        };
        let kind = if is_normal {
            ProtectKind::Normal
        } else {
            ProtectKind::Cob
        };
        let mut k: usize = 0;
        while k < acc.len()
            invariant
                k <= acc@.len(),
                i < tokens@.len(),
                views(tokens@) == split(value@, ' '),
                !already,
                value@ == arg_value(line@),
                value@.len() > 0,
                tok@ == split(value@, ' ')[i as int],
                kind == (if ends_with(tok@, seq!['\'']) {
                    ProtectKind::Normal
                } else {
                    ProtectKind::Cob
                }),
                chopped@ == chopped_suffix(tok@, seq!['\'']),
                chopped@.len() >= 2,
                natural_value(one(chopped@[0])) == Some(row),
                1 <= row <= max,
                natural_value(one(chopped@[1])) == Some(col),
                (if ends_with(tok@, seq!['\'']) { 1i32 } else { 2i32 }) <= col <= 9,
                protect_from(split(value@, ' '), 0, Seq::empty(), max, ln, line@) == protect_from(
                    split(value@, ' '),
                    i as int,
                    acc@,
                    max,
                    ln,
                    line@,
                ),
                forall|j: int|
                    0 <= j < k ==> !(acc@[j].row == row && col_overlap(
                        acc@[j].kind,
                        acc@[j].col,
                        kind,
                        col,
                    )),
            decreases acc@.len() - k,
        {
            let p = acc[k];
            let ov = p.col == col || (p.kind == ProtectKind::Cob && p.col as i64 - 1 == col as i64)
                || (kind == ProtectKind::Cob && col as i64 - 1 == p.col as i64);
            if p.row == row && ov {
                assert(acc@[k as int].row == row && col_overlap(
                    acc@[k as int].kind,
                    acc@[k as int].col,
                    kind,
                    col,
                ));
                assert(exists|kk: int|
                    0 <= kk < acc@.len() && acc@[kk].row == row && col_overlap(
                        acc@[kk].kind,
                        acc@[kk].col,
                        kind,
                        col,
                    ));
                assert(protect_from(split(value@, ' '), i as int, acc@, max, ln, line@) == Err::<
                    Seq<ProtectPos>,
                    SemlErrorV,
                >(mk_err(ln, ErrKind::ProtectOverlap, tok@)));
                return Err(err(ln, ErrKind::ProtectOverlap, tok.as_slice()));
            }
            k = k + 1;
        }
        acc.push(ProtectPos { kind, row, col });
        i = i + 1;
    }
    Ok(acc)
}

} // verus!
