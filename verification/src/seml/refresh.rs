//! The opening rows of the refresh CSV: the test environment, the required
//! and banned zombie types, and each wave's action descriptions stacked in
//! columns three cells apart.
use vstd::prelude::*;
use crate::seml::explode::{cell, header_views, most_descriptions, most_descriptions_exec};
use crate::seml::names::{types_text, zombie_types_to_names};
use crate::seml::zombie::{en_name_spec, name_i18n, name_spec, Lang, YETI};
use crate::text::{push_str, string_of};

verus! {

/// How the dance cheat is described: off, or on with fast or slow dancing.
pub open spec fn dance_text(dance: bool, activate: bool) -> Seq<char> {
    if !dance {
        "无dance"@
    } else if activate {
        "dance快"@
    } else {
        "dance慢"@
    }
}

/// The environment line: scene, wave kind, activation, dance cheat and spawn mode.
pub open spec fn env_line(scene: Seq<char>, huge: bool, activate: bool, dance: bool, natural: bool) -> Seq<
    char,
> {
    "测试环境: "@ + scene + " "@ + (if huge {
        "旗帜波"@
    } else {
        "普通波"@
    }) + " "@ + (if activate {
        "激活"@
    } else {
        "分离"@
    }) + " "@ + dance_text(dance, activate) + " "@ + (if natural {
        "自然出怪"@
    } else {
        "均匀出怪"@
    }) + "\n"@
}

/// Description `hi` of each wave, each in the first of three cells.
pub open spec fn stacked_cells(hs: Seq<Seq<Seq<char>>>, hi: int, n: int) -> Seq<char>
    decreases n,
{
    if n <= 0 {
        Seq::empty()
    } else {
        stacked_cells(hs, hi, n - 1) + ","@ + cell(hs[n - 1], hi) + ",,"@
    }
}

pub open spec fn stacked_rows(hs: Seq<Seq<Seq<char>>>, k: int) -> Seq<char>
    decreases k,
{
    if k <= 0 {
        Seq::empty()
    } else {
        stacked_rows(hs, k - 1) + stacked_cells(hs, k - 1, hs.len() as int) + "\n"@
    }
}

pub open spec fn refresh_preamble(
    scene: Seq<char>,
    huge: bool,
    activate: bool,
    dance: bool,
    natural: bool,
    require: Seq<i32>,
    ban: Seq<i32>,
    hs: Seq<Seq<Seq<char>>>,
) -> Seq<char> {
    env_line(scene, huge, activate, dance, natural) + "必出类型: "@ + types_text(require, ""@) + "\n"@
        + "禁出类型: "@ + types_text(ban, ""@) + "\n"@ + stacked_rows(
        hs,
        most_descriptions(hs) as int,
    )
}

fn push_stacked_row(out: &mut Vec<char>, headers: &Vec<Vec<String>>, hi: usize)
    ensures
        final(out)@ == old(out)@ + stacked_cells(header_views(headers@), hi as int, headers@.len() as int)
            + "\n"@,
{
    let ghost hs = header_views(headers@);
    let mut w: usize = 0;
    while w < headers.len()
        invariant
            w <= headers@.len(),
            hs == header_views(headers@),
            out@ == old(out)@ + stacked_cells(hs, hi as int, w as int),
        decreases headers@.len() - w,
    {
        assert(hs[w as int] == crate::seml::reuse::string_views(headers@[w as int]@));
        push_str(out, ",");
        if hi < headers[w].len() {
            assert(cell(hs[w as int], hi as int) == headers@[w as int]@[hi as int]@);
            push_str(out, headers[w][hi].as_str());
        } else {
            assert(cell(hs[w as int], hi as int) =~= Seq::<char>::empty());
        }
        push_str(out, ",,");
        w = w + 1;
        assert(out@ =~= old(out)@ + stacked_cells(hs, hi as int, w as int));
    }
    push_str(out, "\n");
}

/// The refresh CSV up to its first rate row: the environment, the required
/// and banned types (`无` for none), and the stacked action descriptions.
pub fn refresh_csv_preamble(
    scene: &str,
    huge: bool,
    activate: bool,
    dance: bool,
    natural: bool,
    require: &[i32],
    ban: &[i32],
    headers: &Vec<Vec<String>>,
) -> (r: String)
    ensures
        r@ == refresh_preamble(
            scene@,
            huge,
            activate,
            dance,
            natural,
            require@,
            ban@,
            header_views(headers@),
        ),
{
    let ghost hs = header_views(headers@);
    let mut out: Vec<char> = Vec::new();
    push_str(&mut out, "测试环境: ");
    push_str(&mut out, scene);
    push_str(&mut out, " ");
    if huge {
        push_str(&mut out, "旗帜波");
    } else {
        push_str(&mut out, "普通波");
    }
    push_str(&mut out, " ");
    if activate {
        push_str(&mut out, "激活");
    } else {
        push_str(&mut out, "分离");
    }
    push_str(&mut out, " ");
    if !dance {
        push_str(&mut out, "无dance");
    } else if activate {
        push_str(&mut out, "dance快");
    } else {
        push_str(&mut out, "dance慢");
    }
    push_str(&mut out, " ");
    if natural {
        push_str(&mut out, "自然出怪");
    } else {
        push_str(&mut out, "均匀出怪");
    }
    push_str(&mut out, "\n");
    assert(out@ =~= env_line(scene@, huge, activate, dance, natural));
    push_str(&mut out, "必出类型: ");
    let req = zombie_types_to_names(require, "");
    push_str(&mut out, req.as_str());
    push_str(&mut out, "\n");
    push_str(&mut out, "禁出类型: ");
    let bn = zombie_types_to_names(ban, "");
    push_str(&mut out, bn.as_str());
    push_str(&mut out, "\n");
    let ghost head = out@;
    let rows = most_descriptions_exec(headers);
    let mut hi: usize = 0;
    while hi < rows
        invariant
            hi <= rows,
            hs == header_views(headers@),
            rows == most_descriptions(hs),
            out@ == head + stacked_rows(hs, hi as int),
        decreases rows - hi,
    {
        push_stacked_row(&mut out, headers, hi);
        hi = hi + 1;
        assert(out@ =~= head + stacked_rows(hs, hi as int));
    }
    assert(out@ =~= refresh_preamble(scene@, huge, activate, dance, natural, require@, ban@, hs));
    string_of(out.as_slice())
}


/// A type's display name in the given language.
pub open spec fn display_name(id: i32, lang: Lang) -> Seq<char> {
    match lang {
        Lang::Zh => name_spec(id),
        Lang::En => en_name_spec(id),
    }
}

/// The label of a refresh row: the display names of its types, the yeti
/// left out, run together.
pub open spec fn row_label(types: Seq<i32>, lang: Lang) -> Seq<char>
    decreases types.len(),
{
    if types.len() == 0 {
        Seq::empty()
    } else {
        row_label(types.drop_last(), lang) + if types.last() == YETI {
            Seq::empty()
        } else {
            display_name(types.last(), lang)
        }
    }
}

/// The label of a refresh row in the table; empty where only the yeti or
/// nothing is there.
pub fn refresh_row_label(types: &[i32], lang: Lang) -> (r: String)
    ensures
        r@ == row_label(types@, lang),
{
    let mut out: Vec<char> = Vec::new();
    let mut k: usize = 0;
    while k < types.len()
        invariant
            k <= types@.len(),
            out@ == row_label(types@.take(k as int), lang),
        decreases types@.len() - k,
    {
        assert(types@.take(k + 1).drop_last() =~= types@.take(k as int));
        let id = types[k];
        if id != YETI {
            let n = name_i18n(id, lang);
            push_str(&mut out, n.as_str());
        }
        k = k + 1;
    }
    assert(types@.take(k as int) =~= types@);
    string_of(out.as_slice())
}


/// The refresh preamble stacks one row for each description of the wave that
/// has the most: rows `0..m` for the largest count `m`.
pub proof fn lemma_refresh_stacked_rows(
    scene: Seq<char>,
    huge: bool,
    activate: bool,
    dance: bool,
    natural: bool,
    require: Seq<i32>,
    ban: Seq<i32>,
    hs: Seq<Seq<Seq<char>>>,
    m: int,
)
    requires
        forall|i: int| 0 <= i < hs.len() ==> (#[trigger] hs[i]).len() <= m,
        hs.len() > 0 ==> exists|i: int| 0 <= i < hs.len() && (#[trigger] hs[i]).len() == m,
        hs.len() == 0 ==> m == 0,
    ensures
        refresh_preamble(scene, huge, activate, dance, natural, require, ban, hs) == env_line(
            scene,
            huge,
            activate,
            dance,
            natural,
        ) + "必出类型: "@ + types_text(require, ""@) + "\n"@ + "禁出类型: "@ + types_text(ban, ""@)
            + "\n"@ + stacked_rows(hs, m),
{
    crate::seml::explode::lemma_largest_is_most(hs, m);
}

} // verus!
