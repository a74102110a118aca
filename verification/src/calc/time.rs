//! The timing calculator: which rows an explosion reaches.
use vstd::prelude::*;
use crate::calc::{ExplodeKind, SceneArg};

verus! {

pub open spec fn max_row_of(scene: SceneArg) -> i32 {
    match scene {
        SceneArg::Pe => 6,
        _ => 5,
    }
}

/// The number of rows of a scene.
pub fn max_row(scene: SceneArg) -> (r: i32)
    ensures
        r == max_row_of(scene),
{
    match scene {
        SceneArg::Pe => 6,
        SceneArg::De | SceneArg::Re => 5,
    }
}

pub open spec fn scene_key_text(s: SceneArg) -> Seq<char> {
    match s {
        SceneArg::De => "de"@,
        SceneArg::Pe => "pe"@,
        SceneArg::Re => "re"@,
    }
}

/// The scene's name in the result line.
pub fn scene_key(s: SceneArg) -> (r: &'static str)
    ensures
        r@ == scene_key_text(s),
{
    match s {
        SceneArg::De => "de",
        SceneArg::Pe => "pe",
        SceneArg::Re => "re",
    }
}

/// The rows an explosion in `row` reaches: a cob one row either side, a doom
/// three, within the scene.
pub open spec fn hit_rows_of(scene: SceneArg, kind: ExplodeKind, row: int) -> Seq<i32> {
    let span = match kind {
        ExplodeKind::Cob => 1int,
        ExplodeKind::Doom => 3int,
    };
    let lo = if row - span > 1 {
        row - span
    } else {
        1
    };
    let hi = if row + span < max_row_of(scene) {
        row + span
    } else {
        max_row_of(scene) as int
    };
    Seq::new(if hi >= lo {
        (hi - lo + 1) as nat
    } else {
        0
    }, |i: int| (lo + i) as i32)
}

/// The rows an explosion in `row` reaches; `None` where `row` is not a row of
/// the scene.
pub fn hit_rows(scene: SceneArg, kind: ExplodeKind, row: i32) -> (r: Option<Vec<i32>>)
    ensures
        (row < 1 || row > max_row_of(scene)) ==> r is None,
        (1 <= row <= max_row_of(scene)) ==> (r matches Some(v) && v@ == hit_rows_of(
            scene,
            kind,
            row as int,
        )),
{
    let maxrow = max_row(scene);
    if row < 1 || row > maxrow {
        return None;
    }
    let span: i32 = match kind {
        ExplodeKind::Cob => 1,
        ExplodeKind::Doom => 3,
    };
    let lo = if row - span > 1 {
        row - span
    } else {
        1
    };
    let hi = if row + span < maxrow {
        row + span
    } else {
        maxrow
    };
    let mut v: Vec<i32> = Vec::new();
    let mut k = lo;
    while k <= hi
        invariant
            lo <= k <= hi + 1,
            1 <= lo,
            hi <= 6,
            v@ == Seq::new((k - lo) as nat, |i: int| (lo + i) as i32),
        decreases hi + 1 - k,
    {
        v.push(k);
        k = k + 1;
        assert(v@ =~= Seq::new((k - lo) as nat, |i: int| (lo + i) as i32));
    }
    assert(v@ =~= hit_rows_of(scene, kind, row as int));
    Some(v)
}


/// An explosion in row `row` reaches exactly the rows of the scene within
/// one row of it for a cob and within three rows for a doom, listed from the
/// top down, each once.
pub proof fn lemma_hit_rows_reach(scene: SceneArg, kind: ExplodeKind, row: int)
    requires
        1 <= row <= max_row_of(scene),
    ensures
        ({
            let rows = hit_rows_of(scene, kind, row);
            let reach: int = match kind {
                ExplodeKind::Cob => 1,
                ExplodeKind::Doom => 3,
            };
            &&& forall|k: int|
                #![trigger rows.contains(k as i32)]
                1 <= k <= max_row_of(scene) && row - reach <= k <= row + reach ==> rows.contains(
                    k as i32,
                )
            &&& forall|i: int|
                0 <= i < rows.len() ==> 1 <= #[trigger] rows[i] <= max_row_of(scene) && row - reach
                    <= rows[i] <= row + reach
            &&& forall|i: int, j: int| 0 <= i < j < rows.len() ==> rows[i] < rows[j]
        }),
{
    let rows = hit_rows_of(scene, kind, row);
    let span: int = match kind {
        ExplodeKind::Cob => 1,
        ExplodeKind::Doom => 3,
    };
    let lo = if row - span > 1 {
        row - span
    } else {
        1
    };
    assert forall|k: int|
        #![trigger rows.contains(k as i32)]
        1 <= k <= max_row_of(scene) && row - span <= k <= row + span implies rows.contains(
        k as i32,
    ) by {
        assert(rows[k - lo] == k as i32);
    }
}

} // verus!
