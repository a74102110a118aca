//! Printing of warnings, errors and the cob-distance results: each writes one
//! line into the output sink.
use vstd::prelude::*;
use crate::output::{emit_diag_line, emit_res_line, Output};
use crate::text::{int_text, push_int_text, push_str, string_of};

verus! {


/// `warning: <msg>` on the diagnostic stream.
pub fn print_warning(out: &mut Output, msg: &str)
    ensures
        final(out)@.diag == old(out)@.diag + "warning: "@ + msg@ + seq!['\n'],
        final(out)@.res == old(out)@.res,
{
    let mut t: Vec<char> = Vec::new();
    push_str(&mut t, "warning: ");
    push_str(&mut t, msg);
    emit_diag_line(out, t.as_slice());
}

/// `error: <error>` on the diagnostic stream.
pub fn print_error(out: &mut Output, error: &str)
    ensures
        final(out)@.diag == old(out)@.diag + "error: "@ + error@ + seq!['\n'],
        final(out)@.res == old(out)@.res,
{
    let mut t: Vec<char> = Vec::new();
    push_str(&mut t, "error: ");
    push_str(&mut t, error);
    emit_diag_line(out, t.as_slice());
}

/// `error: <error> (got: <input>)` on the diagnostic stream.
pub fn print_error_with_input(out: &mut Output, error: &str, input: &str)
    ensures
        final(out)@.diag == old(out)@.diag + "error: "@ + error@ + " (got: "@ + input@ + ")"@
            + seq!['\n'],
        final(out)@.res == old(out)@.res,
{
    let mut t: Vec<char> = Vec::new();
    push_str(&mut t, "error: ");
    push_str(&mut t, error);
    push_str(&mut t, " (got: ");
    push_str(&mut t, input);
    push_str(&mut t, ")");
    emit_diag_line(out, t.as_slice());
}

/// `error: too many arguments` on the diagnostic stream.
pub fn print_too_many_arguments_error(out: &mut Output)
    ensures
        final(out)@.diag == old(out)@.diag + "error: too many arguments"@ + seq!['\n'],
        final(out)@.res == old(out)@.res,
{
    let mut t: Vec<char> = Vec::new();
    push_str(&mut t, "error: too many arguments");
    emit_diag_line(out, t.as_slice());
}

/// `error: bad input format` on the diagnostic stream.
pub fn print_bad_format_error(out: &mut Output)
    ensures
        final(out)@.diag == old(out)@.diag + "error: bad input format"@ + seq!['\n'],
        final(out)@.res == old(out)@.res,
{
    let mut t: Vec<char> = Vec::new();
    push_str(&mut t, "error: bad input format");
    emit_diag_line(out, t.as_slice());
}

/// The rows, comma-separated.
pub open spec fn rows_text(rows: Seq<i32>) -> Seq<char>
    decreases rows.len(),
{
    if rows.len() == 0 {
        Seq::empty()
    } else if rows.len() == 1 {
        int_text(rows[0] as int)
    } else {
        rows_text(rows.drop_last()) + ","@ + int_text(rows.last() as int)
    }
}

pub fn format_rows(rows: &[i32]) -> (r: String)
    ensures
        r@ == rows_text(rows@),
{
    let mut t: Vec<char> = Vec::new();
    let mut i: usize = 0;
    while i < rows.len()
        invariant
            i <= rows@.len(),
            t@ == rows_text(rows@.take(i as int)),
        decreases rows@.len() - i,
    {
        if i > 0 {
            push_str(&mut t, ",");
        }
        push_int_text(&mut t, rows[i] as i128);
        i = i + 1;
        assert(rows@.take(i as int).drop_last() =~= rows@.take(i - 1));
        assert(t@ =~= rows_text(rows@.take(i as int)));
    }
    assert(rows@.take(i as int) =~= rows@);
    string_of(t.as_slice())
}

/// Which ground the cob-distance table is for.
#[derive(Clone, Copy, PartialEq, Eq, Structural, Debug)]
pub enum Scene {
    DE,
    PE,
    RE,
}

/// How far in front of a gargantuar a cob may land and still hit it, in the
/// same row, the row above and the row below.
#[derive(Clone, Copy, PartialEq, Eq, Structural, Debug)]
pub struct CobDist {
    pub hit_same: i32,
    pub hit_above: i32,
    pub hit_below: i32,
}

/// The column texts of a cob-distance line, for the landing coordinates of
/// the row above, the same row and the row below: `x / 80` as the caller
/// prints it (the `f32` quotient).
pub struct CobCols {
    pub above: String,
    pub same: String,
    pub below: String,
}

pub struct CobColsV {
    pub above: Seq<char>,
    pub same: Seq<char>,
    pub below: Seq<char>,
}

impl View for CobCols {
    type V = CobColsV;

    open spec fn view(&self) -> CobColsV {
        CobColsV { above: self.above@, same: self.same@, below: self.below@ }
    }
}

/// `<label><x>(col=<col>)`.
pub open spec fn cell(label: Seq<char>, x: int, col: Seq<char>) -> Seq<char> {
    label + int_text(x) + "(col="@ + col + ")"@
}

/// The cells of the `hit` line for gargantuars at `x`: the landing
/// coordinates that still hit them.
pub open spec fn hit_cells(scene: Scene, x: int, d: CobDist, c: CobColsV) -> Seq<char> {
    match scene {
        Scene::RE => cell(" above="@, x - d.hit_above, c.above) + cell(" same="@, x - d.hit_same, c.same)
            + cell(" below="@, x - d.hit_below, c.below),
        _ => cell(" same_below="@, x - d.hit_same, c.same) + cell(
            " three_rows="@,
            x - d.hit_above,
            c.above,
        ),
    }
}

/// The cells of the `nohit` line for gargantuars at `x`: the landing
/// coordinates one short of hitting them.
pub open spec fn nohit_cells(scene: Scene, x: int, d: CobDist, c: CobColsV) -> Seq<char> {
    match scene {
        Scene::RE => cell(" above="@, x - d.hit_above - 1, c.above) + cell(
            " same="@,
            x - d.hit_same - 1,
            c.same,
        ) + cell(" below="@, x - d.hit_below - 1, c.below),
        _ => cell(" same_below="@, x - d.hit_same - 1, c.same) + cell(
            " above="@,
            x - d.hit_above - 1,
            c.above,
        ),
    }
}

pub open spec fn hit_line(scene: Scene, x: int, d: CobDist, c: CobColsV) -> Seq<char> {
    "hit garg_x="@ + int_text(x) + hit_cells(scene, x, d, c)
}

pub open spec fn nohit_line(scene: Scene, x: int, d: CobDist, c: CobColsV) -> Seq<char> {
    "nohit garg_x="@ + int_text(x) + nohit_cells(scene, x, d, c)
}

/// The `nohit` line for gargantuars one further on carries the cells of the
/// `hit` line: on the roof the same cells; on the other grounds the same
/// coordinates and columns, the row-above cell labelled `above=` in place of
/// `three_rows=`.
pub proof fn lemma_nohit_matches_hit(scene: Scene, x: int, d: CobDist, c: CobColsV)
    ensures
        scene == Scene::RE ==> nohit_cells(scene, x + 1, d, c) == hit_cells(scene, x, d, c),
        scene != Scene::RE ==> hit_cells(scene, x, d, c) == cell(" same_below="@, x - d.hit_same, c.same)
            + cell(" three_rows="@, x - d.hit_above, c.above),
        scene != Scene::RE ==> nohit_cells(scene, x + 1, d, c) == cell(
            " same_below="@,
            x - d.hit_same,
            c.same,
        ) + cell(" above="@, x - d.hit_above, c.above),
{
    assert(x + 1 - d.hit_same - 1 == x - d.hit_same);
    assert(x + 1 - d.hit_above - 1 == x - d.hit_above);
    assert(x + 1 - d.hit_below - 1 == x - d.hit_below);
}

fn push_cell(t: &mut Vec<char>, label: &str, x: i32, col: &String)
    ensures
        final(t)@ == old(t)@ + cell(label@, x as int, col@),
{
    push_str(t, label);
    push_int_text(t, x as i128);
    push_str(t, "(col=");
    push_str(t, col.as_str());
    push_str(t, ")");
    proof {
        assert(final(t)@ =~= old(t)@ + cell(label@, x as int, col@));
    }
}

/// Writes the hit line for the gargantuars at `max_garg_x`, with the column
/// texts the caller gives for its landing coordinates.
pub fn print_hit_cob_dist(
    out: &mut Output,
    scene: &Scene,
    max_garg_x: i32,
    cob_dist: &CobDist,
    cols: &CobCols,
)
    requires
        i32::MIN <= max_garg_x - cob_dist.hit_same <= i32::MAX,
        i32::MIN <= max_garg_x - cob_dist.hit_above <= i32::MAX,
        *scene == Scene::RE ==> i32::MIN <= max_garg_x - cob_dist.hit_below <= i32::MAX,
    ensures
        final(out)@.res == old(out)@.res + hit_line(*scene, max_garg_x as int, *cob_dist, cols@)
            + seq!['\n'],
        final(out)@.diag == old(out)@.diag,
{
    let mut t: Vec<char> = Vec::new();
    push_str(&mut t, "hit garg_x=");
    push_int_text(&mut t, max_garg_x as i128);
    match scene {
        Scene::RE => {
            push_cell(&mut t, " above=", max_garg_x - cob_dist.hit_above, &cols.above);
            push_cell(&mut t, " same=", max_garg_x - cob_dist.hit_same, &cols.same);
            push_cell(&mut t, " below=", max_garg_x - cob_dist.hit_below, &cols.below);
        },
        _ => {
            push_cell(&mut t, " same_below=", max_garg_x - cob_dist.hit_same, &cols.same);
            push_cell(&mut t, " three_rows=", max_garg_x - cob_dist.hit_above, &cols.above);
        },
    }
    assert(t@ =~= hit_line(*scene, max_garg_x as int, *cob_dist, cols@));
    emit_res_line(out, t.as_slice());
}

/// Writes the no-hit line for the gargantuars at `min_garg_x`, with the
/// column texts the caller gives for its landing coordinates.
pub fn print_nohit_cob_dist(
    out: &mut Output,
    scene: &Scene,
    min_garg_x: i32,
    cob_dist: &CobDist,
    cols: &CobCols,
)
    requires
        i32::MIN <= min_garg_x - cob_dist.hit_same - 1 <= i32::MAX,
        i32::MIN <= min_garg_x - cob_dist.hit_above - 1 <= i32::MAX,
        i32::MIN <= min_garg_x - cob_dist.hit_same <= i32::MAX,
        i32::MIN <= min_garg_x - cob_dist.hit_above <= i32::MAX,
        *scene == Scene::RE ==> i32::MIN <= min_garg_x - cob_dist.hit_below - 1 <= i32::MAX,
        *scene == Scene::RE ==> i32::MIN <= min_garg_x - cob_dist.hit_below <= i32::MAX,
    ensures
        final(out)@.res == old(out)@.res + nohit_line(*scene, min_garg_x as int, *cob_dist, cols@)
            + seq!['\n'],
        final(out)@.diag == old(out)@.diag,
{
    let mut t: Vec<char> = Vec::new();
    push_str(&mut t, "nohit garg_x=");
    push_int_text(&mut t, min_garg_x as i128);
    match scene {
        Scene::RE => {
            push_cell(&mut t, " above=", min_garg_x - cob_dist.hit_above - 1, &cols.above);
            push_cell(&mut t, " same=", min_garg_x - cob_dist.hit_same - 1, &cols.same);
            push_cell(&mut t, " below=", min_garg_x - cob_dist.hit_below - 1, &cols.below);
        },
        _ => {
            push_cell(&mut t, " same_below=", min_garg_x - cob_dist.hit_same - 1, &cols.same);
            push_cell(&mut t, " above=", min_garg_x - cob_dist.hit_above - 1, &cols.above);
        },
    }
    assert(t@ =~= nohit_line(*scene, min_garg_x as int, *cob_dist, cols@));
    emit_res_line(out, t.as_slice());
}

} // verus!
