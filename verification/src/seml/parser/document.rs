//! The whole document: the scene, the header lines, and the waves with their
//! actions, read line by line into a scenario and its run parameters.
use vstd::prelude::*;
use crate::seml::error::{err, mk_err, ErrKind, SemlError, SemlErrorV};
use crate::seml::parser::actions::{
    cob_value, fixed_card_value, fodder_value, parse_cob, parse_fixed_card, parse_fodder,
    parse_set, parse_smart_card, replace_vars, replace_vars_exec, set_value, smart_card_value,
    vars_view,
};
use crate::seml::parser::fields::{
    arg_value, arg_value_exec, ascii_lower, ascii_upper, ascii_uppered, cob_kind, cob_kind_exec,
    eq_ignore_ascii_case, eq_ignore_ascii_case_exec, is_ascii_text, max_rows, max_rows_exec, to_upper, uppercase_of,
};
use crate::seml::parser::headers::{
    bool_arg_value, int_arg_value, parse_bool_arg, parse_int_arg, parse_protect, parse_zombie_type_arg,
    protect_value, zombie_arg_value,
};
use crate::seml::parser::lines::{Line, lines_view};
use crate::seml::parser::wave::{parse_wave, wave_value};
use crate::seml::plant::{CHERRY_BOMB, DOOMSHROOM, GARLIC, JALAPENO, SQUASH};
use crate::seml::types::{
    action_time, opt_vec_view, waves_view, Action, ActionV, Config, ConfigV, Params, ParamsV,
    Setting, SettingV, Wave, WaveV,
};
use crate::text::{
    copy_range, eq_str, has_char, split, split_chars, starts_with, starts_with_str, string_of,
    trim, trim_chars, views,
};

verus! {

/// What the reader has built so far.
pub struct DocState {
    pub config: Config,
    pub params: Params,
    pub vars: Vec<(Vec<char>, i64)>,
    pub seen: Vec<Vec<char>>,
}

pub struct DocStateV {
    pub config: ConfigV,
    pub params: ParamsV,
    /// `SET` variables, in order of first definition.
    pub vars: Seq<(Seq<char>, i64)>,
    /// Header names already given.
    pub seen: Seq<Seq<char>>,
}

impl View for DocState {
    type V = DocStateV;

    open spec fn view(&self) -> DocStateV {
        DocStateV {
            config: self.config@,
            params: self.params@,
            vars: vars_view(self.vars@),
            seen: views(self.seen@),
        }
    }
}

// --- scene --------------------------------------------------------------------

pub open spec fn is_scene(u: Seq<char>) -> bool {
    u == "DE"@ || u == "NE"@ || u == "PE"@ || u == "FE"@ || u == "RE"@ || u == "ME"@
}

/// The scene the emulator runs for a scene as written.
pub open spec fn mapped_scene(u: Seq<char>) -> Seq<char> {
    if u == "DE"@ || u == "NE"@ {
        "NE"@
    } else if u == "PE"@ || u == "FE"@ {
        "FE"@
    } else {
        "ME"@
    }
}

/// The value of a `scene:` line.
pub open spec fn scene_text(line: Seq<char>) -> Seq<char> {
    trim(line.subrange(6, line.len() as int))
}

/// The scene set by the `scene:` lines from `i` on; at most one may be given.
pub open spec fn scene_from(lines: Seq<(usize, Seq<char>)>, i: int, found: Option<Seq<char>>) -> Result<
    Option<Seq<char>>,
    SemlErrorV,
>
    decreases lines.len() - i,
{
    if i >= lines.len() || i < 0 {
        Ok(found)
    } else {
        let ln = lines[i].0;
        let line = lines[i].1;
        if starts_with(line, "scene:"@) {
            if found is Some {
                Err(mk_err(ln, ErrKind::DupParam, "scene"@))
            } else {
                let v = scene_text(line);
                let u = uppercase_of(v);
                if is_scene(u) {
                    scene_from(lines, i + 1, Some(u))
                } else {
                    Err(mk_err(ln, ErrKind::UnknownScene, v))
                }
            }
        } else {
            scene_from(lines, i + 1, found)
        }
    }
}

/// The setting the `scene:` line gives (`FE` where there is none).
pub open spec fn setting_value(lines: Seq<(usize, Seq<char>)>) -> Result<SettingV, SemlErrorV> {
    match scene_from(lines, 0, None) {
        Err(e) => Err(e),
        Ok(None) => Ok(SettingV { scene: "FE"@, original_scene: Some("FE"@), protect: None }),
        Ok(Some(u)) => Ok(SettingV { scene: mapped_scene(u), original_scene: Some(u), protect: None }),
    }
}

/// Whether some line is an `avzTime:` header whose value is `true` in any case.
pub open spec fn avz_time(lines: Seq<(usize, Seq<char>)>) -> bool {
    exists|i: int|
        0 <= i < lines.len() && #[trigger] avz_line(lines[i].1)
}

pub open spec fn avz_line(line: Seq<char>) -> bool {
    starts_with(split(line, ' ')[0], "avzTime:"@) && eq_ignore_ascii_case(arg_value(line), "true"@)
}

// --- header lines -----------------------------------------------------------------

pub open spec fn is_header(sym: Seq<char>) -> bool {
    ||| starts_with(sym, "protect:"@)
    ||| starts_with(sym, "repeat:"@)
    ||| starts_with(sym, "require:"@)
    ||| starts_with(sym, "ban:"@)
    ||| starts_with(sym, "huge:"@)
    ||| starts_with(sym, "activate:"@)
    ||| starts_with(sym, "dance:"@)
    ||| starts_with(sym, "natural:"@)
    ||| starts_with(sym, "cobDelay:"@)
    ||| starts_with(sym, "std:"@)
    ||| starts_with(sym, "hitThres:"@)
    ||| starts_with(sym, "types:"@)
    ||| starts_with(sym, "targetPos:"@)
    ||| starts_with(sym, "avzTime:"@)
    ||| starts_with(sym, "ncobs:"@)
    ||| starts_with(sym, "loop:"@)
}

pub open spec fn or_empty(o: Option<Seq<i32>>) -> Seq<i32> {
    match o {
        Some(s) => s,
        None => Seq::empty(),
    }
}

pub open spec fn or_empty_text(o: Option<Seq<char>>) -> Seq<char> {
    match o {
        Some(s) => s,
        None => Seq::empty(),
    }
}

/// A boolean header's new value: `true` sets it, `false` leaves it as it was.
pub open spec fn flag(b: Option<bool>, old: Option<bool>) -> Option<bool> {
    match b {
        Some(x) => Some(x),
        None => old,
    }
}

/// A header line (`sym` is its first token).
pub open spec fn header_step(st: DocStateV, ln: usize, line: Seq<char>, sym: Seq<char>) -> Result<
    DocStateV,
    SemlErrorV,
> {
    let p = st.params;
    let scene = or_empty_text(st.config.setting.original_scene);
    if starts_with(sym, "protect:"@) {
        match protect_value(
            st.config.setting.protect is Some,
            max_rows(st.config.setting.scene),
            ln,
            line,
        ) {
            Err(e) => Err(e),
            Ok(pr) => Ok(
                DocStateV {
                    config: ConfigV {
                        setting: SettingV { protect: Some(pr), ..st.config.setting },
                        ..st.config
                    },
                    ..st
                },
            ),
        }
    } else if starts_with(sym, "repeat:"@) {
        match int_arg_value(st.seen, "repeat"@, ln, line) {
            Err(e) => Err(e),
            Ok((v, seen)) => Ok(DocStateV { params: ParamsV { repeat: Some(v), ..p }, seen, ..st }),
        }
    } else if starts_with(sym, "require:"@) {
        match zombie_arg_value(st.seen, "require"@, scene, ln, line, or_empty(p.ban), true) {
            Err(e) => Err(e),
            Ok((v, seen)) => Ok(DocStateV { params: ParamsV { require: Some(v), ..p }, seen, ..st }),
        }
    } else if starts_with(sym, "ban:"@) {
        match zombie_arg_value(st.seen, "ban"@, scene, ln, line, or_empty(p.require), true) {
            Err(e) => Err(e),
            Ok((v, seen)) => Ok(DocStateV { params: ParamsV { ban: Some(v), ..p }, seen, ..st }),
        }
    } else if starts_with(sym, "huge:"@) {
        match bool_arg_value(st.seen, "huge"@, ln, line) {
            Err(e) => Err(e),
            Ok((b, seen)) => Ok(
                DocStateV { params: ParamsV { huge: flag(b, p.huge), ..p }, seen, ..st },
            ),
        }
    } else if starts_with(sym, "activate:"@) {
        match bool_arg_value(st.seen, "activate"@, ln, line) {
            Err(e) => Err(e),
            Ok((b, seen)) => Ok(
                DocStateV { params: ParamsV { activate: flag(b, p.activate), ..p }, seen, ..st },
            ),
        }
    } else if starts_with(sym, "dance:"@) {
        match bool_arg_value(st.seen, "dance"@, ln, line) {
            Err(e) => Err(e),
            Ok((b, seen)) => Ok(
                DocStateV { params: ParamsV { dance: flag(b, p.dance), ..p }, seen, ..st },
            ),
        }
    } else if starts_with(sym, "natural:"@) {
        match bool_arg_value(st.seen, "natural"@, ln, line) {
            Err(e) => Err(e),
            Ok((b, seen)) => Ok(
                DocStateV { params: ParamsV { natural: flag(b, p.natural), ..p }, seen, ..st },
            ),
        }
    } else if starts_with(sym, "cobDelay:"@) {
        match bool_arg_value(st.seen, "cobDelay"@, ln, line) {
            Err(e) => Err(e),
            Ok((b, seen)) => Ok(
                DocStateV { params: ParamsV { cob_delay: flag(b, p.cob_delay), ..p }, seen, ..st },
            ),
        }
    } else if starts_with(sym, "std:"@) {
        match bool_arg_value(st.seen, "std"@, ln, line) {
            Err(e) => Err(e),
            Ok((b, seen)) => Ok(
                DocStateV {
                    params: ParamsV { show_std: b is Some || p.show_std, ..p },
                    seen,
                    ..st
                },
            ),
        }
    } else if starts_with(sym, "hitThres:"@) {
        match int_arg_value(st.seen, "hitThres"@, ln, line) {
            Err(e) => Err(e),
            Ok((v, seen)) => Ok(
                DocStateV { params: ParamsV { hit_thres: Some(v), ..p }, seen, ..st },
            ),
        }
    } else if starts_with(sym, "types:"@) {
        match zombie_arg_value(st.seen, "types"@, scene, ln, line, Seq::empty(), false) {
            Err(e) => Err(e),
            Ok((v, seen)) => Ok(DocStateV { params: ParamsV { zombies: Some(v), ..p }, seen, ..st }),
        }
    } else if starts_with(sym, "targetPos:"@) {
        match int_arg_value(st.seen, "targetPos"@, ln, line) {
            Err(e) => Err(e),
            Ok((v, seen)) => Ok(
                DocStateV { params: ParamsV { target_x: Some(v), ..p }, seen, ..st },
            ),
        }
    } else if starts_with(sym, "avzTime:"@) {
        match bool_arg_value(st.seen, "avzTime"@, ln, line) {
            Err(e) => Err(e),
            Ok((_, seen)) => Ok(DocStateV { seen, ..st }),
        }
    } else if starts_with(sym, "ncobs:"@) {
        match int_arg_value(st.seen, "ncobs"@, ln, line) {
            Err(e) => Err(e),
            Ok((v, seen)) => Ok(DocStateV { params: ParamsV { ncobs: Some(v), ..p }, seen, ..st }),
        }
    } else {
        match bool_arg_value(st.seen, "loop"@, ln, line) {
            Err(e) => Err(e),
            Ok((b, seen)) => Ok(
                DocStateV { params: ParamsV { looping: flag(b, p.looping), ..p }, seen, ..st },
            ),
        }
    }
}

// --- wave and action lines ----------------------------------------------------------

/// Time of the last action of the last wave, if that wave has one.
pub open spec fn prev_time(waves: Seq<WaveV>) -> Option<i32> {
    let w = waves.last();
    if w.actions.len() > 0 {
        Some(action_time(w.actions.last()))
    } else {
        None
    }
}

/// The state with `a` appended to the last wave.
pub open spec fn push_action(st: DocStateV, a: ActionV) -> DocStateV {
    let ws = st.config.waves;
    let w = ws.last();
    DocStateV {
        config: ConfigV {
            waves: ws.update(ws.len() - 1, WaveV { actions: w.actions.push(a), ..w }),
            ..st.config
        },
        ..st
    }
}

/// An action line: it needs a wave to belong to; `r` is what the line reads as.
pub open spec fn add_action(
    st: DocStateV,
    ln: usize,
    line: Seq<char>,
    r: Result<ActionV, SemlErrorV>,
) -> Result<DocStateV, SemlErrorV> {
    if st.config.waves.len() == 0 {
        Err(mk_err(ln, ErrKind::SetWaveFirst, line))
    } else {
        match r {
            Err(e) => Err(e),
            Ok(a) => Ok(push_action(st, a)),
        }
    }
}

pub open spec fn is_fodder_symbol(sym: Seq<char>) -> bool {
    sym == "C"@ || sym == "C_POS"@ || sym == "C_NUM"@
}

/// The plant a fixed card symbol places.
pub open spec fn fixed_card_plant(sym: Seq<char>) -> Option<i32> {
    if sym == "G"@ {
        Some(GARLIC)
    } else if sym == "A"@ {
        Some(CHERRY_BOMB)
    } else if sym == "J"@ {
        Some(JALAPENO)
    } else if sym == "a"@ || sym == "W"@ {
        Some(SQUASH)
    } else if sym == "N"@ {
        Some(DOOMSHROOM)
    } else {
        None
    }
}

/// The plant a smart card symbol places.
pub open spec fn smart_card_plant(sym: Seq<char>) -> Option<i32> {
    if sym == "A_NUM"@ {
        Some(CHERRY_BOMB)
    } else if sym == "J_NUM"@ {
        Some(JALAPENO)
    } else if sym == "a_NUM"@ || sym == "W_NUM"@ {
        Some(SQUASH)
    } else {
        None
    }
}

/// A line that is not a header (`sym` is its first token).
pub open spec fn action_step(
    st: DocStateV,
    ln: usize,
    line: Seq<char>,
    sym: Seq<char>,
    strict: bool,
    avz: bool,
) -> Result<DocStateV, SemlErrorV> {
    let ws = st.config.waves;
    let scene = st.config.setting.scene;
    if starts_with(sym, seq!['w']) {
        match wave_value(ws.len() as usize, avz, ln, line) {
            Err(e) => Err(e),
            Ok(w) => Ok(DocStateV { config: ConfigV { waves: ws.push(w), ..st.config }, ..st }),
        }
    } else if cob_kind(uppercase_of(sym)) is Some {
        add_action(
            st,
            ln,
            line,
            cob_value(scene, prev_time(ws), ln, line, cob_kind(uppercase_of(sym))->0),
        )
    } else if is_fodder_symbol(sym) {
        add_action(st, ln, line, fodder_value(scene, prev_time(ws), ws.len() as usize, ln, line))
    } else if fixed_card_plant(sym) is Some {
        add_action(
            st,
            ln,
            line,
            fixed_card_value(scene, prev_time(ws), ln, line, fixed_card_plant(sym)->0),
        )
    } else if smart_card_plant(sym) is Some {
        add_action(
            st,
            ln,
            line,
            smart_card_value(scene, prev_time(ws), ln, line, smart_card_plant(sym)->0),
        )
    } else if sym == "SET"@ {
        match set_value(st.vars, ln, line) {
            Err(e) => Err(e),
            Ok(vars) => Ok(DocStateV { vars, ..st }),
        }
    } else if strict || !has_char(sym, ':') {
        Err(mk_err(ln, ErrKind::UnknownSymbol, sym))
    } else {
        Ok(st)
    }
}

/// One line, after variable substitution.
#[verifier::opaque]
pub open spec fn step(st: DocStateV, ln: usize, line: Seq<char>, strict: bool, avz: bool) -> Result<
    DocStateV,
    SemlErrorV,
> {
    let sym = split(line, ' ')[0];
    if is_header(sym) {
        header_step(st, ln, line, sym)
    } else {
        action_step(st, ln, line, sym, strict, avz)
    }
}

/// Empty lines and `scene:` lines are passed over; the others are read in
/// turn, each with the variables defined so far substituted.
pub open spec fn skipped(line: Seq<char>) -> bool {
    line.len() == 0 || starts_with(line, "scene:"@)
}

/// The lines from `i` on, read from state `st`.
pub open spec fn run_lines(
    lines: Seq<(usize, Seq<char>)>,
    i: int,
    st: DocStateV,
    strict: bool,
    avz: bool,
) -> Result<DocStateV, SemlErrorV>
    decreases lines.len() - i,
{
    if i >= lines.len() || i < 0 {
        Ok(st)
    } else if skipped(lines[i].1) {
        run_lines(lines, i + 1, st, strict, avz)
    } else {
        match step(st, lines[i].0, replace_vars(st.vars, lines[i].1), strict, avz) {
            Err(e) => Err(e),
            Ok(next) => run_lines(lines, i + 1, next, strict, avz),
        }
    }
}

// --- after the last line ---------------------------------------------------------------

pub open spec fn avz_fixed_symbol(sym: Seq<char>) -> bool {
    sym == "A"@ || sym == "J"@ || sym == "a"@ || sym == "N"@ || sym == "W"@
}

pub open spec fn avz_smart_symbol(sym: Seq<char>) -> bool {
    sym == "A_NUM"@ || sym == "J_NUM"@ || sym == "a_NUM"@ || sym == "W_NUM"@
}

/// Under `avzTime`, instant cards fire one tick earlier in SEML time.
pub open spec fn shift_action(a: ActionV) -> ActionV {
    match a {
        ActionV::FixedCard { symbol, time, .. } => if avz_fixed_symbol(symbol) {
            crate::seml::types::action_with_time(a, time.wrapping_sub(1))
        } else {
            a
        },
        ActionV::SmartCard { symbol, time, .. } => if avz_smart_symbol(symbol) {
            crate::seml::types::action_with_time(a, time.wrapping_sub(1))
        } else {
            a
        },
        _ => a,
    }
}

/// Under `avzTime`, ice times and instant cards move one tick earlier.
pub open spec fn shift_wave(w: WaveV) -> WaveV {
    WaveV {
        ice_times: w.ice_times.map_values(|t: i32| t.wrapping_sub(1)),
        actions: w.actions.map_values(|a: ActionV| shift_action(a)),
        ..w
    }
}

/// Where an action firing at `t` goes in `s`: after every action that does
/// not fire later, counted from the end.
pub open spec fn insert_pos(s: Seq<ActionV>, t: i32) -> int
    decreases s.len(),
{
    if s.len() == 0 {
        0
    } else if action_time(s.last()) > t {
        insert_pos(s.drop_last(), t)
    } else {
        s.len() as int
    }
}

/// The actions ordered by firing time; actions firing at the same time keep
/// their order.
pub open spec fn sort_by_time(s: Seq<ActionV>) -> Seq<ActionV>
    decreases s.len(),
{
    if s.len() == 0 {
        s
    } else {
        let t = sort_by_time(s.drop_last());
        t.insert(insert_pos(t, action_time(s.last())), s.last())
    }
}

pub open spec fn finish_wave(w: WaveV, avz: bool) -> WaveV {
    let v = if avz {
        shift_wave(w)
    } else {
        w
    };
    WaveV { actions: sort_by_time(v.actions), ..v }
}

pub open spec fn finish(c: ConfigV, avz: bool) -> ConfigV {
    ConfigV { waves: c.waves.map_values(|w: WaveV| finish_wave(w, avz)), ..c }
}

pub open spec fn initial_state(setting: SettingV) -> DocStateV {
    DocStateV {
        config: ConfigV { setting, waves: Seq::empty() },
        params: crate::seml::types::params_default(),
        vars: Seq::empty(),
        seen: Seq::empty(),
    }
}

// --- reading ---------------------------------------------------------------------------

/// The scene a `scene:` value names, in any case: the value upper-cased,
/// where that is one of `DE` `NE` `PE` `FE` `RE` `ME`. On ASCII text the
/// upper-casing is the ASCII one, so `pe`, `Pe` and `PE` all name `PE`.
pub fn scene_code(v: &[char]) -> (r: Option<Vec<char>>)
    ensures
        match r {
            Some(u) => u@ == uppercase_of(v@) && is_scene(u@),
            None => !is_scene(uppercase_of(v@)),
        },
        is_ascii_text(v@) ==> (r is Some <==> is_scene(ascii_uppered(v@))),
        is_ascii_text(v@) && r is Some ==> r->0@ == ascii_uppered(v@),
{
    let u = to_upper(v);
    if is_scene_exec(u.as_slice()) {
        Some(u)
    } else {
        None
    }
}

/// A value that matches a scene code but for the case of its letters
/// upper-cases, the ASCII way, to that code: every spelling of a scene in
/// small or capital letters names it.
pub proof fn lemma_scene_any_case(v: Seq<char>, code: Seq<char>)
    requires
        is_scene(code),
        eq_ignore_ascii_case(v, code),
    ensures
        is_ascii_text(v),
        ascii_uppered(v) == code,
{
    reveal_strlit("DE");
    reveal_strlit("NE");
    reveal_strlit("PE");
    reveal_strlit("FE");
    reveal_strlit("RE");
    reveal_strlit("ME");
    assert(forall|i: int| 0 <= i < code.len() ==> 65 <= (#[trigger] code[i] as u32) <= 90);
    assert forall|i: int| 0 <= i < v.len() implies (#[trigger] v[i] as u32) < 128 && ascii_upper(v[i]) == code[i] by {
        assert(ascii_lower(v[i]) == ascii_lower(code[i]));
        assert(65 <= (code[i] as u32) <= 90);
    }
    assert(ascii_uppered(v) =~= code);
}

fn is_scene_exec(u: &[char]) -> (r: bool)
    ensures
        r == is_scene(u@),
{
    eq_str(u, "DE") || eq_str(u, "NE") || eq_str(u, "PE") || eq_str(u, "FE") || eq_str(u, "RE")
        || eq_str(u, "ME")
}

fn mapped_scene_exec(u: &[char]) -> (r: String)
    ensures
        r@ == mapped_scene(u@),
{
    if eq_str(u, "DE") || eq_str(u, "NE") {
        let c: [char; 2] = ['N', 'E'];
        proof {
            reveal_strlit("NE");
        }
        assert(c@ =~= "NE"@);
        string_of(c.as_slice())
    } else if eq_str(u, "PE") || eq_str(u, "FE") {
        let c: [char; 2] = ['F', 'E'];
        proof {
            reveal_strlit("FE");
        }
        assert(c@ =~= "FE"@);
        string_of(c.as_slice())
    } else {
        let c: [char; 2] = ['M', 'E'];
        proof {
            reveal_strlit("ME");
        }
        assert(c@ =~= "ME"@);
        string_of(c.as_slice())
    }
}

/// Reads the `scene:` line into the setting.
pub fn read_setting(lines: &Vec<Line>) -> (r: Result<Setting, SemlError>)
    ensures
        match (r, setting_value(lines_view(lines@))) {
            (Ok(a), Ok(b)) => a@ == b,
            (Err(e), Err(f)) => e@ == f,
            _ => false,
        },
{
    let ghost lv = lines_view(lines@);
    let mut found: Option<Vec<char>> = None;
    let mut i: usize = 0;
    while i < lines.len()
        invariant
            i <= lines@.len(),
            lv == lines_view(lines@),
            scene_from(lv, 0, None) == scene_from(lv, i as int, opt_vec_view(found)),
        decreases lines@.len() - i,
    {
        let l = &lines[i];
        assert(lv[i as int] == l@);
        let line = l.line.as_slice();
        if starts_with_str(line, "scene:") {
            proof {
                reveal_strlit("scene:");
            }
            if found.is_some() {
                let nm = crate::text::chars_of("scene");
                return Err(err(l.line_num, ErrKind::DupParam, nm.as_slice()));
            }
            let rest = copy_range(line, 6, line.len());
            let v = trim_chars(rest.as_slice());
            match scene_code(v.as_slice()) {
                Some(u) => {
                    found = Some(u);
                },
                None => {
                    return Err(err(l.line_num, ErrKind::UnknownScene, v.as_slice()));
                },
            }
        }
        i = i + 1;
    }
    match found {
        None => {
            let c: [char; 2] = ['F', 'E'];
            proof {
                reveal_strlit("FE");
            }
            assert(c@ =~= "FE"@);
            Ok(
                Setting {
                    scene: string_of(c.as_slice()),
                    original_scene: Some(string_of(c.as_slice())),
                    protect: None,
                },
            )
        },
        Some(u) => Ok(
            Setting {
                scene: mapped_scene_exec(u.as_slice()),
                original_scene: Some(string_of(u.as_slice())),
                protect: None,
            },
        ),
    }
}

fn avz_line_exec(line: &[char]) -> (r: bool)
    ensures
        r == avz_line(line@),
{
    let toks = split_chars(line, ' ');
    proof {
        crate::text::lemma_split_from_len(line@, ' ', 0);
    }
    let sym = &toks[0];
    assert(sym@ == split(line@, ' ')[0]);
    if !starts_with_str(sym.as_slice(), "avzTime:") {
        return false;
    }
    let v = arg_value_exec(line);
    let t: [char; 4] = ['t', 'r', 'u', 'e'];
    proof {
        reveal_strlit("true");
    }
    assert(t@ =~= "true"@);
    eq_ignore_ascii_case_exec(v.as_slice(), t.as_slice())
}

/// Whether the document asks for AvZ time (`avzTime:` with value `true`).
pub fn read_avz_time(lines: &Vec<Line>) -> (r: bool)
    ensures
        r == avz_time(lines_view(lines@)),
{
    let ghost lv = lines_view(lines@);
    let mut i: usize = 0;
    while i < lines.len()
        invariant
            i <= lines@.len(),
            lv == lines_view(lines@),
            forall|k: int| 0 <= k < i ==> !#[trigger] avz_line(lv[k].1),
        decreases lines@.len() - i,
    {
        assert(lv[i as int] == lines@[i as int]@);
        if avz_line_exec(lines[i].line.as_slice()) {
            assert(avz_line(lv[i as int].1));
            return true;
        }
        i = i + 1;
    }
    false
}

fn is_header_exec(sym: &[char]) -> (r: bool)
    ensures
        r == is_header(sym@),
{
    starts_with_str(sym, "protect:") || starts_with_str(sym, "repeat:") || starts_with_str(
        sym,
        "require:",
    ) || starts_with_str(sym, "ban:") || starts_with_str(sym, "huge:") || starts_with_str(
        sym,
        "activate:",
    ) || starts_with_str(sym, "dance:") || starts_with_str(sym, "natural:") || starts_with_str(
        sym,
        "cobDelay:",
    ) || starts_with_str(sym, "std:") || starts_with_str(sym, "hitThres:") || starts_with_str(
        sym,
        "types:",
    ) || starts_with_str(sym, "targetPos:") || starts_with_str(sym, "avzTime:")
        || starts_with_str(sym, "ncobs:") || starts_with_str(sym, "loop:")
}

fn clone_ints(o: &Option<Vec<i32>>) -> (r: Vec<i32>)
    ensures
        r@ == or_empty(opt_vec_view(*o)),
{
    match o {
        Some(v) => v.clone(),
        None => Vec::new(),
    }
}

fn original_scene_chars(s: &Setting) -> (r: Vec<char>)
    ensures
        r@ == or_empty_text(crate::seml::types::opt_string_view(s.original_scene)),
{
    match &s.original_scene {
        Some(t) => crate::text::chars_of(t.as_str()),
        None => Vec::new(),
    }
}

/// Reads a header line into the state.
pub fn apply_header(st: &mut DocState, ln: usize, line: &[char], sym: &[char]) -> (r: Result<
    (),
    SemlError,
>)
    requires
        is_header(sym@),
    ensures
        match (r, header_step(old(st)@, ln, line@, sym@)) {
            (Ok(_), Ok(b)) => final(st)@ == b,
            (Err(e), Err(f)) => e@ == f,
            _ => false,
        },
{
    let scene = original_scene_chars(&st.config.setting);
    if starts_with_str(sym, "protect:") {
        let max = max_rows_exec(crate::text::chars_of(st.config.setting.scene.as_str()).as_slice());
        let pr = parse_protect(st.config.setting.protect.is_some(), max, ln, line)?;
        st.config.setting.protect = Some(pr);
    } else if starts_with_str(sym, "repeat:") {
        let v = parse_int_arg(&mut st.seen, "repeat", ln, line)?;
        st.params.repeat = Some(v);
    } else if starts_with_str(sym, "require:") {
        let prev = clone_ints(&st.params.ban);
        let v = parse_zombie_type_arg(&mut st.seen, "require", scene.as_slice(), ln, line, &prev, true)?;
        st.params.require = Some(v);
    } else if starts_with_str(sym, "ban:") {
        let prev = clone_ints(&st.params.require);
        let v = parse_zombie_type_arg(&mut st.seen, "ban", scene.as_slice(), ln, line, &prev, true)?;
        st.params.ban = Some(v);
    } else if starts_with_str(sym, "huge:") {
        if let Some(b) = parse_bool_arg(&mut st.seen, "huge", ln, line)? {
            st.params.huge = Some(b);
        }
    } else if starts_with_str(sym, "activate:") {
        if let Some(b) = parse_bool_arg(&mut st.seen, "activate", ln, line)? {
            st.params.activate = Some(b);
        }
    } else if starts_with_str(sym, "dance:") {
        if let Some(b) = parse_bool_arg(&mut st.seen, "dance", ln, line)? {
            st.params.dance = Some(b);
        }
    } else if starts_with_str(sym, "natural:") {
        if let Some(b) = parse_bool_arg(&mut st.seen, "natural", ln, line)? {
            st.params.natural = Some(b);
        }
    } else if starts_with_str(sym, "cobDelay:") {
        if let Some(b) = parse_bool_arg(&mut st.seen, "cobDelay", ln, line)? {
            st.params.cob_delay = Some(b);
        }
    } else if starts_with_str(sym, "std:") {
        if let Some(b) = parse_bool_arg(&mut st.seen, "std", ln, line)? {
            st.params.show_std = b;
        }
    } else if starts_with_str(sym, "hitThres:") {
        let v = parse_int_arg(&mut st.seen, "hitThres", ln, line)?;
        st.params.hit_thres = Some(v);
    } else if starts_with_str(sym, "types:") {
        let none: Vec<i32> = Vec::new();
        let v = parse_zombie_type_arg(&mut st.seen, "types", scene.as_slice(), ln, line, &none, false)?;
        st.params.zombies = Some(v);
    } else if starts_with_str(sym, "targetPos:") {
        let v = parse_int_arg(&mut st.seen, "targetPos", ln, line)?;
        st.params.target_x = Some(v);
    } else if starts_with_str(sym, "avzTime:") {
        parse_bool_arg(&mut st.seen, "avzTime", ln, line)?;
    } else if starts_with_str(sym, "ncobs:") {
        let v = parse_int_arg(&mut st.seen, "ncobs", ln, line)?;
        st.params.ncobs = Some(v);
    } else {
        if let Some(b) = parse_bool_arg(&mut st.seen, "loop", ln, line)? {
            st.params.looping = Some(b);
        }
    }
    Ok(())
}

fn fixed_card_plant_exec(sym: &[char]) -> (r: Option<i32>)
    ensures
        r == fixed_card_plant(sym@),
{
    if eq_str(sym, "G") {
        Some(GARLIC)
    } else if eq_str(sym, "A") {
        Some(CHERRY_BOMB)
    } else if eq_str(sym, "J") {
        Some(JALAPENO)
    } else if eq_str(sym, "a") || eq_str(sym, "W") {
        Some(SQUASH)
    } else if eq_str(sym, "N") {
        Some(DOOMSHROOM)
    } else {
        None
    }
}

fn smart_card_plant_exec(sym: &[char]) -> (r: Option<i32>)
    ensures
        r == smart_card_plant(sym@),
{
    if eq_str(sym, "A_NUM") {
        Some(CHERRY_BOMB)
    } else if eq_str(sym, "J_NUM") {
        Some(JALAPENO)
    } else if eq_str(sym, "a_NUM") || eq_str(sym, "W_NUM") {
        Some(SQUASH)
    } else {
        None
    }
}

fn last_time(waves: &Vec<Wave>) -> (r: Option<i32>)
    requires
        waves@.len() > 0,
    ensures
        r == prev_time(waves_view(waves@)),
{
    let w = &waves[waves.len() - 1];
    assert(waves_view(waves@).last() == w@);
    if w.actions.len() > 0 {
        assert(w@.actions.last() == w.actions@[w.actions@.len() - 1]@);
        Some(w.actions[w.actions.len() - 1].time())
    } else {
        None
    }
}

fn push_action_exec(st: &mut DocState, a: Action)
    requires
        old(st).config.waves@.len() > 0,
    ensures
        final(st)@ == push_action(old(st)@, a@),
{
    let ghost old_ws = waves_view(st.config.waves@);
    let ghost av = a@;
    let mut w = st.config.waves.pop().unwrap();
    assert(w@ == old_ws.last());
    let ghost old_actions = w@.actions;
    w.actions.push(a);
    assert(w@.actions =~= old_actions.push(av));
    st.config.waves.push(w);
    assert(waves_view(st.config.waves@) =~= old_ws.update(
        old_ws.len() - 1,
        WaveV { actions: old_actions.push(av), ..old_ws.last() },
    ));
}

/// Reads a line that is not a header into the state.
pub fn apply_action(
    st: &mut DocState,
    ln: usize,
    line: &[char],
    sym: &[char],
    strict: bool,
    avz: bool,
) -> (r: Result<(), SemlError>)
    ensures
        match (r, action_step(old(st)@, ln, line@, sym@, strict, avz)) {
            (Ok(_), Ok(b)) => final(st)@ == b,
            (Err(e), Err(f)) => e@ == f,
            _ => false,
        },
{
    if sym.len() > 0 && sym[0] == 'w' {
        assert(sym@.subrange(0, 1) =~= seq!['w']);
        let w = parse_wave(st.config.waves.len(), avz, ln, line)?;
        let ghost old_ws = waves_view(st.config.waves@);
        st.config.waves.push(w);
        assert(waves_view(st.config.waves@) =~= old_ws.push(w@));
        return Ok(());
    }
    assert(!starts_with(sym@, seq!['w'])) by {
        if sym@.len() > 0 {
            assert(sym@.subrange(0, 1)[0] == sym@[0]);
        }
    }
    let scene = crate::text::chars_of(st.config.setting.scene.as_str());
    let up = to_upper(sym);
    let nwaves = st.config.waves.len();
    if let Some(n) = cob_kind_exec(up.as_slice()) {
        if nwaves == 0 {
            return Err(err(ln, ErrKind::SetWaveFirst, line));
        }
        let prev = last_time(&st.config.waves);
        let a = parse_cob(scene.as_slice(), prev, ln, line, n)?;
        push_action_exec(st, a);
    } else if eq_str(sym, "C") || eq_str(sym, "C_POS") || eq_str(sym, "C_NUM") {
        if nwaves == 0 {
            return Err(err(ln, ErrKind::SetWaveFirst, line));
        }
        let prev = last_time(&st.config.waves);
        let a = parse_fodder(scene.as_slice(), prev, nwaves, ln, line)?;
        push_action_exec(st, a);
    } else if let Some(p) = fixed_card_plant_exec(sym) {
        if nwaves == 0 {
            return Err(err(ln, ErrKind::SetWaveFirst, line));
        }
        let prev = last_time(&st.config.waves);
        let a = parse_fixed_card(scene.as_slice(), prev, ln, line, p)?;
        push_action_exec(st, a);
    } else if let Some(p) = smart_card_plant_exec(sym) {
        if nwaves == 0 {
            return Err(err(ln, ErrKind::SetWaveFirst, line));
        }
        let prev = last_time(&st.config.waves);
        let a = parse_smart_card(scene.as_slice(), prev, ln, line, p)?;
        push_action_exec(st, a);
    } else if eq_str(sym, "SET") {
        parse_set(&mut st.vars, ln, line)?;
    } else if strict || crate::text::find_char(sym, ':', 0) >= sym.len() {
        return Err(err(ln, ErrKind::UnknownSymbol, sym));
    }
    Ok(())
}

/// Reads one line, after substituting the variables defined so far.
pub fn apply_line(st: &mut DocState, ln: usize, raw: &[char], strict: bool, avz: bool) -> (r:
    Result<(), SemlError>)
    ensures
        match (r, step(old(st)@, ln, replace_vars(old(st)@.vars, raw@), strict, avz)) {
            (Ok(_), Ok(b)) => final(st)@ == b,
            (Err(e), Err(f)) => e@ == f,
            _ => false,
        },
{
    proof {
        reveal(step);
    }
    let line = replace_vars_exec(&st.vars, raw);
    let toks = split_chars(line.as_slice(), ' ');
    proof {
        crate::text::lemma_split_from_len(line@, ' ', 0);
    }
    let sym = &toks[0];
    assert(sym@ == split(line@, ' ')[0]);
    if is_header_exec(sym.as_slice()) {
        apply_header(st, ln, line.as_slice(), sym.as_slice())
    } else {
        apply_action(st, ln, line.as_slice(), sym.as_slice(), strict, avz)
    }
}

fn avz_fixed_symbol_exec(sym: &[char]) -> (r: bool)
    ensures
        r == avz_fixed_symbol(sym@),
{
    eq_str(sym, "A") || eq_str(sym, "J") || eq_str(sym, "a") || eq_str(sym, "N") || eq_str(sym, "W")
}

fn avz_smart_symbol_exec(sym: &[char]) -> (r: bool)
    ensures
        r == avz_smart_symbol(sym@),
{
    eq_str(sym, "A_NUM") || eq_str(sym, "J_NUM") || eq_str(sym, "a_NUM") || eq_str(sym, "W_NUM")
}

fn shift_action_exec(a: &mut Action)
    ensures
        final(a)@ == shift_action(old(a)@),
{
    let shift = match &*a {
        Action::FixedCard { symbol, .. } => avz_fixed_symbol_exec(
            crate::text::chars_of(symbol.as_str()).as_slice(),
        ),
        Action::SmartCard { symbol, .. } => avz_smart_symbol_exec(
            crate::text::chars_of(symbol.as_str()).as_slice(),
        ),
        _ => false,
    };
    if shift {
        let t = a.time();
        a.set_time(t.wrapping_sub(1));
    }
}

/// The actions in order of firing time, equal times keeping their order.
pub fn sort_actions(v: Vec<Action>) -> (r: Vec<Action>)
    ensures
        crate::seml::types::actions_view(r@) == sort_by_time(crate::seml::types::actions_view(v@)),
{
    let ghost s = crate::seml::types::actions_view(v@);
    let mut src = v;
    let mut out: Vec<Action> = Vec::new();
    let ghost mut k: int = 0;
    assert(s.take(0) =~= Seq::<ActionV>::empty());
    while src.len() > 0
        invariant
            0 <= k <= s.len(),
            k + src@.len() == s.len(),
            crate::seml::types::actions_view(src@) == s.skip(k),
            crate::seml::types::actions_view(out@) == sort_by_time(s.take(k)),
        decreases src@.len(),
    {
        let ghost sv = crate::seml::types::actions_view(src@);
        assert(sv[0] == s.skip(k)[0]);
        let a = src.remove(0);
        assert(a@ == sv[0]);
        let ghost ov = crate::seml::types::actions_view(out@);
        assert(a@ == s[k]);
        let t = a.time();
        let mut j = out.len();
        assert(ov.take(j as int) =~= ov);
        while j > 0 && out[j - 1].time() > t
            invariant
                j <= out@.len(),
                ov == crate::seml::types::actions_view(out@),
                insert_pos(ov, t) == insert_pos(ov.take(j as int), t),
            decreases j,
        {
            assert(ov.take(j as int).drop_last() =~= ov.take(j - 1));
            assert(ov.take(j as int).last() == out@[j - 1]@);
            j = j - 1;
        }
        proof {
            if j > 0 {
                assert(ov.take(j as int).last() == out@[j - 1]@);
            }
        }
        out.insert(j, a);
        assert(crate::seml::types::actions_view(out@) =~= ov.insert(j as int, s[k]));
        assert(s.take(k + 1).drop_last() =~= s.take(k));
        assert(s.skip(k).remove(0) =~= s.skip(k + 1));
        assert(crate::seml::types::actions_view(src@) =~= s.skip(k).remove(0));
        proof {
            k = k + 1;
        }
    }
    assert(s.take(k) =~= s);
    out
}

fn shift_ice(v: &Vec<i32>) -> (r: Vec<i32>)
    ensures
        r@ == v@.map_values(|t: i32| t.wrapping_sub(1)),
{
    let mut out: Vec<i32> = Vec::new();
    let mut i: usize = 0;
    while i < v.len()
        invariant
            i <= v@.len(),
            out@ == v@.take(i as int).map_values(|t: i32| t.wrapping_sub(1)),
        decreases v@.len() - i,
    {
        out.push(v[i].wrapping_sub(1));
        i = i + 1;
        assert(out@ =~= v@.take(i as int).map_values(|t: i32| t.wrapping_sub(1)));
    }
    assert(v@.take(i as int) =~= v@);
    out
}

fn shift_actions(v: Vec<Action>) -> (r: Vec<Action>)
    ensures
        crate::seml::types::actions_view(r@) == crate::seml::types::actions_view(v@).map_values(
            |a: ActionV| shift_action(a),
        ),
{
    let ghost s = crate::seml::types::actions_view(v@);
    let mut src = v;
    let mut out: Vec<Action> = Vec::new();
    let ghost mut k: int = 0;
    while src.len() > 0
        invariant
            0 <= k <= s.len(),
            k + src@.len() == s.len(),
            crate::seml::types::actions_view(src@) == s.skip(k),
            crate::seml::types::actions_view(out@) == s.take(k).map_values(
                |a: ActionV| shift_action(a),
            ),
        decreases src@.len(),
    {
        let ghost sv = crate::seml::types::actions_view(src@);
        assert(sv[0] == s.skip(k)[0]);
        let mut a = src.remove(0);
        assert(a@ == sv[0]);
        assert(a@ == s[k]);
        shift_action_exec(&mut a);
        let ghost outv = crate::seml::types::actions_view(out@);
        out.push(a);
        assert(crate::seml::types::actions_view(out@) =~= outv.push(shift_action(s[k])));
        assert(s.take(k + 1).map_values(|a: ActionV| shift_action(a)) =~= s.take(k).map_values(
            |a: ActionV| shift_action(a),
        ).push(shift_action(s[k])));
        assert(s.skip(k).remove(0) =~= s.skip(k + 1));
        assert(crate::seml::types::actions_view(src@) =~= s.skip(k).remove(0));
        proof {
            k = k + 1;
        }
    }
    assert(s.take(k) =~= s);
    out
}

fn finish_wave_exec(w: Wave, avz: bool) -> (r: Wave)
    ensures
        r@ == finish_wave(w@, avz),
{
    let Wave { ice_times, wave_length, start_tick, actions } = w;
    let (ice_times, actions) = if avz {
        (shift_ice(&ice_times), shift_actions(actions))
    } else {
        (ice_times, actions)
    };
    let actions = sort_actions(actions);
    Wave { ice_times, wave_length, start_tick, actions }
}

fn finish_exec(config: Config, avz: bool) -> (r: Config)
    ensures
        r@ == finish(config@, avz),
{
    let Config { setting, waves } = config;
    let ghost s = waves_view(waves@);
    let mut src = waves;
    let mut out: Vec<Wave> = Vec::new();
    let ghost mut k: int = 0;
    while src.len() > 0
        invariant
            0 <= k <= s.len(),
            k + src@.len() == s.len(),
            waves_view(src@) == s.skip(k),
            waves_view(out@) == s.take(k).map_values(|w: WaveV| finish_wave(w, avz)),
        decreases src@.len(),
    {
        let ghost sv = waves_view(src@);
        assert(sv[0] == s.skip(k)[0]);
        let w = src.remove(0);
        assert(w@ == sv[0]);
        assert(w@ == s[k]);
        let ghost outv = waves_view(out@);
        out.push(finish_wave_exec(w, avz));
        assert(waves_view(out@) =~= outv.push(finish_wave(s[k], avz)));
        assert(s.take(k + 1).map_values(|w: WaveV| finish_wave(w, avz)) =~= s.take(k).map_values(
            |w: WaveV| finish_wave(w, avz),
        ).push(finish_wave(s[k], avz)));
        assert(s.skip(k).remove(0) =~= s.skip(k + 1));
        assert(waves_view(src@) =~= s.skip(k).remove(0));
        proof {
            k = k + 1;
        }
    }
    assert(s.take(k) =~= s);
    Config { setting, waves: out }
}

// --- the document --------------------------------------------------------------------

/// A parsed document: the scenario and the run parameters its headers set.
pub struct Parsed {
    pub config: Config,
    pub params: Params,
}

pub struct ParsedV {
    pub config: ConfigV,
    pub params: ParamsV,
}

impl View for Parsed {
    type V = ParsedV;

    open spec fn view(&self) -> ParsedV {
        ParsedV { config: self.config@, params: self.params@ }
    }
}

/// The parse result once every line has been read.
pub open spec fn after_run(r: Result<DocStateV, SemlErrorV>, avz: bool) -> Result<ParsedV, SemlErrorV> {
    match r {
        Err(e) => Err(e),
        Ok(st) => Ok(ParsedV { config: finish(st.config, avz), params: st.params }),
    }
}

/// What a document reads as. Errors come in this order: a bad wave range
/// (`wA~B`), then a bad `scene:` line, then the first line that fails to read.
pub open spec fn parse_value(text: Seq<char>, strict: bool) -> Result<ParsedV, SemlErrorV> {
    match crate::seml::parser::lines::expand_lines(crate::seml::parser::lines::numbered_lines(text)) {
        Err(e) => Err(e),
        Ok(lines) => match setting_value(lines) {
            Err(e) => Err(e),
            Ok(setting) => {
                let avz = avz_time(lines);
                after_run(run_lines(lines, 0, initial_state(setting), strict, avz), avz)
            },
        },
    }
}

/// Parses a SEML document. When `strict` is false, an unknown line whose first
/// token holds `:` (a header this reader does not know) is passed over; when
/// it is true, such a line is an error, as any unknown symbol is.
pub fn parse(text: &str, strict: bool) -> (r: Result<Parsed, SemlError>)
    ensures
        match (r, parse_value(text@, strict)) {
            (Ok(a), Ok(b)) => a@ == b,
            (Err(e), Err(f)) => e@ == f,
            _ => false,
        },
{
    let chars = crate::text::chars_of(text);
    let numbered = crate::seml::parser::lines::number_lines(chars.as_slice());
    let lines = crate::seml::parser::lines::expand_lines_exec(&numbered)?;
    let ghost lv = lines_view(lines@);
    let setting = read_setting(&lines)?;
    let avz = read_avz_time(&lines);
    let mut st = DocState {
        config: Config { setting, waves: Vec::new() },
        params: Params::new(),
        vars: Vec::new(),
        seen: Vec::new(),
    };
    assert(st@.config.waves =~= Seq::<WaveV>::empty());
    assert(st@.vars =~= Seq::<(Seq<char>, i64)>::empty());
    assert(st@.seen =~= Seq::<Seq<char>>::empty());
    assert(st@ == initial_state(st@.config.setting));
    let ghost st0 = st@;
    assert(parse_value(text@, strict) == after_run(run_lines(lv, 0, st0, strict, avz), avz));
    let mut i: usize = 0;
    while i < lines.len()
        invariant
            i <= lines@.len(),
            lv == lines_view(lines@),
            run_lines(lv, 0, st0, strict, avz) == run_lines(lv, i as int, st@, strict, avz),
            parse_value(text@, strict) == after_run(run_lines(lv, 0, st0, strict, avz), avz),
        decreases lines@.len() - i,
    {
        let l = &lines[i];
        assert(lv[i as int] == l@);
        let line = l.line.as_slice();
        if !(line.len() == 0 || starts_with_str(line, "scene:")) {
            apply_line(&mut st, l.line_num, line, strict, avz)?;
        }
        i = i + 1;
    }
    let DocState { config, params, vars, seen } = st;
    let config = finish_exec(config, avz);
    Ok(Parsed { config, params })
}

// --- facts about what a document reads as ------------------------------------------------

/// A cannon count, where one is given, is positive.
pub open spec fn ncobs_positive(p: ParamsV) -> bool {
    p.ncobs matches Some(n) ==> n > 0
}

pub proof fn lemma_step_ncobs(st: DocStateV, ln: usize, line: Seq<char>, strict: bool, avz: bool)
    requires
        ncobs_positive(st.params),
    ensures
        step(st, ln, line, strict, avz) matches Ok(next) ==> ncobs_positive(next.params),
{
    reveal(step);
}

pub proof fn lemma_run_ncobs(
    lines: Seq<(usize, Seq<char>)>,
    i: int,
    st: DocStateV,
    strict: bool,
    avz: bool,
)
    requires
        ncobs_positive(st.params),
    ensures
        run_lines(lines, i, st, strict, avz) matches Ok(last) ==> ncobs_positive(last.params),
    decreases lines.len() - i,
{
    if i >= lines.len() || i < 0 {
    } else if skipped(lines[i].1) {
        lemma_run_ncobs(lines, i + 1, st, strict, avz);
    } else {
        let line = replace_vars(st.vars, lines[i].1);
        lemma_step_ncobs(st, lines[i].0, line, strict, avz);
        match step(st, lines[i].0, line, strict, avz) {
            Err(_) => {},
            Ok(next) => lemma_run_ncobs(lines, i + 1, next, strict, avz),
        }
    }
}

/// Every document that parses has a positive cannon count or none.
pub proof fn lemma_parsed_ncobs(text: Seq<char>, strict: bool)
    ensures
        parse_value(text, strict) matches Ok(p) ==> ncobs_positive(p.params),
{
    match crate::seml::parser::lines::expand_lines(crate::seml::parser::lines::numbered_lines(text)) {
        Err(_) => {},
        Ok(lines) => match setting_value(lines) {
            Err(_) => {},
            Ok(setting) => {
                lemma_run_ncobs(lines, 0, initial_state(setting), strict, avz_time(lines));
            },
        },
    }
}

} // verus!
