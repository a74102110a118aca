use puc::calc::extreme::{check_walk, ExtremeType, Speed, WalkError, speed_name};
use puc::calc::ipp::{check_args, effective_cs, IppError};
use puc::calc::time::{hit_rows, max_row, scene_key};
use puc::calc::{wave_lookup, ExplodeKind, SceneArg, Wave};
use puc::output::{capture, Output};
use puc::printer::{
    format_rows, print_bad_format_error, print_error, print_error_with_input, print_hit_cob_dist,
    print_nohit_cob_dist, print_too_many_arguments_error, print_warning, CobCols, CobDist, Scene,
};
use puc::reply::{combine, failure_reply, success_reply};
use puc::seml::names::{
    all_zombie_types_to_names, effective_smash_ops, op_state_to_string, sample_tick,
    zombie_types_to_names,
};
use puc::seml::string::{chop_prefix, chop_suffix, find_closest_string, parse_natural};
use puc::seml::types::Params;
use puc::seml::{build_params, disable_cob_delay, ParamValue, SemlType};
use puc::tables::{build_variant, select, specs, FlagMode, Variant, ZombieBase};
use puc::zmc::ZombieType;
use puc::seml::zombie::{resolve_locale, Lang};

/// Column texts as the calculators print them: the `f32` quotient `x / 80`.
fn cols(x: i32, d: &CobDist, shift: i32) -> CobCols {
    let f = |v: i32| format!("{}", v as f32 / 80.);
    CobCols {
        above: f(x - d.hit_above - shift),
        same: f(x - d.hit_same - shift),
        below: f(x - d.hit_below - shift),
    }
}

fn text(v: &[char]) -> String {
    v.iter().collect()
}

#[test]
fn warnings_and_errors_go_to_diagnostics() {
    let mut out = Output::new();
    print_warning(&mut out, "careful");
    print_error(&mut out, "broken");
    print_error_with_input(&mut out, "bad number", "x1");
    print_too_many_arguments_error(&mut out);
    print_bad_format_error(&mut out);
    assert_eq!(
        text(&out.diag),
        "warning: careful\nerror: broken\nerror: bad number (got: x1)\nerror: too many arguments\nerror: bad input format\n"
    );
    assert!(out.res.is_empty());
}

#[test]
fn capture_collects_both_streams() {
    let (r, res, diag) = capture(|mut o: Output| {
        print_warning(&mut o, "w");
        let d = CobDist { hit_same: 80, hit_above: 40, hit_below: 0 };
        print_hit_cob_dist(&mut o, &Scene::PE, 800, &d, &cols(800, &d, 0));
        (7, o)
    });
    assert_eq!(r, 7);
    assert_eq!(diag, "warning: w\n");
    assert_eq!(res, "hit garg_x=800 same_below=720(col=9) three_rows=760(col=9.5)\n");
}

#[test]
fn cob_distance_lines() {
    let d = CobDist { hit_same: 125, hit_above: 111, hit_below: 20 };
    let mut out = Output::new();
    print_hit_cob_dist(&mut out, &Scene::RE, 800, &d, &cols(800, &d, 0));
    print_nohit_cob_dist(&mut out, &Scene::DE, 700, &d, &cols(700, &d, 1));
    print_nohit_cob_dist(&mut out, &Scene::RE, 100, &d, &cols(100, &d, 1));
    assert_eq!(
        text(&out.res),
        "hit garg_x=800 above=689(col=8.6125) same=675(col=8.4375) below=780(col=9.75)\n\
nohit garg_x=700 same_below=574(col=7.175) above=588(col=7.35)\n\
nohit garg_x=100 above=-12(col=-0.15) same=-26(col=-0.325) below=79(col=0.9875)\n"
    );
}

#[test]
fn cob_distance_columns_are_the_given_texts() {
    let d = CobDist { hit_same: 0, hit_above: 0, hit_below: 0 };
    let mut out = Output::new();
    print_hit_cob_dist(&mut out, &Scene::DE, 1000001, &d, &cols(1000001, &d, 0));
    assert_eq!(
        text(&out.res),
        "hit garg_x=1000001 same_below=1000001(col=12500.013) three_rows=1000001(col=12500.013)\n"
    );
}

#[test]
fn nohit_one_further_carries_hit_cells() {
    let d = CobDist { hit_same: 125, hit_above: 111, hit_below: 20 };
    let mut hit = Output::new();
    let mut nohit = Output::new();
    print_hit_cob_dist(&mut hit, &Scene::RE, 640, &d, &cols(640, &d, 0));
    print_nohit_cob_dist(&mut nohit, &Scene::RE, 641, &d, &cols(641, &d, 1));
    let h = text(&hit.res);
    let n = text(&nohit.res);
    assert_eq!(h.strip_prefix("hit garg_x=640"), n.strip_prefix("nohit garg_x=641"));
}

#[test]
fn tool_reply_text() {
    assert_eq!(combine("a".to_string(), "b".to_string()), "a\nb");
    assert_eq!(combine("a\n".to_string(), "b".to_string()), "a\nb");
    assert_eq!(combine("a".to_string(), String::new()), "a");
    assert_eq!(success_reply(String::new(), " \n".to_string()), "(no output)");
    assert_eq!(success_reply("r".to_string(), "w\n".to_string()), "r\n\n--- warnings ---\nw\n");
    assert_eq!(failure_reply(String::new(), String::new(), "bad"), "bad");
    assert_eq!(failure_reply("x\n".to_string(), "y".to_string(), "bad"), "x\ny\nbad");
}

#[test]
fn rows_are_comma_separated() {
    assert_eq!(format_rows(&[1, 2, 5]), "1,2,5");
    assert_eq!(format_rows(&[]), "");
    assert_eq!(format_rows(&[-3]), "-3");
}

#[test]
fn zombie_name_strings() {
    assert_eq!(zombie_types_to_names(&[], "-"), "无");
    let all = all_zombie_types_to_names();
    assert_eq!(all.chars().count(), 20);
    let s = zombie_types_to_names(&[0, 0x20], "_");
    assert_eq!(s.chars().count(), 20);
    assert!(s.starts_with('普'));
    assert!(s.ends_with('红'));
    assert_eq!(op_state_to_string(1), "HIT");
    assert_eq!(op_state_to_string(2), "MISS");
    assert_eq!(op_state_to_string(0), "");
    assert!(sample_tick(7, 7, 99));
    assert!(sample_tick(99, 7, 99));
    assert!(sample_tick(100, 7, 99));
    assert!(!sample_tick(51, 7, 99));
}

#[test]
fn calculator_names_and_params() {
    assert_eq!(SemlType::Pos.as_str(), "pos");
    assert_eq!(SemlType::Refresh.as_str(), "refresh");
    let mut p = Params::new();
    assert!(disable_cob_delay(&p));
    p.cob_delay = Some(true);
    assert!(!disable_cob_delay(&p));
    p.repeat = Some(5);
    let e = build_params(SemlType::Smash, &p);
    assert_eq!(e.len(), 2);
    assert_eq!(e[0].0, "repeat");
    assert!(matches!(e[0].1, ParamValue::Int(5)));
    assert_eq!(e[1].0, "disableCobDelay");
    assert!(matches!(e[1].1, ParamValue::Bool(false)));
    let e = build_params(SemlType::Pogo, &Params::new());
    assert!(e.is_empty());
    let e = build_params(SemlType::Refresh, &Params::new());
    let keys: Vec<&str> = e.iter().map(|(k, _)| k.as_str()).collect();
    assert_eq!(keys, vec!["require", "ban", "huge", "activate", "dance", "natural", "disableCobDelay"]);
}

#[test]
fn extreme_and_ipp_arguments() {
    assert_eq!(check_walk(&[]), Err(WalkError::NeedWalk));
    assert_eq!(check_walk(&[10, -1]), Err(WalkError::BadTime));
    assert_eq!(check_walk(&[755]), Ok(()));
    assert_eq!(ExtremeType::Garg.col(), "gargantuar");
    assert_eq!(ExtremeType::Jack.name(), "jack");
    assert_eq!(speed_name(Speed::Slow), "slow");
    assert_eq!(check_args(-1, None), Err(IppError::BadTime));
    assert_eq!(check_args(5, Some(-2)), Err(IppError::WaveLenNegative));
    assert_eq!(check_args(433, Some(601)), Ok(()));
    // ice at 601, transition at 433: 399 cs frozen, the rest slowed.
    assert_eq!(effective_cs(433, 601, 1), 601 + 34 / 2);
    assert_eq!(effective_cs(433, 601, 0), 1034);
}

#[test]
fn explosion_rows() {
    assert_eq!(max_row(SceneArg::Pe), 6);
    assert_eq!(max_row(SceneArg::Re), 5);
    assert_eq!(scene_key(SceneArg::De), "de");
    assert_eq!(hit_rows(SceneArg::Pe, ExplodeKind::Cob, 1), Some(vec![1, 2]));
    assert_eq!(hit_rows(SceneArg::De, ExplodeKind::Doom, 3), Some(vec![1, 2, 3, 4, 5]));
    assert_eq!(hit_rows(SceneArg::De, ExplodeKind::Cob, 6), None);
}

fn garg_base() -> ZombieBase {
    ZombieBase {
        pos_col: "gargantuar".to_string(),
        dmg_range: (-149, 817),
        def_x: (-17, 108),
        def_y: (0, 0),
        min_cs_normal: Some(0),
        min_cs_flag: Some(0),
        coord_h: 0,
    }
}

#[test]
fn variant_table() {
    let s = specs();
    assert_eq!(s.len(), 28);
    assert_eq!(s[0].0, "regular");
    assert_eq!(s[27].0, "pogo_walk");
    let garg = s.iter().find(|r| r.0 == "gargantuar").unwrap();
    assert_eq!(garg.1, ZombieType::Gargantuar);
    let v = build_variant(garg, &garg_base());
    assert_eq!(v.pos_col, "gargantuar");
    assert_eq!(v.dmg_range, (-149, 817));
    assert_eq!(v.def_x, (-17, 108));
    let digger = s.iter().find(|r| r.0 == "digger_reverse").unwrap();
    let d = build_variant(digger, &garg_base());
    assert_eq!(d.dmg_range, (9, 758));
    assert_eq!(d.min_cs_flag, Some(1419));
    assert!(matches!(d.flag, FlagMode::Column("digger_flag")));
}

#[test]
fn select_by_keys() {
    let s = specs();
    let vs: Vec<Variant> = s.iter().map(|r| build_variant(r, &garg_base())).collect();
    assert_eq!(select(&vs, None).len(), 28);
    let picked = select(&vs, Some(" pogo , regular,,nothing"));
    let keys: Vec<&str> = picked.iter().map(|v| v.key).collect();
    assert_eq!(keys, vec!["regular", "pogo"]);
    let l = wave_lookup(vs.iter().find(|v| v.key == "snorkel").unwrap(), Wave::Flag).unwrap();
    assert_eq!(l.0, "snorkel_flag");
    assert_eq!(l.1, 0);
    let l = wave_lookup(&vs[0], Wave::Flag).unwrap();
    assert_eq!(l.1, 40);
}

#[test]
fn string_helpers() {
    assert_eq!(parse_natural("0042"), Some(42));
    assert_eq!(parse_natural("+1"), None);
    assert_eq!(parse_natural(""), None);
    assert_eq!(parse_natural("2147483648"), None);
    assert_eq!(chop_prefix("w12", "w"), "12");
    assert_eq!(chop_prefix("x12", "w"), "x12");
    assert_eq!(chop_suffix("23'", "'"), "23");
    assert_eq!(find_closest_string("gigaa", &["giga", "garg", "imp"]), Some("giga"));
    assert_eq!(find_closest_string("zzzzzzzz", &["giga", "garg"]), None);
}

#[test]
fn effective_ops_are_grouped_by_wave() {
    let ops = vec![(1, "PP".to_string()), (1, "C".to_string()), (2, "A".to_string())];
    assert_eq!(effective_smash_ops(&ops, &vec![1, 1, 1]), "w1 PP, C; w2 A");
    assert_eq!(effective_smash_ops(&ops, &vec![0, 1, 2]), "w1 C");
    assert_eq!(effective_smash_ops(&ops, &vec![0, 0]), "—");
}

#[test]
fn locale_prefers_flag_then_environment() {
    assert_eq!(resolve_locale(Some("en"), Some("zh")), Lang::En);
    assert_eq!(resolve_locale(Some("fr"), Some("en")), Lang::En);
    assert_eq!(resolve_locale(None, Some("en")), Lang::En);
    assert_eq!(resolve_locale(None, Some("de")), Lang::Zh);
    assert_eq!(resolve_locale(None, None), Lang::Zh);
    assert_eq!(resolve_locale(Some("zh"), Some("en")), Lang::Zh);
}

#[test]
fn glyphs_read_back_as_their_types() {
    let with_glyph = [0, 2, 3, 4, 5, 6, 7, 8, 11, 12, 14, 15, 16, 17, 18, 20, 21, 22, 23, 32];
    for id in with_glyph {
        let n = puc::seml::zombie::name(id);
        assert_eq!(n.chars().count(), 1);
        assert_eq!(puc::seml::zombie::cn_lookup(&n), Some(id));
    }
    assert_eq!(puc::seml::zombie::name(5), "报");
    assert_eq!(puc::seml::zombie::name(1), "1");
    assert_eq!(puc::seml::zombie::name(24), "24");
    assert_eq!(puc::seml::zombie::name(-3), "-3");
}

#[test]
fn english_keys_all_found_and_distinct() {
    let keys = puc::seml::zombie::en_keys();
    assert_eq!(keys.len(), 25);
    assert_eq!((keys[0], keys[23], keys[24]), ("regu", "imp", "giga"));
    for (i, k) in keys.iter().enumerate() {
        assert!(puc::seml::zombie::en_lookup(k).is_some());
        assert!(!keys[..i].contains(k));
    }
    assert_eq!(puc::seml::zombie::en_lookup("nope"), None);
}

#[test]
fn seml_type_names_read_back() {
    let all = [
        SemlType::Pos,
        SemlType::Smash,
        SemlType::Explode,
        SemlType::Refresh,
        SemlType::Pogo,
        SemlType::Survive,
        SemlType::Reuse,
    ];
    let names: Vec<&str> = all.iter().map(|k| k.as_str()).collect();
    assert_eq!(names, vec!["pos", "smash", "explode", "refresh", "pogo", "survive", "reuse"]);
    for k in all {
        assert_eq!(SemlType::from_name(k.as_str()), Some(k));
        assert_eq!(k.runs_emulator(), k != SemlType::Reuse);
    }
    assert_eq!(SemlType::from_name("coord"), None);
}

#[test]
fn survive_params_carry_hit_threshold() {
    let mut p = Params::new();
    p.hit_thres = Some(1500);
    let keys: Vec<String> = build_params(SemlType::Survive, &p).into_iter().map(|(k, _)| k).collect();
    assert_eq!(keys, vec!["hitThres".to_string(), "disableCobDelay".to_string()]);
    assert!(build_params(SemlType::Reuse, &Params::new()).is_empty());
}
