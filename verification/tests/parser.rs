use puc::seml::parser::parse;
use puc::seml::parser::lines::clean_line_exec;
use puc::seml::types::{Action, CardPos, Fodder};
use puc::seml::zombie::GIGA_GARGANTUAR;

#[test]
fn pos_template_serializes_to_expected_scenario() {
    let text = "\
scene:PE
types:红
repeat:20000

w 601 900
C 445+200 1256 9
";
    let parsed = parse(text, false).expect("parse ok");
    let setting = &parsed.config.setting;
    assert_eq!(setting.scene, "FE");
    assert_eq!(setting.original_scene.as_deref(), Some("PE"));
    assert!(setting.protect.is_none());
    assert_eq!(parsed.config.waves.len(), 1);
    let w = &parsed.config.waves[0];
    assert_eq!(w.ice_times, vec![601]);
    assert_eq!(w.wave_length, 900);
    assert_eq!(w.start_tick, None);
    assert_eq!(w.actions.len(), 1);
    match &w.actions[0] {
        Action::FixedFodder { symbol, time, shovel_time, fodders, positions } => {
            assert_eq!(symbol, "C");
            assert_eq!(*time, 445);
            assert_eq!(*shovel_time, Some(645));
            assert_eq!(fodders, &vec![Fodder::Normal, Fodder::Normal, Fodder::Normal, Fodder::Normal]);
            assert_eq!(
                positions,
                &vec![
                    CardPos { row: 1, col: 9 },
                    CardPos { row: 2, col: 9 },
                    CardPos { row: 5, col: 9 },
                    CardPos { row: 6, col: 9 },
                ]
            );
        }
        _ => panic!("expected a fixed fodder"),
    }
    assert_eq!(parsed.params.zombies, Some(vec![GIGA_GARGANTUAR]));
    assert_eq!(parsed.params.repeat, Some(20000));
}

#[test]
fn set_substitutes_and_evaluates() {
    // x = 776; x = x+24 → 800 (substituted then evaluated); used as a cob time.
    let text = "\
scene:NE
SET x 776
SET x x+24
w 1500
P x 2 9
";
    let parsed = parse(text, false).unwrap();
    let Action::Cob { time, .. } = &parsed.config.waves[0].actions[0] else {
        panic!("expected cob");
    };
    assert_eq!(*time, 800);
}

#[test]
fn wave_range_expands_per_wave() {
    let text = "\
scene:PE
w1~3 601
PP 225 25 9
";
    let parsed = parse(text, false).unwrap();
    assert_eq!(parsed.config.waves.len(), 3);
    for w in &parsed.config.waves {
        assert_eq!(w.wave_length, 601);
        assert_eq!(w.actions.len(), 1);
    }
}

#[test]
fn unknown_zombie_suggests_closest() {
    let text = "scene:PE\ntypes:gigaa\nw 601\nPP 225 25 9\n";
    let err = parse(text, false).map(|_| ()).unwrap_err().message();
    assert!(err.contains("未知僵尸类型"), "got: {err}");
}

#[test]
fn scene_allows_space_after_colon() {
    let text = "scene: PE\nw 601\nPP 225 25 9\n";
    let parsed = parse(text, false).expect("parse ok");
    assert_eq!(parsed.config.setting.original_scene.as_deref(), Some("PE"));
}

#[test]
fn unknown_header_skipped_unless_strict() {
    let text = "scene:PE\nfoo: bar\nw 601\nPP 225 25 9\n";
    // Lenient (default): the unknown header line is skipped.
    let parsed = parse(text, false).expect("lenient parse ok");
    assert_eq!(parsed.config.waves.len(), 1);
    // Strict: the unknown header line errors.
    let err = parse(text, true).map(|_| ()).unwrap_err().message();
    assert!(err.contains("未知符号"), "got: {err}");
}

#[test]
fn bare_unknown_symbol_errors_even_when_lenient() {
    // No colon in the symbol => treated as a malformed action, not a header.
    let text = "scene:PE\nZ 1 2 3\nw 601\nPP 225 25 9\n";
    let err = parse(text, false).map(|_| ()).unwrap_err().message();
    assert!(err.contains("未知符号"), "got: {err}");
}

fn cleaned(s: &str) -> String {
    let v: Vec<char> = s.chars().collect();
    clean_line_exec(&v).iter().collect()
}

#[test]
fn comment_after_hash_is_dropped() {
    assert_eq!(cleaned("  P  318\t2 9 # 炮 # more\r"), "P 318 2 9");
    assert_eq!(cleaned("  P  318\t2 9 "), "P 318 2 9");
    assert_eq!(cleaned("# only a comment"), "");
}

#[test]
fn comments_do_not_change_the_parse() {
    let with = parse("scene:PE # 场地\nw1 0 300 # 第一波\nP 318 2 9 #炮\n", false).expect("parse ok");
    let without = parse("scene:PE\nw1 0 300\nP 318 2 9\n", false).expect("parse ok");
    assert_eq!(with.config.setting.original_scene, without.config.setting.original_scene);
    assert_eq!(with.config.waves.len(), 1);
    assert_eq!(without.config.waves.len(), 1);
    let (a, b) = (&with.config.waves[0], &without.config.waves[0]);
    assert_eq!(a.wave_length, b.wave_length);
    assert_eq!(a.actions.len(), 1);
    assert_eq!(b.actions.len(), 1);
    match (&a.actions[0], &b.actions[0]) {
        (Action::Cob { time: t1, positions: p1, .. }, Action::Cob { time: t2, positions: p2, .. }) => {
            assert_eq!(t1, t2);
            assert_eq!(p1.len(), p2.len());
            assert_eq!((p1[0].row, p1[0].col.as_str()), (p2[0].row, p2[0].col.as_str()));
        }
        _ => panic!("expected cob actions"),
    }
}

#[test]
fn scene_reads_in_any_case() {
    for s in ["pe", "Pe", "pE", "PE"] {
        let parsed = parse(&format!("scene:{}\nw 601\nPP 225 25 9\n", s), true).expect("parse ok");
        assert_eq!(parsed.config.setting.original_scene.as_deref(), Some("PE"));
        assert_eq!(parsed.config.setting.scene, "FE");
    }
    let de = parse("scene:de\nw 601\n", false).expect("parse ok");
    assert_eq!(de.config.setting.scene, "NE");
    let chars: Vec<char> = "me".chars().collect();
    assert_eq!(puc::seml::parser::document::scene_code(&chars).map(|u| u.iter().collect::<String>()), Some("ME".to_string()));
    let bad: Vec<char> = "xe".chars().collect();
    assert!(puc::seml::parser::document::scene_code(&bad).is_none());
}
