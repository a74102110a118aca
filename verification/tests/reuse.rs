use puc::seml::reuse::{run_text, ReuseError};

fn report(text: &str, compact: bool) -> String {
    run_text(text, compact, false).ok().expect("report").join("\n")
}

#[test]
fn seml_reuse_compact_shows_failures() {
    // ncobs=2 with shots 1000cs apart can't recharge (need 3475): only the flagged
    // failing lines are shown, and no "all ok".
    let o = report("ncobs:2\nloop:true\n\nw 0 1000\nP 100 1 9\nP 200 1 9\n", true);
    assert!(o.contains("w1 100 -> w2 100: 1000cs (!)"), "{o}");
    assert!(!o.contains("all ok"), "{o}");
}

#[test]
fn seml_reuse_orders_by_absolute_time() {
    // A delayed cob in w1 (abs 1600) fires after w2's cob (abs 1100).
    let o = report("ncobs:1\n\nw 0 1000\nP 1600 1 9\n\nw 1000\nP 100 1 9\n", false);
    assert!(o.contains("w2 100 -> w1 1600: 500cs (!)"), "{o}");
}

#[test]
fn reuse_fifo_lines_and_next() {
    let o = run_text("ncobs:1\n\nw 1000\nP 100 1 9\nP 600 1 9\n", false, false).ok().unwrap();
    assert_eq!(
        o,
        vec![
            "seml reuse ncobs=1 loop=false".to_string(),
            "w1 100 -> w1 600: 500cs (!)".to_string(),
            "next: 3075".to_string(),
        ]
    );
}

#[test]
fn reuse_compact_all_ok() {
    let o = run_text("ncobs:2\n\nw 4000\nP 100 1 9\nP 3700 1 9\n", true, false).ok().unwrap();
    assert_eq!(
        o,
        vec![
            "seml reuse ncobs=2 loop=false".to_string(),
            "all ok".to_string(),
            "next: -425 3175".to_string(),
        ]
    );
}

#[test]
fn reuse_unused_cannons_are_minus_inf() {
    let o = run_text("ncobs:3\n\nw 1000\nP 500 1 9\n", false, false).ok().unwrap();
    assert_eq!(o.last().unwrap(), "next: -inf -inf 2975");
}

#[test]
fn reuse_loop_counts_cycles() {
    let o = run_text("ncobs:3\nloop:true\n\nw 1000\nP 100 1 9\n", false, false).ok().unwrap();
    assert_eq!(
        o,
        vec!["seml reuse ncobs=3 loop=true".to_string(), "w1 100 -> w4 100: 3000cs (!)".to_string()]
    );
}

#[test]
fn reuse_errors() {
    assert!(matches!(run_text("w 1000\nP 100 1 9\n", false, false), Err(ReuseError::MissingNcobs)));
    assert!(matches!(run_text("ncobs:2\nw 1000\n", false, false), Err(ReuseError::NoCobs)));
    assert!(matches!(run_text("ncobs:2\nZ 1\n", false, false), Err(ReuseError::Parse(_))));
}
