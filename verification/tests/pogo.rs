use puc::seml::pogo::{pogo_csv, pogo_lines, PogoTick};

fn tick(t: i64, r: Vec<Option<(i64, i64)>>) -> PogoTick {
    PogoTick { tick: t, ranges: r }
}

#[test]
fn pogo_csv_writes_rows_in_reverse_order() {
    let ticks = vec![
        tick(100, vec![Some((1, 2)), None, Some((-5, 7))]),
        tick(101, vec![]),
    ];
    assert_eq!(
        pogo_csv(&ticks),
        "时刻,收上行跳跳左,右,收本行跳跳左,右,收下行跳跳左,右,\n\
         100,-5,7,ERR,ERR,1,2,\n\
         101,ERR,ERR,ERR,ERR,ERR,ERR,\n"
    );
}

#[test]
fn pogo_csv_of_no_ticks_is_header_only() {
    assert_eq!(pogo_csv(&vec![]), "时刻,收上行跳跳左,右,收本行跳跳左,右,收下行跳跳左,右,\n");
}

#[test]
fn pogo_lines_skip_ticks_without_ranges() {
    let ticks = vec![
        tick(10, vec![None, None, None]),
        tick(11, vec![Some((3, 40)), None, None]),
        tick(12, vec![]),
    ];
    let lines = pogo_lines(&ticks, 0, false);
    assert_eq!(lines, vec![format!("  {:<8} {:<14} {:<14} {:<14}", 11, "3~40", "ERR", "ERR")]);
}

#[test]
fn pogo_lines_compact_keeps_first_last_and_fiftieth() {
    let ticks: Vec<PogoTick> = (99..=152).map(|t| tick(t, vec![Some((t, t + 1))])).collect();
    let lines = pogo_lines(&ticks, 0, true);
    let kept: Vec<String> = lines.iter().map(|l| l.split_whitespace().next().unwrap().to_string()).collect();
    assert_eq!(kept, vec!["99", "100", "150", "152"]);
    assert_eq!(pogo_lines(&ticks, 0, false).len(), 54);
}
