use puc::seml::pos::{pos_csv_counts, pos_csv_head, pos_csv_marker, pos_csv_tick_bounds, PosStat};
use puc::seml::zombie::name;

#[test]
fn pos_head_shows_wave_length_once_per_wave() {
    let cols = vec![(0, 601, 0), (0, 601, 2), (1, 1200, 0)];
    let expected = format!(
        ",601,,1200\n僵尸类别,{},{},{}\n",
        name(0),
        name(2),
        name(0)
    );
    assert_eq!(pos_csv_head(&cols), expected);
}

#[test]
fn pos_head_of_no_columns() {
    assert_eq!(pos_csv_head(&vec![]), "\n僵尸类别\n");
}


fn st(arrived: i64, alive: i64, total: i64, min_tick: i64, max_tick: i64) -> PosStat {
    PosStat { arrived, alive, total, min_tick, max_tick }
}

#[test]
fn pos_counts_follow_mode() {
    let stats = vec![st(3, 7, 10, 400, 500), st(0, 9, 9, 0, 0)];
    assert_eq!(pos_csv_counts(true, &stats), "到达数,3,0\n总数,10,9\n");
    assert_eq!(pos_csv_counts(false, &stats), "存活数,7,9\n总数,10,9\n");
}

#[test]
fn pos_tick_bounds_blank_without_arrivals() {
    let stats = vec![st(3, 7, 10, 400, 500), st(0, 9, 9, 1, 2)];
    assert_eq!(pos_csv_tick_bounds(&stats), "时刻min,400,\n时刻max,500,\n");
}

#[test]
fn pos_marker_rows_span_columns() {
    assert_eq!(pos_csv_marker(3), ",,,\n累积概率,,,\n");
    assert_eq!(pos_csv_marker(0), "\n累积概率\n");
}
