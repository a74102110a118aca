use puc::seml::smash::{smash_csv, smashed_in_row, wave_total, SmashRates};

#[test]
fn wave_total_takes_first_entry_or_zero() {
    let s = vec![(1, 40), (2, 35), (1, 99)];
    assert_eq!(wave_total(&s, 1), 40);
    assert_eq!(wave_total(&s, 2), 35);
    assert_eq!(wave_total(&s, 3), 0);
    assert_eq!(wave_total(&vec![], 1), 0);
}

#[test]
fn smashed_in_row_counts_from_one() {
    let by = vec![3, 0, 7];
    assert_eq!(smashed_in_row(&by, 1), 3);
    assert_eq!(smashed_in_row(&by, 3), 7);
    assert_eq!(smashed_in_row(&by, 4), 0);
    assert_eq!(smashed_in_row(&by, 0), 0);
    assert_eq!(smashed_in_row(&by, -5), 0);
    assert_eq!(smashed_in_row(&by, i64::MAX), 0);
}

#[test]
fn smash_csv_layout() {
    let waves = vec![1, 2];
    let protect = vec![(1, 8, true), (5, 7, false)];
    let actions = vec![(1, "PP 300".to_string()), (1, "I 1".to_string()), (2, "P 400".to_string())];
    let table = vec![(1, 2, 10, vec![1, 2, 0], vec![2, 0, 0, 0, 0]), (2, 0, 10, vec![3], vec![])];
    let s = |x: &str| x.to_string();
    let rates = SmashRates {
        totals: vec![s("5.00%"), s("0.00%")],
        protect: vec![vec![s("a"), s("b")], vec![s("c"), s("d")]],
        table: vec![s("r1"), s("r2")],
    };
    assert_eq!(
        smash_csv(&waves, &protect, &actions, &table, &rates),
        "单波砸率,w1,w2,\n\
         总和,5.00%,0.00%,\n\
         1路8炮,a,b,\n\
         5路7普通,c,d,\n\
         \n出生波数,单波砸率,砸炮数,总数,[w1] PP 300,I 1,[w2] P 400,1路,5路,\n\
         1,r1,2,10,HIT,MISS,,2,0,\n\
         2,r2,0,10,,0,0,\n"
    );
}
