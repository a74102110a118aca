use puc::seml::explode::{explode_csv_header, least_marker, loss_index, tick_range};

fn descs(v: &[&[&str]]) -> Vec<Vec<String>> {
    v.iter().map(|w| w.iter().map(|s| s.to_string()).collect()).collect()
}

#[test]
fn header_stacks_descriptions_per_section() {
    let h = descs(&[&["PP 300", "I 100"], &["P 400"]]);
    assert_eq!(
        explode_csv_header(&h),
        ",炮伤,,,瞬伤,,,损伤,,\n\
         ,PP 300,P 400,,PP 300,P 400,,PP 300,P 400,,\n\
         时刻,I 100,,,I 100,,,I 100,,,\n"
    );
}

#[test]
fn header_without_descriptions_is_the_label_row() {
    assert_eq!(explode_csv_header(&descs(&[&[], &[]])), ",炮伤,,,瞬伤,,,损伤,,\n");
    assert_eq!(explode_csv_header(&vec![]), ",炮伤,瞬伤,损伤\n");
}

#[test]
fn tick_range_spans_all_waves() {
    assert_eq!(tick_range(&vec![(100, 5), (90, 3), (200, 0)]), (90, 104));
    assert_eq!(tick_range(&vec![]), (0, -1));
    assert_eq!(tick_range(&vec![(50, 0)]), (50, i64::MIN));
}

#[test]
fn loss_index_is_offset_inside_wave() {
    assert_eq!(loss_index(100, 5, 100), Some(0));
    assert_eq!(loss_index(100, 5, 104), Some(4));
    assert_eq!(loss_index(100, 5, 105), None);
    assert_eq!(loss_index(100, 5, 99), None);
    assert_eq!(loss_index(100, 0, 100), None);
}

#[test]
fn least_marker_picks_last_minimum_of_two_or_more() {
    assert_eq!(least_marker(&vec![Some(5), None, Some(3), Some(3), Some(9)]), Some(3));
    assert_eq!(least_marker(&vec![None, Some(1), None]), None);
    assert_eq!(least_marker(&vec![]), None);
    assert_eq!(least_marker(&vec![Some(-2), Some(7)]), Some(0));
}
