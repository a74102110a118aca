use puc::seml::names::zombie_types_to_names;
use puc::seml::refresh::{refresh_csv_preamble, refresh_row_label};
use puc::seml::zombie::{name_i18n, Lang, YETI};

#[test]
fn refresh_preamble_describes_environment_and_stacks_headers() {
    let headers = vec![vec!["PP 300".to_string(), "D 200".to_string()], vec!["I 1".to_string()]];
    let text = refresh_csv_preamble("PE", true, false, true, false, &[], &[], &headers);
    let expected = format!(
        "测试环境: PE 旗帜波 分离 dance慢 均匀出怪\n必出类型: 无\n禁出类型: 无\n,PP 300,,,I 1,,\n,D 200,,,,,\n"
    );
    assert_eq!(text, expected);
}

#[test]
fn refresh_preamble_names_required_and_banned_types() {
    let text = refresh_csv_preamble("NE", false, true, false, true, &[0], &[2, 3], &vec![]);
    let expected = format!(
        "测试环境: NE 普通波 激活 无dance 自然出怪\n必出类型: {}\n禁出类型: {}\n",
        zombie_types_to_names(&[0], ""),
        zombie_types_to_names(&[2, 3], "")
    );
    assert_eq!(text, expected);
    assert!(text.contains("dance") && !text.contains("dance快"));
}

#[test]
fn refresh_preamble_dance_fast_when_activated() {
    let text = refresh_csv_preamble("FE", false, true, true, false, &[], &[], &vec![]);
    assert!(text.starts_with("测试环境: FE 普通波 激活 dance快 均匀出怪\n"));
}

#[test]
fn refresh_row_label_leaves_out_the_yeti() {
    let with_yeti = refresh_row_label(&[0, YETI, 2], Lang::Zh);
    assert_eq!(with_yeti, format!("{}{}", name_i18n(0, Lang::Zh), name_i18n(2, Lang::Zh)));
    assert_eq!(refresh_row_label(&[YETI], Lang::En), "");
    assert_eq!(refresh_row_label(&[], Lang::Zh), "");
    assert_eq!(refresh_row_label(&[2], Lang::En), name_i18n(2, Lang::En));
}
