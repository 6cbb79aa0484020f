use plateau_view_tool::naming::check_dir_name;

#[test]
fn test_check_dir_name() {
    assert!(check_dir_name("26100_kyoto-shi_city_2022_citygml_3"));
    assert!(check_dir_name("26100_kyoto-shi_city_2022_citygml_3_option"));
    assert!(!check_dir_name("26100_kyoto-shi_city_2022_citygml"));
    assert!(!check_dir_name("261001_kyoto-shi_city_2022_citygml_3"));
}

#[test]
fn conforming_names_are_accepted() {
    assert!(check_dir_name("13100_tokyo-23ku_city_2020_citygml_1"));
    assert!(check_dir_name("01100_sapporo-shi_city_2020_citygml_12_op2"));
    assert!(check_dir_name("40130_fukuoka-shi_city_2022_citygml_1_a-b"));
}

#[test]
fn malformed_names_are_rejected() {
    assert!(!check_dir_name(""));
    assert!(!check_dir_name("2610_kyoto-shi_city_2022_citygml_3"));
    assert!(!check_dir_name("26100_Kyoto-shi_city_2022_citygml_3"));
    assert!(!check_dir_name("26100__city_2022_citygml_3"));
    assert!(!check_dir_name("26100_kyoto-shi_city_22_citygml_3"));
    assert!(!check_dir_name("26100_kyoto-shi_city_2022_cityGML_3"));
    assert!(!check_dir_name("26100_kyoto-shi_city_2022_citygml_v3"));
    assert!(!check_dir_name("26100_kyoto-shi_city_2022_citygml_3_"));
    assert!(!check_dir_name("26100_kyoto-shi_city_2022_citygml_3_op_x"));
    assert!(!check_dir_name("26100_kyoto-shi_city_2022_citygml_3 "));
    assert!(!check_dir_name("x26100_kyoto-shi_city_2022_citygml_3"));
}
