use hwmon_exporter::pattern::SensorPattern;

#[test]
fn first_sensor_input_is_recognised() {
    let pattern = SensorPattern::new().unwrap();
    assert_eq!(pattern.sensor_index("temp1_input"), Some("1".to_string()));
}

#[test]
fn index_of_several_digits_is_whole() {
    let pattern = SensorPattern::new().unwrap();
    assert_eq!(pattern.sensor_index("temp12_input"), Some("12".to_string()));
    assert_eq!(pattern.sensor_index("temp007_input"), Some("007".to_string()));
}

#[test]
fn other_files_hold_no_index() {
    let pattern = SensorPattern::new().unwrap();
    assert_eq!(pattern.sensor_index("temp1_label"), None);
    assert_eq!(pattern.sensor_index("temp_input"), None);
    assert_eq!(pattern.sensor_index("name"), None);
    assert_eq!(pattern.sensor_index("fan1_input"), None);
    assert_eq!(pattern.sensor_index(""), None);
}

#[test]
fn name_with_more_around_the_form_holds_no_index() {
    let pattern = SensorPattern::new().unwrap();
    assert_eq!(pattern.sensor_index("temp1_input.bak"), None);
    assert_eq!(pattern.sensor_index("xtemp3_input"), None);
    assert_eq!(pattern.sensor_index("xtemp3_input.bak"), None);
    assert_eq!(pattern.sensor_index("temp4_input_temp5_input"), None);
    assert_eq!(pattern.sensor_index("temp1_input\n"), None);
    assert_eq!(pattern.sensor_index(" temp1_input"), None);
}

#[test]
fn index_without_digits_is_none() {
    let pattern = SensorPattern::new().unwrap();
    assert_eq!(pattern.sensor_index("temp1a_input"), None);
    assert_eq!(pattern.sensor_index("temp-1_input"), None);
    assert_eq!(pattern.sensor_index("tempx_input"), None);
}

#[test]
fn compiled_expression_becomes_the_pattern() {
    let pattern = SensorPattern::from_compiled(regex::Regex::new("^temp(\\d+)_input$")).unwrap();
    assert_eq!(pattern.sensor_index("temp8_input"), Some("8".to_string()));
    assert_eq!(pattern.sensor_index("temp8_label"), None);
}

#[test]
fn refused_expression_gives_no_pattern() {
    assert!(SensorPattern::from_compiled(regex::Regex::new("^temp(\\d+_input$")).is_none());
}

#[test]
fn sensor_expression_compiles() {
    assert!(SensorPattern::new().is_some());
}

#[test]
fn digits_of_any_script_make_an_index() {
    let pattern = SensorPattern::new().unwrap();
    assert_eq!(pattern.sensor_index("temp\u{661}_input"), Some("\u{661}".to_string()));
}
