use hwmon_exporter::model::{
    DeviceSnapshot, DirEntry, FileProbe, MalformedDataError, NamedProbe, ScanError, SensorReading,
    StructuralError, TransientAbsence,
};
use hwmon_exporter::pattern::SensorPattern;
use hwmon_exporter::scan::{
    classify_sensor, directory_is_device, entry_is_sensor_file, extract_readings, find_probe, input_file_name,
    label_file_name, listing_has_sensor_file, read_sensor, resolve_identity, scan, scan_device,
    sensor_file_names, DeviceIdentity, SensorOutcome,
};

fn file(name: &str) -> DirEntry {
    DirEntry { name: Some(name.to_string()), is_file: true }
}

fn link(name: &str) -> DirEntry {
    DirEntry { name: Some(name.to_string()), is_file: false }
}

fn content(file_name: &str, text: &str) -> NamedProbe {
    NamedProbe { file_name: file_name.to_string(), probe: FileProbe::Content(text.to_string()) }
}

fn unreadable(file_name: &str) -> NamedProbe {
    NamedProbe { file_name: file_name.to_string(), probe: FileProbe::Unreadable }
}

fn coretemp(listing: Vec<DirEntry>, files: Vec<NamedProbe>) -> DeviceSnapshot {
    DeviceSnapshot {
        listing: Some(listing),
        name: FileProbe::Content("coretemp\n".to_string()),
        device: Some("/sys/devices/pci0000:00/0000:00:18.3".to_string()),
        files,
    }
}

fn reading(label: &str, millidegrees: i64) -> SensorReading {
    SensorReading {
        name: "coretemp".to_string(),
        device: "0000:00:18.3".to_string(),
        label: label.to_string(),
        millidegrees,
    }
}

fn identity() -> DeviceIdentity {
    DeviceIdentity { name: "coretemp".to_string(), device: "0000:00:18.3".to_string() }
}

fn text(s: &str) -> FileProbe {
    FileProbe::Content(s.to_string())
}

#[test]
fn sensor_file_is_a_regular_file_named_temp() {
    assert!(entry_is_sensor_file(&file("temp1_input")));
    assert!(entry_is_sensor_file(&file("temperature")));
    assert!(!entry_is_sensor_file(&link("temp1_input")));
    assert!(!entry_is_sensor_file(&file("fan1_input")));
    assert!(!entry_is_sensor_file(&DirEntry { name: None, is_file: true }));
}

#[test]
fn listing_without_sensor_file_is_told() {
    assert!(!listing_has_sensor_file(&vec![]));
    assert!(!listing_has_sensor_file(&vec![file("name"), link("device"), file("fan1_input")]));
    assert!(listing_has_sensor_file(&vec![file("name"), file("temp3_label")]));
}

#[test]
fn device_needs_sensor_file_and_name() {
    let with_sensor = vec![file("name"), file("temp1_input")];
    let without_sensor = vec![file("name"), file("fan1_input")];
    assert!(directory_is_device(&with_sensor, &text("coretemp")));
    assert!(directory_is_device(&with_sensor, &FileProbe::Unreadable));
    assert!(!directory_is_device(&with_sensor, &FileProbe::Absent));
    assert!(!directory_is_device(&without_sensor, &text("coretemp")));
    assert!(!directory_is_device(&vec![], &FileProbe::Absent));
}

#[test]
fn sensor_files_are_named_after_the_index() {
    assert_eq!(input_file_name("1"), "temp1_input");
    assert_eq!(label_file_name("1"), "temp1_label");
    assert_eq!(input_file_name("12"), "temp12_input");
    assert_eq!(label_file_name("007"), "temp007_label");
}

#[test]
fn first_probe_of_a_file_counts() {
    let files = vec![
        content("temp1_input", "45000"),
        unreadable("temp1_label"),
        content("temp1_label", "late"),
    ];
    assert_eq!(find_probe(&files, &"temp1_input".to_string()), Some(&text("45000")));
    assert_eq!(find_probe(&files, &"temp1_label".to_string()), Some(&FileProbe::Unreadable));
    assert_eq!(find_probe(&files, &"temp2_input".to_string()), None);
}

#[test]
fn identity_is_trimmed_name_and_last_segment() {
    let r = resolve_identity(
        &text("  coretemp\n"),
        &Some("/sys/devices/pci0000:00/0000:00:18.3".to_string()),
    );
    assert_eq!(r, Ok(identity()));
}

#[test]
fn identity_needs_name_and_device() {
    let path = Some("/sys/devices/platform/coretemp.0".to_string());
    assert_eq!(resolve_identity(&FileProbe::Unreadable, &path), Err(StructuralError::NameUnreadable));
    assert_eq!(resolve_identity(&FileProbe::Absent, &path), Err(StructuralError::NameUnreadable));
    assert_eq!(resolve_identity(&text("k10temp"), &None), Err(StructuralError::DeviceUnresolved));
    assert_eq!(
        resolve_identity(&text("k10temp"), &Some("/".to_string())),
        Err(StructuralError::DeviceUnresolved)
    );
}

#[test]
fn sensor_with_both_files_is_read() {
    let r = classify_sensor(&identity(), &text("45000\n"), &text("Core 0\n"));
    assert_eq!(r, SensorOutcome::Reading(reading("Core 0", 45000)));
}

#[test]
fn sensor_with_a_missing_file_is_skipped() {
    assert_eq!(
        classify_sensor(&identity(), &FileProbe::Absent, &text("Core 0")),
        SensorOutcome::Skipped(TransientAbsence::InputAbsent)
    );
    assert_eq!(
        classify_sensor(&identity(), &text("45000"), &FileProbe::Absent),
        SensorOutcome::Skipped(TransientAbsence::LabelAbsent)
    );
    assert_eq!(
        classify_sensor(&identity(), &FileProbe::Absent, &FileProbe::Absent),
        SensorOutcome::Skipped(TransientAbsence::InputAbsent)
    );
    assert_eq!(
        classify_sensor(&identity(), &FileProbe::Unreadable, &FileProbe::Absent),
        SensorOutcome::Skipped(TransientAbsence::LabelAbsent)
    );
}

#[test]
fn sensor_with_unreadable_input_is_skipped() {
    assert_eq!(
        classify_sensor(&identity(), &FileProbe::Unreadable, &text("Core 0")),
        SensorOutcome::Skipped(TransientAbsence::InputUnreadable)
    );
    assert_eq!(
        classify_sensor(&identity(), &FileProbe::Unreadable, &FileProbe::Unreadable),
        SensorOutcome::Skipped(TransientAbsence::InputUnreadable)
    );
}

#[test]
fn sensor_with_unreadable_label_fails() {
    assert_eq!(
        classify_sensor(&identity(), &text("45000"), &FileProbe::Unreadable),
        SensorOutcome::Failed(MalformedDataError::LabelUnreadable)
    );
    assert_eq!(
        classify_sensor(&identity(), &text("notanumber"), &FileProbe::Unreadable),
        SensorOutcome::Failed(MalformedDataError::LabelUnreadable)
    );
}

#[test]
fn sensor_with_malformed_input_fails() {
    assert_eq!(
        classify_sensor(&identity(), &text("notanumber"), &text("Core 0")),
        SensorOutcome::Failed(MalformedDataError::InvalidValue)
    );
    assert_eq!(
        classify_sensor(&identity(), &text(""), &text("Core 0")),
        SensorOutcome::Failed(MalformedDataError::InvalidValue)
    );
}

#[test]
fn sensor_of_an_index_is_read_from_its_two_files() {
    let files = vec![content("temp1_input", "45005\n"), content("temp1_label", "Core 0\n")];
    assert_eq!(
        read_sensor(&identity(), &Some("1".to_string()), &files),
        Ok(Some(reading("Core 0", 45005)))
    );
}

#[test]
fn name_without_index_adds_nothing() {
    let files = vec![content("temp1_input", "45000"), content("temp1_label", "Core 0")];
    assert_eq!(read_sensor(&identity(), &None, &files), Ok(None));
}

#[test]
fn sensor_of_an_index_without_its_files_is_skipped() {
    let files = vec![content("temp1_input", "45000"), content("temp1_label", "Core 0")];
    assert_eq!(read_sensor(&identity(), &Some("2".to_string()), &files), Ok(None));
    assert_eq!(read_sensor(&identity(), &Some("01".to_string()), &files), Ok(None));
    let unread = vec![unreadable("temp1_input"), content("temp1_label", "Core 0")];
    assert_eq!(read_sensor(&identity(), &Some("1".to_string()), &unread), Ok(None));
}

#[test]
fn sensor_of_an_index_with_malformed_files_fails() {
    let bad_value = vec![content("temp2_input", "notanumber"), content("temp2_label", "Core 1")];
    assert_eq!(
        read_sensor(&identity(), &Some("2".to_string()), &bad_value),
        Err(ScanError::MalformedData(MalformedDataError::InvalidValue))
    );
    let no_label = vec![content("temp2_input", "45000"), unreadable("temp2_label")];
    assert_eq!(
        read_sensor(&identity(), &Some("2".to_string()), &no_label),
        Err(ScanError::MalformedData(MalformedDataError::LabelUnreadable))
    );
}

#[test]
fn file_beside_a_sensor_input_adds_no_reading() {
    let pattern = SensorPattern::new().unwrap();
    let device = coretemp(
        vec![file("name"), file("temp1_input"), file("temp1_input.bak"), file("temp1_label")],
        vec![content("temp1_input", "45000"), content("temp1_label", "Core 0")],
    );
    assert_eq!(scan_device(&pattern, &device), Ok(vec![reading("Core 0", 45000)]));
}

#[test]
fn files_to_probe_follow_the_listing() {
    let pattern = SensorPattern::new().unwrap();
    let listing = vec![
        file("name"),
        file("temp2_input"),
        file("temp2_label"),
        DirEntry { name: None, is_file: true },
        file("temp1_input"),
        file("temp1_input.bak"),
        link("device"),
    ];
    assert_eq!(
        sensor_file_names(&pattern, &listing),
        vec!["temp2_input", "temp2_label", "temp1_input", "temp1_label"]
    );
    assert_eq!(sensor_file_names(&pattern, &vec![]), Vec::<String>::new());
}

#[test]
fn readings_come_in_listing_order() {
    let pattern = SensorPattern::new().unwrap();
    let listing = vec![file("temp2_input"), file("temp2_label"), file("temp1_label"), file("temp1_input")];
    let files = vec![
        content("temp1_input", "45000\n"),
        content("temp1_label", "Core 0\n"),
        content("temp2_input", "47500\n"),
        content("temp2_label", "Core 1\n"),
    ];
    assert_eq!(
        extract_readings(&pattern, &identity(), &listing, &files),
        Ok(vec![reading("Core 1", 47500), reading("Core 0", 45000)])
    );
}

#[test]
fn entry_with_unreadable_name_fails_the_device() {
    let pattern = SensorPattern::new().unwrap();
    let listing = vec![file("temp1_input"), DirEntry { name: None, is_file: false }];
    let files = vec![content("temp1_input", "45000"), content("temp1_label", "Core 0")];
    assert_eq!(
        extract_readings(&pattern, &identity(), &listing, &files),
        Err(ScanError::Structure(StructuralError::EntryNameUnreadable))
    );
}

#[test]
fn first_failure_in_listing_order_is_reported() {
    let pattern = SensorPattern::new().unwrap();
    let listing = vec![file("temp1_input"), file("temp2_input"), DirEntry { name: None, is_file: true }];
    let files = vec![
        content("temp1_input", "45000"),
        unreadable("temp1_label"),
        content("temp2_input", "bad"),
        content("temp2_label", "Core 1"),
    ];
    assert_eq!(
        extract_readings(&pattern, &identity(), &listing, &files),
        Err(ScanError::MalformedData(MalformedDataError::LabelUnreadable))
    );
}

#[test]
fn well_formed_device_gives_one_reading_per_pair() {
    let pattern = SensorPattern::new().unwrap();
    let device = coretemp(
        vec![
            file("name"),
            link("device"),
            file("temp1_input"),
            file("temp1_label"),
            file("temp2_input"),
            file("temp2_label"),
            file("temp3_input"),
            file("temp3_label"),
        ],
        vec![
            content("temp1_input", "45000\n"),
            content("temp1_label", "Core 0\n"),
            content("temp2_input", "46500\n"),
            content("temp2_label", "Core 1\n"),
            content("temp3_input", "-2125\n"),
            content("temp3_label", "Ambient\n"),
        ],
    );
    assert_eq!(
        scan_device(&pattern, &device),
        Ok(vec![reading("Core 0", 45000), reading("Core 1", 46500), reading("Ambient", -2125)])
    );
}

#[test]
fn half_a_pair_gives_no_reading_and_no_error() {
    let pattern = SensorPattern::new().unwrap();
    let label_only = coretemp(
        vec![file("temp1_input"), file("temp1_label")],
        vec![content("temp1_label", "Core 0")],
    );
    assert_eq!(scan_device(&pattern, &label_only), Ok(vec![]));
    let input_only = coretemp(
        vec![file("temp1_input"), file("temp1_label")],
        vec![content("temp1_input", "45000")],
    );
    assert_eq!(scan_device(&pattern, &input_only), Ok(vec![]));
}

#[test]
fn half_a_pair_leaves_the_other_sensors() {
    let pattern = SensorPattern::new().unwrap();
    let device = coretemp(
        vec![file("temp1_input"), file("temp2_input"), file("temp2_label")],
        vec![
            content("temp1_input", "45000"),
            content("temp2_input", "50000"),
            content("temp2_label", "Core 1"),
        ],
    );
    assert_eq!(scan_device(&pattern, &device), Ok(vec![reading("Core 1", 50000)]));
}

#[test]
fn unreadable_input_leaves_the_other_sensors() {
    let pattern = SensorPattern::new().unwrap();
    let device = coretemp(
        vec![file("temp1_input"), file("temp2_input")],
        vec![
            unreadable("temp1_input"),
            content("temp1_label", "Core 0"),
            content("temp2_input", "50000"),
            content("temp2_label", "Core 1"),
        ],
    );
    assert_eq!(scan_device(&pattern, &device), Ok(vec![reading("Core 1", 50000)]));
}

#[test]
fn directory_without_name_is_left_out() {
    let pattern = SensorPattern::new().unwrap();
    let mut device = coretemp(
        vec![file("temp1_input"), file("temp1_label")],
        vec![content("temp1_input", "45000"), content("temp1_label", "Core 0")],
    );
    device.name = FileProbe::Absent;
    assert_eq!(scan_device(&pattern, &device), Ok(vec![]));
    device.device = None;
    assert_eq!(scan_device(&pattern, &device), Ok(vec![]));
}

#[test]
fn directory_without_sensor_file_is_left_out() {
    let pattern = SensorPattern::new().unwrap();
    let mut device = coretemp(vec![file("name"), file("fan1_input"), link("temp1_input")], vec![]);
    device.device = None;
    device.name = FileProbe::Unreadable;
    assert_eq!(scan_device(&pattern, &device), Ok(vec![]));
}

#[test]
fn directory_that_cannot_be_listed_fails() {
    let pattern = SensorPattern::new().unwrap();
    let mut device = coretemp(vec![], vec![]);
    device.listing = None;
    assert_eq!(
        scan_device(&pattern, &device),
        Err(ScanError::Structure(StructuralError::DirectoryUnreadable))
    );
}

#[test]
fn device_with_unreadable_name_fails() {
    let pattern = SensorPattern::new().unwrap();
    let mut device = coretemp(vec![file("temp1_input")], vec![]);
    device.name = FileProbe::Unreadable;
    assert_eq!(
        scan_device(&pattern, &device),
        Err(ScanError::Structure(StructuralError::NameUnreadable))
    );
}

#[test]
fn device_with_unresolved_link_fails() {
    let pattern = SensorPattern::new().unwrap();
    let mut device = coretemp(vec![file("temp1_input")], vec![]);
    device.device = None;
    assert_eq!(
        scan_device(&pattern, &device),
        Err(ScanError::Structure(StructuralError::DeviceUnresolved))
    );
}

#[test]
fn unreadable_root_fails() {
    let pattern = SensorPattern::new().unwrap();
    assert_eq!(scan(&pattern, &None), Err(ScanError::Structure(StructuralError::RootUnreadable)));
}

#[test]
fn empty_root_has_no_readings() {
    let pattern = SensorPattern::new().unwrap();
    assert_eq!(scan(&pattern, &Some(vec![])), Ok(vec![]));
}

#[test]
fn devices_come_in_root_order() {
    let pattern = SensorPattern::new().unwrap();
    let first = coretemp(
        vec![file("temp1_input")],
        vec![content("temp1_input", "45000"), content("temp1_label", "Core 0")],
    );
    let unnamed = DeviceSnapshot {
        listing: Some(vec![file("temp1_input")]),
        name: FileProbe::Absent,
        device: None,
        files: vec![],
    };
    let second = DeviceSnapshot {
        listing: Some(vec![file("temp1_input"), file("temp1_label")]),
        name: FileProbe::Content("nvme\n".to_string()),
        device: Some("/sys/devices/pci0000:00/0000:00:01.1/0000:01:00.0/nvme/nvme0".to_string()),
        files: vec![content("temp1_input", "38850\n"), content("temp1_label", "Composite\n")],
    };
    let expected = vec![
        reading("Core 0", 45000),
        SensorReading {
            name: "nvme".to_string(),
            device: "nvme0".to_string(),
            label: "Composite".to_string(),
            millidegrees: 38850,
        },
    ];
    assert_eq!(scan(&pattern, &Some(vec![first, unnamed, second])), Ok(expected));
}

#[test]
fn one_failing_device_fails_the_scan() {
    let pattern = SensorPattern::new().unwrap();
    let good = coretemp(
        vec![file("temp1_input")],
        vec![content("temp1_input", "45000"), content("temp1_label", "Core 0")],
    );
    let bad = coretemp(
        vec![file("temp2_input")],
        vec![content("temp2_input", "notanumber"), content("temp2_label", "Core 1")],
    );
    let mut unlisted = coretemp(vec![], vec![]);
    unlisted.listing = None;
    assert_eq!(
        scan(&pattern, &Some(vec![good, bad, unlisted])),
        Err(ScanError::MalformedData(MalformedDataError::InvalidValue))
    );
}

#[test]
fn same_snapshot_scans_the_same() {
    let pattern = SensorPattern::new().unwrap();
    let root = Some(vec![coretemp(
        vec![file("temp1_input"), file("temp2_input")],
        vec![
            content("temp1_input", "45000"),
            content("temp1_label", "Core 0"),
            content("temp2_input", "47000"),
            content("temp2_label", "Core 1"),
        ],
    )]);
    let again = root.clone();
    assert_eq!(scan(&pattern, &root), scan(&pattern, &again));
    assert_eq!(scan(&pattern, &root), scan(&pattern, &root));
}
