use mlp_trainer::mnist::{
    one_hot, parse_dataset_line, parse_dataset_text, split_dataset_line, split_dataset_text,
    LINE_SIZE, NUM_CLASSES, NUM_FEATURES,
};

fn float_record_with_label(label: &str) -> String {
    let mut s = String::from(label);
    for i in 0..NUM_FEATURES {
        s.push_str(&format!(",{}.5", i % 10));
    }
    s
}

fn record_with_label(label: u64) -> String {
    let mut s = format!("{}", label);
    for i in 0..NUM_FEATURES {
        s.push_str(&format!(",{}", i % 256));
    }
    s
}

#[test]
fn one_hot_basic() {
    assert_eq!(one_hot(3, 10), vec![0, 0, 0, 1, 0, 0, 0, 0, 0, 0]);
}

#[test]
fn one_hot_zero_label() {
    assert_eq!(one_hot(0, 4), vec![1, 0, 0, 0]);
}

#[test]
fn one_hot_out_of_range_label_is_all_zeros() {
    assert_eq!(one_hot(12, 10), vec![0; 10]);
}

#[test]
fn one_hot_zero_width() {
    assert_eq!(one_hot(0, 0), Vec::<u64>::new());
}

#[test]
fn dataset_line_round_values() {
    let line = record_with_label(7);
    let (pixels, label) = parse_dataset_line(&line).unwrap();
    assert_eq!(label, 7);
    assert_eq!(pixels.len(), NUM_FEATURES);
    for (i, p) in pixels.iter().enumerate() {
        assert_eq!(*p, (i % 256) as u64);
    }
}

#[test]
fn dataset_line_wrong_width_fails() {
    assert_eq!(parse_dataset_line("1,2,3"), None);
    let line = record_with_label(2);
    let longer = format!("{},9", line);
    assert_eq!(parse_dataset_line(&longer), None);
}

#[test]
fn dataset_line_bad_field_fails() {
    let line = record_with_label(4).replace(",17,", ",x,");
    assert_eq!(parse_dataset_line(&line), None);
}

#[test]
fn dataset_text_two_records() {
    let text = format!("header\n{}\n{}\n", record_with_label(3), record_with_label(9));
    let ds = parse_dataset_text(&text).unwrap();
    assert_eq!(ds.len(), 2);
    assert_eq!(ds.features[0].len(), NUM_FEATURES);
    assert_eq!(ds.targets[0].len(), NUM_CLASSES);
    assert_eq!(ds.targets[0][3], 1);
    assert_eq!(ds.targets[0][9], 0);
    assert_eq!(ds.targets[1][9], 1);
    assert_eq!(ds.features[1][0], 0);
    assert_eq!(ds.features[1][2], 2);
}

#[test]
fn dataset_text_crlf_lines() {
    let text = format!("header\r\n{}\r\n", record_with_label(1));
    let ds = parse_dataset_text(&text).unwrap();
    assert_eq!(ds.len(), 1);
    assert_eq!(ds.targets[0][1], 1);
}

#[test]
fn dataset_text_stops_at_empty_line() {
    let text = format!("header\n{}\n\n{}\n", record_with_label(5), record_with_label(6));
    let ds = parse_dataset_text(&text).unwrap();
    assert_eq!(ds.len(), 1);
    assert_eq!(ds.targets[0][5], 1);
}

#[test]
fn dataset_text_header_only() {
    let ds = parse_dataset_text("just a header").unwrap();
    assert_eq!(ds.len(), 0);
    let ds2 = parse_dataset_text("header\n").unwrap();
    assert_eq!(ds2.len(), 0);
}

#[test]
fn split_line_keeps_all_fields() {
    let line = float_record_with_label("7");
    let row = split_dataset_line(&line).unwrap();
    assert_eq!(row.len(), LINE_SIZE);
    assert_eq!(row[0], "7");
    assert_eq!(row[1], "0.5");
    assert_eq!(row[784], "3.5");
}

#[test]
fn split_line_wrong_width_fails() {
    assert_eq!(split_dataset_line("1,2,3"), None);
    let longer = format!("{},9", float_record_with_label("2"));
    assert_eq!(split_dataset_line(&longer), None);
}

#[test]
fn split_text_accepts_float_fields() {
    // a file in fractional form has the record shape even though the
    // integer fast path refuses it
    let text = format!("header\n{}\n", float_record_with_label("3"));
    assert!(parse_dataset_text(&text).is_none());
    let rows = split_dataset_text(&text).unwrap();
    assert_eq!(rows.len(), 1);
    assert_eq!(rows[0][0], "3");
    assert_eq!(rows[0][2], "1.5");
}

#[test]
fn split_text_structure() {
    let text = format!(
        "header\r\n{}\r\n\n{}\n",
        record_with_label(3),
        record_with_label(6)
    );
    // carriage returns stripped, and reading stops at the empty line
    let rows = split_dataset_text(&text).unwrap();
    assert_eq!(rows.len(), 1);
    assert_eq!(rows[0][0], "3");
    assert_eq!(split_dataset_text("just a header"), Some(Vec::new()));
}

#[test]
fn split_text_wrong_width_fails() {
    let text = format!("header\n{}\nnot,a,record\n", float_record_with_label("1"));
    assert_eq!(split_dataset_text(&text), None);
}

#[test]
fn dataset_text_out_of_range_label_gives_zero_target() {
    // a label with no matching class column leaves the one-hot row all zeros
    let text = format!("header\n{}\n", record_with_label(11));
    let ds = parse_dataset_text(&text).unwrap();
    assert_eq!(ds.len(), 1);
    assert_eq!(ds.targets[0], vec![0; NUM_CLASSES]);
}

#[test]
fn dataset_text_bad_record_fails() {
    let text = format!("header\n{}\nnot,a,record\n", record_with_label(3));
    assert!(parse_dataset_text(&text).is_none());
}
