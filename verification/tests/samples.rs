use timeseries_fft::samples::{gather, require_samples, InputError, Reading, Report};
use timeseries_fft::text::scan_lines;

/// Reads every data line of `text` as an `f32`.
fn read_all(text: &str) -> Vec<Reading<f32>> {
    scan_lines(text)
        .iter()
        .map(|line| Reading { line: line.number, value: line.content.parse::<f32>().ok() })
        .collect()
}

#[test]
fn values_keep_their_order() {
    let readings = vec![
        Reading { line: 1, value: Some(3.0f32) },
        Reading { line: 2, value: Some(1.0) },
        Reading { line: 3, value: Some(2.0) },
    ];
    let report = gather(&readings);
    assert_eq!(report, Report { samples: vec![3.0, 1.0, 2.0], rejected: vec![] });
}

#[test]
fn lines_without_a_value_are_reported_by_number() {
    let readings = vec![
        Reading { line: 2, value: None },
        Reading { line: 5, value: Some(10i64) },
        Reading { line: 6, value: None },
        Reading { line: 9, value: Some(-4) },
    ];
    let report = gather(&readings);
    assert_eq!(report.samples, vec![10, -4]);
    assert_eq!(report.rejected, vec![2, 6]);
}

#[test]
fn nothing_read_gives_an_empty_report() {
    let report = gather::<f64>(&[]);
    assert!(report.samples.is_empty());
    assert!(report.rejected.is_empty());
}

#[test]
fn only_rejected_lines_give_no_samples() {
    let readings: Vec<Reading<f32>> =
        vec![Reading { line: 1, value: None }, Reading { line: 2, value: None }];
    let report = gather(&readings);
    assert!(report.samples.is_empty());
    assert_eq!(report.rejected, vec![1, 2]);
}

#[test]
fn every_reading_is_a_sample_or_a_rejection() {
    let readings = read_all("1\nx\n2\ny\nz\n3\n\n4");
    let report = gather(&readings);
    assert_eq!(report.samples.len() + report.rejected.len(), readings.len());
}

#[test]
fn malformed_line_is_dropped_with_one_warning() {
    let report = gather(&read_all("1.0\n\nabc\n2.0\n3.0"));
    assert_eq!(report.samples, vec![1.0f32, 2.0, 3.0]);
    assert_eq!(report.rejected, vec![3]);
}

#[test]
fn blank_text_reads_as_no_samples() {
    for text in ["", "\n", "  \n\t\n", "\r\n\r\n"] {
        let report = gather(&read_all(text));
        assert!(report.samples.is_empty(), "{:?}", text);
        assert!(report.rejected.is_empty(), "{:?}", text);
    }
}

#[test]
fn numbers_in_every_accepted_form_are_read() {
    let report = gather(&read_all(" 0.5 \n-1e-3\r\n+7.\n.5\n1 2\n0x10\n1,5\n12abc\n"));
    assert_eq!(report.samples, vec![0.5f32, -0.001, 7.0, 0.5]);
    assert_eq!(report.rejected, vec![5, 6, 7, 8]);
}

#[test]
fn a_reading_clones_to_an_equal_reading() {
    let reading = Reading { line: 7, value: Some(1.25f32) };
    assert_eq!(reading.clone(), reading);
    let nothing: Reading<f32> = Reading { line: 8, value: None };
    assert_eq!(nothing.clone(), nothing);
}

#[test]
fn samples_pass_the_check_unchanged() {
    assert_eq!(require_samples(vec![1.0f32, -2.0]), Ok(vec![1.0f32, -2.0]));
    assert_eq!(require_samples(vec![0u8]), Ok(vec![0u8]));
}

#[test]
fn no_samples_is_an_error() {
    assert_eq!(require_samples(Vec::<f32>::new()), Err(InputError::NoValidData));
}

#[test]
fn the_error_says_what_is_wrong() {
    assert_eq!(InputError::NoValidData.message(), "File contains no valid data points");
}

#[test]
fn a_file_of_malformed_lines_is_no_input() {
    let report = gather(&read_all("abc\n\nnot a number\n"));
    assert_eq!(report.rejected, vec![1, 3]);
    assert_eq!(require_samples(report.samples), Err(InputError::NoValidData));
}
