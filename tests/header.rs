use wfdb::header::decode_channel;
use wfdb::header::Field;
use wfdb::header::HeaderError;
use wfdb::header::WFDBHeader;
use wfdb::text::Decimal;

fn whole(n: u64) -> Decimal {
    Decimal { negative: false, whole: n, fraction: 0, fraction_digits: 0 }
}

#[test]
fn general_line_with_time_and_date() {
    let h = WFDBHeader::build_general_header("100 2 250 1000 00:00:00 01/01/2000").unwrap();
    assert_eq!(h.record_name, "100");
    assert_eq!(h.n_seg, None);
    assert_eq!(h.n_sig, 2);
    assert_eq!(h.fs, whole(250));
    assert_eq!(h.counter_freq, None);
    assert_eq!(h.base_counter, None);
    assert_eq!(h.sig_len, Some(1000));
    assert_eq!(h.base_time, Some("00:00:00".to_string()));
    assert_eq!(h.base_date, Some("01/01/2000".to_string()));
    assert!(h.channels.is_empty());
}

#[test]
fn general_line_minimal_leaves_fields_absent() {
    let h = WFDBHeader::build_general_header("rec-1 0").unwrap();
    assert_eq!(h.record_name, "rec-1");
    assert_eq!(h.n_sig, 0);
    assert_eq!(h.fs, whole(250));
    assert_eq!(h.sig_len, None);
    assert_eq!(h.base_time, None);
    assert_eq!(h.base_date, None);
}

#[test]
fn general_line_all_optional_parts() {
    let h = WFDBHeader::build_general_header("multi/3 4 360.5/100(-12) 650000 12:30:00 25/12/1999").unwrap();
    assert_eq!(h.record_name, "multi");
    assert_eq!(h.n_seg, Some(3));
    assert_eq!(h.n_sig, 4);
    assert_eq!(h.fs, Decimal { negative: false, whole: 360, fraction: 5, fraction_digits: 1 });
    assert_eq!(h.counter_freq, Some(whole(100)));
    assert_eq!(h.base_counter, Some(Decimal { negative: true, whole: 12, fraction: 0, fraction_digits: 0 }));
    assert_eq!(h.sig_len, Some(650000));
    assert_eq!(h.base_time, Some("12:30:00".to_string()));
    assert_eq!(h.base_date, Some("25/12/1999".to_string()));
}

#[test]
fn general_line_errors() {
    assert_eq!(
        WFDBHeader::build_general_header("   "),
        Err(HeaderError::MissingRequiredField { line: 0, field: Field::RecordName })
    );
    assert_eq!(
        WFDBHeader::build_general_header("100"),
        Err(HeaderError::MissingRequiredField { line: 0, field: Field::SignalCount })
    );
    assert_eq!(
        WFDBHeader::build_general_header("100 two"),
        Err(HeaderError::UnparsableNumber { line: 0, field: Field::SignalCount })
    );
    assert_eq!(
        WFDBHeader::build_general_header("100/ 2"),
        Err(HeaderError::UnparsableNumber { line: 0, field: Field::SegmentCount })
    );
    assert_eq!(
        WFDBHeader::build_general_header("100 2 fast"),
        Err(HeaderError::UnparsableNumber { line: 0, field: Field::SamplingFrequency })
    );
    assert_eq!(
        WFDBHeader::build_general_header("100 2 250/100(5"),
        Err(HeaderError::MalformedInput { line: 0 })
    );
    assert_eq!(
        WFDBHeader::build_general_header("100 2 250 1000 00:00:00 01/01/2000 extra"),
        Err(HeaderError::MalformedInput { line: 0 })
    );
    assert_eq!(
        WFDBHeader::build_general_header("100 2 250 long"),
        Err(HeaderError::UnparsableNumber { line: 0, field: Field::SignalLength })
    );
}

#[test]
fn channel_line_full() {
    let c = decode_channel("100.dat 16 200(0)/mV 11 0 0 0 0 record", 1).unwrap();
    assert_eq!(c.file_name, "100.dat");
    assert_eq!(c.fmt, 16);
    assert_eq!(c.samps_per_frame, 1);
    assert_eq!(c.skew, 0);
    assert_eq!(c.byte_offset, 0);
    assert_eq!(c.adc_gain, whole(200));
    assert_eq!(c.baseline, 0);
    assert_eq!(c.units, "mV");
    assert_eq!(c.adc_res, 11);
    assert_eq!(c.adc_zero, 0);
    assert_eq!(c.init_value, 0);
    assert_eq!(c.checksum, 0);
    assert_eq!(c.block_size, 0);
    assert_eq!(c.sig_name, "record");
}

#[test]
fn channel_line_format_parts_and_signal_name() {
    let c = decode_channel("data.dat 16x2:3+512 1000.5(-20)/uV 12 -5 7 -300 0 ECG lead II  ", 2).unwrap();
    assert_eq!(c.fmt, 16);
    assert_eq!(c.samps_per_frame, 2);
    assert_eq!(c.skew, 3);
    assert_eq!(c.byte_offset, 512);
    assert_eq!(c.adc_gain, Decimal { negative: false, whole: 1000, fraction: 5, fraction_digits: 1 });
    assert_eq!(c.baseline, -20);
    assert_eq!(c.units, "uV");
    assert_eq!(c.adc_res, 12);
    assert_eq!(c.adc_zero, -5);
    assert_eq!(c.init_value, 7);
    assert_eq!(c.checksum, -300);
    assert_eq!(c.block_size, 0);
    assert_eq!(c.sig_name, "ECG lead II");
}

#[test]
fn channel_gain_absent_is_default() {
    let c = decode_channel("100.dat 16", 1).unwrap();
    assert_eq!(c.adc_gain, whole(200));
    assert_eq!(c.baseline, 0);
    assert_eq!(c.units, "");
    let c = decode_channel("100.dat 16 /mV", 1).unwrap();
    assert_eq!(c.adc_gain, whole(200));
    assert_eq!(c.units, "mV");
}

#[test]
fn channel_gain_written_is_kept() {
    let c = decode_channel("100.dat 16 187", 1).unwrap();
    assert_eq!(c.adc_gain, whole(187));
}

#[test]
fn channel_samps_per_frame_absent_is_one() {
    let c = decode_channel("100.dat 16+24", 1).unwrap();
    assert_eq!(c.samps_per_frame, 1);
    assert_eq!(c.byte_offset, 24);
}

#[test]
fn channel_line_errors() {
    assert_eq!(
        decode_channel("", 3),
        Err(HeaderError::MissingRequiredField { line: 3, field: Field::FileName })
    );
    assert_eq!(
        decode_channel("100.dat", 3),
        Err(HeaderError::MissingRequiredField { line: 3, field: Field::Format })
    );
    assert_eq!(
        decode_channel("100.dat abc", 1),
        Err(HeaderError::UnparsableNumber { line: 1, field: Field::Format })
    );
    assert_eq!(
        decode_channel("100.dat 16x0", 1),
        Err(HeaderError::UnparsableNumber { line: 1, field: Field::SampsPerFrame })
    );
    assert_eq!(
        decode_channel("100.dat 16 200(0/mV", 1),
        Err(HeaderError::MalformedInput { line: 1 })
    );
    assert_eq!(
        decode_channel("100.dat 16 200(x)/mV", 1),
        Err(HeaderError::UnparsableNumber { line: 1, field: Field::Baseline })
    );
    assert_eq!(
        decode_channel("100.dat 16 2e3", 1),
        Err(HeaderError::UnparsableNumber { line: 1, field: Field::AdcGain })
    );
    assert_eq!(
        decode_channel("100.dat 16 200 eleven", 1),
        Err(HeaderError::UnparsableNumber { line: 1, field: Field::AdcResolution })
    );
}

#[test]
fn channels_are_stored_in_order() {
    let mut h = WFDBHeader::build_general_header("100 2 360 650000").unwrap();
    let lines = vec!["100.dat 212 200 11 1024 995 -22131 0 MLII", "100.dat 212 200 11 1024 1011 20052 0 V5"];
    assert_eq!(h.build_channel_header(lines), Ok(()));
    assert_eq!(h.channels.len(), 2);
    assert_eq!(h.channels[0].sig_name, "MLII");
    assert_eq!(h.channels[0].fmt, 212);
    assert_eq!(h.channels[0].adc_zero, 1024);
    assert_eq!(h.channels[1].sig_name, "V5");
    assert_eq!(h.channels[1].checksum, 20052);
}

#[test]
fn channel_count_mismatch() {
    let mut h = WFDBHeader::build_general_header("100 2").unwrap();
    assert_eq!(
        h.build_channel_header(vec!["100.dat 16"]),
        Err(HeaderError::CountMismatch { declared: 2, supplied: 1 })
    );
    assert!(h.channels.is_empty());
    let mut z = WFDBHeader::build_general_header("empty 0").unwrap();
    assert_eq!(
        z.build_channel_header(vec!["100.dat 16"]),
        Err(HeaderError::CountMismatch { declared: 0, supplied: 1 })
    );
    assert_eq!(z.build_channel_header(vec![]), Ok(()));
}

#[test]
fn channel_error_names_its_line_and_keeps_header() {
    let mut h = WFDBHeader::build_general_header("100 2").unwrap();
    assert_eq!(
        h.build_channel_header(vec!["100.dat 16", "100.dat sixteen"]),
        Err(HeaderError::UnparsableNumber { line: 2, field: Field::Format })
    );
    assert!(h.channels.is_empty());
}

#[test]
fn record_name_and_count_survive_optional_fields() {
    let h = WFDBHeader::build_general_header("rec_7 12 500/10(3) 100 08:00:00 02/03/2004").unwrap();
    assert_eq!(h.record_name, "rec_7");
    assert_eq!(h.n_sig, 12);
    let h = WFDBHeader::build_general_header("rec_7 12").unwrap();
    assert_eq!(h.record_name, "rec_7");
    assert_eq!(h.n_sig, 12);
}
