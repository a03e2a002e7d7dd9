use wfdb::signal::set_u16_le;
use wfdb::signal::SampleFormat;
use wfdb::signal::SignalError;
use wfdb::signal::WFDBSignal;

#[test]
fn pair_is_little_endian() {
    assert_eq!(set_u16_le(&[0x01, 0x02]), 0x0201);
    assert_eq!(set_u16_le(&[0x01, 0x02]), 513);
    assert_eq!(set_u16_le(&[0xff, 0xff]), 0xffff);
    assert_eq!(set_u16_le(&[0x00, 0x80]), 0x8000);
}

#[test]
fn single_sample_from_bytes() {
    let s = WFDBSignal::from_bytes(&vec![0x01, 0x02], 1, SampleFormat::Le16).unwrap();
    assert_eq!(s.signal, vec![513]);
}

#[test]
fn several_samples_and_extra_bytes() {
    let s = WFDBSignal::from_bytes(&vec![0x10, 0x00, 0x00, 0x01, 0x34, 0x12, 0x99], 3, SampleFormat::Le16).unwrap();
    assert_eq!(s.signal, vec![0x0010, 0x0100, 0x1234]);
    let none = WFDBSignal::from_bytes(&vec![], 0, SampleFormat::Le16).unwrap();
    assert!(none.signal.is_empty());
}

#[test]
fn truncated_data_is_an_error() {
    let bytes = vec![1, 2, 3, 4, 5, 6];
    assert_eq!(
        WFDBSignal::from_bytes(&bytes, 5, SampleFormat::Le16),
        Err(SignalError::TruncatedData { requested: 5, available: 6 })
    );
    assert_eq!(
        WFDBSignal::from_bytes(&vec![1, 2, 3], 2, SampleFormat::Le16),
        Err(SignalError::TruncatedData { requested: 2, available: 3 })
    );
}

#[test]
fn format_codes() {
    assert_eq!(SampleFormat::from_code(16), Some(SampleFormat::Le16));
    assert_eq!(SampleFormat::from_code(212), None);
    assert_eq!(SampleFormat::Le16.bytes_per_sample(), 2);
}
