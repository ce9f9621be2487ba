use raio::sample::{after_read, sample_payload};
use raio::EventControl;

#[test]
fn the_sample_is_lines_of_letters() {
    assert_eq!(sample_payload(0), b"\n".to_vec());
    assert_eq!(sample_payload(1), b"\n".to_vec());
    assert_eq!(sample_payload(4), b"BCD\n".to_vec());
    assert_eq!(
        sample_payload(54),
        b"BCDEFGHIJKLMNOPQRSTUVWXYZ\nABCDEFGHIJKLMNOPQRSTUVWXYZ\nAB\n".to_vec()
    );
    assert_eq!(sample_payload(1024 * 1024).len(), 1_048_575 + 40_329 + 1);
}

#[test]
fn reading_goes_on_while_there_are_bytes() {
    assert_eq!(after_read(Some(1)), EventControl::KEEP);
    assert_eq!(after_read(Some(0)), EventControl::DELETE);
    assert_eq!(after_read(None), EventControl::DELETE);
}
