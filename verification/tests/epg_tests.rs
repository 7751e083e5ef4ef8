use std::io::Read;

use m3u_filter::epg::{shift_epg, shift_epg_document, shift_programme_attribute, time_correct};

#[test]
fn time_is_moved_forward_and_back() {
    assert_eq!(time_correct("20240101120000 +0000", 60), "20240101130000 +0000");
    assert_eq!(time_correct("20240101003000 +0100", -45), "20231231234500 +0100");
    assert_eq!(time_correct("20240229235900 +0000", 2), "20240301000100 +0000");
}

#[test]
fn malformed_times_are_kept() {
    assert_eq!(time_correct("20240101120000", 60), "20240101120000");
    assert_eq!(time_correct("20240101120000 +0000 x", 60), "20240101120000 +0000 x");
    assert_eq!(time_correct("2024-01-01 +0000", 60), "2024-01-01 +0000");
    assert_eq!(time_correct("", 60), "");
}

#[test]
fn leap_seconds_move_as_chrono_moves_them() {
    assert_eq!(time_correct("20161231235960 +0000", 60), "20170101005959 +0000");
    assert_eq!(time_correct("20161231235960 +0000", -60), "20161231230000 +0000");
    assert_eq!(time_correct("20161231235960 +0000", 0), "20161231235960 +0000");
}

#[test]
fn moves_out_of_range_keep_the_time() {
    assert_eq!(time_correct("20240101120000 +0000", i64::MAX), "20240101120000 +0000");
}

#[test]
fn only_programme_start_and_stop_are_moved() {
    assert_eq!(
        shift_programme_attribute(b"programme", b"start", "20240101120000 +0000", 90),
        Some("20240101133000 +0000".to_string())
    );
    assert_eq!(
        shift_programme_attribute(b"programme", b"stop", "20240101120000 +0000", -60),
        Some("20240101110000 +0000".to_string())
    );
    assert_eq!(shift_programme_attribute(b"programme", b"channel", "x", 90), None);
    assert_eq!(shift_programme_attribute(b"channel", b"start", "20240101120000 +0000", 90), None);
}

fn guide() -> String {
    [
        "<?xml version=\"1.0\" encoding=\"utf-8\"?>\n",
        "<tv generator-info-name='x'><channel id=\"a\"><display-name>A &amp; B</display-name></channel>\n",
        "<programme start=\"20240101120000 +0000\" stop=\"20240101130000 +0000\" channel=\"a\"><title>T</title></programme>\n",
        "<programme  channel='b'  start=\"20240101235000 &amp;x\" stop=\"bad\"><title>U</title></programme>\n",
        "<programme start=\"20240101120000 +0000\"/>\n",
        "<!-- note --></tv>"
    ]
    .concat()
}

fn shifted() -> String {
    [
        "<?xml version=\"1.0\" encoding=\"utf-8\"?>\n",
        "<tv generator-info-name='x'><channel id=\"a\"><display-name>A &amp; B</display-name></channel>\n",
        "<programme start=\"20240101130000 +0000\" stop=\"20240101140000 +0000\" channel=\"a\"><title>T</title></programme>\n",
        "<programme channel=\"b\" start=\"20240102005000 &amp;x\" stop=\"bad\"><title>U</title></programme>\n",
        "<programme start=\"20240101120000 +0000\"/>\n",
        "<!-- note --></tv>"
    ]
    .concat()
}

#[test]
fn guide_programmes_are_moved_and_the_rest_is_kept() {
    let out = shift_epg_document(guide().as_bytes(), 60);
    assert_eq!(String::from_utf8(out).unwrap(), shifted());
}

#[test]
fn shifted_guide_is_gzip_compressed() {
    let compressed = shift_epg(guide().as_bytes(), 60);
    let mut decoder = flate2::read::GzDecoder::new(compressed.as_slice());
    let mut text = String::new();
    decoder.read_to_string(&mut text).unwrap();
    assert_eq!(text, shifted());
}

#[test]
fn empty_guide_stays_empty() {
    assert!(shift_epg_document(b"", 30).is_empty());
}
