use dnh_extract::archive::{limit_for, transfer, BUFFER_SIZE};
use dnh_extract::inflate::inflate;
use dnh_extract::output::Output;
use dnh_extract::report::{ExtractError, Warning};
use libflate::zlib::Encoder;
use std::io::Write;

fn fresh() -> Output {
    Output::for_path("t", &Vec::new())
}

fn pattern(len: usize) -> Vec<u8> {
    (0..len).map(|i| (i * 7 + i / 251) as u8).collect()
}

fn zlib(data: &[u8]) -> Vec<u8> {
    let mut encoder = Encoder::new(Vec::new()).unwrap();
    encoder.write_all(data).unwrap();
    encoder.finish().into_result().unwrap()
}

fn check_exact(len: usize) {
    let source = pattern(len);
    let mut out = fresh();
    transfer(&mut out, "", "entry", &source, len as u64);
    assert_eq!(out.write_count(), 1);
    assert_eq!(out.files()[0].path, "t_extracted/entry");
    assert_eq!(out.files()[0].data, source);
    assert!(out.warnings().is_empty());
}

fn check_short(len: usize, missing: usize) {
    let source = pattern(len - missing);
    let mut out = fresh();
    transfer(&mut out, "", "entry", &source, len as u64);
    assert_eq!(out.files()[0].data, source);
    assert_eq!(
        out.warnings(),
        &vec![Warning::EndedPrematurely {
            name: "entry".to_string(),
            expected: len as u64,
            got: (len - missing) as u64,
        }]
    );
}

fn check_long(len: usize, surplus: usize) {
    let source = pattern(len + surplus);
    let mut out = fresh();
    transfer(&mut out, "", "entry", &source, len as u64);
    assert_eq!(out.files()[0].data, &source[..len]);
    assert_eq!(
        out.warnings(),
        &vec![Warning::Truncated { name: "entry".to_string(), size: len as u64 }]
    );
}

#[test]
fn buffer_is_64_kib() {
    assert_eq!(BUFFER_SIZE, 65536);
}

#[test]
fn exact_payload_is_copied_without_warning() {
    check_exact(0);
    check_exact(1);
    check_exact(65535);
    check_exact(65536);
    check_exact(65537);
    check_exact(3 * 65536 + 5);
}

#[test]
fn short_payload_is_kept_with_a_warning() {
    check_short(1, 1);
    check_short(5, 2);
    check_short(65535, 1);
    check_short(65536, 1);
    check_short(65536, 65536);
    check_short(65537, 1);
    check_short(65537, 2);
    check_short(200000, 100000);
}

#[test]
fn long_payload_is_truncated_with_a_warning() {
    check_long(0, 1);
    check_long(0, 100);
    check_long(3, 1);
    check_long(65535, 1);
    check_long(65535, 2);
    check_long(65536, 1);
    check_long(65537, 70000);
}

#[test]
fn run_goes_on_after_a_warning() {
    let mut out = fresh();
    transfer(&mut out, "d", "short", b"ab", 5);
    transfer(&mut out, "d", "long", b"abcdef", 5);
    transfer(&mut out, "d", "exact", b"abc", 3);
    assert_eq!(out.write_count(), 3);
    assert_eq!(out.files()[0].data, b"ab");
    assert_eq!(out.files()[1].data, b"abcde");
    assert_eq!(out.files()[2].data, b"abc");
    assert_eq!(out.files()[2].path, "t_extracted/d/exact");
    assert_eq!(
        out.warnings(),
        &vec![
            Warning::EndedPrematurely { name: "short".to_string(), expected: 5, got: 2 },
            Warning::Truncated { name: "long".to_string(), size: 5 },
        ]
    );
}

#[test]
fn name_warnings_come_before_size_warnings() {
    let mut out = fresh();
    transfer(&mut out, "", "a?", b"xyz", 2);
    assert_eq!(out.files()[0].path, "t_extracted/a_");
    assert_eq!(out.files()[0].data, b"xy");
    assert_eq!(
        out.warnings(),
        &vec![
            Warning::InvalidFileName { path: "a?".to_string() },
            Warning::Renamed { path: "a?".to_string(), output: "a_".to_string() },
            Warning::Truncated { name: "a?".to_string(), size: 2 },
        ]
    );
}

#[test]
fn probe_limit_is_one_more() {
    assert_eq!(limit_for(0), 1);
    assert_eq!(limit_for(5), 6);
    assert_eq!(limit_for(u32::MAX as u64), 0x1_0000_0000);
    assert_eq!(limit_for(u64::MAX - 1), u64::MAX);
    assert_eq!(limit_for(u64::MAX), u64::MAX);
}

#[test]
fn zlib_stream_is_inflated() {
    let data = pattern(100000);
    let stream = zlib(&data);
    assert_ne!(stream, data);
    assert_eq!(inflate(&stream, u64::MAX), Ok(data.clone()));
    assert_eq!(inflate(&stream, 100000), Ok(data.clone()));
    assert_eq!(inflate(&stream, 100001), Ok(data.clone()));
    assert_eq!(inflate(&zlib(b""), 10), Ok(Vec::new()));
}

#[test]
fn known_zlib_stream_is_inflated() {
    let stream = [
        120u8, 156, 243, 72, 205, 201, 201, 87, 8, 207, 47, 202, 73, 81, 4, 0, 28, 73, 4, 62,
    ];
    assert_eq!(inflate(&stream, 100), Ok(b"Hello World!".to_vec()));
}

#[test]
fn inflate_stops_at_the_limit() {
    let data = pattern(100000);
    let stream = zlib(&data);
    assert_eq!(inflate(&stream, 0), Ok(Vec::new()));
    assert_eq!(inflate(&stream, 1), Ok(data[..1].to_vec()));
    assert_eq!(inflate(&stream, 70000), Ok(data[..70000].to_vec()));
}

#[test]
fn corrupt_zlib_stream_is_rejected() {
    assert_eq!(inflate(b"", 10), Err(ExtractError::CorruptStream));
    assert_eq!(inflate(b"not a zlib stream", 10), Err(ExtractError::CorruptStream));
    let mut stream = zlib(b"some payload that is long enough");
    let last = stream.len() - 1;
    stream[last] ^= 0xff;
    assert_eq!(inflate(&stream, u64::MAX), Err(ExtractError::CorruptStream));
    let stream = zlib(&pattern(1000));
    assert_eq!(inflate(&stream[..stream.len() / 2], u64::MAX), Err(ExtractError::CorruptStream));
}
