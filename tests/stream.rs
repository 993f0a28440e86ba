use rmonitor::codec::{Decoded, RMonitorCodecError};
use rmonitor::protocol::{Record, RecordError};
use rmonitor::RMonitorDecoder;
use tokio_util::bytes::BytesMut;
use tokio_util::codec::LinesCodecError;

const FEED: &str = "$I,\"16:36:08.000\",\"12 jan 01\"\r\n\
     $F,14,\"00:12:45\",\"13:34:23\",\"00:09:47\",\"Green \"\r\n\
     $A,\"1234BE\",\"12X\",52474,\"John\",\"Johnson\",\"USA\",5\n\
     noise after a late attach\r\n\
     \r\n\
     $G,3,\"1234BE\",,\"01:12:47.872\"\r\n\
     $ZZZ,5,\"x\"\r\n\
     $J,\"1234BE\",\"00:02:03.826\",\"01:42:17.672\"\r\n";

/// Runs the decoder until it asks for more input or fails.
fn drain(decoder: &mut RMonitorDecoder, bytes: &mut BytesMut, out: &mut Vec<String>) -> bool {
    loop {
        match decoder.decode_step(bytes) {
            Ok(Decoded::NeedMore) => return true,
            Ok(Decoded::Record(r)) => out.push(format!("{:?}", r)),
            Ok(_) => {}
            Err(_) => return false,
        }
    }
}

fn feed_in_pieces(data: &[u8], cuts: &[usize]) -> (Vec<String>, usize) {
    let mut decoder = RMonitorDecoder::new_with_max_length(2048);
    let mut bytes = BytesMut::new();
    let mut out = Vec::new();
    let mut from = 0;
    for &cut in cuts.iter().chain(std::iter::once(&data.len())) {
        bytes.extend_from_slice(&data[from..cut]);
        from = cut;
        assert!(drain(&mut decoder, &mut bytes, &mut out));
    }
    (out, bytes.len())
}

#[test]
fn chunked_feed_yields_same_records() {
    let data = FEED.as_bytes();
    let (whole, left) = feed_in_pieces(data, &[]);
    assert_eq!(whole.len(), 5);
    assert_eq!(left, 0);
    let every_byte: Vec<usize> = (1..data.len()).collect();
    assert_eq!(feed_in_pieces(data, &every_byte), (whole.clone(), 0));
    for cut in [1, 2, 30, 31, 32, 33, 100, data.len() - 1] {
        assert_eq!(feed_in_pieces(data, &[cut]), (whole.clone(), 0));
        assert_eq!(feed_in_pieces(data, &[cut / 2, cut]), (whole.clone(), 0));
    }
}

#[test]
fn partial_line_stays_buffered() {
    let mut decoder = RMonitorDecoder::new_with_max_length(2048);
    let mut bytes = BytesMut::from("$B,5,\"Friday");
    assert!(matches!(decoder.decode_step(&mut bytes), Ok(Decoded::NeedMore)));
    assert_eq!(bytes.len(), 12);
    bytes.extend_from_slice(b" free practice\"\n$C,5");
    match decoder.decode(&mut bytes) {
        Ok(Some(Record::Run(run))) => assert_eq!(run.description, "Friday free practice"),
        other => panic!("unexpected {:?}", other),
    }
    assert_eq!(&bytes[..], b"$C,5");
    assert!(matches!(decoder.decode(&mut bytes), Ok(None)));
    assert_eq!(&bytes[..], b"$C,5");
}

#[test]
fn mixed_buffer_skips_bad_line_and_reports_it() {
    let mut decoder = RMonitorDecoder::new_with_max_length(2048);
    let mut bytes = BytesMut::from(
        "$F,9999,\"00:00:00\",\"14:09:52\",\"00:59:59\",\"      \"\r\n$F,invalid,data,here\r\n$B,5,\"Friday free practice\"\r\n",
    );
    let mut records = Vec::new();
    let mut skipped = Vec::new();
    loop {
        match decoder.decode_step(&mut bytes) {
            Ok(Decoded::NeedMore) => break,
            Ok(Decoded::Record(r)) => records.push(r),
            Ok(Decoded::Skipped { line, source }) => skipped.push((line, source)),
            Ok(Decoded::Ignored) => panic!("nothing here is noise"),
            Err(e) => panic!("unexpected {:?}", e),
        }
    }
    assert_eq!(bytes.len(), 0);
    assert_eq!(records.len(), 2);
    assert!(matches!(records[0], Record::Heartbeat(_)));
    assert!(matches!(records[1], Record::Run(_)));
    assert_eq!(skipped.len(), 1);
    assert_eq!(skipped[0].0, "$F,invalid,data,here");
    assert!(matches!(skipped[0].1, RecordError::MalformedRecord));
}

#[test]
fn noise_and_empty_lines_are_ignored() {
    let mut decoder = RMonitorDecoder::new();
    let mut bytes = BytesMut::from("\r\nF,1,2\n$B,5,\"x\"\n");
    assert!(matches!(decoder.decode_step(&mut bytes), Ok(Decoded::Ignored)));
    assert!(matches!(decoder.decode_step(&mut bytes), Ok(Decoded::Ignored)));
    assert!(matches!(decoder.decode_step(&mut bytes), Ok(Decoded::Record(Record::Run(_)))));
    assert!(bytes.is_empty());
}

#[test]
fn over_long_line_is_fatal_and_yields_nothing() {
    let mut decoder = RMonitorDecoder::new_with_max_length(16);
    let mut bytes = BytesMut::from("$E,\"TRACKNAME\",\"Indianapolis Motor Speedway\"");
    match decoder.decode(&mut bytes) {
        Err(RMonitorCodecError::LinesCodec(LinesCodecError::MaxLineLengthExceeded)) => {}
        other => panic!("unexpected {:?}", other),
    }
    // Called again anyway, the rest of the long line is dropped up to its end
    bytes.extend_from_slice(b" and more\n$B,5,\"x\"\n");
    match decoder.decode(&mut bytes) {
        Ok(Some(Record::Run(run))) => assert_eq!(run.number, 5),
        other => panic!("unexpected {:?}", other),
    }
    assert!(bytes.is_empty());
}

#[test]
fn line_at_the_limit_is_accepted() {
    // 16 bytes before the newline
    let mut decoder = RMonitorDecoder::new_with_max_length(16);
    let mut bytes = BytesMut::from("$B,5,\"abcdefghi\"\n");
    assert!(matches!(decoder.decode(&mut bytes), Ok(Some(Record::Run(_)))));
    let mut decoder = RMonitorDecoder::new_with_max_length(15);
    let mut bytes = BytesMut::from("$B,5,\"abcdefghi\"\n");
    assert!(matches!(
        decoder.decode(&mut bytes),
        Err(RMonitorCodecError::LinesCodec(LinesCodecError::MaxLineLengthExceeded))
    ));
}

#[test]
fn invalid_utf8_is_a_framing_error() {
    let mut decoder = RMonitorDecoder::default();
    let mut bytes = BytesMut::from(&b"$E,\"\xff\",\"x\"\n$B,5,\"x\"\n"[..]);
    assert!(matches!(
        decoder.decode(&mut bytes),
        Err(RMonitorCodecError::LinesCodec(LinesCodecError::Io(_)))
    ));
    assert!(matches!(decoder.decode(&mut bytes), Ok(Some(Record::Run(_)))));
}

#[test]
fn unbounded_decoder_takes_long_lines() {
    let mut decoder = RMonitorDecoder::new();
    let long = "x".repeat(10_000);
    let mut bytes = BytesMut::from(format!("$E,\"k\",\"{}\"\n", long).as_str());
    match decoder.decode(&mut bytes) {
        Ok(Some(Record::Setting(s))) => assert_eq!(s.value.len(), 10_000),
        other => panic!("unexpected {:?}", other),
    }
}
