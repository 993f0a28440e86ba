use rmonitor::codec::RMonitorCodecError;
use rmonitor::protocol::Record;
use rmonitor::RMonitorDecoder;
use tokio_util::bytes::BytesMut;

fn consume(
    decoder: &mut RMonitorDecoder,
    bytes: &mut BytesMut,
) -> Vec<Result<Option<Record>, RMonitorCodecError>> {
    let mut result = vec![];
    let mut consecutive_none = 0;
    loop {
        match decoder.decode(bytes) {
            Ok(None) => {
                consecutive_none += 1;
                // If we get two consecutive None results, assume we're done
                // (one for skipped record, one for no more complete lines)
                if consecutive_none > 1 || bytes.is_empty() {
                    break;
                }
            }
            Ok(Some(record)) => {
                consecutive_none = 0;
                result.push(Ok(Some(record)));
            }
            Err(e) => {
                result.push(Err(e));
                break;
            }
        }
    }
    result
}

#[test]
fn test_decodes_single_line() {
    let mut decoder = RMonitorDecoder::new_with_max_length(2048);
    let mut bytes =
        BytesMut::from("$F,9999,\"00:00:00\",\"14:09:52\",\"00:59:59\",\"      \"\r\n");

    let result = consume(&mut decoder, &mut bytes);

    assert_eq!(0, bytes.len());
    assert_eq!(1, result.len());

    assert!(matches!(result[0], Ok(Some(Record::Heartbeat(_)))));
}

#[test]
fn test_skips_invalid_records() {
    let mut decoder = RMonitorDecoder::new_with_max_length(2048);
    // Create a mix of valid and invalid records
    let mut bytes = BytesMut::from(
        "$F,invalid,data,here\r\n$F,9999,\"00:00:00\",\"14:09:52\",\"00:59:59\",\"      \"\r\n$UNKNOWN,some,bad,record\r\n$B,5,\"Friday free practice\"\r\n"
    );

    let result = consume(&mut decoder, &mut bytes);

    println!("Remaining bytes: {}", bytes.len());
    println!("Results: {:?}", result);

    // All bytes should be consumed
    assert_eq!(0, bytes.len());

    // We should get 2 valid records (the valid heartbeat and run record)
    // The invalid records should be skipped (returning Ok(None))
    let valid_records: Vec<_> = result
        .into_iter()
        .filter_map(|r| r.ok().flatten())
        .collect();

    assert_eq!(2, valid_records.len());
    assert!(matches!(valid_records[0], Record::Heartbeat(_)));
    assert!(matches!(valid_records[1], Record::Run(_)));
}
