use std::collections::VecDeque;

use vector_segment::sparse_reader::{
    parse_bucket_offset, ParsedEntry, PipelineDriver, Processed, ReadError, ReadResult, Request,
    Scheduled,
};

#[test]
fn bucket_offsets_are_little_endian() {
    assert_eq!(parse_bucket_offset(&[1, 2, 0, 0, 0, 0, 0, 0]).unwrap(), 513);
    assert_eq!(
        parse_bucket_offset(&0x0102_0304_0506_0708u64.to_le_bytes()).unwrap(),
        0x0102_0304_0506_0708
    );
    for size in [0, 7, 9] {
        let error = parse_bucket_offset(&vec![0; size]).unwrap_err();
        assert_eq!(error.message, "can't read bucket offset");
    }
}

/// An entry is the length of its key, the key, the length of its value, and the value.
fn parse(buf: &Vec<u8>) -> ReadResult<ParsedEntry> {
    let mut parsed = ParsedEntry {
        key: None,
        satisfies_kind: false,
    };
    if buf.is_empty() {
        return Ok(parsed);
    }
    if buf[0] == 255 {
        return Err(ReadError {
            message: "bad entry".to_owned(),
        });
    }
    let key_end = 1 + buf[0] as usize;
    if buf.len() < key_end {
        return Ok(parsed);
    }
    parsed.key = Some(buf[1..key_end].to_vec());
    if buf.len() > key_end && buf.len() > key_end + buf[key_end] as usize {
        parsed.satisfies_kind = true;
    }
    Ok(parsed)
}

/// A file of a table of offsets and of entries.
fn file(entries: &[(&str, usize)]) -> (Vec<u8>, u64, Vec<u64>) {
    let mut offsets = Vec::new();
    let mut body = Vec::new();
    for (key, size) in entries {
        offsets.push(body.len() as u64);
        body.push(key.len() as u8);
        body.extend_from_slice(key.as_bytes());
        body.push(*size as u8);
        body.extend(vec![7; *size]);
    }
    let mut bytes = Vec::new();
    for offset in &offsets {
        bytes.extend_from_slice(&offset.to_le_bytes());
    }
    let start = bytes.len() as u64;
    bytes.extend(body);
    (bytes, start, offsets)
}

fn read_all(
    driver: &mut PipelineDriver<usize>,
    bytes: &[u8],
    requests: Vec<(usize, Request)>,
) -> ReadResult<Vec<(usize, Option<Vec<u8>>)>> {
    let mut requests: VecDeque<(usize, Request)> = requests.into();
    let mut results = Vec::new();
    loop {
        let Scheduled { misses, next } = driver.schedule_next_entry(&mut requests);
        results.extend(misses.into_iter().map(|id| (id, None)));
        let Some((entry, range)) = next? else {
            return Ok(results);
        };
        let data = &bytes[range.start as usize..range.end as usize];
        match driver.process(entry, data, &parse)? {
            Processed::Missing(id) => results.push((id, None)),
            Processed::Found(id, buf) => results.push((id, Some(buf))),
            Processed::Pending => {}
        }
    }
}

fn key(text: &str, hash: Option<u64>) -> Request {
    Request::Key {
        requested_key: text.as_bytes().to_vec(),
        hash,
    }
}

#[test]
fn entries_are_found_however_small_the_reads_are() {
    let (bytes, start, offsets) = file(&[("one", 40), ("four", 3), ("fifteen", 100)]);
    for read_size in [1, 4, 200] {
        let mut driver = PipelineDriver::new(start, 0, bytes.len() as u64, read_size, 2);
        let results = read_all(
            &mut driver,
            &bytes,
            vec![
                (1, key("one", Some(0))),
                (2, key("none", None)),
                (3, key("other", Some(1))),
                (4, Request::Offset(offsets[2])),
                (
                    5,
                    Request::KeyAtOffset {
                        requested_key: b"four".to_vec(),
                        offset: offsets[1],
                        length: offsets[2] - offsets[1],
                    },
                ),
            ],
        )
        .unwrap();
        let mut found: Vec<(usize, bool)> = results.iter().map(|r| (r.0, r.1.is_some())).collect();
        found.sort();
        assert_eq!(
            found,
            vec![(1, true), (2, false), (3, false), (4, true), (5, true)]
        );
        for (id, buf) in results {
            if id == 4 {
                assert_eq!(buf.unwrap()[..8], [7, b'f', b'i', b'f', b't', b'e', b'e', b'n']);
            }
        }
    }
}

fn fault(driver: &mut PipelineDriver<usize>, bytes: &[u8], request: Request) -> String {
    read_all(driver, bytes, vec![(0, request)]).unwrap_err().message
}

#[test]
fn faults_of_a_read_are_told_apart() {
    let (bytes, start, offsets) = file(&[("one", 40), ("two", 40)]);
    let len = bytes.len() as u64;
    let driver = || PipelineDriver::new(start, 8, len, 16, 4);
    assert_eq!(
        fault(&mut driver(), &bytes, Request::Offset(u64::MAX)),
        "persisted-hashmap entry offset overflow"
    );
    assert_eq!(
        fault(&mut driver(), &bytes, Request::Offset(u64::MAX - start)),
        "persisted-hashmap entry read length overflow"
    );
    assert_eq!(
        fault(&mut driver(), &bytes, key("one", Some(u64::MAX))),
        "persisted-hashmap bucket offset overflow"
    );
    assert_eq!(
        fault(&mut driver(), &bytes, key("one", Some(u64::MAX / 8))),
        "persisted-hashmap bucket position overflow"
    );
    assert_eq!(
        fault(&mut driver(), &bytes, key("one", Some(u64::MAX / 8 - 1))),
        "persisted-hashmap bucket read overflow"
    );
    assert_eq!(
        fault(&mut driver(), &bytes, Request::Offset(len)),
        "unexpected eof"
    );
    let exact = |offset, length| Request::KeyAtOffset {
        requested_key: b"one".to_vec(),
        offset,
        length,
    };
    assert_eq!(
        fault(&mut driver(), &bytes, exact(u64::MAX, 1)),
        "persisted-hashmap exact entry offset overflow"
    );
    assert_eq!(
        fault(&mut driver(), &bytes, exact(0, u64::MAX)),
        "persisted-hashmap exact entry range overflow"
    );
    // The range ends inside the entry.
    assert_eq!(
        fault(&mut driver(), &bytes, exact(offsets[0], 20)),
        "persisted-hashmap entry is truncated within its exact byte range"
    );
    assert_eq!(
        fault(&mut driver(), &bytes[..], key("one", Some(len))),
        "can't read bucket offset"
    );
    let mut broken = bytes.clone();
    broken[start as usize] = 255;
    assert_eq!(
        fault(&mut driver(), &broken, Request::Offset(0)),
        "bad entry"
    );
}
