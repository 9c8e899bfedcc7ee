use salieri::stream_parser::ChatStreamParser;

fn drain_records(p: &mut ChatStreamParser) -> Vec<Vec<u8>> {
    let mut out = Vec::new();
    while let Some(rec) = p.next_record() {
        out.push(rec);
    }
    out
}

fn records_for_chunks(chunks: &[&[u8]]) -> Vec<Vec<u8>> {
    let mut parser = ChatStreamParser::new();
    let mut out = Vec::new();
    for chunk in chunks {
        parser.add_chunk(chunk);
        out.extend(drain_records(&mut parser));
    }
    out
}

#[test]
fn two_records_split_mid_prefix() {
    let records = records_for_chunks(&[b"dat", b"a: {\"a\":1}\n", b"data: {\"b\":2}\n"]);
    assert_eq!(records, vec![b"{\"a\":1}".to_vec(), b"{\"b\":2}".to_vec()]);
}

#[test]
fn chunking_is_irrelevant() {
    // The first payload carries a two-byte character, so the cuts below
    // include splits inside it.
    let stream: &[u8] = b"data: {\"x\":\"caf\xc3\xa9\"}\n\ndata: {\"y\":22}\n\ndata: [DONE]\n\n";
    let whole = records_for_chunks(&[stream]);
    assert_eq!(
        whole,
        vec![
            b"{\"x\":\"caf\xc3\xa9\"}".to_vec(),
            b"{\"y\":22}".to_vec(),
            b"[DONE]".to_vec()
        ]
    );
    // Split inside the prefix, inside the payload (including mid-character)
    // and inside the terminator.
    for cut1 in 0..stream.len() {
        for cut2 in cut1..stream.len() {
            let split = records_for_chunks(&[
                &stream[..cut1],
                &stream[cut1..cut2],
                &stream[cut2..],
            ]);
            assert_eq!(split, whole, "cuts at {cut1} and {cut2}");
        }
    }
}

#[test]
fn one_byte_at_a_time() {
    let stream = b"data: {\"x\":1}\n\ndata: {\"y\":2}\n\n";
    let whole = records_for_chunks(&[stream]);
    let bytes: Vec<&[u8]> = stream.chunks(1).collect();
    assert_eq!(records_for_chunks(&bytes), whole);
}

#[test]
fn incomplete_record_stays_buffered() {
    let mut parser = ChatStreamParser::new();
    parser.add_chunk(b"data: {\"a\":");
    assert!(parser.next_record().is_none());
    parser.add_chunk(b"1}");
    assert!(parser.next_record().is_none());
    parser.add_chunk(b"\n");
    assert_eq!(parser.next_record(), Some(b"{\"a\":1}".to_vec()));
}

#[test]
fn no_prefix_yields_nothing() {
    let mut parser = ChatStreamParser::new();
    parser.add_chunk(b"noise without any marker\n\n");
    assert!(parser.next_record().is_none());
}

#[test]
fn payload_is_trimmed() {
    let mut parser = ChatStreamParser::new();
    parser.add_chunk(b"data:   \t spaced \r\n");
    assert_eq!(parser.next_record(), Some(b"spaced".to_vec()));
}

#[test]
fn split_inside_multibyte_character() {
    // The payload ends in a two-byte character; the chunk boundary falls
    // between its two bytes, so neither chunk is valid text on its own.
    let stream: &[u8] = b"data: caf\xc3\xa9\n";
    let mut parser = ChatStreamParser::new();
    parser.add_chunk(&stream[..10]);
    assert!(parser.next_record().is_none());
    parser.add_chunk(&stream[10..]);
    assert_eq!(parser.next_record(), Some(b"caf\xc3\xa9".to_vec()));
}

#[test]
fn payload_bytes_are_kept_verbatim() {
    // Bytes that are not valid text are payload like any other: the record
    // comes out unchanged, and judging it is the translator's business.
    let mut parser = ChatStreamParser::new();
    parser.add_chunk(&[0xff, 0xfe]);
    parser.add_chunk(b"data: a\xffb\ndata: ok\n");
    assert_eq!(parser.next_record(), Some(b"a\xffb".to_vec()));
    assert_eq!(parser.next_record(), Some(b"ok".to_vec()));
    assert!(parser.next_record().is_none());
}

#[test]
fn empty_payload_record() {
    let mut parser = ChatStreamParser::new();
    parser.add_chunk(b"data:\ndata: x\n");
    assert_eq!(parser.next_record(), Some(b"".to_vec()));
    assert_eq!(parser.next_record(), Some(b"x".to_vec()));
}
