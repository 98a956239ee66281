use nocturned::chunking::{
    create_chunks, create_chunks_with_id, parse_one_chunk_envelope, ChunkEnvelopeParse, CHUNK_SIZE,
};
use nocturned::reassembly::{process_inbound, ChunkAdmission, ChunkReassembler};

const ID: &str = "0123abcd-0000-4000-8000-00000000abcd";

fn parse_all(chunks: &[Vec<u8>]) -> Vec<(String, u16, u16, u32, Vec<u8>)> {
    chunks
        .iter()
        .map(|chunk| match parse_one_chunk_envelope(chunk) {
            ChunkEnvelopeParse::Complete { message_id, index, total, checksum, payload, consumed } => {
                assert_eq!(consumed, chunk.len());
                (message_id, index, total, checksum, payload)
            }
            _ => panic!("envelope did not parse"),
        })
        .collect()
}

#[test]
fn chunks_round_trip_through_the_envelope_parser() {
    let data: Vec<u8> = (0..4500u32).map(|i| (i % 253) as u8).collect();
    let chunks = create_chunks_with_id(&data, ID.as_bytes());
    assert_eq!(chunks.len(), 3);
    let parsed = parse_all(&chunks);
    let mut joined = Vec::new();
    for (i, (id, index, total, checksum, payload)) in parsed.iter().enumerate() {
        assert_eq!(id, ID);
        assert_eq!(*index as usize, i);
        assert_eq!(*total, 3);
        assert_eq!(*checksum, crc32fast::hash(payload));
        assert!(payload.len() <= CHUNK_SIZE);
        joined.extend_from_slice(payload);
    }
    assert_eq!(joined, data);
}

#[test]
fn empty_messages_frame_to_no_envelopes() {
    assert!(create_chunks_with_id(&[], ID.as_bytes()).is_empty());
}

#[test]
fn random_ids_are_upper_case_uuids() {
    let chunks = create_chunks(b"hello");
    let parsed = parse_all(&chunks);
    assert_eq!(parsed.len(), 1);
    let id = &parsed[0].0;
    assert_eq!(id.len(), 36);
    assert_eq!(id.to_uppercase(), *id);
    assert_eq!(parsed[0].4, b"hello".to_vec());
}

#[test]
fn envelope_parser_needs_more_and_rejects_bad_headers() {
    let chunk = create_chunks_with_id(b"abc", ID.as_bytes()).remove(0);
    assert!(matches!(parse_one_chunk_envelope(&[]), ChunkEnvelopeParse::NeedMore));
    assert!(matches!(parse_one_chunk_envelope(&chunk[..20]), ChunkEnvelopeParse::NeedMore));
    assert!(matches!(parse_one_chunk_envelope(&chunk[..chunk.len() - 1]), ChunkEnvelopeParse::NeedMore));
    assert!(matches!(parse_one_chunk_envelope(&[35u8; 60]), ChunkEnvelopeParse::Invalid));
    let mut no_hyphen = chunk.clone();
    no_hyphen[9] = b'x';
    assert!(matches!(parse_one_chunk_envelope(&no_hyphen), ChunkEnvelopeParse::Invalid));
    let mut zero_total = chunk.clone();
    zero_total[39] = 0;
    zero_total[40] = 0;
    assert!(matches!(parse_one_chunk_envelope(&zero_total), ChunkEnvelopeParse::Invalid));
}

#[test]
fn reassembler_releases_a_message_when_its_last_chunk_arrives() {
    let mut reassembler = ChunkReassembler::new();
    let a = b"first ".to_vec();
    let b = b"second".to_vec();
    let first = reassembler.add_chunk(ID, 1, 2, crc32fast::hash(&b), b.clone(), 1_000);
    assert!(matches!(first, ChunkAdmission::Stored));
    let done = reassembler.add_chunk(ID, 0, 2, crc32fast::hash(&a), a.clone(), 1_001);
    match done {
        ChunkAdmission::Complete(message) => assert_eq!(message, b"first second".to_vec()),
        _ => panic!("message should be complete"),
    }
}

#[test]
fn reassembler_asks_for_corrupted_chunks_again_and_drops_bad_indices() {
    let mut reassembler = ChunkReassembler::new();
    let data = b"payload".to_vec();
    let bad = reassembler.add_chunk(ID, 0, 2, crc32fast::hash(&data) ^ 1, data.clone(), 0);
    assert!(matches!(bad, ChunkAdmission::RetransmitRequested));
    let out_of_range = reassembler.add_chunk(ID, 2, 2, crc32fast::hash(&data), data.clone(), 0);
    assert!(matches!(out_of_range, ChunkAdmission::Discarded));
    let single = reassembler.add_chunk(ID, 0, 1, crc32fast::hash(&data), data.clone(), 0);
    match single {
        ChunkAdmission::Complete(message) => assert_eq!(message, data),
        _ => panic!("single chunk completes at once"),
    }
}

#[test]
fn stale_partial_messages_are_forgotten() {
    let mut reassembler = ChunkReassembler::new();
    let a = b"a".to_vec();
    let b = b"b".to_vec();
    assert!(matches!(
        reassembler.add_chunk(ID, 0, 2, crc32fast::hash(&a), a.clone(), 0),
        ChunkAdmission::Stored
    ));
    // Two minutes and a bit later the first half has expired.
    assert!(matches!(
        reassembler.add_chunk(ID, 1, 2, crc32fast::hash(&b), b.clone(), 120_001),
        ChunkAdmission::Stored
    ));
}

#[test]
fn inbound_bytes_are_framed_across_split_deliveries() {
    let data: Vec<u8> = (0..2500u32).map(|i| (i % 7) as u8).collect();
    let mut wire = Vec::new();
    for chunk in create_chunks_with_id(&data, ID.as_bytes()) {
        wire.extend_from_slice(&chunk);
    }
    let mut reassembler = ChunkReassembler::new();
    let mut buffer = Vec::new();
    let first = process_inbound(&mut reassembler, &mut buffer, &wire[..1000], 5);
    assert!(first.completed.is_empty());
    assert!(first.unframed.is_none());
    assert_eq!(buffer.len(), 1000);
    let second = process_inbound(&mut reassembler, &mut buffer, &wire[1000..], 6);
    assert_eq!(second.completed, vec![data]);
    assert!(second.retransmit.is_empty());
    assert!(buffer.is_empty());
}

#[test]
fn unframed_bytes_are_handed_back() {
    let mut reassembler = ChunkReassembler::new();
    let mut buffer = Vec::new();
    let out = process_inbound(&mut reassembler, &mut buffer, &[0x81, 0xa1, 0x61, 0x01], 0);
    assert_eq!(out.unframed, Some(vec![0x81, 0xa1, 0x61, 0x01]));
    assert!(buffer.is_empty());
}

#[test]
fn corrupted_framed_chunks_ask_for_retransmission() {
    let mut chunk = create_chunks_with_id(b"xyz", ID.as_bytes()).remove(0);
    let last = chunk.len() - 1;
    chunk[last] ^= 0xff;
    let mut reassembler = ChunkReassembler::new();
    let mut buffer = Vec::new();
    let out = process_inbound(&mut reassembler, &mut buffer, &chunk, 0);
    assert_eq!(out.retransmit, vec![(ID.to_string(), 0)]);
    assert!(out.completed.is_empty());
}

#[test]
fn framed_messages_reassemble_from_one_delivery() {
    for len in [1usize, 1999, 2000, 2001, 6500] {
        let data: Vec<u8> = (0..len).map(|i| (i * 31 % 251) as u8).collect();
        let mut wire = Vec::new();
        for chunk in create_chunks(&data) {
            wire.extend_from_slice(&chunk);
        }
        let mut reassembler = ChunkReassembler::new();
        let mut buffer = Vec::new();
        let out = process_inbound(&mut reassembler, &mut buffer, &wire, 42);
        assert_eq!(out.completed, vec![data]);
        assert!(out.retransmit.is_empty());
        assert!(out.unframed.is_none());
        assert!(buffer.is_empty());
    }
}

#[test]
fn storing_a_new_message_keeps_the_others_pending() {
    let mut reassembler = ChunkReassembler::new();
    let ids: Vec<String> = (0..7).map(|i| format!("{:08}-0000-0000-0000-000000000000", i)).collect();
    for id in &ids {
        let a = b"head".to_vec();
        assert!(matches!(
            reassembler.add_chunk(id, 0, 2, crc32fast::hash(&a), a.clone(), 10),
            ChunkAdmission::Stored
        ));
    }
    let fresh = "99999999-0000-0000-0000-000000000000";
    let a = b"other".to_vec();
    assert!(matches!(reassembler.add_chunk(fresh, 0, 2, crc32fast::hash(&a), a.clone(), 11), ChunkAdmission::Stored));
    for id in &ids {
        let b = b"tail".to_vec();
        match reassembler.add_chunk(id, 1, 2, crc32fast::hash(&b), b.clone(), 12) {
            ChunkAdmission::Complete(message) => assert_eq!(message, b"headtail".to_vec()),
            _ => panic!("message {id} was lost"),
        }
    }
}

#[test]
fn a_ninth_message_evicts_only_the_oldest() {
    let mut reassembler = ChunkReassembler::new();
    let ids: Vec<String> = (0..9).map(|i| format!("{:08}-0000-0000-0000-000000000000", i)).collect();
    for (t, id) in ids.iter().enumerate() {
        let a = b"head".to_vec();
        assert!(matches!(
            reassembler.add_chunk(id, 0, 2, crc32fast::hash(&a), a.clone(), 100 + t as u64),
            ChunkAdmission::Stored
        ));
    }
    let b = b"tail".to_vec();
    for (t, id) in ids.iter().enumerate().skip(1) {
        assert!(matches!(
            reassembler.add_chunk(id, 1, 2, crc32fast::hash(&b), b.clone(), 200 + t as u64),
            ChunkAdmission::Complete(_)
        ));
    }
    assert!(matches!(
        reassembler.add_chunk(&ids[0], 1, 2, crc32fast::hash(&b), b.clone(), 300),
        ChunkAdmission::Stored
    ));
}

#[test]
fn chunk_ids_are_upper_case_hyphenated_uuids() {
    let chunks = nocturned::chunking::create_chunks(&[7u8; 60]);
    assert_eq!(chunks.len(), 1);
    let id = &chunks[0][1..37];
    for (i, b) in id.iter().enumerate() {
        if [8, 13, 18, 23].contains(&i) {
            assert_eq!(*b, b'-');
        } else {
            assert!(b.is_ascii_digit() || (b'A'..=b'F').contains(b), "byte {i} is {b}");
        }
    }
}
