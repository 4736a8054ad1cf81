//! Messages, packets and the journal on concrete values.

use std::collections::hash_map::DefaultHasher;
use std::hash::{Hash, Hasher};

use pasta_p2p::addr::{IpAddr, Ipv4Addr, Ipv6Addr, SocketAddr, SocketAddrV6};
use pasta_p2p::net::codec::{self, DecodeKind, Reader};
use pasta_p2p::net::journal::{
    stable_transfer_id, TransferDirection, TransferJournal, TransferRecord,
};
use pasta_p2p::net::messages::{
    decode_either, decode_payload, deserialize_message, plan_send, serialize_message,
    serialize_message_base64, WireMessage,
};
use pasta_p2p::net::packet_manager::{
    fragment_payload, should_retry, FragmentBuffer, PacketFragment, PacketManager,
};
use pasta_p2p::net::packet_messages::{deserialize_packet, serialize_packet, PacketMessage};
use pasta_p2p::path::{FilePath, PathPart, RANK_NAME, RANK_ROOT};

fn v4(a: u8, b: u8, c: u8, d: u8, port: u16) -> SocketAddr {
    SocketAddr::new(IpAddr::V4(Ipv4Addr { a, b, c, d }), port)
}

fn path(text: &str) -> FilePath {
    let mut parts = Vec::new();
    if text.starts_with('/') {
        parts.push(PathPart { rank: RANK_ROOT, bytes: Vec::new() });
    }
    for name in text.split('/') {
        if !name.is_empty() {
            parts.push(PathPart { rank: RANK_NAME, bytes: name.as_bytes().to_vec() });
        }
    }
    FilePath { text: text.to_string(), parts }
}

fn shown<T: std::fmt::Debug>(value: &T) -> String {
    format!("{:?}", value)
}

fn samples() -> Vec<WireMessage> {
    vec![
        WireMessage::Hello { version: 3 },
        WireMessage::IdentityInit {
            version: 2,
            pubkey: vec![1, 2, 3],
            challenge: [7u8; 32],
            label: Some("nó".to_string()),
        },
        WireMessage::IdentityInit {
            version: 0,
            pubkey: vec![],
            challenge: [0u8; 32],
            label: None,
        },
        WireMessage::IdentityAck { pubkey: vec![9], signature: vec![8, 8] },
        WireMessage::Punch { nonce: u64::MAX },
        WireMessage::Cancel { file_id: 4 },
        WireMessage::FileMeta { file_id: 1, name: "a.txt".to_string(), size: 10, offset: 2 },
        WireMessage::ResumeQuery { file_id: 1, name: "b".to_string(), size: 11 },
        WireMessage::ResumeAnswer { file_id: 1, offset: 3, ok: true, reason: None },
        WireMessage::ResumeAnswer {
            file_id: 1,
            offset: 0,
            ok: false,
            reason: Some("x".to_string()),
        },
        WireMessage::FileChunk { file_id: 6, data: vec![0, 255] },
        WireMessage::FileDone { file_id: 6 },
        WireMessage::ObservedEndpoint { addr: v4(10, 0, 0, 1, 4000) },
        WireMessage::Ping { nonce: 5 },
        WireMessage::Pong { nonce: 6 },
    ]
}

// ---------------------------------------------------------------- codec

#[test]
fn numbers_are_written_low_byte_first() {
    let mut out = Vec::new();
    codec::put_u8(&mut out, 0xab);
    codec::put_u16(&mut out, 0x0102);
    codec::put_u32(&mut out, 0x01020304);
    codec::put_u64(&mut out, 0x0102030405060708);
    codec::put_bool(&mut out, true);
    assert_eq!(
        out,
        vec![0xab, 2, 1, 4, 3, 2, 1, 8, 7, 6, 5, 4, 3, 2, 1, 1]
    );
    let mut input = Reader::new(&out);
    assert_eq!(input.get_u8().ok(), Some(0xab));
    assert_eq!(input.get_u16().ok(), Some(0x0102));
    assert_eq!(input.get_u32().ok(), Some(0x01020304));
    assert_eq!(input.get_u64().ok(), Some(0x0102030405060708));
    assert!(!input.is_finished());
    assert_eq!(input.get_bool().ok(), Some(true));
    assert!(input.is_finished());
}

#[test]
fn texts_and_bytes_carry_their_length() {
    let mut out = Vec::new();
    codec::put_text(&mut out, "é");
    codec::put_bytes(&mut out, &[5, 6]);
    codec::put_option(&mut out, &None);
    codec::put_option(&mut out, &Some("z".to_string()));
    codec::put_exact(&mut out, &[1, 1]);
    assert_eq!(
        out,
        vec![
            2, 0, 0, 0, 0, 0, 0, 0, 0xc3, 0xa9, 2, 0, 0, 0, 0, 0, 0, 0, 5, 6, 0, 1, 1, 0, 0, 0, 0,
            0, 0, 0, b'z', 1, 1
        ]
    );
    let mut input = Reader::new(&out);
    assert_eq!(input.get_text().ok(), Some("é".to_string()));
    assert_eq!(input.get_bytes().ok(), Some(vec![5, 6]));
    assert_eq!(input.get_option().ok(), Some(None));
    assert_eq!(input.get_option().ok(), Some(Some("z".to_string())));
    assert_eq!(input.get_exact(2).ok(), Some(vec![1, 1]));
    assert!(input.is_finished());
}

#[test]
fn addresses_are_written_by_family() {
    let mut out = Vec::new();
    codec::put_addr(&mut out, &v4(127, 0, 0, 1, 0x1234));
    assert_eq!(out, vec![0, 0, 0, 0, 127, 0, 0, 1, 0x34, 0x12]);
    let v6 = Ipv6Addr { s0: 0x2001, s1: 0xdb8, s2: 0, s3: 0, s4: 0, s5: 0, s6: 0, s7: 1 };
    let mut out = Vec::new();
    codec::put_addr(
        &mut out,
        &SocketAddr::V6(SocketAddrV6 { ip: v6, port: 1, flowinfo: 7, scope_id: 8 }),
    );
    assert_eq!(
        out,
        vec![1, 0, 0, 0, 0x20, 1, 0xd, 0xb8, 0, 0, 0, 0, 0, 0, 0, 0, 0, 0, 0, 1, 1, 0]
    );
    let mut input = Reader::new(&out);
    assert_eq!(input.get_addr().ok(), Some(SocketAddr::new(IpAddr::V6(v6), 1)));
}

#[test]
fn malformed_values_are_rejected() {
    assert_eq!(Reader::new(&[1]).get_u16().err().map(|e| e.kind), Some(DecodeKind::UnexpectedEnd));
    assert_eq!(Reader::new(&[2]).get_bool().err().map(|e| e.kind), Some(DecodeKind::InvalidBool));
    assert_eq!(Reader::new(&[2]).get_option().err().map(|e| e.kind), Some(DecodeKind::InvalidTag));
    assert_eq!(
        Reader::new(&[1, 0, 0, 0, 0, 0, 0, 0, 0xff]).get_text().err().map(|e| e.kind),
        Some(DecodeKind::InvalidUtf8)
    );
    assert_eq!(
        Reader::new(&[9, 0, 0, 0, 0, 0, 0, 0, 1]).get_bytes().err().map(|e| e.kind),
        Some(DecodeKind::UnexpectedEnd)
    );
    assert_eq!(
        Reader::new(&[2, 0, 0, 0, 1]).get_addr().err().map(|e| e.kind),
        Some(DecodeKind::UnknownVariant)
    );
}

#[test]
fn errors_have_the_words_of_the_decoder() {
    let words = |bytes: &[u8]| deserialize_packet(bytes).err().map(|e| e.words);
    let meta: Vec<u8> = bincode::serialize(&(3u32, 7u64, "abc", 9u64)).unwrap();
    for cut in 0..meta.len() {
        let expected = if cut < 4 {
            bincode::deserialize::<u32>(&meta[..cut]).err().map(|e| e.to_string())
        } else {
            bincode::deserialize::<(u64, String, u64)>(&meta[4..cut]).err().map(|e| e.to_string())
        };
        assert!(expected.is_some());
        assert_eq!(words(&meta[..cut]), expected);
    }
    let mut wrong = meta.clone();
    wrong[20] = 0xff;
    let expected = bincode::deserialize::<(u64, String, u64)>(&wrong[4..]).err();
    assert_eq!(words(&wrong), expected.map(|e| e.to_string()));
    assert_eq!(
        Reader::new(&[2]).get_bool().err().map(|e| e.words),
        Some("invalid u8 while decoding bool, expected 0 or 1, found 2".to_string())
    );
    assert_eq!(
        Reader::new(&[]).get_bool().err().map(|e| e.words),
        bincode::deserialize::<bool>(&[]).err().map(|e| e.to_string())
    );
    assert_eq!(
        Reader::new(&[3]).get_option().err().map(|e| e.words),
        bincode::deserialize::<Option<String>>(&[3]).err().map(|e| e.to_string())
    );
    let chunk: Vec<u8> = bincode::serialize(&(4u32, 7u64, vec![1u8, 2, 3])).unwrap();
    for cut in 12..chunk.len() {
        let expected = bincode::deserialize::<(u64, Vec<u8>)>(&chunk[4..cut]).err();
        assert_eq!(words(&chunk[..cut]), expected.map(|e| e.to_string()));
    }
    let part: Vec<u8> = bincode::serialize(&(1u64, 2u16, 3u16, vec![1u8])).unwrap();
    for cut in 0..part.len() {
        let expected = bincode::deserialize::<(u64, u16, u16, Vec<u8>)>(&part[..cut]).err();
        assert_eq!(
            PacketFragment::decode(&part[..cut]).err().map(|e| e.words),
            expected.map(|e| e.to_string())
        );
    }
}

// ---------------------------------------------------------------- messages

#[test]
fn every_message_is_read_back() {
    for message in samples() {
        let bytes = serialize_message(&message);
        let read = deserialize_message(&bytes);
        assert_eq!(shown(&read.ok()), shown(&Some(message)));
    }
}

#[test]
fn messages_have_the_binary_form_of_tuples() {
    let meta =
        WireMessage::FileMeta { file_id: 1, name: "a.txt".to_string(), size: 10, offset: 2 };
    assert_eq!(
        serialize_message(&meta),
        bincode::serialize(&(5u32, 1u64, "a.txt", 10u64, 2u64)).unwrap()
    );
    let answer = WireMessage::ResumeAnswer {
        file_id: 1,
        offset: 0,
        ok: false,
        reason: Some("x".to_string()),
    };
    assert_eq!(
        serialize_message(&answer),
        bincode::serialize(&(7u32, 1u64, 0u64, false, Some("x"))).unwrap()
    );
    let init = WireMessage::IdentityInit {
        version: 2,
        pubkey: vec![1, 2, 3],
        challenge: [7u8; 32],
        label: None,
    };
    let none: Option<String> = None;
    assert_eq!(
        serialize_message(&init),
        bincode::serialize(&(1u32, 2u8, vec![1u8, 2, 3], [7u8; 32], none)).unwrap()
    );
    assert_eq!(serialize_message(&WireMessage::Hello { version: 3 }), vec![0, 0, 0, 0, 3]);
}

#[test]
fn bytes_behind_a_message_are_rejected() {
    let mut bytes = serialize_message(&WireMessage::Ping { nonce: 1 });
    bytes.push(0);
    assert_eq!(
        deserialize_message(&bytes).err().map(|e| e.kind),
        Some(DecodeKind::TrailingBytes)
    );
}

#[test]
fn unknown_kinds_are_rejected() {
    let error = deserialize_message(&[13, 0, 0, 0]).err().unwrap();
    assert_eq!(error.kind, DecodeKind::UnknownVariant);
    assert_eq!(
        error.words,
        "invalid value: integer `13`, expected variant index 0 <= i < 13"
    );
}

#[test]
fn observed_endpoint_loses_scope_and_flow() {
    let ip = Ipv6Addr { s0: 0xfe80, s1: 0, s2: 0, s3: 0, s4: 0, s5: 0, s6: 0, s7: 9 };
    let sent = WireMessage::ObservedEndpoint {
        addr: SocketAddr::V6(SocketAddrV6 { ip, port: 5, flowinfo: 1, scope_id: 2 }),
    };
    match decode_payload(&serialize_message(&sent)) {
        Ok(WireMessage::ObservedEndpoint { addr }) => {
            assert_eq!(addr, SocketAddr::new(IpAddr::V6(ip), 5))
        }
        _ => panic!("not an endpoint"),
    }
}

#[test]
fn base64_text_is_read_as_the_message() {
    let message = WireMessage::Hello { version: 3 };
    let text = serialize_message_base64(&message);
    assert_eq!(text, "AAAAAAM=");
    assert_eq!(shown(&decode_payload(text.as_bytes()).ok()), shown(&Some(message)));
    for message in samples() {
        let text = serialize_message_base64(&message);
        assert_eq!(shown(&decode_payload(text.as_bytes()).ok()), shown(&Some(message)));
    }
}

#[test]
fn payload_that_is_neither_keeps_the_first_error() {
    let error = decode_payload(&[1, 0]).err().unwrap();
    assert_eq!(error.kind, DecodeKind::UnexpectedEnd);
    let unpacked = Some(vec![0, 0, 0, 0, 3]);
    assert!(decode_either(&[1, 0], unpacked).is_ok());
    let error = decode_either(&[99, 0, 0, 0], Some(vec![1])).err().unwrap();
    assert_eq!(error.kind, DecodeKind::UnknownVariant);
}

#[test]
fn files_go_only_to_a_connected_peer() {
    let peer = v4(1, 2, 3, 4, 5);
    assert_eq!(
        plan_send(None, true, None).err(),
        Some("nenhum par conectado para enviar arquivos".to_string())
    );
    assert_eq!(
        plan_send(Some(peer), false, None).err(),
        Some("nenhuma conexao ativa para enviar arquivos".to_string())
    );
    let plan = plan_send(Some(peer), true, None).ok().unwrap();
    assert_eq!(plan.peer, peer);
    assert_eq!(plan.peer_id, "1.2.3.4:5");
    let plan = plan_send(Some(peer), true, Some("ana".to_string())).ok().unwrap();
    assert_eq!(plan.peer_id, "ana");
}

// ---------------------------------------------------------------- packets

#[test]
fn packet_messages_are_read_whatever_follows() {
    let message =
        PacketMessage::FileMeta { file_id: 1, name: "a".to_string(), size: 3 };
    let mut bytes = serialize_packet(&message);
    assert_eq!(bytes, bincode::serialize(&(3u32, 1u64, "a", 3u64)).unwrap());
    bytes.push(77);
    assert_eq!(shown(&deserialize_packet(&bytes).ok()), shown(&Some(message)));
    for message in vec![
        PacketMessage::Hello { version: 1 },
        PacketMessage::Punch { nonce: 2 },
        PacketMessage::Cancel { file_id: 3 },
        PacketMessage::FileChunk { file_id: 4, data: vec![1, 2] },
        PacketMessage::FileDone { file_id: 5 },
    ] {
        let bytes = serialize_packet(&message);
        assert_eq!(shown(&deserialize_packet(&bytes).ok()), shown(&Some(message)));
    }
    assert_eq!(
        deserialize_packet(&[6, 0, 0, 0]).err().map(|e| e.kind),
        Some(DecodeKind::UnknownVariant)
    );
}

#[test]
fn fragments_cut_a_payload_in_order() {
    let parts = fragment_payload(9, vec![1, 2, 3, 4, 5], 2);
    assert_eq!(parts.len(), 3);
    assert_eq!(parts[0].data, vec![1, 2]);
    assert_eq!(parts[1].data, vec![3, 4]);
    assert_eq!(parts[2].data, vec![5]);
    for (i, part) in parts.iter().enumerate() {
        assert_eq!(part.message_id, 9);
        assert_eq!(part.fragment_index as usize, i);
        assert_eq!(part.total_fragments, 3);
    }
}

#[test]
fn fragment_has_the_binary_form_of_a_tuple() {
    let fragment = PacketFragment {
        message_id: 1,
        fragment_index: 2,
        total_fragments: 3,
        data: vec![9, 8],
    };
    let bytes = fragment.encode();
    assert_eq!(bytes, bincode::serialize(&(1u64, 2u16, 3u16, vec![9u8, 8])).unwrap());
    let read = PacketFragment::decode(&bytes).ok().unwrap();
    assert_eq!(shown(&read.data), shown(&vec![9u8, 8]));
    assert_eq!(read.fragment_index, 2);
}

#[test]
fn fragments_rejoin_in_any_order() {
    let mut sender = PacketManager::new(40);
    let payload: Vec<u8> = (0..100u8).collect();
    let packets = sender.prepare(payload.clone());
    assert!(packets.len() > 1);
    let mut receiver = PacketManager::new(40);
    let mut whole = None;
    for packet in packets.iter().rev() {
        assert!(whole.is_none());
        whole = receiver.process_incoming(&packet.bytes, 1).ok().unwrap();
    }
    assert_eq!(whole, Some(payload));
}

#[test]
fn broken_fragment_is_an_error() {
    let mut receiver = PacketManager::new(40);
    assert!(receiver.process_incoming(&[1, 2, 3], 0).is_err());
}

#[test]
fn fragment_buffer_waits_for_every_part() {
    let mut buffer = FragmentBuffer::new(2, 0);
    buffer.insert(1, vec![3], 5);
    assert!(!buffer.is_complete());
    buffer.insert(0, vec![1, 2], 6);
    assert!(buffer.is_complete());
    assert_eq!(buffer.last_update, 6);
    assert_eq!(buffer.assemble(), vec![1, 2, 3]);
}

#[test]
fn old_fragments_are_forgotten() {
    let mut receiver = PacketManager::new(24);
    let mut sender = PacketManager::new(24);
    let packets = sender.prepare((0..50u8).collect());
    assert!(packets.len() > 1);
    let _ = receiver.process_incoming(&packets[0].bytes, 0);
    assert_eq!(receiver.fragments.len(), 1);
    receiver.cleanup_old_entries(29_000_000_000);
    assert_eq!(receiver.fragments.len(), 1);
    receiver.cleanup_old_entries(31_000_000_000);
    assert_eq!(receiver.fragments.len(), 0);
}

#[test]
fn a_full_socket_is_tried_again_for_a_while() {
    assert!(should_retry(true, 0));
    assert!(should_retry(true, 49));
    assert!(!should_retry(true, 50));
    assert!(!should_retry(false, 0));
}

// ---------------------------------------------------------------- journal

#[test]
fn transfer_key_is_the_hash_of_its_parts() {
    let mut h = DefaultHasher::new();
    "ana".hash(&mut h);
    TransferDirection::Incoming.hash(&mut h);
    "/tmp/é.bin".to_string().hash(&mut h);
    77u64.hash(&mut h);
    assert_eq!(
        stable_transfer_id("ana", TransferDirection::Incoming, &path("/tmp/é.bin"), 77),
        h.finish()
    );
}

#[test]
fn journal_keeps_one_record_per_transfer() {
    let mut journal = TransferJournal::empty(path("/j"));
    let out = TransferDirection::Outgoing;
    let _ = journal.upsert_progress("ana", out, &path("/f"), 10, 4, 1000);
    let written = journal.upsert_progress("ana", out, &path("/f"), 10, 40, 2000).unwrap();
    assert_eq!(written.len(), 1);
    assert_eq!(written[0].offset, 10);
    assert_eq!(written[0].created_at_ms, 1000);
    assert_eq!(written[0].updated_at_ms, 2000);
    assert_eq!(journal.path().text, "/j");
}

#[test]
fn journal_is_written_when_due() {
    let mut journal = TransferJournal::empty(path("/j"));
    let out = TransferDirection::Outgoing;
    assert!(journal.flush_if_due(10_000).is_none());
    assert!(journal.upsert_progress("ana", out, &path("/f"), 10, 4, 400).is_none());
    assert!(journal.flush_if_due(499).is_none());
    assert_eq!(journal.flush_if_due(500).map(|r| r.len()), Some(1));
    assert_eq!(journal.flush_if_due_force().map(|r| r.len()), Some(1));
    journal.flushed(500);
    assert!(journal.flush_if_due(5000).is_none());
}

#[test]
fn pending_files_come_once_and_in_order() {
    let mut journal = TransferJournal::empty(path("/j"));
    let out = TransferDirection::Outgoing;
    let _ = journal.upsert_progress("ana", out, &path("/b"), 10, 1, 1);
    let _ = journal.upsert_progress("ana", out, &path("/a"), 10, 1, 2);
    let _ = journal.upsert_progress("ana", out, &path("/a"), 20, 1, 3);
    let _ = journal.upsert_progress("ana", TransferDirection::Incoming, &path("/in"), 10, 1, 4);
    let _ = journal.upsert_progress("bia", out, &path("/c"), 10, 1, 5);
    let pending: Vec<String> =
        journal.pending_outgoing_for_peer("ana").into_iter().map(|p| p.text).collect();
    assert_eq!(pending, vec!["/a".to_string(), "/b".to_string()]);
}

#[test]
fn removing_a_transfer_undoes_its_record() {
    let mut journal = TransferJournal::empty(path("/j"));
    let out = TransferDirection::Outgoing;
    let _ = journal.upsert_progress("ana", out, &path("/f"), 10, 4, 1);
    assert!(journal.remove("ana", out, &path("/f"), 11).is_none());
    assert_eq!(journal.remove("ana", out, &path("/f"), 10).map(|r| r.len()), Some(0));
    assert!(journal.remove("ana", out, &path("/f"), 10).is_none());
}

#[test]
fn written_journal_is_read_again() {
    let mut journal = TransferJournal::empty(path("/j"));
    let out = TransferDirection::Outgoing;
    let _ = journal.upsert_progress("bia", out, &path("/x"), 5, 1, 3);
    let _ = journal.upsert_progress("ana", out, &path("/y"), 5, 1, 2);
    let _ = journal.upsert_progress("ana", out, &path("/z"), 5, 1, 1);
    let written: Vec<TransferRecord> = journal.ordered_records();
    let order: Vec<String> = written.iter().map(|r| r.path.text.clone()).collect();
    assert_eq!(order, vec!["/z".to_string(), "/y".to_string(), "/x".to_string()]);
    let again = TransferJournal::from_records(path("/j"), written);
    let order: Vec<String> =
        again.ordered_records().iter().map(|r| r.path.text.clone()).collect();
    assert_eq!(order, vec!["/z".to_string(), "/y".to_string(), "/x".to_string()]);
}
