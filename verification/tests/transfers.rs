//! Files on their way, over streams and in packets, on concrete values.

use pasta_p2p::addr::{IpAddr, Ipv4Addr, Ipv6Addr, SocketAddr};
use pasta_p2p::net::commands::{NetCommand, NetEvent};
use pasta_p2p::net::datagram::{
    create_failed, endpoint_events, files_sent, write_failed, AfterCommand, DatagramState,
    PacketAction, PacketSession, PacketStep, StunAttempt, StunSearch,
};
use pasta_p2p::net::messages::WireMessage;
use pasta_p2p::net::names::{
    download_name, next_attempt, part_name, resume_offset, safe_name, sanitize_file_name,
};
use pasta_p2p::net::packet_messages::{serialize_packet, PacketMessage};
use pasta_p2p::net::receiving::{
    begin_receive, resume_answer, session_failed, AfterRead, LinkState, ReadOutcome, Versions,
};
use pasta_p2p::net::stun::{
    build_stun_request, next_transaction_id, parse_mapped_address, parse_stun_response,
    parse_xor_mapped_address, pick_server_addr, stun_server_list, ProbeRead, StunProbe,
};
use pasta_p2p::net::transfer::{
    frame, handle_send_control, poll_send_control, should_emit_progress, NextFile, SendOutcome,
    SendSession, Step,
};
use pasta_p2p::net::datagram;
use pasta_p2p::path::{FilePath, PathPart, RANK_NAME, RANK_ROOT};

fn v4(a: u8, b: u8, c: u8, d: u8, port: u16) -> SocketAddr {
    SocketAddr::new(IpAddr::V4(Ipv4Addr { a, b, c, d }), port)
}

fn v6(last: u16, port: u16) -> SocketAddr {
    let ip = Ipv6Addr { s0: 0x2001, s1: 0xdb8, s2: 0, s3: 0, s4: 0, s5: 0, s6: 0, s7: last };
    SocketAddr::new(IpAddr::V6(ip), port)
}

fn path(text: &str) -> FilePath {
    let mut parts = Vec::new();
    if text.starts_with('/') {
        parts.push(PathPart { rank: RANK_ROOT, bytes: Vec::new() });
    }
    for name in text.split('/') {
        if !name.is_empty() {
            parts.push(PathPart { rank: RANK_NAME, bytes: name.as_bytes().to_vec() });
        }
    }
    FilePath { text: text.to_string(), parts }
}

fn event(e: &NetEvent) -> String {
    match e {
        NetEvent::Log(line) => format!("log {line}"),
        NetEvent::Bound(addr) => format!("bound {}", addr.text()),
        NetEvent::PublicEndpoint(addr) => format!("public {}", addr.text()),
        NetEvent::FileSent { file_id, path } => format!("sent {file_id} {}", path.text),
        NetEvent::FileReceived { file_id, path, from } => {
            format!("received {file_id} {} {:?}", path.text, from.map(|a| a.text()))
        }
        NetEvent::SessionDir(path) => format!("dir {}", path.text),
        NetEvent::PeerConnecting(addr) => format!("connecting {}", addr.text()),
        NetEvent::PeerConnected(addr) => format!("connected {}", addr.text()),
        NetEvent::PeerTimeout(addr) => format!("timeout {}", addr.text()),
        NetEvent::SendStarted { file_id, path, size } => {
            format!("send started {file_id} {} {size}", path.text)
        }
        NetEvent::SendProgress { file_id, bytes_sent, size } => {
            format!("send progress {file_id} {bytes_sent} {size}")
        }
        NetEvent::SendCanceled { file_id, path } => {
            format!("send canceled {file_id} {}", path.text)
        }
        NetEvent::ReceiveStarted { file_id, path, size } => {
            format!("receive started {file_id} {} {size}", path.text)
        }
        NetEvent::ReceiveProgress { file_id, bytes_received, size } => {
            format!("receive progress {file_id} {bytes_received} {size}")
        }
        NetEvent::ReceiveCanceled { file_id, path } => {
            format!("receive canceled {file_id} {}", path.text)
        }
        NetEvent::ReceiveFailed { file_id, path } => {
            format!("receive failed {file_id} {}", path.text)
        }
    }
}

fn events(list: &[NetEvent]) -> Vec<String> {
    list.iter().map(event).collect()
}

fn steps(list: &[Step]) -> Vec<String> {
    list.iter()
        .map(|step| match step {
            Step::Control(m) => format!("control {:?}", m),
            Step::Framed(m) => format!("framed {:?}", m),
            Step::Emit(e) => event(e),
            Step::Reset => "reset".to_string(),
            Step::Finish => "finish".to_string(),
        })
        .collect()
}

fn packet_steps(list: &[PacketStep]) -> Vec<String> {
    list.iter()
        .map(|step| match step {
            PacketStep::Send(m) => format!("send {:?}", m),
            PacketStep::Emit(e) => event(e),
            PacketStep::Poll => "poll".to_string(),
        })
        .collect()
}

fn actions(list: &[PacketAction]) -> Vec<String> {
    list.iter()
        .map(|action| match action {
            PacketAction::Send(addr, m) => format!("send {} {:?}", addr.text(), m),
            PacketAction::SendLoose(addr, m) => format!("loose {} {:?}", addr.text(), m),
            PacketAction::Emit(e) => event(e),
            PacketAction::EnsureSession => "ensure".to_string(),
            PacketAction::Create { file_id, name, size } => {
                format!("create {file_id} {name} {size}")
            }
            PacketAction::Write { file_id, data } => format!("write {file_id} {:?}", data),
            PacketAction::Flush(file_id) => format!("flush {file_id}"),
            PacketAction::Remove { file_id, path } => format!("remove {file_id} {}", path.text),
        })
        .collect()
}

fn texts(list: &[&str]) -> Vec<String> {
    list.iter().map(|s| s.to_string()).collect()
}

// ---------------------------------------------------------------- names

#[test]
fn a_peer_cannot_name_a_directory() {
    assert_eq!(sanitize_file_name("../../etc/passwd"), "passwd");
    assert_eq!(sanitize_file_name("a.txt"), "a.txt");
    assert_eq!(sanitize_file_name("dir/"), "dir");
    assert_eq!(sanitize_file_name(""), "file.bin");
    assert_eq!(sanitize_file_name(".."), "file.bin");
    assert_eq!(sanitize_file_name("."), "file.bin");
    assert_eq!(sanitize_file_name("/"), "file.bin");
    assert_eq!(sanitize_file_name("a/.."), "file.bin");
    assert_eq!(sanitize_file_name("a/../"), "file.bin");
    assert_eq!(sanitize_file_name("a/."), "a");
    assert_eq!(sanitize_file_name("./b"), "b");
    assert_eq!(sanitize_file_name("a//b.txt"), "b.txt");
    assert_eq!(sanitize_file_name("a/..b"), "..b");
    let kept = sanitize_file_name("a/b\\c");
    assert!(kept == "c" || kept == "b\\c");
    assert_eq!(safe_name(None), "file.bin");
    assert_eq!(safe_name(Some(String::new())), "file.bin");
    assert_eq!(safe_name(Some("x".to_string())), "x");
}

#[test]
fn a_kept_name_is_kept_from_then_on() {
    for name in ["../../etc/passwd", "a/..", "", ".", "a/b.txt", "x y.tar.gz", "dir/"] {
        let kept = sanitize_file_name(name);
        assert_eq!(sanitize_file_name(&kept), kept);
        for attempt in [1, 2, 9999] {
            let taken = download_name(&kept, attempt);
            assert!(taken != "." && taken != ".." && !taken.is_empty());
            assert!(!taken.contains('/') && !part_name(&taken).contains('/'));
        }
    }
}

#[test]
fn taken_names_get_a_number_before_the_extension() {
    assert_eq!(download_name("a.tar.gz", 1), "a.tar.gz");
    assert_eq!(download_name("a.tar.gz", 2), "a.tar (2).gz");
    assert_eq!(download_name("leia-me", 13), "leia-me (13)");
    assert_eq!(download_name(".bashrc", 2), ".bashrc (2)");
    assert_eq!(download_name("fim.", 2), "fim (2).");
    assert_eq!(download_name("", 2), "file (2)");
    assert_ne!(download_name("a.b", 2), download_name("a.b", 3));
    assert!(!download_name("a.b", 9999).contains('/'));
}

#[test]
fn attempts_end_at_the_last() {
    assert_eq!(next_attempt(1, false), None);
    assert_eq!(next_attempt(1, true), Some(2));
    assert_eq!(next_attempt(9998, true), Some(9999));
    assert_eq!(next_attempt(9999, true), None);
}

#[test]
fn partial_files_have_their_own_name() {
    assert_eq!(part_name("a.txt"), "a.txt.part");
}

#[test]
fn resuming_stays_within_the_file() {
    assert_eq!(resume_offset(None, 10), 0);
    assert_eq!(resume_offset(Some(4), 10), 4);
    assert_eq!(resume_offset(Some(40), 10), 10);
}

// ---------------------------------------------------------------- progress, frames, commands

#[test]
fn progress_is_told_by_bytes_or_time() {
    assert!(!should_emit_progress(1048575, 0, 99_999_999));
    assert!(should_emit_progress(1048576, 0, 0));
    assert!(should_emit_progress(0, 0, 100_000_000));
    assert!(!should_emit_progress(5, 10, 0));
}

#[test]
fn frames_begin_with_their_length() {
    assert_eq!(frame(&[]), vec![0, 0, 0, 0]);
    assert_eq!(frame(&[7, 8]), vec![0, 0, 0, 2, 7, 8]);
    let long = frame(&vec![1u8; 70000]);
    assert_eq!(long[..4], [0, 1, 0x11, 0x70]);
    assert_eq!(long.len(), 70004);
}

#[test]
fn commands_before_a_stop_are_kept() {
    let mut queue = vec![
        NetCommand::ConnectPeer(v4(1, 1, 1, 1, 1)),
        NetCommand::CancelTransfers,
        NetCommand::Shutdown,
    ];
    let mut pending = Vec::new();
    assert_eq!(handle_send_control(&mut queue, &mut pending), SendOutcome::Canceled);
    assert_eq!(pending.len(), 1);
    assert_eq!(queue.len(), 1);
    assert_eq!(handle_send_control(&mut queue, &mut pending), SendOutcome::Shutdown);
    assert_eq!(handle_send_control(&mut queue, &mut pending), SendOutcome::Completed);
    assert_eq!(pending.len(), 1);
}

#[test]
fn listening_elsewhere_stops_streams_but_not_packets() {
    let addr = v4(1, 1, 1, 1, 1);
    let mut queue = vec![NetCommand::Rebind(addr), NetCommand::CancelTransfers];
    let mut pending = Vec::new();
    assert_eq!(handle_send_control(&mut queue, &mut pending), SendOutcome::Canceled);
    assert!(matches!(pending[0], NetCommand::Rebind(a) if a == addr));
    assert_eq!(queue.len(), 1);
    let mut queue = vec![NetCommand::Rebind(addr)];
    assert_eq!(poll_send_control(&mut queue, &mut pending), SendOutcome::Completed);
    assert_eq!(pending.len(), 2);
    assert_eq!(queue.len(), 0);
}

// ---------------------------------------------------------------- sending over streams

#[test]
fn a_file_is_sent_from_greeting_to_end() {
    let (mut session, hello) = SendSession::start(vec![path("/d/a.txt")], 7, 3);
    assert_eq!(steps(&[hello]), texts(&["control Hello { version: 3 }"]));
    let mut queue = Vec::new();
    let mut pending = Vec::new();
    match session.next_file(&mut queue, &mut pending) {
        NextFile::Open(p) => assert_eq!(p.text, "/d/a.txt"),
        NextFile::Done(_) => panic!("no file"),
    }
    assert_eq!(
        steps(&session.opened(5)),
        texts(&["control ResumeQuery { file_id: 7, name: \"a.txt\", size: 5 }"])
    );
    assert_eq!(session.next_file_id, 8);
    assert_eq!(
        steps(&session.stream_opened(0)),
        texts(&[
            "framed FileMeta { file_id: 7, name: \"a.txt\", size: 5, offset: 0 }",
            "send started 7 /d/a.txt 5"
        ])
    );
    let (said, outcome) = session.written(2, 10, &mut queue, &mut pending);
    assert_eq!(steps(&said), texts(&[]));
    assert_eq!(outcome, SendOutcome::Completed);
    let (said, _) = session.written(2, 100_000_000, &mut queue, &mut pending);
    assert_eq!(steps(&said), texts(&["send progress 7 4 5"]));
    let (said, _) = session.written(1, 100_000_001, &mut queue, &mut pending);
    assert_eq!(steps(&said), texts(&[]));
    assert_eq!(
        steps(&session.file_ended()),
        texts(&["send progress 7 5 5", "finish", "sent 7 /d/a.txt"])
    );
    assert!(matches!(
        session.next_file(&mut queue, &mut pending),
        NextFile::Done(SendOutcome::Completed)
    ));
}

#[test]
fn files_have_their_own_numbers() {
    let (mut session, _) = SendSession::start(vec![path("/a"), path("/b")], u64::MAX, 1);
    let _ = session.opened(1);
    let first = session.current.take().map(|o| (o.file_id, o.path.text));
    let _ = session.opened(1);
    let second = session.current.take().map(|o| (o.file_id, o.path.text));
    assert_eq!(first, Some((u64::MAX, "/a".to_string())));
    assert_eq!(second, Some((0, "/b".to_string())));
}

#[test]
fn an_empty_file_tells_no_progress() {
    let (mut session, _) = SendSession::start(vec![path("/e")], u64::MAX, 1);
    let _ = session.opened(0);
    assert_eq!(session.next_file_id, 0);
    let _ = session.stream_opened(0);
    assert_eq!(
        steps(&session.file_ended()),
        texts(&["finish", "sent 18446744073709551615 /e"])
    );
}

#[test]
fn a_canceled_file_is_reset() {
    let (mut session, _) = SendSession::start(vec![path("/a"), path("/b")], 1, 1);
    let _ = session.opened(9);
    let _ = session.stream_opened(0);
    let mut queue = vec![NetCommand::CancelTransfers];
    let mut pending = Vec::new();
    let (said, outcome) = session.written(1, 1, &mut queue, &mut pending);
    assert_eq!(outcome, SendOutcome::Canceled);
    assert_eq!(
        steps(&said),
        texts(&["reset", "control Cancel { file_id: 1 }", "send canceled 1 /a"])
    );
    let (mut session, _) = SendSession::start(vec![path("/a")], 1, 1);
    let _ = session.opened(9);
    let _ = session.stream_opened(0);
    let mut queue = vec![NetCommand::Shutdown];
    let (said, outcome) = session.written(1, 1, &mut queue, &mut pending);
    assert_eq!(outcome, SendOutcome::Shutdown);
    assert_eq!(steps(&said), texts(&["reset", "control Cancel { file_id: 1 }"]));
}

#[test]
fn a_stop_comes_before_the_next_file() {
    let (session, _) = SendSession::start(vec![path("/a")], 1, 1);
    let mut queue = vec![NetCommand::CancelTransfers];
    let mut pending = Vec::new();
    assert!(matches!(
        session.next_file(&mut queue, &mut pending),
        NextFile::Done(SendOutcome::Canceled)
    ));
    let (session, _) = SendSession::start(vec![], 1, 1);
    let mut queue = vec![NetCommand::CancelTransfers];
    assert!(matches!(
        session.next_file(&mut queue, &mut pending),
        NextFile::Done(SendOutcome::Completed)
    ));
    assert_eq!(queue.len(), 1);
}

#[test]
fn failed_streams_leave_a_line() {
    let (mut session, _) = SendSession::start(vec![path("/a")], 1, 1);
    let _ = session.opened(9);
    assert_eq!(event(&session.stream_refused("fim")), "log erro ao abrir stream fim");
    assert!(session.current.is_none());
    assert_eq!(event(&session.write_failed("fim")), "log erro ao enviar fim");
}

// ---------------------------------------------------------------- receiving over streams

fn versions() -> Versions {
    Versions { protocol: 5, observed_endpoint: 3 }
}

fn link_said(link: &mut LinkState, message: WireMessage, from: SocketAddr) -> (bool, String) {
    let (new_peer, said) = link.handle_incoming_message(message, from, versions());
    (new_peer, format!("{:?}", said))
}

#[test]
fn the_first_sender_becomes_the_peer() {
    let mut link = LinkState::new();
    let from = v4(1, 1, 1, 1, 1);
    let (new_peer, said) = link_said(&mut link, WireMessage::Hello { version: 2 }, from);
    assert!(new_peer);
    assert_eq!(said, "[EnsureSession]");
    assert_eq!(event(&link.session_ready(path("/r"))), "dir /r");
    let (new_peer, said) =
        link_said(&mut link, WireMessage::Hello { version: 2 }, v4(2, 2, 2, 2, 2));
    assert!(!new_peer);
    assert_eq!(said, "[]");
    assert_eq!(link.peer_addr, Some(from));
    assert_eq!(event(&session_failed("x")), "log erro na sessao x");
}

#[test]
fn newer_peers_are_told_their_address() {
    let mut link = LinkState::new();
    let _ = link.session_ready(path("/r"));
    let from = v4(1, 1, 1, 1, 1);
    let (_, said) = link.handle_incoming_message(WireMessage::Hello { version: 3 }, from, versions());
    assert!(said.len() == 1 && format!("{:?}", said).contains("ObservedEndpoint"));
    let (_, said) = link.handle_incoming_message(WireMessage::Punch { nonce: 1 }, from, versions());
    assert_eq!(format!("{:?}", said), "[Control(Hello { version: 5 })]");
    let told = WireMessage::ObservedEndpoint { addr: v4(9, 9, 9, 9, 9) };
    let (_, said) = link.handle_incoming_message(told, from, versions());
    assert_eq!(said.len(), 1);
    assert_eq!(link.public_endpoint, Some(v4(9, 9, 9, 9, 9)));
    let told = WireMessage::ObservedEndpoint { addr: v4(9, 9, 9, 9, 9) };
    let (_, said) = link.handle_incoming_message(told, from, versions());
    assert_eq!(said.len(), 0);
}

#[test]
fn a_cancel_gives_a_file_up_once() {
    let mut link = LinkState::new();
    let from = v4(1, 1, 1, 1, 1);
    link.file_began(4, path("/r/a.part"));
    let (_, said) = link_said(&mut link, WireMessage::Cancel { file_id: 4 }, from);
    assert!(said.starts_with("[Abort(4), Emit(ReceiveCanceled { file_id: 4"));
    let (_, said) = link_said(&mut link, WireMessage::Cancel { file_id: 4 }, from);
    assert_eq!(said, "[]");
    link.file_began(5, path("/r/b.part"));
    link.file_ended(5);
    let (_, said) = link_said(&mut link, WireMessage::Cancel { file_id: 5 }, from);
    assert_eq!(said, "[]");
    let (_, said) = link_said(&mut link, WireMessage::Pong { nonce: 5 }, from);
    assert_eq!(said, "[]");
}

#[test]
fn resuming_is_answered() {
    let mut link = LinkState::new();
    let query = WireMessage::ResumeQuery { file_id: 1, name: "a".to_string(), size: 9 };
    let (_, said) = link_said(&mut link, query, v4(1, 1, 1, 1, 1));
    assert_eq!(said, "[QueryResume { file_id: 1, name: \"a\", size: 9 }]");
    assert_eq!(
        format!("{:?}", resume_answer(1, 9, Ok(Some(20)))),
        "ResumeAnswer { file_id: 1, offset: 9, ok: true, reason: None }"
    );
    assert_eq!(
        format!("{:?}", resume_answer(1, 9, Ok(None))),
        "ResumeAnswer { file_id: 1, offset: 0, ok: true, reason: None }"
    );
    assert_eq!(
        format!("{:?}", resume_answer(1, 9, Err("x".to_string()))),
        "ResumeAnswer { file_id: 1, offset: 0, ok: false, reason: Some(\"x\") }"
    );
}

#[test]
fn a_file_comes_in_from_its_offset() {
    let from = v4(1, 1, 1, 1, 1);
    let started =
        begin_receive(3, path("/r/a"), path("/r/a.part"), 10, 4, from, 6, 0).ok().unwrap();
    assert!(started.truncate);
    assert_eq!(
        events(&started.events),
        texts(&["receive started 3 /r/a.part 10", "log recebendo /r/a.part (offset 4)"])
    );
    let mut stream = started.stream;
    let (said, next) = stream.read(ReadOutcome::Written(3), 1);
    assert_eq!(events(&said), texts(&[]));
    assert_eq!(next, AfterRead::Continue);
    let (said, next) = stream.read(ReadOutcome::Written(3), 100_000_000);
    assert_eq!(events(&said), texts(&["receive progress 3 10 10"]));
    assert_eq!(next, AfterRead::Continue);
    let (said, next) = stream.read(ReadOutcome::End, 100_000_001);
    assert_eq!(events(&said), texts(&[]));
    assert_eq!(next, AfterRead::Rename);
    assert_eq!(events(&stream.renamed(None)), texts(&["received 3 /r/a Some(\"1.1.1.1:1\")"]));
    assert_eq!(
        events(&stream.renamed(Some("x".to_string()))),
        texts(&["log erro ao finalizar arquivo x", "receive failed 3 /r/a.part"])
    );
}

#[test]
fn a_missing_part_is_refused() {
    let from = v4(1, 1, 1, 1, 1);
    let refused =
        begin_receive(3, path("/r/a"), path("/r/a.part"), 10, 4, from, 3, 0).err().unwrap();
    assert_eq!(event(&refused.event), "receive failed 3 /r/a.part");
    assert_eq!(refused.error, "offset remoto 4 maior que parcial local 3");
    assert!(!begin_receive(3, path("/r/a"), path("/p"), 10, 4, from, 4, 0).ok().unwrap().truncate);
}

#[test]
fn incomplete_streams_are_told() {
    let from = v4(1, 1, 1, 1, 1);
    let begin = || {
        begin_receive(3, path("/r/a"), path("/r/a.part"), 10, 0, from, 0, 0).ok().unwrap().stream
    };
    let mut stream = begin();
    let _ = stream.read(ReadOutcome::Written(9), 1);
    let (said, next) = stream.read(ReadOutcome::End, 1);
    assert_eq!(
        events(&said),
        texts(&["receive progress 3 9 10", "log tamanho divergente 9 bytes (esperado 10)"])
    );
    assert_eq!(next, AfterRead::Finish);
    let (said, next) = begin().read(ReadOutcome::Reset, 1);
    assert_eq!(events(&said), texts(&["receive canceled 3 /r/a.part"]));
    assert_eq!(next, AfterRead::Finish);
    let (said, _) = begin().read(ReadOutcome::Failed("x".to_string()), 1);
    assert_eq!(
        events(&said),
        texts(&["log erro na leitura do stream x", "receive failed 3 /r/a.part"])
    );
    let (said, _) = begin().read(ReadOutcome::WriteFailed("x".to_string()), 1);
    assert_eq!(events(&said), texts(&["log erro ao gravar x", "receive failed 3 /r/a.part"]));
    let (said, next) = begin().read(ReadOutcome::Empty, 1);
    assert_eq!(events(&said), texts(&[]));
    assert_eq!(next, AfterRead::Finish);
}

// ---------------------------------------------------------------- packets

#[test]
fn a_peer_is_reached_until_its_time_is_over() {
    let bind = v4(0, 0, 0, 0, 9);
    let peer = v4(1, 1, 1, 1, 1);
    let (mut state, said) = DatagramState::new(bind, Some(peer), 1000);
    assert_eq!(events(&said), texts(&["log escutando 0.0.0.0:9", "connecting 1.1.1.1:1"]));
    let tick = |state: &mut DatagramState, now: u64| -> Vec<String> {
        actions(&state.tick(now).into_iter().collect::<Vec<_>>())
    };
    assert_eq!(tick(&mut state, 1000), texts(&["loose 1.1.1.1:1 Punch { nonce: 1 }"]));
    assert_eq!(tick(&mut state, 200_000_999), texts(&[]));
    assert_eq!(tick(&mut state, 200_001_000), texts(&["loose 1.1.1.1:1 Punch { nonce: 2 }"]));
    assert_eq!(tick(&mut state, 10_000_001_000), texts(&["timeout 1.1.1.1:1"]));
    assert_eq!(tick(&mut state, 10_000_001_000), texts(&[]));
}

#[test]
fn a_packet_from_the_peer_ends_the_search() {
    let (mut state, _) = DatagramState::new(v4(0, 0, 0, 0, 9), Some(v4(1, 1, 1, 1, 1)), 0);
    let hello = serialize_packet(&PacketMessage::Hello { version: 1 });
    let said = state.receive(&hello, v4(1, 1, 1, 1, 2));
    assert_eq!(actions(&said), texts(&["ensure", "connected 1.1.1.1:2"]));
    assert!(state.punch.is_none());
    let (mut state, _) = DatagramState::new(v4(0, 0, 0, 0, 9), Some(v4(1, 1, 1, 1, 1)), 0);
    let punch = serialize_packet(&PacketMessage::Punch { nonce: 1 });
    let said = state.receive(&punch, v4(2, 2, 2, 2, 2));
    assert_eq!(
        actions(&said),
        texts(&["send 2.2.2.2:2 Hello { version: 1 }", "connected 2.2.2.2:2"])
    );
    assert!(state.punch.is_some());
    let said = state.receive(&[1], v4(2, 2, 2, 2, 2));
    assert_eq!(said.len(), 1);
    let words = bincode::deserialize::<u32>(&[1]).unwrap_err().to_string();
    assert_eq!(actions(&said), vec![format!("log erro ao decodificar {words}")]);
}

#[test]
fn a_file_of_a_peer_is_created_under_its_last_name() {
    let from = v4(1, 1, 1, 1, 1);
    let (mut state, _) = DatagramState::new(v4(0, 0, 0, 0, 9), None, 0);
    for (name, kept) in [("a/b.txt", "b.txt"), ("a/..", "file.bin"), ("c.txt", "c.txt")] {
        let meta = PacketMessage::FileMeta { file_id: 4, name: name.to_string(), size: 3 };
        let (_, said) = state.handle_incoming_message(meta, from);
        assert_eq!(actions(&said), vec![format!("create 4 {kept} 3")]);
    }
}

#[test]
fn packets_are_kept_as_a_file() {
    let from = v4(1, 1, 1, 1, 1);
    let (mut state, _) = DatagramState::new(v4(0, 0, 0, 0, 9), None, 0);
    let meta = PacketMessage::FileMeta { file_id: 1, name: "../a.txt".to_string(), size: 3 };
    let said = state.receive(&serialize_packet(&meta), from);
    assert_eq!(actions(&said), texts(&["create 1 a.txt 3", "connected 1.1.1.1:1"]));
    assert_eq!(event(&state.session_ready(path("/r"))), "dir /r");
    assert_eq!(
        events(&state.file_created(1, path("/r/a.txt"), 3)),
        texts(&["receive started 1 /r/a.txt 3", "log recebendo /r/a.txt"])
    );
    let chunk = PacketMessage::FileChunk { file_id: 1, data: vec![7, 8, 9] };
    let (_, said) = state.handle_incoming_message(chunk, from);
    assert_eq!(actions(&said), texts(&["write 1 [7, 8, 9]"]));
    assert_eq!(
        events(&state.chunk_written(1, 3).into_iter().collect::<Vec<_>>()),
        texts(&["receive progress 1 3 3"])
    );
    let (_, said) = state.handle_incoming_message(PacketMessage::FileDone { file_id: 1 }, from);
    assert_eq!(actions(&said), texts(&["flush 1", "received 1 /r/a.txt None"]));
    let (_, said) = state.handle_incoming_message(PacketMessage::FileDone { file_id: 1 }, from);
    assert_eq!(actions(&said), texts(&[]));
    assert!(state.chunk_written(1, 3).is_none());
}

#[test]
fn short_and_canceled_files_are_told() {
    let from = v4(1, 1, 1, 1, 1);
    let (mut state, _) = DatagramState::new(v4(0, 0, 0, 0, 9), None, 0);
    let _ = state.file_created(1, path("/r/a"), 3);
    let (_, said) = state.handle_incoming_message(PacketMessage::FileDone { file_id: 1 }, from);
    assert_eq!(
        actions(&said),
        texts(&["flush 1", "received 1 /r/a None", "log tamanho divergente 0 bytes"])
    );
    let _ = state.file_created(2, path("/r/b"), 3);
    let (_, said) = state.handle_incoming_message(PacketMessage::Cancel { file_id: 2 }, from);
    assert_eq!(actions(&said), texts(&["remove 2 /r/b", "receive canceled 2 /r/b"]));
    let chunk = PacketMessage::FileChunk { file_id: 2, data: vec![1] };
    let (_, said) = state.handle_incoming_message(chunk, from);
    assert_eq!(actions(&said), texts(&[]));
    assert_eq!(event(&create_failed("x")), "log erro ao criar arquivo x");
    assert_eq!(event(&write_failed("x")), "log erro ao gravar x");
}

#[test]
fn packet_commands_are_answered() {
    let (mut state, said) = DatagramState::new(v4(0, 0, 0, 0, 9), None, 0);
    assert_eq!(events(&said), texts(&["log escutando 0.0.0.0:9"]));
    let (said, _) = state.handle_command(NetCommand::SendFiles(vec![path("/a")]), 0);
    assert_eq!(event(&said.unwrap()), "log parceiro nao definido");
    let (said, _) = state.handle_command(NetCommand::CancelTransfers, 0);
    assert_eq!(event(&said.unwrap()), "log cancelamento solicitado");
    let (said, _) = state.handle_command(NetCommand::ConnectPeer(v4(1, 1, 1, 1, 1)), 5);
    assert_eq!(event(&said.unwrap()), "connecting 1.1.1.1:1");
    assert_eq!(state.punch.map(|p| p.started), Some(5));
    let _ = state.handle_incoming_message(PacketMessage::Hello { version: 1 }, v4(1, 1, 1, 1, 1));
    let (said, then) = state.handle_command(NetCommand::SendFiles(vec![path("/a")]), 0);
    assert!(said.is_none());
    assert!(matches!(then, AfterCommand::SendFiles { files, .. } if files.len() == 1));
    let (_, then) = state.handle_command(NetCommand::Rebind(v4(1, 1, 1, 1, 1)), 0);
    assert!(matches!(then, AfterCommand::Continue));
    let (_, then) = state.handle_command(NetCommand::Shutdown, 0);
    assert!(matches!(then, AfterCommand::Stop));
    assert!(files_sent(Ok(SendOutcome::Completed)).0.is_none());
    assert_eq!(
        event(&files_sent(Ok(SendOutcome::Canceled)).0.unwrap()),
        "log transferencia cancelada"
    );
    assert!(files_sent(Ok(SendOutcome::Shutdown)).1);
    assert_eq!(
        event(&files_sent(Err("x".to_string())).0.unwrap()),
        "log erro ao enviar x"
    );
}

#[test]
fn a_file_arrives_in_packets_as_it_was_sent() {
    let peer = v4(1, 1, 1, 1, 1);
    let (mut session, hello) = PacketSession::start(vec![path("/d/a.bin")], 1);
    assert_eq!(packet_steps(&[hello]), texts(&["send Hello { version: 1 }"]));
    let mut queue = Vec::new();
    let mut pending = Vec::new();
    assert!(matches!(session.next_file(&mut queue, &mut pending), NextFile::Open(_)));
    assert_eq!(
        packet_steps(&session.opened(3)),
        texts(&[
            "send FileMeta { file_id: 1, name: \"a.bin\", size: 3 }",
            "send started 1 /d/a.bin 3"
        ])
    );
    let (mut state, _) = DatagramState::new(v4(0, 0, 0, 0, 9), None, 0);
    let _ = state.file_created(1, path("/r/a.bin"), 3);
    let mut kept: Vec<u8> = Vec::new();
    for piece in vec![vec![1u8, 2], vec![3]] {
        let (said, outcome) = session.read(piece, &mut queue, &mut pending);
        assert_eq!(outcome, SendOutcome::Completed);
        for step in said {
            if let PacketStep::Send(message) = step {
                let bytes = serialize_packet(&message);
                for action in state.receive(&bytes, peer) {
                    if let PacketAction::Write { file_id, data } = action {
                        let _ = state.chunk_written(file_id, data.len() as u64);
                        kept.extend(data);
                    }
                }
            }
        }
    }
    assert_eq!(kept, vec![1, 2, 3]);
    let said = session.file_ended();
    assert_eq!(
        packet_steps(&said),
        texts(&["send FileDone { file_id: 1 }", "sent 1 /d/a.bin"])
    );
    let done = serialize_packet(&PacketMessage::FileDone { file_id: 1 });
    assert_eq!(
        actions(&state.receive(&done, peer)),
        texts(&["flush 1", "received 1 /r/a.bin None"])
    );
}

#[test]
fn packets_stop_with_a_cancel() {
    let mut pending = Vec::new();
    let (mut session, _) = PacketSession::start(vec![path("/a")], 1);
    let _ = session.opened(3);
    let mut queue = vec![NetCommand::CancelTransfers];
    let (said, outcome) = session.read(vec![5], &mut queue, &mut pending);
    assert_eq!(outcome, SendOutcome::Canceled);
    assert_eq!(
        packet_steps(&said),
        texts(&[
            "send FileChunk { file_id: 1, data: [5] }",
            "send progress 1 1 3",
            "poll",
            "send Cancel { file_id: 1 }",
            "send canceled 1 /a"
        ])
    );
    let (mut session, _) = PacketSession::start(vec![path("/a")], 1);
    let _ = session.opened(3);
    let mut queue = vec![NetCommand::Shutdown];
    let (said, outcome) = session.read(vec![5], &mut queue, &mut pending);
    assert_eq!(outcome, SendOutcome::Shutdown);
    assert_eq!(said.len(), 4);
}

#[test]
fn servers_are_asked_in_turn() {
    let mut search = StunSearch::new(texts(&["a:1", "b:2", "c:3"]));
    assert_eq!(search.next(), Ok("a:1".to_string()));
    assert_eq!(search.asked(StunAttempt::Unresolved("x".to_string())), None);
    assert_eq!(search.last_err, Some("falha ao resolver STUN a:1: x".to_string()));
    assert_eq!(search.asked(StunAttempt::Failed("y".to_string())), None);
    assert_eq!(search.next(), Ok("c:3".to_string()));
    assert_eq!(
        search.asked(StunAttempt::Found(v4(1, 2, 3, 4, 5))),
        Some(v4(1, 2, 3, 4, 5))
    );
    assert_eq!(search.next(), Err("falha STUN b:2: y".to_string()));
    assert_eq!(StunSearch::new(vec![]).next(), Err("STUN sem servidores".to_string()));
    assert_eq!(datagram::stun_server_list(Some(" a:1, ,b:2 ")), texts(&["a:1", "b:2"]));
    assert_eq!(datagram::stun_server_list(Some(" , ")).len(), 5);
    assert_eq!(datagram::stun_server_list(None)[0], "stun.cloudflare.com:53");
}

#[test]
fn the_public_endpoint_is_told() {
    assert_eq!(
        events(&endpoint_events(Ok(Some(v4(1, 2, 3, 4, 5))))),
        texts(&["public 1.2.3.4:5", "log endpoint publico 1.2.3.4:5"])
    );
    assert_eq!(events(&endpoint_events(Ok(None))), texts(&["log stun indisponivel"]));
    assert_eq!(
        events(&endpoint_events(Err("x".to_string()))),
        texts(&["log stun erro x"])
    );
}

// ---------------------------------------------------------------- finding the endpoint

fn response(kind: u8, value: &[u8], txid: &[u8; 12]) -> Vec<u8> {
    let mut data = vec![1, 1, 0, (value.len() + 4) as u8, 0x21, 0x12, 0xa4, 0x42];
    data.extend_from_slice(txid);
    data.extend_from_slice(&[0, kind, 0, value.len() as u8]);
    data.extend_from_slice(value);
    data
}

#[test]
fn requests_carry_their_id() {
    let txid = [1, 2, 3, 4, 5, 6, 7, 8, 9, 10, 11, 12];
    let request = build_stun_request(txid);
    assert_eq!(request[..8], [0, 1, 0, 0, 0x21, 0x12, 0xa4, 0x42]);
    assert_eq!(request[8..], txid);
}

#[test]
fn successive_ids_differ() {
    let mut seed: u128 = 255;
    let first = next_transaction_id(&mut seed);
    let second = next_transaction_id(&mut seed);
    assert_ne!(first, second);
    assert_eq!(first[10..], [1, 0]);
    assert_eq!(second[10..], [1, 1]);
}

#[test]
fn plain_and_masked_addresses_are_read() {
    let plain = [0, 1, 0x12, 0x34, 10, 0, 0, 7];
    assert_eq!(parse_mapped_address(&plain), Some(v4(10, 0, 0, 7, 0x1234)));
    assert_eq!(parse_mapped_address(&plain[..7]), None);
    assert_eq!(parse_mapped_address(&[0, 3, 0, 0, 1, 1, 1, 1]), None);
    let txid = [0u8; 12];
    let masked = [0, 1, 0x12 ^ 0x21, 0x34 ^ 0x12, 10 ^ 0x21, 0x12, 0xa4, 7 ^ 0x42];
    assert_eq!(parse_xor_mapped_address(&masked, &txid), Some(v4(10, 0, 0, 7, 0x1234)));
}

#[test]
fn a_response_is_read_as_what_the_server_saw() {
    let txid = [9u8; 12];
    let mut masked = vec![0, 2, 0x21, 0x12 ^ 5];
    let ip: [u8; 16] = [0x20, 1, 0xd, 0xb8, 0, 0, 0, 0, 0, 0, 0, 0, 0, 0, 0, 7];
    let mask: Vec<u8> = [0x21u8, 0x12, 0xa4, 0x42].iter().chain(txid.iter()).copied().collect();
    for i in 0..16 {
        masked.push(ip[i] ^ mask[i]);
    }
    let data = response(0x20, &masked, &txid);
    assert_eq!(parse_stun_response(&data), Some((txid, v6(7, 5))));
    let mut wrong = data.clone();
    wrong[0] = 0;
    assert_eq!(parse_stun_response(&wrong), None);
    assert_eq!(parse_stun_response(&data[..19]), None);
    let other = response(0x06, &[1, 2, 3, 4], &txid);
    assert_eq!(parse_stun_response(&other), None);
}

#[test]
fn a_probe_accepts_only_answers_to_its_requests() {
    let bind = v4(0, 0, 0, 0, 0);
    let mut probe = StunProbe::new(bind, 1);
    let plain = [0, 1, 0x12, 0x34, 10, 0, 0, 7];
    assert_eq!(probe.received(ProbeRead::Datagram(response(1, &plain, &[0u8; 12]))), None);
    probe.requests.push([3u8; 12]);
    assert_eq!(probe.received(ProbeRead::Datagram(response(1, &plain, &[0u8; 12]))), None);
    assert_eq!(probe.received(ProbeRead::Idle), None);
    assert_eq!(
        probe.received(ProbeRead::Datagram(response(1, &plain, &[3u8; 12]))),
        Some(v4(10, 0, 0, 7, 0x1234))
    );
    let mut probe6 = StunProbe::new(v6(0, 0), 1);
    probe6.requests.push([3u8; 12]);
    assert_eq!(probe6.received(ProbeRead::Datagram(response(1, &plain, &[3u8; 12]))), None);
}

#[test]
fn a_probe_notes_what_went_wrong() {
    let mut probe = StunProbe::new(v4(0, 0, 0, 0, 0), 4);
    assert_eq!(probe.patience(), Err("STUN sem servidores".to_string()));
    assert_eq!(probe.expired(), "STUN sem resposta");
    assert!(probe.resolved("a:1", Ok(vec![])).is_none());
    assert_eq!(probe.patience(), Err("falha ao resolver STUN a:1: STUN sem endereco".to_string()));
    assert!(probe.resolved("a:1", Err("x".to_string())).is_none());
    assert_eq!(probe.expired(), "falha ao resolver STUN a:1: x");
    let (txid, request, to) = probe.resolved("a:1", Ok(vec![v4(1, 1, 1, 1, 1)])).unwrap();
    assert_eq!(txid[11], 5);
    assert_eq!(request[8..], txid);
    assert_eq!(to, v4(1, 1, 1, 1, 1));
    probe.sent("a:1", txid, Err("y".to_string()));
    assert_eq!(probe.expired(), "falha STUN a:1: y");
    assert!(!probe.awaits(&txid));
    probe.sent("a:1", txid, Ok(()));
    probe.sent("a:1", [0u8; 12], Ok(()));
    assert!(probe.awaits(&txid));
    assert_eq!(probe.patience(), Ok(2000));
    assert_eq!(probe.received(ProbeRead::Failed("z".to_string())), None);
    assert_eq!(probe.expired(), "falha ao receber STUN: z");
}

#[test]
fn servers_depend_on_configuration_and_family() {
    assert_eq!(stun_server_list(v4(0, 0, 0, 0, 0), Some("x:1,y:2")), texts(&["x:1", "y:2"]));
    assert_eq!(stun_server_list(v4(0, 0, 0, 0, 0), None).len(), 12);
    assert_eq!(stun_server_list(v6(0, 0), None).len(), 13);
    assert_eq!(stun_server_list(v6(0, 0), None)[11], "stunserver.org:3478");
}

#[test]
fn a_server_address_of_the_family_comes_first() {
    let both = vec![v6(1, 1), v4(1, 1, 1, 1, 1)];
    assert_eq!(pick_server_addr(&both, v4(0, 0, 0, 0, 0)), Some(v4(1, 1, 1, 1, 1)));
    assert_eq!(pick_server_addr(&both, v6(0, 0)), Some(v6(1, 1)));
    assert_eq!(pick_server_addr(&vec![v6(1, 1)], v4(0, 0, 0, 0, 0)), None);
    assert_eq!(pick_server_addr(&vec![], v4(0, 0, 0, 0, 0)), None);
}

#[test]
fn the_packet_transport_falls_back_on_the_first_address() {
    let both = vec![v6(1, 1), v4(1, 1, 1, 1, 1)];
    let any = v4(0, 0, 0, 0, 0);
    assert_eq!(datagram::pick_server_addr(&both, any), Some(v4(1, 1, 1, 1, 1)));
    assert_eq!(datagram::pick_server_addr(&both, v6(0, 0)), Some(v6(1, 1)));
    assert_eq!(datagram::pick_server_addr(&vec![v6(1, 1), v6(2, 2)], any), Some(v6(1, 1)));
    assert_eq!(datagram::pick_server_addr(&vec![], any), None);
}

#[test]
fn a_server_of_another_family_is_not_asked() {
    let mut probe = StunProbe::new(v4(0, 0, 0, 0, 0), 5);
    assert!(probe.resolved("a:1", Ok(vec![v6(1, 1)])).is_none());
    assert_eq!(probe.expired(), "falha ao resolver STUN a:1: STUN sem endereco");
    let (_, _, to) = probe.resolved("b:1", Ok(vec![v6(1, 1), v4(1, 1, 1, 1, 1)])).unwrap();
    assert_eq!(to, v4(1, 1, 1, 1, 1));
}
