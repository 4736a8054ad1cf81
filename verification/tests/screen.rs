//! The screens on concrete values.

use pasta_p2p::addr::{IpAddr, Ipv4Addr, Ipv6Addr, SocketAddr};
use pasta_p2p::net::commands::NetEvent;
use pasta_p2p::path::{FilePath, PathPart, RANK_NAME, RANK_ROOT};
use pasta_p2p::ui::components::{
    hit_target, Button, ButtonAction, ClickTarget, ReceivedClickAction, ReceivedClickTarget,
};
use pasta_p2p::ui::events::{
    bind_for_mode, cancel_sent, connect_sent, copied, copy_local_ip, copy_public_endpoint,
    files_sent, handle_button_action, handle_key, handle_mode_change, handle_mouse_event,
    handle_net_event, handle_peer_input_key, mouse_capture_set, opened, parse_peer_addr, pasted,
    picked, rebind_sent, start_connect, Key, MouseKind, OpenOutcome, Request, Surroundings,
};
use pasta_p2p::ui::geometry::{
    inner_block_area, point_in_rect, received_folder_button_rect, received_open_button_rect, Rect,
};
use pasta_p2p::ui::history::{
    classify_download, collect_downloads, is_download_meta_file, relative_download_key,
    store_download_peer, DownloadPeer, FoundFile,
};
use pasta_p2p::ui::local_ips::detect_local_ips;
use pasta_p2p::ui::screen::{AppState, ConnectStatus};
use pasta_p2p::ui::state::{
    self, ActiveTab, DownloadKind, HistoryContext, HistoryFilter, HistoryScan, IncomingStatus,
    IpMode, LocalIps, LogLevel, LogLevelFilter, OutgoingStatus,
};
use pasta_p2p::ui::style::{
    button_style, log_style, mode_button_style, primary_button_style, Rgb, Theme,
};
use pasta_p2p::ui::view::{
    build_received_click_targets, byte_unit, draw_ui, format_bytes,
    max_received_entries_for_area, panel_areas, progress_bar, render_incoming_action_line,
    render_incoming_info_line, render_outgoing_item, screen_areas, truncate_keep_end, TextLine,
    Widget,
};

fn v4(a: u8, b: u8, c: u8, d: u8, port: u16) -> SocketAddr {
    SocketAddr::new(IpAddr::V4(Ipv4Addr { a, b, c, d }), port)
}

fn ip4(a: u8, b: u8, c: u8, d: u8) -> IpAddr {
    IpAddr::V4(Ipv4Addr { a, b, c, d })
}

fn ip6(first: u16, last: u16) -> IpAddr {
    IpAddr::V6(Ipv6Addr { s0: first, s1: 0, s2: 0, s3: 0, s4: 0, s5: 0, s6: 0, s7: last })
}

fn path(text: &str) -> FilePath {
    let mut parts = Vec::new();
    if text.starts_with('/') {
        parts.push(PathPart { rank: RANK_ROOT, bytes: Vec::new() });
    }
    for name in text.split('/') {
        if !name.is_empty() {
            parts.push(PathPart { rank: RANK_NAME, bytes: name.as_bytes().to_vec() });
        }
    }
    FilePath { text: text.to_string(), parts }
}

fn rect(x: u16, y: u16, width: u16, height: u16) -> Rect {
    Rect { x, y, width, height }
}

fn both() -> Option<Vec<IpAddr>> {
    Some(vec![ip4(192, 168, 0, 7), ip6(0x2001, 7)])
}

fn app() -> AppState {
    AppState::new(v4(0, 0, 0, 0, 9000), None, &both())
}

fn around() -> Surroundings {
    Surroundings { input_addr: None, interfaces: both() }
}

fn line_text(line: &TextLine) -> String {
    line.spans.iter().map(|s| s.text.as_str()).collect()
}

fn tell(app: &mut AppState, event: NetEvent, now: u64) {
    handle_net_event(app, event, now, &both());
}

// ---------------------------------------------------------------- geometry

#[test]
fn points_lie_in_half_open_rectangles() {
    let r = rect(2, 3, 4, 5);
    assert!(point_in_rect(2, 3, r));
    assert!(point_in_rect(5, 7, r));
    assert!(!point_in_rect(6, 3, r));
    assert!(!point_in_rect(2, 8, r));
    assert!(!point_in_rect(1, 3, r));
}

#[test]
fn borders_take_one_cell_on_each_side() {
    assert_eq!(inner_block_area(rect(1, 1, 10, 5)), rect(2, 2, 8, 3));
    assert_eq!(inner_block_area(rect(1, 1, 2, 5)), rect(0, 0, 0, 0));
}

#[test]
fn received_buttons_stand_at_the_right_end() {
    let list = rect(0, 0, 42, 10);
    assert_eq!(received_open_button_rect(list, 1), rect(26, 2, 7, 1));
    assert_eq!(received_folder_button_rect(list, 1), rect(34, 2, 7, 1));
    assert_eq!(received_open_button_rect(list, 8), rect(0, 0, 0, 0));
    assert_eq!(received_open_button_rect(rect(0, 0, 17, 10), 0), rect(0, 0, 0, 0));
    let open = received_open_button_rect(list, 1);
    let folder = received_folder_button_rect(list, 1);
    assert!(!point_in_rect(folder.x, folder.y, open));
}

#[test]
fn the_first_target_under_the_mouse_is_hit() {
    let button = |x: u16| Button {
        label: "b".to_string(),
        area: rect(x, 0, 3, 1),
        action: ButtonAction::Quit,
    };
    let buttons = vec![button(0), button(2), button(9)];
    assert_eq!(hit_target(&buttons, 2, 0), Some(0));
    assert_eq!(hit_target(&buttons, 3, 0), Some(1));
    assert_eq!(hit_target(&buttons, 7, 0), None);
    assert_eq!(buttons[2].area(), rect(9, 0, 3, 1));
    assert!(buttons[2].contains(11, 0));
}

// ---------------------------------------------------------------- colours

#[test]
fn buttons_change_with_the_mouse() {
    let theme = Theme::default_dark();
    assert_eq!(theme.accent, Rgb { r: 99, g: 179, b: 237 });
    let still = button_style(theme, theme.ok, false, true);
    assert_eq!((still.fg, still.bg), (Some(theme.ok), Some(theme.panel)));
    let under = button_style(theme, theme.ok, true, true);
    assert_eq!((under.fg, under.bg), (Some(theme.bg), Some(theme.ok)));
    let off = button_style(theme, theme.ok, true, false);
    assert!(off.dim && !off.bold);
    assert_eq!(mode_button_style(theme, true, false, true).bg, Some(theme.ok));
    assert_eq!(mode_button_style(theme, true, false, false).bg, Some(theme.warn));
    assert_eq!(mode_button_style(theme, false, true, true).bg, Some(theme.info));
    assert!(mode_button_style(theme, false, true, false).dim);
    assert_eq!(primary_button_style(theme, false).bg, Some(Rgb { r: 26, g: 30, b: 38 }));
    assert_eq!(primary_button_style(theme, true).bg, Some(theme.accent));
}

#[test]
fn log_lines_are_coloured_by_their_words() {
    let theme = Theme::default_dark();
    assert_eq!(log_style(theme, "ERRO conectado").fg, Some(theme.danger));
    assert_eq!(log_style(theme, "Cancelado").fg, Some(theme.warn));
    assert_eq!(log_style(theme, "tempo esgotado").fg, Some(theme.warn));
    assert_eq!(log_style(theme, "conectado x").fg, Some(theme.ok));
    assert_eq!(log_style(theme, "conectando x").fg, Some(theme.warn));
    assert_eq!(log_style(theme, "olá").fg, Some(theme.text));
}

// ---------------------------------------------------------------- local addresses

#[test]
fn usable_local_addresses_are_chosen() {
    let list = Some(vec![
        ip4(127, 0, 0, 1),
        ip4(169, 254, 0, 1),
        ip4(10, 0, 0, 1),
        ip4(10, 0, 0, 2),
        ip6(0xfe80, 1),
        ip6(0xfd00, 2),
        ip6(0x2001, 3),
    ]);
    let found = detect_local_ips(&list);
    assert_eq!(found.v4, Some(Ipv4Addr { a: 10, b: 0, c: 0, d: 1 }));
    assert_eq!(found.v6.map(IpAddr::V6), Some(ip6(0x2001, 3)));
    let local = detect_local_ips(&Some(vec![ip6(0xff02, 1), ip6(0xfd00, 2)]));
    assert_eq!(local.v4, None);
    assert_eq!(local.v6.map(IpAddr::V6), Some(ip6(0xfd00, 2)));
    let none = detect_local_ips(&None);
    assert!(!none.has_v4() && !none.has_v6());
}

#[test]
fn a_mode_falls_back_to_what_is_there() {
    assert_eq!(IpMode::Ipv4.fallback(true, true), IpMode::Ipv4);
    assert_eq!(IpMode::Ipv6.fallback(true, false), IpMode::Ipv4);
    assert_eq!(IpMode::Ipv4.fallback(false, true), IpMode::Ipv6);
    assert_eq!(IpMode::Ipv4.fallback(false, false), IpMode::Ipv6);
    let ips = LocalIps { v4: Some(Ipv4Addr { a: 1, b: 2, c: 3, d: 4 }), v6: None };
    assert_eq!(ips.current_for_mode(IpMode::Ipv4), Some(ip4(1, 2, 3, 4)));
    assert_eq!(ips.current_for_mode(IpMode::Ipv6), None);
}

// ---------------------------------------------------------------- the screen with tabs

#[test]
fn choices_come_round() {
    assert_eq!(ActiveTab::Transfers.next().next().next(), ActiveTab::Transfers);
    let mut filter = LogLevelFilter::All;
    for label in ["todos", "info", "warn", "erro"] {
        assert_eq!(filter.label(), label);
        filter = filter.next();
    }
    assert_eq!(filter, LogLevelFilter::All);
    let mut filter = HistoryFilter::All.next();
    for _ in 1..6 {
        assert_ne!(filter, HistoryFilter::All);
        filter = filter.next();
    }
    assert_eq!(filter, HistoryFilter::All);
    assert!(LogLevelFilter::Warn.matches(LogLevel::Warn));
    assert!(!LogLevelFilter::Warn.matches(LogLevel::Info));
    assert_eq!(LogLevel::Error.label(), "ERRO");
}

#[test]
fn statuses_have_words() {
    assert_eq!(OutgoingStatus::Pending.label(), "pendente");
    assert_eq!(OutgoingStatus::Sending.label(), "enviando");
    assert_eq!(OutgoingStatus::Sent.label(), "enviado");
    assert_eq!(OutgoingStatus::Canceled.label(), "cancelado");
    assert_eq!(IncomingStatus::Receiving.label(), "recebendo");
    assert_eq!(IncomingStatus::Done.label(), "recebido");
    assert_eq!(IncomingStatus::Canceled.label(), "cancelado");
    assert_eq!(ConnectStatus::Idle.label(), "aguardando");
    assert_eq!(ConnectStatus::Timeout(v4(1, 1, 1, 1, 1)).label(), "tempo esgotado 1.1.1.1:1");
}

#[test]
fn downloads_are_sorted_by_their_extension() {
    let kind = |p: &str| classify_download(&path(p));
    assert_eq!(kind("/a/b.MP3"), DownloadKind::Media);
    assert_eq!(kind("/a/b.md"), DownloadKind::Document);
    assert_eq!(kind("/a/b.tar.gz"), DownloadKind::Archive);
    assert_eq!(kind("/a/b.AppImage"), DownloadKind::Binary);
    assert_eq!(kind("/a/.pdf"), DownloadKind::Other);
    assert_eq!(kind("/a/pdf"), DownloadKind::Other);
    assert!(is_download_meta_file(&path("/r/.download_meta.json.tmp")));
    assert!(!is_download_meta_file(&path("/r/x.download_meta.json")));
}

#[test]
fn a_noted_peer_is_found_again() {
    let mut index: Vec<DownloadPeer> = Vec::new();
    store_download_peer(&mut index, "sub\\a.txt", "1.1.1.1:1");
    store_download_peer(&mut index, "sub/a.txt", "2.2.2.2:2");
    assert_eq!(index.len(), 1);
    assert_eq!(relative_download_key("sub\\a.txt"), "sub/a.txt");
    let found = vec![
        FoundFile {
            path: path("/r/old"),
            relative: Some("old".to_string()),
            size: Some(1),
            modified: Some(5),
        },
        FoundFile {
            path: path("/r/sub/a.txt"),
            relative: Some("sub/a.txt".to_string()),
            size: None,
            modified: Some(9),
        },
        FoundFile { path: path("/r/none"), relative: None, size: None, modified: None },
    ];
    let list = collect_downloads(found, &index);
    let names: Vec<&str> = list.iter().map(|d| d.name.as_str()).collect();
    assert_eq!(names, vec!["a.txt", "old", "none"]);
    assert_eq!(list[0].from_peer, Some("2.2.2.2:2".to_string()));
    assert_eq!(list[0].size, 0);
    assert_eq!(list[1].from_peer, None);
}

fn tabbed() -> state::AppState {
    let files = vec![
        FoundFile {
            path: path("/r/big.mp4"),
            relative: None,
            size: Some(50_000_000),
            modified: Some(0),
        },
        FoundFile {
            path: path("/r/new.pdf"),
            relative: Some("new.pdf".to_string()),
            size: Some(10),
            modified: Some(700_000_000_000_000),
        },
    ];
    let index = vec![DownloadPeer { key: "new.pdf".to_string(), peer: "1.1.1.1:1".to_string() }];
    state::AppState::new(
        v4(0, 0, 0, 0, 1),
        Some(v4(2, 2, 2, 2, 2)),
        Some("ana".to_string()),
        &both(),
        HistoryScan::Found { files, index, error: None },
    )
}

#[test]
fn a_new_screen_connects_to_its_peer() {
    let app = tabbed();
    assert_eq!(app.peer_input, "2.2.2.2:2");
    assert_eq!(app.connect_status.label(), "conectando 2.2.2.2:2");
    assert_eq!(app.mode_label(), "IPv4");
    assert_eq!(app.peer_addr, None);
    assert_eq!(app.history_entries[0].name, "new.pdf");
}

#[test]
fn downloads_are_filtered() {
    let mut app = tabbed();
    let at = |input: Option<SocketAddr>| HistoryContext {
        now: 710_000_000_000_000,
        input_addr: input,
    };
    let shown = |app: &state::AppState, input: Option<SocketAddr>| -> Vec<String> {
        app.filtered_history(at(input))
            .iter()
            .map(|i| app.history_entries[*i].name.clone())
            .collect()
    };
    assert_eq!(shown(&app, None).len(), 2);
    app.cycle_history_filter(at(None));
    assert_eq!(shown(&app, None).len(), 0);
    assert_eq!(shown(&app, Some(v4(1, 1, 1, 1, 1))), vec!["new.pdf"]);
    app.cycle_history_filter(at(None));
    assert_eq!(shown(&app, None), vec!["new.pdf"]);
    app.cycle_history_filter(at(None));
    assert_eq!(shown(&app, None), vec!["big.mp4"]);
    app.cycle_history_filter(at(None));
    assert_eq!(shown(&app, None), vec!["big.mp4"]);
    app.cycle_history_filter(at(None));
    assert_eq!(shown(&app, None), vec!["new.pdf"]);
    app.cycle_history_filter(at(None));
    app.set_history_query("BIG".to_string(), at(None));
    assert_eq!(shown(&app, None), vec!["big.mp4"]);
}

#[test]
fn downloads_scroll_within_what_is_shown() {
    let mut app = tabbed();
    let at = || HistoryContext { now: 0, input_addr: None };
    app.set_history_view_height(1, at());
    assert_eq!(app.max_history_scroll(at()), 1);
    app.scroll_history_down(9, at());
    assert_eq!(app.history_scroll, 1);
    app.scroll_history_up(9);
    assert_eq!(app.history_scroll, 0);
}

#[test]
fn a_missing_downloads_directory_is_told() {
    let mut app = tabbed();
    app.refresh_history(HistoryScan::Missing);
    assert_eq!(app.history_entries.len(), 0);
    assert_eq!(app.history_status, Some("pasta 'received' não encontrada".to_string()));
}

#[test]
fn a_download_goes_on_top_once() {
    let mut app = tabbed();
    let file = FoundFile {
        path: path("/r/big.mp4"),
        relative: None,
        size: Some(3),
        modified: Some(1),
    };
    app.push_history_entry(
        file,
        Some("9.9.9.9:9".to_string()),
        Some("cheio".to_string()),
        LogLevel::Error,
    );
    assert_eq!(app.history_entries.len(), 2);
    assert_eq!(app.history_entries[0].size, 3);
    assert_eq!(app.history_entries[0].from_peer, Some("9.9.9.9:9".to_string()));
    assert_eq!(app.logs[0].message, "erro ao salvar historico de downloads: cheio");
}

#[test]
fn logs_are_filtered_and_bounded() {
    let mut app = tabbed();
    for i in 0..205 {
        let level = if i % 2 == 0 { LogLevel::Info } else { LogLevel::Warn };
        app.push_log_with_level(level, format!("linha {i}"));
    }
    assert_eq!(app.logs.len(), 200);
    assert_eq!(app.logs[0].message, "linha 5");
    assert_eq!(app.unsaved_logs.len(), 205);
    app.set_logs_view_height(10);
    app.scroll_logs_bottom();
    assert_eq!(app.logs_scroll, 190);
    app.cycle_log_filter();
    assert_eq!(app.visible_logs_len(), 100);
    assert_eq!(app.logs_scroll, 90);
    app.set_log_query("LINHA 20".to_string());
    let shown: Vec<String> =
        app.visible_logs().iter().map(|i| app.logs[*i].message.clone()).collect();
    assert_eq!(shown, vec!["linha 20", "linha 200", "linha 202", "linha 204"]);
    app.scroll_logs_top();
    app.set_log_filter(LogLevelFilter::All);
    app.scroll_logs_down(3);
    app.scroll_logs_up(1);
    assert_eq!(app.logs_scroll, 0);
}

#[test]
fn tabs_and_modes_change() {
    let mut app = tabbed();
    app.peer_focus = true;
    app.set_active_tab(ActiveTab::Transfers);
    assert!(app.peer_focus && !app.needs_clear);
    app.set_active_tab(ActiveTab::Events);
    assert!(!app.peer_focus && app.needs_clear);
    app.local_ip = LocalIps { v4: None, v6: None };
    app.select_mode(IpMode::Ipv6, LogLevel::Warn);
    assert_eq!(app.logs[0].message, "modo IPv6 sem ip local");
    assert_eq!(app.current_local_ip(), None);
    app.public_endpoint = Some(v4(1, 1, 1, 1, 1));
    assert_eq!(app.current_public_endpoint(), None);
    app.select_mode(IpMode::Ipv4, LogLevel::Warn);
    assert_eq!(app.current_public_endpoint(), Some(v4(1, 1, 1, 1, 1)));
}

// ---------------------------------------------------------------- news

#[test]
fn news_of_the_connection_change_the_screen() {
    let mut app = app();
    tell(&mut app, NetEvent::PeerConnecting(v4(1, 1, 1, 1, 1)), 0);
    assert_eq!(app.connect_status.label(), "conectando 1.1.1.1:1");
    tell(&mut app, NetEvent::PeerConnected(v4(1, 1, 1, 1, 1)), 0);
    assert_eq!(app.peer_addr, Some(v4(1, 1, 1, 1, 1)));
    tell(&mut app, NetEvent::PeerTimeout(v4(2, 2, 2, 2, 2)), 0);
    assert_eq!(app.peer_addr, Some(v4(1, 1, 1, 1, 1)));
    tell(&mut app, NetEvent::PeerTimeout(v4(1, 1, 1, 1, 1)), 0);
    assert_eq!(app.peer_addr, None);
    assert_eq!(app.logs.last().map(|s| s.as_str()), Some("tempo esgotado 1.1.1.1:1"));
    tell(&mut app, NetEvent::PublicEndpoint(v4(3, 3, 3, 3, 3)), 0);
    assert_eq!(app.current_public_endpoint(), Some(v4(3, 3, 3, 3, 3)));
    tell(&mut app, NetEvent::Bound(v4(0, 0, 0, 0, 5)), 0);
    assert_eq!(app.public_endpoint, None);
    assert_eq!(app.stun_status, Some("stun...".to_string()));
    assert_eq!(app.bind_addr, v4(0, 0, 0, 0, 5));
    tell(&mut app, NetEvent::Log("STUN Erro: x".to_string()), 0);
    assert_eq!(app.stun_status, Some("stun falhou".to_string()));
    tell(&mut app, NetEvent::Log("stun indisponivel".to_string()), 0);
    assert_eq!(app.stun_status, Some("stun indisponivel".to_string()));
    tell(&mut app, NetEvent::Log("endpoint publico x".to_string()), 0);
    assert_eq!(app.stun_status, None);
    tell(&mut app, NetEvent::SessionDir(path("/r")), 0);
    assert_eq!(app.logs.last().map(|s| s.as_str()), Some("diretorio da sessao /r"));
}

#[test]
fn news_of_sent_files_change_the_list() {
    let mut app = app();
    picked(&mut app, Some(vec![path("/a"), path("/b")]));
    assert_eq!(app.selected.len(), 2);
    assert!(app.needs_clear);
    tell(&mut app, NetEvent::SendStarted { file_id: 1, path: path("/b"), size: 10 }, 0);
    assert_eq!(app.selected[1].status, OutgoingStatus::Sending);
    tell(&mut app, NetEvent::SendProgress { file_id: 1, bytes_sent: 20, size: 10 }, 0);
    assert_eq!(app.selected[1].sent_bytes, 10);
    tell(&mut app, NetEvent::SendProgress { file_id: 1, bytes_sent: 4, size: 10 }, 0);
    assert_eq!(app.selected[1].sent_bytes, 4);
    tell(&mut app, NetEvent::FileSent { file_id: 1, path: path("/b") }, 0);
    assert_eq!(app.selected[1].status, OutgoingStatus::Sent);
    assert_eq!(app.selected[1].sent_bytes, 10);
    tell(&mut app, NetEvent::SendCanceled { file_id: 7, path: path("/a") }, 0);
    assert_eq!(app.selected[0].status, OutgoingStatus::Canceled);
    assert_eq!(app.logs, vec!["enviado /b".to_string(), "cancelado /a".to_string()]);
}

#[test]
fn news_of_received_files_change_the_list() {
    let mut app = app();
    tell(&mut app, NetEvent::ReceiveStarted { file_id: 1, path: path("/r/a"), size: 1000 }, 0);
    let progress = |n: u64| NetEvent::ReceiveProgress { file_id: 1, bytes_received: n, size: 1000 };
    tell(&mut app, progress(100), 249_999_999);
    assert_eq!(app.received[0].rate.bytes, 0);
    tell(&mut app, progress(300), 250_000_000);
    assert_eq!(app.received[0].rate.bytes, 300);
    assert_eq!(app.received[0].rate.nanos, 250_000_000);
    assert_eq!(app.received[0].received_bytes, 300);
    tell(
        &mut app,
        NetEvent::FileReceived { file_id: 1, path: path("/r/a"), from: None },
        250_000_001,
    );
    assert_eq!(app.received[0].status, IncomingStatus::Done);
    assert_eq!(app.received[0].received_bytes, 1000);
    assert_eq!(app.received[0].rate.bytes, 0);
    tell(&mut app, progress(500), 250_000_002);
    assert_eq!(app.received[0].status, IncomingStatus::Receiving);
    tell(&mut app, NetEvent::ReceiveCanceled { file_id: 1, path: path("/r/a") }, 0);
    assert_eq!(app.received[0].status, IncomingStatus::Canceled);
    assert_eq!(
        app.logs,
        vec!["recebido /r/a".to_string(), "recebimento cancelado /r/a".to_string()]
    );
}

#[test]
fn the_log_of_the_screen_is_bounded() {
    let mut app = app();
    app.set_logs_view_height(10);
    for i in 0..203 {
        app.push_log(format!("{i}"));
    }
    assert_eq!(app.logs.len(), 200);
    assert_eq!(app.logs[0], "3");
    assert_eq!(app.logs_scroll, 190);
    app.scroll_logs_up(5);
    app.push_log("x".to_string());
    assert_eq!(app.logs_scroll, 184);
    app.scroll_logs_down(usize::MAX - 184);
    assert_eq!(app.logs_scroll, app.max_logs_scroll());
}

// ---------------------------------------------------------------- requests

#[test]
fn an_address_is_needed_to_connect() {
    let mut app = app();
    assert!(matches!(start_connect(&mut app, None), Request::Nothing));
    assert_eq!(app.logs, vec!["endereco do parceiro invalido".to_string()]);
    app.peer_input = " 1.1.1.1:1 ".to_string();
    let peer = v4(1, 1, 1, 1, 1);
    assert!(matches!(start_connect(&mut app, Some(peer)), Request::Connect(a) if a == peer));
    connect_sent(&mut app, peer, Some("x".to_string()));
    assert_eq!(app.connect_status.label(), "aguardando");
    assert_eq!(app.logs[1], "erro ao enviar conexao x");
    connect_sent(&mut app, peer, None);
    assert_eq!(app.connect_status.label(), "conectando 1.1.1.1:1");
    assert_eq!(parse_peer_addr("  ", Some(peer)), None);
    assert_eq!(parse_peer_addr("1.1.1.1:1", Some(peer)), Some(peer));
}

#[test]
fn changing_the_mode_listens_elsewhere() {
    let mut app = app();
    assert!(matches!(handle_mode_change(&mut app, IpMode::Ipv4, &both()), Request::Nothing));
    match handle_mode_change(&mut app, IpMode::Ipv6, &both()) {
        Request::Rebind(addr) => assert_eq!(addr.text(), "[::]:9000"),
        _ => panic!("no rebind"),
    }
    assert_eq!(app.bind_addr.text(), "[::]:9000");
    assert!(app.needs_clear);
    rebind_sent(&mut app, Some("x".to_string()));
    assert_eq!(app.logs, vec!["erro ao trocar modo x".to_string()]);
    assert_eq!(bind_for_mode(v4(1, 2, 3, 4, 5), IpMode::Ipv4), v4(1, 2, 3, 4, 5));
}

#[test]
fn pending_files_are_sent() {
    let mut app = app();
    let press = |app: &mut AppState, action| handle_button_action(app, action, &around());
    assert!(matches!(press(&mut app, ButtonAction::SendFiles), Request::Nothing));
    picked(&mut app, Some(vec![path("/a"), path("/b")]));
    app.selected[0].status = OutgoingStatus::Sent;
    match press(&mut app, ButtonAction::SendFiles) {
        Request::SendFiles(files) => {
            assert_eq!(files.len(), 1);
            assert_eq!(files[0].text, "/b");
        }
        _ => panic!("no files"),
    }
    app.selected[1].status = OutgoingStatus::Sent;
    assert!(matches!(press(&mut app, ButtonAction::SendFiles), Request::Nothing));
    files_sent(&mut app, Some("x".to_string()));
    cancel_sent(&mut app, Some("y".to_string()));
    assert_eq!(
        app.logs,
        vec![
            "nenhum arquivo selecionado".to_string(),
            "nenhum arquivo pendente".to_string(),
            "erro ao enviar x".to_string(),
            "erro ao cancelar y".to_string(),
        ]
    );
    assert!(matches!(press(&mut app, ButtonAction::CancelTransfers), Request::Cancel));
    assert!(matches!(press(&mut app, ButtonAction::AddFiles), Request::PickFiles));
    assert!(matches!(press(&mut app, ButtonAction::PastePeerIp), Request::Paste));
    let _ = press(&mut app, ButtonAction::ToggleMouseMode);
    assert_eq!(app.mouse_capture_request, Some(false));
    let _ = press(&mut app, ButtonAction::Quit);
    assert!(app.should_quit);
}

#[test]
fn addresses_are_copied_and_pasted() {
    let mut app = app();
    match copy_local_ip(&mut app) {
        Request::Copy(text) => assert_eq!(text, "192.168.0.7:9000"),
        _ => panic!("no copy"),
    }
    copied(&mut app, "192.168.0.7:9000", None);
    copied(&mut app, "t", Some("x".to_string()));
    assert!(matches!(copy_public_endpoint(&mut app), Request::Nothing));
    app.mode = IpMode::Ipv6;
    match copy_local_ip(&mut app) {
        Request::Copy(text) => assert_eq!(text, "[2001::7]:9000"),
        _ => panic!("no copy"),
    }
    pasted(&mut app, Ok(" 1.1.1.1:1\u{7f}é\n".to_string()));
    assert_eq!(app.peer_input, "1.1.1.1:1");
    assert!(app.peer_focus);
    pasted(&mut app, Ok(" é ".to_string()));
    pasted(&mut app, Err("x".to_string()));
    assert_eq!(
        app.logs,
        vec![
            "copiado 192.168.0.7:9000".to_string(),
            "erro no clipboard x".to_string(),
            "endpoint publico nao encontrado".to_string(),
            "ip colado".to_string(),
            "clipboard vazio".to_string(),
            "erro no clipboard x".to_string(),
        ]
    );
    pasted(&mut app, Ok("9".repeat(500)));
    assert_eq!(app.peer_input.len(), 120);
}

#[test]
fn keys_edit_and_scroll() {
    let mut app = app();
    app.peer_focus = true;
    let _ = handle_key(&mut app, Key::Char('q'), None);
    let _ = handle_key(&mut app, Key::Char('é'), None);
    assert_eq!(app.peer_input, "q");
    assert!(!app.should_quit);
    let _ = handle_peer_input_key(&mut app, Key::Backspace, None);
    assert_eq!(app.peer_input, "");
    app.peer_input = "1.1.1.1:1".to_string();
    let peer = v4(1, 1, 1, 1, 1);
    assert!(matches!(handle_key(&mut app, Key::Enter, Some(peer)), Request::Connect(_)));
    assert!(!app.peer_focus);
    app.set_logs_view_height(2);
    for i in 0..6 {
        app.push_log(format!("{i}"));
    }
    let _ = handle_key(&mut app, Key::Home, None);
    assert_eq!(app.logs_scroll, 0);
    let _ = handle_key(&mut app, Key::PageDown, None);
    assert_eq!(app.logs_scroll, 2);
    let _ = handle_key(&mut app, Key::Down, None);
    let _ = handle_key(&mut app, Key::Up, None);
    assert_eq!(app.logs_scroll, 2);
    let _ = handle_key(&mut app, Key::End, None);
    assert_eq!(app.logs_scroll, 4);
    let _ = handle_key(&mut app, Key::Char('m'), None);
    assert_eq!(app.mouse_capture_request, Some(false));
    mouse_capture_set(&mut app, false);
    assert!(!app.mouse_capture_enabled);
    assert_eq!(
        app.logs.last().map(|s| s.as_str()),
        Some("mouse livre: selecione o texto no terminal (pressione 'm' para voltar)")
    );
    let _ = handle_key(&mut app, Key::Esc, None);
    assert!(app.should_quit);
}

#[test]
fn clicks_hit_what_lies_under_them() {
    let mut app = app();
    app.peer_input_area = rect(0, 0, 5, 1);
    app.local_panel_area = rect(10, 0, 5, 1);
    app.logs_area = rect(0, 10, 5, 5);
    app.received_click_targets = vec![ReceivedClickTarget {
        area: rect(20, 0, 5, 1),
        path: path("/r/a"),
        action: ReceivedClickAction::Open,
    }];
    app.buttons = vec![Button {
        label: "Sair".to_string(),
        area: rect(20, 0, 9, 1),
        action: ButtonAction::Quit,
    }];
    let click = |app: &mut AppState, x: u16| {
        handle_mouse_event(app, MouseKind::LeftDown, x, 0, &around())
    };
    let _ = click(&mut app, 1);
    assert!(app.peer_focus);
    let _ = click(&mut app, 11);
    assert!(!app.peer_focus);
    assert_eq!(app.mouse_capture_request, Some(false));
    assert!(matches!(
        click(&mut app, 21),
        Request::OpenReceived(_, ReceivedClickAction::Open)
    ));
    assert!(!app.should_quit);
    let _ = click(&mut app, 27);
    assert!(app.should_quit);
    let _ = handle_mouse_event(&mut app, MouseKind::Moved, 3, 3, &around());
    assert_eq!(app.last_mouse, Some((3, 3)));
    app.set_logs_view_height(1);
    for i in 0..6 {
        app.push_log(format!("{i}"));
    }
    let _ = handle_mouse_event(&mut app, MouseKind::ScrollUp, 1, 11, &around());
    assert_eq!(app.logs_scroll, 2);
    let _ = handle_mouse_event(&mut app, MouseKind::ScrollUp, 9, 11, &around());
    assert_eq!(app.logs_scroll, 2);
    app.mouse_capture_enabled = false;
    let _ = handle_mouse_event(&mut app, MouseKind::Moved, 9, 9, &around());
    assert_eq!(app.last_mouse, Some((3, 3)));
}

#[test]
fn opening_a_file_is_told() {
    let mut app = app();
    opened(&mut app, &path("/r/a"), ReceivedClickAction::Open, OpenOutcome::Missing);
    opened(&mut app, &path("/r/a"), ReceivedClickAction::Open, OpenOutcome::Started);
    opened(
        &mut app,
        &path("/r/a"),
        ReceivedClickAction::RevealInFolder,
        OpenOutcome::Failed("x".to_string()),
    );
    assert_eq!(app.logs.len(), 3);
    assert!(app.logs[1].contains("/r/a"));
    assert!(app.logs[2].ends_with("x"));
}

// ---------------------------------------------------------------- drawing

#[test]
fn bytes_are_shown_in_their_unit() {
    assert_eq!(byte_unit(1023), 0);
    assert_eq!(byte_unit(1024), 1);
    assert_eq!(byte_unit(1024 * 1024 - 1), 1);
    assert_eq!(byte_unit(u64::MAX), 4);
    assert_eq!(format_bytes(0), "0 B");
    assert_eq!(format_bytes(1023), "1023 B");
    assert_eq!(format_bytes(1024), "1.0 KB");
    assert_eq!(format_bytes(1536), "1.5 KB");
    assert_eq!(format_bytes(1280), "1.2 KB");
    assert_eq!(format_bytes(1792), "1.8 KB");
    assert_eq!(format_bytes(1024 * 1024 - 1), "1024.0 KB");
    assert_eq!(format_bytes(5 * 1024 * 1024 * 1024), "5.0 GB");
    assert_eq!(format_bytes(u64::MAX), "16777216.0 TB");
}

/// Numbers of all sizes, spread by a linear congruence.
fn spread(count: usize) -> Vec<u64> {
    let mut seed: u64 = 88172645463325252;
    let mut r = vec![0, 1, 2, 3, 7, 1023, 1024, 1 << 53, (1 << 53) + 1, u64::MAX - 1, u64::MAX];
    for i in 0..count {
        seed = seed.wrapping_mul(6364136223846793005).wrapping_add(1442695040888963407);
        r.push(seed >> (i % 64));
    }
    r
}

#[test]
fn bytes_are_shown_as_double_precision_has_them() {
    let units = ["B", "KB", "MB", "GB", "TB"];
    let mut numbers = spread(4000);
    numbers.extend((1024..6000).step_by(1));
    numbers.extend((1u64 << 20..1u64 << 24).step_by(26214));
    for bytes in numbers {
        let mut value = bytes as f64;
        let mut unit = 0;
        while value >= 1024.0 && unit < 4 {
            value /= 1024.0;
            unit += 1;
        }
        let expected = if unit == 0 {
            format!("{bytes} B")
        } else {
            format!("{:.1} {}", value, units[unit])
        };
        assert_eq!(format_bytes(bytes), expected);
    }
}

#[test]
fn bars_are_as_wide_as_they_should_be() {
    assert_eq!(progress_bar(5, 10, 4), ("[██░░]".to_string(), 50));
    assert_eq!(progress_bar(10, 10, 4), ("[████]".to_string(), 100));
    assert_eq!(progress_bar(99, 10, 4), ("[████]".to_string(), 100));
    assert_eq!(progress_bar(7, 0, 4), ("[░░░░]".to_string(), 0));
    assert_eq!(progress_bar(0, 9, 0), ("[]".to_string(), 0));
    assert_eq!(progress_bar(29, 200, 4).1, 14);
    assert_eq!(progress_bar(1, 8, 4), ("[█░░░]".to_string(), 13));
}

#[test]
fn bars_grow_as_double_precision_has_it() {
    let check = |bytes: u64, size: u64, width: usize| {
        let ratio = (bytes as f64 / size as f64).clamp(0.0, 1.0);
        let filled = ((ratio * width as f64).round() as usize).min(width);
        let percent = (ratio * 100.0).round() as u64;
        let (bar, shown) = progress_bar(bytes, size, width);
        assert_eq!(bar.chars().filter(|c| *c == '█').count(), filled, "{bytes} of {size}");
        assert_eq!(shown, percent, "{bytes} of {size}");
    };
    let numbers = spread(400);
    for size in numbers.iter().filter(|n| **n > 0) {
        for bytes in numbers.iter().step_by(7) {
            check(*bytes, *size, 16);
        }
        check(size / 2, *size, 16);
        check(size / 200 * 29, *size, 100);
        check(size - 1, *size, 999);
    }
    for size in 1..260u64 {
        for bytes in 0..=size {
            check(bytes, size, 16);
        }
    }
}

#[test]
fn progress_never_falls() {
    let mut last = (0, 0);
    for bytes in 0..=1003 {
        let (bar, percent) = progress_bar(bytes, 1003, 16);
        let now = (bar.chars().filter(|c| *c == '█').count(), percent);
        assert!(last.0 <= now.0 && last.1 <= now.1);
        last = now;
    }
    assert_eq!(last, (16, 100));
}

#[test]
fn rates_are_shown_as_double_precision_has_them() {
    let theme = Theme::default_dark();
    let mut app = app();
    tell(&mut app, NetEvent::ReceiveStarted { file_id: 1, path: path("/r/a.txt"), size: 0 }, 0);
    let numbers = spread(300);
    for bytes in numbers.iter().filter(|n| **n > 0) {
        for nanos in numbers.iter().step_by(5) {
            app.received[0].rate.bytes = *bytes;
            app.received[0].rate.nanos = *nanos;
            let seconds = std::time::Duration::from_nanos(*nanos).as_secs_f64().max(0.001);
            let mbps = (*bytes as f64 * 8.0) / seconds / 1_000_000.0;
            let list = rect(0, 0, 80, 10);
            let line = line_text(&render_incoming_info_line(theme, &app.received[0], list));
            let expected = format!(" {mbps:.1} Mbps │");
            assert!(line.ends_with(&expected), "{bytes} in {nanos}: {line}");
        }
    }
}

#[test]
fn names_keep_their_end() {
    assert_eq!(truncate_keep_end("abcdef", 6), "abcdef");
    assert_eq!(truncate_keep_end("abcdef", 5), "...ef");
    assert_eq!(truncate_keep_end("abcdef", 3), "def");
    assert_eq!(truncate_keep_end("abcdef", 0), "");
}

#[test]
fn files_on_their_way_are_drawn() {
    let theme = Theme::default_dark();
    let mut app = app();
    picked(&mut app, Some(vec![path("/a")]));
    assert_eq!(line_text(&render_outgoing_item(theme, &app.selected[0])), "pendente /a");
    tell(&mut app, NetEvent::SendStarted { file_id: 1, path: path("/a"), size: 10 }, 0);
    assert_eq!(
        line_text(&render_outgoing_item(theme, &app.selected[0])),
        "enviando [░░░░░░░░░░░░░░░░] 0 B / 10 B (0%) /a"
    );
    app.selected[0].sent_bytes = 5;
    assert_eq!(
        line_text(&render_outgoing_item(theme, &app.selected[0])),
        "enviando [████████░░░░░░░░] 5 B / 10 B (50%) /a"
    );
    app.selected[0].sent_bytes = 11;
    assert_eq!(
        line_text(&render_outgoing_item(theme, &app.selected[0])),
        "enviando [████████████████] 10 B / 10 B (100%) /a"
    );
}

#[test]
fn files_coming_in_fill_their_rows() {
    let theme = Theme::default_dark();
    let mut app = app();
    tell(&mut app, NetEvent::ReceiveStarted { file_id: 1, path: path("/r/a.txt"), size: 10 }, 0);
    let list = rect(0, 0, 62, 10);
    let line = line_text(&render_incoming_info_line(theme, &app.received[0], list));
    assert_eq!(line.chars().count(), 60);
    assert!(line.starts_with("│ ↓ recebendo a.txt "));
    assert!(line.ends_with(" 10 B │"));
    let narrow = rect(0, 0, 23, 10);
    let line = line_text(&render_incoming_info_line(theme, &app.received[0], narrow));
    assert_eq!(line, "│ ↓ recebendo  10 B │");
    app.received[0].rate.bytes = 1_000_000;
    app.received[0].rate.nanos = 1_000_000_000;
    let line = line_text(&render_incoming_info_line(theme, &app.received[0], list));
    assert!(line.ends_with(" 10 B · 8.0 Mbps │"));
    app.received[0].status = IncomingStatus::Done;
    app.received[0].received_bytes = 5;
    let line =
        line_text(&render_incoming_action_line(theme, &app.received[0], list, 1, None, true));
    assert_eq!(line.chars().count(), 60);
    assert!(line.starts_with("  [████████░░░░░░░░] 5 B / 10 B (50%) "));
    let open = received_open_button_rect(list, 1);
    let shown: String = line.chars().skip(open.x as usize - 1).take(7).collect();
    assert_eq!(shown, " Abrir ");
    let line =
        line_text(&render_incoming_action_line(theme, &app.received[0], list, 1, None, false));
    assert!(!line.contains("Abrir"));
    assert_eq!(max_received_entries_for_area(list), 4);
    let targets = build_received_click_targets(&app.received, &vec![true], list);
    assert_eq!(targets.len(), 2);
    assert_eq!(targets[0].area, open);
    let targets = build_received_click_targets(&app.received, &vec![false], list);
    assert_eq!(targets.len(), 0);
}

#[test]
fn the_screen_is_divided() {
    let whole = rect(0, 0, 100, 40);
    let areas = screen_areas(whole);
    assert_eq!(areas.outgoing, rect(0, 16, 52, 21));
    assert_eq!(areas.row.add, rect(0, 37, 12, 3));
    assert_eq!(areas.row.quit, rect(36, 37, 10, 3));
    let panel = panel_areas(rect(0, 0, 100, 16));
    assert_eq!(panel.ipv4, rect(0, 0, 10, 3));
    assert_eq!(panel.ipv6, rect(10, 0, 10, 3));
    assert_eq!(panel.mouse, rect(88, 0, 12, 3));
    assert_eq!(panel.input, rect(0, 3, 74, 4));
    assert_eq!(panel.connect, rect(86, 3, 14, 4));
    assert_eq!(panel.status, rect(0, 13, 100, 3));
}

#[test]
fn no_two_buttons_share_a_cell() {
    for (width, height) in [(100, 40), (80, 24), (40, 25), (17, 9), (3, 2)] {
        let mut app = app();
        let _ = draw_ui(&mut app, rect(0, 0, width, height), &vec![]);
        for x in 0..width {
            for y in 0..height {
                let hit =
                    app.buttons.iter().filter(|b| point_in_rect(x, y, b.area)).count();
                assert!(hit <= 1, "{hit} buttons at {x},{y} of {width}x{height}");
            }
        }
    }
}

#[test]
fn the_screen_is_drawn() {
    let mut app = app();
    app.push_log("conectado x".to_string());
    let widgets = draw_ui(&mut app, rect(0, 0, 100, 40), &vec![]);
    assert!(matches!(widgets[0], Widget::Ground { .. }));
    let lists: Vec<&Widget> =
        widgets.iter().filter(|w| matches!(w, Widget::List { .. })).collect();
    assert_eq!(lists.len(), 3);
    match lists[2] {
        Widget::List { heading, items, .. } => {
            assert_eq!(heading.text, "eventos");
            assert_eq!(line_text(&items[0]), "conectado x");
        }
        _ => panic!("no list"),
    }
    assert_eq!(app.buttons.len(), 11);
    assert_eq!(app.buttons[0].label, "IPv4");
    assert_eq!(app.buttons[10].label, "Sair");
    assert_eq!(app.peer_input_area, rect(0, 3, 74, 4));
    assert!(app.logs_view_height > 0);
    let texts: Vec<String> = widgets
        .iter()
        .filter_map(|w| match w {
            Widget::Panel { line, .. } => Some(line_text(line)),
            _ => None,
        })
        .collect();
    assert!(texts.contains(&"meu ip: 192.168.0.7".to_string()));
    assert!(texts.contains(&"publico: aguardando STUN".to_string()));
    assert!(texts.contains(&"ex: 192.0.2.10:12345".to_string()));
    assert!(texts.contains(
        &"local 0.0.0.0:9000   parceiro none    aguardando ".to_string()
    ));
}
