//! Texts, addresses, paths, saved connections and the command line on concrete values.

use pasta_p2p::addr::{IpAddr, Ipv4Addr, Ipv6Addr, SocketAddr, SocketAddrV6};
use pasta_p2p::cli::{
    default_bind_addr, has_global_ipv6, is_global_ipv6, parse_args, process_profile_requests,
    CliArg, CliOptions, MissingValue,
};
use pasta_p2p::path::{
    FilePath, PathPart, RANK_CURRENT, RANK_NAME, RANK_PARENT, RANK_ROOT,
};
use pasta_p2p::profiles::{
    profile_lines, profile_path, sort_by_keys, ConnectionProfile, KeyedProfile, ProfileStore,
};
use pasta_p2p::text;

fn v4(a: u8, b: u8, c: u8, d: u8, port: u16) -> SocketAddr {
    SocketAddr::new(IpAddr::V4(Ipv4Addr { a, b, c, d }), port)
}

fn ip6(segments: [u16; 8]) -> Ipv6Addr {
    let [s0, s1, s2, s3, s4, s5, s6, s7] = segments;
    Ipv6Addr { s0, s1, s2, s3, s4, s5, s6, s7 }
}

fn name(bytes: &[u8]) -> PathPart {
    PathPart { rank: RANK_NAME, bytes: bytes.to_vec() }
}

fn path(text: &str) -> FilePath {
    let mut parts = Vec::new();
    if text.starts_with('/') {
        parts.push(PathPart { rank: RANK_ROOT, bytes: Vec::new() });
    }
    for part in text.split('/') {
        if !part.is_empty() {
            parts.push(name(part.as_bytes()));
        }
    }
    FilePath { text: text.to_string(), parts }
}

// ---------------------------------------------------------------- texts

#[test]
fn numbers_and_their_texts() {
    assert_eq!(text::number_text(0), "0");
    assert_eq!(text::number_text(u64::MAX), "18446744073709551615");
    assert_eq!(text::hex_text(0), "0");
    assert_eq!(text::hex_text(0xbeef), "beef");
    assert_eq!(text::parse_number("18446744073709551615"), Some(u64::MAX));
    assert_eq!(text::parse_number("18446744073709551616"), None);
    assert_eq!(text::parse_number("+7"), Some(7));
    assert_eq!(text::parse_number("-7"), None);
    assert_eq!(text::parse_number(""), None);
    assert_eq!(text::parse_number("+"), None);
    assert_eq!(text::parse_number("007"), Some(7));
}

#[test]
fn texts_are_cut_and_compared() {
    assert_eq!(text::trim("\t a b\u{3000}\n"), "a b");
    assert_eq!(text::trim("   "), "");
    assert_eq!(text::to_lower("ÁbC"), "Ábc");
    assert_eq!(text::list_entries(" a, ,b ,", ','), vec!["a".to_string(), "b".to_string()]);
    assert_eq!(text::replace_char("a\\b", '\\', '/'), "a/b");
    assert!(text::contains("abcabd", "abd"));
    assert!(!text::contains("ab", "abc"));
    assert!(text::contains("ab", ""));
    assert!(text::starts_with("abc", "ab"));
    assert!(!text::starts_with("abc", "b"));
    assert!(text::text_before("a", "b"));
    assert!(text::text_before("a", "ab"));
    assert!(!text::text_before("b", "ab"));
    assert!(text::same_text("é", "é"));
    assert_eq!(text::joined("a", "b"), "ab");
}

// ---------------------------------------------------------------- addresses

#[test]
fn addresses_are_written_as_usual() {
    assert_eq!(v4(192, 168, 0, 1, 80).text(), "192.168.0.1:80");
    assert_eq!(ip6([0; 8]).text(), "::");
    assert_eq!(ip6([0, 0, 0, 0, 0, 0, 0, 1]).text(), "::1");
    assert_eq!(ip6([0x2001, 0xdb8, 0, 0, 1, 0, 0, 1]).text(), "2001:db8::1:0:0:1");
    assert_eq!(ip6([1, 0, 3, 4, 5, 6, 7, 8]).text(), "1:0:3:4:5:6:7:8");
    assert_eq!(ip6([0, 0, 0, 0, 0, 0xffff, 0x0102, 0x0304]).text(), "::ffff:1.2.3.4");
    assert_eq!(ip6([0xfe80, 0, 0, 0, 0, 0, 0, 0]).text(), "fe80::");
    assert_eq!(SocketAddr::new(IpAddr::V6(ip6([0; 8])), 9).text(), "[::]:9");
    let scoped = SocketAddr::V6(SocketAddrV6 {
        ip: ip6([0xfe80, 0, 0, 0, 0, 0, 0, 1]),
        port: 9,
        flowinfo: 0,
        scope_id: 3,
    });
    assert_eq!(scoped.text(), "[fe80::1%3]:9");
    assert!(scoped.is_ipv6() && !scoped.is_ipv4());
    assert_eq!(scoped.port(), 9);
    assert_eq!(scoped.ip(), IpAddr::V6(ip6([0xfe80, 0, 0, 0, 0, 0, 0, 1])));
}

#[test]
fn addresses_fall_into_kinds() {
    assert!(Ipv4Addr { a: 127, b: 9, c: 9, d: 9 }.is_loopback());
    assert!(Ipv4Addr { a: 169, b: 254, c: 1, d: 1 }.is_link_local());
    assert!(!Ipv4Addr { a: 169, b: 253, c: 1, d: 1 }.is_link_local());
    assert!(Ipv4Addr { a: 255, b: 255, c: 255, d: 255 }.is_broadcast());
    assert!(ip6([0xff02, 0, 0, 0, 0, 0, 0, 1]).is_multicast());
    assert!(ip6([0xfebf, 0, 0, 0, 0, 0, 0, 1]).is_unicast_link_local());
    assert!(!ip6([0xfec0, 0, 0, 0, 0, 0, 0, 1]).is_unicast_link_local());
    assert!(ip6([0xfdff, 0, 0, 0, 0, 0, 0, 1]).is_unique_local());
    assert!(!ip6([0xfe00, 0, 0, 0, 0, 0, 0, 1]).is_unique_local());
}

// ---------------------------------------------------------------- paths

#[test]
fn paths_are_compared_by_components() {
    let root = PathPart { rank: RANK_ROOT, bytes: Vec::new() };
    let doubled = FilePath { text: "/a//b".to_string(), parts: vec![root, name(b"a"), name(b"b")] };
    assert!(doubled.same(&path("/a/b")));
    assert!(!path("/a").same(&path("/a/b")));
    assert!(path("/a").before(&path("/a/b")));
    assert!(path("/a/z").before(&path("/a.b")));
    assert!(!path("b").before(&path("/z")));
    assert!(path("/z").before(&path("b")));
    let up = FilePath {
        text: "..".to_string(),
        parts: vec![PathPart { rank: RANK_PARENT, bytes: Vec::new() }],
    };
    let here = FilePath {
        text: ".".to_string(),
        parts: vec![PathPart { rank: RANK_CURRENT, bytes: Vec::new() }],
    };
    assert!(here.before(&up));
    assert!(up.before(&path("a")));
}

#[test]
fn the_last_component_names_a_file() {
    assert_eq!(path("/d/a.txt").file_name(), Some("a.txt".to_string()));
    assert_eq!(path("/").file_name(), None);
    assert_eq!(path("/").name_or("x"), "x");
    assert_eq!(path("/").title(), "/");
    let odd = FilePath { text: "/\u{fffd}".to_string(), parts: vec![name(&[b'a', 0xff])] };
    assert_eq!(odd.file_name(), None);
    assert_eq!(odd.title(), "a\u{fffd}");
    assert_eq!(path("/d/é").title(), "é");
}

// ---------------------------------------------------------------- saved connections

fn profile(name: &str, port: u16) -> ConnectionProfile {
    ConnectionProfile {
        name: name.to_string(),
        peer: v4(1, 1, 1, 1, port),
        alias: None,
        key: None,
    }
}

fn names(store: &ProfileStore) -> Vec<String> {
    store.profiles().iter().map(|p| p.name.clone()).collect()
}

#[test]
fn saved_profiles_are_found_and_sorted() {
    let mut store = ProfileStore::new(path("/p"), vec![]);
    store.upsert(profile("Bia", 1));
    store.upsert(profile("ana", 2));
    store.upsert(profile("ÁGATA", 3));
    store.upsert(profile("ágata", 4));
    assert_eq!(names(&store), vec!["ana", "Bia", "ÁGATA", "ágata"]);
    store.upsert(profile("Bia", 9));
    assert_eq!(names(&store), vec!["ana", "Bia", "ÁGATA", "ágata"]);
    assert_eq!(store.find("Bia").map(|p| p.peer.port()), Some(9));
    assert!(store.find("bia").is_none());
    assert!(store.remove("Bia"));
    assert_eq!(names(&store), vec!["ana", "ÁGATA", "ágata"]);
}

#[test]
fn a_new_profile_puts_all_in_order() {
    let mut store = ProfileStore::new(path("/p"), vec![profile("c", 1), profile("a", 2)]);
    store.upsert(profile("c", 3));
    assert_eq!(names(&store), vec!["c", "a"]);
    store.upsert(profile("b", 4));
    assert_eq!(names(&store), vec!["a", "b", "c"]);
}

#[test]
fn removed_profiles_are_gone() {
    let mut store = ProfileStore::new(path("/p"), vec![profile("a", 1), profile("b", 2), profile("a", 3)]);
    assert!(store.remove("a"));
    assert!(!store.remove("a"));
    assert!(store.find("a").is_none());
    assert_eq!(store.find("b").map(|p| p.peer.port()), Some(2));
}

#[test]
fn profiles_are_listed() {
    let mut store = ProfileStore::new(path("/p"), vec![]);
    assert_eq!(profile_lines(&store), vec!["nenhum perfil salvo".to_string()]);
    store.upsert(ConnectionProfile {
        name: "ana".to_string(),
        peer: v4(1, 1, 1, 1, 5),
        alias: Some("casa".to_string()),
        key: Some("k".to_string()),
    });
    store.upsert(profile("bia", 6));
    assert_eq!(
        profile_lines(&store),
        vec![
            "perfis salvos:".to_string(),
            "- ana (casa) -> 1.1.1.1:5 • chave armazenada".to_string(),
            "- bia -> 1.1.1.1:6".to_string(),
        ]
    );
}

#[test]
fn profiles_are_kept_in_the_configuration_directory() {
    let some = |s: &str| Some(s.to_string());
    assert_eq!(
        profile_path(some("/c"), some("/h"), some("/d")),
        vec!["/c", "pasta_p2p", "profiles.json"]
    );
    assert_eq!(
        profile_path(None, some("/h"), some("/d")),
        vec!["/h", ".config", "pasta_p2p", "profiles.json"]
    );
    assert_eq!(profile_path(None, None, some("/d")), vec!["/d", "pasta_p2p", "profiles.json"]);
    assert_eq!(profile_path(None, None, None), vec![".pasta_p2p", "pasta_p2p", "profiles.json"]);
}

// ---------------------------------------------------------------- command line

fn args(list: &[&str]) -> Vec<CliArg> {
    list.iter()
        .map(|s| CliArg {
            text: s.to_string(),
            addr: match *s {
                "1.1.1.1:1" => Some(v4(1, 1, 1, 1, 1)),
                "2.2.2.2:2" => Some(v4(2, 2, 2, 2, 2)),
                _ => None,
            },
        })
        .collect()
}

fn options(list: &[&str]) -> CliOptions {
    parse_args(v4(0, 0, 0, 0, 0), &args(list), MissingValue::Keeps)
}

#[test]
fn arguments_set_options() {
    let o = options(&[
        "--bind", "1.1.1.1:1", "--peer", "2.2.2.2:2", "--autotune-inflight", "off",
        "--autotune-gain", "1.5", "--autotune-max-window", "77", "--profile-alias", "casa",
        "--peer-key", "k", "--nada", "--list-profiles",
    ]);
    assert_eq!(o.bind_addr, v4(1, 1, 1, 1, 1));
    assert_eq!(o.peer_addr, Some(v4(2, 2, 2, 2, 2)));
    assert_eq!(o.autotune.enabled, Some(false));
    assert_eq!(o.autotune.gain, vec!["1.5".to_string()]);
    assert_eq!(o.autotune.max_window, Some(77));
    assert_eq!(o.peer_label, Some("casa".to_string()));
    assert_eq!(o.peer_key, Some("k".to_string()));
    assert!(o.profile_actions.list_all);
    let a = o.into_args();
    assert_eq!(a.peer_label, Some("casa".to_string()));
}

#[test]
fn malformed_values_leave_options_alone() {
    let o = options(&["--bind", "x", "--autotune-max-window", "muito", "--peer"]);
    assert_eq!(o.bind_addr, v4(0, 0, 0, 0, 0));
    assert_eq!(o.peer_addr, None);
    assert_eq!(o.autotune.max_window, None);
    let o = options(&["--autotune-inflight", "1"]);
    assert_eq!(o.autotune.enabled, Some(true));
    let o = options(&["--bind", "--peer", "1.1.1.1:1"]);
    assert_eq!(o.peer_addr, None);
}

#[test]
fn an_option_at_the_end_has_no_value() {
    let kept = parse_args(
        v4(0, 0, 0, 0, 0),
        &args(&["--profile", "a", "--profile"]),
        MissingValue::Keeps,
    );
    assert_eq!(kept.profile_actions.to_load, Some("a".to_string()));
    let cleared = parse_args(
        v4(0, 0, 0, 0, 0),
        &args(&["--profile", "a", "--profile"]),
        MissingValue::Clears,
    );
    assert_eq!(cleared.profile_actions.to_load, None);
}

#[test]
fn listing_and_removal_end_the_program() {
    let mut store = ProfileStore::new(path("/p"), vec![profile("ana", 1)]);
    let mut o = options(&["--list-profiles", "--profile-delete", "ana"]);
    let r = process_profile_requests(&mut store, &mut o, MissingValue::Keeps);
    assert_eq!(r.exit, Some(0));
    assert_eq!(r.output.len(), 2);
    assert!(r.save.is_none());
    let mut o = options(&["--profile-delete", "ana"]);
    let r = process_profile_requests(&mut store, &mut o, MissingValue::Keeps);
    assert_eq!(r.exit, Some(0));
    let save = r.save.unwrap();
    assert_eq!(save.success, "perfil removido: ana");
    assert_eq!(save.failure, "erro ao salvar perfis: ");
    let r = process_profile_requests(&mut store, &mut o, MissingValue::Keeps);
    assert_eq!(r.errors, vec!["perfil nao encontrado: ana".to_string()]);
    assert!(r.save.is_none());
    let mut store = ProfileStore::new(path("/p"), vec![profile("ana", 1)]);
    let r = process_profile_requests(&mut store, &mut o, MissingValue::Clears);
    assert_eq!(r.save.unwrap().failure, "erro ao salvar perfil ana: ");
}

#[test]
fn a_saved_connection_can_be_loaded() {
    let mut store = ProfileStore::new(path("/p"), vec![]);
    let mut o = options(&["--peer", "2.2.2.2:2", "--peer-key", "k", "--profile-save", "ana"]);
    let r = process_profile_requests(&mut store, &mut o, MissingValue::Keeps);
    assert_eq!(r.exit, None);
    let save = r.save.unwrap();
    assert_eq!(save.success, "perfil salvo: ana -> 2.2.2.2:2");
    assert_eq!(save.failure, "erro ao salvar perfil ana: ");
    let mut o = options(&["--profile", "ana"]);
    let r = process_profile_requests(&mut store, &mut o, MissingValue::Keeps);
    assert_eq!(r.errors.len(), 0);
    assert_eq!(o.peer_addr, Some(v4(2, 2, 2, 2, 2)));
    assert_eq!(o.peer_label, Some("ana".to_string()));
    assert_eq!(o.peer_key, Some("k".to_string()));
}

#[test]
fn saving_needs_a_peer() {
    let mut store = ProfileStore::new(path("/p"), vec![]);
    let mut o = options(&["--profile", "x", "--profile-save", "ana"]);
    let r = process_profile_requests(&mut store, &mut o, MissingValue::Keeps);
    assert_eq!(r.exit, Some(2));
    assert_eq!(
        r.errors,
        vec![
            "perfil nao encontrado: x".to_string(),
            "--profile-save requer um --peer ou --profile".to_string(),
        ]
    );
    assert!(store.find("ana").is_none());
}

#[test]
fn a_global_address_prefers_ipv6() {
    let global = ip6([0x2001, 0xdb8, 0, 0, 0, 0, 0, 1]);
    let link = ip6([0xfe80, 0, 0, 0, 0, 0, 0, 1]);
    assert!(is_global_ipv6(global));
    assert!(!is_global_ipv6(link));
    assert!(!is_global_ipv6(ip6([0, 0, 0, 0, 0, 0, 0, 1])));
    let v4_only = vec![IpAddr::V4(Ipv4Addr { a: 8, b: 8, c: 8, d: 8 }), IpAddr::V6(link)];
    assert!(!has_global_ipv6(&v4_only));
    assert_eq!(default_bind_addr(None, &v4_only).text(), "0.0.0.0:0");
    assert_eq!(default_bind_addr(None, &vec![IpAddr::V6(global)]).text(), "[::]:0");
    assert_eq!(
        default_bind_addr(Some(v4(1, 1, 1, 1, 1)), &vec![]),
        v4(1, 1, 1, 1, 1)
    );
}

#[test]
fn profiles_with_one_key_keep_their_order() {
    let keyed = |key: &str, name: &str| KeyedProfile {
        key: key.to_string(),
        profile: profile(name, 1),
    };
    let sorted = sort_by_keys(vec![
        keyed("b", "first"),
        keyed("a", "second"),
        keyed("b", "third"),
        keyed("", "fourth"),
    ]);
    let order: Vec<&str> = sorted.iter().map(|k| k.profile.name.as_str()).collect();
    assert_eq!(order, vec!["fourth", "second", "first", "third"]);
}
