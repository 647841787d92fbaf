use bc250_dashboard::{
    appid_from_environ, is_process_dir, keep_last, library_paths, lowest_id, manifest_file_name,
    manifest_name, parse_decimal, parse_kv, parse_schema_names, parse_unlocked, schema_file_name,
    stats_file_name, vdf_pair, KvVal, PollStep, Steam,
};

fn obj(key: &str, body: Vec<u8>) -> Vec<u8> {
    let mut v = vec![0u8];
    v.extend_from_slice(key.as_bytes());
    v.push(0);
    v.extend(body);
    v.push(8);
    v
}

fn str_entry(key: &str, val: &[u8]) -> Vec<u8> {
    let mut v = vec![1u8];
    v.extend_from_slice(key.as_bytes());
    v.push(0);
    v.extend_from_slice(val);
    v.push(0);
    v
}

fn int_entry(key: &str, val: i32) -> Vec<u8> {
    let mut v = vec![2u8];
    v.extend_from_slice(key.as_bytes());
    v.push(0);
    v.extend_from_slice(&val.to_le_bytes());
    v
}

fn doc(entries: Vec<Vec<u8>>) -> Vec<u8> {
    let mut v: Vec<u8> = entries.concat();
    v.push(8);
    v
}

fn stats(times: &[(&str, &str, i32)]) -> Vec<u8> {
    let mut sets: Vec<Vec<u8>> = Vec::new();
    for (set, idx, t) in times {
        sets.push(obj(set, obj("AchievementTimes", int_entry(idx, *t))));
    }
    doc(vec![obj("cache", sets.concat())])
}

fn sorted(mut v: Vec<((u32, u32), i64)>) -> Vec<((u32, u32), i64)> {
    v.sort();
    v
}

#[test]
fn keyvalues_document_parses_flat() {
    let d = doc(vec![obj("a", [str_entry("s", b"hi"), int_entry("n", -2)].concat()), int_entry("top", 7)]);
    let nodes = parse_kv(&d).unwrap();
    assert_eq!(nodes.len(), 4);
    assert_eq!(nodes[0].key, b"a".to_vec());
    assert_eq!(nodes[0].parent, None);
    assert_eq!(nodes[0].val, KvVal::Obj);
    assert_eq!(nodes[1].parent, Some(0));
    assert_eq!(nodes[1].val, KvVal::Str(b"hi".to_vec()));
    assert_eq!(nodes[2].val, KvVal::Int(-2));
    assert_eq!(nodes[3].parent, None);
    assert_eq!(nodes[3].val, KvVal::Int(7));
}

#[test]
fn malformed_keyvalues_are_refused() {
    assert!(parse_kv(&[]).is_none());
    // unknown type byte
    assert!(parse_kv(&[9, b'k', 0, 8]).is_none());
    // integer cut short
    assert!(parse_kv(&[2, b'k', 0, 1, 2]).is_none());
    // missing end marker
    assert!(parse_kv(&[1, b'k', 0, b'v', 0]).is_none());
    // skipped fields still need something after them
    let mut wide = vec![5u8, b'w', 0, b'a', 0, 0, 0];
    wide.push(8);
    assert_eq!(parse_kv(&wide).unwrap()[0].val, KvVal::Other);
}

#[test]
fn unlocked_achievements_are_read_from_the_cache() {
    let d = stats(&[("1", "0", 1_700_000_000), ("1", "3", 0), ("2", "x", 5), ("2", "4", 1_700_000_100)]);
    assert_eq!(
        sorted(parse_unlocked(&d)),
        vec![((1, 0), 1_700_000_000), ((2, 4), 1_700_000_100)]
    );
    // without a `cache` list the sets sit at the top level
    let top = doc(vec![obj("7", obj("AchievementTimes", int_entry("+1", 9)))]);
    assert_eq!(parse_unlocked(&top), vec![((7, 1), 9)]);
    assert!(parse_unlocked(b"garbage").is_empty());
}

#[test]
fn a_later_entry_replaces_an_earlier_one() {
    let d = doc(vec![obj(
        "cache",
        [
            obj("1", obj("AchievementTimes", [int_entry("0", 10), int_entry("0", 20)].concat())),
        ]
        .concat(),
    )]);
    assert_eq!(parse_unlocked(&d), vec![((1, 0), 20)]);
    assert_eq!(
        sorted(keep_last(vec![((1, 1), 1), ((2, 2), 2), ((1, 1), 3)])),
        vec![((1, 1), 3), ((2, 2), 2)]
    );
}

fn bit(idx: &str, body: Vec<u8>) -> Vec<u8> {
    obj(idx, body)
}

fn schema(bits: Vec<u8>) -> Vec<u8> {
    doc(vec![obj("570", obj("stats", obj("1", obj("bits", bits))))])
}

#[test]
fn schema_names_prefer_french_then_english() {
    let d = schema(
        [
            bit(
                "0",
                obj("display", obj("name", [str_entry("english", b"First Blood"), str_entry("french", b"Premier sang")].concat())),
            ),
            bit("1", obj("display", obj("name", str_entry("english", b"Sans Faute")))),
            bit("2", obj("display", obj("name", str_entry("german", b"Erster")))),
            bit("3", str_entry("name", b"ACH_3")),
            bit("4", int_entry("name", 5)),
            bit("five", str_entry("name", b"skipped")),
        ]
        .concat(),
    );
    let mut names = parse_schema_names(&d);
    names.sort();
    assert_eq!(
        names,
        vec![
            ((1, 0), "Premier sang".to_string()),
            ((1, 1), "Sans Faute".to_string()),
            ((1, 2), "Erster".to_string()),
            ((1, 3), "ACH_3".to_string()),
            ((1, 4), String::new()),
        ]
    );
}

#[test]
fn schema_names_are_decoded_as_utf8() {
    let d = schema(
        [
            bit("0", obj("display", obj("name", str_entry("french", "Élite".as_bytes())))),
            bit("1", obj("display", obj("name", str_entry("french", &[b'A', 0xff, b'B'])))),
        ]
        .concat(),
    );
    let mut names = parse_schema_names(&d);
    names.sort();
    assert_eq!(names[0], ((1, 0), "Élite".to_string()));
    assert_eq!(names[1], ((1, 1), "A\u{fffd}B".to_string()));
}

#[test]
fn decimal_parsing_follows_str_parse() {
    assert_eq!(parse_decimal(b"42"), Some(42));
    assert_eq!(parse_decimal(b"+12"), Some(12));
    assert_eq!(parse_decimal(b"4294967295"), Some(u32::MAX));
    assert_eq!(parse_decimal(b"4294967296"), None);
    assert_eq!(parse_decimal(b"-1"), None);
    assert_eq!(parse_decimal(b"+"), None);
    assert_eq!(parse_decimal(b""), None);
    assert_eq!(parse_decimal(b"1a"), None);
}

#[test]
fn vdf_lines_give_their_values() {
    assert_eq!(vdf_pair("\t\"name\"\t\t\"Elden Ring\"", "name"), Some("Elden Ring".to_string()));
    assert_eq!(vdf_pair("\t\"name\"\t\t\"unterminated", "name"), Some("unterminated".to_string()));
    assert_eq!(vdf_pair("\t\"appid\"\t\t\"1245620\"", "name"), None);
    assert_eq!(vdf_pair("\t\"name\"", "name"), None);
    assert_eq!(vdf_pair("no quotes", "name"), None);
    let acf = "\"AppState\"\n{\n\t\"appid\"\t\t\"1245620\"\r\n\t\"name\"\t\t\"ELDEN RING\"\n\t\"name\"\t\t\"second\"\n}\n";
    assert_eq!(manifest_name(acf), Some("ELDEN RING".to_string()));
    assert_eq!(manifest_name("{}"), None);
    let lib = "\"libraryfolders\"\n{\n\t\"0\"\n\t{\n\t\t\"path\"\t\t\"D:\\\\Games\\\\Steam\"\n\t}\n\t\t\"path\"\t\t\"/mnt/games\"\n}\n";
    assert_eq!(library_paths(lib), vec!["D:/Games/Steam".to_string(), "/mnt/games".to_string()]);
}

#[test]
fn cache_file_names() {
    assert_eq!(stats_file_name(12345, 570), "UserGameStats_12345_570.bin");
    assert_eq!(schema_file_name(570), "UserGameStatsSchema_570.bin");
    assert_eq!(manifest_file_name(1245620), "appmanifest_1245620.acf");
}

#[test]
fn running_game_comes_from_the_environment() {
    assert_eq!(appid_from_environ(b"HOME=/home/x\0SteamAppId=570\0LANG=C\0"), Some(570));
    assert_eq!(appid_from_environ(b"SteamAppId=0\0SteamAppId=12\0"), Some(12));
    assert_eq!(appid_from_environ(b"SteamAppId=abc\0"), None);
    assert_eq!(appid_from_environ(b"XSteamAppId=5"), None);
    assert_eq!(appid_from_environ(b"SteamAppId=7"), Some(7));
    assert_eq!(appid_from_environ(b""), None);
    assert!(is_process_dir(b"1234"));
    assert!(!is_process_dir(b"self"));
    assert!(!is_process_dir(b""));
    assert_eq!(
        lowest_id(&vec![b"88".to_vec(), b"ac".to_vec(), b"12".to_vec(), b"40".to_vec()]),
        Some(12)
    );
    assert_eq!(lowest_id(&vec![b"anonymous".to_vec()]), None);
}

#[test]
fn polling_follows_the_running_game() {
    let schema_doc = schema(
        [
            bit("0", obj("display", obj("name", str_entry("english", b"Sans Faute")))),
            bit("1", obj("display", obj("name", str_entry("english", b"Other")))),
        ]
        .concat(),
    );
    let mut st = Steam::new(42);
    assert_eq!(st.account(), 42);
    assert_eq!(st.begin_poll(None), PollStep::Idle);
    assert!(st.take_launch().is_none());

    // a game starts: the already-unlocked achievement is no news
    assert_eq!(st.begin_poll(Some(570)), PollStep::Switch(570));
    st.switch_game(570, None, &schema_doc, Some((10, 0)), &stats(&[("1", "0", 100)]));
    assert_eq!(st.current_game().unwrap().name, "App 570");
    let l = st.take_launch().unwrap();
    assert_eq!((l.appid, l.unlocked, l.total), (570, 1, 2));
    assert!(st.take_launch().is_none());

    assert_eq!(st.begin_poll(Some(570)), PollStep::CheckStats(570));
    assert!(!st.stats_changed(Some((10, 0))));
    assert!(st.stats_changed(Some((11, 0))));
    let fresh = st.apply_stats(&stats(&[("1", "0", 100), ("1", "1", 200), ("1", "5", 300)]));
    let mut names: Vec<String> = fresh.iter().map(|u| u.name.clone()).collect();
    names.sort();
    assert_eq!(names, vec!["Achievement 5".to_string(), "Other".to_string()]);
    for u in &fresh {
        assert_eq!(u.game, "App 570");
        assert_eq!((u.unlocked, u.total), (3, 3));
    }
    // the same stats again report nothing
    assert!(st
        .apply_stats(&stats(&[("1", "0", 100), ("1", "1", 200), ("1", "5", 300)]))
        .is_empty());

    // the game stops, another starts
    assert_eq!(st.begin_poll(None), PollStep::Cleared);
    assert!(st.current_game().is_none());
    assert_eq!(st.begin_poll(Some(10)), PollStep::Switch(10));
    st.switch_game(10, Some("Counter-Strike".to_string()), b"", None, b"");
    let l = st.take_launch().unwrap();
    assert_eq!(l.name, "Counter-Strike");
    assert_eq!((l.unlocked, l.total), (0, 0));
}

#[test]
fn first_poll_announces_no_launch() {
    let mut st = Steam::new(1);
    assert_eq!(st.begin_poll(Some(570)), PollStep::Switch(570));
    st.switch_game(570, Some("Dota 2".to_string()), b"", None, b"");
    assert!(st.take_launch().is_none());
    assert!(st.apply_stats(b"").is_empty());
}
