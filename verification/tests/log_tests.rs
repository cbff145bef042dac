use easytier_bridge::api;
use easytier_bridge::core_logs::{export_entries, get_core_logs, log_entries, log_entry};
use easytier_bridge::log_buffer::{LogBuffer, MAX_LOG_BYTES};
use easytier_bridge::log_line::{parse_target_message, parse_tracing_line};

fn split(line: &str) -> (String, String, String) {
    parse_tracing_line(line)
}

fn three(a: &str, b: &str, c: &str) -> (String, String, String) {
    (a.to_string(), b.to_string(), c.to_string())
}

fn two(a: &str, b: &str) -> (String, String) {
    (a.to_string(), b.to_string())
}

#[test]
fn a_line_is_split_at_its_level() {
    assert_eq!(
        split("2026-06-28T14:50:01.000001Z  INFO easytier::core: started"),
        three("2026-06-28T14:50:01.000001Z", "INFO", "easytier::core: started")
    );
    assert_eq!(
        split("2026-06-28 14:50:01 WARN a: b"),
        three("2026-06-28 14:50:01", "WARN", "a: b")
    );
    assert_eq!(split("TRACE"), three("", "TRACE", ""));
    assert_eq!(split("t DEBUG"), three("t", "DEBUG", ""));
    assert_eq!(split("ERROR  x"), three("", "ERROR", "x"));
}

#[test]
fn a_line_without_a_level_is_all_timestamp() {
    assert_eq!(split("nothing here"), three("nothing here", "INFO", ""));
    assert_eq!(split(""), three("", "INFO", ""));
    assert_eq!(split("INFORMATION"), three("INFORMATION", "INFO", ""));
    assert_eq!(split("x=ERROR"), three("x=ERROR", "INFO", ""));
    assert_eq!(split("\u{a0}INFO"), three("\u{a0}INFO", "INFO", ""));
}

#[test]
fn a_keyword_inside_another_word_is_passed_over() {
    assert_eq!(split("t MYINFO INFO a: b"), three("t MYINFO", "INFO", "a: b"));
    assert_eq!(split("XINFO INFO a"), three("XINFO", "INFO", "a"));
    assert_eq!(split("INFOINFO INFO. INFO"), three("INFOINFO INFO.", "INFO", ""));
    assert_eq!(split("t INFO a INFO b"), three("t", "INFO", "a INFO b"));
    assert_eq!(split("XINFO WARN a"), three("XINFO", "WARN", "a"));
}

#[test]
fn keywords_are_looked_for_in_their_order() {
    assert_eq!(split("t INFO a DEBUG b"), three("t INFO a", "DEBUG", "b"));
    assert_eq!(split("t INFO a ERROR b"), three("t", "INFO", "a ERROR b"));
}

#[test]
fn levels_stand_between_ascii_white_space() {
    assert_eq!(split("t\tINFO\ta"), three("t", "INFO", "a"));
    assert_eq!(split("日志\u{3000} INFO 消息"), three("日志", "INFO", "消息"));
    assert_eq!(split("t INFO\u{3000}a"), three("t INFO\u{3000}a", "INFO", ""));
}

#[test]
fn target_and_message_are_split_at_the_separator() {
    assert_eq!(
        parse_target_message("easytier::core: peer: added "),
        two("easytier::core", "peer: added")
    );
    assert_eq!(parse_target_message("  no separator "), two("", "no separator "));
    assert_eq!(parse_target_message("a::b:c"), two("", "a::b:c"));
    assert_eq!(parse_target_message(" : x"), two("", "x"));
    assert_eq!(parse_target_message("a: "), two("a", ""));
    assert_eq!(parse_target_message(""), two("", ""));
}

#[test]
fn a_written_line_is_read_back() {
    for level in ["TRACE", "DEBUG", "INFO", "WARN", "ERROR"] {
        let line = format!("2026-06-28 14:50:01 {} easytier::peers: 已连接: ok", level);
        let e = log_entry(7, &line);
        assert_eq!(e.id, "7");
        assert_eq!(e.timestamp, "2026-06-28 14:50:01");
        assert_eq!(e.level, level);
        assert_eq!(e.tag, "easytier::peers");
        assert_eq!(e.message, "已连接: ok");
    }
}

#[test]
fn entries_are_the_lines_with_text() {
    for content in [
        "", "\n", "a", "a\n", "a\r\nb", "a\r", "\r\n\r\nx\n\ny\r\r\n", "\n\n\na\nb", "日\n志\r\n", "\r",
    ] {
        let expected: Vec<&str> = content.lines().filter(|l| !l.is_empty()).collect();
        let entries = log_entries(content);
        assert_eq!(entries.len(), expected.len(), "{:?}", content);
        for (i, e) in entries.iter().enumerate() {
            assert_eq!(e.id, format!("{}", i));
            assert_eq!(e.timestamp, expected[i], "{:?}", content);
            assert_eq!(e.level, "INFO");
        }
    }
}

#[test]
fn entry_ids_differ() {
    let content = "x\n".repeat(300);
    let entries = log_entries(&content);
    assert_eq!(entries.len(), 300);
    assert_eq!(entries[299].id, "299");
    for i in 0..entries.len() {
        for j in 0..i {
            assert_ne!(entries[i].id, entries[j].id);
        }
    }
}

#[test]
fn the_log_is_exported_as_json() {
    let mut log = LogBuffer::new();
    assert_eq!(get_core_logs(&log), "[]");
    log.write(b"2026-06-28 14:50:01 INFO core: say \"hi\"\n");
    log.write(b"\nloose\n");
    let expected = concat(&[
        r#"[{"id":"0","level":"INFO","message":"say \"hi\"","tag":"core","timestamp":"2026-06-28 14:50:01"},"#,
        r#"{"id":"1","level":"INFO","message":"","tag":"","timestamp":"loose"}]"#,
    ]);
    assert_eq!(get_core_logs(&log), expected);
    assert_eq!(api::get_core_logs(&log), expected);
}

fn concat(parts: &[&str]) -> String {
    parts.concat()
}

#[test]
fn the_export_can_be_a_c_string() {
    let mut log = LogBuffer::new();
    log.write(b"t INFO a: x\0y\n");
    let text = get_core_logs(&log);
    assert!(!text.contains('\0'));
    assert!(text.contains("x\\u0000y"));
}

#[test]
fn entries_export_like_the_log() {
    let mut log = LogBuffer::new();
    log.write("t WARN 目标: 消息\n".as_bytes());
    let entries = log_entries("t WARN 目标: 消息\n");
    assert_eq!(export_entries(&entries), get_core_logs(&log));
    let parsed: serde_json::Value = serde_json::from_str(&get_core_logs(&log)).unwrap();
    assert_eq!(parsed[0]["tag"], "目标");
    assert_eq!(parsed[0]["message"], "消息");
    assert_eq!(parsed[0].as_object().unwrap().len(), 5);
}

#[test]
fn bytes_that_are_not_text_are_replaced() {
    let mut log = LogBuffer::new();
    log.write(&[b'a', 0xff, b'b', b'\n']);
    let text = get_core_logs(&log);
    assert!(text.contains("a\u{fffd}b"));
}

#[test]
fn the_log_appends_while_it_fits() {
    let mut log = LogBuffer::new();
    assert_eq!(log.write(b"one\n"), 4);
    assert_eq!(log.write(b""), 0);
    assert_eq!(log.write(b"two"), 3);
    assert_eq!(&log.contents()[..], b"one\ntwo");
    let mut full = LogBuffer::new();
    let exact = vec![b'x'; MAX_LOG_BYTES];
    assert_eq!(full.write(&exact), MAX_LOG_BYTES);
    assert_eq!(full.contents().len(), MAX_LOG_BYTES);
}

#[test]
fn the_log_drops_whole_lines_from_the_front() {
    let mut log = LogBuffer::new();
    log.write(b"first\n");
    let mut long = vec![b'a'; MAX_LOG_BYTES - 10];
    long.push(b'\n');
    log.write(&long);
    assert_eq!(log.contents().len(), MAX_LOG_BYTES - 3);
    log.write(b"last\n");
    assert_eq!(log.contents().len(), MAX_LOG_BYTES - 4);
    assert_eq!(log.contents()[0], b'a');
    assert!(log.contents().ends_with(b"\nlast\n"));
    log.write(b"more\n");
    assert_eq!(&log.contents()[..], b"last\nmore\n");
}

#[test]
fn a_line_that_cannot_fit_is_dropped() {
    let mut log = LogBuffer::new();
    log.write(b"kept\n");
    let long = vec![b'a'; MAX_LOG_BYTES + 1];
    assert_eq!(log.write(&long), MAX_LOG_BYTES + 1);
    assert!(log.contents().is_empty());
    log.write(b"again");
    assert_eq!(&log.contents()[..], b"again");
}

#[test]
fn the_log_cuts_like_dropping_line_by_line() {
    let mut log = LogBuffer::new();
    let mut model: Vec<u8> = Vec::new();
    for i in 0..400usize {
        let mut piece = vec![b'a' + (i % 26) as u8; (i * 37) % 3000];
        if i % 3 != 0 {
            piece.push(b'\n');
        }
        log.write(&piece);
        model.extend_from_slice(&piece);
        while model.len() > MAX_LOG_BYTES {
            match model.iter().position(|&b| b == b'\n') {
                Some(pos) => {
                    model.drain(..=pos);
                }
                None => model.clear(),
            }
        }
        assert!(log.contents() == &model);
    }
}

#[test]
fn two_writes_keep_what_one_keeps() {
    let first: Vec<u8> = "line\n".repeat(40000).into_bytes();
    let second: Vec<u8> = "日志\n".repeat(20000).into_bytes();
    let mut apart = LogBuffer::new();
    apart.write(&first);
    apart.write(&second);
    let mut at_once = LogBuffer::new();
    at_once.write(&[&first[..], &second[..]].concat());
    assert!(apart.contents() == at_once.contents());
    assert!(apart.contents().len() <= MAX_LOG_BYTES);
    assert!(std::str::from_utf8(apart.contents()).is_ok());
}

#[test]
fn the_newest_line_is_exported() {
    let mut log = LogBuffer::new();
    for i in 0..9000usize {
        log.write(format!("t{} INFO core: 第 {} 行\n", i, i).as_bytes());
        if i % 1500 == 0 || i == 8999 {
            let text = std::str::from_utf8(log.contents()).unwrap();
            let entries = log_entries(text);
            let last = entries.last().unwrap();
            assert_eq!(last.id, format!("{}", entries.len() - 1));
            assert_eq!(last.timestamp, format!("t{}", i));
            assert_eq!(last.message, format!("第 {} 行", i));
        }
    }
    assert!(log_entries(std::str::from_utf8(log.contents()).unwrap()).len() < 9000);
}

#[test]
fn appended_lines_add_their_entries() {
    let first = "a\n\nb\r\n";
    let second = "c\nd";
    let both = log_entries(&[first, second].concat());
    let apart: Vec<String> = log_entries(first)
        .iter()
        .chain(log_entries(second).iter())
        .map(|e| e.timestamp.clone())
        .collect();
    assert_eq!(both.iter().map(|e| e.timestamp.clone()).collect::<Vec<String>>(), apart);
    assert_eq!(both.len(), 4);
}
