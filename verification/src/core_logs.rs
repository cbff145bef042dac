//! The core log as a list of entries, and their export as JSON.
use serde_json::Value;
use vstd::prelude::*;

use crate::json::{self, json_list, json_record, json_text_or};
use crate::log_buffer::{self, LogBuffer};
use crate::log_line::{self, parse_target_message, parse_tracing_line};
use crate::text::{self, decimal_text, to_chars, to_text};

verus! {

/// One line of the core log.
pub struct LogEntry {
    pub id: String,
    pub timestamp: String,
    pub level: String,
    pub message: String,
    pub tag: String,
}

/// The contents of a log entry.
pub struct LogEntryView {
    pub id: Seq<char>,
    pub timestamp: Seq<char>,
    pub level: Seq<char>,
    pub message: Seq<char>,
    pub tag: Seq<char>,
}

impl View for LogEntry {
    type V = LogEntryView;

    open spec fn view(&self) -> LogEntryView {
        LogEntryView {
            id: self.id@,
            timestamp: self.timestamp@,
            level: self.level@,
            message: self.message@,
            tag: self.tag@,
        }
    }
}

/// The entry for `line`, which has the number `i` among the lines with text.
pub open spec fn entry_of(i: int, line: Seq<char>) -> LogEntryView {
    let (timestamp, level, rest) = log_line::split_level(line);
    let (tag, message) = log_line::split_target(rest);
    LogEntryView { id: text::decimal(i as nat), timestamp, level, message, tag }
}

/// The lines of `content` that hold any text.
pub open spec fn text_lines(content: Seq<char>) -> Seq<Seq<char>> {
    text::lines(content).filter(|l: Seq<char>| l.len() != 0)
}

/// The log entries of `content`: one for each line with text, numbered from zero.
pub open spec fn entries_of(content: Seq<char>) -> Seq<LogEntryView> {
    Seq::new(text_lines(content).len(), |i: int| entry_of(i, text_lines(content)[i]))
}

/// The contents of log entries.
pub open spec fn entry_views(entries: Seq<LogEntry>) -> Seq<LogEntryView> {
    entries.map_values(|e: LogEntry| e@)
}

/// The JSON object of an entry.
pub open spec fn entry_json(e: LogEntryView) -> json::Json {
    json::Json::Record(
        json::members(
            seq![
                ("id"@, e.id),
                ("timestamp"@, e.timestamp),
                ("level"@, e.level),
                ("message"@, e.message),
                ("tag"@, e.tag),
            ],
        ),
    )
}

/// The JSON list of the entries.
pub open spec fn entries_json(entries: Seq<LogEntryView>) -> json::Json {
    json::Json::List(entries.map_values(|e: LogEntryView| entry_json(e)))
}

/// The JSON text of the entries; an empty list should they not be writable.
pub open spec fn export_text(entries: Seq<LogEntryView>) -> Seq<char> {
    match json::json_text(entries_json(entries)) {
        Some(s) => s,
        None => "[]"@,
    }
}

/// The text of the bytes in UTF-8, with a replacement for what is not UTF-8.
pub uninterp spec fn utf8_lossy(bytes: Seq<u8>) -> Seq<char>;

/// The standard's `String::from_utf8_lossy`: bytes that are UTF-8 give their
/// text. What invalid bytes are replaced with is not stated.
#[verifier::external_body]
fn from_utf8_lossy(bytes: &Vec<u8>) -> (r: String)
    ensures
        r@ == utf8_lossy(bytes@),
        vstd::utf8::valid_utf8(bytes@) ==> r@ == vstd::utf8::decode_utf8(bytes@),
{
    String::from_utf8_lossy(bytes).into_owned()
}

/// The entry for `line`, the line with text number `i`.
pub fn log_entry(i: usize, line: &str) -> (r: LogEntry)
    ensures
        r@ == entry_of(i as int, line@),
{
    let (timestamp, level, rest) = parse_tracing_line(line);
    let (tag, message) = parse_target_message(rest.as_str());
    LogEntry { id: decimal_text(i), timestamp, level, message, tag }
}

/// The log entries of `content`, in the order of its lines.
pub fn log_entries(content: &str) -> (r: Vec<LogEntry>)
    ensures
        entry_views(r@) == entries_of(content@),
{
    let chars = to_chars(content);
    let mut entries: Vec<LogEntry> = Vec::new();
    let mut start: usize = 0;
    let ghost total = text_lines(content@);
    let ghost has_text = |l: Seq<char>| l.len() != 0;
    assert(chars@.skip(0) =~= content@);
    while start < chars.len()
        invariant
            start <= chars@.len(),
            chars@ == content@,
            total == text_lines(content@),
            has_text == (|l: Seq<char>| l.len() != 0),
            entries@.len() <= total.len(),
            total.skip(entries@.len() as int) == text_lines(chars@.skip(start as int)),
            forall|i: int|
                0 <= i < entries@.len() ==> (#[trigger] entries@[i])@ == entry_of(i, total[i]),
        decreases chars@.len() - start,
    {
        let ghost rest = chars@.skip(start as int);
        let mut end: usize = start;
        while end < chars.len() && chars[end] != '\n'
            invariant
                start <= end <= chars@.len(),
                rest == chars@.skip(start as int),
                forall|j: int| 0 <= j < end - start ==> rest[j] != '\n',
            decreases chars@.len() - end,
        {
            end += 1;
        }
        proof {
            text::lemma_line_end_is(rest, end - start);
        }
        let at_feed = end < chars.len();
        let stop: usize = if at_feed && end > start && chars[end - 1] == '\r' {
            end - 1
        } else {
            end
        };
        let next: usize = if at_feed {
            end + 1
        } else {
            end
        };
        let ghost line = chars@.subrange(start as int, stop as int);
        proof {
            let after = chars@.skip(next as int);
            if at_feed {
                assert(rest.take(end - start) =~= chars@.subrange(start as int, end as int));
                assert(text::strip_return(rest.take(end - start)) =~= line);
                assert(rest.skip(end - start + 1) =~= after);
            } else {
                assert(rest =~= line);
                assert(after =~= Seq::<char>::empty());
                assert(text::lines(rest) =~= seq![line] + text::lines(after));
            }
            assert(text::lines(rest) == seq![line] + text::lines(after));
            lemma_filter_cons(line, text::lines(after), has_text);
        }
        if stop > start {
            assert(line.len() != 0);
            assert(total.skip(entries@.len() as int)[0] == line);
            assert(total.skip(entries@.len() as int).skip(1) =~= total.skip(
                entries@.len() as int + 1,
            ));
            assert((seq![line] + text_lines(chars@.skip(next as int))).skip(1) =~= text_lines(
                chars@.skip(next as int),
            ));
            let line_text = to_text(&chars, start, stop);
            let entry = log_entry(entries.len(), line_text.as_str());
            entries.push(entry);
        }
        start = next;
    }
    assert(chars@.skip(start as int) =~= Seq::<char>::empty());
    assert(text::lines(chars@.skip(start as int)) =~= Seq::<Seq<char>>::empty());
    assert(text_lines(chars@.skip(start as int)) =~= Seq::<Seq<char>>::empty());
    assert(total.skip(entries@.len() as int).len() == 0);
    assert(entry_views(entries@) =~= entries_of(content@));
    entries
}

/// The JSON object of `entry`.
fn entry_value(entry: &LogEntry) -> (r: Value)
    ensures
        json::json_of(r) == entry_json(entry@),
{
    let mut pairs: Vec<(String, String)> = Vec::new();
    pairs.push(("id".to_owned(), entry.id.clone()));
    pairs.push(("timestamp".to_owned(), entry.timestamp.clone()));
    pairs.push(("level".to_owned(), entry.level.clone()));
    pairs.push(("message".to_owned(), entry.message.clone()));
    pairs.push(("tag".to_owned(), entry.tag.clone()));
    proof {
        reveal_strlit("id");
        reveal_strlit("timestamp");
        reveal_strlit("level");
        reveal_strlit("message");
        reveal_strlit("tag");
        assert(pairs@[0].0@.len() == 2);
        assert(pairs@[1].0@.len() == 9);
        assert(pairs@[2].0@.len() == 5);
        assert(pairs@[3].0@.len() == 7);
        assert(pairs@[4].0@.len() == 3);
    }
    assert(json::pair_views(pairs@) =~= seq![
        ("id"@, entry@.id),
        ("timestamp"@, entry@.timestamp),
        ("level"@, entry@.level),
        ("message"@, entry@.message),
        ("tag"@, entry@.tag),
    ]);
    json_record(pairs)
}

/// The JSON text of the entries, a list of objects.
pub fn export_entries(entries: &Vec<LogEntry>) -> (r: String)
    ensures
        r@ == export_text(entry_views(entries@)),
        !r@.contains('\0'),
{
    let mut values: Vec<Value> = Vec::new();
    let mut i: usize = 0;
    while i < entries.len()
        invariant
            i <= entries@.len(),
            values@.len() == i,
            forall|j: int|
                0 <= j < i ==> json::json_of(#[trigger] values@[j]) == entry_json(
                    entries@[j]@,
                ),
        decreases entries@.len() - i,
    {
        values.push(entry_value(&entries[i]));
        i += 1;
    }
    assert(json::json_views(values@) =~= entry_views(entries@).map_values(
        |e: LogEntryView| entry_json(e),
    ));
    proof {
        reveal_strlit("[]");
    }
    let list = json_list(values);
    json_text_or(&list, "[]")
}

/// The core log as JSON: a list with an object for each line that holds text,
/// with its number, timestamp, level, message and target.
pub fn get_core_logs(log: &LogBuffer) -> (r: String)
    ensures
        r@ == export_text(entries_of(utf8_lossy(log@))),
        vstd::utf8::valid_utf8(log@) ==> r@ == export_text(
            entries_of(vstd::utf8::decode_utf8(log@)),
        ),
        !r@.contains('\0'),
{
    let content = from_utf8_lossy(log.contents());
    let entries = log_entries(content.as_str());
    export_entries(&entries)
}

/// Filtering keeps or drops the first item and filters the others.
proof fn lemma_filter_cons(
    first: Seq<char>,
    others: Seq<Seq<char>>,
    keep: spec_fn(Seq<char>) -> bool,
)
    ensures
        keep(first) ==> (seq![first] + others).filter(keep) == seq![first] + others.filter(keep),
        !keep(first) ==> (seq![first] + others).filter(keep) == others.filter(keep),
{
    Seq::filter_distributes_over_add(seq![first], others, keep);
    reveal_with_fuel(Seq::filter, 2);
    assert(seq![first].drop_last() =~= Seq::<Seq<char>>::empty());
    assert(Seq::<Seq<char>>::empty() + others.filter(keep) =~= others.filter(keep));
    assert(Seq::<Seq<char>>::empty().push(first) =~= seq![first]);
}

/// A written line gives its parts back: the timestamp without trailing white
/// space, the level, and target and message without surrounding white space. The
/// provisos are those under which level and target are found: the timestamp does
/// not hold the level as a word of its own, neither timestamp nor what follows the
/// level so hold a level that is looked for before, and the target does not hold
/// the separator.
pub proof fn law_written_line_is_read_back(
    i: int,
    timestamp: Seq<char>,
    k: int,
    target: Seq<char>,
    message: Seq<char>,
)
    requires
        0 <= k < 5,
        text::find(target, ": "@) is None,
        forall|j: int|
            0 <= j <= k ==> log_line::level_pos(
                timestamp,
                #[trigger] log_line::level_keywords()[j],
            ) is None,
        forall|j: int|
            0 <= j < k ==> log_line::level_pos(
                log_line::target_rest(target, message),
                #[trigger] log_line::level_keywords()[j],
            ) is None,
    ensures
        entry_of(
            i,
            log_line::level_line(
                timestamp,
                log_line::level_keywords()[k],
                log_line::target_rest(target, message),
            ),
        ) == (LogEntryView {
            id: text::decimal(i as nat),
            timestamp: text::trim_end(timestamp),
            level: log_line::level_keywords()[k],
            message: text::trim(message),
            tag: text::trim(target),
        }),
{
    log_line::law_written_level_is_found(timestamp, k, log_line::target_rest(target, message));
    log_line::law_written_target_is_found(target, message);
}

/// Every entry has an id of its own, which counts from zero.
pub proof fn law_entry_ids_are_distinct(content: Seq<char>, i: int, j: int)
    requires
        0 <= i < entries_of(content).len(),
        0 <= j < entries_of(content).len(),
    ensures
        entries_of(content)[i].id == text::decimal(i as nat),
        entries_of(content)[i].id == entries_of(content)[j].id ==> i == j,
{
    if entries_of(content)[i].id == entries_of(content)[j].id {
        text::law_decimal_injective(i as nat, j as nat);
    }
}

/// Every entry has one of the five levels.
pub proof fn law_entry_has_a_level(i: int, line: Seq<char>)
    ensures
        log_line::level_keywords().contains(entry_of(i, line).level),
{
    lemma_level(line, 0);
}

proof fn lemma_level(line: Seq<char>, k: int)
    requires
        0 <= k <= 5,
    ensures
        log_line::level_keywords().contains(log_line::split_level_from(line, k).1),
    decreases 5 - k,
{
    assert(log_line::level_keywords()[2] == "INFO"@);
    if k < 5 {
        assert(log_line::level_keywords().contains(log_line::level_keywords()[k]));
        lemma_level(line, k + 1);
    }
}

/// The first line of a log that holds text is its first entry.
pub proof fn law_first_line_is_first_entry(line: Seq<char>, others: Seq<char>)
    requires
        !line.contains('\n'),
        text::strip_return(line).len() > 0,
    ensures
        ({
            let entries = entries_of(line + seq!['\n'] + others);
            &&& entries.len() == 1 + entries_of(others).len()
            &&& entries[0] == entry_of(0, text::strip_return(line))
        }),
{
    let has_text = |l: Seq<char>| l.len() != 0;
    text::law_first_line(line, others);
    lemma_filter_cons(text::strip_return(line), text::lines(others), has_text);
}

/// The JSON object of an entry has five members, all of them strings.
pub proof fn law_entry_json_members(e: LogEntryView)
    ensures
        entry_json(e) == json::Json::Record(
            Map::<Seq<char>, json::Json>::empty().insert("id"@, json::Json::Text(e.id)).insert(
                "timestamp"@,
                json::Json::Text(e.timestamp),
            ).insert("level"@, json::Json::Text(e.level)).insert(
                "message"@,
                json::Json::Text(e.message),
            ).insert("tag"@, json::Json::Text(e.tag)),
        ),
{
    let all = seq![
        ("id"@, e.id),
        ("timestamp"@, e.timestamp),
        ("level"@, e.level),
        ("message"@, e.message),
        ("tag"@, e.tag),
    ];
    let p4 = all.drop_last();
    let p3 = p4.drop_last();
    let p2 = p3.drop_last();
    let p1 = p2.drop_last();
    let p0 = p1.drop_last();
    assert(p0.len() == 0);
    assert(json::members(p1) == json::members(p0).insert("id"@, json::Json::Text(e.id)));
    assert(json::members(p2) == json::members(p1).insert(
        "timestamp"@,
        json::Json::Text(e.timestamp),
    ));
    assert(json::members(p3) == json::members(p2).insert("level"@, json::Json::Text(e.level)));
    assert(json::members(p4) == json::members(p3).insert(
        "message"@,
        json::Json::Text(e.message),
    ));
}

/// The newest line is in the export: whatever whole lines the log held, a line
/// that is written to it comes back as the last entry, provided that the line
/// holds text and fits the log.
pub proof fn law_newest_line_is_exported(old_log: Seq<u8>, line: Seq<char>)
    requires
        vstd::utf8::valid_utf8(old_log),
        old_log.len() == 0 || old_log.last() == 10,
        !line.contains('\n'),
        text::strip_return(line).len() > 0,
        vstd::utf8::encode_utf8(line.push('\n')).len() <= log_buffer::MAX_LOG_BYTES,
    ensures
        ({
            let log = log_buffer::kept(old_log + vstd::utf8::encode_utf8(line.push('\n')));
            let entries = entries_of(vstd::utf8::decode_utf8(log));
            &&& vstd::utf8::valid_utf8(log)
            &&& entries.len() > 0
            &&& entries.last() == entry_of(entries.len() - 1, text::strip_return(line))
        }),
{
    let written = vstd::utf8::encode_utf8(line.push('\n'));
    let all = old_log + written;
    let c = log_buffer::cut(all);
    let log = log_buffer::kept(all);
    assert(log_buffer::is_line_start(all, old_log.len() as int));
    log_buffer::law_log_keeps_all_that_fits(all, old_log.len() as int);
    log_buffer::law_log_keeps_whole_lines(all);
    vstd::utf8::encode_utf8_valid_utf8(line.push('\n'));
    vstd::utf8::encode_utf8_decode_utf8(line.push('\n'));
    let head = old_log.skip(c);
    assert(log =~= head + written);
    assert(written.len() > 0) by {
        if written.len() == 0 {
            assert(vstd::utf8::decode_utf8(written).len() == 0);
        }
    }
    assert(log_buffer::is_line_start(old_log, c));
    log_buffer::lemma_line_start_is_text(old_log, c);
    vstd::utf8::valid_utf8_concat(head, written);
    lemma_decode_concat(head, written);
    if head.len() > 0 {
        assert(head.last() == old_log.last());
    }
    lemma_decode_feed(head);
    let before = vstd::utf8::decode_utf8(head);
    let content = vstd::utf8::decode_utf8(log);
    assert(content == before + line.push('\n'));
    text::law_lines_append(before, line.push('\n'));
    assert(line.push('\n') =~= line + seq!['\n'] + Seq::<char>::empty());
    text::law_first_line(line, Seq::empty());
    let last = text::strip_return(line);
    assert(text::lines(Seq::<char>::empty()) =~= Seq::<Seq<char>>::empty());
    assert(text::lines(line.push('\n')) =~= seq![last]);
    let has_text = |l: Seq<char>| l.len() != 0;
    Seq::filter_distributes_over_add(text::lines(before), seq![last], has_text);
    lemma_filter_cons(last, Seq::empty(), has_text);
    assert(seq![last] + Seq::<Seq<char>>::empty() =~= seq![last]);
    assert(Seq::<Seq<char>>::empty().filter(has_text) =~= Seq::<Seq<char>>::empty()) by {
        reveal(Seq::filter);
    }
    assert(text_lines(content) == text::lines(before).filter(has_text) + seq![last]);
}

/// Two texts in UTF-8, one behind the other, decode one behind the other.
proof fn lemma_decode_concat(a: Seq<u8>, b: Seq<u8>)
    requires
        vstd::utf8::valid_utf8(a),
        vstd::utf8::valid_utf8(b),
    ensures
        vstd::utf8::valid_utf8(a + b),
        vstd::utf8::decode_utf8(a + b) == vstd::utf8::decode_utf8(a) + vstd::utf8::decode_utf8(b),
    decreases a.len(),
{
    vstd::utf8::valid_utf8_concat(a, b);
    let decoded = vstd::utf8::decode_utf8(a) + vstd::utf8::decode_utf8(b);
    if a.len() == 0 {
        assert(a + b =~= b);
        assert(decoded =~= vstd::utf8::decode_utf8(b));
    } else {
        let rest = vstd::utf8::pop_first_scalar(a);
        lemma_decode_concat(rest, b);
        assert(vstd::utf8::pop_first_scalar(a + b) =~= rest + b);
        assert(vstd::utf8::decode_utf8(a + b) =~= decoded);
    }
}

/// Text whose last byte is a line feed ends in a line feed.
proof fn lemma_decode_feed(bytes: Seq<u8>)
    requires
        vstd::utf8::valid_utf8(bytes),
        bytes.len() == 0 || bytes.last() == 10,
    ensures
        vstd::utf8::decode_utf8(bytes).len() == 0 || vstd::utf8::decode_utf8(bytes).last() == '\n',
    decreases bytes.len(),
{
    if bytes.len() > 0 {
        let rest = vstd::utf8::pop_first_scalar(bytes);
        if rest.len() == 0 {
            assert(vstd::utf8::length_of_first_scalar(bytes) == 1);
            assert(10u8 & 0x7f == 10u8) by (bit_vector);
            assert(vstd::utf8::decode_utf8(rest) =~= Seq::<char>::empty());
        } else {
            assert(rest.last() == bytes.last());
            lemma_decode_feed(rest);
            assert(vstd::utf8::decode_utf8(rest).len() > 0);
        }
    }
}

/// The lines with text are found line by line: a line with its line feed counts
/// exactly if it holds anything but its line ending, a last line without line feed
/// exactly if it holds anything, and no line is left out, added or changed.
pub proof fn law_lines_with_text_one_by_one(line: Seq<char>, others: Seq<char>)
    requires
        !line.contains('\n'),
    ensures
        text_lines(line + seq!['\n'] + others) == if text::strip_return(line).len() > 0 {
            seq![text::strip_return(line)] + text_lines(others)
        } else {
            text_lines(others)
        },
        text_lines(line) == if line.len() > 0 {
            seq![line]
        } else {
            Seq::<Seq<char>>::empty()
        },
{
    let has_text = |l: Seq<char>| l.len() != 0;
    text::law_first_line(line, others);
    lemma_filter_cons(text::strip_return(line), text::lines(others), has_text);
    text::law_text_without_feed_is_one_line(line);
    let none = Seq::<Seq<char>>::empty();
    assert(none.filter(has_text) =~= none) by {
        reveal(Seq::filter);
    }
    lemma_filter_cons(line, none, has_text);
    assert(seq![line] + none =~= seq![line]);
}

/// Every line with text has its entry, and there is no other: the entries are as many,
/// and each is that of its line, with its number.
pub proof fn law_every_line_has_its_entry(content: Seq<char>, i: int)
    ensures
        entries_of(content).len() == text_lines(content).len(),
        0 <= i < text_lines(content).len() ==> entries_of(content)[i] == entry_of(
            i,
            text_lines(content)[i],
        ),
{
}

/// An entry holds the parts of its line, and its number in decimal.
pub proof fn law_entry_holds_the_parts_of_its_line(i: int, line: Seq<char>)
    requires
        0 <= i,
    ensures
        ({
            let (timestamp, level, rest) = log_line::split_level(line);
            let e = entry_of(i, line);
            &&& e.id == text::decimal(i as nat)
            &&& e.timestamp == timestamp
            &&& e.level == level
            &&& (e.tag, e.message) == log_line::split_target(rest)
        }),
{
}

/// A line that names no level is all timestamp, with the level `INFO`, no target and
/// no message.
pub proof fn law_entry_without_level(i: int, line: Seq<char>)
    requires
        0 <= i,
        forall|k: int, pos: int|
            0 <= k < 5 ==> !#[trigger] log_line::word_at(line, log_line::level_keywords()[k], pos),
    ensures
        entry_of(i, line) == (LogEntryView {
            id: text::decimal(i as nat),
            timestamp: line,
            level: "INFO"@,
            message: Seq::empty(),
            tag: Seq::empty(),
        }),
{
    log_line::law_line_without_level(line);
    let none = Seq::<char>::empty();
    log_line::law_rest_without_separator_is_all_message(none);
}

/// Target and message of a written line come back character for character, however
/// long they are, where they neither begin nor end with white space; so does the
/// timestamp. The other provisos are those under which level and target are found.
pub proof fn law_written_line_comes_back_whole(
    i: int,
    timestamp: Seq<char>,
    k: int,
    target: Seq<char>,
    message: Seq<char>,
)
    requires
        0 <= i,
        0 <= k < 5,
        text::find(target, ": "@) is None,
        forall|j: int|
            0 <= j <= k ==> log_line::level_pos(
                timestamp,
                #[trigger] log_line::level_keywords()[j],
            ) is None,
        forall|j: int|
            0 <= j < k ==> log_line::level_pos(
                target + ": "@ + message,
                #[trigger] log_line::level_keywords()[j],
            ) is None,
        timestamp.len() > 0 ==> !text::is_white(timestamp.last()),
        target.len() > 0 ==> !text::is_white(target[0]) && !text::is_white(target.last()),
        message.len() > 0 ==> !text::is_white(message[0]) && !text::is_white(message.last()),
    ensures
        ({
            let level = log_line::level_keywords()[k];
            let e = entry_of(i, timestamp + " "@ + level + " "@ + (target + ": "@ + message));
            &&& e.timestamp == timestamp
            &&& e.level == level
            &&& e.tag == target
            &&& e.message == message
        }),
{
    log_line::law_written_line_is_its_parts(
        timestamp,
        log_line::level_keywords()[k],
        target,
        message,
    );
    assert(log_line::target_rest(target, message) == target + ": "@ + message);
    law_written_line_is_read_back(i, timestamp, k, target, message);
    text::law_trim_keeps_text(target);
    text::law_trim_keeps_text(message);
    text::law_trim_end_removes_white_space_only(timestamp);
    assert(timestamp.take(timestamp.len() as int) =~= timestamp);
}

/// The export is a list with the object of every entry, each in its place.
pub proof fn law_export_lists_every_entry(entries: Seq<LogEntryView>)
    ensures
        entries_json(entries) matches json::Json::List(list) && {
            &&& list.len() == entries.len()
            &&& forall|i: int|
                0 <= i < entries.len() ==> #[trigger] list[i] == entry_json(entries[i])
        },
{
}

/// The exported text is that of the list of all entries; only a list that cannot be
/// written is exported as an empty one.
pub proof fn law_export_is_the_whole_text(entries: Seq<LogEntryView>)
    ensures
        json::json_text(entries_json(entries)) is Some ==> json::json_text(entries_json(entries))
            == Some(export_text(entries)),
        json::json_text(entries_json(entries)) is None ==> export_text(entries) == "[]"@,
{
}

/// The contents of entries are those of each entry, part by part.
pub proof fn law_entry_views_by_item(entries: Seq<LogEntry>, i: int)
    requires
        0 <= i < entries.len(),
    ensures
        entry_views(entries).len() == entries.len(),
        entry_views(entries)[i] == (LogEntryView {
            id: entries[i].id@,
            timestamp: entries[i].timestamp@,
            level: entries[i].level@,
            message: entries[i].message@,
            tag: entries[i].tag@,
        }),
{
}

} // verus!
