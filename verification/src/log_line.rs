//! Splitting one line of core log output into timestamp, level, target and
//! message.
use vstd::prelude::*;

use crate::text::{
    self, drop_white, find_chars, is_ascii_white_space, matches_at, skip_white, to_chars, to_text,
};

verus! {

/// The `n` characters of `line` from `pos` on are a word of their own: each side
/// is the edge of the line or ASCII white space.
pub open spec fn standalone(line: Seq<char>, pos: int, n: int) -> bool {
    &&& pos == 0 || text::is_ascii_white(line[pos - 1])
    &&& pos + n >= line.len() || text::is_ascii_white(line[pos + n])
}

/// `line` holds `keyword` at `pos` as a word of its own.
pub open spec fn word_at(line: Seq<char>, keyword: Seq<char>, pos: int) -> bool {
    text::occurs_at(line, keyword, pos) && standalone(line, pos, keyword.len() as int)
}

/// `pos` is the first position at which `line` holds `keyword` as a word of its
/// own.
pub open spec fn first_word_at(line: Seq<char>, keyword: Seq<char>, pos: int) -> bool {
    &&& word_at(line, keyword, pos)
    &&& forall|j: int| 0 <= j < pos ==> !#[trigger] word_at(line, keyword, j)
}

/// Where `line` names the level `keyword`: at the first position at which it holds
/// the keyword as a word of its own, if there is one. An occurrence inside another
/// word does not count.
pub open spec fn level_pos(line: Seq<char>, keyword: Seq<char>) -> Option<int> {
    if exists|pos: int| word_at(line, keyword, pos) {
        Some(choose|pos: int| first_word_at(line, keyword, pos))
    } else {
        None
    }
}

/// The level keywords, in the order in which they are looked for.
pub open spec fn level_keywords() -> Seq<Seq<char>> {
    seq!["TRACE"@, "DEBUG"@, "INFO"@, "WARN"@, "ERROR"@]
}

/// The timestamp, level and rest of `line` by the keywords from number `k` on.
pub open spec fn split_level_from(line: Seq<char>, k: int) -> (Seq<char>, Seq<char>, Seq<char>)
    decreases 5 - k,
{
    if k < 0 || k >= 5 {
        (line, "INFO"@, Seq::empty())
    } else {
        let keyword = level_keywords()[k];
        match level_pos(line, keyword) {
            Some(pos) => (
                text::trim_end(line.take(pos)),
                keyword,
                text::trim_start(line.skip(pos + keyword.len())),
            ),
            None => split_level_from(line, k + 1),
        }
    }
}

/// The timestamp, level and rest of `line`. The first keyword, in the order of
/// `level_keywords`, that the line names splits it; a line that names none is
/// all timestamp, with the level `INFO`.
pub open spec fn split_level(line: Seq<char>) -> (Seq<char>, Seq<char>, Seq<char>) {
    split_level_from(line, 0)
}

/// The target and message of `rest`, which stand before and after its first
/// colon with a space behind it; without one it is all message.
pub open spec fn split_target(rest: Seq<char>) -> (Seq<char>, Seq<char>) {
    let trimmed = text::trim_start(rest);
    match text::find(trimmed, ": "@) {
        Some(pos) => (
            text::trim(trimmed.take(pos)),
            text::trim(trimmed.skip(pos + 2)),
        ),
        None => (Seq::empty(), trimmed),
    }
}

/// Tells whether the `n` characters of `line` from `pos` on are a word.
fn is_standalone(line: &Vec<char>, pos: usize, n: usize) -> (r: bool)
    requires
        pos + n <= line@.len(),
    ensures
        r == standalone(line@, pos as int, n as int),
{
    let len: usize = line.len();
    let before_ok = pos == 0 || is_ascii_white_space(line[pos - 1]);
    let after: usize = pos + n;
    let after_ok = after >= len || is_ascii_white_space(line[after]);
    before_ok && after_ok
}

/// The first position at which `line` holds `keyword` as a word of its own.
fn find_word(line: &Vec<char>, keyword: &Vec<char>) -> (r: Option<usize>)
    ensures
        match r {
            Some(pos) => {
                &&& level_pos(line@, keyword@) == Some(pos as int)
                &&& pos + keyword@.len() <= line@.len()
            },
            None => level_pos(line@, keyword@) is None,
        },
{
    let n: usize = keyword.len();
    if n > line.len() {
        return None;
    }
    let last: usize = line.len() - n;
    let mut pos: usize = 0;
    loop
        invariant
            pos <= last,
            n == keyword@.len(),
            last + n == line@.len(),
            forall|j: int| 0 <= j < pos ==> !#[trigger] word_at(line@, keyword@, j),
        decreases last - pos,
    {
        if matches_at(line, keyword, pos) && is_standalone(line, pos, n) {
            proof {
                law_level_pos_is_the_first_word(line@, keyword@, pos as int);
            }
            return Some(pos);
        }
        if pos == last {
            return None;
        }
        pos += 1;
    }
}

/// The level keyword with the number `k`.
fn keyword_text(k: usize) -> (r: &'static str)
    requires
        k < 5,
    ensures
        r@ == level_keywords()[k as int],
{
    if k == 0 {
        "TRACE"
    } else if k == 1 {
        "DEBUG"
    } else if k == 2 {
        "INFO"
    } else if k == 3 {
        "WARN"
    } else {
        "ERROR"
    }
}

/// Splits a line of tracing output into timestamp, level and rest. The timestamp
/// may hold spaces, so the line is split at the level keyword, where that is a
/// word of its own, and not at white space.
pub fn parse_tracing_line(line: &str) -> (r: (String, String, String))
    ensures
        (r.0@, r.1@, r.2@) == split_level(line@),
{
    let chars = to_chars(line);
    let mut k: usize = 0;
    while k < 5
        invariant
            k <= 5,
            chars@ == line@,
            split_level(line@) == split_level_from(line@, k as int),
        decreases 5 - k,
    {
        let keyword = keyword_text(k);
        let needle = to_chars(keyword);
        if let Some(pos) = find_word(&chars, &needle) {
            let after: usize = pos + needle.len();
            let end = drop_white(&chars, 0, pos);
            let start = skip_white(&chars, after, chars.len());
            assert(line@.take(pos as int) == chars@.subrange(0, pos as int));
            assert(line@.skip(after as int) == chars@.subrange(
                after as int,
                chars@.len() as int,
            ));
            return (
                to_text(&chars, 0, end),
                keyword.to_owned(),
                to_text(&chars, start, chars.len()),
            );
        }
        k += 1;
    }
    (line.to_owned(), "INFO".to_owned(), String::new())
}

/// Splits what follows the level into target and message. The separator is a
/// colon and a space, so the `::` of a path does not split.
pub fn parse_target_message(rest: &str) -> (r: (String, String))
    ensures
        (r.0@, r.1@) == split_target(rest@),
{
    let chars = to_chars(rest);
    let start = skip_white(&chars, 0, chars.len());
    assert(chars@.subrange(0, chars@.len() as int) == rest@);
    let trimmed_text = to_text(&chars, start, chars.len());
    let trimmed = to_chars(trimmed_text.as_str());
    let needle = to_chars(": ");
    match find_chars(&trimmed, &needle) {
        Some(pos) => {
            proof {
                reveal_strlit(": ");
                text::lemma_find_from(trimmed@, needle@, 0);
            }
            let len: usize = trimmed.len();
            let target_start = skip_white(&trimmed, 0, pos);
            let target_end = drop_white(&trimmed, target_start, pos);
            let message_start = skip_white(&trimmed, pos + 2, len);
            let message_end = drop_white(&trimmed, message_start, len);
            assert(trimmed@.take(pos as int) == trimmed@.subrange(0, pos as int));
            assert(trimmed@.skip(pos + 2) == trimmed@.subrange(pos + 2, len as int));
            (
                to_text(&trimmed, target_start, target_end),
                to_text(&trimmed, message_start, message_end),
            )
        },
        None => (String::new(), trimmed_text),
    }
}

/// A line as tracing writes it: timestamp, level and rest, with a space between.
pub open spec fn level_line(timestamp: Seq<char>, keyword: Seq<char>, rest: Seq<char>) -> Seq<char> {
    timestamp + seq![' '] + keyword + seq![' '] + rest
}

/// What follows the level as tracing writes it: target and message, with a colon
/// and a space between.
pub open spec fn target_rest(target: Seq<char>, message: Seq<char>) -> Seq<char> {
    target + ": "@ + message
}

/// The level is found at `pos` exactly if that is the first position at which the
/// line holds the keyword as a word of its own, and not found exactly if there is
/// no such position.
pub proof fn law_level_pos_is_the_first_word(line: Seq<char>, keyword: Seq<char>, pos: int)
    ensures
        level_pos(line, keyword) == Some(pos) <==> first_word_at(line, keyword, pos),
        level_pos(line, keyword) is None <==> forall|j: int| !#[trigger] word_at(line, keyword, j),
{
    if exists|j: int| word_at(line, keyword, j) {
        let j = choose|j: int| word_at(line, keyword, j);
        lemma_first_word_exists(line, keyword, j);
        let first = choose|i: int| first_word_at(line, keyword, i);
        assert(first_word_at(line, keyword, first));
    }
}

/// A written line is split where it was put together, provided that the timestamp
/// does not hold the keyword as a word of its own, and that neither timestamp nor
/// rest so hold a keyword that is looked for before.
pub proof fn law_written_level_is_found(timestamp: Seq<char>, k: int, rest: Seq<char>)
    requires
        0 <= k < 5,
        forall|j: int| 0 <= j <= k ==> level_pos(timestamp, #[trigger] level_keywords()[j]) is None,
        forall|j: int| 0 <= j < k ==> level_pos(rest, #[trigger] level_keywords()[j]) is None,
    ensures
        split_level(level_line(timestamp, level_keywords()[k], rest)) == (
            text::trim_end(timestamp),
            level_keywords()[k],
            text::trim_start(rest),
        ),
{
    let keyword = level_keywords()[k];
    let line = level_line(timestamp, keyword, rest);
    let pos = timestamp.len() as int + 1;
    let n = keyword.len() as int;
    lemma_keyword(k);
    assert(line.subrange(pos, pos + n) =~= keyword);
    assert(line[pos - 1] == ' ');
    assert(line[pos + n] == ' ');
    assert(word_at(line, keyword, pos));
    assert forall|i: int| 0 <= i < pos implies !#[trigger] word_at(line, keyword, i) by {
        if word_at(line, keyword, i) {
            lemma_word_of_line(timestamp, k, rest, k, i);
        }
    }
    law_level_pos_is_the_first_word(line, keyword, pos);
    assert forall|j: int| 0 <= j < k implies level_pos(
        line,
        #[trigger] level_keywords()[j],
    ) is None by {
        let other = level_keywords()[j];
        if exists|i: int| word_at(line, other, i) {
            let i = choose|i: int| word_at(line, other, i);
            lemma_word_of_line(timestamp, k, rest, j, i);
        }
    }
    lemma_skip_keywords(line, 0, k);
    assert(line.take(pos) =~= timestamp.push(' '));
    assert(timestamp.push(' ').drop_last() =~= timestamp);
    assert(line.skip(pos + n) =~= seq![' '] + rest);
    assert((seq![' '] + rest).skip(1) =~= rest);
}

/// Written target and message are found again, provided that the target does not
/// hold the separator.
pub proof fn law_written_target_is_found(target: Seq<char>, message: Seq<char>)
    requires
        text::find(target, ": "@) is None,
    ensures
        split_target(target_rest(target, message)) == (text::trim(target), text::trim(message)),
        split_target(text::trim_start(target_rest(target, message))) == (
            text::trim(target),
            text::trim(message),
        ),
{
    reveal_strlit(": ");
    let rest = target_rest(target, message);
    let left = text::trim_start(target);
    let trimmed = text::trim_start(rest);
    lemma_trim_start_rest(target, message);
    assert(trimmed == target_rest(left, message));
    lemma_trim_start_suffix(target);
    text::lemma_find_from(target, ": "@, 0);
    let pos = left.len() as int;
    assert(trimmed.subrange(pos, pos + 2) =~= ": "@);
    assert forall|j: int| 0 <= j < pos implies !#[trigger] text::occurs_at(trimmed, ": "@, j) by {
        if text::occurs_at(trimmed, ": "@, j) {
            assert(trimmed.subrange(j, j + 2)[1] == ' ');
            assert(trimmed[j + 1] == ' ');
            assert(trimmed[pos] == ':');
            let shift = target.len() - left.len();
            assert(target.subrange(shift + j, shift + j + 2) =~= trimmed.subrange(j, j + 2));
            assert(text::occurs_at(target, ": "@, shift + j));
        }
    }
    text::lemma_find_is(trimmed, ": "@, pos);
    assert(trimmed.take(pos) =~= left);
    assert(trimmed.skip(pos + 2) =~= message);
    lemma_trim_start_twice(target);
    lemma_trim_start_twice(rest);
}

/// Of the words in a line, the first is first.
proof fn lemma_first_word_exists(line: Seq<char>, keyword: Seq<char>, pos: int)
    requires
        word_at(line, keyword, pos),
    ensures
        exists|i: int| first_word_at(line, keyword, i),
    decreases pos,
{
    if exists|j: int| 0 <= j < pos && #[trigger] word_at(line, keyword, j) {
        let j = choose|j: int| 0 <= j < pos && #[trigger] word_at(line, keyword, j);
        lemma_first_word_exists(line, keyword, j);
    } else {
        assert(first_word_at(line, keyword, pos));
    }
}

/// Where a written line holds a level keyword as a word of its own, the word
/// belongs to the timestamp or to the rest, or it is the level.
proof fn lemma_word_of_line(timestamp: Seq<char>, k: int, rest: Seq<char>, j: int, i: int)
    requires
        0 <= k < 5,
        0 <= j < 5,
        word_at(level_line(timestamp, level_keywords()[k], rest), level_keywords()[j], i),
    ensures
        ({
            let word = level_keywords()[j];
            let after = timestamp.len() + 2 + level_keywords()[k].len();
            ||| word_at(timestamp, word, i)
            ||| i >= after && word_at(rest, word, i - after)
            ||| i == timestamp.len() + 1 && j == k
        }),
{
    let keyword = level_keywords()[k];
    let word = level_keywords()[j];
    let line = level_line(timestamp, keyword, rest);
    let m = word.len() as int;
    let space = timestamp.len() as int;
    let pos = space + 1;
    let end = pos + keyword.len();
    lemma_keyword(k);
    lemma_keyword(j);
    let found = line.subrange(i, i + m);
    assert(line[space] == ' ');
    assert(line[end] == ' ');
    if i + m <= space {
        assert(timestamp.subrange(i, i + m) =~= found);
        if i > 0 {
            assert(timestamp[i - 1] == line[i - 1]);
        }
        if i + m < space {
            assert(timestamp[i + m] == line[i + m]);
        }
    } else if i <= space {
        assert(found[space - i] == ' ');
    } else if i + m <= end {
        if i > pos {
            assert(line[i - 1] == keyword[i - 1 - pos]);
        }
        if i + m < end {
            assert(line[i + m] == keyword[i + m - pos]);
        }
        assert(found =~= keyword);
        lemma_keywords_differ(j, k);
    } else if i <= end {
        assert(found[end - i] == ' ');
    } else {
        let at = i - end - 1;
        assert(rest.subrange(at, at + m) =~= found);
        if at > 0 {
            assert(rest[at - 1] == line[i - 1]);
        }
        if at + m < rest.len() {
            assert(rest[at + m] == line[i + m]);
        }
    }
}

/// No level keyword is empty or holds white space.
proof fn lemma_keyword(k: int)
    requires
        0 <= k < 5,
    ensures
        level_keywords()[k].len() > 0,
        forall|i: int|
            0 <= i < level_keywords()[k].len() ==> !text::is_ascii_white(
                #[trigger] level_keywords()[k][i],
            ),
{
    reveal_strlit("TRACE");
    reveal_strlit("DEBUG");
    reveal_strlit("INFO");
    reveal_strlit("WARN");
    reveal_strlit("ERROR");
}

/// The level keywords begin with different letters.
proof fn lemma_keywords_differ(j: int, k: int)
    requires
        0 <= j < 5,
        0 <= k < 5,
        level_keywords()[j] == level_keywords()[k],
    ensures
        j == k,
{
    reveal_strlit("TRACE");
    reveal_strlit("DEBUG");
    reveal_strlit("INFO");
    reveal_strlit("WARN");
    reveal_strlit("ERROR");
    assert(level_keywords()[0][0] == 'T');
    assert(level_keywords()[1][0] == 'D');
    assert(level_keywords()[2][0] == 'I');
    assert(level_keywords()[3][0] == 'W');
    assert(level_keywords()[4][0] == 'E');
}

proof fn lemma_skip_keywords(line: Seq<char>, from: int, k: int)
    requires
        0 <= from <= k < 5,
        forall|j: int|
            from <= j < k ==> level_pos(line, #[trigger] level_keywords()[j]) is None,
    ensures
        split_level_from(line, from) == split_level_from(line, k),
    decreases k - from,
{
    if from < k {
        assert(level_pos(line, level_keywords()[from]) is None);
        lemma_skip_keywords(line, from + 1, k);
    }
}

/// A word of its own stands at a position exactly if its characters do, with the
/// edge of the line or ASCII white space on each side.
pub proof fn law_word_by_characters(line: Seq<char>, keyword: Seq<char>, pos: int)
    ensures
        word_at(line, keyword, pos) <==> {
            let end = pos + keyword.len();
            &&& 0 <= pos && end <= line.len()
            &&& forall|k: int| 0 <= k < keyword.len() ==> line[pos + k] == #[trigger] keyword[k]
            &&& pos > 0 ==> text::is_ascii_white(line[pos - 1])
            &&& end < line.len() ==> text::is_ascii_white(line[end])
        },
{
    text::law_occurrence_by_characters(line, keyword, pos);
}

/// The levels that are looked for, and the order in which that is done: from the
/// least to the gravest.
pub proof fn law_levels_in_order(level: Seq<char>)
    ensures
        level_keywords().len() == 5,
        level_keywords().contains(level) <==> {
            ||| level == "TRACE"@ || level == "DEBUG"@ || level == "INFO"@
            ||| level == "WARN"@ || level == "ERROR"@
        },
        level_keywords().index_of("TRACE"@) == 0,
        level_keywords().index_of("DEBUG"@) == 1,
        level_keywords().index_of("INFO"@) == 2,
        level_keywords().index_of("WARN"@) == 3,
        level_keywords().index_of("ERROR"@) == 4,
{
    let all = level_keywords();
    assert(all[0] == "TRACE"@ && all[1] == "DEBUG"@ && all[2] == "INFO"@ && all[3] == "WARN"@
        && all[4] == "ERROR"@);
    assert forall|k: int| 0 <= k < 5 implies all.index_of(#[trigger] all[k]) == k by {
        assert(all.contains(all[k]));
        lemma_keywords_differ(all.index_of(all[k]), k);
    }
    assert(all.index_of(all[0]) == 0 && all.index_of(all[1]) == 1 && all.index_of(all[2]) == 2
        && all.index_of(all[3]) == 3 && all.index_of(all[4]) == 4);
}

/// A line is split at the level that it names, and loses nothing but white space
/// there: it is the timestamp, white space, the level, white space and the rest,
/// with the timestamp not ending and the rest not beginning with white space. The
/// level is the first of those looked for that is a word of the line, and stands
/// where it first is one.
pub proof fn law_line_is_split_at_its_level(line: Seq<char>, k: int, pos: int)
    requires
        0 <= k < 5,
        word_at(line, level_keywords()[k], pos),
        forall|i: int| 0 <= i < pos ==> !#[trigger] word_at(line, level_keywords()[k], i),
        forall|j: int, i: int| 0 <= j < k ==> !#[trigger] word_at(line, level_keywords()[j], i),
    ensures
        ({
            let (timestamp, level, rest) = split_level(line);
            let after = pos + level.len();
            let start = line.len() - rest.len();
            &&& level == level_keywords()[k]
            &&& timestamp.len() <= pos && after <= start
            &&& timestamp == line.take(timestamp.len() as int)
            &&& rest == line.skip(start)
            &&& forall|i: int|
                timestamp.len() <= i < pos || after <= i < start ==> text::is_white(
                    #[trigger] line[i],
                )
            &&& timestamp.len() > 0 ==> !text::is_white(timestamp.last())
            &&& rest.len() > 0 ==> !text::is_white(rest[0])
        }),
{
    let keyword = level_keywords()[k];
    assert(first_word_at(line, keyword, pos));
    law_level_pos_is_the_first_word(line, keyword, pos);
    assert forall|j: int| 0 <= j < k implies level_pos(
        line,
        #[trigger] level_keywords()[j],
    ) is None by {
        if exists|i: int| word_at(line, level_keywords()[j], i) {
            let i = choose|i: int| word_at(line, level_keywords()[j], i);
            assert(!word_at(line, level_keywords()[j], i));
        }
    }
    lemma_skip_keywords(line, 0, k);
    let head = line.take(pos);
    let tail = line.skip(pos + keyword.len());
    text::law_trim_end_removes_white_space_only(head);
    text::law_trim_start_removes_white_space_only(tail);
    let (timestamp, level, rest) = split_level(line);
    let after = pos + level.len();
    let start = line.len() - rest.len();
    assert(timestamp =~= line.take(timestamp.len() as int));
    assert(rest =~= line.skip(start));
    assert forall|i: int|
        timestamp.len() <= i < pos || after <= i < start implies text::is_white(
        #[trigger] line[i],
    ) by {
        if i < pos {
            assert(head[i] == line[i]);
        } else {
            assert(tail[i - after] == line[i]);
        }
    }
}

/// A line of which no level is a word is all timestamp, with the level `INFO`.
pub proof fn law_line_without_level(line: Seq<char>)
    requires
        forall|k: int, i: int| 0 <= k < 5 ==> !#[trigger] word_at(line, level_keywords()[k], i),
    ensures
        split_level(line) == (line, "INFO"@, Seq::<char>::empty()),
{
    assert forall|k: int| 0 <= k < 5 implies level_pos(
        line,
        #[trigger] level_keywords()[k],
    ) is None by {
        if exists|i: int| word_at(line, level_keywords()[k], i) {
            let i = choose|i: int| word_at(line, level_keywords()[k], i);
            assert(!word_at(line, level_keywords()[k], i));
        }
    }
    assert(level_pos(line, level_keywords()[4]) is None);
    lemma_skip_keywords(line, 0, 4);
    assert(split_level_from(line, 4) == split_level_from(line, 5));
}

/// What follows the level is split at its first colon with a space behind it: the
/// target is all of the text before, and the message all of the text behind, but
/// for white space at their ends.
pub proof fn law_target_ends_at_the_first_separator(rest: Seq<char>, pos: int)
    requires
        0 <= pos <= rest.len() - 2,
        rest[pos] == ':' && rest[pos + 1] == ' ',
        forall|i: int| 0 <= i < pos ==> !(#[trigger] rest[i] == ':' && rest[i + 1] == ' '),
    ensures
        split_target(rest).0 == text::trim(rest.take(pos)),
        split_target(rest).1 == text::trim(rest.skip(pos + 2)),
{
    reveal_strlit(": ");
    let target = rest.take(pos);
    let message = rest.skip(pos + 2);
    assert(target_rest(target, message) =~= rest);
    assert forall|i: int| !#[trigger] text::occurs_at(target, ": "@, i) by {
        text::law_occurrence_by_characters(target, ": "@, i);
        if text::occurs_at(target, ": "@, i) {
            assert(target[i + 0] == ": "@[0] && target[i + 1] == ": "@[1]);
            assert(rest[i] == ':' && rest[i + 1] == ' ');
        }
    }
    text::law_find_is_the_first_occurrence(target, ": "@, 0);
    law_written_target_is_found(target, message);
}

/// Without a colon with a space behind it there is no target, and all of the text is
/// the message, but for white space before it.
pub proof fn law_rest_without_separator_is_all_message(rest: Seq<char>)
    requires
        forall|i: int| 0 <= i < rest.len() - 1 ==> !(#[trigger] rest[i] == ':' && rest[i + 1]
            == ' '),
    ensures
        split_target(rest).0 == Seq::<char>::empty(),
        split_target(rest).1 == text::trim_start(rest),
{
    reveal_strlit(": ");
    let trimmed = text::trim_start(rest);
    text::law_trim_start_removes_white_space_only(rest);
    let a = rest.len() - trimmed.len();
    assert forall|i: int| !#[trigger] text::occurs_at(trimmed, ": "@, i) by {
        text::law_occurrence_by_characters(trimmed, ": "@, i);
        if text::occurs_at(trimmed, ": "@, i) {
            assert(trimmed[i + 0] == ": "@[0] && trimmed[i + 1] == ": "@[1]);
            assert(rest[a + i] == ':' && rest[a + i + 1] == ' ');
        }
    }
    text::law_find_is_the_first_occurrence(trimmed, ": "@, 0);
}

/// A written line is its parts, with a space on each side of the level, and a colon
/// and a space behind the target.
pub proof fn law_written_line_is_its_parts(
    timestamp: Seq<char>,
    keyword: Seq<char>,
    target: Seq<char>,
    message: Seq<char>,
)
    ensures
        level_line(timestamp, keyword, target_rest(target, message)) == timestamp + " "@ + keyword
            + " "@ + (target + ": "@ + message),
{
    reveal_strlit(" ");
    assert(" "@ =~= seq![' ']);
}

proof fn lemma_trim_start_rest(target: Seq<char>, message: Seq<char>)
    ensures
        text::trim_start(target_rest(target, message)) == target_rest(
            text::trim_start(target),
            message,
        ),
    decreases target.len(),
{
    reveal_strlit(": ");
    let rest = target_rest(target, message);
    if target.len() > 0 {
        assert(rest[0] == target[0]);
        if text::is_white(target[0]) {
            assert(rest.skip(1) =~= target_rest(target.skip(1), message));
            lemma_trim_start_rest(target.skip(1), message);
        }
    } else {
        assert(rest[0] == ':');
    }
}

proof fn lemma_trim_start_suffix(s: Seq<char>)
    ensures
        text::trim_start(s).len() <= s.len(),
        text::trim_start(s) == s.skip(s.len() - text::trim_start(s).len()),
    decreases s.len(),
{
    if s.len() > 0 && text::is_white(s[0]) {
        let t = s.skip(1);
        lemma_trim_start_suffix(t);
        assert(t.skip(t.len() - text::trim_start(t).len()) =~= s.skip(
            s.len() - text::trim_start(t).len(),
        ));
    } else {
        assert(s.skip(0) =~= s);
    }
}

proof fn lemma_trim_start_twice(s: Seq<char>)
    ensures
        text::trim_start(text::trim_start(s)) == text::trim_start(s),
    decreases s.len(),
{
    if s.len() > 0 && text::is_white(s[0]) {
        lemma_trim_start_twice(s.skip(1));
    }
}

} // verus!
