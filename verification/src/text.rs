//! Character-level text operations: white space, trimming, searching, line
//! splitting and decimal numerals, over `Seq<char>`.
use vstd::prelude::*;

verus! {

/// The standard's `String::push`: the character goes to the end of the string.
pub assume_specification[ String::push ](s: &mut String, c: char)
    ensures
        final(s)@ == old(s)@.push(c),
;

/// The code points with the Unicode property White_Space.
pub open spec fn is_white(c: char) -> bool {
    let n = c as u32;
    ||| 0x09 <= n <= 0x0d
    ||| n == 0x20
    ||| n == 0x85
    ||| n == 0xa0
    ||| n == 0x1680
    ||| 0x2000 <= n <= 0x200a
    ||| n == 0x2028
    ||| n == 0x2029
    ||| n == 0x202f
    ||| n == 0x205f
    ||| n == 0x3000
}

/// Space, tab, line feed, form feed and carriage return.
pub open spec fn is_ascii_white(c: char) -> bool {
    c == ' ' || c == '\t' || c == '\n' || c == '\x0c' || c == '\r'
}

/// `s` without its leading white space.
pub open spec fn trim_start(s: Seq<char>) -> Seq<char>
    decreases s.len(),
{
    if s.len() > 0 && is_white(s[0]) {
        trim_start(s.skip(1))
    } else {
        s
    }
}

/// `s` without its trailing white space.
pub open spec fn trim_end(s: Seq<char>) -> Seq<char>
    decreases s.len(),
{
    if s.len() > 0 && is_white(s.last()) {
        trim_end(s.drop_last())
    } else {
        s
    }
}

/// `s` without its leading and trailing white space.
pub open spec fn trim(s: Seq<char>) -> Seq<char> {
    trim_end(trim_start(s))
}

/// `needle` stands in `hay` at position `i`.
pub open spec fn occurs_at(hay: Seq<char>, needle: Seq<char>, i: int) -> bool {
    &&& 0 <= i
    &&& i + needle.len() <= hay.len()
    &&& hay.subrange(i, i + needle.len()) == needle
}

/// The first position from `from` on at which `needle` stands in `hay`.
pub open spec fn find_from(hay: Seq<char>, needle: Seq<char>, from: int) -> Option<int>
    decreases hay.len() - from,
{
    if from < 0 || from + needle.len() > hay.len() {
        None
    } else if occurs_at(hay, needle, from) {
        Some(from)
    } else if from == hay.len() {
        None
    } else {
        find_from(hay, needle, from + 1)
    }
}

/// The first position at which `needle` stands in `hay`.
pub open spec fn find(hay: Seq<char>, needle: Seq<char>) -> Option<int> {
    find_from(hay, needle, 0)
}

/// The length of the first line of `s`: the position of its first line feed, or
/// the length of `s` where it holds none.
pub open spec fn line_end(s: Seq<char>) -> int
    decreases s.len(),
{
    if s.len() == 0 || s[0] == '\n' {
        0
    } else {
        1 + line_end(s.skip(1))
    }
}

/// `s` without the one carriage return that it may end in.
pub open spec fn strip_return(s: Seq<char>) -> Seq<char> {
    if s.len() > 0 && s.last() == '\r' {
        s.drop_last()
    } else {
        s
    }
}

/// The lines of `s`. A line ends in a line feed, which the last one may lack; a
/// carriage return directly before the line feed belongs to the line ending.
pub open spec fn lines(s: Seq<char>) -> Seq<Seq<char>>
    decreases s.len(),
    via lines_decreases
{
    if s.len() == 0 {
        Seq::empty()
    } else if line_end(s) == s.len() {
        seq![s]
    } else {
        seq![strip_return(s.take(line_end(s)))] + lines(s.skip(line_end(s) + 1))
    }
}

#[via_fn]
proof fn lines_decreases(s: Seq<char>) {
    lemma_line_end(s);
}

/// The digit with the value `d`.
pub open spec fn digit(d: nat) -> char {
    (0x30 + d) as char
}

/// The decimal numeral of `n`, without leading zeros.
pub open spec fn decimal(n: nat) -> Seq<char>
    decreases n,
{
    if n < 10 {
        seq![digit(n)]
    } else {
        decimal(n / 10).push(digit(n % 10))
    }
}

/// Everything before the line end is no line feed, and the line end is one.
pub proof fn lemma_line_end(s: Seq<char>)
    ensures
        0 <= line_end(s) <= s.len(),
        forall|j: int| 0 <= j < line_end(s) ==> s[j] != '\n',
        line_end(s) < s.len() ==> s[line_end(s)] == '\n',
    decreases s.len(),
{
    if s.len() != 0 && s[0] != '\n' {
        lemma_line_end(s.skip(1));
        assert forall|j: int| 0 <= j < line_end(s) implies s[j] != '\n' by {
            if j > 0 {
                assert(s.skip(1)[j - 1] == s[j]);
            }
        }
    }
}

/// A position with no line feed before it, which is the end or a line feed, is
/// the line end.
pub proof fn lemma_line_end_is(s: Seq<char>, i: int)
    requires
        0 <= i <= s.len(),
        forall|j: int| 0 <= j < i ==> s[j] != '\n',
        i < s.len() ==> s[i] == '\n',
    ensures
        line_end(s) == i,
{
    lemma_line_end(s);
}

/// What `find_from` finds is an occurrence, and there is none before it.
pub proof fn lemma_find_from(hay: Seq<char>, needle: Seq<char>, from: int)
    requires
        0 <= from,
    ensures
        find_from(hay, needle, from) matches Some(i) ==> {
            &&& from <= i
            &&& occurs_at(hay, needle, i)
            &&& forall|j: int| from <= j < i ==> !#[trigger] occurs_at(hay, needle, j)
        },
        find_from(hay, needle, from) is None ==> forall|j: int|
            from <= j ==> !#[trigger] occurs_at(hay, needle, j),
    decreases hay.len() - from,
{
    if from + needle.len() <= hay.len() && !occurs_at(hay, needle, from) && from != hay.len() {
        lemma_find_from(hay, needle, from + 1);
    }
}

/// The first occurrence is what `find` finds.
pub proof fn lemma_find_is(hay: Seq<char>, needle: Seq<char>, i: int)
    requires
        occurs_at(hay, needle, i),
        forall|j: int| 0 <= j < i ==> !#[trigger] occurs_at(hay, needle, j),
    ensures
        find(hay, needle) == Some(i),
{
    lemma_find_from(hay, needle, 0);
}

/// Tells whether `c` is white space in the sense of Unicode.
pub fn is_white_space(c: char) -> (r: bool)
    ensures
        r == is_white(c),
{
    let n: u32 = c as u32;
    (0x09 <= n && n <= 0x0d) || n == 0x20 || n == 0x85 || n == 0xa0 || n == 0x1680 || (0x2000 <= n
        && n <= 0x200a) || n == 0x2028 || n == 0x2029 || n == 0x202f || n == 0x205f || n == 0x3000
}

/// Tells whether `c` is white space of the ASCII range.
pub fn is_ascii_white_space(c: char) -> (r: bool)
    ensures
        r == is_ascii_white(c),
{
    c == ' ' || c == '\t' || c == '\n' || c == '\x0c' || c == '\r'
}

/// The characters of `s`.
pub fn to_chars(s: &str) -> (r: Vec<char>)
    ensures
        r@ == s@,
{
    let mut r: Vec<char> = Vec::new();
    for c in it: s.chars()
        invariant
            r@ == it.seq().take(it.index()),
            it.seq() == s@,
    {
        r.push(c);
    }
    r
}

/// The string of the characters of `s` from `from` up to `to`.
pub fn to_text(s: &Vec<char>, from: usize, to: usize) -> (r: String)
    requires
        from <= to <= s@.len(),
    ensures
        r@ == s@.subrange(from as int, to as int),
{
    let mut r = String::new();
    let mut i: usize = from;
    while i < to
        invariant
            from <= i <= to <= s@.len(),
            r@ == s@.subrange(from as int, i as int),
        decreases to - i,
    {
        r.push(s[i]);
        i += 1;
    }
    r
}

/// The first position from `from` up to `to` that holds no white space, or `to`.
pub fn skip_white(s: &Vec<char>, from: usize, to: usize) -> (r: usize)
    requires
        from <= to <= s@.len(),
    ensures
        from <= r <= to,
        s@.subrange(r as int, to as int) == trim_start(s@.subrange(from as int, to as int)),
{
    let mut i: usize = from;
    while i < to && is_white_space(s[i])
        invariant
            from <= i <= to <= s@.len(),
            trim_start(s@.subrange(i as int, to as int)) == trim_start(
                s@.subrange(from as int, to as int),
            ),
        decreases to - i,
    {
        assert(s@.subrange(i as int, to as int).skip(1) == s@.subrange(i + 1, to as int));
        i += 1;
    }
    i
}

/// The position after the last one from `from` up to `to` that holds no white
/// space, or `from`.
pub fn drop_white(s: &Vec<char>, from: usize, to: usize) -> (r: usize)
    requires
        from <= to <= s@.len(),
    ensures
        from <= r <= to,
        s@.subrange(from as int, r as int) == trim_end(s@.subrange(from as int, to as int)),
{
    let mut i: usize = to;
    while from < i && is_white_space(s[i - 1])
        invariant
            from <= i <= to <= s@.len(),
            trim_end(s@.subrange(from as int, i as int)) == trim_end(
                s@.subrange(from as int, to as int),
            ),
        decreases i,
    {
        assert(s@.subrange(from as int, i as int).drop_last() == s@.subrange(from as int, i - 1));
        i -= 1;
    }
    i
}

/// Tells whether `needle` stands in `hay` at position `at`.
pub(crate) fn matches_at(hay: &Vec<char>, needle: &Vec<char>, at: usize) -> (r: bool)
    requires
        at + needle@.len() <= hay@.len(),
    ensures
        r == occurs_at(hay@, needle@, at as int),
{
    let mut k: usize = 0;
    while k < needle.len()
        invariant
            k <= needle@.len(),
            at + needle.len() <= hay.len(),
            forall|j: int| 0 <= j < k ==> hay@[at + j] == needle@[j],
        decreases needle@.len() - k,
    {
        if hay[at + k] != needle[k] {
            assert(hay@.subrange(at as int, at + needle@.len())[k as int] != needle@[k as int]);
            return false;
        }
        k += 1;
    }
    assert(hay@.subrange(at as int, at + needle@.len()) =~= needle@);
    true
}

/// The first position at which `needle` stands in `hay`.
pub fn find_chars(hay: &Vec<char>, needle: &Vec<char>) -> (r: Option<usize>)
    ensures
        match r {
            Some(i) => find(hay@, needle@) == Some(i as int),
            None => find(hay@, needle@) is None,
        },
{
    if needle.len() > hay.len() {
        return None;
    }
    let last: usize = hay.len() - needle.len();
    let mut i: usize = 0;
    loop
        invariant
            i <= last,
            last + needle@.len() == hay@.len(),
            find(hay@, needle@) == find_from(hay@, needle@, i as int),
        decreases last - i,
    {
        if matches_at(hay, needle, i) {
            return Some(i);
        }
        if i == last {
            return None;
        }
        i += 1;
    }
}

/// The decimal numeral of `n`.
pub fn decimal_text(n: usize) -> (r: String)
    ensures
        r@ == decimal(n as nat),
    decreases n,
{
    let d: u8 = (n % 10) as u8;
    let c: char = (0x30 + d) as char;
    if n < 10 {
        let mut r = String::new();
        r.push(c);
        r
    } else {
        let mut r = decimal_text(n / 10);
        r.push(c);
        r
    }
}

/// Numerals of different numbers differ.
pub proof fn law_decimal_injective(a: nat, b: nat)
    requires
        decimal(a) == decimal(b),
    ensures
        a == b,
    decreases a,
{
    assert(decimal(a).len() >= 1 && decimal(b).len() >= 1) by {
        lemma_decimal_len(a);
        lemma_decimal_len(b);
    }
    assert(decimal(a).last() == digit(a % 10) && decimal(b).last() == digit(b % 10));
    assert(a % 10 == b % 10);
    if a >= 10 && b >= 10 {
        assert(decimal(a).drop_last() == decimal(a / 10));
        assert(decimal(b).drop_last() == decimal(b / 10));
        law_decimal_injective(a / 10, b / 10);
    } else if a >= 10 {
        lemma_decimal_len(a / 10);
    } else if b >= 10 {
        lemma_decimal_len(b / 10);
    }
}

proof fn lemma_decimal_len(n: nat)
    ensures
        decimal(n).len() >= 1,
    decreases n,
{
    if n >= 10 {
        lemma_decimal_len(n / 10);
    }
}

/// A line and its line feed, in front of other text, are its first line.
pub proof fn law_first_line(line: Seq<char>, others: Seq<char>)
    requires
        !line.contains('\n'),
    ensures
        lines(line + seq!['\n'] + others) == seq![strip_return(line)] + lines(others),
{
    let s = line + seq!['\n'] + others;
    assert forall|j: int| 0 <= j < line.len() implies s[j] != '\n' by {
        assert(line.contains(line[j]));
    }
    lemma_line_end_is(s, line.len() as int);
    assert(s.take(line.len() as int) =~= line);
    assert(s.skip(line.len() as int + 1) =~= others);
}

/// Trimmed text stays as it is when it is trimmed again.
pub proof fn law_trim_is_idempotent(s: Seq<char>)
    ensures
        trim(trim(s)) == trim(s),
{
    lemma_trim_start(s);
    let t = trim_start(s);
    lemma_trim_end(t);
    let u = trim_end(t);
    if u.len() > 0 {
        assert(u[0] == t[0]);
    }
}

proof fn lemma_trim_start(s: Seq<char>)
    ensures
        trim_start(s).len() <= s.len(),
        trim_start(s).len() > 0 ==> !is_white(trim_start(s)[0]),
    decreases s.len(),
{
    if s.len() > 0 && is_white(s[0]) {
        lemma_trim_start(s.skip(1));
    }
}

proof fn lemma_trim_end(s: Seq<char>)
    ensures
        trim_end(s).len() <= s.len(),
        trim_end(s) == s.take(trim_end(s).len() as int),
        trim_end(s).len() > 0 ==> !is_white(trim_end(s).last()),
    decreases s.len(),
{
    if s.len() > 0 && is_white(s.last()) {
        lemma_trim_end(s.drop_last());
        assert(s.drop_last().take(trim_end(s).len() as int) =~= s.take(trim_end(s).len() as int));
    } else {
        assert(s.take(s.len() as int) =~= s);
    }
}

/// Text appended behind a line feed adds its lines to those that were there.
pub proof fn law_lines_append(first: Seq<char>, second: Seq<char>)
    requires
        first.len() == 0 || first.last() == '\n',
    ensures
        lines(first + second) == lines(first) + lines(second),
    decreases first.len(),
{
    let both = first + second;
    if first.len() == 0 {
        assert(both =~= second);
        assert(lines(first) + lines(second) =~= lines(second));
    } else {
        lemma_line_end(first);
        let n = line_end(first);
        assert(n < first.len()) by {
            if n == first.len() {
                assert(first[n - 1] != '\n');
            }
        }
        assert forall|j: int| 0 <= j < n implies both[j] != '\n' by {
            assert(both[j] == first[j]);
        }
        lemma_line_end_is(both, n);
        let rest = first.skip(n + 1);
        assert(both.take(n) =~= first.take(n));
        assert(both.skip(n + 1) =~= rest + second);
        if rest.len() > 0 {
            assert(rest.last() == first.last());
        }
        law_lines_append(rest, second);
        let head = seq![strip_return(first.take(n))];
        assert(head + (lines(rest) + lines(second)) =~= (head + lines(rest)) + lines(second));
    }
}

/// White space is exactly these characters: tab, line feed, vertical tab, form
/// feed, carriage return, space, the next-line control, and the spaces and
/// separators of Unicode.
pub proof fn law_white_space(c: char)
    ensures
        is_white(c) <==> {
            ||| c == '\t' || c == '\n' || c == '\x0b' || c == '\x0c' || c == '\r' || c == ' '
            ||| c == '\u{85}' || c == '\u{a0}' || c == '\u{1680}'
            ||| c == '\u{2000}' || c == '\u{2001}' || c == '\u{2002}' || c == '\u{2003}'
            ||| c == '\u{2004}' || c == '\u{2005}' || c == '\u{2006}' || c == '\u{2007}'
            ||| c == '\u{2008}' || c == '\u{2009}' || c == '\u{200a}'
            ||| c == '\u{2028}' || c == '\u{2029}' || c == '\u{202f}' || c == '\u{205f}'
            ||| c == '\u{3000}'
        },
{
}

/// The white space of the ASCII range is white space, of that range, and not the
/// vertical tab; everything else of that kind is.
pub proof fn law_ascii_white_space(c: char)
    ensures
        is_ascii_white(c) <==> is_white(c) && (c as u32) < 0x80 && c != '\x0b',
{
}

/// Trimming at the start removes a run of white space and nothing else, and stops
/// at the first character that is none.
pub proof fn law_trim_start_removes_white_space_only(s: Seq<char>)
    ensures
        trim_start(s).len() <= s.len(),
        ({
            let a = s.len() - trim_start(s).len();
            &&& trim_start(s) == s.skip(a)
            &&& forall|j: int| 0 <= j < a ==> is_white(#[trigger] s[j])
            &&& a < s.len() ==> !is_white(s[a])
        }),
    decreases s.len(),
{
    if s.len() > 0 && is_white(s[0]) {
        let t = s.skip(1);
        law_trim_start_removes_white_space_only(t);
        let a = s.len() - trim_start(s).len();
        assert(t.skip(a - 1) =~= s.skip(a));
        assert forall|j: int| 0 <= j < a implies is_white(#[trigger] s[j]) by {
            if j > 0 {
                assert(t[j - 1] == s[j]);
            }
        }
        if a < s.len() {
            assert(t[a - 1] == s[a]);
        }
    } else {
        assert(s.skip(0) =~= s);
    }
}

/// Trimming at the end removes a run of white space and nothing else, and stops at
/// the last character that is none.
pub proof fn law_trim_end_removes_white_space_only(s: Seq<char>)
    ensures
        trim_end(s).len() <= s.len(),
        ({
            let b = trim_end(s).len() as int;
            &&& trim_end(s) == s.take(b)
            &&& forall|j: int| b <= j < s.len() ==> is_white(#[trigger] s[j])
            &&& b > 0 ==> !is_white(s[b - 1])
        }),
    decreases s.len(),
{
    if s.len() > 0 && is_white(s.last()) {
        let t = s.drop_last();
        law_trim_end_removes_white_space_only(t);
        let b = trim_end(s).len() as int;
        assert(t.take(b) =~= s.take(b));
        assert forall|j: int| b <= j < s.len() implies is_white(#[trigger] s[j]) by {
            if j < t.len() {
                assert(t[j] == s[j]);
            }
        }
    } else {
        assert(s.take(s.len() as int) =~= s);
    }
}

/// What trimming removes is white space, at both ends, and nothing else; what it
/// leaves neither begins nor ends with white space.
pub proof fn law_trim_removes_white_space_only(s: Seq<char>)
    ensures
        exists|a: int, b: int|
            {
                &&& 0 <= a <= b <= s.len()
                &&& trim(s) == #[trigger] s.subrange(a, b)
                &&& forall|j: int| 0 <= j < a || b <= j < s.len() ==> is_white(#[trigger] s[j])
            },
        trim(s).len() > 0 ==> !is_white(trim(s)[0]) && !is_white(trim(s).last()),
{
    law_trim_start_removes_white_space_only(s);
    let t = trim_start(s);
    let a = s.len() - t.len();
    law_trim_end_removes_white_space_only(t);
    let b = a + trim_end(t).len();
    assert(trim(s) =~= s.subrange(a, b));
    assert forall|j: int| 0 <= j < a || b <= j < s.len() implies is_white(#[trigger] s[j]) by {
        if j >= b {
            assert(t[j - a] == s[j]);
        }
    }
    if trim(s).len() > 0 {
        assert(trim(s)[0] == s[a]);
        assert(trim(s).last() == t[b - a - 1]);
    }
}

/// Text that neither begins nor ends with white space stays as it is when it is
/// trimmed, however long it is.
pub proof fn law_trim_keeps_text(s: Seq<char>)
    requires
        s.len() > 0 ==> !is_white(s[0]) && !is_white(s.last()),
    ensures
        trim(s) == s,
        trim_start(s) == s,
        trim_end(s) == s,
{
}

/// A text occurs at a position exactly if its characters stand there, one by one.
pub proof fn law_occurrence_by_characters(hay: Seq<char>, needle: Seq<char>, i: int)
    ensures
        occurs_at(hay, needle, i) <==> {
            &&& 0 <= i <= hay.len() - needle.len()
            &&& forall|k: int| 0 <= k < needle.len() ==> hay[i + k] == #[trigger] needle[k]
        },
{
    if 0 <= i <= hay.len() - needle.len() {
        let part = hay.subrange(i, i + needle.len());
        if occurs_at(hay, needle, i) {
            assert forall|k: int| 0 <= k < needle.len() implies hay[i + k]
                == #[trigger] needle[k] by {
                assert(part[k] == needle[k]);
            }
        } else if forall|k: int| 0 <= k < needle.len() ==> hay[i + k] == #[trigger] needle[k] {
            assert(part =~= needle);
        }
    }
}

/// A text is found at a position exactly if it occurs there and not before, and
/// not found exactly if it does not occur.
pub proof fn law_find_is_the_first_occurrence(hay: Seq<char>, needle: Seq<char>, i: int)
    ensures
        find(hay, needle) == Some(i) <==> {
            &&& occurs_at(hay, needle, i)
            &&& forall|j: int| 0 <= j < i ==> !#[trigger] occurs_at(hay, needle, j)
        },
        find(hay, needle) is None <==> forall|j: int| !#[trigger] occurs_at(hay, needle, j),
{
    lemma_find_from(hay, needle, 0);
}

/// A line loses the one carriage return that it ends in, and nothing else.
pub proof fn law_strip_return_drops_one(s: Seq<char>)
    ensures
        strip_return(s.push('\r')) == s,
        s.len() == 0 || s.last() != '\r' ==> strip_return(s) == s,
{
    assert(s.push('\r').drop_last() =~= s);
}

/// Text without a line feed is one line, as it is, and no text is no line.
pub proof fn law_text_without_feed_is_one_line(s: Seq<char>)
    requires
        !s.contains('\n'),
    ensures
        lines(s) == if s.len() == 0 {
            Seq::<Seq<char>>::empty()
        } else {
            seq![s]
        },
{
    assert forall|j: int| 0 <= j < s.len() implies s[j] != '\n' by {
        assert(s.contains(s[j]));
    }
    lemma_line_end_is(s, s.len() as int);
}

/// The numeral of a number below ten is its digit; any other numeral is that of the
/// tens with the digit of the ones behind it.
pub proof fn law_decimal_by_digits(tens: nat, ones: nat)
    requires
        ones < 10,
    ensures
        decimal(10 * tens + ones) == if tens == 0 {
            seq!["0123456789"@[ones as int]]
        } else {
            decimal(tens).push("0123456789"@[ones as int])
        },
{
    reveal_strlit("0123456789");
    let n = 10 * tens + ones;
    assert(n / 10 == tens && n % 10 == ones);
    assert(digit(ones) == "0123456789"@[ones as int]);
}

} // verus!
