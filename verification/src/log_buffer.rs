//! The in-memory core log: the newest whole lines, up to a fixed size.
use vstd::prelude::*;

verus! {

/// The most bytes that the log holds.
pub const MAX_LOG_BYTES: usize = 256 * 1024;

/// A line of `s` starts at `k`: at the very start, or behind a line feed.
pub open spec fn is_line_start(s: Seq<u8>, k: int) -> bool {
    0 <= k <= s.len() && (k == 0 || s[k - 1] == 10)
}

/// The first line start from `k` on from which no more than `MAX_LOG_BYTES`
/// bytes remain, or the end of `s` where there is none.
pub open spec fn cut_from(s: Seq<u8>, k: int) -> int
    decreases s.len() - k,
{
    if k >= s.len() {
        s.len() as int
    } else if is_line_start(s, k) && s.len() - k <= MAX_LOG_BYTES {
        k
    } else {
        cut_from(s, k + 1)
    }
}

/// Where the part of `s` that the log keeps begins.
pub open spec fn cut(s: Seq<u8>) -> int {
    cut_from(s, 0)
}

/// The part of `s` that the log keeps: as many whole lines from the end as fit.
pub open spec fn kept(s: Seq<u8>) -> Seq<u8> {
    s.skip(cut(s))
}

proof fn lemma_cut_from(s: Seq<u8>, k: int)
    requires
        0 <= k <= s.len(),
    ensures
        k <= cut_from(s, k) <= s.len(),
        s.len() - cut_from(s, k) <= MAX_LOG_BYTES,
        cut_from(s, k) < s.len() ==> is_line_start(s, cut_from(s, k)),
        forall|j: int|
            k <= j < cut_from(s, k) ==> !(#[trigger] is_line_start(s, j) && s.len() - j
                <= MAX_LOG_BYTES),
    decreases s.len() - k,
{
    if k < s.len() && !(is_line_start(s, k) && s.len() - k <= MAX_LOG_BYTES) {
        lemma_cut_from(s, k + 1);
    }
}

proof fn lemma_cut_is(s: Seq<u8>, c: int)
    requires
        0 <= c <= s.len(),
        s.len() - c <= MAX_LOG_BYTES,
        c < s.len() ==> is_line_start(s, c),
        forall|j: int|
            0 <= j < c ==> !(#[trigger] is_line_start(s, j) && s.len() - j <= MAX_LOG_BYTES),
    ensures
        cut(s) == c,
{
    lemma_cut_from(s, 0);
    if c < cut(s) {
        assert(is_line_start(s, c));
    } else if cut(s) < c {
        assert(is_line_start(s, cut(s)));
    }
}

/// The core log.
pub struct LogBuffer {
    bytes: Vec<u8>,
}

impl View for LogBuffer {
    type V = Seq<u8>;

    closed spec fn view(&self) -> Seq<u8> {
        self.bytes@
    }
}

impl LogBuffer {
    #[verifier::type_invariant]
    spec fn bounded(self) -> bool {
        self.bytes@.len() <= MAX_LOG_BYTES
    }

    /// An empty log.
    pub fn new() -> (r: LogBuffer)
        ensures
            r@ == Seq::<u8>::empty(),
    {
        LogBuffer { bytes: Vec::new() }
    }

    /// Appends `buf`, and drops lines from the front until the log fits. A single
    /// line that does not fit is dropped too. All of `buf` counts as written.
    pub fn write(&mut self, buf: &[u8]) -> (r: usize)
        ensures
            final(self)@ == kept(old(self)@ + buf@),
            r == buf@.len(),
    {
        let mut all: Vec<u8> = Vec::new();
        std::mem::swap(&mut all, &mut self.bytes);
        all.extend_from_slice(buf);
        let ghost s = old(self)@ + buf@;
        assert(all@ =~= s);
        let len: usize = all.len();
        if len > MAX_LOG_BYTES {
            let mut k: usize = len - MAX_LOG_BYTES;
            while k < len && all[k - 1] != 10
                invariant
                    0 < k <= len,
                    len == all@.len(),
                    len - k <= MAX_LOG_BYTES,
                    all@ == s,
                    forall|j: int|
                        0 <= j < k ==> !(#[trigger] is_line_start(s, j) && s.len() - j
                            <= MAX_LOG_BYTES),
                decreases len - k,
            {
                k += 1;
            }
            proof {
                lemma_cut_is(s, k as int);
            }
            let tail = all.split_off(k);
            assert(tail@ =~= kept(s));
            self.bytes = tail;
        } else {
            proof {
                law_short_log_is_kept_whole(s);
            }
            self.bytes = all;
        }
        buf.len()
    }

    /// The bytes of the log.
    pub fn contents(&self) -> (r: &Vec<u8>)
        ensures
            r@ == self@,
            r@.len() <= MAX_LOG_BYTES,
    {
        proof {
            use_type_invariant(self);
        }
        &self.bytes
    }
}

/// What fits is kept whole.
pub proof fn law_short_log_is_kept_whole(s: Seq<u8>)
    requires
        s.len() <= MAX_LOG_BYTES,
    ensures
        kept(s) == s,
{
    assert(is_line_start(s, 0));
    assert(s.skip(0) =~= s);
    if s.len() == 0 {
        assert(s.skip(cut(s)) =~= s);
    }
}

/// No more than `MAX_LOG_BYTES` bytes are kept.
pub proof fn law_log_is_bounded(s: Seq<u8>)
    ensures
        kept(s).len() <= MAX_LOG_BYTES,
{
    lemma_cut_from(s, 0);
}

/// What is kept is an end of what was there, and begins with a line, if it is
/// not empty.
pub proof fn law_log_keeps_whole_lines(s: Seq<u8>)
    ensures
        0 <= cut(s) <= s.len(),
        s == s.take(cut(s)) + kept(s),
        kept(s).len() > 0 ==> is_line_start(s, cut(s)),
{
    lemma_cut_from(s, 0);
    assert(s =~= s.take(cut(s)) + kept(s));
}

/// No line is dropped that could have been kept: from any line start from which
/// the log would fit, everything is kept.
pub proof fn law_log_keeps_all_that_fits(s: Seq<u8>, j: int)
    requires
        is_line_start(s, j),
        s.len() - j <= MAX_LOG_BYTES,
    ensures
        cut(s) <= j,
        kept(s).len() >= s.len() - j,
{
    lemma_cut_from(s, 0);
}

/// Appending in two writes keeps what one write of both would have kept, unless
/// the first write ended in a line too long to keep.
pub proof fn law_two_writes_are_one(s: Seq<u8>, first: Seq<u8>, second: Seq<u8>)
    requires
        is_line_start(s + first, cut(s + first)),
    ensures
        kept(kept(s + first) + second) == kept(s + (first + second)),
{
    let a = s + first;
    let c = cut(a);
    let short = kept(a) + second;
    let long = s + (first + second);
    lemma_cut_from(a, 0);
    lemma_cut_from(short, 0);
    assert(long =~= a + second);
    assert(short =~= long.skip(c));
    let d = cut(short);
    assert forall|j: int|
        0 <= j < c + d implies !(#[trigger] is_line_start(long, j) && long.len() - j
            <= MAX_LOG_BYTES) by {
        if is_line_start(long, j) && long.len() - j <= MAX_LOG_BYTES {
            if j < c {
                assert(is_line_start(a, j));
            } else {
                assert(is_line_start(short, j - c));
            }
        }
    }
    if d < short.len() {
        assert(is_line_start(short, d));
        assert(is_line_start(long, c + d));
    }
    lemma_cut_is(long, c + d);
    assert(kept(short) =~= kept(long));
}

/// A log that is text in UTF-8 stays text: no character is cut in two.
pub proof fn law_log_stays_text(s: Seq<u8>)
    requires
        vstd::utf8::valid_utf8(s),
    ensures
        vstd::utf8::valid_utf8(kept(s)),
{
    lemma_cut_from(s, 0);
    let c = cut(s);
    if c == s.len() {
        assert(kept(s) =~= Seq::<u8>::empty());
    } else {
        lemma_line_start_is_text(s, c);
    }
}

/// From a line start on, text is text.
pub proof fn lemma_line_start_is_text(s: Seq<u8>, k: int)
    requires
        vstd::utf8::valid_utf8(s),
        is_line_start(s, k),
    ensures
        vstd::utf8::valid_utf8(s.skip(k)),
    decreases s.len(),
{
    if k == 0 {
        assert(s.skip(0) =~= s);
    } else {
        let n = vstd::utf8::length_of_first_scalar(s);
        let rest = vstd::utf8::pop_first_scalar(s);
        assert(rest =~= s.skip(n));
        if k >= n {
            if k > n {
                assert(rest[k - n - 1] == s[k - 1]);
            }
            assert(is_line_start(rest, k - n));
            lemma_line_start_is_text(rest, k - n);
            assert(rest.skip(k - n) =~= s.skip(k));
        }
    }
}

/// What a log keeps, byte by byte. A log of up to 256 KiB keeps everything. A longer
/// one keeps the longest of its ends that begins behind a line feed and has no more
/// than 256 KiB, and nothing where there is none.
pub proof fn law_log_keeps_the_longest_end_that_fits(s: Seq<u8>)
    ensures
        s.len() <= 262144 ==> kept(s) == s,
        s.len() > 262144 ==> {
            let c = s.len() - kept(s).len();
            &&& 0 <= c <= s.len()
            &&& kept(s) == s.skip(c)
            &&& kept(s).len() <= 262144
            &&& kept(s).len() > 0 ==> s[c - 1] == 10
            &&& forall|j: int| s.len() - 262144 <= j < c ==> #[trigger] s[j - 1] != 10
        },
{
    if s.len() <= 262144 {
        law_short_log_is_kept_whole(s);
    } else {
        lemma_cut_from(s, 0);
        let c = cut(s);
        assert forall|j: int| s.len() - 262144 <= j < c implies #[trigger] s[j - 1] != 10 by {
            assert(!(is_line_start(s, j) && s.len() - j <= MAX_LOG_BYTES));
        }
    }
}

/// A line starts at the start of the log, and behind every line feed, and nowhere
/// else.
pub proof fn law_lines_start_behind_feeds(s: Seq<u8>, k: int)
    requires
        0 < k <= s.len(),
    ensures
        is_line_start(s, 0),
        is_line_start(s, k) <==> s[k - 1] == 10,
        !is_line_start(s, -k),
        !is_line_start(s, s.len() + k),
{
}

} // verus!
