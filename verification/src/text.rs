//! Character-level reading of one line of a graph description: trimming,
//! the vertex count, and the split of an edge line into its two names.

use vstd::prelude::*;
use vstd::std_specs::iter::IteratorSpec;
use vstd::string::StrSliceExecFns;

verus! {

/// Whether `c` carries the Unicode property White_Space.
pub open spec fn white_space(c: char) -> bool {
    let n = c as u32;
    (0x09 <= n <= 0x0D) || n == 0x20 || n == 0x85 || n == 0xA0 || n == 0x1680 || (0x2000 <= n
        <= 0x200A) || n == 0x2028 || n == 0x2029 || n == 0x202F || n == 0x205F || n == 0x3000
}

/// `s` without the white space at its front.
pub open spec fn trim_start(s: Seq<char>) -> Seq<char>
    decreases s.len(),
{
    if s.len() > 0 && white_space(s.first()) {
        trim_start(s.drop_first())
    } else {
        s
    }
}

/// `s` without the white space at its back.
pub open spec fn trim_end(s: Seq<char>) -> Seq<char>
    decreases s.len(),
{
    if s.len() > 0 && white_space(s.last()) {
        trim_end(s.drop_last())
    } else {
        s
    }
}

/// `s` without the white space at either end.
pub open spec fn trimmed(s: Seq<char>) -> Seq<char> {
    trim_end(trim_start(s))
}

/// Whether `c` is one of the ten ASCII digits.
pub open spec fn digit(c: char) -> bool {
    0x30 <= c as u32 <= 0x39
}

/// The number that the decimal digits `s` write, most significant first.
pub open spec fn decimal(s: Seq<char>) -> nat
    decreases s.len(),
{
    if s.len() == 0 {
        0
    } else {
        10 * decimal(s.drop_last()) + (s.last() as u32 - 0x30) as nat
    }
}

/// `s` after one leading plus sign, if it has one.
pub open spec fn unsigned_part(s: Seq<char>) -> Seq<char> {
    if s.len() > 0 && s.first() == '+' {
        s.drop_first()
    } else {
        s
    }
}

/// The count that `s` writes: an optional plus sign, then one or more
/// decimal digits whose value fits a `usize`. Anything else writes none.
pub open spec fn count_of(s: Seq<char>) -> Option<usize> {
    let d = unsigned_part(s);
    if d.len() > 0 && (forall|i: int| 0 <= i < d.len() ==> digit(#[trigger] d[i])) && decimal(d)
        <= usize::MAX {
        Some(decimal(d) as usize)
    } else {
        None
    }
}

/// The parts of `s` before and after the first `delimiter` in it.
pub open spec fn split_at_first(s: Seq<char>, delimiter: char) -> Option<(Seq<char>, Seq<char>)> {
    match s.index_of_first(delimiter) {
        Some(i) => Some((s.take(i), s.skip(i + 1))),
        None => None,
    }
}

/// Skipping `lo` leading white-space characters, up to the first other
/// character, is what `trim_start` does.
proof fn lemma_trim_start_skips(s: Seq<char>, lo: int)
    requires
        0 <= lo <= s.len(),
        forall|i: int| 0 <= i < lo ==> white_space(#[trigger] s[i]),
        lo < s.len() ==> !white_space(s[lo]),
    ensures
        trim_start(s) == s.skip(lo),
    decreases lo,
{
    if lo == 0 {
        assert(s.skip(0) =~= s);
    } else {
        let rest = s.drop_first();
        assert forall|i: int| 0 <= i < lo - 1 implies white_space(#[trigger] rest[i]) by {
            assert(rest[i] == s[i + 1]);
        }
        lemma_trim_start_skips(rest, lo - 1);
        assert(rest.skip(lo - 1) =~= s.skip(lo));
    }
}

/// Keeping the first `hi` characters, where only white space follows and
/// the last one kept is none, is what `trim_end` does.
proof fn lemma_trim_end_takes(s: Seq<char>, hi: int)
    requires
        0 <= hi <= s.len(),
        forall|i: int| hi <= i < s.len() ==> white_space(#[trigger] s[i]),
        0 < hi ==> !white_space(s[hi - 1]),
    ensures
        trim_end(s) == s.take(hi),
    decreases s.len() - hi,
{
    if hi == s.len() {
        assert(s.take(hi) =~= s);
    } else {
        let rest = s.drop_last();
        lemma_trim_end_takes(rest, hi);
        assert(rest.take(hi) =~= s.take(hi));
    }
}

/// Trimming cuts one stretch out of `s`: only white space stands before and
/// after the stretch, and the stretch neither begins nor ends with any.
pub proof fn lemma_trimmed_is_the_core(s: Seq<char>) -> (bounds: (int, int))
    ensures
        0 <= bounds.0 <= bounds.1 <= s.len(),
        trimmed(s) == s.subrange(bounds.0, bounds.1),
        forall|i: int| 0 <= i < bounds.0 ==> white_space(#[trigger] s[i]),
        forall|i: int| bounds.1 <= i < s.len() ==> white_space(#[trigger] s[i]),
        trimmed(s).len() > 0 ==> !white_space(trimmed(s).first()) && !white_space(
            trimmed(s).last(),
        ),
{
    let lo = lemma_white_front_ends(s, 0);
    lemma_trim_start_skips(s, lo);
    let front = s.skip(lo);
    let len = lemma_white_back_begins(front, front.len() as int);
    lemma_trim_end_takes(front, len);
    assert(front.take(len) =~= s.subrange(lo, lo + len));
    assert forall|i: int| lo + len <= i < s.len() implies white_space(#[trigger] s[i]) by {
        assert(s[i] == front[i - lo]);
    }
    (lo, lo + len)
}

/// Where only white space stands before `from`, the white space at the
/// front of `s` ends at the place returned.
proof fn lemma_white_front_ends(s: Seq<char>, from: int) -> (lo: int)
    requires
        0 <= from <= s.len(),
        forall|i: int| 0 <= i < from ==> white_space(#[trigger] s[i]),
    ensures
        from <= lo <= s.len(),
        forall|i: int| 0 <= i < lo ==> white_space(#[trigger] s[i]),
        lo < s.len() ==> !white_space(s[lo]),
    decreases s.len() - from,
{
    if from < s.len() && white_space(s[from]) {
        lemma_white_front_ends(s, from + 1)
    } else {
        from
    }
}

/// Where only white space stands from `to` on, the white space at the
/// back of `s` begins at the place returned.
proof fn lemma_white_back_begins(s: Seq<char>, to: int) -> (hi: int)
    requires
        0 <= to <= s.len(),
        forall|i: int| to <= i < s.len() ==> white_space(#[trigger] s[i]),
    ensures
        0 <= hi <= to,
        forall|i: int| hi <= i < s.len() ==> white_space(#[trigger] s[i]),
        0 < hi ==> !white_space(s[hi - 1]),
    decreases to,
{
    if 0 < to && white_space(s[to - 1]) {
        lemma_white_back_begins(s, to - 1)
    } else {
        to
    }
}

/// Where `s` splits at `delimiter`, the part before holds no delimiter,
/// and the two parts with one delimiter between them are `s` again.
pub proof fn lemma_split_rejoins(s: Seq<char>, delimiter: char)
    ensures
        match split_at_first(s, delimiter) {
            Some((head, tail)) => !head.contains(delimiter) && head + seq![delimiter] + tail == s,
            None => !s.contains(delimiter),
        },
{
    s.index_of_first_ensures(delimiter);
    if let Some(i) = s.index_of_first(delimiter) {
        let head = s.take(i);
        assert(head + seq![delimiter] + s.skip(i + 1) =~= s);
        if head.contains(delimiter) {
            let j = choose|j: int| 0 <= j < head.len() && head[j] == delimiter;
            assert(s[j] == delimiter);
        }
    }
}

/// A prefix of a digit string writes no larger a number than the whole.
proof fn lemma_decimal_prefix(s: Seq<char>, k: int)
    requires
        0 <= k <= s.len(),
        forall|i: int| 0 <= i < s.len() ==> digit(#[trigger] s[i]),
    ensures
        decimal(s.take(k)) <= decimal(s),
    decreases s.len() - k,
{
    if k == s.len() {
        assert(s.take(k) =~= s);
    } else {
        lemma_decimal_prefix(s.drop_last(), k);
        assert(s.drop_last().take(k) =~= s.take(k));
        assert(digit(s[s.len() - 1]));
    }
}

/// Tests a character for the Unicode property White_Space.
pub fn is_white_space(c: char) -> (b: bool)
    ensures
        b == white_space(c),
{
    let n: u32 = c as u32;
    (0x09 <= n && n <= 0x0D) || n == 0x20 || n == 0x85 || n == 0xA0 || n == 0x1680 || (0x2000 <= n
        && n <= 0x200A) || n == 0x2028 || n == 0x2029 || n == 0x202F || n == 0x205F || n == 0x3000
}

/// The characters of `s`, in order.
pub fn chars_of(s: &str) -> (v: Vec<char>)
    ensures
        v@ == s@,
{
    let mut v: Vec<char> = Vec::new();
    let mut it = s.chars();
    loop
        invariant
            v@ + it.remaining() == s@,
            it.decrease() is Some,
        ensures
            v@ == s@,
        decreases it.decrease()->0,
    {
        match it.next() {
            Some(c) => {
                v.push(c);
            },
            None => {
                break ;
            },
        }
    }
    v
}

/// The part of `s` between its leading and its trailing white space.
pub fn trim(s: &str) -> (r: &str)
    ensures
        r@ == trimmed(s@),
{
    let chars = chars_of(s);
    let n: usize = chars.len();
    let mut lo: usize = 0;
    while lo < n && is_white_space(chars[lo])
        invariant
            lo <= n,
            n == chars.len(),
            forall|i: int| 0 <= i < lo ==> white_space(#[trigger] chars@[i]),
        decreases n - lo,
    {
        lo += 1;
    }
    let mut hi: usize = n;
    while hi > lo && is_white_space(chars[hi - 1])
        invariant
            lo <= hi <= n,
            n == chars.len(),
            forall|i: int| hi <= i < n ==> white_space(#[trigger] chars@[i]),
        decreases hi,
    {
        hi -= 1;
    }
    proof {
        let front = s@.skip(lo as int);
        lemma_trim_start_skips(s@, lo as int);
        assert forall|i: int| hi - lo <= i < front.len() implies white_space(
            #[trigger] front[i],
        ) by {
            assert(front[i] == chars@[i + lo]);
        }
        lemma_trim_end_takes(front, hi - lo);
        assert(front.take(hi - lo) =~= s@.subrange(lo as int, hi as int));
    }
    s.substring_char(lo, hi)
}

/// Reads a vertex count: an optional plus sign and decimal digits, with
/// nothing before, between or after them.
pub fn parse_count(s: &str) -> (r: Option<usize>)
    ensures
        r == count_of(s@),
{
    let chars = chars_of(s);
    let n: usize = chars.len();
    let start: usize = if n > 0 && chars[0] == '+' {
        1
    } else {
        0
    };
    let ghost body = unsigned_part(s@);
    assert(body =~= s@.skip(start as int));
    if start == n {
        return None;
    }
    let mut value: usize = 0;
    let mut i: usize = start;
    while i < n
        invariant
            start <= i <= n,
            n == chars.len(),
            chars@ == s@,
            body == unsigned_part(s@),
            body == s@.skip(start as int),
            forall|j: int| 0 <= j < i - start ==> digit(#[trigger] body[j]),
            value == decimal(body.take(i - start)),
        decreases n - i,
    {
        let c: u32 = chars[i] as u32;
        if c < 0x30 || c > 0x39 {
            assert(!digit(body[i - start]));
            return None;
        }
        let ghost next = body.take(i - start + 1);
        assert(next.drop_last() =~= body.take(i - start));
        assert(next.last() == chars@[i as int]);
        let d: usize = (c - 0x30) as usize;
        let widened: Option<usize> = match value.checked_mul(10) {
            Some(tens) => tens.checked_add(d),
            None => None,
        };
        match widened {
            Some(v) => {
                value = v;
            },
            None => {
                proof {
                    assert(decimal(next) > usize::MAX);
                    if forall|j: int| 0 <= j < body.len() ==> digit(#[trigger] body[j]) {
                        lemma_decimal_prefix(body, i - start + 1);
                    }
                }
                return None;
            },
        }
        i += 1;
    }
    assert(body.take(n - start) =~= body);
    Some(value)
}

/// Splits `s` at the first `delimiter` in it, which goes to neither part.
pub fn split_once(s: &str, delimiter: char) -> (r: Option<(&str, &str)>)
    ensures
        match r {
            Some((head, tail)) => split_at_first(s@, delimiter) == Some((head@, tail@)),
            None => split_at_first(s@, delimiter) is None,
        },
{
    let chars = chars_of(s);
    let n: usize = chars.len();
    let mut i: usize = 0;
    while i < n && chars[i] != delimiter
        invariant
            i <= n,
            n == chars.len(),
            forall|j: int| 0 <= j < i ==> #[trigger] chars@[j] != delimiter,
        decreases n - i,
    {
        i += 1;
    }
    proof {
        s@.index_of_first_ensures(delimiter);
    }
    if i == n {
        None
    } else {
        let head = s.substring_char(0, i);
        let tail = s.substring_char(i + 1, n);
        Some((head, tail))
    }
}

} // verus!
