//! Byte and character level text helpers: line counting, line splitting,
//! whitespace trimming and decimal formatting.

use vstd::prelude::*;

verus! {

/// Number of line feeds in `s`.
pub open spec fn newline_count(s: Seq<u8>) -> nat
    decreases s.len(),
{
    if s.len() == 0 {
        0
    } else {
        newline_count(s.drop_last()) + if s.last() == 10u8 { 1nat } else { 0nat }
    }
}

/// Number of lines that a line iterator yields on `s`: every line feed ends a
/// line, and a non-empty tail after the last line feed is one more line.
pub open spec fn line_count(s: Seq<u8>) -> nat {
    newline_count(s) + if s.len() > 0 && s.last() != 10u8 { 1nat } else { 0nat }
}

/// A byte string has at most as many line feeds as bytes.
pub proof fn lemma_newline_count_bound(s: Seq<u8>)
    ensures
        newline_count(s) <= s.len(),
    decreases s.len(),
{
    if s.len() > 0 {
        lemma_newline_count_bound(s.drop_last());
    }
}

/// Counts the lines of `bytes` the way `BufRead::lines().count()` does.
pub fn count_lines(bytes: &[u8]) -> (n: usize)
    ensures
        n == line_count(bytes@),
{
    let mut count: usize = 0;
    let mut i: usize = 0;
    while i < bytes.len()
        invariant
            i <= bytes@.len(),
            count == newline_count(bytes@.subrange(0, i as int)),
            count <= i,
        decreases bytes@.len() - i,
    {
        assert(bytes@.subrange(0, i as int + 1).drop_last() =~= bytes@.subrange(0, i as int));
        if bytes[i] == 10u8 {
            count = count + 1;
        }
        i = i + 1;
    }
    assert(bytes@.subrange(0, i as int) =~= bytes@);
    if bytes.len() > 0 && bytes[bytes.len() - 1] != 10u8 {
        proof {
            lemma_newline_count_bound(bytes@.drop_last());
        }
        count = count + 1;
    }
    count
}

} // verus!

verus! {

/// The characters of `s`, in order.
pub fn chars_of(s: &str) -> (v: Vec<char>)
    ensures
        v@ == s@,
{
    let mut v: Vec<char> = Vec::new();
    for c in it: s.chars()
        invariant
            v@ == it.seq().take(it.index() as int),
            it.seq() == s@,
        ensures
            v@ == s@,
    {
        v.push(c);
        assert(it.seq().take(it.index() as int + 1) =~= it.seq().take(it.index() as int).push(c));
    }
    v
}

} // verus!

verus! {

/// Index of the first occurrence of `c` in `s`, or `s.len()` when there is none.
pub open spec fn index_of_char(s: Seq<char>, c: char) -> int
    decreases s.len(),
{
    if s.len() == 0 {
        0
    } else if s[0] == c {
        0
    } else {
        1 + index_of_char(s.drop_first(), c)
    }
}

/// `index_of_char` is the first position holding `c`, or the length.
pub proof fn lemma_index_of_char(s: Seq<char>, c: char)
    ensures
        0 <= index_of_char(s, c) <= s.len(),
        index_of_char(s, c) < s.len() ==> s[index_of_char(s, c)] == c,
        forall|j: int| 0 <= j < index_of_char(s, c) ==> s[j] != c,
    decreases s.len(),
{
    if s.len() > 0 && s[0] != c {
        lemma_index_of_char(s.drop_first(), c);
        assert forall|j: int| 0 <= j < index_of_char(s, c) implies s[j] != c by {
            if j > 0 {
                assert(s[j] == s.drop_first()[j - 1]);
            }
        }
    }
}

/// A position with no `c` before it and `c` (or the end) at it is the index of `c`.
pub proof fn lemma_index_of_char_at(s: Seq<char>, c: char, k: int)
    requires
        0 <= k <= s.len(),
        k < s.len() ==> s[k] == c,
        forall|j: int| 0 <= j < k ==> s[j] != c,
    ensures
        index_of_char(s, c) == k,
    decreases s.len(),
{
    if s.len() > 0 && k > 0 {
        assert(s[0] != c);
        assert forall|j: int| 0 <= j < k - 1 implies s.drop_first()[j] != c by {
            assert(s.drop_first()[j] == s[j + 1]);
        }
        lemma_index_of_char_at(s.drop_first(), c, k - 1);
    }
}

/// A line without its final carriage return, if it has one.
pub open spec fn strip_cr(line: Seq<char>) -> Seq<char> {
    if line.len() > 0 && line.last() == '\r' {
        line.drop_last()
    } else {
        line
    }
}

/// The lines of `s` as `str::lines` yields them: split at `\n`, a `\r`
/// directly before a `\n` is dropped, and a final line ending is optional.
pub open spec fn lines_of(s: Seq<char>) -> Seq<Seq<char>>
    decreases s.len(),
{
    if s.len() == 0 {
        seq![]
    } else {
        let k = index_of_char(s, '\n');
        if k >= s.len() || k < 0 {
            seq![s]
        } else {
            seq![strip_cr(s.subrange(0, k))] + lines_of(s.subrange(k + 1, s.len() as int))
        }
    }
}

/// The texts that `ranges` select in `s`.
pub open spec fn range_texts(s: Seq<char>, ranges: Seq<(usize, usize)>) -> Seq<Seq<char>> {
    ranges.map_values(|r: (usize, usize)| s.subrange(r.0 as int, r.1 as int))
}

/// Ranges within `s` that are in bounds.
pub open spec fn ranges_in_bounds(s: Seq<char>, ranges: Seq<(usize, usize)>) -> bool {
    forall|i: int| #![trigger ranges[i]] 0 <= i < ranges.len() ==> ranges[i].0 <= ranges[i].1 <= s.len()
}

/// The character ranges of the lines of `chars`, in order.
pub fn line_ranges(chars: &Vec<char>) -> (r: Vec<(usize, usize)>)
    ensures
        ranges_in_bounds(chars@, r@),
        range_texts(chars@, r@) == lines_of(chars@),
{
    let mut r: Vec<(usize, usize)> = Vec::new();
    let mut start: usize = 0;
    let mut i: usize = 0;
    let ghost s = chars@;
    proof {
        assert(s.subrange(0, s.len() as int) =~= s);
        assert(range_texts(s, r@) =~= Seq::<Seq<char>>::empty());
        assert(lines_of(s) =~= range_texts(s, r@) + lines_of(s));
    }
    while i < chars.len()
        invariant
            s == chars@,
            start <= i <= s.len(),
            forall|j: int| start <= j < i ==> s[j] != '\n',
            ranges_in_bounds(s, r@),
            lines_of(s) == range_texts(s, r@) + lines_of(s.subrange(start as int, s.len() as int)),
        decreases s.len() - i,
    {
        if chars[i] == '\n' {
            let ghost rest = s.subrange(start as int, s.len() as int);
            proof {
                assert forall|j: int| 0 <= j < i - start implies rest[j] != '\n' by {
                    assert(rest[j] == s[start + j]);
                }
                lemma_index_of_char_at(rest, '\n', i - start);
                assert(rest.subrange(i - start + 1, rest.len() as int) =~= s.subrange(
                    i + 1,
                    s.len() as int,
                ));
                assert(rest.subrange(0, i - start) =~= s.subrange(start as int, i as int));
            }
            let end: usize = if i > start && chars[i - 1] == '\r' {
                i - 1
            } else {
                i
            };
            proof {
                assert(s.subrange(start as int, end as int) =~= strip_cr(
                    s.subrange(start as int, i as int),
                ));
            }
            let ghost old_r = r@;
            r.push((start, end));
            proof {
                assert(range_texts(s, r@) =~= range_texts(s, old_r).push(
                    s.subrange(start as int, end as int),
                ));
                assert(lines_of(s) =~= range_texts(s, r@) + lines_of(
                    s.subrange(i + 1, s.len() as int),
                ));
            }
            start = i + 1;
        }
        i = i + 1;
    }
    let ghost rest = s.subrange(start as int, s.len() as int);
    if start < chars.len() {
        proof {
            assert forall|j: int| 0 <= j < rest.len() implies rest[j] != '\n' by {
                assert(rest[j] == s[start + j]);
            }
            lemma_index_of_char_at(rest, '\n', rest.len() as int);
        }
        let ghost old_r = r@;
        r.push((start, chars.len()));
        proof {
            assert(range_texts(s, r@) =~= range_texts(s, old_r).push(rest));
            assert(lines_of(s) =~= range_texts(s, r@));
        }
    } else {
        proof {
            assert(rest.len() == 0);
            assert(lines_of(s) =~= range_texts(s, r@));
        }
    }
    r
}

} // verus!

verus! {

/// Unicode White_Space, the set that `char::is_whitespace` tests.
pub open spec fn is_whitespace(c: char) -> bool {
    ||| ('\t' <= c <= '\r')
    ||| c == ' '
    ||| c == '\u{85}'
    ||| c == '\u{A0}'
    ||| c == '\u{1680}'
    ||| ('\u{2000}' <= c <= '\u{200A}')
    ||| c == '\u{2028}'
    ||| c == '\u{2029}'
    ||| c == '\u{202F}'
    ||| c == '\u{205F}'
    ||| c == '\u{3000}'
}

/// Executable form of [`is_whitespace`].
pub fn char_is_whitespace(c: char) -> (b: bool)
    ensures
        b == is_whitespace(c),
{
    ('\t' <= c && c <= '\r') || c == ' ' || c == '\u{85}' || c == '\u{A0}' || c == '\u{1680}'
        || ('\u{2000}' <= c && c <= '\u{200A}') || c == '\u{2028}' || c == '\u{2029}' || c
        == '\u{202F}' || c == '\u{205F}' || c == '\u{3000}'
}

/// `s` without its leading whitespace.
pub open spec fn trim_start(s: Seq<char>) -> Seq<char>
    decreases s.len(),
{
    if s.len() > 0 && is_whitespace(s[0]) {
        trim_start(s.drop_first())
    } else {
        s
    }
}

/// `s` without its trailing whitespace.
pub open spec fn trim_end(s: Seq<char>) -> Seq<char>
    decreases s.len(),
{
    if s.len() > 0 && is_whitespace(s.last()) {
        trim_end(s.drop_last())
    } else {
        s
    }
}

/// `s` without leading and trailing whitespace, as `str::trim` gives it.
pub open spec fn trim(s: Seq<char>) -> Seq<char> {
    trim_end(trim_start(s))
}

proof fn lemma_trim_start_step(s: Seq<char>, a: int, b: int)
    requires
        0 <= a < b <= s.len(),
        is_whitespace(s[a]),
    ensures
        trim_start(s.subrange(a, b)) == trim_start(s.subrange(a + 1, b)),
{
    assert(s.subrange(a, b).drop_first() =~= s.subrange(a + 1, b));
}

proof fn lemma_trim_end_step(s: Seq<char>, a: int, b: int)
    requires
        0 <= a < b <= s.len(),
        is_whitespace(s[b - 1]),
    ensures
        trim_end(s.subrange(a, b)) == trim_end(s.subrange(a, b - 1)),
{
    assert(s.subrange(a, b).drop_last() =~= s.subrange(a, b - 1));
}

/// The range of `chars[start..end]` that remains once whitespace is trimmed.
pub fn trim_range(chars: &Vec<char>, start: usize, end: usize) -> (r: (usize, usize))
    requires
        start <= end <= chars@.len(),
    ensures
        start <= r.0 <= r.1 <= end,
        chars@.subrange(r.0 as int, r.1 as int) == trim(chars@.subrange(start as int, end as int)),
{
    let ghost s = chars@;
    let mut a = start;
    while a < end && char_is_whitespace(chars[a])
        invariant
            s == chars@,
            start <= a <= end <= s.len(),
            trim_start(s.subrange(start as int, end as int)) == trim_start(
                s.subrange(a as int, end as int),
            ),
        decreases end - a,
    {
        proof {
            lemma_trim_start_step(s, a as int, end as int);
        }
        a = a + 1;
    }
    proof {
        if a < end {
            assert(s.subrange(a as int, end as int)[0] == s[a as int]);
        }
    }
    let mut b = end;
    while b > a && char_is_whitespace(chars[b - 1])
        invariant
            s == chars@,
            start <= a <= b <= end <= s.len(),
            trim(s.subrange(start as int, end as int)) == trim_end(s.subrange(a as int, b as int)),
        decreases b - a,
    {
        proof {
            lemma_trim_end_step(s, a as int, b as int);
        }
        b = b - 1;
    }
    proof {
        if a < b {
            assert(s.subrange(a as int, b as int).last() == s[b - 1]);
        }
    }
    (a, b)
}

/// Whether `chars[start..end]` equals `target`.
pub fn range_equals(chars: &Vec<char>, start: usize, end: usize, target: &[char]) -> (b: bool)
    requires
        start <= end <= chars@.len(),
    ensures
        b == (chars@.subrange(start as int, end as int) == target@),
{
    if end - start != target.len() {
        return false;
    }
    let mut i: usize = 0;
    while i < target.len()
        invariant
            start <= end <= chars@.len(),
            end - start == target@.len(),
            i <= target@.len(),
            forall|j: int| 0 <= j < i ==> chars@[start + j] == target@[j],
        decreases target@.len() - i,
    {
        if chars[start + i] != target[i] {
            assert(chars@.subrange(start as int, end as int)[i as int] != target@[i as int]);
            return false;
        }
        i = i + 1;
    }
    assert(chars@.subrange(start as int, end as int) =~= target@);
    true
}

/// Whether `chars[start..end]` begins with `prefix`.
pub fn range_starts_with(chars: &Vec<char>, start: usize, end: usize, prefix: &[char]) -> (b: bool)
    requires
        start <= end <= chars@.len(),
    ensures
        b == prefix@.is_prefix_of(chars@.subrange(start as int, end as int)),
{
    if end - start < prefix.len() {
        return false;
    }
    let mut i: usize = 0;
    while i < prefix.len()
        invariant
            start <= end <= chars@.len(),
            prefix@.len() <= end - start,
            i <= prefix@.len(),
            forall|j: int| 0 <= j < i ==> chars@[start + j] == prefix@[j],
        decreases prefix@.len() - i,
    {
        if chars[start + i] != prefix[i] {
            assert(chars@.subrange(start as int, end as int)[i as int] != prefix@[i as int]);
            return false;
        }
        i = i + 1;
    }
    assert(chars@.subrange(start as int, end as int).subrange(0, prefix@.len() as int) =~= prefix@);
    true
}

} // verus!

verus! {

/// The decimal digits of `n` as ASCII bytes, without leading zeros.
pub open spec fn decimal(n: nat) -> Seq<u8>
    decreases n,
{
    if n < 10 {
        seq![(48 + n) as u8]
    } else {
        decimal(n / 10).push((48 + n % 10) as u8)
    }
}

/// `k` ASCII spaces.
pub open spec fn spaces(k: nat) -> Seq<u8> {
    Seq::new(k, |i: int| 32u8)
}

/// `s` left-aligned in a field of `width` bytes, as the `{:<width}` format does.
pub open spec fn left_aligned(s: Seq<u8>, width: nat) -> Seq<u8> {
    if s.len() < width {
        s + spaces((width - s.len()) as nat)
    } else {
        s
    }
}

/// Appends `bytes` to `out`.
pub fn push_bytes(out: &mut Vec<u8>, bytes: &[u8])
    ensures
        final(out)@ == old(out)@ + bytes@,
{
    let mut i: usize = 0;
    while i < bytes.len()
        invariant
            i <= bytes@.len(),
            out@ == old(out)@ + bytes@.subrange(0, i as int),
        decreases bytes@.len() - i,
    {
        out.push(bytes[i]);
        assert(bytes@.subrange(0, i as int + 1) =~= bytes@.subrange(0, i as int).push(bytes@[i as int]));
        i = i + 1;
    }
    assert(bytes@.subrange(0, i as int) =~= bytes@);
}

/// Appends the UTF-8 encoding of `s` to `out`.
pub fn push_str(out: &mut Vec<u8>, s: &str)
    ensures
        final(out)@ == old(out)@ + vstd::utf8::encode_utf8(s@),
{
    push_bytes(out, s.as_bytes());
}

/// Appends the decimal digits of `n` to `out`.
pub fn push_decimal(out: &mut Vec<u8>, n: u64)
    ensures
        final(out)@ == old(out)@ + decimal(n as nat),
    decreases n,
{
    if n >= 10 {
        push_decimal(out, n / 10);
    }
    out.push((48 + n % 10) as u8);
    proof {
        if n < 10 {
            assert(decimal(n as nat) =~= seq![(48 + n) as u8]);
        }
    }
}

/// Appends `n` left-aligned in a field of `width` bytes.
pub fn push_decimal_left_aligned(out: &mut Vec<u8>, n: usize, width: usize)
    ensures
        final(out)@ == old(out)@ + left_aligned(decimal(n as nat), width as nat),
{
    let start = out.len();
    push_decimal(out, n as u64);
    let digits = out.len() - start;
    let mut k = digits;
    while k < width
        invariant
            start <= out@.len(),
            digits == decimal(n as nat).len(),
            digits <= k,
            digits < width ==> k <= width,
            digits >= width ==> k == digits,
            out@ == old(out)@ + decimal(n as nat) + spaces((k - digits) as nat),
        decreases width - k,
    {
        out.push(32u8);
        assert(spaces((k + 1 - digits) as nat) =~= spaces((k - digits) as nat).push(32u8));
        k = k + 1;
    }
    proof {
        if digits < width {
            assert(k == width);
        } else {
            assert(spaces(0) =~= Seq::<u8>::empty());
            assert(old(out)@ + decimal(n as nat) + spaces(0) =~= old(out)@ + decimal(n as nat));
        }
    }
}

} // verus!

verus! {

/// Whether `c` occurs in `s`.
pub open spec fn contains_char(s: Seq<char>, c: char) -> bool {
    index_of_char(s, c) < s.len()
}

/// Position of the first `c` in `chars[start..end]`, relative to `start`,
/// or `end - start` when there is none.
pub fn find_char_in(chars: &Vec<char>, start: usize, end: usize, c: char) -> (r: usize)
    requires
        start <= end <= chars@.len(),
    ensures
        r == index_of_char(chars@.subrange(start as int, end as int), c),
        r <= end - start,
{
    let ghost s = chars@.subrange(start as int, end as int);
    let mut i: usize = start;
    while i < end && chars[i] != c
        invariant
            start <= i <= end <= chars@.len(),
            s == chars@.subrange(start as int, end as int),
            forall|j: int| 0 <= j < i - start ==> s[j] != c,
        decreases end - i,
    {
        assert(s[i - start] == chars@[i as int]);
        i = i + 1;
    }
    proof {
        if i < end {
            assert(s[i - start] == chars@[i as int]);
        }
        lemma_index_of_char_at(s, c, i - start);
    }
    i - start
}

/// Whether `chars[start..end]` ends with `suffix`.
pub fn range_ends_with(chars: &Vec<char>, start: usize, end: usize, suffix: &[char]) -> (b: bool)
    requires
        start <= end <= chars@.len(),
    ensures
        b == suffix@.is_suffix_of(chars@.subrange(start as int, end as int)),
{
    if end - start < suffix.len() {
        return false;
    }
    let from = end - suffix.len();
    let r = range_equals(chars, from, end, suffix);
    proof {
        let s = chars@.subrange(start as int, end as int);
        assert(s.subrange(s.len() - suffix@.len(), s.len() as int) =~= chars@.subrange(from as int, end as int));
    }
    r
}

/// `s` without its leading `c` characters.
pub open spec fn trim_leading(s: Seq<char>, c: char) -> Seq<char>
    decreases s.len(),
{
    if s.len() > 0 && s[0] == c {
        trim_leading(s.drop_first(), c)
    } else {
        s
    }
}

/// Start of `chars[start..end]` once leading `c`s are skipped.
pub fn skip_leading(chars: &Vec<char>, start: usize, end: usize, c: char) -> (r: usize)
    requires
        start <= end <= chars@.len(),
    ensures
        start <= r <= end,
        chars@.subrange(r as int, end as int) == trim_leading(chars@.subrange(start as int, end as int), c),
{
    let mut i = start;
    while i < end && chars[i] == c
        invariant
            start <= i <= end <= chars@.len(),
            trim_leading(chars@.subrange(start as int, end as int), c) == trim_leading(
                chars@.subrange(i as int, end as int),
                c,
            ),
        decreases end - i,
    {
        assert(chars@.subrange(i as int, end as int).drop_first() =~= chars@.subrange(i + 1, end as int));
        i = i + 1;
    }
    proof {
        if i < end {
            assert(chars@.subrange(i as int, end as int)[0] == chars@[i as int]);
        }
    }
    i
}

} // verus!

verus! {

/// A copy of `chars[start..end]`.
pub fn copy_range(chars: &Vec<char>, start: usize, end: usize) -> (v: Vec<char>)
    requires
        start <= end <= chars@.len(),
    ensures
        v@ == chars@.subrange(start as int, end as int),
{
    let mut v: Vec<char> = Vec::new();
    let mut i = start;
    while i < end
        invariant
            start <= i <= end <= chars@.len(),
            v@ == chars@.subrange(start as int, i as int),
        decreases end - i,
    {
        v.push(chars[i]);
        assert(chars@.subrange(start as int, i + 1) =~= chars@.subrange(start as int, i as int).push(chars@[i as int]));
        i = i + 1;
    }
    v
}

/// `s` with every `from` replaced by `to`.
pub open spec fn replace_char(s: Seq<char>, from: char, to: char) -> Seq<char> {
    s.map_values(|x: char| if x == from { to } else { x })
}

/// The characters of `s` with every `from` replaced by `to`.
pub fn replaced_chars(s: &str, from: char, to: char) -> (v: Vec<char>)
    ensures
        v@ == replace_char(s@, from, to),
{
    let chars = chars_of(s);
    let mut v: Vec<char> = Vec::new();
    let mut i: usize = 0;
    while i < chars.len()
        invariant
            chars@ == s@,
            i <= chars@.len(),
            v@ == replace_char(chars@.subrange(0, i as int), from, to),
        decreases chars@.len() - i,
    {
        let c = chars[i];
        v.push(if c == from { to } else { c });
        assert(replace_char(chars@.subrange(0, i + 1), from, to) =~= replace_char(chars@.subrange(0, i as int), from, to).push(if c == from { to } else { c }));
        i = i + 1;
    }
    assert(chars@.subrange(0, i as int) =~= chars@);
    v
}

/// `s` with `pre` removed from its start as often as it is there; unchanged
/// for an empty `pre`.
pub open spec fn trim_leading_seq(s: Seq<char>, pre: Seq<char>) -> Seq<char>
    decreases s.len(),
{
    if pre.len() > 0 && pre.is_prefix_of(s) {
        trim_leading_seq(s.subrange(pre.len() as int, s.len() as int), pre)
    } else {
        s
    }
}

/// Start of `chars[start..]` once `pre` is removed from its front as often as it is there.
pub fn skip_leading_seq(chars: &Vec<char>, start: usize, pre: &Vec<char>) -> (r: usize)
    requires
        start <= chars@.len(),
    ensures
        start <= r <= chars@.len(),
        chars@.subrange(r as int, chars@.len() as int) == trim_leading_seq(
            chars@.subrange(start as int, chars@.len() as int),
            pre@,
        ),
{
    let n = chars.len();
    let mut i = start;
    if pre.len() == 0 {
        return i;
    }
    while range_starts_with(chars, i, n, pre.as_slice())
        invariant
            start <= i <= n,
            n == chars@.len(),
            pre@.len() > 0,
            trim_leading_seq(chars@.subrange(start as int, n as int), pre@) == trim_leading_seq(
                chars@.subrange(i as int, n as int),
                pre@,
            ),
        decreases n - i,
    {
        assert(chars@.subrange(i as int, n as int).subrange(pre@.len() as int, n - i) =~= chars@.subrange(i + pre@.len(), n as int));
        i = i + pre.len();
    }
    i
}

} // verus!

verus! {

proof fn lemma_newline_count_concat(x: Seq<u8>, y: Seq<u8>)
    ensures
        newline_count(x + y) == newline_count(x) + newline_count(y),
    decreases y.len(),
{
    if y.len() > 0 {
        lemma_newline_count_concat(x, y.drop_last());
        assert((x + y).drop_last() =~= x + y.drop_last());
        assert((x + y).last() == y.last());
    } else {
        assert(x + y =~= x);
    }
}

proof fn lemma_newline_count_none(a: Seq<u8>)
    requires
        forall|i: int| 0 <= i < a.len() ==> a[i] != 10u8,
    ensures
        newline_count(a) == 0,
    decreases a.len(),
{
    if a.len() > 0 {
        lemma_newline_count_none(a.drop_last());
    }
}

/// How many lines a line iterator yields: none on empty input, one on a
/// line with or without its line feed, and, after a line feed, the lines
/// before it plus the lines after it.
pub proof fn lemma_line_count_shape(a: Seq<u8>, b: Seq<u8>)
    ensures
        line_count(Seq::<u8>::empty()) == 0,
        (forall|i: int| 0 <= i < a.len() ==> a[i] != 10u8) && a.len() > 0 ==> line_count(a) == 1,
        (forall|i: int| 0 <= i < a.len() ==> a[i] != 10u8) ==> line_count(a.push(10u8)) == 1,
        line_count(a.push(10u8) + b) == line_count(a.push(10u8)) + line_count(b),
{
    if forall|i: int| 0 <= i < a.len() ==> a[i] != 10u8 {
        lemma_newline_count_none(a);
        assert(a.push(10u8).drop_last() =~= a);
    }
    let c = a.push(10u8);
    assert(c.drop_last() =~= a);
    lemma_newline_count_concat(c, b);
    if b.len() > 0 {
        assert((c + b).last() == b.last());
    } else {
        assert(c + b =~= c);
    }
}

} // verus!
