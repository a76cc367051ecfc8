//! Text operations of the wire protocol: trimming, splitting, prefixes,
//! substitution and decimal numbers, over the characters of a string.

use vstd::prelude::*;
use vstd::string::*;
use vstd::utf8::*;

verus! {

/// Whether a character has Unicode's White_Space property.
pub open spec fn is_space(c: char) -> bool {
    let n = c as u32;
    ||| 0x9 <= n <= 0xd
    ||| n == 0x20
    ||| n == 0x85
    ||| n == 0xa0
    ||| n == 0x1680
    ||| 0x2000 <= n <= 0x200a
    ||| n == 0x2028
    ||| n == 0x2029
    ||| n == 0x202f
    ||| n == 0x205f
    ||| n == 0x3000
}

/// The text without its leading white space.
pub open spec fn trimmed_start(s: Seq<char>) -> Seq<char>
    decreases s.len(),
{
    if s.len() > 0 && is_space(s[0]) {
        trimmed_start(s.skip(1))
    } else {
        s
    }
}

/// The text without its trailing white space.
pub open spec fn trimmed_end(s: Seq<char>) -> Seq<char>
    decreases s.len(),
{
    if s.len() > 0 && is_space(s.last()) {
        trimmed_end(s.drop_last())
    } else {
        s
    }
}

/// The text without leading and trailing white space.
pub open spec fn trimmed(s: Seq<char>) -> Seq<char> {
    trimmed_end(trimmed_start(s))
}

/// Whether `prefix` stands at the start of `s`.
pub open spec fn has_prefix(s: Seq<char>, prefix: Seq<char>) -> bool {
    prefix.len() <= s.len() && s.take(prefix.len() as int) == prefix
}

/// Where the character first occurs, or the length of the text.
pub open spec fn first_at(s: Seq<char>, c: char) -> int
    decreases s.len(),
{
    if s.len() == 0 || s[0] == c {
        0
    } else {
        1 + first_at(s.skip(1), c)
    }
}

/// The text cut at its first blanks into at most `n` pieces.
pub open spec fn pieces(s: Seq<char>, n: nat) -> Seq<Seq<char>>
    decreases n,
{
    if n == 0 {
        Seq::empty()
    } else if n == 1 || first_at(s, ' ') >= s.len() {
        seq![s]
    } else {
        let at = first_at(s, ' ');
        seq![s.take(at)] + pieces(s.skip(at + 1), (n - 1) as nat)
    }
}

/// The views of borrowed texts.
pub open spec fn views(parts: Seq<&str>) -> Seq<Seq<char>> {
    Seq::new(parts.len(), |i: int| parts[i]@)
}

/// The decimal digit for a number below ten.
pub open spec fn digit(n: nat) -> char {
    ('0' as u32 + n) as char
}

/// The decimal notation of a number.
pub open spec fn decimal(n: nat) -> Seq<char>
    decreases n,
{
    if n < 10 {
        seq![digit(n)]
    } else {
        decimal(n / 10).push(digit(n % 10))
    }
}

/// The text with every occurrence of `from`, taken left to right without
/// overlap, replaced by `to`.
pub open spec fn replaced(s: Seq<char>, from: Seq<char>, to: Seq<char>) -> Seq<char>
    decreases s.len(),
{
    if from.len() == 0 || s.len() < from.len() {
        s
    } else if has_prefix(s, from) {
        to + replaced(s.skip(from.len() as int), from, to)
    } else {
        seq![s[0]] + replaced(s.skip(1), from, to)
    }
}

proof fn lemma_trimmed_start_skips(s: Seq<char>, a: int)
    requires
        0 <= a <= s.len(),
        forall|j: int| 0 <= j < a ==> is_space(#[trigger] s[j]),
    ensures
        trimmed_start(s) == trimmed_start(s.skip(a)),
    decreases a,
{
    if a > 0 {
        assert forall|j: int| 0 <= j < a - 1 implies is_space(#[trigger] s.skip(1)[j]) by {
            assert(s.skip(1)[j] == s[j + 1]);
        }
        lemma_trimmed_start_skips(s.skip(1), a - 1);
        assert(s.skip(1).skip(a - 1) == s.skip(a));
    } else {
        assert(s.skip(0) == s);
    }
}

proof fn lemma_trimmed_end_drops(s: Seq<char>, b: int)
    requires
        0 <= b <= s.len(),
        forall|j: int| b <= j < s.len() ==> is_space(#[trigger] s[j]),
    ensures
        trimmed_end(s) == trimmed_end(s.take(b)),
    decreases s.len() - b,
{
    if b < s.len() {
        lemma_trimmed_end_drops(s.drop_last(), b);
        assert(s.drop_last().take(b) == s.take(b));
    } else {
        assert(s.take(b) == s);
    }
}

proof fn lemma_first_at(s: Seq<char>, c: char, at: int)
    requires
        0 <= at <= s.len(),
        forall|j: int| 0 <= j < at ==> #[trigger] s[j] != c,
        at < s.len() ==> s[at] == c,
    ensures
        first_at(s, c) == at,
    decreases at,
{
    if at > 0 {
        assert forall|j: int| 0 <= j < at - 1 implies #[trigger] s.skip(1)[j] != c by {
            assert(s.skip(1)[j] == s[j + 1]);
        }
        lemma_first_at(s.skip(1), c, at - 1);
    }
}

/// The first occurrence of a character, where it stands and that no earlier one
/// is equal.
pub proof fn lemma_first_at_bounds(s: Seq<char>, c: char)
    ensures
        0 <= first_at(s, c) <= s.len(),
        first_at(s, c) < s.len() ==> s[first_at(s, c)] == c,
        forall|j: int| 0 <= j < first_at(s, c) ==> #[trigger] s[j] != c,
    decreases s.len(),
{
    if s.len() > 0 && s[0] != c {
        lemma_first_at_bounds(s.skip(1), c);
        assert forall|j: int| 0 <= j < first_at(s, c) implies #[trigger] s[j] != c by {
            if j > 0 {
                assert(s.skip(1)[j - 1] == s[j]);
            }
        }
    }
}

fn space(c: char) -> (r: bool)
    ensures
        r == is_space(c),
{
    let n: u32 = c as u32;
    (0x9 <= n && n <= 0xd) || n == 0x20 || n == 0x85 || n == 0xa0 || n == 0x1680 || (0x2000 <= n
        && n <= 0x200a) || n == 0x2028 || n == 0x2029 || n == 0x202f || n == 0x205f || n == 0x3000
}

/// Drops leading and trailing white space.
pub fn trim<'a>(s: &'a str) -> (r: &'a str)
    ensures
        r@ == trimmed(s@),
{
    let n: usize = s.unicode_len();
    let mut i: usize = 0;
    let mut start: usize = 0;
    let mut end: usize = 0;
    for c in it: s.chars()
        invariant
            it.seq() == s@,
            i == it.index(),
            n == s@.len(),
            start <= end <= i,
            start == end ==> start == i,
            start < end ==> !is_space(s@[start as int]) && !is_space(s@[end - 1]),
            forall|j: int| 0 <= j < start ==> is_space(#[trigger] s@[j]),
            forall|j: int| end <= j < i ==> is_space(#[trigger] s@[j]),
    {
        if space(c) {
            if start == end {
                start = i + 1;
                end = i + 1;
            }
        } else {
            end = i + 1;
        }
        i = i + 1;
    }
    proof {
        let t = s@.skip(start as int);
        lemma_trimmed_start_skips(s@, start as int);
        if start < end {
            assert(t[0] == s@[start as int]);
        }
        assert(trimmed_start(s@) == t);
        assert forall|j: int| end - start <= j < t.len() implies is_space(#[trigger] t[j]) by {
            assert(t[j] == s@[start + j]);
        }
        lemma_trimmed_end_drops(t, end - start);
        assert(t.take(end - start) == s@.subrange(start as int, end as int));
    }
    s.substring_char(start, end)
}

/// The characters of a text.
fn chars_of(s: &str) -> (r: Vec<char>)
    ensures
        r@ == s@,
{
    let mut out: Vec<char> = Vec::new();
    for c in it: s.chars()
        invariant
            it.seq() == s@,
            out@ == s@.take(it.index()),
    {
        out.push(c);
        assert(s@.take(it.index() + 1) == s@.take(it.index()).push(c));
    }
    assert(s@.take(s@.len() as int) == s@);
    out
}

/// Whether two texts are equal.
pub fn same(a: &str, b: &str) -> (r: bool)
    ensures
        r == (a@ == b@),
{
    let x = a.as_bytes();
    let y = b.as_bytes();
    proof {
        encode_utf8_decode_utf8(a@);
        encode_utf8_decode_utf8(b@);
    }
    if x.len() != y.len() {
        return false;
    }
    let mut i: usize = 0;
    while i < x.len()
        invariant
            i <= x@.len(),
            x@.len() == y@.len(),
            x@ == encode_utf8(a@),
            y@ == encode_utf8(b@),
            forall|j: int| 0 <= j < i ==> x@[j] == y@[j],
        decreases x@.len() - i,
    {
        if x[i] != y[i] {
            return false;
        }
        i = i + 1;
    }
    assert(x@ =~= y@);
    true
}

/// Whether a text begins with another.
pub fn starts_with(s: &str, prefix: &str) -> (r: bool)
    ensures
        r == has_prefix(s@, prefix@),
{
    let n: usize = prefix.unicode_len();
    if n > s.unicode_len() {
        return false;
    }
    same(s.substring_char(0, n), prefix)
}

/// The rest of a text behind a prefix, where it begins with that prefix.
pub fn strip_prefix<'a>(s: &'a str, prefix: &str) -> (r: Option<&'a str>)
    ensures
        r is Some <==> has_prefix(s@, prefix@),
        r matches Some(rest) ==> rest@ == s@.skip(prefix@.len() as int),
{
    if starts_with(s, prefix) {
        let rest = s.substring_char(prefix.unicode_len(), s.unicode_len());
        assert(rest@ == s@.skip(prefix@.len() as int));
        Some(rest)
    } else {
        None
    }
}

/// Where a character first occurs in a text.
fn find(s: &str, wanted: char) -> (r: usize)
    ensures
        r == first_at(s@, wanted),
        r <= s@.len(),
{
    let n: usize = s.unicode_len();
    let mut at: usize = 0;
    let mut found: bool = false;
    for c in it: s.chars()
        invariant
            it.seq() == s@,
            n == s@.len(),
            at <= it.index(),
            found ==> at < it.index() && s@[at as int] == wanted,
            !found ==> at == it.index(),
            forall|j: int| 0 <= j < at ==> #[trigger] s@[j] != wanted,
    {
        if !found {
            if c == wanted {
                found = true;
            } else {
                at = at + 1;
            }
        }
    }
    proof {
        lemma_first_at(s@, wanted, at as int);
    }
    at
}

/// Cuts a text at its first blanks into at most `n` pieces.
pub fn split_pieces<'a>(s: &'a str, n: usize) -> (r: Vec<&'a str>)
    ensures
        views(r@) == pieces(s@, n as nat),
{
    let mut out: Vec<&'a str> = Vec::new();
    let mut rest: &'a str = s;
    let mut left: usize = n;
    assert(views(out@) + pieces(s@, n as nat) =~= pieces(s@, n as nat));
    while left > 1
        invariant
            left <= n,
            left == 0 ==> n == 0,
            views(out@) + pieces(rest@, left as nat) == pieces(s@, n as nat),
        decreases left,
    {
        let at: usize = find(rest, ' ');
        let len: usize = rest.unicode_len();
        if at >= len {
            let ghost before = out@;
            out.push(rest);
            assert(views(out@) == views(before).push(rest@));
            assert(views(out@) == views(before) + pieces(rest@, left as nat));
            return out;
        }
        let ghost before = out@;
        let ghost was = rest@;
        let piece: &'a str = rest.substring_char(0, at);
        out.push(piece);
        rest = rest.substring_char(at + 1, len);
        left = left - 1;
        proof {
            assert(piece@ == was.take(at as int));
            assert(rest@ == was.skip(at + 1));
            assert(views(out@) == views(before).push(piece@));
            assert(views(out@) + pieces(rest@, left as nat) == views(before) + pieces(
                was,
                (left + 1) as nat,
            ));
        }
    }
    if left == 1 {
        let ghost before = out@;
        out.push(rest);
        assert(views(out@) == views(before) + pieces(rest@, 1));
    } else {
        assert(views(out@) == views(out@) + pieces(rest@, 0));
    }
    out
}

fn digit_text(n: u64) -> (r: &'static str)
    requires
        n < 10,
    ensures
        r@ == seq![digit(n as nat)],
{
    proof {
        reveal_strlit("0");
        reveal_strlit("1");
        reveal_strlit("2");
        reveal_strlit("3");
        reveal_strlit("4");
        reveal_strlit("5");
        reveal_strlit("6");
        reveal_strlit("7");
        reveal_strlit("8");
        reveal_strlit("9");
    }
    let r = if n == 0 {
        "0"
    } else if n == 1 {
        "1"
    } else if n == 2 {
        "2"
    } else if n == 3 {
        "3"
    } else if n == 4 {
        "4"
    } else if n == 5 {
        "5"
    } else if n == 6 {
        "6"
    } else if n == 7 {
        "7"
    } else if n == 8 {
        "8"
    } else {
        "9"
    };
    assert(r@ =~= seq![digit(n as nat)]);
    r
}

/// Appends the decimal notation of a number.
pub fn push_decimal(out: &mut String, n: u64)
    ensures
        final(out)@ == old(out)@ + decimal(n as nat),
    decreases n,
{
    if n >= 10 {
        push_decimal(out, n / 10);
    }
    out.append(digit_text(n % 10));
    assert(out@ =~= old(out)@ + decimal(n as nat));
}

/// Two texts in a row.
pub fn prefixed(prefix: &str, rest: &str) -> (r: String)
    ensures
        r@ == prefix@ + rest@,
{
    let mut out = prefix.to_owned();
    out.append(rest);
    out
}

/// Three texts in a row.
pub fn wrapped(prefix: &str, middle: &str, end: &str) -> (r: String)
    ensures
        r@ == prefix@ + middle@ + end@,
{
    let mut out = prefix.to_owned();
    out.append(middle);
    out.append(end);
    out
}

/// There is at least one piece, and at most as many as asked for.
pub proof fn lemma_pieces_len(s: Seq<char>, n: nat)
    requires
        n >= 1,
    ensures
        1 <= pieces(s, n).len() <= n,
    decreases n,
{
    if n > 1 {
        let at = first_at(s, ' ');
        lemma_pieces_len(s.skip(at + 1), (n - 1) as nat);
    }
}

/// Replaces every occurrence of `from` by `to`.
pub fn replace_all(s: &str, from: &str, to: &str) -> (r: String)
    ensures
        r@ == replaced(s@, from@, to@),
{
    let pattern = chars_of(from);
    let all = chars_of(s);
    let n: usize = all.len();
    let m: usize = pattern.len();
    let mut out = String::new();
    let mut i: usize = 0;
    if m == 0 {
        return s.to_owned();
    }
    proof {
        assert(s@.skip(0) =~= s@);
        assert(out@ + replaced(s@, from@, to@) =~= replaced(s@, from@, to@));
    }
    while n - i >= m
        invariant
            all@ == s@,
            pattern@ == from@,
            n == all@.len(),
            m == pattern@.len(),
            m > 0,
            i <= n,
            out@ + replaced(s@.skip(i as int), from@, to@) == replaced(s@, from@, to@),
        decreases n - i,
    {
        let ghost before = out@;
        let ghost rest = s@.skip(i as int);
        if matches_at(&all, i, &pattern) {
            out.append(to);
            i = i + m;
            proof {
                assert(rest.take(m as int) =~= from@);
                assert(s@.skip(i as int) =~= rest.skip(m as int));
                assert(out@ + replaced(s@.skip(i as int), from@, to@) =~= before + (to@ + replaced(
                    rest.skip(m as int),
                    from@,
                    to@,
                )));
            }
        } else {
            let one = s.substring_char(i, i + 1);
            out.append(one);
            i = i + 1;
            proof {
                assert(!has_prefix(rest, from@)) by {
                    if has_prefix(rest, from@) {
                        assert(s@.subrange(i - 1, i - 1 + m) =~= rest.take(m as int));
                    }
                }
                assert(one@ =~= seq![rest[0]]);
                assert(s@.skip(i as int) =~= rest.skip(1));
                assert(out@ + replaced(s@.skip(i as int), from@, to@) =~= before + (seq![rest[0]]
                    + replaced(rest.skip(1), from@, to@)));
            }
        }
    }
    out.append(s.substring_char(i, n));
    assert(s@.subrange(i as int, n as int) =~= s@.skip(i as int));
    out
}

fn matches_at(all: &Vec<char>, at: usize, pattern: &Vec<char>) -> (r: bool)
    requires
        at + pattern@.len() <= all@.len(),
    ensures
        r == (all@.subrange(at as int, at + pattern@.len()) == pattern@),
{
    let mut k: usize = 0;
    let total: usize = all.len();
    while k < pattern.len()
        invariant
            total == all@.len(),
            at + pattern@.len() <= all@.len(),
            k <= pattern@.len(),
            forall|j: int| 0 <= j < k ==> all@[at + j] == #[trigger] pattern@[j],
        decreases pattern@.len() - k,
    {
        if all[at + k] != pattern[k] {
            assert(all@.subrange(at as int, at + pattern@.len())[k as int] != pattern@[k as int]);
            return false;
        }
        k = k + 1;
    }
    assert(all@.subrange(at as int, at + pattern@.len()) =~= pattern@);
    true
}

/// What `String::from_utf8_lossy` makes of some bytes.
pub uninterp spec fn lossy_text(bytes: Seq<u8>) -> Seq<char>;

/// `String::from_utf8_lossy`: the text of some bytes, with replacement characters
/// in place of what is not UTF-8. Bytes that are UTF-8 give their text.
#[verifier::external_body]
pub(crate) fn text_from_lossy(bytes: &[u8]) -> (r: String)
    ensures
        r@ == lossy_text(bytes@),
        valid_utf8(bytes@) ==> r@ == decode_utf8(bytes@),
{
    String::from_utf8_lossy(bytes).into_owned()
}

/// `String::from_utf8`: the text of some bytes, if they are UTF-8.
#[verifier::external_body]
pub(crate) fn text_from_utf8(bytes: Vec<u8>) -> (r: Option<String>)
    ensures
        r is Some <==> valid_utf8(bytes@),
        r matches Some(s) ==> s@ == decode_utf8(bytes@),
{
    String::from_utf8(bytes).ok()
}

} // verus!
