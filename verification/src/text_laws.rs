//! What the text operations keep of a text and what they take away.

use crate::text::{
    decimal, digit, first_at, has_prefix, is_space, lemma_first_at_bounds, lemma_pieces_len,
    pieces, replaced, trimmed, trimmed_end, trimmed_start,
};
use vstd::prelude::*;

verus! {

proof fn lemma_trimmed_start(s: Seq<char>) -> (a: int)
    ensures
        0 <= a <= s.len(),
        trimmed_start(s) == s.skip(a),
        forall|j: int| 0 <= j < a ==> is_space(#[trigger] s[j]),
        a < s.len() ==> !is_space(s[a]),
    decreases s.len(),
{
    if s.len() > 0 && is_space(s[0]) {
        let b = lemma_trimmed_start(s.skip(1));
        assert(s.skip(1).skip(b) =~= s.skip(b + 1));
        assert forall|j: int| 0 <= j < b + 1 implies is_space(#[trigger] s[j]) by {
            if j > 0 {
                assert(s.skip(1)[j - 1] == s[j]);
            }
        }
        b + 1
    } else {
        assert(s.skip(0) =~= s);
        0
    }
}

proof fn lemma_trimmed_end(s: Seq<char>) -> (b: int)
    ensures
        0 <= b <= s.len(),
        trimmed_end(s) == s.take(b),
        forall|j: int| b <= j < s.len() ==> is_space(#[trigger] s[j]),
        b > 0 ==> !is_space(s[b - 1]),
    decreases s.len(),
{
    if s.len() > 0 && is_space(s.last()) {
        let b = lemma_trimmed_end(s.drop_last());
        assert(s.drop_last().take(b) =~= s.take(b));
        assert forall|j: int| b <= j < s.len() implies is_space(#[trigger] s[j]) by {
            if j < s.len() - 1 {
                assert(s.drop_last()[j] == s[j]);
            }
        }
        b
    } else {
        assert(s.take(s.len() as int) =~= s);
        s.len() as int
    }
}

/// A text is its trimmed part with white space before and behind it, and that part
/// neither begins nor ends with white space.
pub proof fn law_trimmed_drops_white_space_only(s: Seq<char>)
    ensures
        exists|a: int, b: int|
            0 <= a <= b <= s.len() && trimmed(s) == #[trigger] s.subrange(a, b) && (forall|j: int|
                0 <= j < a || b <= j < s.len() ==> is_space(#[trigger] s[j])),
        trimmed(s).len() > 0 ==> !is_space(trimmed(s)[0]) && !is_space(trimmed(s).last()),
{
    let a = lemma_trimmed_start(s);
    let t = s.skip(a);
    let n = lemma_trimmed_end(t);
    assert(t.take(n) =~= s.subrange(a, a + n));
    assert forall|j: int| 0 <= j < a || a + n <= j < s.len() implies is_space(#[trigger] s[j]) by {
        if j >= a {
            assert(t[j - a] == s[j]);
        }
    }
    if n > 0 {
        assert(t[0] == s[a]);
        assert(trimmed(s)[0] == t[0]);
        assert(trimmed(s).last() == t[n - 1]);
    }
}

/// Trimming a text that is trimmed changes nothing.
pub proof fn law_trimming_twice_is_trimming_once(s: Seq<char>)
    ensures
        trimmed(trimmed(s)) == trimmed(s),
{
    law_trimmed_drops_white_space_only(s);
    let t = trimmed(s);
    assert(trimmed_start(t) == t);
    assert(trimmed_end(t) == t);
}

/// The pieces of a text with a blank between each two make up the text again.
/// Only the last can hold a blank, and only where there are as many as asked for.
pub proof fn law_pieces_make_up_the_text(s: Seq<char>, n: nat)
    requires
        n >= 1,
    ensures
        ({
            let p = pieces(s, n);
            &&& 1 <= p.len() <= n
            &&& s == p.drop_last().map_values(|x: Seq<char>| x + seq![' ']).flatten() + p.last()
            &&& forall|i: int| 0 <= i < p.len() - 1 ==> !(#[trigger] p[i]).contains(' ')
            &&& p.len() < n ==> !p.last().contains(' ')
        }),
    decreases n,
{
    let p = pieces(s, n);
    let f = |x: Seq<char>| x + seq![' '];
    let at = first_at(s, ' ');
    lemma_pieces_len(s, n);
    lemma_first_at_bounds(s, ' ');
    if n == 1 || at >= s.len() {
        assert(p == seq![s]);
        assert(p.drop_last().map_values(f) =~= Seq::<Seq<char>>::empty());
        assert(Seq::<Seq<char>>::empty().flatten() =~= Seq::<char>::empty());
        assert(s =~= Seq::<char>::empty() + s);
    } else {
        let rest = s.skip(at + 1);
        let q = pieces(rest, (n - 1) as nat);
        law_pieces_make_up_the_text(rest, (n - 1) as nat);
        assert(p == seq![s.take(at)] + q);
        let head = p.drop_last().map_values(f);
        assert(head.drop_first() =~= q.drop_last().map_values(f));
        assert(head.first() == s.take(at) + seq![' ']);
        assert(head.flatten() == head.first() + head.drop_first().flatten());
        assert(p.last() == q.last());
        assert(s =~= (s.take(at) + seq![' ']) + rest);
        assert(s =~= head.flatten() + p.last());
        assert forall|i: int| 0 <= i < p.len() - 1 implies !(#[trigger] p[i]).contains(' ') by {
            if i > 0 {
                assert(p[i] == q[i - 1]);
            }
        }
    }
}

/// The number that a row of decimal digits stands for.
pub open spec fn value_of(digits: Seq<char>) -> int
    decreases digits.len(),
{
    if digits.len() == 0 {
        0
    } else {
        10 * value_of(digits.drop_last()) + (digits.last() as u32 - '0' as u32)
    }
}

/// The decimal notation of a number consists of digits, stands for that number, and
/// has no leading zero unless it is one.
pub proof fn law_decimal_stands_for_its_number(n: nat)
    ensures
        value_of(decimal(n)) == n,
        forall|i: int| 0 <= i < decimal(n).len() ==> '0' <= #[trigger] decimal(n)[i] <= '9',
        decimal(n).len() >= 1,
        decimal(n)[0] == '0' ==> n == 0 && decimal(n).len() == 1,
    decreases n,
{
    let d = decimal(n);
    reveal_with_fuel(value_of, 2);
    if n >= 10 {
        law_decimal_stands_for_its_number(n / 10);
        assert(d.drop_last() =~= decimal(n / 10));
        assert(d.last() == digit(n % 10));
        assert(d[0] == decimal(n / 10)[0]);
        assert forall|i: int| 0 <= i < d.len() implies '0' <= #[trigger] d[i] <= '9' by {
            if i < d.len() - 1 {
                assert(d[i] == decimal(n / 10)[i]);
            }
        }
    } else {
        assert(d.drop_last() =~= Seq::<char>::empty());
    }
}

/// Some parts with a text between each two.
pub open spec fn joined_by(parts: Seq<Seq<char>>, between: Seq<char>) -> Seq<char> {
    parts.drop_last().map_values(|x: Seq<char>| x + between).flatten() + parts.last()
}

proof fn lemma_joined_prepend(first: Seq<char>, parts: Seq<Seq<char>>, between: Seq<char>)
    requires
        parts.len() >= 1,
    ensures
        joined_by(seq![first] + parts, between) == first + between + joined_by(parts, between),
{
    let f = |x: Seq<char>| x + between;
    let all = seq![first] + parts;
    let head = all.drop_last().map_values(f);
    assert(head.drop_first() =~= parts.drop_last().map_values(f));
    assert(head.first() == first + between);
    assert(head.flatten() == head.first() + head.drop_first().flatten());
    assert(all.last() == parts.last());
    assert(joined_by(all, between) =~= first + between + joined_by(parts, between));
}

proof fn lemma_joined_extend(c: char, parts: Seq<Seq<char>>, between: Seq<char>)
    requires
        parts.len() >= 1,
    ensures
        joined_by(seq![seq![c] + parts[0]] + parts.skip(1), between) == seq![c] + joined_by(
            parts,
            between,
        ),
{
    let f = |x: Seq<char>| x + between;
    let rest = parts.skip(1);
    if rest.len() == 0 {
        let none = Seq::<Seq<char>>::empty();
        assert(none.flatten() =~= Seq::<char>::empty());
        let all = seq![seq![c] + parts[0]] + rest;
        assert(all.drop_last().map_values(f) =~= none);
        assert(parts.drop_last().map_values(f) =~= none);
        assert(joined_by(all, between) =~= seq![c] + joined_by(parts, between));
    } else {
        lemma_joined_prepend(seq![c] + parts[0], rest, between);
        lemma_joined_prepend(parts[0], rest, between);
        assert(seq![parts[0]] + rest =~= parts);
        assert((seq![c] + parts[0]) + between + joined_by(rest, between) =~= seq![c] + (parts[0]
            + between + joined_by(rest, between)));
    }
}

proof fn lemma_replaced_parts(s: Seq<char>, from: Seq<char>, to: Seq<char>) -> (parts: Seq<
    Seq<char>,
>)
    requires
        from.len() >= 1,
    ensures
        parts.len() >= 1,
        s == joined_by(parts, from),
        replaced(s, from, to) == joined_by(parts, to),
        parts.len() == 1 ==> parts[0] == s && forall|k: int|
            0 <= k <= s.len() - from.len() ==> #[trigger] s.subrange(k, k + from.len()) != from,
        parts.len() > 1 ==> forall|k: int|
            0 <= k < parts[0].len() ==> #[trigger] s.subrange(k, k + from.len()) != from,
    decreases s.len(),
{
    let none = Seq::<Seq<char>>::empty();
    assert(none.flatten() =~= Seq::<char>::empty());
    if s.len() < from.len() {
        let parts = seq![s];
        assert(parts.drop_last().map_values(|x: Seq<char>| x + from) =~= none);
        assert(parts.drop_last().map_values(|x: Seq<char>| x + to) =~= none);
        assert(s =~= joined_by(parts, from));
        assert(s =~= joined_by(parts, to));
        parts
    } else if has_prefix(s, from) {
        let later = lemma_replaced_parts(s.skip(from.len() as int), from, to);
        let empty = Seq::<char>::empty();
        lemma_joined_prepend(empty, later, from);
        lemma_joined_prepend(empty, later, to);
        assert(s =~= empty + from + s.skip(from.len() as int));
        assert(replaced(s, from, to) =~= empty + to + replaced(
            s.skip(from.len() as int),
            from,
            to,
        ));
        seq![empty] + later
    } else {
        let tail = s.skip(1);
        let later = lemma_replaced_parts(tail, from, to);
        lemma_joined_extend(s[0], later, from);
        lemma_joined_extend(s[0], later, to);
        assert(s =~= seq![s[0]] + tail);
        let parts = seq![seq![s[0]] + later[0]] + later.skip(1);
        let until = if parts.len() == 1 {
            s.len() - from.len() + 1
        } else {
            parts[0].len() as int
        };
        assert forall|k: int| 0 <= k < until implies #[trigger] s.subrange(k, k + from.len())
            != from by {
            if k == 0 {
                assert(s.subrange(0, from.len() as int) =~= s.take(from.len() as int));
            } else {
                assert(s.subrange(k, k + from.len()) =~= tail.subrange(k - 1, k - 1 + from.len()));
            }
        }
        parts
    }
}

/// Replacing cuts a text at occurrences of one text and puts another in their
/// places: what stands between them stays. Nothing that is left before the first
/// of them, or in a text without one, is an occurrence.
pub proof fn law_replacing_keeps_what_stands_between(s: Seq<char>, from: Seq<char>, to: Seq<char>)
    requires
        from.len() >= 1,
    ensures
        exists|parts: Seq<Seq<char>>|
            {
                &&& parts.len() >= 1
                &&& s == #[trigger] joined_by(parts, from)
                &&& replaced(s, from, to) == joined_by(parts, to)
                &&& forall|k: int|
                    0 <= k <= s.len() - from.len() && (parts.len() > 1 ==> k < parts[0].len()) ==>
                    #[trigger] s.subrange(k, k + from.len()) != from
            },
{
    let parts = lemma_replaced_parts(s, from, to);
    assert(s == joined_by(parts, from));
}

/// After the first occurrence of a text, replacing goes on with what stands behind
/// it.
pub proof fn law_replacing_goes_on_behind_an_occurrence(
    before: Seq<char>,
    from: Seq<char>,
    to: Seq<char>,
    behind: Seq<char>,
)
    requires
        from.len() >= 1,
        forall|k: int|
            0 <= k < before.len() ==> #[trigger] (before + from + behind).subrange(
                k,
                k + from.len(),
            ) != from,
    ensures
        replaced(before + from + behind, from, to) == before + to + replaced(behind, from, to),
    decreases before.len(),
{
    let s = before + from + behind;
    if before.len() == 0 {
        assert(s.take(from.len() as int) =~= from);
        assert(s.skip(from.len() as int) =~= behind);
        assert(before + to + replaced(behind, from, to) =~= to + replaced(behind, from, to));
    } else {
        let fewer = before.skip(1);
        let tail = fewer + from + behind;
        assert(s.skip(1) =~= tail);
        assert(!has_prefix(s, from)) by {
            assert(s.subrange(0, 0int + from.len()) =~= s.take(from.len() as int));
        }
        assert forall|k: int| 0 <= k < fewer.len() implies #[trigger] tail.subrange(
            k,
            k + from.len(),
        ) != from by {
            assert(tail.subrange(k, k + from.len()) =~= s.subrange(k + 1, k + 1 + from.len()));
        }
        law_replacing_goes_on_behind_an_occurrence(fewer, from, to, behind);
        assert(seq![s[0]] + (fewer + to + replaced(behind, from, to)) =~= before + to + replaced(
            behind,
            from,
            to,
        ));
    }
}

/// A text begins with another if and only if it is that text with something behind it.
pub proof fn law_prefix_is_what_stands_first(s: Seq<char>, prefix: Seq<char>, rest: Seq<char>)
    ensures
        has_prefix(prefix + rest, prefix),
        has_prefix(s, prefix) <==> s == prefix + s.skip(prefix.len() as int),
{
    assert((prefix + rest).take(prefix.len() as int) =~= prefix);
    if has_prefix(s, prefix) {
        assert(s =~= s.take(prefix.len() as int) + s.skip(prefix.len() as int));
    }
    if s == prefix + s.skip(prefix.len() as int) {
        assert(s.take(prefix.len() as int) =~= prefix);
    }
}

} // verus!
