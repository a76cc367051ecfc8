//! Lines out of a stream of bytes that arrives in arbitrary chunks.

use vstd::prelude::*;
use vstd::slice::*;

verus! {

/// The byte that ends a line.
pub const NEWLINE: u8 = 10;

/// Where the first line ends, or the number of bytes if none does.
pub open spec fn line_end(bytes: Seq<u8>) -> int
    decreases bytes.len(),
{
    if bytes.len() == 0 || bytes[0] == NEWLINE {
        0
    } else {
        1 + line_end(bytes.skip(1))
    }
}

/// Whether there is a complete line.
pub open spec fn has_line(bytes: Seq<u8>) -> bool {
    line_end(bytes) < bytes.len()
}

proof fn lemma_line_end(bytes: Seq<u8>)
    ensures
        0 <= line_end(bytes) <= bytes.len(),
        line_end(bytes) < bytes.len() ==> bytes[line_end(bytes)] == NEWLINE,
        forall|j: int| 0 <= j < line_end(bytes) ==> #[trigger] bytes[j] != NEWLINE,
    decreases bytes.len(),
{
    if bytes.len() > 0 && bytes[0] != NEWLINE {
        lemma_line_end(bytes.skip(1));
        assert forall|j: int| 0 <= j < line_end(bytes) implies #[trigger] bytes[j] != NEWLINE by {
            if j > 0 {
                assert(bytes.skip(1)[j - 1] == bytes[j]);
            }
        }
    }
}

proof fn lemma_line_end_is(bytes: Seq<u8>, at: int)
    requires
        0 <= at <= bytes.len(),
        at < bytes.len() ==> bytes[at] == NEWLINE,
        forall|j: int| 0 <= j < at ==> #[trigger] bytes[j] != NEWLINE,
    ensures
        line_end(bytes) == at,
{
    lemma_line_end(bytes);
    if line_end(bytes) < at {
        assert(bytes[line_end(bytes)] != NEWLINE);
    }
    if line_end(bytes) > at {
        assert(bytes[at] != NEWLINE);
    }
}

/// The complete lines, without the bytes that end them.
pub open spec fn lines(bytes: Seq<u8>) -> Seq<Seq<u8>>
    decreases bytes.len(),
    via lines_decreases
{
    if has_line(bytes) {
        seq![bytes.take(line_end(bytes))] + lines(bytes.skip(line_end(bytes) + 1))
    } else {
        Seq::empty()
    }
}

#[via_fn]
proof fn lines_decreases(bytes: Seq<u8>) {
    lemma_line_end(bytes);
}

/// What is left behind the complete lines.
pub open spec fn unfinished(bytes: Seq<u8>) -> Seq<u8>
    decreases bytes.len(),
    via unfinished_decreases
{
    if has_line(bytes) {
        unfinished(bytes.skip(line_end(bytes) + 1))
    } else {
        bytes
    }
}

#[via_fn]
proof fn unfinished_decreases(bytes: Seq<u8>) {
    lemma_line_end(bytes);
}

/// Bytes that were received and not yet handed out as lines.
pub struct LineBuffer {
    bytes: Vec<u8>,
}

impl View for LineBuffer {
    type V = Seq<u8>;

    closed spec fn view(&self) -> Seq<u8> {
        self.bytes@
    }
}

impl LineBuffer {
    /// Nothing was received.
    pub fn new() -> (r: Self)
        ensures
            r@ == Seq::<u8>::empty(),
    {
        LineBuffer { bytes: Vec::new() }
    }

    /// Takes in what was received.
    pub fn push(&mut self, chunk: &[u8])
        ensures
            final(self)@ == old(self)@ + chunk@,
    {
        self.bytes.extend_from_slice(chunk);
        assert(self@ =~= old(self)@ + chunk@);
    }

    /// Hands out the first complete line, if there is one.
    pub fn next_line(&mut self) -> (r: Option<Vec<u8>>)
        ensures
            r is Some <==> has_line(old(self)@),
            match r {
                Some(line) => {
                    &&& line@ == old(self)@.take(line_end(old(self)@))
                    &&& final(self)@ == old(self)@.skip(line_end(old(self)@) + 1)
                },
                None => final(self)@ == old(self)@,
            },
    {
        let n: usize = self.bytes.len();
        let mut at: usize = 0;
        while at < n && self.bytes[at] != NEWLINE
            invariant
                n == self.bytes@.len(),
                at <= n,
                self.bytes@ == old(self).bytes@,
                forall|j: int| 0 <= j < at ==> #[trigger] self.bytes@[j] != NEWLINE,
            decreases n - at,
        {
            at = at + 1;
        }
        proof {
            lemma_line_end_is(self.bytes@, at as int);
        }
        if at >= n {
            return None;
        }
        let line = slice_to_vec(slice_subrange(self.bytes.as_slice(), 0, at));
        let rest = slice_to_vec(slice_subrange(self.bytes.as_slice(), at + 1, n));
        self.bytes = rest;
        proof {
            assert(line@ =~= old(self)@.take(at as int));
            assert(self@ =~= old(self)@.skip(at + 1));
        }
        Some(line)
    }
}

/// How the bytes are cut into chunks makes no difference: the lines of all bytes
/// are those of the first chunk, then those of what it left with the second.
pub proof fn law_chunks_do_not_matter(a: Seq<u8>, b: Seq<u8>)
    ensures
        lines(a + b) == lines(a) + lines(unfinished(a) + b),
        unfinished(a + b) == unfinished(unfinished(a) + b),
    decreases a.len(),
{
    lemma_line_end(a);
    if has_line(a) {
        let at = line_end(a);
        let rest = a.skip(at + 1);
        assert forall|j: int| 0 <= j < at implies #[trigger] (a + b)[j] != NEWLINE by {
            assert((a + b)[j] == a[j]);
        }
        lemma_line_end_is(a + b, at);
        assert((a + b).take(at) =~= a.take(at));
        assert((a + b).skip(at + 1) =~= rest + b);
        law_chunks_do_not_matter(rest, b);
        assert(lines(a + b) =~= lines(a) + lines(unfinished(a) + b));
    } else {
        assert(lines(a) + lines(a + b) =~= lines(a + b));
    }
}

/// No line holds the byte that ends lines, and nothing is lost: every line with
/// its end, and what is left, make up the bytes.
pub proof fn law_first_line_is_complete(bytes: Seq<u8>)
    requires
        has_line(bytes),
    ensures
        !bytes.take(line_end(bytes)).contains(NEWLINE),
        bytes == bytes.take(line_end(bytes)).push(NEWLINE) + bytes.skip(line_end(bytes) + 1),
{
    lemma_line_end(bytes);
    let at = line_end(bytes);
    assert(bytes =~= bytes.take(at).push(NEWLINE) + bytes.skip(at + 1));
}

/// The lines of some bytes, each with the byte that ends it, and what is left make up
/// the bytes; no line holds that byte, and neither does what is left.
pub proof fn law_lines_make_up_the_bytes(bytes: Seq<u8>)
    ensures
        bytes == lines(bytes).map_values(|line: Seq<u8>| line.push(10)).flatten() + unfinished(
            bytes,
        ),
        forall|i: int| 0 <= i < lines(bytes).len() ==> !(#[trigger] lines(bytes)[i]).contains(10u8),
        !unfinished(bytes).contains(10u8),
    decreases bytes.len(),
{
    lemma_line_end(bytes);
    let f = |line: Seq<u8>| line.push(10);
    if has_line(bytes) {
        let at = line_end(bytes);
        let rest = bytes.skip(at + 1);
        law_lines_make_up_the_bytes(rest);
        law_first_line_is_complete(bytes);
        let all = lines(bytes);
        let ended = all.map_values(f);
        assert(all == seq![bytes.take(at)] + lines(rest));
        assert(ended.drop_first() =~= lines(rest).map_values(f));
        assert(ended.first() == bytes.take(at).push(10));
        assert(ended.flatten() == ended.first() + ended.drop_first().flatten());
        assert(bytes =~= ended.flatten() + unfinished(bytes));
        assert forall|i: int| 0 <= i < all.len() implies !(#[trigger] all[i]).contains(10u8) by {
            if i > 0 {
                assert(all[i] == lines(rest)[i - 1]);
            }
        }
    } else {
        assert(lines(bytes).map_values(f) =~= Seq::<Seq<u8>>::empty());
        assert(Seq::<Seq<u8>>::empty().flatten() =~= Seq::<u8>::empty());
        assert(bytes =~= Seq::<u8>::empty() + bytes);
    }
}

} // verus!
