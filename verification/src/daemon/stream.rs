//! Bytes of a pty put together into text.
//!
//! A character can straddle a read. Its first bytes are carried over to the
//! next one rather than turned into a replacement character.
use crate::utf8::{
    lemma_text_len_longest, lemma_text_len_of_prefix, lemma_text_len_valid, lemma_text_len_whole,
    text_len, text_of, valid_len,
};
use vstd::prelude::*;
use vstd::utf8::{
    decode_utf8, encode_utf8, encode_utf8_decode_utf8, partial_valid_partial_invalid_utf8, valid_utf8,
    valid_utf8_concat,
};

verus! {

/// The longest carry that is kept. Bytes that are no text would never drain;
/// past this they are dropped, so that one bad byte cannot wedge the stream.
pub const CARRY_LIMIT: usize = 8;

/// The bytes of the text that a read gives, and what is carried over to the
/// next one.
pub open spec fn drained(carry: Seq<u8>, bytes: Seq<u8>) -> (Seq<u8>, Seq<u8>) {
    let all = carry + bytes;
    let rest = all.skip(text_len(all));
    (
        all.take(text_len(all)),
        if rest.len() > CARRY_LIMIT {
            Seq::empty()
        } else {
            rest
        },
    )
}

/// The text that a read gives.
pub open spec fn heard_text(carry: Seq<u8>, bytes: Seq<u8>) -> Seq<char> {
    decode_utf8(drained(carry, bytes).0)
}

/// What is carried from one read of a pty to the next.
pub struct Carry {
    pub bytes: Vec<u8>,
}

impl Carry {
    pub fn new() -> (c: Self)
        ensures
            c.bytes@ == Seq::<u8>::empty(),
    {
        Carry { bytes: Vec::new() }
    }

    /// Take in what was read, and give the text that is complete.
    pub fn take_in(&mut self, read: &[u8]) -> (text: String)
        ensures
            text@ == heard_text(old(self).bytes@, read@),
            encode_utf8(text@) == drained(old(self).bytes@, read@).0,
            final(self).bytes@ == drained(old(self).bytes@, read@).1,
    {
        let mut i: usize = 0;
        while i < read.len()
            invariant
                i <= read@.len(),
                self.bytes@ == old(self).bytes@ + read@.take(i as int),
            decreases read@.len() - i,
        {
            self.bytes.push(read[i]);
            i += 1;
            assert(self.bytes@ =~= old(self).bytes@ + read@.take(i as int));
        }
        assert(read@.take(i as int) =~= read@);
        let ghost all = old(self).bytes@ + read@;
        let good = valid_len(&self.bytes);
        proof {
            lemma_text_len_valid(all);
        }
        let text = text_of(&self.bytes, good);
        proof {
            encode_utf8_decode_utf8(text@);
        }
        let n: usize = self.bytes.len();
        let mut rest: Vec<u8> = Vec::new();
        if n - good <= CARRY_LIMIT {
            let mut k: usize = good;
            while k < n
                invariant
                    good <= k <= n,
                    n == self.bytes@.len(),
                    self.bytes@ == all,
                    rest@ == all.subrange(good as int, k as int),
                decreases n - k,
            {
                rest.push(self.bytes[k]);
                k += 1;
                assert(rest@ =~= all.subrange(good as int, k as int));
            }
            assert(rest@ =~= all.skip(good as int));
        }
        self.bytes = rest;
        text
    }
}

// ---- laws -----------------------------------------------------------------------

/// All that came in with the first `n` reads.
pub open spec fn received(reads: Seq<Seq<u8>>, n: int) -> Seq<u8>
    decreases n,
{
    if n <= 0 {
        Seq::empty()
    } else {
        received(reads, n - 1) + reads[n - 1]
    }
}

/// The bytes of all the text that the first `n` reads gave, and what is carried
/// after them.
pub open spec fn streamed(reads: Seq<Seq<u8>>, n: int) -> (Seq<u8>, Seq<u8>)
    decreases n,
{
    if n <= 0 {
        (Seq::empty(), Seq::empty())
    } else {
        let (text, carry) = streamed(reads, n - 1);
        let (more, rest) = drained(carry, reads[n - 1]);
        (text + more, rest)
    }
}

/// What crosses the wire is always valid text, whatever the pty printed.
pub proof fn law_only_text_crosses(reads: Seq<Seq<u8>>, n: int)
    requires
        0 <= n <= reads.len(),
    ensures
        valid_utf8(streamed(reads, n).0),
        streamed(reads, n).1.len() <= CARRY_LIMIT,
    decreases n,
{
    if n > 0 {
        law_only_text_crosses(reads, n - 1);
        let (text, carry) = streamed(reads, n - 1);
        let all = carry + reads[n - 1];
        lemma_text_len_valid(all);
        valid_utf8_concat(text, all.take(text_len(all)));
    }
}

/// Text survives being read in pieces: while what comes in is the beginning of
/// valid text, wherever the reads end, what was given out and what is carried
/// over, one after the other, are what came in, and no more than a part of one
/// character is carried.
pub proof fn law_text_survives_the_reads(reads: Seq<Seq<u8>>, n: int, tail: Seq<u8>)
    requires
        0 <= n <= reads.len(),
        valid_utf8(received(reads, n) + tail),
    ensures
        streamed(reads, n).0 + streamed(reads, n).1 == received(reads, n),
        streamed(reads, n).1.len() <= 3,
    decreases n,
{
    if n > 0 {
        let read = reads[n - 1];
        assert(received(reads, n - 1) + (read + tail) =~= received(reads, n) + tail);
        law_text_survives_the_reads(reads, n - 1, read + tail);
        law_only_text_crosses(reads, n - 1);
        let (text, carry) = streamed(reads, n - 1);
        let all = carry + read;
        let whole = received(reads, n) + tail;
        let k = text.len() as int;
        assert(whole =~= text + (all + tail));
        assert(whole.subrange(0, k) =~= text);
        assert(whole.subrange(k, whole.len() as int) =~= all + tail);
        if !valid_utf8(all + tail) {
            partial_valid_partial_invalid_utf8(whole, k);
        }
        lemma_text_len_of_prefix(all, tail);
        lemma_text_len_valid(all);
        let good = text_len(all);
        assert(all.take(good) + all.skip(good) =~= all);
        assert((text + all.take(good)) + all.skip(good) =~= text + all);
        assert(text + all =~= (text + carry) + read);
    } else {
        assert(streamed(reads, 0).0 + streamed(reads, 0).1 =~= received(reads, 0));
    }
}

/// Once a whole text has come in, all of it was given out.
pub proof fn law_whole_text_comes_out_whole(reads: Seq<Seq<u8>>)
    requires
        valid_utf8(received(reads, reads.len() as int)),
    ensures
        streamed(reads, reads.len() as int) == (
            received(reads, reads.len() as int),
            Seq::<u8>::empty(),
        ),
{
    let n = reads.len() as int;
    let all = received(reads, n);
    assert(all + Seq::<u8>::empty() =~= all);
    law_text_survives_the_reads(reads, n, Seq::empty());
    law_only_text_crosses(reads, n);
    let (text, carry) = streamed(reads, n);
    let k = text.len() as int;
    assert(all.subrange(0, k) =~= text);
    assert(all.subrange(k, all.len() as int) =~= carry);
    if !valid_utf8(carry) {
        partial_valid_partial_invalid_utf8(all, k);
    }
    if n > 0 {
        let (before, held) = streamed(reads, n - 1);
        let joined = held + reads[n - 1];
        lemma_text_len_valid(joined);
        let good = text_len(joined);
        assert(carry =~= joined.skip(good) || carry.len() == 0);
        if carry.len() > 0 {
            valid_utf8_concat(joined.take(good), carry);
            assert(joined.take(good) + carry =~= joined);
            lemma_text_len_whole(joined);
        }
    }
    assert(carry =~= Seq::empty());
    assert(text + carry =~= text);
}

/// A read gives out all the complete text there is so far, from the first byte
/// carried on, and keeps the rest, where that is short enough to be the beginning
/// of a character; a longer rest was no text and is given up.
pub proof fn law_reads_give_out_all_they_can(carry: Seq<u8>, bytes: Seq<u8>, n: int)
    ensures
        ({
            let all = carry + bytes;
            let (text, rest) = drained(carry, bytes);
            &&& valid_utf8(text)
            &&& text.len() <= all.len()
            &&& text == all.take(text.len() as int)
            &&& all.len() - text.len() <= 8 ==> text + rest == all
            &&& all.len() - text.len() > 8 ==> rest.len() == 0
            &&& 0 <= n <= all.len() && valid_utf8(all.take(n)) ==> n <= text.len()
        }),
{
    let all = carry + bytes;
    lemma_text_len_valid(all);
    if 0 <= n <= all.len() && valid_utf8(all.take(n)) {
        lemma_text_len_longest(all, n);
    }
    let k = text_len(all);
    assert(all.take(k) + all.skip(k) =~= all);
}

} // verus!
