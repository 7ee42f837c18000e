//! What a terminal printed, kept for a client that attaches later.
//!
//! Kept in numbered chunks, so that a client can ask for what came after the
//! last one it has. When there is too much, the oldest goes first.
use crate::utf8::byte_len;
use std::collections::VecDeque;
use vstd::prelude::*;
use vstd::utf8::encode_utf8;

verus! {

/// One piece of output, and where it falls in the stream.
pub struct Chunk {
    pub seq: u64,
    pub text: String,
}

/// A [`Chunk`] with its text as characters.
#[verifier::ext_equal]
pub struct ChunkModel {
    pub seq: u64,
    pub text: Seq<char>,
}

impl View for Chunk {
    type V = ChunkModel;

    open spec fn view(&self) -> ChunkModel {
        ChunkModel { seq: self.seq, text: self.text@ }
    }
}

pub open spec fn chunks_of(v: Seq<Chunk>) -> Seq<ChunkModel> {
    Seq::new(v.len(), |i: int| v[i]@)
}

/// How many bytes the chunks take together.
pub open spec fn weight(chunks: Seq<ChunkModel>) -> nat
    decreases chunks.len(),
{
    if chunks.len() == 0 {
        0
    } else {
        encode_utf8(chunks[0].text).len() + weight(chunks.skip(1))
    }
}

/// The chunks without the oldest ones, as many as it takes to stay within the
/// limit.
pub open spec fn within(chunks: Seq<ChunkModel>, limit: int) -> Seq<ChunkModel>
    decreases chunks.len(),
{
    if chunks.len() > 0 && weight(chunks) > limit {
        within(chunks.skip(1), limit)
    } else {
        chunks
    }
}

/// The text of the chunks after `from`, joined.
pub open spec fn text_after(chunks: Seq<ChunkModel>, from: u64) -> Seq<char>
    decreases chunks.len(),
{
    if chunks.len() == 0 {
        Seq::empty()
    } else if chunks[0].seq > from {
        chunks[0].text + text_after(chunks.skip(1), from)
    } else {
        text_after(chunks.skip(1), from)
    }
}

/// A [`Backlog`] as mathematics.
#[verifier::ext_equal]
pub struct BacklogModel {
    pub limit: int,
    pub chunks: Seq<ChunkModel>,
    pub last_seq: u64,
}

impl BacklogModel {
    /// The chunks are numbered one after the other, up to the last, and stay
    /// within the limit.
    pub open spec fn wf(self) -> bool {
        &&& self.limit >= 0
        &&& weight(self.chunks) <= self.limit
        &&& self.chunks.len() <= self.last_seq
        &&& forall|i: int|
            0 <= i < self.chunks.len() ==> (#[trigger] self.chunks[i]).seq == self.last_seq
                - self.chunks.len() + 1 + i
    }

    pub open spec fn empty(limit: int) -> BacklogModel {
        BacklogModel { limit, chunks: Seq::empty(), last_seq: 0 }
    }

    /// One more chunk, under the next number.
    pub open spec fn pushed(self, text: Seq<char>) -> BacklogModel {
        let seq = (self.last_seq + 1) as u64;
        BacklogModel {
            chunks: within(self.chunks.push(ChunkModel { seq, text }), self.limit),
            last_seq: seq,
            ..self
        }
    }

    /// All that came after `from`.
    pub open spec fn since(self, from: u64) -> Seq<char> {
        text_after(self.chunks, from)
    }
}

pub struct Backlog {
    limit: usize,
    chunks: VecDeque<Chunk>,
    bytes: usize,
    last_seq: u64,
}

impl View for Backlog {
    type V = BacklogModel;

    closed spec fn view(&self) -> BacklogModel {
        BacklogModel {
            limit: self.limit as int,
            chunks: chunks_of(self.chunks@),
            last_seq: self.last_seq,
        }
    }
}

proof fn lemma_weight_push(chunks: Seq<ChunkModel>, c: ChunkModel)
    ensures
        weight(chunks.push(c)) == weight(chunks) + encode_utf8(c.text).len(),
    decreases chunks.len(),
{
    if chunks.len() > 0 {
        assert(chunks.push(c)[0] == chunks[0]);
        assert(chunks.push(c).skip(1) =~= chunks.skip(1).push(c));
        lemma_weight_push(chunks.skip(1), c);
    } else {
        assert(chunks.push(c).skip(1).len() == 0);
        assert(weight(chunks.push(c).skip(1)) == 0);
        assert(chunks.push(c)[0] == c);
    }
}

impl Backlog {
    /// The total is right and the chunks are in order.
    pub closed spec fn wf(self) -> bool {
        self@.wf() && self.bytes == weight(self@.chunks)
    }

    /// What the invariant says of the model.
    pub proof fn lemma_wf(&self)
        requires
            self.wf(),
        ensures
            self@.wf(),
    {
    }

    /// Nothing kept yet.
    pub fn new(limit: usize) -> (b: Self)
        ensures
            b@ == BacklogModel::empty(limit as int),
            b.wf(),
    {
        let b = Backlog { limit, chunks: VecDeque::new(), bytes: 0, last_seq: 0 };
        assert(b@ =~= BacklogModel::empty(limit as int));
        b
    }

    /// The number of the last chunk.
    pub fn last_seq(&self) -> (seq: u64)
        ensures
            seq == self@.last_seq,
    {
        self.last_seq
    }

    /// The number of the oldest chunk that is still kept.
    pub fn first_seq(&self) -> (seq: Option<u64>)
        ensures
            seq == (if self@.chunks.len() > 0 {
                Some(self@.chunks[0].seq)
            } else {
                None
            }),
    {
        if self.chunks.len() > 0 {
            Some(self.chunks[0].seq)
        } else {
            None
        }
    }

    /// Keep one more chunk, and give its number.
    pub fn push(&mut self, text: String) -> (seq: u64)
        requires
            old(self).wf(),
            old(self)@.last_seq < u64::MAX,
        ensures
            final(self).wf(),
            final(self)@ == old(self)@.pushed(text@),
            seq == final(self)@.last_seq,
    {
        let ghost start = self@;
        let seq: u64 = self.last_seq + 1;
        let mut total: u128 = self.bytes as u128 + byte_len(text.as_str()) as u128;
        let ghost c = ChunkModel { seq, text: text@ };
        let ghost all = start.chunks.push(c);
        proof {
            lemma_weight_push(start.chunks, c);
        }
        self.last_seq = seq;
        self.chunks.push_back(Chunk { seq, text });
        assert(self@.chunks =~= all);
        while total > self.limit as u128 && self.chunks.len() > 0
            invariant
                total == weight(self@.chunks),
                self.limit == start.limit,
                self.last_seq == seq,
                within(all, start.limit) == within(self@.chunks, start.limit),
                self@.chunks.len() <= seq,
                forall|i: int|
                    0 <= i < self@.chunks.len() ==> (#[trigger] self@.chunks[i]).seq == seq
                        - self@.chunks.len() + 1 + i,
            decreases self@.chunks.len(),
        {
            let ghost before = self@.chunks;
            match self.chunks.pop_front() {
                Some(old_chunk) => {
                    let n: usize = byte_len(old_chunk.text.as_str());
                    assert(self@.chunks =~= before.skip(1));
                    assert(before[0] == old_chunk@);
                    total = total - n as u128;
                    assert forall|i: int| 0 <= i < self@.chunks.len() implies (
                    #[trigger] self@.chunks[i]).seq == seq - self@.chunks.len() + 1 + i by {
                        assert(self@.chunks[i] == before[i + 1]);
                    }
                },
                None => {},
            }
        }
        assert(self@.chunks.len() == 0 ==> total == 0);
        self.bytes = total as usize;
        assert(self@ =~= start.pushed(text@));
        seq
    }

    /// All that came after chunk `from`, as one text.
    pub fn replay_from(&self, from: u64) -> (out: String)
        ensures
            out@ == self@.since(from),
    {
        let mut out = String::new();
        let n: usize = self.chunks.len();
        let mut i: usize = 0;
        let ghost all = self@.chunks;
        assert(all.skip(0) =~= all);
        assert(out@ + text_after(all, from) =~= text_after(all, from));
        while i < n
            invariant
                i <= n,
                n == self.chunks@.len(),
                all == self@.chunks,
                out@ + text_after(all.skip(i as int), from) == text_after(all, from),
            decreases n - i,
        {
            let ghost rest = all.skip(i as int);
            assert(rest.skip(1) =~= all.skip(i + 1));
            assert(rest[0] == self.chunks@[i as int]@);
            if self.chunks[i].seq > from {
                let ghost before = out@;
                out.push_str(self.chunks[i].text.as_str());
                assert(before + (rest[0].text + text_after(rest.skip(1), from)) =~= out@
                    + text_after(rest.skip(1), from));
            }
            i += 1;
        }
        assert(out@ + Seq::<char>::empty() =~= out@);
        out
    }
}

// ---- laws -----------------------------------------------------------------------

/// What falls off is the oldest: what is kept is the end of what there was.
pub proof fn law_the_oldest_goes_first(chunks: Seq<ChunkModel>, limit: int)
    ensures
        within(chunks, limit).len() <= chunks.len(),
        within(chunks, limit) == chunks.skip(chunks.len() - within(chunks, limit).len()),
        limit >= 0 ==> weight(within(chunks, limit)) <= limit,
    decreases chunks.len(),
{
    if chunks.len() > 0 && weight(chunks) > limit {
        law_the_oldest_goes_first(chunks.skip(1), limit);
        let k = within(chunks, limit).len();
        assert(chunks.skip(1).skip(chunks.len() - 1 - k) =~= chunks.skip(chunks.len() - k));
    } else {
        assert(chunks.skip(0) =~= chunks);
    }
}

/// No more falls off than has to: with one chunk more it would not fit.
pub proof fn law_no_more_than_has_to_go(chunks: Seq<ChunkModel>, limit: int, k: int)
    requires
        0 <= k < chunks.len() - within(chunks, limit).len(),
    ensures
        weight(chunks.skip(k)) > limit,
    decreases chunks.len(),
{
    if k == 0 {
        assert(chunks.skip(0) =~= chunks);
    } else {
        law_the_oldest_goes_first(chunks.skip(1), limit);
        law_no_more_than_has_to_go(chunks.skip(1), limit, k - 1);
        assert(chunks.skip(1).skip(k - 1) =~= chunks.skip(k));
    }
}

proof fn lemma_text_after_push(chunks: Seq<ChunkModel>, c: ChunkModel, from: u64)
    requires
        c.seq > from,
    ensures
        text_after(chunks.push(c), from) == text_after(chunks, from) + c.text,
    decreases chunks.len(),
{
    let more = chunks.push(c);
    if chunks.len() > 0 {
        lemma_text_after_push(chunks.skip(1), c, from);
        assert(more.skip(1) =~= chunks.skip(1).push(c));
        assert(more[0] == chunks[0]);
        assert(text_after(more, from) =~= text_after(chunks, from) + c.text);
    } else {
        assert(more.skip(1) =~= Seq::<ChunkModel>::empty());
        assert(text_after(more.skip(1), from) =~= Seq::<char>::empty());
        assert(text_after(more, from) =~= c.text);
        assert(text_after(chunks, from) + c.text =~= c.text);
    }
}

/// While there is room, a replay from some chunk on gives what it gave before,
/// and then the new chunk.
pub proof fn law_replay_goes_on_where_it_was(b: BacklogModel, text: Seq<char>, from: u64)
    requires
        b.wf(),
        b.last_seq < u64::MAX,
        from <= b.last_seq,
        weight(b.chunks) + encode_utf8(text).len() <= b.limit,
    ensures
        b.pushed(text).since(from) == b.since(from) + text,
{
    let c = ChunkModel { seq: (b.last_seq + 1) as u64, text };
    lemma_weight_push(b.chunks, c);
    lemma_text_after_push(b.chunks, c, from);
}

/// Several texts, one after the other.
pub open spec fn flattened(texts: Seq<Seq<char>>, n: int) -> Seq<char>
    decreases n,
{
    if n <= 0 {
        Seq::empty()
    } else {
        flattened(texts, n - 1) + texts[n - 1]
    }
}

/// How many bytes they take.
pub open spec fn total_bytes(texts: Seq<Seq<char>>, n: int) -> nat
    decreases n,
{
    if n <= 0 {
        0
    } else {
        total_bytes(texts, n - 1) + encode_utf8(texts[n - 1]).len()
    }
}

impl BacklogModel {
    /// Several chunks, one after the other.
    pub open spec fn pushed_all(self, texts: Seq<Seq<char>>, n: int) -> BacklogModel
        decreases n,
    {
        if n <= 0 {
            self
        } else {
            self.pushed_all(texts, n - 1).pushed(texts[n - 1])
        }
    }
}

/// A client that comes back gets exactly what was printed while it was away, in
/// order: while there is room, a replay from the last chunk it had gives all the
/// chunks since, joined.
pub proof fn law_coming_back_misses_nothing(b: BacklogModel, texts: Seq<Seq<char>>, n: int)
    requires
        b.wf(),
        0 <= n <= texts.len(),
        b.last_seq + n <= u64::MAX,
        weight(b.chunks) + total_bytes(texts, n) <= b.limit,
    ensures
        b.pushed_all(texts, n).since(b.last_seq) == flattened(texts, n),
        b.pushed_all(texts, n).last_seq == b.last_seq + n,
        b.pushed_all(texts, n).limit == b.limit,
        b.pushed_all(texts, n).wf(),
        weight(b.pushed_all(texts, n).chunks) == weight(b.chunks) + total_bytes(texts, n),
    decreases n,
{
    if n == 0 {
        law_nothing_after_the_last(b);
    } else {
        law_coming_back_misses_nothing(b, texts, n - 1);
        let before = b.pushed_all(texts, n - 1);
        let text = texts[n - 1];
        law_replay_goes_on_where_it_was(before, text, b.last_seq);
        law_a_client_gets_what_it_missed(before, text);
        lemma_weight_push(
            before.chunks,
            ChunkModel { seq: (before.last_seq + 1) as u64, text },
        );
    }
}

proof fn lemma_nothing_after(chunks: Seq<ChunkModel>, from: u64)
    requires
        forall|i: int| 0 <= i < chunks.len() ==> (#[trigger] chunks[i]).seq <= from,
    ensures
        text_after(chunks, from) == Seq::<char>::empty(),
    decreases chunks.len(),
{
    if chunks.len() > 0 {
        assert(chunks[0].seq <= from);
        assert forall|i: int| 0 <= i < chunks.skip(1).len() implies (#[trigger] chunks.skip(
            1,
        )[i]).seq <= from by {
            assert(chunks.skip(1)[i] == chunks[i + 1]);
        }
        lemma_nothing_after(chunks.skip(1), from);
    }
}

/// A client that has the last chunk has missed nothing.
pub proof fn law_nothing_after_the_last(b: BacklogModel)
    requires
        b.wf(),
    ensures
        b.since(b.last_seq) == Seq::<char>::empty(),
{
    lemma_nothing_after(b.chunks, b.last_seq);
}

/// A client that had everything, and asks again after one more chunk that fits
/// the limit, gets that chunk and nothing else, whatever fell off meanwhile.
pub proof fn law_a_client_gets_what_it_missed(b: BacklogModel, text: Seq<char>)
    requires
        b.wf(),
        b.last_seq < u64::MAX,
        encode_utf8(text).len() <= b.limit,
    ensures
        b.pushed(text).since(b.last_seq) == text,
        b.pushed(text).wf(),
{
    let c = ChunkModel { seq: (b.last_seq + 1) as u64, text };
    let all = b.chunks.push(c);
    law_the_oldest_goes_first(all, b.limit);
    let kept = within(all, b.limit);
    let k = all.len() - kept.len();
    if kept.len() == 0 {
        law_no_more_than_has_to_go(all, b.limit, all.len() - 1);
        assert(all.skip(all.len() - 1) =~= seq![c]);
        assert(seq![c].skip(1) =~= Seq::<ChunkModel>::empty());
        assert(weight(seq![c].skip(1)) == 0);
        assert(weight(seq![c]) == encode_utf8(text).len());
    }
    let older = kept.drop_last();
    assert(kept =~= older.push(c));
    assert forall|i: int| 0 <= i < older.len() implies (#[trigger] older[i]).seq <= b.last_seq by {
        assert(older[i] == b.chunks[k + i]);
    }
    lemma_nothing_after(older, b.last_seq);
    lemma_text_after_push(older, c, b.last_seq);
    assert(Seq::<char>::empty() + text =~= text);
    assert forall|i: int| 0 <= i < kept.len() implies (#[trigger] kept[i]).seq == c.seq
        - kept.len() + 1 + i by {
        assert(kept[i] == all[k + i]);
    }
}

} // verus!
