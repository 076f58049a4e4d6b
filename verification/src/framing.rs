//! Line-delimited framing: one message is every byte up to and including
//! the first newline, however the bytes were split on their way in.

use vstd::prelude::*;

verus! {

/// The byte that ends a line.
pub const NEWLINE: u8 = 0x0A;

/// True when some byte of `bytes` is a newline.
pub open spec fn has_newline(bytes: Seq<u8>) -> bool {
    exists|i: int| 0 <= i < bytes.len() && bytes[i] == NEWLINE
}

/// True when the first newline of `bytes` stands at index `i`.
pub open spec fn first_newline_at(bytes: Seq<u8>, i: int) -> bool {
    &&& 0 <= i < bytes.len()
    &&& bytes[i] == NEWLINE
    &&& forall|j: int| 0 <= j < i ==> bytes[j] != NEWLINE
}

/// The first line of `bytes`, newline included, or `None` while no newline
/// has arrived.
pub open spec fn first_line(bytes: Seq<u8>) -> Option<Seq<u8>> {
    if has_newline(bytes) {
        Some(bytes.take((choose|i: int| first_newline_at(bytes, i)) + 1))
    } else {
        None
    }
}

/// What a receiver holds after some bytes: an unfinished line, or the
/// finished one.
pub enum Framed {
    /// No newline yet; these bytes wait for more.
    Partial(Seq<u8>),
    /// The line, newline included. Bytes behind it are not kept.
    Line(Seq<u8>),
}

/// The effect of receiving `chunk` while `pending` waits.
pub open spec fn feed(pending: Seq<u8>, chunk: Seq<u8>) -> Framed {
    match first_line(pending + chunk) {
        Some(line) => Framed::Line(line),
        None => Framed::Partial(pending + chunk),
    }
}

/// The effect of receiving `chunks` one after the other, stopping at the
/// chunk that completes the line.
pub open spec fn feed_all(pending: Seq<u8>, chunks: Seq<Seq<u8>>) -> Framed
    decreases chunks.len(),
{
    if chunks.len() == 0 {
        Framed::Partial(pending)
    } else {
        match feed(pending, chunks[0]) {
            Framed::Line(line) => Framed::Line(line),
            Framed::Partial(rest) => feed_all(rest, chunks.skip(1)),
        }
    }
}

/// A sequence with a newline has a first one.
pub proof fn lemma_first_newline_exists(bytes: Seq<u8>, k: int)
    requires
        0 <= k < bytes.len(),
        bytes[k] == NEWLINE,
    ensures
        exists|i: int| first_newline_at(bytes, i) && i <= k,
    decreases k,
{
    if forall|j: int| 0 <= j < k ==> bytes[j] != NEWLINE {
        assert(first_newline_at(bytes, k));
    } else {
        let j = choose|j: int| 0 <= j < k && bytes[j] == NEWLINE;
        lemma_first_newline_exists(bytes, j);
    }
}

/// Where the first newline stands decides the first line.
pub proof fn lemma_first_line_at(bytes: Seq<u8>, i: int)
    requires
        first_newline_at(bytes, i),
    ensures
        first_line(bytes) == Some(bytes.take(i + 1)),
{
    let c = choose|c: int| first_newline_at(bytes, c);
    assert(first_newline_at(bytes, c));
    if c < i {
        assert(bytes[c] != NEWLINE);
    } else if i < c {
        assert(bytes[i] != NEWLINE);
    }
}

/// Bytes that arrive behind a finished line do not change it.
pub proof fn lemma_first_line_of_prefix(head: Seq<u8>, tail: Seq<u8>)
    requires
        has_newline(head),
    ensures
        first_line(head + tail) == first_line(head),
{
    let k = choose|k: int| 0 <= k < head.len() && head[k] == NEWLINE;
    lemma_first_newline_exists(head, k);
    let i = choose|i: int| first_newline_at(head, i) && i <= k;
    lemma_first_line_at(head, i);
    let all = head + tail;
    assert(first_newline_at(all, i)) by {
        assert(all[i] == head[i]);
        assert forall|j: int| 0 <= j < i implies all[j] != NEWLINE by {
            assert(all[j] == head[j]);
        }
    }
    lemma_first_line_at(all, i);
    assert(all.take(i + 1) =~= head.take(i + 1));
}

/// Splitting a stream into chunks is invisible: receiving the chunks one by
/// one gives the line, or the unfinished bytes, that receiving them joined
/// into one chunk gives.
pub proof fn lemma_chunking_is_invisible(pending: Seq<u8>, chunks: Seq<Seq<u8>>)
    requires
        !has_newline(pending),
    ensures
        feed_all(pending, chunks) == feed(pending, chunks.flatten()),
    decreases chunks.len(),
{
    if chunks.len() == 0 {
        assert(chunks.flatten() =~= Seq::<u8>::empty());
        assert(pending + Seq::<u8>::empty() =~= pending);
    } else {
        let head = chunks[0];
        let rest = chunks.skip(1);
        assert(chunks.flatten() =~= head + rest.flatten()) by {
            assert(chunks.first() == head);
            assert(chunks.drop_first() =~= rest);
        }
        assert(pending + chunks.flatten() =~= (pending + head) + rest.flatten());
        if has_newline(pending + head) {
            lemma_first_line_of_prefix(pending + head, rest.flatten());
        } else {
            lemma_chunking_is_invisible(pending + head, rest);
        }
    }
}

/// The index of the first newline of `chunk`, if it has one.
pub fn find_newline(chunk: &[u8]) -> (at: Option<usize>)
    ensures
        match at {
            Some(i) => first_newline_at(chunk@, i as int),
            None => !has_newline(chunk@),
        },
{
    let mut i: usize = 0;
    while i < chunk.len()
        invariant
            i <= chunk.len(),
            forall|j: int| 0 <= j < i ==> chunk@[j] != NEWLINE,
        decreases chunk.len() - i,
    {
        if chunk[i] == NEWLINE {
            return Some(i);
        }
        i += 1;
    }
    None
}

fn append_prefix(dst: &mut Vec<u8>, src: &[u8], n: usize)
    requires
        n <= src@.len(),
    ensures
        final(dst)@ == old(dst)@ + src@.take(n as int),
{
    let mut i: usize = 0;
    while i < n
        invariant
            i <= n <= src@.len(),
            dst@ == old(dst)@ + src@.take(i as int),
        decreases n - i,
    {
        dst.push(src[i]);
        i += 1;
        assert(dst@ =~= old(dst)@ + src@.take(i as int));
    }
}

/// The bytes of a line that is still arriving.
#[derive(Debug)]
pub struct LineBuffer {
    bytes: Vec<u8>,
}

impl View for LineBuffer {
    type V = Seq<u8>;

    closed spec fn view(&self) -> Seq<u8> {
        self.bytes@
    }
}

impl LineBuffer {
    /// Holds of every buffer: the bytes that wait hold no newline.
    #[verifier::type_invariant]
    pub closed spec fn no_newline_waits(&self) -> bool {
        !has_newline(self.bytes@)
    }

    /// What `no_newline_waits` says of the buffer's view.
    pub proof fn lemma_no_newline_waits(self)
        requires
            self.no_newline_waits(),
        ensures
            !has_newline(self@),
    {
    }

    /// An empty buffer.
    pub fn new() -> (buffer: LineBuffer)
        ensures
            buffer@ == Seq::<u8>::empty(),
    {
        LineBuffer { bytes: Vec::new() }
    }

    /// Takes in the bytes that arrived. Returns the line once its newline is
    /// among them, and then waits with nothing; until then keeps every byte.
    pub fn push(&mut self, chunk: &[u8]) -> (line: Option<Vec<u8>>)
        ensures
            match line {
                Some(l) => feed(old(self)@, chunk@) == Framed::Line(l@) && final(self)@
                    == Seq::<u8>::empty(),
                None => feed(old(self)@, chunk@) == Framed::Partial(final(self)@),
            },
    {
        proof {
            use_type_invariant(&*self);
        }
        let ghost before = self.bytes@;
        let ghost all = before + chunk@;
        let mut line: Vec<u8> = Vec::new();
        core::mem::swap(&mut self.bytes, &mut line);
        let n = chunk.len();
        match find_newline(chunk) {
            Some(i) => {
                assert(i < n);
                append_prefix(&mut line, chunk, i + 1);
                proof {
                    let at = before.len() + i;
                    assert(first_newline_at(all, at)) by {
                        assert(all[at] == chunk@[i as int]);
                        assert forall|j: int| 0 <= j < at implies all[j] != NEWLINE by {
                            if j < before.len() {
                                assert(all[j] == before[j]);
                            } else {
                                assert(all[j] == chunk@[j - before.len()]);
                            }
                        }
                    }
                    lemma_first_line_at(all, at);
                    assert(line@ =~= all.take(at + 1));
                }
                Some(line)
            },
            None => {
                append_prefix(&mut line, chunk, n);
                proof {
                    assert(chunk@.take(chunk@.len() as int) =~= chunk@);
                    assert(!has_newline(all)) by {
                        if has_newline(all) {
                            let k = choose|k: int| 0 <= k < all.len() && all[k] == NEWLINE;
                            if k < before.len() {
                                assert(before[k] == NEWLINE);
                            } else {
                                assert(chunk@[k - before.len()] == NEWLINE);
                            }
                        }
                    }
                }
                self.bytes = line;
                None
            },
        }
    }
}

} // verus!
