//! Chunked stream production.
//!
//! `StreamCursor` is the state machine behind a chunked file stream: it
//! decides, from the bytes each read hands back, what to accumulate, when a
//! chunk is complete, and when the stream is exhausted. The cursor never
//! performs I/O itself; a driver polls the underlying source, feeds the
//! bytes in through [`StreamCursor::accept_read`], and takes finished
//! chunks out through [`StreamCursor::take_chunk`].
//!
//! [`collect_chunks`] is the reference driver over an in-memory source: it
//! produces, for a resource whose bytes are fully known, exactly the chunk
//! sequence [`stream_chunks`] describes.

use vstd::prelude::*;

use crate::window::ByteWindow;

verus! {

/// Default maximum chunk size, a practical cap for per-chunk transport
/// framing rather than a protocol requirement.
pub const MAX_CHUNK: usize = 65534;

/// The state of a chunked stream between reads.
///
/// In the unbounded mode (`window_len` is `None`) the cursor accumulates up
/// to `cap` bytes per chunk and becomes exhausted after the read that
/// returns no bytes. In the bounded mode (`window_len` is `Some(n)`) it
/// accumulates the window's `n` bytes into a single chunk, discarding any
/// excess a read hands back, and is exhausted once that chunk is taken.
pub struct StreamCursor {
    /// Bytes collected for the chunk under construction.
    pub buffer: Vec<u8>,
    /// Monotonic: once true, no further bytes are accepted or produced.
    pub end_of_stream: bool,
    /// Length of the byte window, if the stream is bounded to one.
    pub window_len: Option<u64>,
    /// Bytes accepted so far toward the window (bounded mode only).
    pub bytes_emitted: u64,
    /// Maximum chunk size (unbounded mode only).
    pub cap: usize,
}

impl StreamCursor {
    /// Well-formedness, established by the constructors and preserved by
    /// every method.
    pub open spec fn inv(self) -> bool {
        &&& self.cap > 0
        &&& match self.window_len {
            Some(n) => self.bytes_emitted <= n && n <= usize::MAX
                && self.buffer@.len() == self.bytes_emitted,
            None => self.buffer@.len() <= self.cap && self.bytes_emitted == 0,
        }
    }

    /// A cursor for an unbounded stream (whole resource), with chunks of at
    /// most `cap` bytes.
    pub fn new(cap: usize) -> (c: StreamCursor)
        requires
            cap > 0,
        ensures
            c.inv(),
            c.window_len is None,
            c.cap == cap,
            !c.end_of_stream,
            c.buffer@ == Seq::<u8>::empty(),
            c.bytes_emitted == 0,
    {
        let c = StreamCursor {
            buffer: Vec::new(),
            end_of_stream: false,
            window_len: None,
            bytes_emitted: 0,
            cap,
        };
        proof {
            assert(c.buffer@ =~= Seq::<u8>::empty());
        }
        c
    }

    /// A cursor bounded to the byte window `w`; the driver must first seek
    /// the source to `w.start`.
    pub fn with_window(cap: usize, w: ByteWindow) -> (c: StreamCursor)
        requires
            cap > 0,
            w.wf(),
            w.spec_len() <= usize::MAX,
        ensures
            c.inv(),
            c.window_len == Some((w.end - w.start) as u64),
            c.cap == cap,
            !c.end_of_stream,
            c.buffer@ == Seq::<u8>::empty(),
            c.bytes_emitted == 0,
    {
        let c = StreamCursor {
            buffer: Vec::new(),
            end_of_stream: false,
            window_len: Some(w.end - w.start),
            bytes_emitted: 0,
            cap,
        };
        proof {
            assert(c.buffer@ =~= Seq::<u8>::empty());
        }
        c
    }

    /// Once exhausted, the stream yields no further chunks; a driver must
    /// report end-of-sequence instead of polling again.
    pub fn is_exhausted(&self) -> (b: bool)
        ensures
            b == self.end_of_stream,
    {
        self.end_of_stream
    }

    /// Another read is needed before the current chunk is complete.
    pub open spec fn spec_needs_read(self) -> bool {
        !self.end_of_stream && match self.window_len {
            Some(n) => self.bytes_emitted < n,
            None => self.buffer@.len() < self.cap,
        }
    }

    /// Another read is needed before the current chunk is complete.
    pub fn needs_read(&self) -> (b: bool)
        requires
            self.inv(),
        ensures
            b == self.spec_needs_read(),
    {
        if self.end_of_stream {
            return false;
        }
        match self.window_len {
            Some(n) => self.bytes_emitted < n,
            None => self.buffer.len() < self.cap,
        }
    }

    /// How many bytes the next read should request.
    pub open spec fn spec_read_limit(self) -> int {
        match self.window_len {
            Some(n) => n - self.bytes_emitted,
            None => self.cap - self.buffer@.len(),
        }
    }

    /// How many bytes the next read should request.
    pub fn read_limit(&self) -> (n: usize)
        requires
            self.inv(),
        ensures
            n == self.spec_read_limit(),
    {
        match self.window_len {
            Some(n) => (n - self.bytes_emitted) as usize,
            None => self.cap - self.buffer.len(),
        }
    }

    /// Feeds in the bytes one read returned; an empty `data` means the
    /// source reported end-of-file.
    ///
    /// Bounded mode accepts at most the window's remaining bytes and
    /// discards the excess; it reaches end-of-stream on an empty read or on
    /// filling the window. Unbounded mode (which must not be handed more
    /// than [`Self::spec_read_limit`] bytes) accepts everything and reaches
    /// end-of-stream only on an empty read.
    pub fn accept_read(&mut self, data: &Vec<u8>)
        requires
            old(self).inv(),
            old(self).spec_needs_read(),
            old(self).window_len is None ==> data@.len() <= old(self).spec_read_limit(),
        ensures
            final(self).inv(),
            final(self).cap == old(self).cap,
            final(self).window_len == old(self).window_len,
            match old(self).window_len {
                Some(n) => {
                    let t = if data@.len() <= n - old(self).bytes_emitted {
                        data@.len() as int
                    } else {
                        n - old(self).bytes_emitted
                    };
                    &&& final(self).buffer@ == old(self).buffer@ + data@.take(t)
                    &&& final(self).bytes_emitted == old(self).bytes_emitted + t
                    &&& final(self).end_of_stream
                        == (data@.len() == 0 || old(self).bytes_emitted + t == n)
                },
                None => {
                    &&& final(self).buffer@ == old(self).buffer@ + data@
                    &&& final(self).bytes_emitted == 0
                    &&& final(self).end_of_stream == (data@.len() == 0)
                },
            },
    {
        match self.window_len {
            Some(n) => {
                let remaining: u64 = n - self.bytes_emitted;
                let t: usize = if data.len() as u64 <= remaining {
                    data.len()
                } else {
                    remaining as usize
                };
                let mut k: usize = 0;
                while k < t
                    invariant
                        k <= t <= data.len(),
                        self.buffer@ == old(self).buffer@ + data@.take(k as int),
                        self.end_of_stream == old(self).end_of_stream,
                        self.window_len == old(self).window_len,
                        self.bytes_emitted == old(self).bytes_emitted,
                        self.cap == old(self).cap,
                    decreases t - k,
                {
                    self.buffer.push(data[k]);
                    proof {
                        assert(old(self).buffer@ + data@.take(k as int + 1)
                            =~= (old(self).buffer@ + data@.take(k as int)).push(data@[k as int]));
                    }
                    k = k + 1;
                }
                self.bytes_emitted = self.bytes_emitted + t as u64;
                self.end_of_stream = data.len() == 0 || self.bytes_emitted == n;
            },
            None => {
                let mut k: usize = 0;
                while k < data.len()
                    invariant
                        k <= data.len(),
                        self.buffer@ == old(self).buffer@ + data@.take(k as int),
                        self.end_of_stream == old(self).end_of_stream,
                        self.window_len == old(self).window_len,
                        self.bytes_emitted == old(self).bytes_emitted,
                        self.cap == old(self).cap,
                    decreases data.len() - k,
                {
                    self.buffer.push(data[k]);
                    proof {
                        assert(old(self).buffer@ + data@.take(k as int + 1)
                            =~= (old(self).buffer@ + data@.take(k as int)).push(data@[k as int]));
                    }
                    k = k + 1;
                }
                proof {
                    assert(data@.take(data@.len() as int) =~= data@);
                }
                self.end_of_stream = data.len() == 0;
            },
        }
        proof {
            assert(old(self).buffer@ + data@.take(0) =~= old(self).buffer@);
        }
    }

    /// An I/O failure aborts the sequence: the driver yields the terminal
    /// error item and, this being set, no further chunks follow.
    pub fn abort(&mut self)
        requires
            old(self).inv(),
        ensures
            final(self).inv(),
            final(self).end_of_stream,
            final(self).buffer@ == old(self).buffer@,
            final(self).bytes_emitted == old(self).bytes_emitted,
            final(self).window_len == old(self).window_len,
            final(self).cap == old(self).cap,
    {
        self.end_of_stream = true;
    }

    /// Hands out the completed chunk and clears the buffer. In bounded mode
    /// the single window chunk is the last one, so the stream becomes
    /// exhausted here.
    pub fn take_chunk(&mut self) -> (chunk: Vec<u8>)
        requires
            old(self).inv(),
            !old(self).spec_needs_read(),
        ensures
            final(self).inv(),
            chunk@ == old(self).buffer@,
            final(self).buffer@ == Seq::<u8>::empty(),
            final(self).cap == old(self).cap,
            final(self).window_len == old(self).window_len,
            final(self).end_of_stream
                == (old(self).end_of_stream || old(self).window_len is Some),
    {
        let mut chunk: Vec<u8> = Vec::new();
        core::mem::swap(&mut chunk, &mut self.buffer);
        if self.window_len.is_some() {
            self.end_of_stream = true;
        }
        self.bytes_emitted = 0;
        proof {
            assert(self.buffer@ =~= Seq::<u8>::empty());
        }
        chunk
    }
}

/// The chunks an unbounded stream yields over a resource holding `content`,
/// with chunks of at most `cap` bytes: full chunks in file order, then a
/// final short chunk, which is empty exactly when the resource's length is
/// a multiple of `cap`.
pub open spec fn unbounded_chunks(content: Seq<u8>, cap: int) -> Seq<Seq<u8>>
    decreases content.len(),
{
    if cap <= 0 {
        Seq::empty()
    } else if content.len() < cap {
        seq![content]
    } else {
        seq![content.take(cap)] + unbounded_chunks(content.skip(cap), cap)
    }
}

/// The single chunk a stream bounded to window `w` yields: the window's
/// bytes, cut short where the resource itself ends short of the window.
pub open spec fn bounded_chunk(content: Seq<u8>, w: ByteWindow) -> Seq<u8> {
    let lo = if w.start <= content.len() { w.start as int } else { content.len() as int };
    let hi = if w.end <= content.len() { w.end as int } else { content.len() as int };
    if lo <= hi {
        content.subrange(lo, hi)
    } else {
        Seq::empty()
    }
}

/// The full chunk sequence a stream yields over `content`, windowed or not.
pub open spec fn stream_chunks(content: Seq<u8>, window: Option<ByteWindow>, cap: int) -> Seq<
    Seq<u8>,
> {
    match window {
        None => unbounded_chunks(content, cap),
        Some(w) => seq![bounded_chunk(content, w)],
    }
}

/// Reads up to `limit` bytes of `content` starting at `pos`: the in-memory
/// source behind the reference driver.
fn read_mem(content: &Vec<u8>, pos: usize, limit: usize) -> (data: Vec<u8>)
    requires
        pos <= content.len(),
    ensures
        data@.len() == if limit <= content@.len() - pos {
            limit as int
        } else {
            content@.len() - pos
        },
        data@ == content@.subrange(pos as int, pos + data@.len()),
{
    let m: usize = if limit <= content.len() - pos {
        limit
    } else {
        content.len() - pos
    };
    let mut data: Vec<u8> = Vec::new();
    let mut k: usize = 0;
    while k < m
        invariant
            k <= m,
            pos + m <= content.len(),
            data@ == content@.subrange(pos as int, pos + k),
        decreases m - k,
    {
        data.push(content[pos + k]);
        proof {
            assert(content@.subrange(pos as int, pos + k + 1)
                =~= content@.subrange(pos as int, pos + k as int).push(content@[pos + k]));
        }
        k = k + 1;
    }
    proof {
        assert(data@ =~= content@.subrange(pos as int, pos + data@.len()));
    }
    data
}

/// Streams a resource held in memory and collects every chunk, driving the
/// same [`StreamCursor`] state machine an asynchronous driver uses.
///
/// The result is a function of `content`, `window` and `cap` alone: two
/// independent streams over the same unchanged resource and the same window
/// yield byte-identical output.
pub fn collect_chunks(content: &Vec<u8>, window: Option<ByteWindow>, cap: usize) -> (chunks: Vec<
    Vec<u8>,
>)
    requires
        cap > 0,
        window matches Some(w) ==> w.wf() && w.spec_len() <= usize::MAX,
    ensures
        chunks@.map_values(|c: Vec<u8>| c@) == stream_chunks(content@, window, cap as int),
{
    match window {
        Some(w) => collect_chunks_window(content, w, cap),
        None => collect_chunks_unbounded(content, cap),
    }
}

/// Bounded reference driver: seeks to the window start, then accumulates
/// the window into its single chunk.
fn collect_chunks_window(content: &Vec<u8>, w: ByteWindow, cap: usize) -> (chunks: Vec<Vec<u8>>)
    requires
        cap > 0,
        w.wf(),
        w.spec_len() <= usize::MAX,
    ensures
        chunks@.map_values(|c: Vec<u8>| c@) == stream_chunks(content@, Some(w), cap as int),
{
    let ghost lo: int = if w.start <= content@.len() { w.start as int } else { content@.len() as int };
    let ghost hi: int = if w.end <= content@.len() { w.end as int } else { content@.len() as int };
    let ghost wlen: int = w.end - w.start;
    let mut cursor = StreamCursor::with_window(cap, w);
    let total: usize = content.len();
    // The driver's seek: position the source at the window start (clamped
    // to the resource's end, where a read simply returns no bytes).
    let mut pos: usize = if w.start <= total as u64 {
        w.start as usize
    } else {
        total
    };
    while cursor.needs_read()
        invariant
            cursor.inv(),
            cursor.cap == cap,
            cursor.window_len == Some((w.end - w.start) as u64),
            w.wf(),
            wlen == w.end - w.start,
            wlen <= usize::MAX,
            lo == (if w.start <= content@.len() { w.start as int } else { content@.len() as int }),
            hi == (if w.end <= content@.len() { w.end as int } else { content@.len() as int }),
            lo <= pos <= hi,
            pos <= content@.len() <= usize::MAX,
            cursor.buffer@ == content@.subrange(lo, pos as int),
            cursor.bytes_emitted == pos - lo,
            cursor.end_of_stream ==> pos == hi,
            cursor.bytes_emitted == wlen ==> pos == hi,
        decreases (if cursor.end_of_stream { 0int } else { 1int }), wlen - cursor.bytes_emitted,
    {
        let limit = cursor.read_limit();
        let data = read_mem(content, pos, limit);
        let ghost m: int = data@.len() as int;
        proof {
            // The source never hands back more than the window still needs,
            // so nothing is truncated here.
            assert(m <= wlen - cursor.bytes_emitted);
            assert(content@.subrange(lo, pos as int) + content@.subrange(pos as int, pos + m)
                =~= content@.subrange(lo, pos + m));
            assert(data@.take(m) =~= data@);
        }
        pos = pos + data.len();
        cursor.accept_read(&data);
        proof {
            if m == 0 {
                // A zero-length read means the source ended at `pos`.
                assert(pos == content@.len());
            }
            if cursor.bytes_emitted == wlen {
                assert(pos - lo == wlen);
                if w.start <= content@.len() {
                    assert(pos == w.start + wlen);
                    assert(pos == w.end);
                }
            }
        }
    }
    proof {
        assert(pos == hi);
        assert(cursor.buffer@ == content@.subrange(lo, hi));
        assert(bounded_chunk(content@, w) == content@.subrange(lo, hi));
    }
    let chunk = cursor.take_chunk();
    let mut chunks: Vec<Vec<u8>> = Vec::new();
    chunks.push(chunk);
    proof {
        assert(chunks@.map_values(|c: Vec<u8>| c@) =~= seq![bounded_chunk(content@, w)]);
    }
    chunks
}

/// Unbounded reference driver: fills and takes chunks until the source is
/// exhausted.
fn collect_chunks_unbounded(content: &Vec<u8>, cap: usize) -> (chunks: Vec<Vec<u8>>)
    requires
        cap > 0,
    ensures
        chunks@.map_values(|c: Vec<u8>| c@) == stream_chunks(content@, None, cap as int),
{
    let mut cursor = StreamCursor::new(cap);
    let total: usize = content.len();
    let mut chunks: Vec<Vec<u8>> = Vec::new();
    let mut pos: usize = 0;
    proof {
        assert(content@.len() == total);
        assert(content@.skip(0) =~= content@);
    }
    while !cursor.is_exhausted()
        invariant
            cursor.inv(),
            cursor.cap == cap,
            cap > 0,
            cursor.window_len is None,
            pos <= content@.len() <= usize::MAX,
            cursor.buffer@ == Seq::<u8>::empty(),
            cursor.bytes_emitted == 0,
            !cursor.end_of_stream ==> chunks@.map_values(|c: Vec<u8>| c@)
                + unbounded_chunks(content@.skip(pos as int), cap as int)
                == unbounded_chunks(content@, cap as int),
            cursor.end_of_stream ==> chunks@.map_values(|c: Vec<u8>| c@)
                == unbounded_chunks(content@, cap as int),
        decreases (if cursor.end_of_stream { 0int } else { 1int }), content@.len() - pos,
    {
        let ghost p0: int = pos as int;
        while cursor.needs_read()
            invariant
                cursor.inv(),
                cursor.cap == cap,
                cap > 0,
                cursor.window_len is None,
                0 <= p0 <= pos <= content@.len(),
                content@.len() <= usize::MAX,
                cursor.buffer@ == content@.subrange(p0, pos as int),
                pos - p0 == cursor.buffer@.len(),
                cursor.end_of_stream ==> pos == content@.len() && cursor.buffer@.len() < cap,
            decreases (if cursor.end_of_stream { 0int } else { 1int }),
                cap - cursor.buffer@.len(),
        {
            let limit = cursor.read_limit();
            let data = read_mem(content, pos, limit);
            let ghost m: int = data@.len() as int;
            proof {
                assert(content@.subrange(p0, pos as int) + content@.subrange(pos as int, pos + m)
                    =~= content@.subrange(p0, pos + m));
            }
            pos = pos + data.len();
            cursor.accept_read(&data);
        }
        // The chunk is complete: either it filled to `cap`, or the source
        // ended and this (possibly empty) chunk is the last.
        proof {
            assert(cursor.buffer@.len() == cap || cursor.end_of_stream);
        }
        let ghost was_eos = cursor.end_of_stream;
        let chunk = cursor.take_chunk();
        chunks.push(chunk);
        proof {
            let f = |c: Vec<u8>| c@;
            assert(chunks@.map_values(f)
                =~= chunks@.drop_last().map_values(f).push(chunk@));
            if was_eos {
                // Final short chunk: the tail of the resource, shorter than `cap`.
                assert(content@.skip(p0) =~= chunk@);
                assert(unbounded_chunks(content@.skip(p0), cap as int) =~= seq![chunk@]);
            } else {
                // Full chunk: `cap` bytes, with the rest of the resource to follow.
                assert(pos == p0 + cap);
                assert(content@.skip(p0).len() >= cap);
                assert(content@.skip(p0).take(cap as int) =~= chunk@);
                assert(content@.skip(p0).skip(cap as int) =~= content@.skip(pos as int));
                assert(unbounded_chunks(content@.skip(p0), cap as int)
                    == seq![chunk@] + unbounded_chunks(content@.skip(pos as int), cap as int));
            }
        }
    }
    chunks
}

/// Streaming through a window that fits the resource yields exactly the
/// window's bytes: one chunk of `end - start` bytes, in file order,
/// identical to reading the whole resource and slicing `[start, end)`.
pub proof fn lemma_window_yields_exact(content: Seq<u8>, w: ByteWindow, cap: int)
    requires
        w.wf(),
        w.end <= content.len(),
    ensures
        stream_chunks(content, Some(w), cap)
            == seq![content.subrange(w.start as int, w.end as int)],
        stream_chunks(content, Some(w), cap).flatten()
            == content.subrange(w.start as int, w.end as int),
        stream_chunks(content, Some(w), cap).flatten().len() == w.end - w.start,
{
    let body = content.subrange(w.start as int, w.end as int);
    assert(bounded_chunk(content, w) == body);
    assert(stream_chunks(content, Some(w), cap) =~= seq![body]);
    seq![body].lemma_flatten_one_element();
    assert(seq![body].first() == body);
}

/// With no window, the chunks of a stream concatenate back to the whole
/// resource: chunking loses, reorders and duplicates nothing.
pub proof fn lemma_unbounded_chunks_flatten(content: Seq<u8>, cap: int)
    requires
        cap > 0,
    ensures
        unbounded_chunks(content, cap).flatten() == content,
    decreases content.len(),
{
    if content.len() < cap {
        let cs = unbounded_chunks(content, cap);
        assert(cs =~= seq![content]);
        cs.lemma_flatten_one_element();
        assert(cs.first() == content);
    } else {
        lemma_unbounded_chunks_flatten(content.skip(cap), cap);
        let rest = unbounded_chunks(content.skip(cap), cap);
        let cs = seq![content.take(cap)] + rest;
        assert(unbounded_chunks(content, cap) == cs);
        assert(cs.len() > 0);
        assert(cs.first() == content.take(cap));
        assert(cs.drop_first() =~= rest);
        assert(cs.flatten() == content.take(cap) + rest.flatten());
        assert(content.take(cap) + content.skip(cap) =~= content);
    }
}

/// No chunk of an unbounded stream ever exceeds the maximum chunk size.
pub proof fn lemma_chunk_size_bound(content: Seq<u8>, cap: int)
    requires
        cap > 0,
    ensures
        forall|i: int| 0 <= i < unbounded_chunks(content, cap).len()
            ==> #[trigger] unbounded_chunks(content, cap)[i].len() <= cap,
    decreases content.len(),
{
    if content.len() >= cap {
        lemma_chunk_size_bound(content.skip(cap), cap);
        let rest = unbounded_chunks(content.skip(cap), cap);
        let cs = unbounded_chunks(content, cap);
        assert(forall|i: int| 1 <= i < cs.len() ==> cs[i] == #[trigger] rest[i - 1]);
    }
}

/// A resource of exactly two full chunks, streamed without a window,
/// produces exactly two chunks of `cap` bytes and then one final empty
/// chunk that signals end-of-file.
pub proof fn lemma_two_full_chunks(content: Seq<u8>, cap: int)
    requires
        cap > 0,
        content.len() == 2 * cap,
    ensures
        stream_chunks(content, None, cap) == seq![
            content.subrange(0, cap),
            content.subrange(cap, 2 * cap),
            Seq::<u8>::empty(),
        ],
{
    let second = content.skip(cap);
    assert(second.len() == cap);
    assert(second.skip(cap) =~= Seq::<u8>::empty());
    assert(unbounded_chunks(Seq::<u8>::empty(), cap) =~= seq![Seq::<u8>::empty()]);
    assert(second.take(cap) =~= second);
    assert(unbounded_chunks(second, cap)
        =~= seq![second] + seq![Seq::<u8>::empty()]);
    assert(content.take(cap) =~= content.subrange(0, cap));
    assert(second =~= content.subrange(cap, 2 * cap));
    assert(unbounded_chunks(content, cap)
        =~= seq![content.subrange(0, cap), content.subrange(cap, 2 * cap), Seq::<u8>::empty()]);
}

} // verus!
