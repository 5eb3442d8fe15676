//! Cutting a Matroska stream into parts that can be uploaded with the S3 multipart API.
//!
//! The stream is collected cluster by cluster. Once the collected clusters reach the chunk
//! size they are handed out as the next part. The first part is kept back, because the
//! muxer rewrites the stream header at the very end: when the stream ends, the rewritten
//! header is put over the start of the first part, which is handed out again last.

use vstd::prelude::*;

verus! {

/// The bytes that start a new Matroska cluster.
pub open spec fn cluster_magic() -> Seq<u8> {
    seq![0x1Fu8, 0x43u8, 0xB6u8, 0x75u8]
}

/// Whether `buf` holds the start of a Matroska cluster.
pub open spec fn has_cluster_magic(buf: Seq<u8>) -> bool {
    exists|i: int| 0 <= i && i + 4 <= buf.len() && #[trigger] buf.subrange(i, i + 4) == cluster_magic()
}

/// Buffers shorter than this are searched for the start of a cluster; the headers that
/// carry the start are about a hundred bytes long, and searching large buffers would be slow.
pub const SEARCH_LIMIT: usize = 400;

/// Default size of a part in bytes.
pub const DEFAULT_CHUNK_SIZE: u64 = 5_000_000;

/// `n` zero bytes.
pub open spec fn zeros(n: nat) -> Seq<u8> {
    Seq::new(n, |i: int| 0u8)
}

/// `data` after writing `buf` at `pos`: a gap before `pos` is filled with zeros, bytes at
/// the written positions are replaced, the data grows as far as needed.
pub open spec fn written_at(data: Seq<u8>, pos: nat, buf: Seq<u8>) -> Seq<u8> {
    let padded = if pos > data.len() {
        data + zeros((pos - data.len()) as nat)
    } else {
        data
    };
    let end = pos + buf.len();
    padded.subrange(0, pos as int) + buf + if end < padded.len() {
        padded.subrange(end as int, padded.len() as int)
    } else {
        Seq::empty()
    }
}

/// A part of the stream to upload: its number and its bytes.
pub struct Part {
    /// Number of the part, counting from zero.
    pub index: u64,
    /// The bytes of the part.
    pub bytes: Vec<u8>,
}

/// Abstract part: number and bytes.
pub type PartView = (u64, Seq<u8>);

impl View for Part {
    type V = PartView;

    open spec fn view(&self) -> PartView {
        (self.index, self.bytes@)
    }
}

/// Abstract state of a [`MatroskaChunker`].
pub struct ChunkerView {
    /// A part is handed out once the collected clusters reach this many bytes.
    pub chunk_size: u64,
    /// The stream header: everything before the first cluster.
    pub header: Seq<u8>,
    /// The bytes of the cluster that is being written.
    pub buffer: Seq<u8>,
    /// Write position within `buffer`.
    pub position: u64,
    /// Number of stream bytes before `buffer`.
    pub total_bytes: u64,
    /// The first part handed out, kept to put the rewritten header over it.
    pub first_chunk: Seq<u8>,
    /// The completed clusters that are not handed out yet.
    pub current_chunk: Seq<u8>,
    /// Number of parts handed out.
    pub total_chunks: u64,
}

/// The state after a new cluster started, and the part that is handed out then, if any:
/// the finished cluster joins the collected clusters (and becomes the header if there is
/// none yet); once they reach the chunk size they are handed out as the next part.
pub open spec fn on_new_cluster(s: ChunkerView) -> (ChunkerView, Option<PartView>) {
    let total_bytes = (s.total_bytes + s.buffer.len()) as u64;
    let header = if s.header.len() == 0 { s.buffer } else { s.header };
    let chunk = s.current_chunk + s.buffer;
    let s1 = ChunkerView {
        header,
        buffer: Seq::empty(),
        position: 0,
        total_bytes,
        current_chunk: chunk,
        ..s
    };
    if chunk.len() < s.chunk_size {
        (s1, None)
    } else {
        (
            ChunkerView {
                first_chunk: if s.first_chunk.len() == 0 { chunk } else { s.first_chunk },
                current_chunk: Seq::empty(),
                total_chunks: (s.total_chunks + 1) as u64,
                ..s1
            },
            Some((s.total_chunks, chunk)),
        )
    }
}

/// The state after `buf` was written, and the part handed out meanwhile, if any.
pub open spec fn after_write(s: ChunkerView, buf: Seq<u8>) -> (ChunkerView, Option<PartView>) {
    let (s1, part) = if buf.len() < SEARCH_LIMIT && has_cluster_magic(buf) {
        on_new_cluster(s)
    } else {
        (s, None)
    };
    (
        ChunkerView {
            buffer: written_at(s1.buffer, s1.position as nat, buf),
            position: (s1.position + buf.len()) as u64,
            ..s1
        },
        part,
    )
}

/// The state after a seek to the stream offset `pos`: within the current cluster the write
/// position moves; a seek further back (to rewrite the header) sets the collected bytes
/// aside and continues on a copy of the header.
pub open spec fn after_seek(s: ChunkerView, pos: u64) -> ChunkerView {
    if pos >= s.total_bytes {
        ChunkerView { position: (pos - s.total_bytes) as u64, ..s }
    } else {
        ChunkerView {
            current_chunk: s.current_chunk + s.buffer,
            buffer: s.header,
            position: pos,
            total_bytes: 0,
            ..s
        }
    }
}

/// The state after the end of the stream and the parts handed out then: the collected
/// clusters (unless they become the first part), then the first part with the rewritten
/// header put over its start.
pub open spec fn after_finish(s: ChunkerView) -> (ChunkerView, Seq<PartView>) {
    let first = if s.first_chunk.len() == 0 { s.current_chunk } else { s.first_chunk };
    let rest = if s.first_chunk.len() == 0 { Seq::<u8>::empty() } else { s.current_chunk };
    let first_final = written_at(first, 0, s.buffer);
    let pending: Seq<PartView> = if rest.len() > 0 {
        seq![(s.total_chunks, rest)]
    } else {
        Seq::empty()
    };
    (ChunkerView { first_chunk: first_final, current_chunk: rest, ..s }, pending.push((0u64, first_final)))
}


/// The bytes of a sequence of parts, one after the other.
pub open spec fn part_bytes(parts: Seq<PartView>) -> Seq<u8>
    decreases parts.len(),
{
    if parts.len() == 0 {
        Seq::empty()
    } else {
        part_bytes(parts.drop_last()) + parts.last().1
    }
}

/// The parts handed out while writing the buffers `bufs` one after the other, and the state
/// afterwards.
pub open spec fn after_writes(s: ChunkerView, bufs: Seq<Seq<u8>>) -> (ChunkerView, Seq<PartView>)
    decreases bufs.len(),
{
    if bufs.len() == 0 {
        (s, Seq::empty())
    } else {
        let (s1, parts) = after_writes(s, bufs.drop_last());
        let (s2, part) = after_write(s1, bufs.last());
        (s2, match part {
            Some(p) => parts.push(p),
            None => parts,
        })
    }
}

/// Writing at the end of the stream loses no byte and adds none: the part handed out (if
/// any), the collected clusters and the current cluster hold the previous collected
/// clusters, the previous current cluster and the written bytes, in this order. The write
/// position stays at the end.
pub proof fn law_write_keeps_stream(s: ChunkerView, buf: Seq<u8>)
    requires
        s.position == s.buffer.len(),
        s.buffer.len() + buf.len() <= u64::MAX,
    ensures
        ({
            let (s1, part) = after_write(s, buf);
            let emitted = match part {
                Some(p) => p.1,
                None => Seq::empty(),
            };
            &&& emitted + s1.current_chunk + s1.buffer == s.current_chunk + s.buffer + buf
            &&& s1.position == s1.buffer.len()
            &&& s1.buffer.len() <= s.buffer.len() + buf.len()
        }),
{
    let (s1, part) = after_write(s, buf);
    if buf.len() < SEARCH_LIMIT && has_cluster_magic(buf) {
        let (c, p) = on_new_cluster(s);
        assert(written_at(Seq::empty(), 0, buf) =~= buf);
        if p is Some {
            assert(Seq::<u8>::empty() + (s.current_chunk + s.buffer) + Seq::<u8>::empty() + buf =~= s.current_chunk + s.buffer + buf);
        } else {
            assert(Seq::<u8>::empty() + (s.current_chunk + s.buffer) + buf =~= s.current_chunk + s.buffer + buf);
        }
    } else {
        assert(written_at(s.buffer, s.buffer.len(), buf) =~= s.buffer + buf);
        assert(Seq::<u8>::empty() + s.current_chunk + (s.buffer + buf) =~= s.current_chunk + s.buffer + buf);
    }
}

/// Parts handed out while writing are numbered one after the other, and each holds at
/// least the chunk size; the header, once found, never changes.
pub proof fn law_write_numbers_parts(s: ChunkerView, buf: Seq<u8>)
    requires
        s.total_chunks < u64::MAX,
    ensures
        ({
            let (s1, part) = after_write(s, buf);
            &&& part matches Some(p) ==> p.0 == s.total_chunks && s1.total_chunks == s.total_chunks + 1
                && p.1.len() >= s.chunk_size
            &&& part is None ==> s1.total_chunks == s.total_chunks
            &&& s.header.len() > 0 ==> s1.header == s.header
        }),
{
}

/// Writing a stream from the start at its end keeps every byte: the parts handed out,
/// the collected clusters and the current cluster are the whole stream written so far.
#[verifier::rlimit(40)]
pub proof fn law_writes_keep_stream(s: ChunkerView, bufs: Seq<Seq<u8>>)
    requires
        s.position == s.buffer.len(),
        s.buffer.len() + bufs.flatten_alt().len() <= u64::MAX,
    ensures
        ({
            let (s1, parts) = after_writes(s, bufs);
            &&& part_bytes(parts) + s1.current_chunk + s1.buffer == s.current_chunk + s.buffer + bufs.flatten_alt()
            &&& s1.position == s1.buffer.len()
            &&& s1.buffer.len() <= s.buffer.len() + bufs.flatten_alt().len()
        }),
    decreases bufs.len(),
{
    if bufs.len() == 0 {
        assert(part_bytes(Seq::<PartView>::empty()) =~= Seq::<u8>::empty());
        assert(bufs.flatten_alt() =~= Seq::<u8>::empty());
        assert(Seq::<u8>::empty() + s.current_chunk + s.buffer + Seq::<u8>::empty() =~= s.current_chunk + s.buffer);
        assert(Seq::<u8>::empty() + s.current_chunk + s.buffer =~= s.current_chunk + s.buffer);
    } else {
        let init = bufs.drop_last();
        assert(bufs.flatten_alt() == init.flatten_alt() + bufs.last());
        law_writes_keep_stream(s, init);
        let (s1, parts) = after_writes(s, init);
        law_write_keeps_stream(s1, bufs.last());
        let (s2, part) = after_write(s1, bufs.last());
        match part {
            Some(p) => {
                let ps = parts.push(p);
                assert(ps.drop_last() =~= parts);
                assert(part_bytes(ps) == part_bytes(parts) + p.1);
                assert(part_bytes(ps) + s2.current_chunk + s2.buffer =~= part_bytes(parts) + (p.1 + s2.current_chunk + s2.buffer));
            },
            None => {
                assert(part_bytes(parts) + s2.current_chunk + s2.buffer =~= part_bytes(parts) + (Seq::<u8>::empty() + s2.current_chunk + s2.buffer));
            },
        }
        assert(part_bytes(parts) + (s1.current_chunk + s1.buffer + bufs.last()) =~= (part_bytes(parts) + s1.current_chunk + s1.buffer) + bufs.last());
        assert(s.current_chunk + s.buffer + init.flatten_alt() + bufs.last() =~= s.current_chunk + s.buffer + bufs.flatten_alt());
    }
}

/// The byte counter counts what left the current cluster: while a stream is written at its
/// end, it equals the bytes of the parts handed out meanwhile and of the collected clusters,
/// when it did so before.
pub proof fn law_writes_count_bytes(s: ChunkerView, bufs: Seq<Seq<u8>>)
    requires
        s.position == s.buffer.len(),
        s.total_bytes == s.current_chunk.len(),
        s.current_chunk.len() + s.buffer.len() + bufs.flatten_alt().len() <= u64::MAX,
    ensures
        ({
            let (s1, parts) = after_writes(s, bufs);
            s1.total_bytes == part_bytes(parts).len() + s1.current_chunk.len()
        }),
    decreases bufs.len(),
{
    if bufs.len() == 0 {
        assert(part_bytes(Seq::<PartView>::empty()) =~= Seq::<u8>::empty());
    } else {
        let init = bufs.drop_last();
        assert(bufs.flatten_alt() == init.flatten_alt() + bufs.last());
        law_writes_count_bytes(s, init);
        law_writes_keep_stream(s, init);
        let (s1, parts) = after_writes(s, init);
        let lhs = part_bytes(parts) + s1.current_chunk + s1.buffer;
        let rhs = s.current_chunk + s.buffer + init.flatten_alt();
        assert(lhs == rhs);
        assert(lhs.len() == part_bytes(parts).len() + s1.current_chunk.len() + s1.buffer.len());
        assert(rhs.len() == s.current_chunk.len() + s.buffer.len() + init.flatten_alt().len());
        assert(s1.total_bytes + s1.buffer.len() <= u64::MAX);
        let (s2, part) = after_write(s1, bufs.last());
        match part {
            Some(p) => {
                let ps = parts.push(p);
                assert(ps.drop_last() =~= parts);
                assert(part_bytes(ps) == part_bytes(parts) + p.1);
            },
            None => {},
        }
    }
}

/// The state of a sink that cuts a Matroska stream into parts.
pub struct MatroskaChunker {
    chunk_size: u64,
    header: Vec<u8>,
    buffer: Vec<u8>,
    position: u64,
    total_bytes: u64,
    first_chunk: Vec<u8>,
    current_chunk: Vec<u8>,
    total_chunks: u64,
}

impl View for MatroskaChunker {
    type V = ChunkerView;

    closed spec fn view(&self) -> ChunkerView {
        ChunkerView {
            chunk_size: self.chunk_size,
            header: self.header@,
            buffer: self.buffer@,
            position: self.position,
            total_bytes: self.total_bytes,
            first_chunk: self.first_chunk@,
            current_chunk: self.current_chunk@,
            total_chunks: self.total_chunks,
        }
    }
}

/// A copy of `v`.
fn copy_bytes(v: &Vec<u8>) -> (r: Vec<u8>)
    ensures
        r@ == v@,
{
    let mut r: Vec<u8> = Vec::new();
    let mut i: usize = 0;
    while i < v.len()
        invariant
            i <= v@.len(),
            r@ == v@.subrange(0, i as int),
        decreases v@.len() - i,
    {
        r.push(v[i]);
        i = i + 1;
        assert(r@ =~= v@.subrange(0, i as int));
    }
    assert(v@.subrange(0, v@.len() as int) =~= v@);
    r
}

/// Appends `other` to `v`.
fn append_bytes(v: &mut Vec<u8>, other: &Vec<u8>)
    ensures
        final(v)@ == old(v)@ + other@,
{
    let mut i: usize = 0;
    while i < other.len()
        invariant
            i <= other@.len(),
            v@ == old(v)@ + other@.subrange(0, i as int),
        decreases other@.len() - i,
    {
        v.push(other[i]);
        i = i + 1;
        assert(v@ =~= old(v)@ + other@.subrange(0, i as int));
    }
    assert(other@.subrange(0, other@.len() as int) =~= other@);
}

/// Whether `buf` holds the start of a Matroska cluster.
pub fn contains_cluster_magic(buf: &[u8]) -> (b: bool)
    ensures
        b == has_cluster_magic(buf@),
{
    if buf.len() < 4 {
        proof {
            assert forall|i: int| 0 <= i && i + 4 <= buf@.len() implies #[trigger] buf@.subrange(i, i + 4) != cluster_magic() by {}
        }
        return false;
    }
    let mut i: usize = 0;
    while i < buf.len() - 3
        invariant
            buf@.len() >= 4,
            i + 3 <= buf@.len(),
            forall|j: int| 0 <= j < i ==> #[trigger] buf@.subrange(j, j + 4) != cluster_magic(),
        decreases buf@.len() - i,
    {
        if buf[i] == 0x1F && buf[i + 1] == 0x43 && buf[i + 2] == 0xB6 && buf[i + 3] == 0x75 {
            assert(buf@.subrange(i as int, i + 4) =~= cluster_magic());
            return true;
        }
        proof {
            if buf@.subrange(i as int, i + 4) == cluster_magic() {
                assert(buf@.subrange(i as int, i + 4)[0] == buf@[i as int]);
                assert(buf@.subrange(i as int, i + 4)[1] == buf@[i + 1]);
                assert(buf@.subrange(i as int, i + 4)[2] == buf@[i + 2]);
                assert(buf@.subrange(i as int, i + 4)[3] == buf@[i + 3]);
            }
        }
        i = i + 1;
    }
    false
}

/// Writes `buf` into `data` at `pos`, filling a gap before `pos` with zeros.
fn write_at(data: &mut Vec<u8>, pos: usize, buf: &[u8])
    requires
        pos + buf@.len() <= usize::MAX,
    ensures
        final(data)@ == written_at(old(data)@, pos as nat, buf@),
{
    let ghost padded = if pos > old(data)@.len() {
        old(data)@ + zeros((pos - old(data)@.len()) as nat)
    } else {
        old(data)@
    };
    while data.len() < pos
        invariant
            data@.len() <= pos || data@ == old(data)@,
            data@.len() >= old(data)@.len(),
            data@.subrange(0, old(data)@.len() as int) == old(data)@,
            forall|k: int| old(data)@.len() <= k < data@.len() ==> data@[k] == 0u8,
        decreases pos - data@.len(),
    {
        data.push(0u8);
        assert(data@.subrange(0, old(data)@.len() as int) =~= old(data)@);
    }
    assert(data@ =~= padded);
    let mut i: usize = 0;
    while i < buf.len()
        invariant
            pos + buf@.len() <= usize::MAX,
            i <= buf@.len(),
            padded.len() >= pos,
            data@.len() == if pos + i > padded.len() { pos + i } else { padded.len() as int },
            forall|k: int| 0 <= k < pos ==> data@[k] == padded[k],
            forall|k: int| 0 <= k < i ==> data@[pos + k] == buf@[k],
            forall|k: int| pos + i <= k < data@.len() ==> data@[k] == padded[k],
        decreases buf@.len() - i,
    {
        let at = pos + i;
        if at < data.len() {
            data.set(at, buf[i]);
        } else {
            data.push(buf[i]);
        }
        i = i + 1;
    }
    assert(data@ =~= written_at(old(data)@, pos as nat, buf@));
}

impl MatroskaChunker {
    /// A chunker that has seen no data yet, with the default chunk size.
    pub fn new() -> (c: Self)
        ensures
            c@ == (ChunkerView {
                chunk_size: DEFAULT_CHUNK_SIZE,
                header: Seq::empty(),
                buffer: Seq::empty(),
                position: 0,
                total_bytes: 0,
                first_chunk: Seq::empty(),
                current_chunk: Seq::empty(),
                total_chunks: 0,
            }),
    {
        MatroskaChunker {
            chunk_size: DEFAULT_CHUNK_SIZE,
            header: Vec::new(),
            buffer: Vec::new(),
            position: 0,
            total_bytes: 0,
            first_chunk: Vec::new(),
            current_chunk: Vec::new(),
            total_chunks: 0,
        }
    }

    /// The chunk size in bytes.
    pub fn chunk_size(&self) -> (n: u64)
        ensures
            n == self@.chunk_size,
    {
        self.chunk_size
    }

    /// Changes the chunk size.
    pub fn set_chunk_size(&mut self, chunk_size: u64)
        ensures
            final(self)@ == (ChunkerView { chunk_size, ..old(self)@ }),
    {
        self.chunk_size = chunk_size;
    }

    /// Number of parts handed out while writing.
    pub fn parts_produced(&self) -> (n: u64)
        ensures
            n == self@.total_chunks,
    {
        self.total_chunks
    }

    /// Whether `len` more bytes can be written without running past the machine's counters
    /// (exactly the precondition of [`Self::write`] for a buffer of that length).
    pub fn can_write(&self, len: usize) -> (b: bool)
        ensures
            b == (self@.position + len <= usize::MAX
                && self@.total_bytes + self@.buffer.len() <= u64::MAX
                && self@.total_chunks < u64::MAX),
    {
        let room_in_position = (self.position as u128) + (len as u128) <= (usize::MAX as u128);
        let room_in_total = (self.total_bytes as u128) + (self.buffer.len() as u128) <= (u64::MAX as u128);
        room_in_position && room_in_total && self.total_chunks < u64::MAX
    }

    /// Finishes the current cluster because a new one starts; hands out the collected
    /// clusters once they reach the chunk size.
    fn start_new_cluster(&mut self) -> (part: Option<Part>)
        requires
            old(self)@.total_bytes + old(self)@.buffer.len() <= u64::MAX,
            old(self)@.total_chunks < u64::MAX,
        ensures
            (final(self)@, match part { Some(p) => Some(p@), None => None }) == on_new_cluster(old(self)@),
    {
        let len = self.buffer.len();
        self.total_bytes = self.total_bytes + len as u64;
        if self.header.len() == 0 {
            self.header = copy_bytes(&self.buffer);
        }
        append_bytes(&mut self.current_chunk, &self.buffer);
        self.position = 0;
        self.buffer.clear();
        self.maybe_submit()
    }

    /// Hands out the collected clusters as the next part once they reach the chunk size.
    fn maybe_submit(&mut self) -> (part: Option<Part>)
        requires
            old(self)@.total_chunks < u64::MAX,
        ensures
            old(self)@.current_chunk.len() < old(self)@.chunk_size ==> part is None && final(self)@ == old(self)@,
            old(self)@.current_chunk.len() >= old(self)@.chunk_size ==> (part matches Some(p) && p@ == (
                old(self)@.total_chunks,
                old(self)@.current_chunk,
            )),
            old(self)@.current_chunk.len() >= old(self)@.chunk_size ==> final(self)@ == (ChunkerView {
                first_chunk: if old(self)@.first_chunk.len() == 0 {
                    old(self)@.current_chunk
                } else {
                    old(self)@.first_chunk
                },
                current_chunk: Seq::empty(),
                total_chunks: (old(self)@.total_chunks + 1) as u64,
                ..old(self)@
            }),
    {
        if (self.current_chunk.len() as u64) < self.chunk_size {
            return None;
        }
        let part = Part { index: self.total_chunks, bytes: copy_bytes(&self.current_chunk) };
        self.total_chunks = self.total_chunks + 1;
        if self.first_chunk.len() == 0 {
            self.first_chunk = copy_bytes(&self.current_chunk);
        }
        self.current_chunk.clear();
        Some(part)
    }

    /// Writes `buf` to the stream. When `buf` is short and starts a new cluster, the
    /// finished cluster is collected first, and the collected clusters are handed out as
    /// the next part once they reach the chunk size.
    ///
    /// Returns the part handed out, if any.
    pub fn write(&mut self, buf: &[u8]) -> (part: Option<Part>)
        requires
            old(self)@.position + buf@.len() <= usize::MAX,
            old(self)@.total_bytes + old(self)@.buffer.len() <= u64::MAX,
            old(self)@.total_chunks < u64::MAX,
        ensures
            (final(self)@, match part { Some(p) => Some(p@), None => None }) == after_write(old(self)@, buf@),
    {
        let mut part: Option<Part> = None;
        if buf.len() < SEARCH_LIMIT && contains_cluster_magic(buf) {
            part = self.start_new_cluster();
        }
        let pos = self.position as usize;
        write_at(&mut self.buffer, pos, buf);
        self.position = self.position + buf.len() as u64;
        part
    }

    /// Moves the write position to the stream offset `pos`.
    pub fn seek(&mut self, pos: u64)
        ensures
            final(self)@ == after_seek(old(self)@, pos),
    {
        if pos >= self.total_bytes {
            self.position = pos - self.total_bytes;
        } else {
            append_bytes(&mut self.current_chunk, &self.buffer);
            self.buffer = copy_bytes(&self.header);
            self.position = pos;
            self.total_bytes = 0;
        }
    }

    /// Handles a new segment of the stream: a segment that starts at a byte offset moves
    /// the write position there. Returns whether the segment had such an offset.
    pub fn handle_segment(&mut self, segment_start: Option<u64>) -> (handled: bool)
        ensures
            handled == segment_start.is_some(),
            match segment_start {
                Some(pos) => final(self)@ == after_seek(old(self)@, pos),
                None => final(self)@ == old(self)@,
            },
    {
        match segment_start {
            Some(pos) => {
                self.seek(pos);
                true
            },
            None => false,
        }
    }

    /// Ends the stream. Returns the parts to hand out, in order: the collected clusters
    /// (unless they become the first part), then the first part with the rewritten header
    /// put over its start, numbered zero.
    pub fn finish(&mut self) -> (parts: Vec<Part>)
        ensures
            (final(self)@, parts@.map_values(|p: Part| p@)) == after_finish(old(self)@),
    {
        let mut parts: Vec<Part> = Vec::new();
        if self.first_chunk.len() == 0 {
            self.first_chunk = copy_bytes(&self.current_chunk);
            self.current_chunk.clear();
        }
        if self.current_chunk.len() > 0 {
            parts.push(Part { index: self.total_chunks, bytes: copy_bytes(&self.current_chunk) });
        }
        let buffered = self.buffer.as_slice();
        assert(buffered@.len() == buffered.len());
        write_at(&mut self.first_chunk, 0, buffered);
        parts.push(Part { index: 0, bytes: copy_bytes(&self.first_chunk) });
        let ghost expected = after_finish(old(self)@).1;
        assert(parts@.map_values(|p: Part| p@) =~= expected);
        parts
    }
}

} // verus!
