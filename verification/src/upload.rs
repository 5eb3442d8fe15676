//! Completing a multipart upload from the parts a chunker hands out: the storage keeps the
//! parts by number, a later part replacing an earlier one with the same number, and joins
//! them in the order of their numbers.

use vstd::prelude::*;

use crate::chunker::{
    after_finish, after_seek, after_write, after_writes, has_cluster_magic, on_new_cluster,
    part_bytes, written_at, ChunkerView, PartView, SEARCH_LIMIT,
};

verus! {

/// The parts as the storage keeps them: by number, a later part replacing an earlier part
/// with the same number.
pub open spec fn uploaded(parts: Seq<PartView>) -> Map<u64, Seq<u8>>
    decreases parts.len(),
{
    if parts.len() == 0 {
        Map::empty()
    } else {
        uploaded(parts.drop_last()).insert(parts.last().0, parts.last().1)
    }
}

/// The object completed from the parts numbered below `n`, in the order of their numbers.
pub open spec fn joined(m: Map<u64, Seq<u8>>, n: nat) -> Seq<u8>
    decreases n,
{
    if n == 0 {
        Seq::empty()
    } else {
        joined(m, (n - 1) as nat) + m[(n - 1) as u64]
    }
}

/// A chunker that has seen nothing yet.
pub open spec fn fresh_chunker(chunk_size: u64) -> ChunkerView {
    ChunkerView {
        chunk_size,
        header: Seq::empty(),
        buffer: Seq::empty(),
        position: 0,
        total_bytes: 0,
        first_chunk: Seq::empty(),
        current_chunk: Seq::empty(),
        total_chunks: 0,
    }
}

/// What holds after `stream` was written from its start, always at its end, with the parts
/// `parts` handed out meanwhile: no byte is lost, the counters count what was moved out of
/// the current cluster and the parts handed out, the parts are numbered from zero, the
/// first part is kept, and the header is the start of the stream.
spec fn written_from_start(s: ChunkerView, parts: Seq<PartView>, stream: Seq<u8>, chunk_size: u64) -> bool {
    let moved = part_bytes(parts) + s.current_chunk;
    &&& s.chunk_size == chunk_size
    &&& moved + s.buffer == stream
    &&& s.position == s.buffer.len()
    &&& s.total_bytes == moved.len()
    &&& s.total_chunks == parts.len()
    &&& parts.len() <= part_bytes(parts).len()
    &&& forall|i: int| 0 <= i < parts.len() ==> (#[trigger] parts[i]).0 == i && parts[i].1.len() >= chunk_size
    &&& parts.len() == 0 ==> s.first_chunk.len() == 0
    &&& parts.len() > 0 ==> s.first_chunk == parts[0].1
    &&& s.header.len() <= moved.len()
    &&& moved.take(s.header.len() as int) == s.header
    &&& s.header.len() == 0 ==> moved.len() == 0
    &&& parts.len() > 0 ==> s.header.len() <= parts[0].1.len()
}

proof fn lemma_part_bytes_push(parts: Seq<PartView>, p: PartView)
    ensures
        part_bytes(parts.push(p)) == part_bytes(parts) + p.1,
{
    assert(parts.push(p).drop_last() =~= parts);
}

/// The bytes of the parts start with the bytes of the first part.
proof fn lemma_part_bytes_start(parts: Seq<PartView>)
    requires
        parts.len() > 0,
    ensures
        parts[0].1.len() <= part_bytes(parts).len(),
        part_bytes(parts).take(parts[0].1.len() as int) == parts[0].1,
    decreases parts.len(),
{
    let init = parts.drop_last();
    if parts.len() == 1 {
        assert(part_bytes(init) =~= Seq::<u8>::empty());
        assert(part_bytes(parts) =~= parts[0].1);
    } else {
        lemma_part_bytes_start(init);
        assert(init[0] == parts[0]);
        assert(part_bytes(parts).take(parts[0].1.len() as int) =~= part_bytes(init).take(parts[0].1.len() as int));
    }
}

/// Writing at the end keeps what holds of a stream written from its start.
proof fn lemma_write_from_start(s: ChunkerView, parts: Seq<PartView>, stream: Seq<u8>, chunk_size: u64, buf: Seq<u8>)
    requires
        written_from_start(s, parts, stream, chunk_size),
        chunk_size >= 1,
        stream.len() + buf.len() <= u64::MAX,
    ensures
        ({
            let (s1, part) = after_write(s, buf);
            let parts1 = match part {
                Some(p) => parts.push(p),
                None => parts,
            };
            written_from_start(s1, parts1, stream + buf, chunk_size)
        }),
{
    let (s1, part) = after_write(s, buf);
    let moved = part_bytes(parts) + s.current_chunk;
    if buf.len() < SEARCH_LIMIT && has_cluster_magic(buf) {
        let (c, p) = on_new_cluster(s);
        assert(written_at(Seq::empty(), 0, buf) =~= buf);
        let chunk = s.current_chunk + s.buffer;
        assert(moved + s.buffer == part_bytes(parts) + chunk);
        match p {
            Some(q) => {
                let parts1 = parts.push(q);
                lemma_part_bytes_push(parts, q);
                assert(part_bytes(parts1) =~= moved + s.buffer);
                assert(part_bytes(parts1) + c.current_chunk =~= moved + s.buffer);
                assert(forall|i: int| 0 <= i < parts.len() ==> parts1[i] == parts[i]);
                assert(parts1[parts.len() as int] == q);
                if parts.len() > 0 {
                    assert(parts1[0] == parts[0]);
                } else {
                    assert(parts1[0] == q);
                }
                assert((moved + s.buffer).take(c.header.len() as int) =~= c.header) by {
                    if s.header.len() > 0 {
                        assert((moved + s.buffer).take(s.header.len() as int) =~= moved.take(s.header.len() as int));
                    } else {
                        assert(moved =~= Seq::<u8>::empty());
                        assert(moved + s.buffer =~= s.buffer);
                    }
                }
                assert(s1.buffer =~= buf);
                assert(part_bytes(parts1) + s1.current_chunk + s1.buffer =~= stream + buf);
            },
            None => {
                assert(part_bytes(parts) + c.current_chunk =~= moved + s.buffer);
                assert((moved + s.buffer).take(c.header.len() as int) =~= c.header) by {
                    if s.header.len() > 0 {
                        assert((moved + s.buffer).take(s.header.len() as int) =~= moved.take(s.header.len() as int));
                    } else {
                        assert(moved =~= Seq::<u8>::empty());
                        assert(moved + s.buffer =~= s.buffer);
                    }
                }
                assert(s1.buffer =~= buf);
                assert(part_bytes(parts) + s1.current_chunk + s1.buffer =~= stream + buf);
            },
        }
    } else {
        assert(written_at(s.buffer, s.buffer.len(), buf) =~= s.buffer + buf);
        assert(moved + (s.buffer + buf) =~= stream + buf);
    }
}

/// Writing buffers one after the other into a fresh chunker writes their stream from its
/// start.
proof fn lemma_writes_from_start(chunk_size: u64, bufs: Seq<Seq<u8>>)
    requires
        chunk_size >= 1,
        bufs.flatten_alt().len() <= u64::MAX,
    ensures
        written_from_start(
            after_writes(fresh_chunker(chunk_size), bufs).0,
            after_writes(fresh_chunker(chunk_size), bufs).1,
            bufs.flatten_alt(),
            chunk_size,
        ),
    decreases bufs.len(),
{
    let s0 = fresh_chunker(chunk_size);
    if bufs.len() == 0 {
        assert(part_bytes(Seq::<PartView>::empty()) =~= Seq::<u8>::empty());
        assert(bufs.flatten_alt() =~= Seq::<u8>::empty());
        let moved = part_bytes(Seq::<PartView>::empty()) + s0.current_chunk;
        assert(moved =~= Seq::<u8>::empty());
        assert(moved + s0.buffer =~= Seq::<u8>::empty());
        assert(moved.take(0) =~= Seq::<u8>::empty());
    } else {
        let init = bufs.drop_last();
        assert(bufs.flatten_alt() == init.flatten_alt() + bufs.last());
        lemma_writes_from_start(chunk_size, init);
        let (s1, parts) = after_writes(s0, init);
        lemma_write_from_start(s1, parts, init.flatten_alt(), chunk_size, bufs.last());
    }
}

/// Facts about putting bytes over the start of a sequence.
proof fn lemma_written_over_start(s: Seq<u8>, x: Seq<u8>)
    ensures
        x.len() <= s.len() ==> written_at(s, 0, x) == x + s.skip(x.len() as int),
        x.len() >= s.len() ==> written_at(s, 0, x) == x,
{
    if x.len() <= s.len() {
        assert(written_at(s, 0, x) =~= x + s.skip(x.len() as int));
    } else {
        assert(written_at(s, 0, x) =~= x);
    }
}

/// The parts numbered in order, each once, are stored under their numbers and join to
/// their bytes.
proof fn lemma_uploaded_in_order(parts: Seq<PartView>)
    requires
        parts.len() <= u64::MAX,
        forall|i: int| 0 <= i < parts.len() ==> (#[trigger] parts[i]).0 == i,
    ensures
        uploaded(parts).dom() == Set::new(|i: u64| i < parts.len()),
        forall|i: int| 0 <= i < parts.len() ==> #[trigger] uploaded(parts)[i as u64] == parts[i].1,
        joined(uploaded(parts), parts.len()) == part_bytes(parts),
    decreases parts.len(),
{
    if parts.len() == 0 {
        assert(uploaded(parts).dom() =~= Set::new(|i: u64| i < parts.len()));
    } else {
        let init = parts.drop_last();
        let n = (parts.len() - 1) as nat;
        assert(forall|i: int| 0 <= i < init.len() ==> init[i] == parts[i]);
        lemma_uploaded_in_order(init);
        let m = uploaded(init);
        let m1 = uploaded(parts);
        assert(parts.last().0 == n);
        assert(m1 == m.insert(n as u64, parts.last().1));
        assert(m1.dom() =~= Set::new(|i: u64| i < parts.len()));
        assert forall|i: int| 0 <= i < parts.len() implies #[trigger] m1[i as u64] == parts[i].1 by {
            if i < n {
                assert(m1[i as u64] == m[i as u64]);
            }
        }
        lemma_joined_agree(m, m1, n);
    }
}

/// Joining looks at the parts below the count only.
proof fn lemma_joined_agree(m1: Map<u64, Seq<u8>>, m2: Map<u64, Seq<u8>>, n: nat)
    requires
        forall|i: int| 0 <= i < n ==> #[trigger] m1[i as u64] == m2[i as u64],
    ensures
        joined(m1, n) == joined(m2, n),
    decreases n,
{
    if n > 0 {
        assert(m1[(n - 1) as u64] == m2[((n - 1) as int) as u64]);
        lemma_joined_agree(m1, m2, (n - 1) as nat);
    }
}

/// Replacing the first part changes the start of the joined object only.
proof fn lemma_joined_replace_first(m: Map<u64, Seq<u8>>, n: nat, x: Seq<u8>)
    requires
        1 <= n <= u64::MAX,
    ensures
        m[0].len() <= joined(m, n).len(),
        joined(m.insert(0, x), n) == x + joined(m, n).skip(m[0].len() as int),
    decreases n,
{
    let m1 = m.insert(0, x);
    if n == 1 {
        assert(joined(m, 0) =~= Seq::<u8>::empty());
        assert(joined(m1, 0) =~= Seq::<u8>::empty());
        assert(joined(m, 1) =~= m[0]);
        assert(joined(m1, 1) =~= x);
        assert(m[0].skip(m[0].len() as int) =~= Seq::<u8>::empty());
    } else {
        lemma_joined_replace_first(m, (n - 1) as nat, x);
        assert(m1[(n - 1) as u64] == m[(n - 1) as u64]);
        assert(joined(m1, n) =~= x + joined(m, n).skip(m[0].len() as int));
    }
}

/// The upload after the header `header` was rewritten and the stream ended: the part
/// numbers go from zero up, and the parts joined in this order give `target`.
spec fn completes_to(s: ChunkerView, written: Seq<PartView>, header: Seq<u8>, target: Seq<u8>) -> bool {
    let (s2, rewritten) = after_write(after_seek(s, 0), header);
    let (s3, last) = after_finish(s2);
    let m = uploaded(written + last);
    &&& rewritten is None
    &&& exists|n: nat| #[trigger] m.dom() == Set::new(|i: u64| i < n) && joined(m, n) == target
}

/// A single part numbered zero is stored under zero and joins to itself.
proof fn lemma_uploaded_single(x: Seq<u8>)
    ensures
        uploaded(seq![(0u64, x)]).dom() == Set::new(|i: u64| i < 1nat),
        joined(uploaded(seq![(0u64, x)]), 1) == x,
{
    let all = seq![(0u64, x)];
    assert(all.drop_last() =~= Seq::<PartView>::empty());
    let m = uploaded(all);
    assert(uploaded(Seq::<PartView>::empty()) == Map::<u64, Seq<u8>>::empty());
    assert(all.last() == (0u64, x));
    assert(m == uploaded(all.drop_last()).insert(0, x));
    assert(m == Map::<u64, Seq<u8>>::empty().insert(0, x));
    assert(m.dom() =~= Set::new(|i: u64| i < 1nat));
    assert(joined(m, 0) =~= Seq::<u8>::empty());
    assert(joined(m, 1) =~= x);
}

/// Putting the front of the header over the stream is putting the rewritten header over it.
proof fn lemma_front_over_stream(stream: Seq<u8>, h: Seq<u8>, header: Seq<u8>)
    requires
        h.len() <= stream.len(),
        stream.take(h.len() as int) == h,
    ensures
        written_at(stream, 0, written_at(h, 0, header)) == written_at(stream, 0, header),
{
    let front = written_at(h, 0, header);
    lemma_written_over_start(h, header);
    lemma_written_over_start(stream, header);
    if header.len() <= h.len() {
        assert(front =~= header + h.skip(header.len() as int));
        lemma_written_over_start(stream, front);
        assert(front + stream.skip(h.len() as int) =~= header + stream.skip(header.len() as int));
    } else {
        assert(front =~= header);
    }
}

/// The upload completes when nothing left the current cluster: it holds the whole stream.
proof fn lemma_completes_unmoved(s: ChunkerView, written: Seq<PartView>, stream: Seq<u8>, chunk_size: u64, header: Seq<u8>)
    requires
        written_from_start(s, written, stream, chunk_size),
        s.total_bytes == 0,
        !(header.len() < SEARCH_LIMIT && has_cluster_magic(header)),
        stream.len() + header.len() <= u64::MAX,
    ensures
        completes_to(s, written, header, written_at(stream, 0, header)),
{
    let target = written_at(stream, 0, header);
    let moved = part_bytes(written) + s.current_chunk;
    assert(moved =~= Seq::<u8>::empty());
    assert(written.len() == 0);
    assert(s.buffer =~= stream);
    let seeked = after_seek(s, 0);
    assert(seeked == (ChunkerView { position: 0, ..s }));
    let (s2, rewritten) = after_write(seeked, header);
    assert(s2.buffer == target);
    assert(s2.current_chunk.len() == 0);
    let (s3, last) = after_finish(s2);
    assert(written_at(s2.current_chunk, 0, s2.buffer) =~= target);
    assert(last =~= seq![(0u64, target)]);
    assert(written + last =~= seq![(0u64, target)]);
    lemma_uploaded_single(target);
}

/// The upload completes when clusters left the current cluster but no part was handed out
/// yet: the single part handed out at the end holds the stream.
proof fn lemma_completes_single(s: ChunkerView, written: Seq<PartView>, stream: Seq<u8>, chunk_size: u64, header: Seq<u8>)
    requires
        written_from_start(s, written, stream, chunk_size),
        s.total_bytes > 0,
        written.len() == 0,
        !(header.len() < SEARCH_LIMIT && has_cluster_magic(header)),
        stream.len() + header.len() <= u64::MAX,
    ensures
        completes_to(s, written, header, written_at(stream, 0, header)),
{
    let target = written_at(stream, 0, header);
    let moved = part_bytes(written) + s.current_chunk;
    let h = s.header;
    assert(part_bytes(written) =~= Seq::<u8>::empty());
    assert(h =~= stream.take(h.len() as int)) by {
        assert((moved + s.buffer).take(h.len() as int) =~= moved.take(h.len() as int));
    }
    lemma_front_over_stream(stream, h, header);
    let front = written_at(h, 0, header);
    let seeked = after_seek(s, 0);
    let (s2, rewritten) = after_write(seeked, header);
    assert(s2.buffer == front);
    assert(s2.current_chunk =~= stream);
    let (s3, last) = after_finish(s2);
    assert(last =~= seq![(0u64, target)]);
    assert(written + last =~= seq![(0u64, target)]);
    lemma_uploaded_single(target);
}

/// The upload completes when parts were handed out: the first is replaced by the one with
/// the rewritten header, and the rest of the stream follows as the last part.
#[verifier::rlimit(40)]
proof fn lemma_completes_parts(s: ChunkerView, written: Seq<PartView>, stream: Seq<u8>, chunk_size: u64, header: Seq<u8>)
    requires
        written_from_start(s, written, stream, chunk_size),
        written.len() > 0,
        1 <= chunk_size,
        header.len() <= chunk_size,
        !(header.len() < SEARCH_LIMIT && has_cluster_magic(header)),
        stream.len() + header.len() <= u64::MAX,
    ensures
        completes_to(s, written, header, written_at(stream, 0, header)),
{
    let target = written_at(stream, 0, header);
    let moved = part_bytes(written) + s.current_chunk;
    let h = s.header;
    let first = written[0].1;
    lemma_part_bytes_start(written);
    assert(s.total_bytes >= first.len());
    assert(first.len() >= chunk_size);
    assert(h =~= stream.take(h.len() as int)) by {
        assert((moved + s.buffer).take(h.len() as int) =~= moved.take(h.len() as int));
    }
    assert(stream.take(first.len() as int) =~= first) by {
        assert(part_bytes(written).take(first.len() as int) =~= stream.take(first.len() as int));
    }
    lemma_front_over_stream(stream, h, header);
    let front = written_at(h, 0, header);
    lemma_written_over_start(h, header);
    assert(front.len() <= first.len());
    let rest = s.current_chunk + s.buffer;
    let seeked = after_seek(s, 0);
    let (s2, rewritten) = after_write(seeked, header);
    assert(s2.buffer == front);
    assert(s2.current_chunk == rest);
    assert(s2.first_chunk == first);
    let done = written_at(first, 0, front);
    let pending: Seq<PartView> = if rest.len() > 0 { seq![(s.total_chunks, rest)] } else { Seq::empty() };
    let (s3, last) = after_finish(s2);
    assert(last =~= pending.push((0u64, done)));
    let ordered = written + pending;
    assert(forall|i: int| 0 <= i < ordered.len() ==> (#[trigger] ordered[i]).0 == i) by {
        assert forall|i: int| 0 <= i < ordered.len() implies (#[trigger] ordered[i]).0 == i by {
            if i < written.len() {
                assert(ordered[i] == written[i]);
            }
        }
    }
    assert(part_bytes(ordered) == stream && ordered.len() <= stream.len()) by {
        if rest.len() > 0 {
            assert(ordered =~= written.push((s.total_chunks, rest)));
            lemma_part_bytes_push(written, (s.total_chunks, rest));
            assert(part_bytes(written) + rest =~= moved + s.buffer);
        } else {
            assert(ordered =~= written);
            assert(moved + s.buffer =~= part_bytes(written));
        }
    }
    lemma_uploaded_in_order(ordered);
    let all = written + last;
    assert(all =~= ordered.push((0u64, done)));
    assert(all.drop_last() =~= ordered);
    let mo = uploaded(ordered);
    let m = uploaded(all);
    assert(m == mo.insert(0, done));
    let n = ordered.len();
    assert(mo[(0int) as u64] == ordered[0].1);
    assert(ordered[0] == written[0]);
    lemma_joined_replace_first(mo, n, done);
    assert(m.dom() =~= Set::new(|i: u64| i < n));
    lemma_written_over_start(first, front);
    lemma_written_over_start(stream, front);
    assert(done + stream.skip(first.len() as int) =~= written_at(stream, 0, front)) by {
        assert(front + first.skip(front.len() as int) + stream.skip(first.len() as int) =~= front + stream.skip(front.len() as int));
    }
    assert(joined(m, n) == target);
}

/// Uploading the parts handed out while a stream is written, then its header is rewritten
/// and the stream ends, completes to the stream with the rewritten header over its start.
///
/// The stream is written from its start, each buffer at its end; then the writer goes back
/// to the start and writes the rewritten header `header`, which starts no cluster and is
/// no longer than a part. The storage keeps the parts by number, a later part replacing an
/// earlier one with its number: they are numbered from zero up, and joined in this order
/// they give the stream with `header` put over its start.
pub proof fn law_upload_restores_stream(chunk_size: u64, bufs: Seq<Seq<u8>>, header: Seq<u8>)
    requires
        1 <= chunk_size,
        header.len() <= chunk_size,
        !(header.len() < SEARCH_LIMIT && has_cluster_magic(header)),
        bufs.flatten_alt().len() + header.len() <= u64::MAX,
    ensures
        ({
            let (s1, written) = after_writes(fresh_chunker(chunk_size), bufs);
            let (s2, rewritten) = after_write(after_seek(s1, 0), header);
            let (s3, last) = after_finish(s2);
            let m = uploaded(written + last);
            &&& rewritten is None
            &&& exists|n: nat| #[trigger] m.dom() == Set::new(|i: u64| i < n)
                && joined(m, n) == written_at(bufs.flatten_alt(), 0, header)
        }),
{
    let stream = bufs.flatten_alt();
    lemma_writes_from_start(chunk_size, bufs);
    let (s1, written) = after_writes(fresh_chunker(chunk_size), bufs);
    if s1.total_bytes == 0 {
        lemma_completes_unmoved(s1, written, stream, chunk_size, header);
    } else if written.len() == 0 {
        lemma_completes_single(s1, written, stream, chunk_size, header);
    } else {
        lemma_completes_parts(s1, written, stream, chunk_size, header);
    }
}

/// `data` after the buffers `bufs` were written one after the other, the first at `pos`.
pub open spec fn writes_at(data: Seq<u8>, pos: nat, bufs: Seq<Seq<u8>>) -> Seq<u8>
    decreases bufs.len(),
{
    if bufs.len() == 0 {
        data
    } else {
        let init = bufs.drop_last();
        written_at(writes_at(data, pos, init), pos + init.flatten_alt().len(), bufs.last())
    }
}

/// Writes that start no cluster and stay inside the current cluster only overwrite it.
proof fn lemma_overwrites(t: ChunkerView, bufs: Seq<Seq<u8>>)
    requires
        t.position + bufs.flatten_alt().len() <= t.buffer.len(),
        t.buffer.len() <= u64::MAX,
        forall|i: int| 0 <= i < bufs.len() ==> !((#[trigger] bufs[i]).len() < SEARCH_LIMIT && has_cluster_magic(bufs[i])),
    ensures
        after_writes(t, bufs).1 == Seq::<PartView>::empty(),
        after_writes(t, bufs).0 == (ChunkerView {
            buffer: writes_at(t.buffer, t.position as nat, bufs),
            position: (t.position + bufs.flatten_alt().len()) as u64,
            ..t
        }),
        writes_at(t.buffer, t.position as nat, bufs).len() == t.buffer.len(),
    decreases bufs.len(),
{
    if bufs.len() == 0 {
        assert(bufs.flatten_alt() =~= Seq::<u8>::empty());
    } else {
        let init = bufs.drop_last();
        let last = bufs.last();
        assert(bufs.flatten_alt() == init.flatten_alt() + last);
        assert(forall|i: int| 0 <= i < init.len() ==> init[i] == bufs[i]);
        lemma_overwrites(t, init);
        assert(bufs[bufs.len() - 1] == last);
        let (t1, parts) = after_writes(t, init);
        let b1 = t1.buffer;
        let p1 = t1.position as nat;
        assert(p1 + last.len() <= b1.len());
        let w = written_at(b1, p1, last);
        assert(w =~= b1.subrange(0, p1 as int) + last + b1.subrange((p1 + last.len()) as int, b1.len() as int));
        assert(w.len() == b1.len());
    }
}

/// The upload completes when the writer went back into the header and overwrote it inside
/// its length: the header as it is now comes first, then the rest of the stream.
proof fn lemma_completes_overwritten(
    s: ChunkerView,
    written: Seq<PartView>,
    stream: Seq<u8>,
    chunk_size: u64,
    t: ChunkerView,
)
    requires
        written_from_start(s, written, stream, chunk_size),
        1 <= chunk_size,
        s.total_bytes > 0,
        stream.len() <= u64::MAX,
        t.current_chunk == s.current_chunk + s.buffer,
        t.first_chunk == s.first_chunk,
        t.total_chunks == s.total_chunks,
        t.buffer.len() == s.header.len(),
    ensures
        ({
            let (t2, last) = after_finish(t);
            let m = uploaded(written + last);
            exists|n: nat| #[trigger] m.dom() == Set::new(|i: u64| i < n)
                && joined(m, n) == t.buffer + stream.skip(s.header.len() as int)
        }),
{
    let moved = part_bytes(written) + s.current_chunk;
    let h = s.header;
    let b = t.buffer;
    let target = b + stream.skip(h.len() as int);
    let rest = s.current_chunk + s.buffer;
    let (t2, last) = after_finish(t);
    if written.len() == 0 {
        assert(part_bytes(written) =~= Seq::<u8>::empty());
        assert(rest =~= stream);
        lemma_written_over_start(stream, b);
        let done = written_at(stream, 0, b);
        assert(done == target);
        assert(last =~= seq![(0u64, target)]);
        assert(written + last =~= seq![(0u64, target)]);
        lemma_uploaded_single(target);
    } else {
        let first = written[0].1;
        lemma_part_bytes_start(written);
        assert(stream.take(first.len() as int) =~= first) by {
            assert(part_bytes(written).take(first.len() as int) =~= stream.take(first.len() as int));
        }
        assert(b.len() <= first.len());
        let done = written_at(first, 0, b);
        lemma_written_over_start(first, b);
        let pending: Seq<PartView> = if rest.len() > 0 { seq![(s.total_chunks, rest)] } else { Seq::empty() };
        assert(last =~= pending.push((0u64, done)));
        let ordered = written + pending;
        assert(forall|i: int| 0 <= i < ordered.len() ==> (#[trigger] ordered[i]).0 == i) by {
            assert forall|i: int| 0 <= i < ordered.len() implies (#[trigger] ordered[i]).0 == i by {
                if i < written.len() {
                    assert(ordered[i] == written[i]);
                }
            }
        }
        assert(part_bytes(ordered) == stream && ordered.len() <= stream.len()) by {
            if rest.len() > 0 {
                assert(ordered =~= written.push((s.total_chunks, rest)));
                lemma_part_bytes_push(written, (s.total_chunks, rest));
                assert(part_bytes(written) + rest =~= moved + s.buffer);
            } else {
                assert(ordered =~= written);
                assert(moved + s.buffer =~= part_bytes(written));
            }
        }
        lemma_uploaded_in_order(ordered);
        let all = written + last;
        assert(all =~= ordered.push((0u64, done)));
        assert(all.drop_last() =~= ordered);
        let mo = uploaded(ordered);
        let m = uploaded(all);
        assert(m == mo.insert(0, done));
        let n = ordered.len();
        assert(mo[(0int) as u64] == ordered[0].1);
        assert(ordered[0] == written[0]);
        lemma_joined_replace_first(mo, n, done);
        assert(m.dom() =~= Set::new(|i: u64| i < n));
        assert(done + stream.skip(first.len() as int) =~= target) by {
            assert(b + first.skip(b.len() as int) + stream.skip(first.len() as int) =~= b + stream.skip(b.len() as int));
        }
        assert(joined(m, n) == target);
    }
}

/// Uploading the parts of a stream whose header is rewritten in place completes to the
/// stream with the rewritten header.
///
/// The stream is written from its start, each buffer at its end. Its header is what came
/// before the first cluster: it is the start of the stream. At the end the writer goes back
/// to an offset `pos` inside what was written before the current cluster and writes
/// `rewrites` one after the other; they start no cluster and stay inside the header. The
/// storage keeps the parts by number, a later part replacing an earlier one with its
/// number: they are numbered from zero up, and joined in this order they give the
/// rewritten header followed by the rest of the stream.
pub proof fn law_upload_restores_rewritten_header(
    chunk_size: u64,
    bufs: Seq<Seq<u8>>,
    pos: u64,
    rewrites: Seq<Seq<u8>>,
)
    requires
        1 <= chunk_size,
        bufs.flatten_alt().len() <= u64::MAX,
        pos < after_writes(fresh_chunker(chunk_size), bufs).0.total_bytes,
        pos + rewrites.flatten_alt().len() <= after_writes(fresh_chunker(chunk_size), bufs).0.header.len(),
        forall|i: int| 0 <= i < rewrites.len()
            ==> !((#[trigger] rewrites[i]).len() < SEARCH_LIMIT && has_cluster_magic(rewrites[i])),
    ensures
        ({
            let stream = bufs.flatten_alt();
            let (s1, written) = after_writes(fresh_chunker(chunk_size), bufs);
            let h = s1.header;
            let (s2, rewritten) = after_writes(after_seek(s1, pos), rewrites);
            let (s3, last) = after_finish(s2);
            let m = uploaded(written + last);
            &&& h.len() <= stream.len()
            &&& h == stream.take(h.len() as int)
            &&& rewritten.len() == 0
            &&& exists|n: nat| #[trigger] m.dom() == Set::new(|i: u64| i < n)
                && joined(m, n) == writes_at(h, pos as nat, rewrites) + stream.skip(h.len() as int)
        }),
{
    let stream = bufs.flatten_alt();
    lemma_writes_from_start(chunk_size, bufs);
    let (s1, written) = after_writes(fresh_chunker(chunk_size), bufs);
    let moved = part_bytes(written) + s1.current_chunk;
    let h = s1.header;
    assert(h =~= stream.take(h.len() as int)) by {
        assert((moved + s1.buffer).take(h.len() as int) =~= moved.take(h.len() as int));
    }
    let seeked = after_seek(s1, pos);
    assert(seeked.buffer == h && seeked.position == pos);
    lemma_overwrites(seeked, rewrites);
    let (s2, rewritten) = after_writes(seeked, rewrites);
    lemma_completes_overwritten(s1, written, stream, chunk_size, s2);
}

} // verus!
