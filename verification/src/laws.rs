//! The laws of the container format: how many chunks a stream needs, what the
//! last chunk's padding holds, what parsing the first chunk recovers, and that
//! joining the chunks of a framed stream gives the original file back.

use vstd::prelude::*;
use vstd::bytes::*;

use crate::container::{
    spec_chunk, spec_chunks, spec_clip, spec_header_len, spec_image_count, spec_join,
    spec_parse_header, spec_stream, spec_take_at_most,
};

verus! {

/// Chunk-count law: a framed stream fills `ceil(file_size / capacity)` images
/// when the file is not empty, always at least one, and exactly one whenever
/// header and content fit a single image together.
pub proof fn lemma_image_count(name: Seq<u8>, content: Seq<u8>, cap: int)
    requires
        cap > spec_header_len(name),
    ensures
        spec_chunks(name, content, cap).len() == spec_image_count(content.len() as int, cap),
        spec_image_count(content.len() as int, cap) >= 1,
        content.len() > 0 ==> spec_image_count(content.len() as int, cap) == (content.len() + cap
            - 1) / cap,
        content.len() + spec_header_len(name) <= cap ==> spec_image_count(
            content.len() as int,
            cap,
        ) == 1,
{
    let n = content.len() as int;
    crate::container::lemma_image_count_bounds(n, cap);
    if n > 0 && n + spec_header_len(name) <= cap {
        assert((n + cap - 1) / cap == 1) by (nonlinear_arith)
            requires
                1 <= n,
                n < cap,
        ;
    }
}

/// Padding law: in the last chunk, every byte past the end of the framed
/// stream is zero, up to the chunk's full capacity.
pub proof fn lemma_padding(name: Seq<u8>, content: Seq<u8>, cap: int)
    requires
        cap > spec_header_len(name),
    ensures
        ({
            let chunks = spec_chunks(name, content, cap);
            let last = chunks[chunks.len() - 1];
            forall|j: int|
                spec_stream(name, content).len() - (chunks.len() - 1) * cap <= j < cap
                    ==> #[trigger] last[j] == 0u8
        }),
{
    let stream = spec_stream(name, content);
    let chunks = spec_chunks(name, content, cap);
    let count = spec_image_count(content.len() as int, cap);
    crate::container::lemma_image_count_bounds(content.len() as int, cap);
    assert(chunks.len() == count);
    let last = chunks[count - 1];
    assert(last == spec_chunk(stream, cap, count - 1));
    crate::container::lemma_chunk_start(content.len() as int, cap, count - 1);
    assert forall|j: int|
        stream.len() - (count - 1) * cap <= j < cap implies #[trigger] last[j] == 0u8 by {
        assert((count - 1) * cap <= content.len());
        assert(0 <= j);
        assert((count - 1) * cap + j >= stream.len());
    }
}

/// Clipping a list of parts is taking from their concatenation: at most `size`
/// bytes of the parts flattened in order.
pub proof fn lemma_clip_is_flatten(parts: Seq<Seq<u8>>, size: int)
    requires
        size >= 0,
    ensures
        spec_clip(parts, size) == spec_take_at_most(parts.flatten(), size),
    decreases parts.len(),
{
    if parts.len() == 0 {
        assert(parts.flatten() == Seq::<u8>::empty());
        assert(spec_take_at_most(parts.flatten(), size) =~= Seq::<u8>::empty());
    } else {
        let p0 = parts[0];
        let rest = parts.drop_first();
        let t0 = spec_take_at_most(p0, size);
        lemma_clip_is_flatten(rest, size - t0.len());
        assert(parts.flatten() == p0 + rest.flatten());
        assert(spec_take_at_most(p0 + rest.flatten(), size) =~= t0 + spec_take_at_most(
            rest.flatten(),
            size - t0.len(),
        ));
    }
}

/// The chunks of a stream from index `a` up to `count`, in order.
spec fn spec_chunk_range(stream: Seq<u8>, cap: int, a: int, count: int) -> Seq<Seq<u8>> {
    Seq::new((count - a) as nat, |i: int| spec_chunk(stream, cap, a + i))
}

/// The stream's bytes from offset `a * cap` on, zero-extended to the total
/// size of chunks `a` up to `count`.
spec fn spec_zero_ext(stream: Seq<u8>, cap: int, a: int, count: int) -> Seq<u8> {
    Seq::new(
        ((count - a) * cap) as nat,
        |j: int| if a * cap + j < stream.len() {
            stream[a * cap + j]
        } else {
            0u8
        },
    )
}

/// The chunks of a stream from index `a` on, flattened, are the stream's
/// bytes from offset `a * cap` on, zero-extended to the chunks' total size.
proof fn lemma_flatten_chunks(stream: Seq<u8>, cap: int, a: int, count: int)
    requires
        cap >= 0,
        0 <= a <= count,
    ensures
        spec_chunk_range(stream, cap, a, count).flatten() =~= spec_zero_ext(stream, cap, a, count),
    decreases count - a,
{
    let lhs = spec_chunk_range(stream, cap, a, count);
    if a == count {
        assert(lhs.flatten() == Seq::<u8>::empty());
        assert((count - a) * cap == 0) by (nonlinear_arith)
            requires
                a == count,
        ;
        assert(spec_zero_ext(stream, cap, a, count).len() == 0);
    } else {
        assert(((count - a) * cap) == cap + ((count - a - 1) * cap)) by (nonlinear_arith);
        assert(((a + 1) * cap) == a * cap + cap) by (nonlinear_arith);
        assert(((count - a) * cap) >= 0 && ((count - a - 1) * cap) >= 0) by (nonlinear_arith)
            requires
                cap >= 0,
                a < count,
        ;
        let next = spec_chunk_range(stream, cap, a + 1, count);
        assert(lhs[0] == spec_chunk(stream, cap, a));
        assert(lhs.drop_first() =~= next);
        assert(lhs.flatten() == spec_chunk(stream, cap, a) + next.flatten());
        lemma_flatten_chunks(stream, cap, a + 1, count);
        assert(spec_chunk(stream, cap, a) + spec_zero_ext(stream, cap, a + 1, count)
            =~= spec_zero_ext(stream, cap, a, count));
    }
}

/// Header law: parsing the first chunk alone recovers the original name and
/// file size, whatever the chunk count.
pub proof fn lemma_header_recovered(name: Seq<u8>, content: Seq<u8>, cap: int)
    requires
        cap > spec_header_len(name),
        name.len() <= u64::MAX,
        content.len() <= u64::MAX,
    ensures
        spec_parse_header(spec_chunk(spec_stream(name, content), cap, 0)) == Some(
            (name, content.len() as u64),
        ),
{
    let stream = spec_stream(name, content);
    let hl = spec_header_len(name);
    let chunk0 = spec_chunk(stream, cap, 0);
    lemma_auto_spec_u64_to_from_le_bytes();
    let nl_bytes = spec_u64_to_le_bytes(name.len() as u64);
    let sz_bytes = spec_u64_to_le_bytes(content.len() as u64);
    assert(nl_bytes.len() == 8 && sz_bytes.len() == 8);
    assert(stream.len() == hl + content.len());
    assert(chunk0.len() == cap);
    assert(chunk0.subrange(0, 8) =~= nl_bytes);
    assert(spec_u64_from_le_bytes(chunk0.subrange(0, 8)) == name.len() as u64);
    assert(chunk0.subrange(8, 8 + name.len() as int) =~= name);
    assert(chunk0.subrange(8 + name.len() as int, 16 + name.len() as int) =~= sz_bytes);
    assert(spec_u64_from_le_bytes(chunk0.subrange(8 + name.len() as int, 16 + name.len() as int))
        == content.len() as u64);
}

/// Round-trip law: joining the chunks of a framed stream yields the original
/// name, size and content, whenever the chunks have room for the whole stream.
///
/// The last premise is not implied by the others: the chunk count
/// `ceil(file_size / capacity)` ignores the header, so whenever
/// `count * capacity < 16 + name.len() + file_size` the trailing content
/// bytes fit no chunk and are dropped (for example, 290 content bytes with a
/// 10-byte name at capacity 300). Joining then returns the content truncated
/// to the room the chunks had; such inputs lie outside this law.
pub proof fn lemma_round_trip(name: Seq<u8>, content: Seq<u8>, cap: int)
    requires
        cap > spec_header_len(name),
        name.len() <= u64::MAX,
        content.len() <= u64::MAX,
        spec_stream(name, content).len() <= spec_chunks(name, content, cap).len() * cap,
    ensures
        spec_join(spec_chunks(name, content, cap)) == Some(
            (name, content.len() as u64, content),
        ),
{
    let stream = spec_stream(name, content);
    let hl = spec_header_len(name);
    let n = content.len() as int;
    let count = spec_image_count(n, cap);
    let chunks = spec_chunks(name, content, cap);
    crate::container::lemma_image_count_bounds(n, cap);
    assert(chunks.len() == count);
    lemma_header_recovered(name, content, cap);
    assert(chunks[0] == spec_chunk(stream, cap, 0));
    lemma_auto_spec_u64_to_from_le_bytes();
    assert(stream.len() == hl + n);

    let parts = seq![chunks[0].skip(16 + name.len() as int)] + chunks.drop_first();
    assert(parts[0] == chunks[0].skip(hl));
    assert(parts.drop_first() =~= chunks.drop_first());
    assert(parts.flatten() == parts[0] + parts.drop_first().flatten());
    let suffix = spec_chunk_range(stream, cap, 1, count);
    assert(chunks.drop_first() =~= suffix);
    lemma_flatten_chunks(stream, cap, 1, count);

    assert(count * cap == cap + (count - 1) * cap) by (nonlinear_arith);
    assert((count - 1) * cap >= 0) by (nonlinear_arith)
        requires
            count >= 1,
            cap >= 0,
    ;
    let total = count * cap - hl;
    let tail = Seq::new(
        total as nat,
        |j: int| if hl + j < stream.len() {
            stream[hl + j]
        } else {
            0u8
        },
    );
    assert(parts.flatten() =~= tail);
    lemma_clip_is_flatten(parts, n);
    assert(spec_take_at_most(tail, n) =~= content);
    assert(spec_clip(parts, n) == content);
    assert(spec_join(chunks) == Some((name, content.len() as u64, content)));
}

/// Boundary law: a zero-byte file still fills exactly one image, and its
/// chunks join back to the name and a zero-byte content.
pub proof fn lemma_empty_file(name: Seq<u8>, cap: int)
    requires
        cap > spec_header_len(name),
        name.len() <= u64::MAX,
    ensures
        spec_chunks(name, Seq::<u8>::empty(), cap).len() == 1,
        spec_join(spec_chunks(name, Seq::<u8>::empty(), cap)) == Some(
            (name, 0u64, Seq::<u8>::empty()),
        ),
{
    let content = Seq::<u8>::empty();
    lemma_image_count(name, content, cap);
    lemma_auto_spec_u64_to_from_le_bytes();
    assert(spec_stream(name, content).len() == spec_header_len(name));
    lemma_round_trip(name, content, cap);
}

} // verus!
