//! The container format: header framing, chunking and joining.
//!
//! A framed stream is `[name_length: u64 LE][name][file_size: u64 LE][content]`.
//! The stream is cut into chunks of exactly `capacity = width * height * 3`
//! bytes; the last chunk is zero-padded to full capacity. Joining concatenates
//! the chunk payloads, drops the header of the first one, and truncates the
//! rest to the declared file size.

use vstd::prelude::*;
use vstd::bytes::*;
use vstd::slice::*;

verus! {

/// The failures of the codec itself; path and I/O failures stay with callers.
#[derive(Clone, Copy, Debug, PartialEq, Eq, Structural)]
pub enum CodecError {
    /// The header does not fit within a single chunk's capacity.
    HeaderTooLarge,
    /// The first payload is too short for its own header, or the name is not UTF-8.
    InvalidHeader,
    /// The underlying image codec failed to encode or decode a PNG.
    ImageCodecError,
}

/// Payload bytes one image of the given dimensions holds: one byte per channel.
pub open spec fn spec_capacity(width: u32, height: u32) -> int {
    width * height * 3
}

/// Bytes the header occupies: two 8-byte length fields around the name.
pub open spec fn spec_header_len(name: Seq<u8>) -> int {
    16 + name.len() as int
}

/// The header: name length, name bytes, declared file size, in order.
pub open spec fn spec_header(name: Seq<u8>, file_size: u64) -> Seq<u8> {
    spec_u64_to_le_bytes(name.len() as u64) + name + spec_u64_to_le_bytes(file_size)
}

/// The framed stream: header followed by the file content.
pub open spec fn spec_stream(name: Seq<u8>, content: Seq<u8>) -> Seq<u8> {
    spec_header(name, content.len() as u64) + content
}

/// How many images a file of `file_size` bytes needs at a given capacity:
/// the ceiling of their quotient, and one image even for an empty file.
pub open spec fn spec_image_count(file_size: int, cap: int) -> int {
    if file_size == 0 {
        1
    } else {
        (file_size + cap - 1) / cap
    }
}

/// Chunk `i` of a stream: `cap` bytes starting at `i * cap`, zero-padded past
/// the stream's end.
pub open spec fn spec_chunk(stream: Seq<u8>, cap: int, i: int) -> Seq<u8> {
    Seq::new(
        cap as nat,
        |j: int| if i * cap + j < stream.len() { stream[i * cap + j] } else { 0u8 },
    )
}

/// All chunks of the framed stream, in index order.
pub open spec fn spec_chunks(name: Seq<u8>, content: Seq<u8>, cap: int) -> Seq<Seq<u8>> {
    Seq::new(
        spec_image_count(content.len() as int, cap) as nat,
        |i: int| spec_chunk(spec_stream(name, content), cap, i),
    )
}

/// Parse a first payload's header: `None` when the payload cannot hold it.
pub open spec fn spec_parse_header(payload: Seq<u8>) -> Option<(Seq<u8>, u64)> {
    if payload.len() < 8 {
        None
    } else {
        let name_len = spec_u64_from_le_bytes(payload.subrange(0, 8)) as int;
        if payload.len() < 16 + name_len {
            None
        } else {
            Some(
                (
                    payload.subrange(8, 8 + name_len),
                    spec_u64_from_le_bytes(payload.subrange(8 + name_len, 16 + name_len)),
                ),
            )
        }
    }
}

/// A prefix of `part`: all of it if it is no longer than `size`, else `size` bytes.
pub open spec fn spec_take_at_most(part: Seq<u8>, size: int) -> Seq<u8> {
    if part.len() <= size {
        part
    } else if size >= 0 {
        part.take(size)
    } else {
        Seq::empty()
    }
}

/// Concatenate parts in order, truncated to `size` bytes in total.
pub open spec fn spec_clip(parts: Seq<Seq<u8>>, size: int) -> Seq<u8>
    decreases parts.len(),
{
    if parts.len() == 0 {
        Seq::empty()
    } else {
        let first = spec_take_at_most(parts[0], size);
        first + spec_clip(parts.drop_first(), size - first.len())
    }
}

/// Join payloads back into name, declared size and content: parse the first
/// payload's header, then clip the remaining bytes to the declared size.
pub open spec fn spec_join(payloads: Seq<Seq<u8>>) -> Option<(Seq<u8>, u64, Seq<u8>)> {
    if payloads.len() == 0 {
        None
    } else {
        match spec_parse_header(payloads[0]) {
            None => None,
            Some((name, file_size)) => {
                let parts = seq![payloads[0].skip(16 + name.len() as int)] + payloads.drop_first();
                Some((name, file_size, spec_clip(parts, file_size as int)))
            },
        }
    }
}

/// The sequence of byte sequences a vector of byte vectors stands for.
pub open spec fn spec_views(v: Seq<Vec<u8>>) -> Seq<Seq<u8>> {
    Seq::new(v.len(), |i: int| v[i]@)
}

/// One image's payload capacity in bytes, `width * height * 3`.
pub fn capacity(width: u32, height: u32) -> (c: usize)
    requires
        spec_capacity(width, height) <= usize::MAX,
    ensures
        c == spec_capacity(width, height),
{
    let wide: u128 = (width as u128) * (height as u128) * 3;
    wide as usize
}

/// How many images a file of `file_size` bytes needs at capacity `cap`.
pub fn image_count(file_size: usize, cap: usize) -> (n: usize)
    requires
        cap >= 1,
    ensures
        n == spec_image_count(file_size as int, cap as int),
{
    if file_size == 0 {
        1
    } else {
        let n_wide: u128 = (file_size as u128 + cap as u128 - 1) / (cap as u128);
        proof {
            lemma_image_count_bounds(file_size as int, cap as int);
        }
        n_wide as usize
    }
}

/// A file never needs more images than it has bytes, and always at least one.
pub proof fn lemma_image_count_bounds(file_size: int, cap: int)
    requires
        file_size >= 0,
        cap >= 1,
    ensures
        1 <= spec_image_count(file_size, cap),
        file_size > 0 ==> spec_image_count(file_size, cap) <= file_size,
{
    if file_size > 0 {
        assert((file_size + cap - 1) / cap >= 1 && (file_size + cap - 1) / cap <= file_size)
            by (nonlinear_arith)
            requires
                file_size >= 1,
                cap >= 1,
        ;
    }
}

/// No chunk starts past the stream's end: chunk `i` of `count` begins within it.
pub(crate) proof fn lemma_chunk_start(file_size: int, cap: int, i: int)
    requires
        file_size >= 0,
        cap >= 1,
        0 <= i < spec_image_count(file_size, cap),
    ensures
        i * cap <= file_size,
{
    if file_size == 0 {
        assert(i == 0);
    } else {
        let count = (file_size + cap - 1) / cap;
        assert(i * cap <= file_size) by (nonlinear_arith)
            requires
                file_size >= 1,
                cap >= 1,
                0 <= i < count,
                count == (file_size + cap - 1) / cap,
        ;
    }
}

/// Split a stream into `spec_image_count` chunks of exactly `cap` bytes each,
/// zero-padded at the end; or report that the header cannot fit one chunk.
pub fn make_chunks(name: &Vec<u8>, content: &Vec<u8>, width: u32, height: u32) -> (r: Result<
    Vec<Vec<u8>>,
    CodecError,
>)
    requires
        spec_capacity(width, height) <= usize::MAX,
        16 + name@.len() + content@.len() <= usize::MAX,
    ensures
        spec_capacity(width, height) <= spec_header_len(name@) ==> r == Err::<
            Vec<Vec<u8>>,
            CodecError,
        >(CodecError::HeaderTooLarge),
        spec_capacity(width, height) > spec_header_len(name@) ==> (r matches Ok(chunks)
            && spec_views(chunks@) == spec_chunks(name@, content@, spec_capacity(width, height))),
{
    let cap: usize = capacity(width, height);
    if cap <= 16 || name.len() > cap - 17 {
        return Err(CodecError::HeaderTooLarge);
    }
    let mut stream: Vec<u8> = u64_to_le_bytes(name.len() as u64);
    let mut name_part: Vec<u8> = slice_to_vec(name.as_slice());
    stream.append(&mut name_part);
    let mut size_part: Vec<u8> = u64_to_le_bytes(content.len() as u64);
    stream.append(&mut size_part);
    let mut content_part: Vec<u8> = slice_to_vec(content.as_slice());
    stream.append(&mut content_part);
    assert(stream@ == spec_stream(name@, content@));

    let count: usize = image_count(content.len(), cap);
    let mut chunks: Vec<Vec<u8>> = Vec::new();
    let mut i: usize = 0;
    while i < count
        invariant
            cap == spec_capacity(width, height),
            cap > 16 + name@.len(),
            stream@ == spec_stream(name@, content@),
            stream@.len() == 16 + name@.len() + content@.len(),
            stream@.len() <= usize::MAX,
            count == spec_image_count(content@.len() as int, cap as int),
            i <= count,
            chunks@.len() == i,
            forall|k: int|
                0 <= k < i ==> #[trigger] chunks@[k]@ == spec_chunk(stream@, cap as int, k),
        decreases count - i,
    {
        proof {
            lemma_chunk_start(content@.len() as int, cap as int, i as int);
        }
        let start: usize = i * cap;
        let avail: usize = stream.len() - start;
        let mut chunk: Vec<u8> = Vec::new();
        let mut j: usize = 0;
        while j < cap
            invariant
                j <= cap,
                chunk@.len() == j,
                start == i * cap,
                start <= stream@.len(),
                stream@.len() <= usize::MAX,
                avail == stream@.len() - start,
                forall|t: int|
                    0 <= t < j ==> #[trigger] chunk@[t] == spec_chunk(
                        stream@,
                        cap as int,
                        i as int,
                    )[t],
            decreases cap - j,
        {
            if j < avail {
                chunk.push(stream[start + j]);
            } else {
                chunk.push(0u8);
            }
            j += 1;
        }
        assert(chunk@ == spec_chunk(stream@, cap as int, i as int));
        chunks.push(chunk);
        i += 1;
    }
    assert(spec_views(chunks@) == spec_chunks(name@, content@, cap as int));
    Ok(chunks)
}

/// A decoded container: the original file's name, declared size and content.
#[derive(Debug, Clone, PartialEq, Eq)]
pub struct DecodedFile {
    /// The original file's base name, as UTF-8 bytes.
    pub name: Vec<u8>,
    /// The content size the header declares.
    pub file_size: u64,
    /// The recovered content: payload bytes truncated to the declared size.
    pub content: Vec<u8>,
}

/// Clipping distributes over appending one part at the end: the new part
/// contributes a prefix of itself bounded by the size still unconsumed.
pub proof fn lemma_clip_push(parts: Seq<Seq<u8>>, part: Seq<u8>, size: int)
    requires
        size >= 0,
    ensures
        spec_clip(parts.push(part), size) == spec_clip(parts, size) + spec_take_at_most(
            part,
            size - spec_clip(parts, size).len(),
        ),
    decreases parts.len(),
{
    if parts.len() == 0 {
        let p1 = parts.push(part);
        assert(p1[0] == part);
        assert(p1.drop_first() =~= Seq::<Seq<u8>>::empty());
        assert(spec_clip(p1, size) == spec_take_at_most(p1[0], size) + spec_clip(
            p1.drop_first(),
            size - spec_take_at_most(p1[0], size).len(),
        ));
        assert(spec_clip(p1.drop_first(), size - spec_take_at_most(p1[0], size).len())
            == Seq::<u8>::empty());
        assert(spec_take_at_most(part, size) + Seq::<u8>::empty() =~= spec_take_at_most(
            part,
            size,
        ));
        assert(spec_clip(parts, size) + spec_take_at_most(part, size) =~= spec_take_at_most(
            part,
            size,
        ));
    } else {
        let first = spec_take_at_most(parts[0], size);
        let rest_size = size - first.len();
        assert(parts.push(part)[0] == parts[0]);
        assert(parts.push(part).drop_first() =~= parts.drop_first().push(part));
        lemma_clip_push(parts.drop_first(), part, rest_size);
        let tail_clip = spec_clip(parts.drop_first(), rest_size);
        let tail_take = spec_take_at_most(part, rest_size - tail_clip.len());
        assert(first + (tail_clip + tail_take) =~= (first + tail_clip) + tail_take);
    }
}

/// Append to `dst` the bytes of `src` from index `from` on, at most
/// `*remaining` of them, and deduct from `*remaining` what was appended.
fn append_clipped(dst: &mut Vec<u8>, src: &Vec<u8>, from: usize, remaining: &mut u64)
    requires
        from <= src@.len(),
    ensures
        final(dst)@ == old(dst)@ + spec_take_at_most(
            src@.skip(from as int),
            *old(remaining) as int,
        ),
        *final(remaining) == *old(remaining) - spec_take_at_most(
            src@.skip(from as int),
            *old(remaining) as int,
        ).len(),
{
    let ghost dst0: Seq<u8> = dst@;
    let avail: usize = src.len() - from;
    let take_n: usize = if (avail as u64) <= *remaining {
        avail
    } else {
        *remaining as usize
    };
    let mut j: usize = 0;
    while j < take_n
        invariant
            j <= take_n,
            from + take_n <= src@.len(),
            src@.len() <= usize::MAX,
            dst@ == dst0 + src@.subrange(from as int, from as int + j as int),
        decreases take_n - j,
    {
        dst.push(src[from + j]);
        assert(dst@ =~= dst0 + src@.subrange(from as int, from as int + j as int + 1));
        j += 1;
    }
    assert(src@.subrange(from as int, from as int + take_n as int) =~= spec_take_at_most(
        src@.skip(from as int),
        *remaining as int,
    ));
    *remaining = *remaining - take_n as u64;
}

/// Join ordered image payloads back into the file they encode: parse the first
/// payload's header, check the name is UTF-8, and clip the remaining bytes to
/// the declared size.
pub fn decode_payloads(payloads: &Vec<Vec<u8>>) -> (r: Result<DecodedFile, CodecError>)
    requires
        payloads@.len() >= 1,
    ensures
        ({
            match spec_join(spec_views(payloads@)) {
                None => r == Err::<DecodedFile, CodecError>(CodecError::InvalidHeader),
                Some(t) => if vstd::utf8::valid_utf8(t.0) {
                    (r matches Ok(d) && d.name@ == t.0 && d.file_size == t.1 && d.content@ == t.2)
                } else {
                    r == Err::<DecodedFile, CodecError>(CodecError::InvalidHeader)
                },
            }
        }),
{
    let first: &Vec<u8> = &payloads[0];
    if first.len() < 16 {
        return Err(CodecError::InvalidHeader);
    }
    let name_len64: u64 = u64_from_le_bytes(slice_subrange(first.as_slice(), 0, 8));
    if name_len64 > (first.len() - 16) as u64 {
        return Err(CodecError::InvalidHeader);
    }
    let name_len: usize = name_len64 as usize;
    let name: Vec<u8> = slice_to_vec(slice_subrange(first.as_slice(), 8, 8 + name_len));
    let file_size: u64 = u64_from_le_bytes(
        slice_subrange(first.as_slice(), 8 + name_len, 16 + name_len),
    );
    if !crate::png::utf8_check(&name) {
        return Err(CodecError::InvalidHeader);
    }
    let ghost parts: Seq<Seq<u8>> = seq![first@.skip((16 + name_len) as int)] + spec_views(
        payloads@,
    ).drop_first();
    let mut content: Vec<u8> = Vec::new();
    let mut remaining: u64 = file_size;
    append_clipped(&mut content, first, 16 + name_len, &mut remaining);
    proof {
        lemma_clip_push(Seq::<Seq<u8>>::empty(), first@.skip((16 + name_len) as int), file_size as int);
        assert(Seq::<Seq<u8>>::empty().push(first@.skip((16 + name_len) as int)) =~= parts.take(1));
    }
    let mut idx: usize = 1;
    while idx < payloads.len()
        invariant
            1 <= idx <= payloads@.len(),
            parts.len() == payloads@.len(),
            parts[0] == payloads@[0]@.skip((16 + name_len) as int),
            forall|k: int| 1 <= k < parts.len() ==> parts[k] == #[trigger] payloads@[k]@,
            content@ == spec_clip(parts.take(idx as int), file_size as int),
            remaining as int == file_size - content@.len(),
        decreases payloads@.len() - idx,
    {
        append_clipped(&mut content, &payloads[idx], 0, &mut remaining);
        proof {
            lemma_clip_push(parts.take(idx as int), parts[idx as int], file_size as int);
            assert(payloads@[idx as int]@.skip(0) =~= payloads@[idx as int]@);
            assert(parts.take(idx as int).push(parts[idx as int]) =~= parts.take(idx as int + 1));
        }
        idx += 1;
    }
    proof {
        assert(parts.take(parts.len() as int) =~= parts);
    }
    Ok(DecodedFile { name, file_size, content })
}

} // verus!
