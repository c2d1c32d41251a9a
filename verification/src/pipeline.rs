//! The two conversion directions over in-memory bytes, and their dispatcher.
//!
//! Encoding frames a file's name and content, cuts the stream into chunks and
//! materializes each chunk as one PNG image's bytes. Decoding recovers each
//! image's pixel payload and joins the payloads back into the file. Reading
//! and writing actual files is the caller's business.

use vstd::prelude::*;

use crate::container::{
    capacity, decode_payloads, make_chunks, spec_capacity, spec_chunks, spec_header_len,
    spec_image_count, spec_join, spec_views, CodecError, DecodedFile,
};
use crate::png::{decoded_image, png_decode_bytes, png_encode_rgb8, png_of};

verus! {

/// A byte sequence resized to `size`: truncated, or zero-padded at the end.
pub open spec fn spec_resized(s: Seq<u8>, size: int) -> Seq<u8> {
    Seq::new(size as nat, |j: int| if j < s.len() { s[j] } else { 0u8 })
}

/// What a successful encoding returns: one PNG per chunk of the framed
/// stream, in index order, the last one asking for the best compression, and
/// each decoding back to exactly the chunk it encodes.
pub open spec fn spec_encode_ok(
    width: u32,
    height: u32,
    name: Seq<u8>,
    content: Seq<u8>,
    images: Seq<Seq<u8>>,
) -> bool {
    let cap = spec_capacity(width, height);
    let count = spec_image_count(content.len() as int, cap);
    &&& images.len() == count
    &&& forall|i: int|
        0 <= i < count ==> images[i] == png_of(
            width as nat,
            height as nat,
            spec_chunks(name, content, cap)[i],
            i == count - 1,
        )
    &&& forall|i: int|
        0 <= i < count ==> decoded_image(#[trigger] images[i]) == Some(
            spec_chunks(name, content, cap)[i],
        )
}

/// What decoding a sequence of image byte buffers must return: the image
/// codec's failure if any buffer is undecodable, and otherwise the joined
/// payloads as `spec_join` describes them.
pub open spec fn spec_decode_post(images: Seq<Seq<u8>>, r: Result<DecodedFile, CodecError>) -> bool {
    if exists|i: int| 0 <= i < images.len() && decoded_image(images[i]) is None {
        r == Err::<DecodedFile, CodecError>(CodecError::ImageCodecError)
    } else {
        let payloads = Seq::new(images.len(), |i: int| decoded_image(images[i])->Some_0);
        match spec_join(payloads) {
            None => r == Err::<DecodedFile, CodecError>(CodecError::InvalidHeader),
            Some(t) => if vstd::utf8::valid_utf8(t.0) {
                (r matches Ok(d) && d.name@ == t.0 && d.file_size == t.1 && d.content@ == t.2)
            } else {
                r == Err::<DecodedFile, CodecError>(CodecError::InvalidHeader)
            },
        }
    }
}

/// Resize pixel bytes to one image's exact capacity, zero-padding the tail,
/// and encode them as one PNG image's bytes.
pub fn write_image(width: u32, height: u32, pixels: Vec<u8>, compress: bool) -> (r: Result<
    Vec<u8>,
    CodecError,
>)
    requires
        spec_capacity(width, height) <= usize::MAX,
    ensures
        r matches Ok(b) ==> b@ == png_of(
            width as nat,
            height as nat,
            spec_resized(pixels@, spec_capacity(width, height)),
            compress,
        ),
        r matches Ok(b) ==> decoded_image(b@) == Some(
            spec_resized(pixels@, spec_capacity(width, height)),
        ),
        r is Err ==> r == Err::<Vec<u8>, CodecError>(CodecError::ImageCodecError),
        width >= 1 && height >= 1 ==> r is Ok,
{
    let cap: usize = capacity(width, height);
    let pix_len: usize = pixels.len();
    let mut padded: Vec<u8> = Vec::new();
    let mut j: usize = 0;
    while j < cap
        invariant
            j <= cap,
            padded@.len() == j,
            pixels@.len() == pix_len,
            forall|t: int|
                0 <= t < j ==> #[trigger] padded@[t] == spec_resized(pixels@, cap as int)[t],
        decreases cap - j,
    {
        if j < pixels.len() {
            padded.push(pixels[j]);
        } else {
            padded.push(0u8);
        }
        j += 1;
    }
    assert(padded@ == spec_resized(pixels@, cap as int));
    match png_encode_rgb8(width, height, &padded, compress) {
        Ok(b) => Ok(b),
        Err(()) => Err(CodecError::ImageCodecError),
    }
}

/// Encode a file's name and content into a sequence of PNG images' bytes, one
/// per chunk of the framed stream.
pub fn file_to_image(width: u32, height: u32, name: &Vec<u8>, content: &Vec<u8>) -> (r: Result<
    Vec<Vec<u8>>,
    CodecError,
>)
    requires
        spec_capacity(width, height) <= usize::MAX,
        16 + name@.len() + content@.len() <= usize::MAX,
    ensures
        spec_capacity(width, height) <= spec_header_len(name@) <==> r == Err::<
            Vec<Vec<u8>>,
            CodecError,
        >(CodecError::HeaderTooLarge),
        r matches Ok(images) ==> spec_encode_ok(width, height, name@, content@, spec_views(
            images@,
        )),
        spec_capacity(width, height) > spec_header_len(name@) ==> r is Ok,
{
    let chunks: Vec<Vec<u8>> = match make_chunks(name, content, width, height) {
        Ok(chunks) => chunks,
        Err(e) => {
            return Err(e);
        },
    };
    proof {
        crate::container::lemma_image_count_bounds(
            content@.len() as int,
            spec_capacity(width, height),
        );
        assert(spec_views(chunks@).len() == chunks@.len());
        assert(spec_chunks(name@, content@, spec_capacity(width, height)).len()
            == spec_image_count(content@.len() as int, spec_capacity(width, height)));
    }
    let count: usize = chunks.len();
    let mut images: Vec<Vec<u8>> = Vec::new();
    let mut i: usize = 0;
    while i < count
        invariant
            i <= count,
            count == chunks@.len(),
            spec_views(chunks@) == spec_chunks(
                name@,
                content@,
                spec_capacity(width, height),
            ),
            0 <= spec_capacity(width, height) <= usize::MAX,
            spec_capacity(width, height) > spec_header_len(name@),
            count == spec_image_count(content@.len() as int, spec_capacity(width, height)),
            images@.len() == i,
            forall|k: int|
                0 <= k < i ==> #[trigger] images@[k]@ == png_of(
                    width as nat,
                    height as nat,
                    spec_views(chunks@)[k],
                    k == count - 1,
                ),
            forall|k: int|
                0 <= k < i ==> decoded_image(#[trigger] images@[k]@) == Some(
                    spec_views(chunks@)[k],
                ),
        decreases count - i,
    {
        let compress: bool = i + 1 == count;
        assert(spec_views(chunks@)[i as int] == chunks@[i as int]@);
        assert(chunks@[i as int]@.len() == spec_capacity(width, height));
        proof {
            assert(width >= 1 && height >= 1) by (nonlinear_arith)
                requires
                    width as int * height as int * 3 > 16,
            ;
        }
        match png_encode_rgb8(width, height, &chunks[i], compress) {
            Ok(b) => images.push(b),
            Err(()) => {
                // unreachable: the encoder succeeds on nonzero dimensions
                return Err(CodecError::ImageCodecError);
            },
        }
        i += 1;
    }
    assert(spec_views(images@) =~= Seq::new(
        count as nat,
        |k: int| png_of(
            width as nat,
            height as nat,
            spec_chunks(name@, content@, spec_capacity(width, height))[k],
            k == count - 1,
        ),
    ));
    assert forall|k: int| 0 <= k < count implies decoded_image(
        #[trigger] spec_views(images@)[k],
    ) == Some(spec_chunks(name@, content@, spec_capacity(width, height))[k]) by {
        assert(spec_views(images@)[k] == images@[k]@);
    }
    Ok(images)
}

/// Decode a sequence of PNG images' bytes, supplied in encode-time order,
/// back into the file name, size and content they encode.
pub fn image_to_file(images: &Vec<Vec<u8>>) -> (r: Result<DecodedFile, CodecError>)
    requires
        images@.len() >= 1,
    ensures
        spec_decode_post(spec_views(images@), r),
{
    let mut payloads: Vec<Vec<u8>> = Vec::new();
    let mut i: usize = 0;
    while i < images.len()
        invariant
            i <= images@.len(),
            payloads@.len() == i,
            forall|k: int|
                0 <= k < i ==> (decoded_image(#[trigger] spec_views(images@)[k]) matches Some(p)
                    && payloads@[k]@ == p),
        decreases images@.len() - i,
    {
        match png_decode_bytes(&images[i]) {
            Ok(p) => {
                payloads.push(p);
                assert(spec_views(images@)[i as int] == images@[i as int]@);
            },
            Err(()) => {
                proof {
                    assert(spec_views(images@)[i as int] == images@[i as int]@);
                    assert(decoded_image(spec_views(images@)[i as int]) is None);
                }
                return Err(CodecError::ImageCodecError);
            },
        }
        i += 1;
    }
    assert(spec_views(payloads@) =~= Seq::new(
        images@.len(),
        |k: int| decoded_image(spec_views(images@)[k])->Some_0,
    ));
    decode_payloads(&payloads)
}

/// One request to the codec: encode a file into images, or decode images back
/// into a file.
pub enum Request {
    /// Turn a file's name and content into a sequence of PNG images' bytes.
    Encode { width: u32, height: u32, name: Vec<u8>, content: Vec<u8> },
    /// Turn PNG images' bytes, in encode-time order, back into the file.
    Decode { images: Vec<Vec<u8>> },
}

/// The codec's answer to a `Request`.
pub enum Response {
    /// The encoded images' bytes, in index order.
    Images(Vec<Vec<u8>>),
    /// The decoded file.
    File(DecodedFile),
}

/// Dispatch one request to the direction it asks for.
pub fn run(req: Request) -> (r: Result<Response, CodecError>)
    requires
        match req {
            Request::Encode { width, height, name, content } => spec_capacity(width, height)
                <= usize::MAX && 16 + name@.len() + content@.len() <= usize::MAX,
            Request::Decode { images } => images@.len() >= 1,
        },
    ensures
        req matches Request::Encode { width, height, name, content } ==> {
            &&& (spec_capacity(width, height) <= spec_header_len(name@) <==> r == Err::<
                Response,
                CodecError,
            >(CodecError::HeaderTooLarge))
            &&& (r matches Ok(resp) ==> (resp matches Response::Images(images)
                && spec_encode_ok(width, height, name@, content@, spec_views(images@))))
            &&& (spec_capacity(width, height) > spec_header_len(name@) ==> r is Ok)
        },
        req matches Request::Decode { images } ==> {
            &&& (r matches Ok(resp) ==> (resp matches Response::File(d) && spec_decode_post(
                spec_views(images@),
                Ok(d),
            )))
            &&& (r matches Err(e) ==> spec_decode_post(spec_views(images@), Err(e)))
        },
{
    match req {
        Request::Encode { width, height, name, content } => {
            match file_to_image(width, height, &name, &content) {
                Ok(images) => Ok(Response::Images(images)),
                Err(e) => Err(e),
            }
        },
        Request::Decode { images } => {
            match image_to_file(&images) {
                Ok(d) => Ok(Response::File(d)),
                Err(e) => Err(e),
            }
        },
    }
}

} // verus!
