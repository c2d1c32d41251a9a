//! End-to-end tests of the container codec: framing, chunking, PNG round
//! trips, and the error cases.

use imagefy::container::{decode_payloads, make_chunks, CodecError};
use imagefy::pipeline::{file_to_image, image_to_file, run, write_image, Request, Response};

fn name_bytes() -> Vec<u8> {
    b"report.txt".to_vec()
}

fn hello() -> Vec<u8> {
    b"hello".to_vec()
}

#[test]
fn round_trip_single_image() {
    let images = file_to_image(10, 10, &name_bytes(), &hello()).unwrap();
    assert_eq!(images.len(), 1);
    let decoded = image_to_file(&images).unwrap();
    assert_eq!(decoded.name, name_bytes());
    assert_eq!(decoded.file_size, 5);
    assert_eq!(decoded.content, hello());
}

#[test]
fn header_too_large_small_capacity() {
    // capacity 2 * 2 * 3 = 12 cannot hold the 26-byte header
    let r = file_to_image(2, 2, &name_bytes(), &hello());
    assert_eq!(r.unwrap_err(), CodecError::HeaderTooLarge);
}

#[test]
fn header_capacity_boundary() {
    // a 2-byte name makes an 18-byte header: capacity 1 * 6 * 3 = 18 is not
    // enough (it must exceed the header), capacity 21 is
    let name = b"ab".to_vec();
    let r = file_to_image(1, 6, &name, &hello());
    assert_eq!(r.unwrap_err(), CodecError::HeaderTooLarge);

    // capacity 21 is accepted, but ceil(5 / 21) = 1 image leaves only
    // 21 - 18 = 3 bytes of room for content: the decoded file is short
    let images = file_to_image(1, 7, &name, &hello()).unwrap();
    assert_eq!(images.len(), 1);
    let decoded = image_to_file(&images).unwrap();
    assert_eq!(decoded.name, name);
    assert_eq!(decoded.file_size, 5);
    assert_eq!(decoded.content, hello()[..3].to_vec());
}

#[test]
fn payload_layout_exact() {
    let chunks = make_chunks(&name_bytes(), &hello(), 10, 10).unwrap();
    assert_eq!(chunks.len(), 1);
    let chunk = &chunks[0];
    assert_eq!(chunk.len(), 300);
    assert_eq!(&chunk[0..8], &[10, 0, 0, 0, 0, 0, 0, 0]);
    assert_eq!(&chunk[8..18], b"report.txt".as_slice());
    assert_eq!(&chunk[18..26], &[5, 0, 0, 0, 0, 0, 0, 0]);
    assert_eq!(&chunk[26..31], b"hello".as_slice());
    assert!(chunk[31..].iter().all(|&b| b == 0));
}

#[test]
fn zero_byte_file() {
    let empty: Vec<u8> = Vec::new();
    let images = file_to_image(10, 10, &name_bytes(), &empty).unwrap();
    assert_eq!(images.len(), 1);
    let decoded = image_to_file(&images).unwrap();
    assert_eq!(decoded.name, name_bytes());
    assert_eq!(decoded.file_size, 0);
    assert!(decoded.content.is_empty());
}

#[test]
fn multi_chunk_million_bytes() {
    let content: Vec<u8> = (0..1_000_000u32).map(|i| (i % 251) as u8).collect();
    let images = file_to_image(10, 10, &name_bytes(), &content).unwrap();
    // ceil(1_000_000 / 300), which equals ceil((1_000_000 - 274) / 300) + 1
    assert_eq!(images.len(), 3334);
    assert_eq!(images.len(), (1_000_000 - 274 + 299) / 300 + 1);
    let decoded = image_to_file(&images).unwrap();
    assert_eq!(decoded.file_size, 1_000_000);
    assert_eq!(decoded.content.len(), 1_000_000);
    assert_eq!(decoded.content, content);
}

#[test]
fn chunk_count_boundaries() {
    // 274 content bytes fill the first image exactly: header 26 + 274 = 300
    let content = vec![7u8; 274];
    let images = file_to_image(10, 10, &name_bytes(), &content).unwrap();
    assert_eq!(images.len(), 1);
    let decoded = image_to_file(&images).unwrap();
    assert_eq!(decoded.content, content);

    // 301 content bytes push the count to ceil(301 / 300) = 2 images
    let content = vec![7u8; 301];
    let images = file_to_image(10, 10, &name_bytes(), &content).unwrap();
    assert_eq!(images.len(), 2);
    let decoded = image_to_file(&images).unwrap();
    assert_eq!(decoded.content, content);
}

#[test]
fn header_recovered_from_first_image_alone() {
    let content: Vec<u8> = (0..10_000u32).map(|i| (i % 241) as u8).collect();
    let images = file_to_image(10, 10, &name_bytes(), &content).unwrap();
    assert!(images.len() > 1);
    let first_only = vec![images[0].clone()];
    let decoded = image_to_file(&first_only).unwrap();
    // the header is whole in image 0, whatever the chunk count
    assert_eq!(decoded.name, name_bytes());
    assert_eq!(decoded.file_size, 10_000);
    // with the other images missing, the output is simply short
    assert_eq!(decoded.content, content[..274].to_vec());
}

#[test]
fn padding_zeros_in_last_chunk() {
    // two chunks: stream is 26 + 400 = 426 bytes, the second holds 126 of them
    let content = vec![9u8; 400];
    let chunks = make_chunks(&name_bytes(), &content, 10, 10).unwrap();
    assert_eq!(chunks.len(), 2);
    assert_eq!(chunks[1].len(), 300);
    assert!(chunks[1][..126].iter().all(|&b| b == 9));
    assert!(chunks[1][126..].iter().all(|&b| b == 0));
}

#[test]
fn png_payload_matches_chunk() {
    let content = vec![42u8; 500];
    let chunks = make_chunks(&name_bytes(), &content, 10, 10).unwrap();
    let images = file_to_image(10, 10, &name_bytes(), &content).unwrap();
    assert_eq!(images.len(), chunks.len());
    for (png, chunk) in images.iter().zip(chunks.iter()) {
        let img = image::load_from_memory(png).unwrap();
        assert_eq!(img.width(), 10);
        assert_eq!(img.height(), 10);
        assert_eq!(img.as_bytes(), chunk.as_slice());
    }
}

#[test]
fn invalid_header_short_payload() {
    let payloads = vec![vec![0u8; 10]];
    let r = decode_payloads(&payloads);
    assert_eq!(r.unwrap_err(), CodecError::InvalidHeader);
}

#[test]
fn invalid_header_name_length_too_big() {
    let mut payload = vec![0u8; 20];
    payload[0] = 100;  // name_length 100 cannot fit a 20-byte payload
    let payloads = vec![payload];
    let r = decode_payloads(&payloads);
    assert_eq!(r.unwrap_err(), CodecError::InvalidHeader);
}

#[test]
fn invalid_header_non_utf8_name() {
    let bad_name = vec![0xffu8, 0xfe, 0xfd];
    let images = file_to_image(10, 10, &bad_name, &hello()).unwrap();
    let r = image_to_file(&images);
    assert_eq!(r.unwrap_err(), CodecError::InvalidHeader);
}

#[test]
fn image_codec_error_on_garbage() {
    let garbage = vec![vec![1u8, 2, 3, 4, 5]];
    let r = image_to_file(&garbage);
    assert_eq!(r.unwrap_err(), CodecError::ImageCodecError);
}

#[test]
fn decode_stops_at_declared_size() {
    let mut images = file_to_image(10, 10, &name_bytes(), &hello()).unwrap();
    // a surplus all-zero image must not add bytes past the declared size
    let zeros = write_image(10, 10, Vec::new(), false).unwrap();
    images.push(zeros);
    let decoded = image_to_file(&images).unwrap();
    assert_eq!(decoded.file_size, 5);
    assert_eq!(decoded.content, hello());
}

#[test]
fn compression_choice_keeps_payload() {
    let pixels = vec![8u8; 300];
    let fast = write_image(10, 10, pixels.clone(), false).unwrap();
    let best = write_image(10, 10, pixels.clone(), true).unwrap();
    let from_fast = image::load_from_memory(&fast).unwrap();
    let from_best = image::load_from_memory(&best).unwrap();
    assert_eq!(from_fast.as_bytes(), pixels.as_slice());
    assert_eq!(from_best.as_bytes(), pixels.as_slice());
}

#[test]
fn run_dispatches_encode() {
    let req = Request::Encode { width: 10, height: 10, name: name_bytes(), content: hello() };
    match run(req).unwrap() {
        Response::Images(images) => {
            assert_eq!(images.len(), 1);
        },
        Response::File(_) => panic!("encode request answered with a file"),
    }
}

#[test]
fn run_dispatches_decode() {
    let images = file_to_image(10, 10, &name_bytes(), &hello()).unwrap();
    let req = Request::Decode { images };
    match run(req).unwrap() {
        Response::File(decoded) => {
            assert_eq!(decoded.name, name_bytes());
            assert_eq!(decoded.content, hello());
        },
        Response::Images(_) => panic!("decode request answered with images"),
    }
}
