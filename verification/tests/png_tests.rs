use upscale::png_stream::{demux_stream, extract_next_image, FormatError, PngStreamSplitter};

const SIG: [u8; 8] = [0x89, 0x50, 0x4E, 0x47, 0x0D, 0x0A, 0x1A, 0x0A];

fn chunk(ctype: &[u8; 4], payload: &[u8]) -> Vec<u8> {
    let mut v = Vec::new();
    v.extend_from_slice(&(payload.len() as u32).to_be_bytes());
    v.extend_from_slice(ctype);
    v.extend_from_slice(payload);
    v.extend_from_slice(&[0xAA, 0xBB, 0xCC, 0xDD]); // checksum, not verified
    v
}

fn image(payloads: &[&[u8]]) -> Vec<u8> {
    let mut v = SIG.to_vec();
    for p in payloads {
        v.extend_from_slice(&chunk(b"IDAT", p));
    }
    v.extend_from_slice(&chunk(b"IEND", &[]));
    v
}

#[test]
fn extract_single_image() {
    let img = image(&[b"hello"]);
    let r = extract_next_image(&img, 0);
    assert_eq!(r, Ok(img.len()));
}

#[test]
fn extract_leaves_position_at_next_image() {
    let a = image(&[b"one"]);
    let b = image(&[b"two", b"three"]);
    let mut stream = a.clone();
    stream.extend_from_slice(&b);
    let end_a = extract_next_image(&stream, 0).unwrap();
    assert_eq!(end_a, a.len());
    let end_b = extract_next_image(&stream, end_a).unwrap();
    assert_eq!(end_b, stream.len());
}

#[test]
fn demux_two_images_round_trip() {
    let a = image(&[b"frame zero data"]);
    let b = image(&[&[0u8; 300][..], b"tail"]);
    let mut stream = a.clone();
    stream.extend_from_slice(&b);
    let images = demux_stream(&stream).unwrap();
    assert_eq!(images.len(), 2);
    assert_eq!(images[0], a);
    assert_eq!(images[1], b);
    assert_eq!(images[0].len() + images[1].len(), stream.len());
}

#[test]
fn demux_empty_stream_is_no_images() {
    let images = demux_stream(&[]).unwrap();
    assert!(images.is_empty());
}

#[test]
fn signature_bytes_inside_payload_do_not_resync() {
    // A payload that contains the PNG signature must be skipped by the
    // declared chunk length, not mistaken for the next image.
    let a = image(&[&SIG]);
    let b = image(&[b"x"]);
    let mut stream = a.clone();
    stream.extend_from_slice(&b);
    let images = demux_stream(&stream).unwrap();
    assert_eq!(images, vec![a, b]);
}

#[test]
fn end_tag_inside_payload_does_not_end_the_image() {
    // The end-of-image tag counts only at a chunk-header position.
    let img = image(&[b"xxIENDyy", b"more"]);
    assert_eq!(extract_next_image(&img, 0), Ok(img.len()));
}

#[test]
fn bad_signature_is_rejected() {
    let mut img = image(&[b"x"]);
    img[0] = 0x88;
    assert_eq!(extract_next_image(&img, 0), Err(FormatError::BadSignature));
    assert_eq!(demux_stream(&img), Err(FormatError::BadSignature));
}

#[test]
fn missing_end_chunk_is_truncation() {
    // A stream whose last image lacks the trailing end-of-image chunk.
    let good = image(&[b"a"]);
    let mut bad = SIG.to_vec();
    bad.extend_from_slice(&chunk(b"IDAT", b"payload"));
    let mut stream = good;
    stream.extend_from_slice(&bad);
    assert_eq!(demux_stream(&stream), Err(FormatError::Truncated));
}

#[test]
fn stream_ending_inside_chunk_is_truncation() {
    let mut img = image(&[b"abcdef"]);
    img.truncate(img.len() - 3);
    assert_eq!(extract_next_image(&img, 0), Err(FormatError::Truncated));
}

#[test]
fn stream_ending_inside_header_is_truncation() {
    let mut img = image(&[]);
    img.truncate(11); // signature plus 3 header bytes
    assert_eq!(extract_next_image(&img, 0), Err(FormatError::Truncated));
}

#[test]
fn empty_stream_has_no_image() {
    assert_eq!(extract_next_image(&[], 0), Err(FormatError::Truncated));
}

#[test]
fn splitter_streams_one_image_in_portions() {
    let payload = [7u8; 10];
    let img = image(&[&payload]);
    let mut sp = PngStreamSplitter::new();
    let mut pos = 0usize;
    let mut done = false;
    while !done {
        let n = sp.needed() as usize;
        let take = if sp.in_data_phase() { n.min(4) } else { n };
        let portion = &img[pos..pos + take];
        done = sp.feed(portion).unwrap();
        pos += take;
    }
    assert_eq!(pos, img.len());
}

#[test]
fn splitter_reports_wrong_magic() {
    let mut sp = PngStreamSplitter::new();
    let r = sp.feed(&[0u8; 8]);
    assert_eq!(r, Err(FormatError::BadSignature));
}

#[test]
fn splitter_resets_between_images() {
    let a = image(&[b"first"]);
    let b = image(&[]);
    let mut stream = a.clone();
    stream.extend_from_slice(&b);
    let mut sp = PngStreamSplitter::new();
    let mut pos = 0usize;
    let mut completed = 0usize;
    let mut boundaries = Vec::new();
    while pos < stream.len() {
        let n = sp.needed() as usize;
        let take = if sp.in_data_phase() { n.min(7) } else { n };
        let portion = &stream[pos..pos + take];
        pos += take;
        if sp.feed(portion).unwrap() {
            completed += 1;
            boundaries.push(pos);
        }
    }
    assert_eq!(completed, 2);
    assert_eq!(boundaries, vec![a.len(), stream.len()]);
}
