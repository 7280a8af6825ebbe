use monetproxy::blocks::Block;
use monetproxy::blocks::Blocks;
use monetproxy::blocks::CLOSE_MESSAGE;

fn flat(blocks: &[Block]) -> Vec<(Vec<u8>, bool)> {
    blocks.iter().map(|b| (b.payload.clone(), b.last)).collect()
}

fn feed(parser: &mut Blocks, chunks: &[&[u8]]) -> Vec<(Vec<u8>, bool)> {
    let mut out = Vec::new();
    for chunk in chunks {
        out.extend(flat(&parser.process(chunk)));
    }
    out
}

#[test]
fn new_parser_is_empty() {
    let parser = Blocks::new();
    assert_eq!(parser.buffered(), 0);
    assert_eq!(parser.describe_eof(), "closed its side of the connection");
}

#[test]
fn single_block_in_one_chunk() {
    let mut parser = Blocks::new();
    let blocks = parser.process(b"\x0b\x00hello");
    assert_eq!(flat(&blocks), vec![(b"hello".to_vec(), true)]);
    assert_eq!(parser.buffered(), 0);
}

#[test]
fn header_gives_length_and_flag() {
    // 0x0008: four payload bytes, not the last block
    let mut parser = Blocks::new();
    let blocks = parser.process(b"\x08\x00abcd");
    assert_eq!(flat(&blocks), vec![(b"abcd".to_vec(), false)]);
    // 0x0009: four payload bytes, the last block
    let blocks = parser.process(b"\x09\x00hello");
    assert_eq!(flat(&blocks), vec![(b"hell".to_vec(), true)]);
    assert_eq!(parser.buffered(), 1);
}

#[test]
fn header_is_little_endian() {
    let mut data = vec![0x01u8, 0x02u8];
    data.extend(std::iter::repeat(0x61u8).take(256));
    let mut parser = Blocks::new();
    let blocks = parser.process(&data);
    assert_eq!(blocks.len(), 1);
    assert_eq!(blocks[0].payload.len(), 256);
    assert!(blocks[0].last);
    assert_eq!(parser.buffered(), 0);
}

#[test]
fn largest_block() {
    let mut data = vec![0xffu8, 0xffu8];
    data.extend(std::iter::repeat(0x7au8).take(32767));
    let mut parser = Blocks::new();
    let blocks = parser.process(&data[..20000]);
    assert!(blocks.is_empty());
    assert_eq!(parser.buffered(), 20000);
    let blocks = parser.process(&data[20000..]);
    assert_eq!(blocks.len(), 1);
    assert_eq!(blocks[0].payload.len(), 32767);
    assert!(blocks[0].last);
    assert_eq!(parser.buffered(), 0);
}

#[test]
fn empty_terminator() {
    let mut parser = Blocks::new();
    let blocks = parser.process(&[0x01, 0x00]);
    assert_eq!(flat(&blocks), vec![(Vec::new(), true)]);
    assert_eq!(parser.buffered(), 0);
}

#[test]
fn empty_block_that_does_not_end_the_message() {
    let mut parser = Blocks::new();
    let blocks = parser.process(&[0x00, 0x00, 0x01, 0x00]);
    assert_eq!(flat(&blocks), vec![(Vec::new(), false), (Vec::new(), true)]);
}

#[test]
fn split_header() {
    let mut parser = Blocks::new();
    assert!(parser.process(&[0x0b]).is_empty());
    assert_eq!(parser.buffered(), 1);
    assert!(parser.process(&[0x00, 0x68, 0x65]).is_empty());
    assert_eq!(parser.buffered(), 4);
    let blocks = parser.process(&[0x6c, 0x6c, 0x6f]);
    assert_eq!(flat(&blocks), vec![(b"hello".to_vec(), true)]);
    assert_eq!(parser.buffered(), 0);
}

#[test]
fn several_blocks_in_one_chunk() {
    let mut parser = Blocks::new();
    let blocks = parser.process(b"\x04\x00ab\x0b\x00cdefg\x02");
    assert_eq!(
        flat(&blocks),
        vec![(b"ab".to_vec(), false), (b"cdefg".to_vec(), true)]
    );
    assert_eq!(parser.buffered(), 1);
}

#[test]
fn empty_chunk_changes_nothing() {
    let mut parser = Blocks::new();
    assert!(parser.process(&[0x0b, 0x00, 0x68]).is_empty());
    assert!(parser.process(&[]).is_empty());
    assert_eq!(parser.buffered(), 3);
}

#[test]
fn any_chunking_gives_the_same_blocks() {
    let stream: &[u8] = b"\x04\x00ab\x01\x00\x0b\x00cdefg\x00\x00\x07\x00xyz\x09";
    let mut whole = Blocks::new();
    let expected = feed(&mut whole, &[stream]);
    assert_eq!(expected.len(), 5);
    for cut1 in 0..=stream.len() {
        for cut2 in cut1..=stream.len() {
            let mut parser = Blocks::new();
            let got = feed(
                &mut parser,
                &[&stream[..cut1], &stream[cut1..cut2], &stream[cut2..]],
            );
            assert_eq!(got, expected);
            assert_eq!(parser.buffered(), whole.buffered());
        }
    }
    let mut bytewise = Blocks::new();
    let mut got = Vec::new();
    for b in stream {
        got.extend(flat(&bytewise.process(&[*b])));
    }
    assert_eq!(got, expected);
    assert_eq!(bytewise.buffered(), 1);
}

#[test]
fn eof_descriptions() {
    let mut parser = Blocks::new();
    assert_eq!(parser.describe_eof(), CLOSE_MESSAGE);
    parser.process(&[0x0b]);
    assert_eq!(parser.describe_eof(), "eof on incomplete block header");
    parser.process(&[0x00]);
    assert_eq!(parser.describe_eof(), "eof on incomplete block body");
    parser.process(b"hell");
    assert_eq!(parser.describe_eof(), "eof on incomplete block body");
    parser.process(b"o");
    assert_eq!(parser.describe_eof(), "closed its side of the connection");
}
