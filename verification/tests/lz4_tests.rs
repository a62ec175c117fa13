use moonbow::lz4::{decompress, decompress_to_vec, Sink};

struct BufferSink<'a, const SIZE: usize> {
    length: usize,
    buffer: [u8; SIZE],
    dict: &'a [u8],
}

impl<const SIZE: usize> BufferSink<'_, SIZE> {
    fn as_slice(&self) -> &[u8] {
        &self.buffer[..self.length]
    }

    fn get(&mut self, idx: isize) -> u8 {
        if idx < 0 {
            self.dict[(self.dict.len() as isize + idx) as usize]
        } else {
            self.buffer[idx as usize]
        }
    }
}

impl<const SIZE: usize> Sink for BufferSink<'_, SIZE> {
    fn literal(&mut self, data: &[u8]) -> Option<()> {
        self.buffer[self.length..self.length + data.len()].copy_from_slice(data);
        self.length += data.len();
        Some(())
    }

    fn backref(&mut self, offset: usize, length: usize) -> Option<()> {
        let offset = self.length as isize - offset as isize;

        for i in 0..length {
            self.buffer[self.length + i] = self.get(offset + i as isize);
        }
        self.length += length;
        Some(())
    }
}

fn do_test(data: &[u8], compressed: &[u8], dict: &[u8]) {
    let mut sink = BufferSink::<1024> { length: 0, buffer: [0; 1024], dict };

    let result = decompress(compressed, &mut sink);

    assert!(result.is_some());
    assert_eq!(sink.as_slice(), data)
}

/// Encode `data` as a single literal-only block, which also ends the stream.
fn literal_block(data: &[u8]) -> Vec<u8> {
    let mut out = Vec::new();
    let n = data.len();
    if n < 15 {
        out.push((n as u8) << 4);
    } else {
        out.push(0xf0);
        let mut rest = n - 15;
        while rest >= 255 {
            out.push(255);
            rest -= 255;
        }
        out.push(rest as u8);
    }
    out.extend_from_slice(data);
    out
}

#[test]
fn empty() {
    do_test(b"", b"\0", &[]);
}

#[test]
fn vec_sink_decompresses_with_overlap() {
    // Literals "ab", then six bytes copied from one byte back: the copy
    // overlaps its own output, repeating "b".
    let compressed: &[u8] = &[0x22, 0x61, 0x62, 0x01, 0x00, 0x00];
    let mut sink = moonbow::lz4::VecSink::new(Vec::new());
    assert!(decompress(compressed, &mut sink).is_some());
    assert_eq!(sink.out, b"abbbbbbb");
}

#[test]
fn vec_sink_refuses_a_reach_below_the_dictionary() {
    // A back-reference farther back than output plus dictionary stops the
    // decompressor.
    let compressed: &[u8] = &[0x10, 0x61, 0x09, 0x00, 0x00];
    let mut sink = moonbow::lz4::VecSink::new(b"12345".to_vec());
    assert!(decompress(compressed, &mut sink).is_none());

    let compressed_ok: &[u8] = &[0x12, 0x61, 0x06, 0x00, 0x00];
    let mut sink = moonbow::lz4::VecSink::new(b"12345".to_vec());
    assert!(decompress(compressed_ok, &mut sink).is_some());
    assert_eq!(sink.out, b"a12345a");
}

#[test]
fn lorem1() {
    let data: &[u8] = b"Lorem ipsum dolor sit amet, consectetur adipiscing elit, sed do \
eiusmod tempor incididunt ut labore et dolore magna aliqua.";
    let compressed = literal_block(data);
    do_test(data, &compressed, &[]);
}

#[test]
fn lorem2() {
    // One block of literals "Lo", then a four-byte match reaching two bytes
    // back into the dictionary, then an empty literal block ending the
    // stream: "Lo" + "em" + "Lo" from the output itself.
    let compressed: &[u8] = &[0x20, 0x4c, 0x6f, 0x04, 0x00, 0x00];
    do_test(b"LoemLo", compressed, b"Lorem");
}

#[test]
fn long_literal_runs_use_extension_bytes() {
    // 15 + 255 + 5 = 275 literal bytes, spelled with two extension bytes.
    let data: Vec<u8> = (0..275u32).map(|i| (i % 251) as u8).collect();
    let compressed = literal_block(&data);
    assert_eq!(&compressed[..3], &[0xf0, 0xff, 0x05]);
    do_test(&data, &compressed, &[]);
}

#[test]
fn decompress_to_vec_succeeds_on_well_formed_streams() {
    // The same streams as above, through the all-accepting in-memory path.
    assert_eq!(decompress_to_vec(b"\0", Vec::new()), Some(Vec::new()));

    let out = decompress_to_vec(&[0x22, 0x61, 0x62, 0x01, 0x00, 0x00], Vec::new()).unwrap();
    assert_eq!(out, b"abbbbbbb");

    let out = decompress_to_vec(&[0x12, 0x61, 0x06, 0x00, 0x00], b"12345".to_vec()).unwrap();
    assert_eq!(out, b"a12345a");
}

#[test]
fn decompress_to_vec_rejects_malformed_streams() {
    // Truncated: no token at all.
    assert_eq!(decompress_to_vec(b"", Vec::new()), None);
    // Truncated: fewer literals than announced.
    assert_eq!(decompress_to_vec(&[0x30, 0x61], Vec::new()), None);
    // A back-reference reaching below the dictionary.
    assert_eq!(decompress_to_vec(&[0x10, 0x61, 0x09, 0x00, 0x00], b"12345".to_vec()), None);
}
