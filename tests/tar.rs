use std::io::{Cursor, Read, Seek, SeekFrom};

use v7tar::constants::{BLOCK_SIZE, TarBlock};
use v7tar::utils::{
    compute_checksum, compute_signed_checksum, parse_octal, parse_signed_octal, parse_size,
    trimmed_osstr, trimmed_str,
};
use v7tar::{LinkType, TarError, TarHeader, TarReader};

/// Write `value` in octal into `field`, zero-padded and ended by NUL.
fn put_octal(field: &mut [u8], value: u64) {
    let text = format!("{:0width$o}", value, width = field.len() - 1);
    field[..text.len()].copy_from_slice(text.as_bytes());
    field[text.len()] = 0;
}

/// Store the checksum of a block in its checksum field.
fn seal(block: &mut TarBlock) {
    let sum = compute_checksum(block);
    let text = format!("{:06o}\0 ", sum);
    block[148..156].copy_from_slice(text.as_bytes());
}

/// A sealed header block for a regular file.
fn header_block(name: &str, size: u64) -> TarBlock {
    let mut block = [0u8; BLOCK_SIZE];
    block[..name.len()].copy_from_slice(name.as_bytes());
    put_octal(&mut block[100..108], 0o644);
    put_octal(&mut block[108..116], 1000);
    put_octal(&mut block[116..124], 1000);
    put_octal(&mut block[124..136], size);
    put_octal(&mut block[136..148], 1_500_000_000);
    block[156] = b'0';
    seal(&mut block);
    block
}

/// An archive of the given entries, each payload padded to whole blocks,
/// followed by two blocks of zeros.
fn archive(entries: &[(&str, &[u8])]) -> Vec<u8> {
    let mut out = Vec::new();
    for (name, payload) in entries {
        out.extend_from_slice(&header_block(name, payload.len() as u64));
        out.extend_from_slice(payload);
        let pad = (BLOCK_SIZE - payload.len() % BLOCK_SIZE) % BLOCK_SIZE;
        out.extend(std::iter::repeat(0u8).take(pad));
    }
    out.extend(std::iter::repeat(0u8).take(2 * BLOCK_SIZE));
    out
}

/// Move the reader to its next entry, doing the input it asks for.
fn next_header<R: Read + Seek>(reader: &mut TarReader<R>) -> Result<TarHeader, TarError> {
    let skip = reader.start_next()?;
    if skip > 0 {
        if let Err(e) = reader.handle.seek(SeekFrom::Current(skip as i64)) {
            reader.on_io_error();
            return Err(TarError::from(e));
        }
    }
    let read = match reader.handle.read(&mut reader.buf) {
        Ok(n) => n,
        Err(e) => {
            reader.on_io_error();
            return Err(TarError::from(e));
        }
    };
    reader.on_block(read)
}

/// Read the rest of the current entry's payload, in small pieces.
fn read_payload<R: Read + Seek>(reader: &mut TarReader<R>) -> Vec<u8> {
    let mut out = Vec::new();
    let mut chunk = [0u8; 7];
    loop {
        let max_len = reader.payload_limit(chunk.len());
        let n = reader.handle.read(&mut chunk[..max_len]).unwrap();
        reader.on_payload_read(n);
        if n == 0 {
            return out;
        }
        out.extend_from_slice(&chunk[..n]);
    }
}

const CARGO_TOML: &str = "[package]\nname = \"tar\"\nversion = \"0.1.0\"\n\n[dependencies]\nitertools = \"0.7\"\nnum = \"0.2\"\n";

#[test]
fn test_trimmed_str() {
    assert_eq!("foo", trimmed_str(b"foo\0bar\0").unwrap());
}

#[test]
fn test_v7_parse() {
    let data = archive(&[("Cargo.toml", CARGO_TOML.as_bytes())]);
    let mut block = [0u8; 512];
    block.copy_from_slice(&data[..512]);

    let header = TarHeader::from_v7_header(&block).unwrap();
    assert_eq!(LinkType::Normal, header.link);
}

#[test]
fn test_checksum() {
    let data = archive(&[("Cargo.toml", CARGO_TOML.as_bytes())]);
    let mut block = [0u8; 512];
    block.copy_from_slice(&data[..512]);

    assert_eq!(true, TarHeader::validate_checksum(&block));
}

#[test]
fn test_reader() {
    let data = archive(&[("Cargo.toml", CARGO_TOML.as_bytes())]);
    let mut reader = TarReader::new(Cursor::new(data));
    {
        let header = next_header(&mut reader).unwrap();
        assert_eq!("Cargo.toml", std::str::from_utf8(&header.name).unwrap());

        let buf = String::from_utf8(read_payload(&mut reader)).unwrap();
        assert_eq!(CARGO_TOML, buf);
    }

    let err = next_header(&mut reader).err().unwrap();
    assert_eq!(TarError::FileEnd, err);
}

#[test]
fn trimmed_str_edge_cases() {
    assert_eq!(None, trimmed_str(b""));
    assert_eq!(None, trimmed_str(b"\0abc"));
    assert_eq!(None, trimmed_str(b"abc"));
    assert_eq!(None, trimmed_str(b"\xff\xfe\0"));
    assert_eq!(Some("h\u{e9}"), trimmed_str(b"h\xc3\xa9\0\0"));
}

#[test]
fn trimmed_osstr_keeps_raw_bytes() {
    assert_eq!(Some(&b"\xff\xfe"[..]), trimmed_osstr(b"\xff\xfe\0x"));
    assert_eq!(Some(&b"abc"[..]), trimmed_osstr(b"abc\0\0\0"));
    assert_eq!(None, trimmed_osstr(b"\0abc"));
    assert_eq!(None, trimmed_osstr(b"abc"));
    assert_eq!(None, trimmed_osstr(b""));
}

#[test]
fn octal_fields_parse() {
    assert_eq!(0o644, parse_octal(b"0000644\0").unwrap());
    assert!(parse_octal(b"+17\0").is_err());
    assert_eq!(15, parse_octal(b"17\0").unwrap());
    assert_eq!(0, parse_octal(b"\0\0\0\0\0\0\0\0").unwrap());
    assert_eq!(0, parse_octal(b"").unwrap());
    assert!(parse_octal(b"0000648\0").is_err());
    assert!(parse_octal(b"-17\0").is_err());
    assert!(parse_octal(b" 644\0").is_err());
    assert!(parse_octal(b"+\0").is_err());
    // No terminating NUL: the field holds no text.
    assert!(parse_octal(b"00000644").is_err());
    assert_eq!(11, parse_size(b"00000000013\0").unwrap());
    assert_eq!(0o77777777777, parse_size(b"77777777777\0").unwrap());
    assert!(parse_size(b"\x80\0\0\0\0\0\0\0\0\0\0\x01").is_err());
    assert_eq!(-8, parse_signed_octal(b"-10\0").unwrap());
    assert_eq!(8, parse_signed_octal(b"10\0").unwrap());
    assert!(parse_signed_octal(b"-\0").is_err());
    assert!(parse_signed_octal(b"+10\0").is_err());
    assert!(parse_size(b"+0000000013\0").is_err());
}

#[test]
fn checksum_values() {
    let zeros = [0u8; 512];
    assert_eq!(256, compute_checksum(&zeros));
    assert_eq!(256, compute_signed_checksum(&zeros));

    let mut ones = [0xffu8; 512];
    // The checksum field counts as spaces whatever it holds.
    assert_eq!(504 * 255 + 256, compute_checksum(&ones));
    assert_eq!(-504 + 256, compute_signed_checksum(&ones));
    ones[148] = 0;
    assert_eq!(504 * 255 + 256, compute_checksum(&ones));

    let mut block = [0u8; 512];
    block[0] = 1;
    block[511] = 200;
    assert_eq!(1 + 200 + 256, compute_checksum(&block));
    assert_eq!(1 + (200 - 256) + 256, compute_signed_checksum(&block));
}

#[test]
fn stored_checksum_validates() {
    let mut block = [0u8; 512];
    block[..5].copy_from_slice(b"a.txt");
    block[300] = 0xf0;
    let sum = compute_checksum(&block);
    let text = format!("{:o}\0", sum);
    block[148..148 + text.len()].copy_from_slice(text.as_bytes());
    assert!(TarHeader::validate_checksum(&block));
}

#[test]
fn signed_checksum_validates() {
    let mut block = [0u8; 512];
    block[..5].copy_from_slice(b"a.txt");
    for b in block[200..300].iter_mut() {
        *b = 0x80;
    }
    let sum = compute_signed_checksum(&block);
    assert!(sum < 0);
    let text = format!("-{:o}\0", -sum);
    block[148..148 + text.len()].copy_from_slice(text.as_bytes());
    assert!(TarHeader::validate_checksum(&block));
    assert!(TarHeader::from_block(&block).is_ok());
}

#[test]
fn wrong_checksum_fails() {
    let mut block = header_block("a.txt", 3);
    assert!(TarHeader::validate_checksum(&block));
    block[0] = b'b';
    assert!(!TarHeader::validate_checksum(&block));
    assert_eq!(TarError::CheckSum, TarHeader::from_block(&block).err().unwrap());
    block[148..156].copy_from_slice(b"zzzzzz\0 ");
    assert!(!TarHeader::validate_checksum(&block));
}

#[test]
fn decode_is_deterministic() {
    let block = header_block("same.bin", 1234);
    let copy = block;
    let a = TarHeader::from_block(&block).unwrap();
    let b = TarHeader::from_block(&copy).unwrap();
    assert_eq!(a.name, b.name);
    assert_eq!(a.mode, b.mode);
    assert_eq!(a.owner, b.owner);
    assert_eq!(a.group, b.group);
    assert_eq!(a.size, b.size);
    assert_eq!(a.mtime, b.mtime);
    assert_eq!(a.link, b.link);
    assert_eq!(a.link_name, b.link_name);
}

#[test]
fn header_fields_decode() {
    let mut block = header_block("dir/file.txt", 1234);
    block[156] = b'2';
    block[157..163].copy_from_slice(b"target");
    seal(&mut block);
    let h = TarHeader::from_block(&block).unwrap();
    assert_eq!(b"dir/file.txt".to_vec(), h.name);
    assert_eq!(0o644, h.mode);
    assert_eq!(1000, h.owner);
    assert_eq!(1000, h.group);
    assert_eq!(1234, h.size);
    assert_eq!(1_500_000_000, h.mtime);
    assert_eq!(LinkType::Symbolic, h.link);
    assert_eq!(Some(b"target".to_vec()), h.link_name);
}

#[test]
fn block_span_values() {
    let mut h = TarHeader::from_block(&header_block("x", 0)).unwrap();
    assert_eq!(0, h.block_size());
    h.size = 512;
    assert_eq!(1, h.block_size());
    h.size = 513;
    assert_eq!(2, h.block_size());
    h.size = 1024;
    assert_eq!(2, h.block_size());
    h.size = 1;
    assert_eq!(1, h.block_size());
}

#[test]
fn empty_name_fails() {
    let mut block = header_block("x", 0);
    block[0] = 0;
    seal(&mut block);
    assert_eq!(TarError::EmptyName, TarHeader::from_block(&block).err().unwrap());
    assert_eq!(TarError::EmptyName, TarHeader::from_v7_header(&block).err().unwrap());
}

#[test]
fn name_is_trimmed_at_nul() {
    let h = TarHeader::from_block(&header_block("abc", 0)).unwrap();
    assert_eq!(b"abc".to_vec(), h.name);
    assert_eq!(None, h.link_name);
}

#[test]
fn link_types_decode() {
    assert_eq!(LinkType::Normal, LinkType::from(0u8));
    assert_eq!(LinkType::Normal, LinkType::from(b'0'));
    assert_eq!(LinkType::Hard, LinkType::from(b'1'));
    assert_eq!(LinkType::Symbolic, LinkType::from(b'2'));
    assert_eq!(LinkType::Other('x'), LinkType::from(b'x'));
    let mut block = header_block("l", 0);
    block[156] = b'1';
    seal(&mut block);
    assert_eq!(LinkType::Hard, TarHeader::from_block(&block).unwrap().link);
}

#[test]
fn reads_one_entry_then_ends() {
    let data = archive(&[("hello.txt", b"hello world")]);
    let mut reader = TarReader::new(Cursor::new(data));
    let h = next_header(&mut reader).unwrap();
    assert_eq!(b"hello.txt".to_vec(), h.name);
    assert_eq!(11, h.size);
    assert_eq!(b"hello world".to_vec(), read_payload(&mut reader));
    assert_eq!(TarError::FileEnd, next_header(&mut reader).err().unwrap());
    // The reader stays ended.
    assert_eq!(TarError::FileEnd, next_header(&mut reader).err().unwrap());
}

#[test]
fn skips_an_unread_payload() {
    let big = vec![b'z'; 700];
    let data = archive(&[("first.bin", &big), ("second.txt", b"2nd")]);
    let mut reader = TarReader::new(Cursor::new(data));
    let first = next_header(&mut reader).unwrap();
    assert_eq!(700, first.size);
    let second = next_header(&mut reader).unwrap();
    assert_eq!(b"second.txt".to_vec(), second.name);
    assert_eq!(3, second.size);
    assert_eq!(b"2nd".to_vec(), read_payload(&mut reader));
}

#[test]
fn skips_a_partly_read_payload() {
    let big = vec![b'q'; 600];
    let data = archive(&[("first.bin", &big), ("second.txt", b"two")]);
    let mut reader = TarReader::new(Cursor::new(data));
    next_header(&mut reader).unwrap();
    let mut chunk = [0u8; 100];
    let max_len = reader.payload_limit(chunk.len());
    assert_eq!(100, max_len);
    let n = reader.handle.read(&mut chunk[..max_len]).unwrap();
    reader.on_payload_read(n);
    let second = next_header(&mut reader).unwrap();
    assert_eq!(b"second.txt".to_vec(), second.name);
    assert_eq!(b"two".to_vec(), read_payload(&mut reader));
}

#[test]
fn payload_reads_stop_at_the_entry_end() {
    let data = archive(&[("a", b"abc")]);
    let mut reader = TarReader::new(Cursor::new(data));
    next_header(&mut reader).unwrap();
    assert_eq!(3, reader.payload_limit(100));
    assert_eq!(2, reader.payload_limit(2));
    reader.on_payload_read(3);
    assert_eq!(0, reader.payload_limit(100));
}

#[test]
fn truncated_archive_ends() {
    let mut data = archive(&[("hello.txt", b"hello world")]);
    data.truncate(512 + 512 + 100);
    let mut reader = TarReader::new(Cursor::new(data));
    next_header(&mut reader).unwrap();
    assert_eq!(TarError::FileEnd, next_header(&mut reader).err().unwrap());

    let mut reader = TarReader::new(Cursor::new(vec![1u8; 300]));
    assert_eq!(TarError::FileEnd, next_header(&mut reader).err().unwrap());

    let mut reader = TarReader::new(Cursor::new(Vec::new()));
    assert_eq!(TarError::FileEnd, next_header(&mut reader).err().unwrap());
}

#[test]
fn malformed_mode_fails_to_parse() {
    let mut block = header_block("m.txt", 0);
    block[100..108].copy_from_slice(b"00064x4\0");
    seal(&mut block);
    assert!(TarHeader::validate_checksum(&block));
    assert_eq!(
        TarError::ParseError("x".parse::<u32>().err().unwrap()),
        TarHeader::from_block(&block).err().unwrap()
    );
}

#[test]
fn signed_mode_fails_to_parse() {
    let mut block = header_block("m.txt", 0);
    block[100..108].copy_from_slice(b"+1\0\0\0\0\0\0");
    seal(&mut block);
    assert!(TarHeader::validate_checksum(&block));
    assert_eq!(
        TarError::ParseError("x".parse::<u32>().err().unwrap()),
        TarHeader::from_block(&block).err().unwrap()
    );
}

#[test]
fn bad_header_ends_the_reader() {
    let mut data = archive(&[("a", b"abc"), ("b", b"def")]);
    data[512 * 2] = b'c';
    let mut reader = TarReader::new(Cursor::new(data));
    next_header(&mut reader).unwrap();
    assert_eq!(TarError::CheckSum, next_header(&mut reader).err().unwrap());
    assert_eq!(TarError::FileEnd, next_header(&mut reader).err().unwrap());
}

#[test]
fn block_without_start_next_ends() {
    let data = archive(&[("a", b"abc")]);
    let mut reader = TarReader::new(Cursor::new(data));
    reader.handle.read(&mut reader.buf).unwrap();
    assert_eq!(TarError::FileEnd, reader.on_block(512).err().unwrap());
    assert_eq!(TarError::FileEnd, reader.start_next().err().unwrap());
}

#[test]
fn io_errors_convert() {
    let e = std::io::Error::new(std::io::ErrorKind::Other, "boom");
    assert_eq!(TarError::IOError(std::io::Error::new(std::io::ErrorKind::Other, "x")), TarError::from(e));
    assert!(TarError::IOError(std::io::Error::new(std::io::ErrorKind::Other, "x")) != TarError::FileEnd);
    assert!(TarError::EncodingError == TarError::EncodingError);
}
