use cinter::engine::CinterEngine;
use cinter::iff::{ChunkError, FileFormat, IffReader, IffWriter};
use cinter::midi::MidiCommand;
use cinter::sample_file::{build_8svx, loop_start, read_sample, trimmed_raw_length, LoadError};
use cinter::codec::FilenameError;

fn engine() -> CinterEngine {
    let sine: Vec<i16> = (0..16384)
        .map(|i| ((i as f32 / 16384.0 * (2.0 * std::f32::consts::PI)).sin() * 16384.0).round() as i16)
        .collect();
    let semitones: Vec<u32> = (0..96).map(|k| (256.0 * (k as f32 / 12.0).exp2()).round() as u32).collect();
    let decay: Vec<u32> = (0..=100)
        .map(|n| {
            let v = n as f32 / 50.0 - 1.0;
            ((0.0008 * v + 0.1 * v.powi(7)).exp() * 65536.0).round() as u32
        })
        .collect();
    let legacy: Vec<u32> = (0..=100)
        .map(|n| {
            let v = n as f32;
            ((-0.000002 * v * v).exp() * 65536.0).round() as u32
        })
        .collect();
    CinterEngine::new(sine, semitones, decay, legacy).unwrap()
}

#[test]
fn midi_note_messages() {
    assert_eq!(
        MidiCommand::from_data(&[0x91, 60, 100]),
        MidiCommand::NoteOn { channel: 1, key: 60, velocity: 100 }
    );
    assert_eq!(
        MidiCommand::from_data(&[0x8F, 52, 0]),
        MidiCommand::NoteOff { channel: 15, key: 52, velocity: 0 }
    );
}

#[test]
fn midi_controller_messages() {
    assert_eq!(
        MidiCommand::from_data(&[0xB2, 120, 7]),
        MidiCommand::AllSoundOff { channel: 2, velocity: 7 }
    );
    assert_eq!(
        MidiCommand::from_data(&[0xB0, 123, 5]),
        MidiCommand::AllNotesOff { channel: 0, velocity: 5 }
    );
    assert_eq!(MidiCommand::from_data(&[0xB0, 7, 5]), MidiCommand::Unknown);
    assert_eq!(MidiCommand::from_data(&[0xE0, 0, 64]), MidiCommand::Unknown);
    assert_eq!(MidiCommand::from_data(&[0x40, 60, 64]), MidiCommand::Unknown);
}

#[test]
fn writer_numbers_are_big_endian() {
    let mut w = IffWriter::new();
    assert_eq!(w.get_data(), &[] as &[u8]);
    w.write_u8(7);
    w.write_u16(0x1234);
    w.write_u32(0xDEADBEEF);
    assert_eq!(w.get_data(), &[7, 0x12, 0x34, 0xDE, 0xAD, 0xBE, 0xEF]);
}

#[test]
fn writer_chunks_and_padding() {
    let mut w = IffWriter::new();
    w.write_chunk("TEST", &[1, 2, 3]);
    assert_eq!(w.get_data(), b"TEST\0\0\0\x03\x01\x02\x03");
    let mut p = IffWriter::new();
    p.write_string_padded("abc");
    p.write_string_padded("abcd");
    p.write_string_padded("");
    assert_eq!(p.get_data(), b"abc\0abcd\0\0\0\0\0\0\0\0");
    let mut b = IffWriter::new();
    b.write_bytes(b"xyz");
    b.write_bytes(&[]);
    assert_eq!(b.get_data(), b"xyz");
}

#[test]
fn reader_finds_chunks() {
    let mut w = IffWriter::new();
    w.write_chunk("AAAA", &[1, 2]);
    w.write_chunk("BBBB", &[3, 4, 5]);
    w.write_chunk("CCCC", &[6]);
    let data = w.get_data();
    assert_eq!(IffReader::find_chunk(data, "AAAA"), Ok(&[1u8, 2][..]));
    assert_eq!(IffReader::find_chunk(data, "BBBB"), Ok(&[3u8, 4, 5][..]));
    assert_eq!(IffReader::find_chunk(data, "CCCC"), Ok(&[6u8][..]));
    assert_eq!(IffReader::find_chunk(data, "DDDD"), Err(ChunkError::Missing));
    assert_eq!(IffReader::find_chunk(data, "AAA"), Err(ChunkError::Missing));
}

#[test]
fn reader_reports_truncation_and_short_data() {
    let data = b"AAAA\0\0\0\x02\x01\x02BBBB\0\0\0\x09\x01";
    assert_eq!(IffReader::find_chunk(data, "BBBB"), Err(ChunkError::Truncated { offset: 10 }));
    assert_eq!(IffReader::find_chunk(data, "AAAA"), Ok(&[1u8, 2][..]));
    assert_eq!(IffReader::find_chunk(b"AAAA", "AAAA"), Err(ChunkError::Missing));
    assert_eq!(IffReader::find_chunk(b"", "AAAA"), Err(ChunkError::Missing));
    // An empty chunk that ends the data is not reached.
    assert_eq!(IffReader::find_chunk(b"AAAA\0\0\0\0", "AAAA"), Err(ChunkError::Missing));
}

#[test]
fn file_format_extensions() {
    assert_eq!(FileFormat::Raw.extension(), ".raw");
    assert_eq!(FileFormat::Iff.extension(), ".8svx");
}

#[test]
fn svx_container_layout() {
    let samples: Vec<u8> = (0..10).collect();
    let data = build_8svx("ab", "t", &samples, 4);
    let mut expected: Vec<u8> = Vec::new();
    expected.extend_from_slice(b"FORM");
    let body_len: u32 = 4 + (8 + 20) + (8 + 4) + (8 + 4) + (8 + 10);
    expected.extend_from_slice(&body_len.to_be_bytes());
    expected.extend_from_slice(b"8SVX");
    expected.extend_from_slice(b"VHDR\0\0\0\x14");
    expected.extend_from_slice(&6u32.to_be_bytes());
    expected.extend_from_slice(&4u32.to_be_bytes());
    expected.extend_from_slice(&32u32.to_be_bytes());
    expected.extend_from_slice(&16726u16.to_be_bytes());
    expected.extend_from_slice(&[1, 0]);
    expected.extend_from_slice(&0x10000u32.to_be_bytes());
    expected.extend_from_slice(b"NAME\0\0\0\x04ab\0\0");
    expected.extend_from_slice(b"ANNO\0\0\0\x04t\0\0\0");
    expected.extend_from_slice(b"BODY\0\0\0\x0a");
    expected.extend_from_slice(&samples);
    assert_eq!(data, expected);
}

#[test]
fn svx_round_trip() {
    let e = engine();
    let samples: Vec<u8> = (0..100).map(|i| (i * 3) as u8).collect();
    let data = build_8svx("105405350655020400012", "Cinter", &samples, 40);
    let info = read_sample(&e, &data, "ignored").unwrap();
    assert_eq!(info.params, [5, 40, 53, 50, 65, 50, 20, 40, 0, 0, 1, 2]);
    assert_eq!(info.length, 100);
    assert_eq!(info.repeat_length, 40);
}

#[test]
fn svx_without_name_uses_file_name() {
    let e = engine();
    let mut inner = IffWriter::new();
    inner.write_bytes(b"8SVX");
    let mut header = IffWriter::new();
    header.write_u32(30);
    header.write_u32(10);
    inner.write_chunk("VHDR", header.get_data());
    let mut form = IffWriter::new();
    form.write_chunk("FORM", inner.get_data());
    let info = read_sample(&e, form.get_data(), "1XX000999XX0110XXX9X0.8svx").unwrap();
    assert_eq!(info.params, [100, 0, 9, 99, 100, 1, 10, 100, 10, 9, 10, 0]);
    assert_eq!(info.length, 40);
    assert_eq!(info.repeat_length, 10);
}

#[test]
fn svx_errors() {
    let e = engine();
    let mut inner = IffWriter::new();
    inner.write_bytes(b"8SVX");
    inner.write_chunk("VHDR", &[0, 0, 0, 1]);
    inner.write_chunk("NAME", &[0xFF, 0xFE, 0, 0]);
    let mut form = IffWriter::new();
    form.write_chunk("FORM", inner.get_data());
    assert_eq!(read_sample(&e, form.get_data(), "x"), Err(LoadError::HeaderTooShort));

    let mut inner = IffWriter::new();
    inner.write_bytes(b"8SVX");
    inner.write_chunk("VHDR", &[0, 0, 0, 1, 0, 0, 0, 2]);
    inner.write_chunk("NAME", &[0xFF, 0xFE, 0, 0]);
    let mut form = IffWriter::new();
    form.write_chunk("FORM", inner.get_data());
    assert_eq!(read_sample(&e, form.get_data(), "x"), Err(LoadError::NameNotUtf8));

    let mut inner = IffWriter::new();
    inner.write_bytes(b"8SVX");
    inner.write_chunk("BODY", &[1, 2]);
    let mut form = IffWriter::new();
    form.write_chunk("FORM", inner.get_data());
    assert_eq!(read_sample(&e, form.get_data(), "x"), Err(LoadError::Header(ChunkError::Missing)));

    let data = build_8svx("12", "", &[1, 2, 3], 0);
    assert_eq!(
        read_sample(&e, &data, "105405350655020400012"),
        Err(LoadError::Name(FilenameError::BadDigits { field: 0 }))
    );
}

#[test]
fn raw_files_use_the_file_name() {
    let e = engine();
    let data = vec![0u8; 300];
    let info = read_sample(&e, &data, "105405350655020400012.raw").unwrap();
    assert_eq!(info.params, [5, 40, 53, 50, 65, 50, 20, 40, 0, 0, 1, 2]);
    assert_eq!(info.length, 300);
    assert_eq!(info.repeat_length, 0);
    assert_eq!(read_sample(&e, &data, "bad"), Err(LoadError::Name(FilenameError::BadDigits { field: 0 })));
}

#[test]
fn loop_start_from_repeat_length() {
    assert_eq!(loop_start(1000, 0), None);
    assert_eq!(loop_start(1000, 400), Some(600));
    assert_eq!(loop_start(1000, 1000), Some(0));
    assert_eq!(loop_start(1000, 1001), None);
}

#[test]
fn raw_trimming_removes_silent_pairs() {
    assert_eq!(trimmed_raw_length(&[1, 2, 3, 0, 0, 0, 0]), 3);
    assert_eq!(trimmed_raw_length(&[1, 2, 0, 3, 0, 0]), 4);
    assert_eq!(trimmed_raw_length(&[0, 0, 0, 0, 0, 0]), 2);
    assert_eq!(trimmed_raw_length(&[0, 0, 0, 0, 0]), 1);
    assert_eq!(trimmed_raw_length(&[7, 0, 0, 0, 0]), 1);
    assert_eq!(trimmed_raw_length(&[5]), 1);
    assert_eq!(trimmed_raw_length(&[]), 0);
}
