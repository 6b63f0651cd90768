use connection_protocol::error::MessageError;
use connection_protocol::options::{decode_options, encode_options};
use connection_protocol::reader::{ConnectionReader, ReaderState};
use connection_protocol::schema;
use connection_protocol::schema::Chunks;
use connection_protocol::wire::{push_be, to_unsigned};
use connection_protocol::writer::ConnectionWriter;

fn written(writer: &ConnectionWriter) -> Vec<u8> {
    writer.finalize_unchecked()
}

#[test]
fn big_endian_bytes_of_each_width() {
    let mut buf = Vec::new();
    push_be(&mut buf, 0x0102030405060708, 8);
    assert_eq!(buf, vec![1, 2, 3, 4, 5, 6, 7, 8]);
    let mut buf = Vec::new();
    push_be(&mut buf, 0x0102030405060708, 3);
    assert_eq!(buf, vec![6, 7, 8]);
    let mut buf = vec![9];
    push_be(&mut buf, 258, 2);
    assert_eq!(buf, vec![9, 1, 2]);
    let mut buf = vec![9];
    push_be(&mut buf, 258, 0);
    assert_eq!(buf, vec![9]);
    let mut buf = Vec::new();
    push_be(&mut buf, 0x0102, 10);
    assert_eq!(buf, vec![0, 0, 0, 0, 0, 0, 0, 0, 1, 2]);
}

#[test]
fn twos_complement_patterns() {
    assert_eq!(to_unsigned(0), 0);
    assert_eq!(to_unsigned(5), 5);
    assert_eq!(to_unsigned(-1), u64::MAX);
    assert_eq!(to_unsigned(-2), 0xFFFF_FFFF_FFFF_FFFE);
    assert_eq!(to_unsigned(i64::MIN), 0x8000_0000_0000_0000);
    assert_eq!(to_unsigned(i64::MAX), 0x7FFF_FFFF_FFFF_FFFF);
}

#[test]
fn the_named_schemas() {
    assert_eq!(schema::container(), vec![Chunks::Uint { size: 8 }, Chunks::Binary]);
    assert_eq!(
        schema::db_user(),
        vec![
            Chunks::String,
            Chunks::Binary,
            Chunks::Uint { size: 8 },
            Chunks::Binary,
            Chunks::String,
            Chunks::Uint { size: 8 },
            Chunks::Binary,
        ]
    );
    assert_eq!(schema::db_owned_card(), vec![Chunks::Uint { size: 8 }, Chunks::Uint { size: 1 }]);
    assert_eq!(
        schema::client_data(),
        vec![
            Chunks::String,
            Chunks::Binary,
            Chunks::Uint { size: 8 },
            Chunks::Uint { size: 8 },
            Chunks::String,
        ]
    );
    assert_eq!(
        schema::friend_summary(),
        vec![Chunks::String, Chunks::String, Chunks::Uint { size: 1 }]
    );
    assert_eq!(schema::login(), vec![Chunks::String, Chunks::Binary]);
    assert_eq!(
        schema::load(),
        vec![Chunks::String, Chunks::String, Chunks::Bool, Chunks::String]
    );
    assert_eq!(schema::status(), vec![Chunks::Uint { size: 8 }, Chunks::Bool, Chunks::Binary]);
    assert_eq!(schema::dynamic(), vec![Chunks::Rest]);
}

#[test]
fn writer_starts_empty_and_checked() {
    let writer = ConnectionWriter::new(schema::login());
    assert_eq!(writer.current_chunk, 0);
    assert!(writer.msg.is_empty());
    assert!(!writer.unchecked);
    assert_eq!(writer.protocol, schema::login());
    let writer = writer.unchecked();
    assert!(writer.unchecked);
    assert_eq!(writer.current_chunk, 0);
}

#[test]
fn writer_cuts_unsigned_to_the_declared_width() {
    let mut writer = ConnectionWriter::new(vec![
        Chunks::Uint { size: 2 },
        Chunks::Uint { size: 2 },
        Chunks::Uint { size: 8 },
        Chunks::Uint { size: 1 },
    ]);
    assert_eq!(writer.write_uint(0x1234), Ok(()));
    assert_eq!(writer.write_uint(0x123456), Ok(()));
    assert_eq!(writer.write_uint(7), Ok(()));
    assert_eq!(writer.write_uint(258), Ok(()));
    assert_eq!(writer.current_chunk, 4);
    assert_eq!(
        writer.finalize(),
        Ok(vec![0x12, 0x34, 0x34, 0x56, 0, 0, 0, 0, 0, 0, 0, 7, 2])
    );
}

#[test]
fn writer_cuts_signed_to_the_declared_width() {
    let mut writer = ConnectionWriter::new(vec![
        Chunks::Int { size: 2 },
        Chunks::Int { size: 8 },
        Chunks::Int { size: 1 },
        Chunks::Int { size: 3 },
    ]);
    assert_eq!(writer.write_int(-2), Ok(()));
    assert_eq!(writer.write_int(-1), Ok(()));
    assert_eq!(writer.write_int(300), Ok(()));
    assert_eq!(writer.write_int(-65536), Ok(()));
    assert_eq!(
        writer.finalize(),
        Ok(vec![
            0xFF, 0xFE, 0xFF, 0xFF, 0xFF, 0xFF, 0xFF, 0xFF, 0xFF, 0xFF, 0x2C, 0xFF, 0x00, 0x00
        ])
    );
}

#[test]
fn writer_prefixes_text_with_its_length_in_bytes() {
    let mut writer = ConnectionWriter::new(vec![Chunks::String, Chunks::String, Chunks::String]);
    assert_eq!(writer.write_string("hi"), Ok(()));
    assert_eq!(writer.write_string(""), Ok(()));
    assert_eq!(writer.write_string("é"), Ok(()));
    assert_eq!(
        writer.finalize(),
        Ok(vec![
            0, 0, 0, 0, 0, 0, 0, 2, b'h', b'i', 0, 0, 0, 0, 0, 0, 0, 0, 0, 0, 0, 0, 0, 0, 0, 2,
            0xC3, 0xA9
        ])
    );
}

#[test]
fn writer_prefixes_bytes_with_their_count() {
    let mut writer = ConnectionWriter::new(vec![Chunks::Binary, Chunks::Binary]);
    assert_eq!(writer.write_binary(&[1, 2, 3]), Ok(()));
    assert_eq!(writer.write_binary(&[]), Ok(()));
    assert_eq!(
        writer.finalize(),
        Ok(vec![0, 0, 0, 0, 0, 0, 0, 3, 1, 2, 3, 0, 0, 0, 0, 0, 0, 0, 0])
    );
}

#[test]
fn writer_puts_a_boolean_in_one_byte() {
    let mut writer = ConnectionWriter::new(vec![Chunks::Bool, Chunks::Bool]);
    assert_eq!(writer.write_bool(true), Ok(()));
    assert_eq!(writer.write_bool(false), Ok(()));
    assert_eq!(writer.finalize(), Ok(vec![1, 0]));
}

#[test]
fn writer_puts_a_double_in_eight_bytes() {
    let mut writer = ConnectionWriter::new(vec![Chunks::Float, Chunks::Float]);
    assert_eq!(writer.write_float_bits(1.5f64.to_bits()), Ok(()));
    assert_eq!(writer.write_float_bits((-0.1f64).to_bits()), Ok(()));
    let mut expected = 1.5f64.to_be_bytes().to_vec();
    expected.extend_from_slice(&(-0.1f64).to_be_bytes());
    assert_eq!(expected[..8], [0x3F, 0xF8, 0, 0, 0, 0, 0, 0]);
    assert_eq!(writer.finalize(), Ok(expected));
}

#[test]
fn writer_refuses_a_field_of_another_kind() {
    let mut writer = ConnectionWriter::new(vec![Chunks::Uint { size: 8 }, Chunks::Bool]);
    assert_eq!(writer.write_bool(true), Err(MessageError::SchemaMismatch));
    assert_eq!(writer.write_int(1), Err(MessageError::SchemaMismatch));
    assert_eq!(writer.write_string("x"), Err(MessageError::SchemaMismatch));
    assert_eq!(writer.write_binary(&[1]), Err(MessageError::SchemaMismatch));
    assert_eq!(writer.write_float_bits(0), Err(MessageError::SchemaMismatch));
    assert_eq!(writer.current_chunk, 0);
    assert!(written(&writer).is_empty());
    assert_eq!(writer.write_uint(1), Ok(()));
    assert_eq!(writer.write_uint(1), Err(MessageError::SchemaMismatch));
    assert_eq!(writer.current_chunk, 1);
    assert_eq!(written(&writer), vec![0, 0, 0, 0, 0, 0, 0, 1]);
}

#[test]
fn writer_refuses_a_width_outside_one_to_eight() {
    let mut writer = ConnectionWriter::new(vec![Chunks::Uint { size: 0 }]);
    assert_eq!(writer.write_uint(1), Err(MessageError::SchemaMismatch));
    let mut writer = ConnectionWriter::new(vec![Chunks::Uint { size: 9 }]);
    assert_eq!(writer.write_uint(1), Err(MessageError::SchemaMismatch));
    let mut writer = ConnectionWriter::new(vec![Chunks::Int { size: 0 }]);
    assert_eq!(writer.write_int(1), Err(MessageError::SchemaMismatch));
    let mut writer = ConnectionWriter::new(vec![Chunks::Int { size: 200 }]);
    assert_eq!(writer.write_int(1), Err(MessageError::SchemaMismatch));
    assert!(written(&writer).is_empty());
}

#[test]
fn writer_refuses_to_write_at_a_wildcard() {
    let mut writer = ConnectionWriter::new(vec![Chunks::Any]);
    assert_eq!(writer.write_uint(1), Err(MessageError::SchemaMismatch));
    assert_eq!(writer.write_binary(&[0; 8]), Err(MessageError::SchemaMismatch));
    let mut writer = ConnectionWriter::new(schema::dynamic());
    assert_eq!(writer.write_uint(1), Err(MessageError::SchemaMismatch));
    assert_eq!(writer.write_bool(true), Err(MessageError::SchemaMismatch));
    let mut writer = ConnectionWriter::new(schema::dynamic()).unchecked();
    assert_eq!(writer.write_uint(1), Ok(()));
    assert_eq!(writer.write_bool(true), Ok(()));
    assert_eq!(written(&writer), vec![0, 0, 0, 0, 0, 0, 0, 1, 1]);
}

#[test]
fn writer_finalize_wants_every_chunk_written() {
    let mut writer = ConnectionWriter::new(schema::login());
    assert_eq!(writer.finalize(), Err(MessageError::IncompleteSchema));
    assert_eq!(writer.write_string("a"), Ok(()));
    assert_eq!(writer.finalize(), Err(MessageError::IncompleteSchema));
    assert_eq!(writer.finalize_unchecked(), vec![0, 0, 0, 0, 0, 0, 0, 1, b'a']);
    assert_eq!(writer.write_binary(&[7]), Ok(()));
    assert_eq!(
        writer.finalize(),
        Ok(vec![0, 0, 0, 0, 0, 0, 0, 1, b'a', 0, 0, 0, 0, 0, 0, 0, 1, 7])
    );
    assert_eq!(writer.write_binary(&[7]), Err(MessageError::SchemaMismatch));
    assert!(writer.finalize().is_ok());
    let empty = ConnectionWriter::new(Vec::new());
    assert_eq!(empty.finalize(), Ok(Vec::new()));
}

#[test]
fn unchecked_writer_consults_no_schema() {
    let mut writer = ConnectionWriter::new(schema::login()).unchecked();
    assert_eq!(writer.write_int(-2), Ok(()));
    assert_eq!(writer.write_uint(3), Ok(()));
    assert_eq!(writer.write_bool(true), Ok(()));
    assert_eq!(writer.write_string("a"), Ok(()));
    assert_eq!(writer.write_binary(&[9]), Ok(()));
    assert_eq!(writer.write_float_bits(1), Ok(()));
    assert_eq!(writer.current_chunk, 0);
    assert_eq!(writer.finalize(), Err(MessageError::IncompleteSchema));
    assert_eq!(
        writer.finalize_unchecked(),
        vec![
            0xFF, 0xFF, 0xFF, 0xFF, 0xFF, 0xFF, 0xFF, 0xFE, 0, 0, 0, 0, 0, 0, 0, 3, 1, 0, 0, 0, 0,
            0, 0, 0, 1, b'a', 0, 0, 0, 0, 0, 0, 0, 1, 9, 0, 0, 0, 0, 0, 0, 0, 1
        ]
    );
}

#[test]
fn reader_starts_fresh_and_checked() {
    let bytes = [1u8, 2, 3];
    let reader = ConnectionReader::new(schema::login(), &bytes);
    assert_eq!(reader.current_byte, 0);
    assert_eq!(reader.current_chunk, 0);
    assert_eq!(reader.msg, &bytes);
    assert!(!reader.unchecked);
    assert_eq!(reader.state, ReaderState::Fresh);
    let reader = reader.unchecked();
    assert!(reader.unchecked);
    assert_eq!(reader.state, ReaderState::Fresh);
}

#[test]
fn reader_reads_unsigned_of_the_declared_width() {
    let bytes = [0x12, 0x34, 0, 0, 0, 0, 0, 0, 0, 7, 0xFF];
    let mut reader = ConnectionReader::new(
        vec![Chunks::Uint { size: 2 }, Chunks::Uint { size: 8 }, Chunks::Uint { size: 1 }],
        &bytes,
    );
    assert_eq!(reader.read_uint(), Ok(0x1234));
    assert_eq!((reader.current_byte, reader.current_chunk), (2, 1));
    assert_eq!(reader.read_uint(), Ok(7));
    assert_eq!((reader.current_byte, reader.current_chunk), (10, 2));
    assert_eq!(reader.read_uint(), Ok(255));
    assert_eq!((reader.current_byte, reader.current_chunk), (11, 3));
    assert_eq!(reader.finalize(), Ok(()));
}

#[test]
fn reader_sign_extends_signed_numbers() {
    let bytes = [0xFF, 0xFE, 0x7F, 0xFF, 0x80, 0xFF, 0xFF, 0xFF, 0xFF, 0xFF, 0xFF, 0xFF, 0xFD, 0x05];
    let mut reader = ConnectionReader::new(
        vec![
            Chunks::Int { size: 2 },
            Chunks::Int { size: 2 },
            Chunks::Int { size: 1 },
            Chunks::Int { size: 8 },
            Chunks::Int { size: 1 },
        ],
        &bytes,
    );
    assert_eq!(reader.read_int(), Ok(-2));
    assert_eq!(reader.read_int(), Ok(32767));
    assert_eq!(reader.read_int(), Ok(-128));
    assert_eq!(reader.read_int(), Ok(-3));
    assert_eq!(reader.read_int(), Ok(5));
    assert_eq!(reader.finalize(), Ok(()));
}

#[test]
fn reader_reads_text_bytes_booleans_and_doubles() {
    let mut bytes = vec![0, 0, 0, 0, 0, 0, 0, 2, 0xC3, 0xA9];
    bytes.extend_from_slice(&[0, 0, 0, 0, 0, 0, 0, 3, 1, 2, 3]);
    bytes.extend_from_slice(&[0, 2, 1]);
    bytes.extend_from_slice(&2.5f64.to_be_bytes());
    let mut reader = ConnectionReader::new(
        vec![
            Chunks::String,
            Chunks::Binary,
            Chunks::Bool,
            Chunks::Bool,
            Chunks::Bool,
            Chunks::Float,
        ],
        &bytes,
    );
    assert_eq!(reader.read_string(), Ok("é".to_string()));
    assert_eq!(reader.current_byte, 10);
    assert_eq!(reader.read_binary(), Ok(vec![1, 2, 3]));
    assert_eq!(reader.current_byte, 21);
    assert_eq!(reader.read_bool(), Ok(false));
    assert_eq!(reader.read_bool(), Ok(true));
    assert_eq!(reader.read_bool(), Ok(true));
    assert_eq!(reader.current_byte, 24);
    assert_eq!(reader.read_float_bits(), Ok(2.5f64.to_bits()));
    assert_eq!(reader.current_byte, 32);
    assert_eq!(reader.finalize(), Ok(()));
    assert_eq!(reader.state, ReaderState::Complete);
}

#[test]
fn reader_refuses_an_accessor_of_another_kind() {
    let bytes = [0u8; 32];
    let mut reader = ConnectionReader::new(vec![Chunks::Uint { size: 8 }], &bytes);
    assert_eq!(reader.read_int(), Err(MessageError::SchemaMismatch));
    assert_eq!(reader.state, ReaderState::Aborted(MessageError::SchemaMismatch));
    assert_eq!((reader.current_byte, reader.current_chunk), (0, 0));
    let mut reader = ConnectionReader::new(vec![Chunks::Uint { size: 8 }], &bytes);
    assert_eq!(reader.read_bool(), Err(MessageError::SchemaMismatch));
    let mut reader = ConnectionReader::new(vec![Chunks::Uint { size: 8 }], &bytes);
    assert_eq!(reader.read_string(), Err(MessageError::SchemaMismatch));
    let mut reader = ConnectionReader::new(vec![Chunks::Uint { size: 8 }], &bytes);
    assert_eq!(reader.read_binary(), Err(MessageError::SchemaMismatch));
    let mut reader = ConnectionReader::new(vec![Chunks::Uint { size: 8 }], &bytes);
    assert_eq!(reader.read_float_bits(), Err(MessageError::SchemaMismatch));
    let mut reader = ConnectionReader::new(vec![Chunks::Int { size: 8 }], &bytes);
    assert_eq!(reader.read_uint(), Err(MessageError::SchemaMismatch));
    let mut reader = ConnectionReader::new(vec![Chunks::Uint { size: 9 }], &bytes);
    assert_eq!(reader.read_uint(), Err(MessageError::SchemaMismatch));
    let mut reader = ConnectionReader::new(vec![Chunks::Int { size: 0 }], &bytes);
    assert_eq!(reader.read_int(), Err(MessageError::SchemaMismatch));
    let mut reader = ConnectionReader::new(Vec::new(), &bytes);
    assert_eq!(reader.read_uint(), Err(MessageError::SchemaMismatch));
}

#[test]
fn reader_checks_the_schema_before_the_bounds() {
    let bytes: [u8; 0] = [];
    let mut reader = ConnectionReader::new(vec![Chunks::Bool], &bytes);
    assert_eq!(reader.read_uint(), Err(MessageError::SchemaMismatch));
    let mut reader = ConnectionReader::new(vec![Chunks::Bool], &bytes);
    assert_eq!(reader.read_bool(), Err(MessageError::OutOfBounds));
}

#[test]
fn reader_runs_out_of_bounds_without_moving() {
    let bytes = [0u8, 0, 0, 0, 0, 0, 0];
    let mut reader = ConnectionReader::new(vec![Chunks::Uint { size: 8 }], &bytes);
    assert_eq!(reader.read_uint(), Err(MessageError::OutOfBounds));
    assert_eq!((reader.current_byte, reader.current_chunk), (0, 0));
    assert_eq!(reader.state, ReaderState::Aborted(MessageError::OutOfBounds));

    // The length is there, the text is not.
    let bytes = [0u8, 0, 0, 0, 0, 0, 0, 3, b'a', b'b'];
    let mut reader = ConnectionReader::new(vec![Chunks::String], &bytes);
    assert_eq!(reader.read_string(), Err(MessageError::OutOfBounds));
    assert_eq!((reader.current_byte, reader.current_chunk), (0, 0));
    let mut reader = ConnectionReader::new(vec![Chunks::Binary], &bytes);
    assert_eq!(reader.read_binary(), Err(MessageError::OutOfBounds));

    // A length beyond any buffer.
    let bytes = [0xFFu8, 0xFF, 0xFF, 0xFF, 0xFF, 0xFF, 0xFF, 0xFF, 1, 2];
    let mut reader = ConnectionReader::new(vec![Chunks::Binary], &bytes);
    assert_eq!(reader.read_binary(), Err(MessageError::OutOfBounds));
    let mut reader = ConnectionReader::new(vec![Chunks::Binary], &bytes);
    assert_eq!(reader.skip(), Err(MessageError::OutOfBounds));
}

#[test]
fn reader_with_a_cursor_beyond_the_input_is_out_of_bounds() {
    let bytes = [1u8, 2, 3];
    let mut reader = ConnectionReader::new(vec![Chunks::Bool], &bytes);
    reader.current_byte = 10;
    assert_eq!(reader.read_bool(), Err(MessageError::OutOfBounds));
    assert_eq!(reader.current_byte, 10);
    let mut reader = ConnectionReader::new(vec![Chunks::Bool], &bytes);
    reader.current_byte = usize::MAX;
    assert_eq!(reader.skip(), Err(MessageError::OutOfBounds));
    let mut reader = ConnectionReader::new(vec![Chunks::Bool], &bytes);
    reader.current_chunk = usize::MAX;
    assert_eq!(reader.read_bool(), Err(MessageError::SchemaMismatch));
    assert_eq!(reader.current_chunk, usize::MAX);
}

#[test]
fn reader_refuses_text_that_is_not_utf8() {
    let bytes = [0u8, 0, 0, 0, 0, 0, 0, 2, 0xFF, 0xFE];
    let mut reader = ConnectionReader::new(vec![Chunks::String], &bytes);
    assert_eq!(reader.read_string(), Err(MessageError::InvalidUtf8));
    assert_eq!((reader.current_byte, reader.current_chunk), (0, 0));
    assert_eq!(reader.state, ReaderState::Aborted(MessageError::InvalidUtf8));
    // The same bytes are fine as bytes.
    let mut reader = ConnectionReader::new(vec![Chunks::Binary], &bytes);
    assert_eq!(reader.read_binary(), Ok(vec![0xFF, 0xFE]));
    // A character cut in two.
    let bytes = [0u8, 0, 0, 0, 0, 0, 0, 1, 0xC3];
    let mut reader = ConnectionReader::new(vec![Chunks::String], &bytes);
    assert_eq!(reader.read_string(), Err(MessageError::InvalidUtf8));
}

#[test]
fn reader_takes_text_for_utf8_by_the_standard() {
    let texts: [&[u8]; 6] = [
        b"plain",
        &[0xC3, 0xA9],
        &[0xE2, 0x82, 0xAC],
        &[0xF0, 0x9F, 0x98, 0x80],
        &[0xF4, 0x8F, 0xBF, 0xBF],
        &[0xED, 0x9F, 0xBF],
    ];
    for text in texts {
        let mut bytes = (text.len() as u64).to_be_bytes().to_vec();
        bytes.extend_from_slice(text);
        let mut reader = ConnectionReader::new(vec![Chunks::String], &bytes);
        assert_eq!(reader.read_string().map(String::into_bytes), Ok(text.to_vec()));
    }
    let broken: [&[u8]; 8] = [
        // A continuation byte alone, and a leading byte alone.
        &[0x80],
        &[0xE2, 0x82],
        // Overlong encodings.
        &[0xC0, 0x80],
        &[0xE0, 0x80, 0x80],
        &[0xF0, 0x80, 0x80, 0x80],
        // A surrogate.
        &[0xED, 0xA0, 0x80],
        // Beyond the last code point.
        &[0xF4, 0x90, 0x80, 0x80],
        &[0xF5, 0x80, 0x80, 0x80],
    ];
    for text in broken {
        let mut bytes = (text.len() as u64).to_be_bytes().to_vec();
        bytes.extend_from_slice(text);
        let mut reader = ConnectionReader::new(vec![Chunks::String], &bytes);
        assert_eq!(reader.read_string(), Err(MessageError::InvalidUtf8));
    }
}

#[test]
fn reader_states_follow_the_decode() {
    let bytes = [1u8, 0];
    let mut reader = ConnectionReader::new(vec![Chunks::Bool, Chunks::Bool], &bytes);
    assert_eq!(reader.state, ReaderState::Fresh);
    assert_eq!(reader.read_bool(), Ok(true));
    assert_eq!(reader.state, ReaderState::Reading);
    assert_eq!(reader.read_bool(), Ok(false));
    assert_eq!(reader.state, ReaderState::Reading);
    assert_eq!(reader.finalize(), Ok(()));
    assert_eq!(reader.state, ReaderState::Complete);
    // A complete reader may be finalized again, and has nothing left to offer.
    assert_eq!(reader.finalize(), Ok(()));
    assert_eq!(reader.state, ReaderState::Complete);
    assert_eq!(reader.read_bool(), Err(MessageError::SchemaMismatch));
    assert_eq!(reader.state, ReaderState::Aborted(MessageError::SchemaMismatch));
    reader.reset();
    assert_eq!(reader.state, ReaderState::Fresh);
    assert_eq!((reader.current_byte, reader.current_chunk), (0, 0));
    assert_eq!(reader.read_bool(), Ok(true));
}

#[test]
fn an_aborted_reader_repeats_its_error_until_reset() {
    let bytes = [1u8];
    let mut reader = ConnectionReader::new(vec![Chunks::Bool, Chunks::Bool], &bytes);
    assert_eq!(reader.read_bool(), Ok(true));
    assert_eq!(reader.read_bool(), Err(MessageError::OutOfBounds));
    assert_eq!((reader.current_byte, reader.current_chunk), (1, 1));
    assert_eq!(reader.read_uint(), Err(MessageError::OutOfBounds));
    assert_eq!(reader.read_int(), Err(MessageError::OutOfBounds));
    assert_eq!(reader.read_string(), Err(MessageError::OutOfBounds));
    assert_eq!(reader.read_binary(), Err(MessageError::OutOfBounds));
    assert_eq!(reader.read_float_bits(), Err(MessageError::OutOfBounds));
    assert_eq!(reader.skip(), Err(MessageError::OutOfBounds));
    assert_eq!(reader.advance(), Err(MessageError::OutOfBounds));
    assert_eq!(reader.finalize(), Err(MessageError::OutOfBounds));
    assert_eq!((reader.current_byte, reader.current_chunk), (1, 1));
    assert_eq!(reader.state, ReaderState::Aborted(MessageError::OutOfBounds));
    reader.reset();
    assert_eq!(reader.state, ReaderState::Fresh);
    assert_eq!(reader.read_bool(), Ok(true));
    assert_eq!(reader.finalize(), Err(MessageError::IncompleteSchema));
    assert_eq!(reader.state, ReaderState::Aborted(MessageError::IncompleteSchema));
    assert_eq!(reader.read_bool(), Err(MessageError::IncompleteSchema));
}

#[test]
fn reader_finalize_wants_every_chunk_read() {
    let bytes = [1u8, 0];
    let mut reader = ConnectionReader::new(vec![Chunks::Bool, Chunks::Bool], &bytes);
    assert_eq!(reader.finalize(), Err(MessageError::IncompleteSchema));
    let mut reader = ConnectionReader::new(vec![Chunks::Bool, Chunks::Bool], &bytes);
    assert_eq!(reader.read_bool(), Ok(true));
    assert_eq!(reader.finalize(), Err(MessageError::IncompleteSchema));
    let mut reader = ConnectionReader::new(vec![Chunks::Bool, Chunks::Bool], &bytes);
    assert_eq!(reader.read_bool(), Ok(true));
    assert_eq!(reader.read_bool(), Ok(false));
    assert_eq!(reader.finalize(), Ok(()));
    let mut reader = ConnectionReader::new(Vec::new(), &bytes);
    assert_eq!(reader.finalize(), Ok(()));
}

#[test]
fn any_takes_eight_bytes_and_one_position() {
    let mut bytes = vec![0, 0, 0, 0, 0, 0, 0, 9];
    bytes.extend_from_slice(&[0xFF, 0xFF, 0xFF, 0xFF, 0xFF, 0xFF, 0xFF, 0xFE]);
    bytes.extend_from_slice(b"abcdefgh");
    bytes.extend_from_slice(&[1, 2, 3, 4, 5, 6, 7, 8]);
    bytes.extend_from_slice(&[0, 1, 1, 1, 1, 1, 1, 1]);
    bytes.extend_from_slice(&[5, 0, 0, 0, 0, 0, 0, 0]);
    bytes.extend_from_slice(&1.25f64.to_be_bytes());
    let mut reader = ConnectionReader::new(vec![Chunks::Any; 7], &bytes);
    assert_eq!(reader.read_uint(), Ok(9));
    assert_eq!((reader.current_byte, reader.current_chunk), (8, 1));
    assert_eq!(reader.read_int(), Ok(-2));
    assert_eq!((reader.current_byte, reader.current_chunk), (16, 2));
    assert_eq!(reader.read_string(), Ok("abcdefgh".to_string()));
    assert_eq!((reader.current_byte, reader.current_chunk), (24, 3));
    assert_eq!(reader.read_binary(), Ok(vec![1, 2, 3, 4, 5, 6, 7, 8]));
    assert_eq!((reader.current_byte, reader.current_chunk), (32, 4));
    assert_eq!(reader.finalize(), Err(MessageError::IncompleteSchema));
    reader.state = ReaderState::Reading;
    // A boolean is the first of its eight bytes.
    assert_eq!(reader.read_bool(), Ok(false));
    assert_eq!((reader.current_byte, reader.current_chunk), (40, 5));
    assert_eq!(reader.read_bool(), Ok(true));
    assert_eq!((reader.current_byte, reader.current_chunk), (48, 6));
    assert_eq!(reader.read_float_bits(), Ok(1.25f64.to_bits()));
    assert_eq!((reader.current_byte, reader.current_chunk), (56, 7));
    assert_eq!(reader.finalize(), Ok(()));
}

#[test]
fn any_wants_all_eight_bytes() {
    let bytes = [1u8, 2, 3, 4, 5, 6, 7];
    let mut reader = ConnectionReader::new(vec![Chunks::Any], &bytes);
    assert_eq!(reader.read_bool(), Err(MessageError::OutOfBounds));
    let mut reader = ConnectionReader::new(vec![Chunks::Any], &bytes);
    assert_eq!(reader.read_binary(), Err(MessageError::OutOfBounds));
    let mut reader = ConnectionReader::new(vec![Chunks::Any], &bytes);
    assert_eq!(reader.skip(), Err(MessageError::OutOfBounds));
    let bytes = [0xFFu8; 8];
    let mut reader = ConnectionReader::new(vec![Chunks::Any], &bytes);
    assert_eq!(reader.read_string(), Err(MessageError::InvalidUtf8));
}

#[test]
fn rest_is_read_again_and_again_and_never_completes() {
    let mut bytes = Vec::new();
    for i in 0..5u8 {
        bytes.extend_from_slice(&[0, 0, 0, 0, 0, 0, 0, i]);
    }
    let mut reader = ConnectionReader::new(schema::dynamic(), &bytes);
    for i in 0..5u64 {
        assert_eq!(reader.read_uint(), Ok(i));
        assert_eq!(reader.current_chunk, 0);
        assert_eq!(reader.current_byte, 8 * (i as usize + 1));
    }
    assert_eq!(reader.read_uint(), Err(MessageError::OutOfBounds));
    reader.reset();
    assert_eq!(reader.read_binary(), Ok(vec![0, 0, 0, 0, 0, 0, 0, 0]));
    assert_eq!(reader.read_bool(), Ok(false));
    assert_eq!(reader.read_int(), Ok(2));
    assert_eq!(reader.skip(), Ok(()));
    assert_eq!((reader.current_byte, reader.current_chunk), (32, 0));
    assert_eq!(reader.finalize(), Err(MessageError::IncompleteSchema));
}

#[test]
fn rest_is_left_by_advance() {
    let bytes = [0u8, 0, 0, 0, 0, 0, 0, 1, 1];
    let mut reader = ConnectionReader::new(vec![Chunks::Rest, Chunks::Bool], &bytes);
    assert_eq!(reader.read_uint(), Ok(1));
    assert_eq!(reader.current_chunk, 0);
    assert_eq!(reader.advance(), Ok(()));
    assert_eq!((reader.current_byte, reader.current_chunk), (8, 1));
    assert_eq!(reader.read_bool(), Ok(true));
    assert_eq!(reader.finalize(), Ok(()));
}

#[test]
fn skip_passes_over_each_kind_of_chunk() {
    let mut bytes = vec![1, 2, 3];
    bytes.extend_from_slice(&[0; 8]);
    bytes.extend_from_slice(&[4, 5]);
    bytes.extend_from_slice(&[0, 0, 0, 0, 0, 0, 0, 2, b'h', b'i']);
    bytes.extend_from_slice(&[0, 0, 0, 0, 0, 0, 0, 0]);
    bytes.push(1);
    bytes.extend_from_slice(&[9; 8]);
    bytes.push(42);
    let mut reader = ConnectionReader::new(
        vec![
            Chunks::Int { size: 3 },
            Chunks::Float,
            Chunks::Uint { size: 2 },
            Chunks::String,
            Chunks::Binary,
            Chunks::Bool,
            Chunks::Any,
            Chunks::Uint { size: 1 },
        ],
        &bytes,
    );
    let ends = [3, 11, 13, 23, 31, 32, 40];
    for (i, end) in ends.iter().enumerate() {
        assert_eq!(reader.skip(), Ok(()));
        assert_eq!((reader.current_byte, reader.current_chunk), (*end, i + 1));
    }
    assert_eq!(reader.read_uint(), Ok(42));
    assert_eq!(reader.finalize(), Ok(()));
    assert_eq!(reader.skip(), Err(MessageError::SchemaMismatch));
}

#[test]
fn skip_goes_by_the_schema_even_unchecked() {
    let bytes = [7u8, 0, 0, 0, 0, 0, 0, 0, 1];
    let mut reader = ConnectionReader::new(vec![Chunks::Bool], &bytes).unchecked();
    assert_eq!(reader.skip(), Ok(()));
    assert_eq!((reader.current_byte, reader.current_chunk), (1, 1));
    assert_eq!(reader.skip(), Err(MessageError::SchemaMismatch));
    let mut reader = ConnectionReader::new(vec![Chunks::Int { size: 9 }], &bytes);
    assert_eq!(reader.skip(), Err(MessageError::SchemaMismatch));
}

#[test]
fn advance_moves_the_schema_cursor_alone() {
    let bytes = [1u8];
    let mut reader =
        ConnectionReader::new(vec![Chunks::String, Chunks::Bool, Chunks::Binary], &bytes);
    assert_eq!(reader.advance(), Ok(()));
    assert_eq!((reader.current_byte, reader.current_chunk), (0, 1));
    assert_eq!(reader.state, ReaderState::Reading);
    assert_eq!(reader.read_bool(), Ok(true));
    assert_eq!(reader.advance(), Ok(()));
    assert_eq!((reader.current_byte, reader.current_chunk), (1, 3));
    assert_eq!(reader.finalize(), Ok(()));
    // A complete reader refuses.
    assert_eq!(reader.advance(), Err(MessageError::SchemaMismatch));
    assert_eq!(reader.current_chunk, 3);
}

#[test]
fn advance_does_not_look_at_the_schema() {
    let bytes = [1u8];
    let mut reader =
        ConnectionReader::new(vec![Chunks::String, Chunks::Bool, Chunks::Binary], &bytes);
    assert_eq!(reader.advance(), Ok(()));
    assert_eq!(reader.advance(), Ok(()));
    assert_eq!(reader.advance(), Ok(()));
    assert_eq!(reader.current_chunk, 3);
    // The cursor moves past the end of the schema as well.
    assert_eq!(reader.advance(), Ok(()));
    assert_eq!((reader.current_byte, reader.current_chunk), (0, 4));
    assert_eq!(reader.state, ReaderState::Reading);
    assert_eq!(reader.finalize(), Err(MessageError::IncompleteSchema));

    let mut reader = ConnectionReader::new(Vec::new(), &bytes);
    assert_eq!(reader.advance(), Ok(()));
    assert_eq!((reader.current_byte, reader.current_chunk), (0, 1));
    assert_eq!(reader.read_bool(), Err(MessageError::SchemaMismatch));
}

#[test]
fn unchecked_reader_consults_no_schema() {
    let mut bytes = vec![0xFF, 0xFF, 0xFF, 0xFF, 0xFF, 0xFF, 0xFF, 0xFE];
    bytes.extend_from_slice(&[0, 0, 0, 0, 0, 0, 0, 3]);
    bytes.push(1);
    bytes.extend_from_slice(&[0, 0, 0, 0, 0, 0, 0, 1, b'a']);
    bytes.extend_from_slice(&[0, 0, 0, 0, 0, 0, 0, 1, 9]);
    bytes.extend_from_slice(&0.5f64.to_be_bytes());
    let mut reader = ConnectionReader::new(schema::login(), &bytes).unchecked();
    assert_eq!(reader.read_int(), Ok(-2));
    assert_eq!(reader.read_uint(), Ok(3));
    assert_eq!(reader.read_bool(), Ok(true));
    assert_eq!(reader.read_string(), Ok("a".to_string()));
    assert_eq!(reader.read_binary(), Ok(vec![9]));
    assert_eq!(reader.read_float_bits(), Ok(0.5f64.to_bits()));
    assert_eq!((reader.current_byte, reader.current_chunk), (43, 0));
    assert_eq!(reader.read_bool(), Err(MessageError::OutOfBounds));
    reader.reset();
    assert_eq!(reader.finalize(), Err(MessageError::IncompleteSchema));
}

#[test]
fn what_is_written_is_read_back() {
    let protocol = vec![
        Chunks::Int { size: 1 },
        Chunks::Int { size: 4 },
        Chunks::Int { size: 8 },
        Chunks::Uint { size: 3 },
        Chunks::Uint { size: 8 },
        Chunks::Float,
        Chunks::String,
        Chunks::Binary,
        Chunks::Bool,
        Chunks::Bool,
    ];
    let mut writer = ConnectionWriter::new(protocol.clone());
    writer.write_int(-128).unwrap();
    writer.write_int(-123456).unwrap();
    writer.write_int(i64::MIN).unwrap();
    writer.write_uint(0xFFFFFF).unwrap();
    writer.write_uint(u64::MAX).unwrap();
    writer.write_float_bits(f64::MAX.to_bits()).unwrap();
    writer.write_string("grüße, 世界").unwrap();
    writer.write_binary(&[0, 255, 0, 255]).unwrap();
    writer.write_bool(true).unwrap();
    writer.write_bool(false).unwrap();
    let bytes = writer.finalize().unwrap();
    let mut reader = ConnectionReader::new(protocol, &bytes);
    assert_eq!(reader.read_int(), Ok(-128));
    assert_eq!(reader.read_int(), Ok(-123456));
    assert_eq!(reader.read_int(), Ok(i64::MIN));
    assert_eq!(reader.read_uint(), Ok(0xFFFFFF));
    assert_eq!(reader.read_uint(), Ok(u64::MAX));
    assert_eq!(reader.read_float_bits().map(f64::from_bits), Ok(f64::MAX));
    assert_eq!(reader.read_string(), Ok("grüße, 世界".to_string()));
    assert_eq!(reader.read_binary(), Ok(vec![0, 255, 0, 255]));
    assert_eq!(reader.read_bool(), Ok(true));
    assert_eq!(reader.read_bool(), Ok(false));
    assert_eq!(reader.current_byte, bytes.len());
    assert_eq!(reader.finalize(), Ok(()));
}

#[test]
fn a_buffer_cut_short_is_out_of_bounds() {
    let mut writer = ConnectionWriter::new(schema::status());
    writer.write_uint(77).unwrap();
    writer.write_bool(true).unwrap();
    writer.write_binary(&[1, 2, 3, 4, 5]).unwrap();
    let bytes = writer.finalize().unwrap();
    assert_eq!(bytes.len(), 22);
    for cut in 0..bytes.len() {
        let mut reader = ConnectionReader::new(schema::status(), &bytes[..cut]);
        let outcome = reader
            .read_uint()
            .and_then(|_| reader.read_bool())
            .and_then(|_| reader.read_binary())
            .and_then(|_| reader.finalize());
        assert_eq!(outcome, Err(MessageError::OutOfBounds));
        assert!(reader.current_byte <= cut);
    }
}

#[test]
fn saved_options_do_not_fit_their_layout() {
    assert_eq!(
        encode_options("alice", &[1, 2, 3], true, "127.0.0.1"),
        Err(MessageError::SchemaMismatch)
    );
    assert_eq!(encode_options("", &[], false, ""), Err(MessageError::SchemaMismatch));
    // The name is read; the digest meets a text chunk.
    let mut bytes = vec![0, 0, 0, 0, 0, 0, 0, 5];
    bytes.extend_from_slice(b"alice");
    bytes.extend_from_slice(&[0, 0, 0, 0, 0, 0, 0, 1, 9, 1]);
    bytes.extend_from_slice(&[0, 0, 0, 0, 0, 0, 0, 0]);
    assert_eq!(decode_options(&bytes), Err(MessageError::SchemaMismatch));
    // The name itself may fail first.
    assert_eq!(decode_options(&bytes[..12]), Err(MessageError::OutOfBounds));
    assert_eq!(decode_options(&[]), Err(MessageError::OutOfBounds));
    assert_eq!(
        decode_options(&[0, 0, 0, 0, 0, 0, 0, 1, 0xFF]),
        Err(MessageError::InvalidUtf8)
    );
}
