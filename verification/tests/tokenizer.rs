use pigweed::status::Error;
use pigweed::tokenizer::encoding::Argument;
use pigweed::tokenizer::MessageWriter;
use pigweed::tokenizer::encoding::{encode_message, push_varint, zigzag_encode};
use pigweed::tokenizer::format::{convert_core_fmt, settle_printf};
use pigweed::tokenizer::hash::hash_bytes;
use pigweed::tokenizer::{
    join, token, tokenize_core_fmt, tokenize_core_fmt_to_buffer, tokenize_core_fmt_to_writer,
    tokenize_printf, tokenize_printf_to_buffer, tokenize_printf_to_writer, tokenize_to_buffer,
    tokenize_to_writer,
};
use std::sync::Mutex;

// The writer API stands for a shared sink. The test writer leaves what it was
// given here when it is finalized, so that the test can look at it.
static TEST_OUTPUT: Mutex<Option<Vec<u8>>> = Mutex::new(None);
static TEST_SERIAL: Mutex<()> = Mutex::new(());

struct TestMessageWriter<const N: usize> {
    buffer: [u8; N],
    position: usize,
}

impl<const N: usize> MessageWriter for TestMessageWriter<N> {
    fn new() -> Self {
        Self { buffer: [0u8; N], position: 0 }
    }

    fn write(&mut self, data: &[u8]) -> Result<(), Error> {
        if data.len() > N - self.position {
            return Err(Error::OutOfRange);
        }
        self.buffer[self.position..self.position + data.len()].copy_from_slice(data);
        self.position += data.len();
        Ok(())
    }

    fn remaining(&self) -> usize {
        N - self.position
    }

    fn finalize(self) -> Result<(), Error> {
        *TEST_OUTPUT.lock().unwrap() = Some(self.buffer[..self.position].to_vec());
        Ok(())
    }
}

fn tokenize_to_buffer_test<const N: usize>(
    expected_data: &[u8],
    printf_fmt: &str,
    core_fmt: &str,
    args: &[Argument],
) {
    if printf_fmt != "" {
        let mut buffer = [0u8; N];
        let len = tokenize_printf_to_buffer(&mut buffer, &[printf_fmt], args).unwrap();
        assert_eq!(
            &buffer[..len],
            expected_data,
            "printf style input does not produce expected output",
        );
    }
    if core_fmt != "" {
        let mut buffer = [0u8; N];
        let len = tokenize_core_fmt_to_buffer(&mut buffer, &[core_fmt], args).unwrap();
        assert_eq!(
            &buffer[..len],
            expected_data,
            "core::fmt style input does not produce expected output",
        );
    }
}

fn tokenize_to_writer_test<const N: usize>(
    expected_data: &[u8],
    printf_fmt: &str,
    core_fmt: &str,
    args: &[Argument],
) {
    let _serial = TEST_SERIAL.lock().unwrap_or_else(|poisoned| poisoned.into_inner());
    if printf_fmt != "" {
        *TEST_OUTPUT.lock().unwrap() = None;
        tokenize_printf_to_writer::<TestMessageWriter<N>>(&[printf_fmt], args).unwrap();
        assert_eq!(*TEST_OUTPUT.lock().unwrap(), Some(expected_data.to_vec()));
    }
    if core_fmt != "" {
        *TEST_OUTPUT.lock().unwrap() = None;
        tokenize_core_fmt_to_writer::<TestMessageWriter<N>>(&[core_fmt], args).unwrap();
        assert_eq!(*TEST_OUTPUT.lock().unwrap(), Some(expected_data.to_vec()));
    }
}

fn tokenize_test<const N: usize>(
    expected_data: &[u8],
    printf_fmt: &str,
    core_fmt: &str,
    args: &[Argument],
) {
    tokenize_to_buffer_test::<N>(expected_data, printf_fmt, core_fmt, args);
    tokenize_to_writer_test::<N>(expected_data, printf_fmt, core_fmt, args);
}

#[test]
fn test_token() {}

#[test]
fn bare_string_encodes_correctly() {
    tokenize_test::<64>(
        &[0xe0, 0x92, 0xe0, 0xa], // expected buffer
        "Hello Pigweed",          // printf style
        "Hello Pigweed",          // core::fmt style
        &[],
    );
}

#[test]
fn test_decimal_format() {
    tokenize_test::<64>(
        &[0x52, 0x1c, 0xb0, 0x4c, 0x2], // expected buffer
        "The answer is %d!",            // printf style
        "The answer is {}!",            // core::fmt style
        &[Argument::Int(1 as i32)],
    );

    tokenize_test::<64>(
        &[0x36, 0xd0, 0xfb, 0x69, 0x1], // expected buffer
        "No! The answer is %d!",        // printf style
        "No! The answer is {}!",        // core::fmt style
        &[Argument::Int(-1 as i32)],
    );

    tokenize_test::<64>(
        &[0xa4, 0xad, 0x50, 0x54, 0x0],               // expected buffer
        "I think you'll find that the answer is %d!", // printf style
        "I think you'll find that the answer is {}!", // core::fmt style
        &[Argument::Int(0 as i32)],
    );
}

#[test]
fn test_misc_integer_format() {
    // %d, %i, %o, %u, %x, %X all encode integers the same.
    tokenize_test::<64>(
        &[0x52, 0x1c, 0xb0, 0x4c, 0x2], // expected buffer
        "The answer is %d!",            // printf style
        "",                             // no equivalent core::fmt style
        &[Argument::Int(1)],
    );

    // %i is another way to write %d, and is tokenized as %d.
    tokenize_test::<64>(
        &[0x52, 0x1c, 0xb0, 0x4c, 0x2], // expected buffer
        "The answer is %i!",            // printf style
        "",                             // no equivalent core::fmt style
        &[Argument::Int(1)],
    );

    tokenize_test::<64>(
        &[0x5d, 0x70, 0x12, 0xb4, 0x2], // expected buffer
        "The answer is %o!",            // printf style
        "",                             // no equivalent core::fmt style
        &[Argument::Unsigned(1u32)],
    );

    tokenize_test::<64>(
        &[0x63, 0x58, 0x5f, 0x8f, 0x2], // expected buffer
        "The answer is %u!",            // printf style
        "",                             // no equivalent core::fmt style
        &[Argument::Unsigned(1u32)],
    );

    tokenize_test::<64>(
        &[0x66, 0xcc, 0x05, 0x7d, 0x2], // expected buffer
        "The answer is %x!",            // printf style
        "",                             // no equivalent core::fmt style
        &[Argument::Unsigned(1u32)],
    );

    tokenize_test::<64>(
        &[0x46, 0x4c, 0x16, 0x96, 0x2], // expected buffer
        "The answer is %X!",            // printf style
        "",                             // no equivalent core::fmt style
        &[Argument::Unsigned(1u32)],
    );
}

#[test]
fn test_string_format() {
    tokenize_test::<64>(
        b"\x25\xf6\x2e\x66\x07Pigweed", // expected buffer
        "Hello: %s!",                   // printf style
        "",                             // no equivalent core::fmt style
        &[Argument::String("Pigweed")],
    );
}

#[test]
fn test_string_format_overflow() {
    tokenize_test::<8>(
        b"\x25\xf6\x2e\x66\x83Pig", // expected buffer
        "Hello: %s!",               // printf style
        "",                         // no equivalent core::fmt style
        &[Argument::String("Pigweed")],
    );
}

#[test]
fn test_char_format() {
    tokenize_test::<64>(
        &[0x2e, 0x52, 0xac, 0xe4, 0xa0, 0x1], // expected buffer
        "Hello: %cigweed",                    // printf style
        "",                                   // no equivalent core::fmt style
        &[Argument::Char("P".as_bytes()[0])],
    );
}

#[test]
fn test_untyped_format() {
    tokenize_test::<64>(
        &[0x63, 0x58, 0x5f, 0x8f, 0x2], // expected buffer
        "The answer is %u!",            // printf style
        "The answer is {}!",            // core::fmt style
        &[Argument::Unsigned(1 as u32)],
    );

    tokenize_test::<64>(
        &[0x36, 0xd0, 0xfb, 0x69, 0x1], // expected buffer
        "No! The answer is %v!",        // printf style
        "No! The answer is {}!",        // core::fmt style
        &[Argument::Int(-1 as i32)],
    );

    tokenize_test::<64>(
        b"\x25\xf6\x2e\x66\x07Pigweed", // expected buffer
        "Hello: %v!",                   // printf style
        "Hello: {}!",                   // core::fmt style
        &[Argument::String("Pigweed" as &str)],
    );
}

#[test]
fn test_field_width_and_zero_pad_format() {
    tokenize_test::<64>(
        &[0x3a, 0xc2, 0x1a, 0x05, 0xfc, 0xab, 0x06], // expected buffer
        "Lets go to the %x",                         // printf style
        "Lets go to the {:x}",                       // core::fmt style
        &[Argument::Unsigned(0xcafe as u32)],
    );

    tokenize_test::<64>(
        &[0xf3, 0x16, 0x03, 0x99, 0xfc, 0xab, 0x06], // expected buffer
        "Lets go to the %8x",                        // printf style
        "Lets go to the {:8x}",                      // core::fmt style
        &[Argument::Unsigned(0xcafe as u32)],
    );

    tokenize_test::<64>(
        &[0x44, 0xce, 0xa3, 0x7e, 0xfc, 0xab, 0x06], // expected buffer
        "Lets go to the %08x",                       // printf style
        "Lets go to the {:08x}",                     // core::fmt style
        &[Argument::Unsigned(0xcafe as u32)],
    );
}

#[test]
fn tokenizer_supports_concatenated_printf_format_strings() {
    // A message without arguments and one with arguments take different
    // paths, so both are tried.
    let mut buffer = [0u8; 64];
    let len = tokenize_printf_to_buffer(&mut buffer, &["Hello", " Pigweed"], &[]).unwrap();
    assert_eq!(&buffer[..len], &[0xe0, 0x92, 0xe0, 0xa]);

    let len = tokenize_printf_to_buffer(
        &mut buffer,
        &["Hello: ", "%cigweed"],
        &[Argument::Char("P".as_bytes()[0])],
    )
    .unwrap();
    assert_eq!(&buffer[..len], &[0x2e, 0x52, 0xac, 0xe4, 0xa0, 0x1]);
}

#[test]
fn tokenizer_supports_concatenated_core_fmt_format_strings() {
    // A message without arguments and one with arguments take different
    // paths, so both are tried.
    let mut buffer = [0u8; 64];
    let len = tokenize_core_fmt_to_buffer(&mut buffer, &["Hello", " Pigweed"], &[]).unwrap();
    assert_eq!(&buffer[..len], &[0xe0, 0x92, 0xe0, 0xa]);

    let len = tokenize_core_fmt_to_buffer(
        &mut buffer,
        &["The answer is ", "{}!"],
        &[Argument::Int(1 as i32)],
    )
    .unwrap();
    assert_eq!(&buffer[..len], &[0x52, 0x1c, 0xb0, 0x4c, 0x2]);
}

#[test]
fn token_is_the_hash_of_the_string() {
    assert_eq!(token("hello, \"world\""), 3537412730);
    assert_eq!(token(""), 0);
    assert_eq!(token("Hello Pigweed"), 0x0ae092e0);
}

#[test]
fn message_that_does_not_fit_leaves_the_buffer_alone() {
    let mut buffer = [7u8; 3];
    assert_eq!(tokenize_to_buffer(&mut buffer, 1, &[]), Err(Error::OutOfRange));
    assert_eq!(buffer, [7u8; 3]);

    let mut buffer = [7u8; 5];
    assert_eq!(
        tokenize_to_buffer(&mut buffer, 1, &[Argument::Unsigned(0xcafe)]),
        Err(Error::OutOfRange)
    );
    assert_eq!(buffer, [7u8; 5]);

    // A string needs its length byte at least.
    let mut buffer = [7u8; 4];
    assert_eq!(
        tokenize_to_buffer(&mut buffer, 1, &[Argument::String("x")]),
        Err(Error::OutOfRange)
    );
    let mut buffer = [7u8; 5];
    assert_eq!(tokenize_to_buffer(&mut buffer, 1, &[Argument::String("x")]), Ok(5));
    assert_eq!(buffer, [1, 0, 0, 0, 0x80]);
}

#[test]
fn message_is_written_to_the_front_of_the_buffer() {
    let mut buffer = [7u8; 8];
    assert_eq!(tokenize_to_buffer(&mut buffer, 0x04030201, &[Argument::Int(-2)]), Ok(5));
    assert_eq!(buffer, [1, 2, 3, 4, 3, 7, 7, 7]);
}

#[test]
fn integers_are_zigzag_varints() {
    let mut buffer = [0u8; 32];
    let len = tokenize_to_buffer(
        &mut buffer,
        0,
        &[
            Argument::Int(i32::MAX),
            Argument::Int(i32::MIN),
            Argument::Unsigned(u32::MAX),
            Argument::Int(63),
            Argument::Int(64),
            Argument::Int(-64),
            Argument::Int(-65),
        ],
    )
    .unwrap();
    assert_eq!(
        &buffer[..len],
        &[
            0, 0, 0, 0, // token
            0xfe, 0xff, 0xff, 0xff, 0x0f, // 4294967294
            0xff, 0xff, 0xff, 0xff, 0x0f, // 4294967295
            0xfe, 0xff, 0xff, 0xff, 0x1f, // 8589934590
            0x7e, 0x80, 0x01, 0x7f, 0x81, 0x01,
        ]
    );
}

#[test]
fn long_string_is_cut_at_127_bytes() {
    let long = "a".repeat(200);
    let mut buffer = [0u8; 256];
    let len = tokenize_to_buffer(&mut buffer, 0, &[Argument::String(&long)]).unwrap();
    assert_eq!(len, 4 + 1 + 127);
    assert_eq!(buffer[4], 0xff);
    assert_eq!(&buffer[5..len], "a".repeat(127).as_bytes());

    let exact = "b".repeat(127);
    let len = tokenize_to_buffer(&mut buffer, 0, &[Argument::String(&exact)]).unwrap();
    assert_eq!(len, 4 + 1 + 127);
    assert_eq!(buffer[4], 0x7f);
}

#[test]
fn format_and_arguments_must_agree() {
    let mut buffer = [0u8; 64];
    let invalid = Err(Error::InvalidArgument);
    // An argument is missing, or one is left over.
    assert_eq!(tokenize_printf_to_buffer(&mut buffer, &["%d"], &[]), invalid);
    assert_eq!(tokenize_printf_to_buffer(&mut buffer, &["x"], &[Argument::Int(1)]), invalid);
    assert_eq!(tokenize_core_fmt_to_buffer(&mut buffer, &["{}"], &[]), invalid);
    assert_eq!(tokenize_core_fmt_to_buffer(&mut buffer, &["x"], &[Argument::Int(1)]), invalid);
    // The argument does not suit the conversion.
    assert_eq!(tokenize_printf_to_buffer(&mut buffer, &["%s"], &[Argument::Int(1)]), invalid);
    assert_eq!(tokenize_printf_to_buffer(&mut buffer, &["%d"], &[Argument::Char(1)]), invalid);
    assert_eq!(tokenize_printf_to_buffer(&mut buffer, &["%c"], &[Argument::String("a")]), invalid);
    assert_eq!(
        tokenize_core_fmt_to_buffer(&mut buffer, &["{:x}"], &[Argument::String("a")]),
        invalid
    );
    // A conversion or a field is not finished, or not known.
    assert_eq!(tokenize_printf_to_buffer(&mut buffer, &["100%"], &[]), invalid);
    assert_eq!(tokenize_printf_to_buffer(&mut buffer, &["%q"], &[Argument::Int(1)]), invalid);
    assert_eq!(tokenize_core_fmt_to_buffer(&mut buffer, &["{"], &[Argument::Int(1)]), invalid);
    assert_eq!(tokenize_core_fmt_to_buffer(&mut buffer, &["}"], &[]), invalid);
    assert_eq!(tokenize_core_fmt_to_buffer(&mut buffer, &["{0}"], &[Argument::Int(1)]), invalid);
    assert_eq!(tokenize_core_fmt_to_buffer(&mut buffer, &["{:xx}"], &[Argument::Int(1)]), invalid);
    assert_eq!(buffer, [0u8; 64]);
}

#[test]
fn escapes_are_tokenized_as_printf_writes_them() {
    let mut buffer = [0u8; 64];
    let mut expected = [0u8; 64];
    // `%%` stays as it is.
    let len = tokenize_printf_to_buffer(&mut buffer, &["100%%"], &[]).unwrap();
    assert_eq!(&buffer[..len], &token("100%%").to_le_bytes());
    // In a `core::fmt` string a `%` is doubled and a doubled brace is one.
    let len = tokenize_core_fmt_to_buffer(&mut buffer, &["100% {{{}}}"], &[Argument::Int(5)])
        .unwrap();
    let expected_len =
        tokenize_to_buffer(&mut expected, token("100%% {%d}"), &[Argument::Int(5)]).unwrap();
    assert_eq!(&buffer[..len], &expected[..expected_len]);
    // Flags, width and precision of a conversion are kept.
    let len =
        tokenize_printf_to_buffer(&mut buffer, &["%-08.3i|%#v"], &[
            Argument::Int(5),
            Argument::Char(65),
        ])
        .unwrap();
    let expected_len = tokenize_to_buffer(
        &mut expected,
        token("%-08.3d|%#c"),
        &[Argument::Int(5), Argument::Char(65)],
    )
    .unwrap();
    assert_eq!(&buffer[..len], &expected[..expected_len]);
}

#[test]
fn writer_is_given_the_message_in_one_piece() {
    let mut writer = TestMessageWriter::<16>::new();
    tokenize_to_writer(&mut writer, 0x04030201, &[Argument::String("Pigweed")]).unwrap();
    assert_eq!(&writer.buffer[..writer.position], b"\x01\x02\x03\x04\x07Pigweed");
    // The second message is made for the four bytes that are left.
    assert_eq!(writer.remaining(), 4);
    assert_eq!(
        tokenize_to_writer(&mut writer, 1, &[Argument::Int(1)]),
        Err(Error::OutOfRange)
    );
    assert_eq!(writer.position, 12);
    tokenize_to_writer(&mut writer, 1, &[]).unwrap();
    assert_eq!(&writer.buffer[12..], &[1, 0, 0, 0]);
}

#[test]
fn fragments_are_read_as_one_string() {
    assert_eq!(join(&[]), b"");
    assert_eq!(join(&["Hello"]), b"Hello");
    assert_eq!(join(&["Hello", "", " Pig", "weed"]), b"Hello Pigweed");
    assert_eq!(join(&["\u{e9}", "%d"]), [0xc3, 0xa9, 0x25, 0x64]);
}

#[test]
fn hash_weighs_each_byte_by_its_position() {
    assert_eq!(hash_bytes(b""), 0);
    // One byte: the length, and 65599 times the byte.
    assert_eq!(hash_bytes(b"a"), 1 + 65599 * 97);
    // Two bytes: the second is weighed by the square of 65599, in 32 bits.
    let square = 65599u32.wrapping_mul(65599);
    assert_eq!(hash_bytes(b"ab"), 2u32.wrapping_add(65599 * 97).wrapping_add(square.wrapping_mul(98)));
    assert_eq!(hash_bytes(b"The answer is %d!"), 0x4cb01c52);
    assert_ne!(hash_bytes(b"ab"), hash_bytes(b"ba"));
}

#[test]
fn zigzag_takes_the_small_numbers_first() {
    assert_eq!(zigzag_encode(0), 0);
    assert_eq!(zigzag_encode(-1), 1);
    assert_eq!(zigzag_encode(1), 2);
    assert_eq!(zigzag_encode(-2), 3);
    assert_eq!(zigzag_encode(i64::MAX), u64::MAX - 1);
    assert_eq!(zigzag_encode(i64::MIN), u64::MAX);
}

#[test]
fn varint_has_seven_bits_to_the_byte() {
    let mut out = vec![9u8];
    push_varint(&mut out, 0);
    push_varint(&mut out, 127);
    push_varint(&mut out, 128);
    push_varint(&mut out, 300);
    assert_eq!(out, [9, 0, 0x7f, 0x80, 0x01, 0xac, 0x02]);
    let mut out = Vec::new();
    push_varint(&mut out, u64::MAX);
    assert_eq!(out, [0xff, 0xff, 0xff, 0xff, 0xff, 0xff, 0xff, 0xff, 0xff, 0x01]);
}

#[test]
fn message_is_made_for_a_capacity() {
    let args = [Argument::String("Pigweed"), Argument::Int(1)];
    assert_eq!(encode_message(7, &args, 3), Err(Error::OutOfRange));
    // The string takes what is left, and the number does not fit behind it.
    assert_eq!(encode_message(7, &args, 9), Err(Error::OutOfRange));
    assert_eq!(encode_message(7, &args, 13).unwrap(), b"\x07\0\0\0\x07Pigweed\x02");
    let args = [Argument::Int(1), Argument::String("Pigweed")];
    assert_eq!(encode_message(7, &args, 9).unwrap(), b"\x07\0\0\0\x02\x83Pig");
    assert_eq!(encode_message(7, &args, 6).unwrap(), b"\x07\0\0\0\x02\x80");
    assert_eq!(encode_message(7, &args, 5), Err(Error::OutOfRange));
}

#[test]
fn printf_string_is_settled_by_its_arguments() {
    let args = [Argument::Int(1), Argument::Unsigned(2), Argument::Char(3), Argument::String("4")];
    assert_eq!(settle_printf(b"%v %v %v %v", &args).unwrap(), b"%d %u %c %s");
    assert_eq!(settle_printf(b"%i %x %c %s", &args).unwrap(), b"%d %x %c %s");
    assert_eq!(settle_printf(b"%+5d%%%08.3X%-2c%.1s", &args).unwrap(), b"%+5d%%%08.3X%-2c%.1s");
    assert_eq!(settle_printf(b"%u %i", &args[..2]).unwrap(), b"%u %d");
    assert_eq!(settle_printf(b"", &[]).unwrap(), b"");
    assert_eq!(settle_printf(b"%d", &args), Err(Error::InvalidArgument));
    assert_eq!(settle_printf(b"%5", &args[..1]), Err(Error::InvalidArgument));
    assert_eq!(settle_printf(b"%5%", &[]), Err(Error::InvalidArgument));
}

#[test]
fn core_fmt_string_becomes_a_printf_string() {
    let args = [Argument::Int(1), Argument::Unsigned(2), Argument::Char(3), Argument::String("4")];
    assert_eq!(convert_core_fmt(b"{} {} {} {}", &args).unwrap(), b"%d %u %c %s");
    assert_eq!(convert_core_fmt(b"{:} {:5} {:x} {:o}", &args[..2]), Err(Error::InvalidArgument));
    assert_eq!(convert_core_fmt(b"{:}{:5}", &args[..2]).unwrap(), b"%d%5u");
    assert_eq!(convert_core_fmt(b"{:08X} {:o}", &args[..2]).unwrap(), b"%08X %o");
    assert_eq!(convert_core_fmt(b"{{}} 5%", &[]).unwrap(), b"{} 5%%");
    assert_eq!(convert_core_fmt(b"{:x}", &args[2..3]), Err(Error::InvalidArgument));
    assert_eq!(convert_core_fmt(b"{:?}", &args[..1]), Err(Error::InvalidArgument));
    assert_eq!(convert_core_fmt(b"{:x", &args[..1]), Err(Error::InvalidArgument));
}

#[test]
fn both_styles_give_the_same_message() {
    let args = [Argument::Unsigned(0xcafe), Argument::String("Pigweed")];
    let printf = tokenize_printf(&["Lets go to the %08x, ", "%s"], &args, 64).unwrap();
    let core_fmt = tokenize_core_fmt(&["Lets go to the {:08x}, ", "{}"], &args, 64).unwrap();
    assert_eq!(printf, core_fmt);
    let mut expected = token("Lets go to the %08x, %s").to_le_bytes().to_vec();
    expected.extend_from_slice(b"\xfc\xab\x06\x07Pigweed");
    assert_eq!(printf, expected);
    assert_eq!(tokenize_printf(&["%s"], &args[1..], 3), Err(Error::OutOfRange));
    assert_eq!(tokenize_core_fmt(&["{}"], &args[1..], 3), Err(Error::OutOfRange));
    assert_eq!(tokenize_printf(&["%s"], &args, 64), Err(Error::InvalidArgument));
    assert_eq!(tokenize_core_fmt(&["{}"], &[], 64), Err(Error::InvalidArgument));
}
