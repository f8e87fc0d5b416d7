//! Tokenized messages: a format string is replaced by the 32-bit hash of its
//! text, its token, and the arguments follow it in a compact binary form.
//!
//! A format string is given as one or more fragments, which are read as one
//! string.

use vstd::prelude::*;
use vstd::string::StringSliceAdditionalSpecFns;
use crate::status::Error;
use crate::tokenizer::encoding::encode_message;
use crate::tokenizer::encoding::lemma_message_fits;
use crate::tokenizer::encoding::message;
use crate::tokenizer::encoding::Argument;
use crate::tokenizer::format::convert_core_fmt;
use crate::tokenizer::format::core_fmt_form;
use crate::tokenizer::format::printf_form;
use crate::tokenizer::format::settle_printf;
use crate::tokenizer::hash::hash_bytes;
use crate::tokenizer::hash::hash_of;

pub mod encoding;
pub mod format;
pub mod hash;

verus! {

/// Takes tokenized messages for a shared sink such as a log. The crate's
/// users implement it, and nothing is known here of what an implementation
/// does with the bytes it is given.
pub trait MessageWriter: Sized {
    /// A writer with an empty message.
    fn new() -> Self;

    /// Appends `data` to the message.
    fn write(&mut self, data: &[u8]) -> Result<(), Error>;

    /// The space that is left in the message; `usize::MAX` where it is not
    /// limited.
    fn remaining(&self) -> usize;

    /// Called when the message is complete.
    fn finalize(self) -> Result<(), Error>;
}

/// The bytes of the fragments one after the other.
pub open spec fn joined(parts: Seq<&str>) -> Seq<u8>
    decreases parts.len(),
{
    if parts.len() == 0 {
        Seq::empty()
    } else {
        joined(parts.drop_last()) + parts.last().spec_bytes()
    }
}

/// The message of a `printf` string and its arguments in no more than
/// `capacity` bytes, or the reason for which there is none: the string and
/// the arguments do not agree, or the message does not fit.
pub open spec fn printf_message(format: Seq<u8>, args: Seq<Argument<'_>>, capacity: nat) -> Result<
    Seq<u8>,
    Error,
> {
    match printf_form(format, args) {
        Some(text) => token_message(hash_of(text), args, capacity),
        None => Err(Error::InvalidArgument),
    }
}

/// The message of a `core::fmt` string and its arguments in no more than
/// `capacity` bytes, or the reason for which there is none.
pub open spec fn core_fmt_message(format: Seq<u8>, args: Seq<Argument<'_>>, capacity: nat)
    -> Result<Seq<u8>, Error> {
    match core_fmt_form(format, args) {
        Some(text) => token_message(hash_of(text), args, capacity),
        None => Err(Error::InvalidArgument),
    }
}

/// The message of a token and its arguments in no more than `capacity`
/// bytes, or `OutOfRange` where it does not fit.
pub open spec fn token_message(token: u32, args: Seq<Argument<'_>>, capacity: nat) -> Result<
    Seq<u8>,
    Error,
> {
    match message(token, args, capacity) {
        Some(bytes) => Ok(bytes),
        None => Err(Error::OutOfRange),
    }
}

/// What a buffer holds and what is reported after a message was to be
/// written to its front: the message and behind it what was there before,
/// or the buffer unchanged and the error.
pub open spec fn buffer_holds(
    before: Seq<u8>,
    after: Seq<u8>,
    written: Result<usize, Error>,
    wanted: Result<Seq<u8>, Error>,
) -> bool {
    match wanted {
        Ok(bytes) => written == Ok::<usize, Error>(bytes.len() as usize) && bytes.len()
            <= before.len() && after == bytes + before.skip(bytes.len() as int),
        Err(error) => written == Err::<usize, Error>(error) && after == before,
    }
}

/// What is returned where `wanted` was to be computed: its bytes, or its
/// error.
pub open spec fn returns_message(returned: Result<Vec<u8>, Error>, wanted: Result<Seq<u8>, Error>)
    -> bool {
    match wanted {
        Ok(bytes) => returned matches Ok(v) && v@ == bytes,
        Err(error) => returned == Err::<Vec<u8>, Error>(error),
    }
}

/// Reads the fragments of a format string as one string.
pub fn join(parts: &[&str]) -> (bytes: Vec<u8>)
    ensures
        bytes@ == joined(parts@),
{
    let mut bytes: Vec<u8> = Vec::new();
    let mut i: usize = 0;
    while i < parts.len()
        invariant
            i <= parts@.len(),
            bytes@ == joined(parts@.take(i as int)),
        decreases parts@.len() - i,
    {
        let part = parts[i].as_bytes();
        let ghost start = bytes@;
        let mut j: usize = 0;
        while j < part.len()
            invariant
                j <= part@.len(),
                bytes@ == start + part@.take(j as int),
            decreases part@.len() - j,
        {
            proof {
                assert((start + part@.take(j as int)).push(part@[j as int]) =~= start
                    + part@.take(j as int + 1));
            }
            bytes.push(part[j]);
            j += 1;
        }
        proof {
            assert(part@.take(j as int) =~= part@);
            assert(parts@.take(i as int + 1).drop_last() =~= parts@.take(i as int));
        }
        i += 1;
    }
    proof {
        assert(parts@.take(i as int) =~= parts@);
    }
    bytes
}

/// The token of a string.
pub fn token(string: &str) -> (token: u32)
    ensures
        token == hash_of(string.spec_bytes()),
{
    hash_bytes(string.as_bytes())
}

/// Writes `bytes` over the front of `buffer`.
fn copy_to_front(buffer: &mut [u8], bytes: &Vec<u8>)
    requires
        bytes@.len() <= old(buffer)@.len(),
    ensures
        final(buffer)@ == bytes@ + old(buffer)@.skip(bytes@.len() as int),
{
    let mut i: usize = 0;
    while i < bytes.len()
        invariant
            i <= bytes@.len() <= buffer@.len(),
            buffer@.len() == old(buffer)@.len(),
            buffer@ == bytes@.take(i as int) + old(buffer)@.skip(i as int),
        decreases bytes@.len() - i,
    {
        buffer[i] = bytes[i];
        proof {
            assert(buffer@ =~= bytes@.take(i as int + 1) + old(buffer)@.skip(i as int + 1));
        }
        i += 1;
    }
    proof {
        assert(bytes@.take(i as int) =~= bytes@);
    }
}

/// Writes a message to the front of `buffer` and returns its length, or
/// hands on the error for which there is no message.
fn write_to_buffer(buffer: &mut [u8], encoded: Result<Vec<u8>, Error>) -> (written: Result<
    usize,
    Error,
>)
    requires
        encoded matches Ok(v) ==> v@.len() <= old(buffer)@.len(),
    ensures
        match encoded {
            Ok(v) => buffer_holds(old(buffer)@, final(buffer)@, written, Ok(v@)),
            Err(error) => buffer_holds(old(buffer)@, final(buffer)@, written, Err(error)),
        },
{
    match encoded {
        Ok(bytes) => {
            copy_to_front(buffer, &bytes);
            Ok(bytes.len())
        },
        Err(error) => Err(error),
    }
}

/// Writes the message of a token and its arguments to the front of
/// `buffer` and returns its length. Where the message does not fit the
/// buffer is left as it was.
pub fn tokenize_to_buffer(buffer: &mut [u8], token: u32, args: &[Argument<'_>]) -> (written:
    Result<usize, Error>)
    ensures
        buffer_holds(
            old(buffer)@,
            final(buffer)@,
            written,
            token_message(token, args@, old(buffer)@.len()),
        ),
{
    let encoded = encode_message(token, args, buffer.len());
    write_to_buffer(buffer, encoded)
}

/// The message of a `printf` string and its arguments in no more than
/// `capacity` bytes.
pub fn tokenize_printf(format: &[&str], args: &[Argument<'_>], capacity: usize) -> (encoded:
    Result<Vec<u8>, Error>)
    ensures
        returns_message(encoded, printf_message(joined(format@), args@, capacity as nat)),
{
    let text = join(format);
    match settle_printf(text.as_slice(), args) {
        Ok(settled) => encode_message(hash_bytes(settled.as_slice()), args, capacity),
        Err(error) => Err(error),
    }
}

/// The message of a `core::fmt` string and its arguments in no more than
/// `capacity` bytes. The token is that of the `printf` string that prints
/// the same.
pub fn tokenize_core_fmt(format: &[&str], args: &[Argument<'_>], capacity: usize) -> (encoded:
    Result<Vec<u8>, Error>)
    ensures
        returns_message(encoded, core_fmt_message(joined(format@), args@, capacity as nat)),
{
    let text = join(format);
    match convert_core_fmt(text.as_slice(), args) {
        Ok(converted) => encode_message(hash_bytes(converted.as_slice()), args, capacity),
        Err(error) => Err(error),
    }
}

/// Tokenizes a `printf` string and its arguments to the front of `buffer`
/// and returns the length of the message. Where there is no message that
/// fits the buffer is left as it was.
pub fn tokenize_printf_to_buffer(buffer: &mut [u8], format: &[&str], args: &[Argument<'_>])
    -> (written: Result<usize, Error>)
    ensures
        buffer_holds(
            old(buffer)@,
            final(buffer)@,
            written,
            printf_message(joined(format@), args@, old(buffer)@.len()),
        ),
{
    let encoded = tokenize_printf(format, args, buffer.len());
    proof {
        if let Some(text) = printf_form(joined(format@), args@) {
            lemma_message_fits(hash_of(text), args@, buffer@.len());
        }
    }
    write_to_buffer(buffer, encoded)
}

/// Tokenizes a `core::fmt` string and its arguments to the front of
/// `buffer` and returns the length of the message. Where there is no message
/// that fits the buffer is left as it was.
pub fn tokenize_core_fmt_to_buffer(buffer: &mut [u8], format: &[&str], args: &[Argument<'_>])
    -> (written: Result<usize, Error>)
    ensures
        buffer_holds(
            old(buffer)@,
            final(buffer)@,
            written,
            core_fmt_message(joined(format@), args@, old(buffer)@.len()),
        ),
{
    let encoded = tokenize_core_fmt(format, args, buffer.len());
    proof {
        if let Some(text) = core_fmt_form(joined(format@), args@) {
            lemma_message_fits(hash_of(text), args@, buffer@.len());
        }
    }
    write_to_buffer(buffer, encoded)
}

/// Hands the message of a token and its arguments to `writer`, in one call
/// of its `write`. The message is the one that fits the space that the
/// writer's `remaining` reports. Where there is none the writer is given
/// nothing and stays as it was, and `OutOfRange` is returned. Where there is
/// one, what is returned and what becomes of the writer are what its `write`
/// makes of the message.
pub fn tokenize_to_writer<W: MessageWriter>(writer: &mut W, token: u32, args: &[Argument<'_>])
    -> (done: Result<(), Error>)
    ensures
        exists|space: usize| #[trigger]
            call_ensures(W::remaining, (&*old(writer),), space) && match message(
                token,
                args@,
                space as nat,
            ) {
                Some(bytes) => exists|target: &mut W, data: &[u8]|
                    *target == *old(writer) && *final(target) == *final(writer) && data@ == bytes
                        && #[trigger] call_ensures(W::write, (target, data), done),
                None => done == Err::<(), Error>(Error::OutOfRange) && *final(writer) == *old(
                    writer,
                ),
            },
{
    let space = writer.remaining();
    match encode_message(token, args, space) {
        Ok(bytes) => writer.write(bytes.as_slice()),
        Err(error) => Err(error),
    }
}

/// Tokenizes a `printf` string and its arguments to a new writer of type
/// `W`: the message that `tokenize_printf` makes for the space that the
/// writer reports is handed to it in one call of its `write`, and the writer
/// is finalized where that succeeded. Fails with `InvalidArgument` where the
/// string and the arguments do not agree.
pub fn tokenize_printf_to_writer<W: MessageWriter>(format: &[&str], args: &[Argument<'_>]) -> (done:
    Result<(), Error>)
    ensures
        printf_form(joined(format@), args@) is None ==> done == Err::<(), Error>(
            Error::InvalidArgument,
        ),
{
    let mut writer = W::new();
    let space = writer.remaining();
    match tokenize_printf(format, args, space) {
        Ok(bytes) => match writer.write(bytes.as_slice()) {
            Ok(()) => writer.finalize(),
            Err(error) => Err(error),
        },
        Err(error) => Err(error),
    }
}

/// Tokenizes a `core::fmt` string and its arguments to a new writer of type
/// `W`: the message that `tokenize_core_fmt` makes for the space that the
/// writer reports is handed to it in one call of its `write`, and the writer
/// is finalized where that succeeded. Fails with `InvalidArgument` where the
/// string and the arguments do not agree.
pub fn tokenize_core_fmt_to_writer<W: MessageWriter>(format: &[&str], args: &[Argument<'_>])
    -> (done: Result<(), Error>)
    ensures
        core_fmt_form(joined(format@), args@) is None ==> done == Err::<(), Error>(
            Error::InvalidArgument,
        ),
{
    let mut writer = W::new();
    let space = writer.remaining();
    match tokenize_core_fmt(format, args, space) {
        Ok(bytes) => match writer.write(bytes.as_slice()) {
            Ok(()) => writer.finalize(),
            Err(error) => Err(error),
        },
        Err(error) => Err(error),
    }
}

} // verus!
