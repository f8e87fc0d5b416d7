//! The binary form of a tokenized message: the token in four bytes, least
//! significant first, and after it the arguments in their order. An integer
//! or a character is a variable-length integer of its zigzag code. A string
//! is one byte with its length and then its bytes; it is cut short where it
//! is longer than 127 bytes or than the room that is left, and the highest
//! bit of the length byte says so.

use vstd::prelude::*;
use vstd::string::StringSliceAdditionalSpecFns;
use crate::status::Error;

verus! {

/// The longest string that is encoded whole.
pub const MAX_STRING_LENGTH: usize = 127;

/// An argument of a format string.
pub enum Argument<'a> {
    /// A signed integer.
    Int(i32),
    /// An unsigned integer.
    Unsigned(u32),
    /// A character, as its byte.
    Char(u8),
    /// A string.
    String(&'a str),
}

/// The zigzag code of an integer: the non-negative numbers take the even
/// codes and the negative ones the odd codes, the small ones first.
pub open spec fn zigzag(value: int) -> nat {
    if value >= 0 {
        (2 * value) as nat
    } else {
        (-2 * value - 1) as nat
    }
}

/// A number in groups of seven bits, the lowest group first; the highest bit
/// of a byte says that another group follows.
pub open spec fn varint(value: nat) -> Seq<u8>
    decreases value,
{
    if value < 128 {
        seq![value as u8]
    } else {
        seq![(value % 128 + 128) as u8] + varint(value / 128)
    }
}

/// The number of bytes of a string of `length` bytes that are encoded where
/// `room` bytes are left for them: as many as there are, up to the room and
/// up to the longest string that is encoded whole.
pub open spec fn kept_length(length: nat, room: nat) -> nat {
    let limit = if room < MAX_STRING_LENGTH {
        room
    } else {
        MAX_STRING_LENGTH as nat
    };
    if length < limit {
        length
    } else {
        limit
    }
}

/// A string where `room` bytes are left after its length byte.
pub open spec fn encoded_string(bytes: Seq<u8>, room: nat) -> Seq<u8> {
    let kept = kept_length(bytes.len(), room);
    let header = if kept < bytes.len() {
        kept + 128
    } else {
        kept
    };
    seq![header as u8] + bytes.take(kept as int)
}

/// The four bytes of a token.
pub open spec fn token_bytes(token: u32) -> Seq<u8> {
    seq![
        (token % 256) as u8,
        (token / 256 % 256) as u8,
        (token / 65536 % 256) as u8,
        (token / 16777216) as u8,
    ]
}

/// `encoded` if it takes no more than `space` bytes.
pub open spec fn fitting(encoded: Seq<u8>, space: nat) -> Option<Seq<u8>> {
    if encoded.len() <= space {
        Some(encoded)
    } else {
        None
    }
}

/// `front` before `back`, where there is a `back`.
pub open spec fn preceded_by(back: Option<Seq<u8>>, front: Seq<u8>) -> Option<Seq<u8>> {
    match back {
        Some(back) => Some(front + back),
        None => None,
    }
}

impl<'a> Argument<'a> {
    /// The argument where `space` bytes are left, if it has a form that fits
    /// there. A number must fit whole; a string needs its length byte.
    pub open spec fn encoded(self, space: nat) -> Option<Seq<u8>> {
        match self {
            Argument::Int(value) => fitting(varint(zigzag(value as int)), space),
            Argument::Unsigned(value) => fitting(varint(zigzag(value as int)), space),
            Argument::Char(value) => fitting(varint(zigzag(value as int)), space),
            Argument::String(value) => if space == 0 {
                None
            } else {
                Some(encoded_string(value.spec_bytes(), (space - 1) as nat))
            },
        }
    }
}

/// The arguments one after the other where `space` bytes are left, if each
/// of them fits in what those before it leave.
pub open spec fn encoded_arguments(args: Seq<Argument<'_>>, space: nat) -> Option<Seq<u8>>
    decreases args.len(),
{
    if args.len() == 0 {
        Some(Seq::empty())
    } else {
        match args.first().encoded(space) {
            Some(first) => preceded_by(
                encoded_arguments(args.drop_first(), (space - first.len()) as nat),
                first,
            ),
            None => None,
        }
    }
}

/// The message of a token and its arguments in no more than `capacity`
/// bytes, if there is one.
pub open spec fn message(token: u32, args: Seq<Argument<'_>>, capacity: nat) -> Option<Seq<u8>> {
    if capacity < 4 {
        None
    } else {
        preceded_by(encoded_arguments(args, (capacity - 4) as nat), token_bytes(token))
    }
}

/// What is encoded for a space is no longer than the space.
pub proof fn lemma_arguments_fit(args: Seq<Argument<'_>>, space: nat)
    ensures
        encoded_arguments(args, space) matches Some(encoded) ==> encoded.len() <= space,
    decreases args.len(),
{
    if args.len() > 0 {
        match args.first().encoded(space) {
            Some(first) => {
                lemma_arguments_fit(args.drop_first(), (space - first.len()) as nat);
            },
            None => {},
        }
    }
}

/// A message is no longer than the capacity that it was made for, and no
/// shorter than its token.
pub proof fn lemma_message_fits(token: u32, args: Seq<Argument<'_>>, capacity: nat)
    ensures
        message(token, args, capacity) matches Some(bytes) ==> 4 <= bytes.len() <= capacity,
{
    if capacity >= 4 {
        lemma_arguments_fit(args, (capacity - 4) as nat);
    }
}

/// Computes the zigzag code of an integer.
pub fn zigzag_encode(value: i64) -> (code: u64)
    ensures
        code == zigzag(value as int),
{
    if value >= 0 {
        (value as u64) * 2
    } else {
        ((-(value + 1)) as u64) * 2 + 1
    }
}

/// Appends a number as a variable-length integer.
pub fn push_varint(out: &mut Vec<u8>, value: u64)
    ensures
        final(out)@ == old(out)@ + varint(value as nat),
{
    let mut rest: u64 = value;
    while rest >= 128
        invariant
            old(out)@ + varint(value as nat) == out@ + varint(rest as nat),
        decreases rest,
    {
        proof {
            assert(out@.push((rest % 128 + 128) as u8) + varint((rest / 128) as nat) =~= out@
                + varint(rest as nat));
        }
        out.push((rest % 128 + 128) as u8);
        rest = rest / 128;
    }
    proof {
        assert(out@.push(rest as u8) =~= out@ + varint(rest as nat));
    }
    out.push(rest as u8);
}

/// Appends an integer as the variable-length integer of its zigzag code if
/// that takes no more than `space` bytes, and says whether it did.
pub fn push_number(out: &mut Vec<u8>, value: i64, space: usize) -> (fits: bool)
    ensures
        match fitting(varint(zigzag(value as int)), space as nat) {
            Some(encoded) => fits && final(out)@ == old(out)@ + encoded,
            None => !fits && final(out)@ == old(out)@,
        },
{
    let mut number: Vec<u8> = Vec::new();
    push_varint(&mut number, zigzag_encode(value));
    proof {
        assert(number@ =~= varint(zigzag(value as int)));
    }
    if number.len() > space {
        return false;
    }
    out.append(&mut number);
    true
}

/// Appends a string where `room` bytes are left after its length byte.
pub fn push_string(out: &mut Vec<u8>, value: &str, room: usize)
    ensures
        final(out)@ == old(out)@ + encoded_string(value.spec_bytes(), room as nat),
{
    let bytes = value.as_bytes();
    let limit: usize = if room < MAX_STRING_LENGTH {
        room
    } else {
        MAX_STRING_LENGTH
    };
    let kept: usize = if bytes.len() < limit {
        bytes.len()
    } else {
        limit
    };
    let header: u8 = if kept < bytes.len() {
        (kept + 128) as u8
    } else {
        kept as u8
    };
    out.push(header);
    let mut i: usize = 0;
    while i < kept
        invariant
            i <= kept <= bytes@.len(),
            out@ == old(out)@ + seq![header] + bytes@.take(i as int),
        decreases kept - i,
    {
        proof {
            assert((old(out)@ + seq![header] + bytes@.take(i as int)).push(bytes@[i as int])
                =~= old(out)@ + seq![header] + bytes@.take(i as int + 1));
        }
        out.push(bytes[i]);
        i += 1;
    }
    proof {
        assert(old(out)@ + seq![header] + bytes@.take(kept as int) =~= old(out)@
            + encoded_string(value.spec_bytes(), room as nat));
    }
}

/// Appends the four bytes of a token.
pub fn push_token(out: &mut Vec<u8>, token: u32)
    ensures
        final(out)@ == old(out)@ + token_bytes(token),
{
    out.push((token % 256) as u8);
    out.push((token / 256 % 256) as u8);
    out.push((token / 65536 % 256) as u8);
    out.push((token / 16777216) as u8);
    proof {
        assert(out@ =~= old(out)@ + token_bytes(token));
    }
}

/// Encodes a token and its arguments in no more than `capacity` bytes. A
/// string that does not fit is cut short; anything else that does not fit
/// makes the message impossible, and the call fails with `OutOfRange`.
pub fn encode_message(token: u32, args: &[Argument<'_>], capacity: usize) -> (encoded: Result<
    Vec<u8>,
    Error,
>)
    ensures
        match message(token, args@, capacity as nat) {
            Some(bytes) => encoded matches Ok(v) && v@ == bytes && v@.len() <= capacity,
            None => encoded == Err::<Vec<u8>, Error>(Error::OutOfRange),
        },
{
    if capacity < 4 {
        return Err(Error::OutOfRange);
    }
    let mut out: Vec<u8> = Vec::new();
    push_token(&mut out, token);
    proof {
        assert(out@ =~= token_bytes(token));
        assert(args@.skip(0) =~= args@);
    }
    let mut i: usize = 0;
    while i < args.len()
        invariant
            i <= args@.len(),
            4 <= out@.len() <= capacity,
            message(token, args@, capacity as nat) == preceded_by(
                encoded_arguments(args@.skip(i as int), (capacity - out@.len()) as nat),
                out@,
            ),
        decreases args@.len() - i,
    {
        let space: usize = capacity - out.len();
        let ghost before = out@;
        let ghost rest = args@.skip(i as int);
        proof {
            assert(rest.first() == args@[i as int]);
            assert(rest.drop_first() =~= args@.skip(i as int + 1));
        }
        let fits = match &args[i] {
            Argument::String(value) => {
                if space > 0 {
                    push_string(&mut out, value, space - 1);
                }
                space > 0
            },
            Argument::Int(value) => push_number(&mut out, *value as i64, space),
            Argument::Unsigned(value) => push_number(&mut out, *value as i64, space),
            Argument::Char(value) => push_number(&mut out, *value as i64, space),
        };
        if !fits {
            return Err(Error::OutOfRange);
        }
        proof {
            let first = rest.first().encoded(space as nat)->Some_0;
            assert(out@ == before + first);
            let tail = encoded_arguments(rest.drop_first(), (space - first.len()) as nat);
            match tail {
                Some(tail) => {
                    assert(before + (first + tail) =~= out@ + tail);
                },
                None => {},
            }
        }
        i += 1;
    }
    proof {
        assert(args@.skip(i as int) =~= Seq::<Argument<'_>>::empty());
        assert(out@ + Seq::<u8>::empty() =~= out@);
    }
    Ok(out)
}

} // verus!
