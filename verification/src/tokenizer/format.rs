//! Format strings. A message is tokenized under the `printf` form of its
//! format string, in which every conversion names the kind of its argument.
//! `printf` strings are brought into that form, and `core::fmt` strings are
//! converted into it.

use vstd::prelude::*;
use crate::status::Error;
use crate::tokenizer::encoding::preceded_by;
use crate::tokenizer::encoding::Argument;

verus! {

/// The bytes that have a meaning in a format string.
pub const PERCENT: u8 = 37;

pub const MINUS: u8 = 45;

pub const PLUS: u8 = 43;

pub const SPACE: u8 = 32;

pub const HASH: u8 = 35;

pub const POINT: u8 = 46;

pub const DIGIT_0: u8 = 48;

pub const DIGIT_9: u8 = 57;

pub const COLON: u8 = 58;

pub const OPEN_BRACE: u8 = 123;

pub const CLOSE_BRACE: u8 = 125;

pub const LOWER_C: u8 = 99;

pub const LOWER_D: u8 = 100;

pub const LOWER_I: u8 = 105;

pub const LOWER_O: u8 = 111;

pub const LOWER_S: u8 = 115;

pub const LOWER_U: u8 = 117;

pub const LOWER_V: u8 = 118;

pub const LOWER_X: u8 = 120;

pub const UPPER_X: u8 = 88;

impl<'a> Argument<'a> {
    /// The conversion that prints an argument of this kind.
    pub open spec fn conversion(self) -> u8 {
        match self {
            Argument::Int(_) => LOWER_D,
            Argument::Unsigned(_) => LOWER_U,
            Argument::Char(_) => LOWER_C,
            Argument::String(_) => LOWER_S,
        }
    }

    /// Whether the argument is an integer.
    pub open spec fn is_integer(self) -> bool {
        self is Int || self is Unsigned
    }

    /// Whether the argument can be printed by `conversion`. The conversion
    /// `v` prints an argument of any kind.
    pub open spec fn suits(self, conversion: u8) -> bool {
        if is_integer_conversion(conversion) {
            self.is_integer()
        } else if conversion == LOWER_C {
            self is Char
        } else if conversion == LOWER_S {
            self is String
        } else {
            conversion == LOWER_V
        }
    }

    /// The conversion that stands for `conversion` in the tokenized form:
    /// `i` is written `d`, and `v` is written as the conversion of the
    /// argument's kind.
    pub open spec fn settled(self, conversion: u8) -> u8 {
        if conversion == LOWER_I {
            LOWER_D
        } else if conversion == LOWER_V {
            self.conversion()
        } else {
            conversion
        }
    }

    /// Computes `conversion`.
    pub fn conversion_letter(&self) -> (letter: u8)
        ensures
            letter == self.conversion(),
    {
        match self {
            Argument::Int(_) => LOWER_D,
            Argument::Unsigned(_) => LOWER_U,
            Argument::Char(_) => LOWER_C,
            Argument::String(_) => LOWER_S,
        }
    }

    /// Decides `suits`.
    pub fn is_suited_to(&self, conversion: u8) -> (suits: bool)
        ensures
            suits == self.suits(conversion),
    {
        if conversion == LOWER_D || conversion == LOWER_I || conversion == LOWER_O || conversion == LOWER_U
            || conversion == LOWER_X || conversion == UPPER_X {
            match self {
                Argument::Int(_) => true,
                Argument::Unsigned(_) => true,
                _ => false,
            }
        } else if conversion == LOWER_C {
            match self {
                Argument::Char(_) => true,
                _ => false,
            }
        } else if conversion == LOWER_S {
            match self {
                Argument::String(_) => true,
                _ => false,
            }
        } else {
            conversion == LOWER_V
        }
    }

    /// Computes `settled`.
    pub fn settle(&self, conversion: u8) -> (letter: u8)
        ensures
            letter == self.settled(conversion),
    {
        if conversion == LOWER_I {
            LOWER_D
        } else if conversion == LOWER_V {
            self.conversion_letter()
        } else {
            conversion
        }
    }
}

/// Whether `conversion` prints an integer.
pub open spec fn is_integer_conversion(conversion: u8) -> bool {
    conversion == LOWER_D || conversion == LOWER_I || conversion == LOWER_O || conversion == LOWER_U
        || conversion == LOWER_X || conversion == UPPER_X
}

/// Whether `byte` is a decimal digit.
pub open spec fn is_digit(byte: u8) -> bool {
    DIGIT_0 <= byte <= DIGIT_9
}

/// Whether `byte` may stand between the `%` and the letter of a conversion:
/// the flags, the digits of width and precision, and the point.
pub open spec fn is_modifier(byte: u8) -> bool {
    byte == MINUS || byte == PLUS || byte == SPACE || byte == HASH || byte == POINT || is_digit(
        byte,
    )
}

/// The tokenized form of what a `printf` string holds from position `pos`
/// on, where `args` are the arguments that are left, and `in_conversion`
/// says that `pos` lies between the `%` of a conversion and its letter.
///
/// Text is kept as it is, and so is `%%`. A conversion is a `%`, modifiers,
/// and a letter that suits the next argument; its letter is settled by that
/// argument. There is no such form where a conversion has no letter, where
/// an argument is missing or does not suit, or where arguments are left over.
pub open spec fn printf_from(
    format: Seq<u8>,
    pos: int,
    in_conversion: bool,
    args: Seq<Argument<'_>>,
) -> Option<Seq<u8>>
    decreases format.len() - pos,
{
    if pos < 0 {
        None
    } else if pos >= format.len() {
        if in_conversion || args.len() > 0 {
            None
        } else {
            Some(Seq::empty())
        }
    } else if in_conversion {
        if is_modifier(format[pos]) {
            preceded_by(printf_from(format, pos + 1, true, args), seq![format[pos]])
        } else if args.len() > 0 && args.first().suits(format[pos]) {
            preceded_by(
                printf_from(format, pos + 1, false, args.drop_first()),
                seq![args.first().settled(format[pos])],
            )
        } else {
            None
        }
    } else if format[pos] != PERCENT {
        preceded_by(printf_from(format, pos + 1, false, args), seq![format[pos]])
    } else if pos + 1 < format.len() && format[pos + 1] == PERCENT {
        preceded_by(printf_from(format, pos + 2, false, args), seq![PERCENT, PERCENT])
    } else {
        preceded_by(printf_from(format, pos + 1, true, args), seq![PERCENT])
    }
}

/// The tokenized form of a `printf` string with these arguments, if it has
/// one.
pub open spec fn printf_form(format: Seq<u8>, args: Seq<Argument<'_>>) -> Option<Seq<u8>> {
    printf_from(format, 0, false, args)
}

/// Brings a `printf` string into its tokenized form. Fails with
/// `InvalidArgument` where the string and the arguments do not agree.
pub fn settle_printf(format: &[u8], args: &[Argument<'_>]) -> (settled: Result<Vec<u8>, Error>)
    ensures
        match printf_form(format@, args@) {
            Some(text) => settled matches Ok(v) && v@ == text,
            None => settled == Err::<Vec<u8>, Error>(Error::InvalidArgument),
        },
{
    let mut out: Vec<u8> = Vec::new();
    let mut pos: usize = 0;
    let mut used: usize = 0;
    let mut in_conversion = false;
    proof {
        assert(args@.skip(0) =~= args@);
        assert(forall|r: Seq<u8>| Seq::<u8>::empty() + r =~= r);
    }
    while pos < format.len()
        invariant
            pos <= format@.len(),
            used <= args@.len(),
            printf_form(format@, args@) == preceded_by(
                printf_from(format@, pos as int, in_conversion, args@.skip(used as int)),
                out@,
            ),
        decreases format@.len() - pos,
    {
        let byte: u8 = format[pos];
        let ghost left = args@.skip(used as int);
        let ghost before = out@;
        let ghost old_pos = pos as int;
        let ghost old_mode = in_conversion;
        proof {
            if used < args@.len() {
                assert(left.first() == args@[used as int]);
                assert(left.drop_first() =~= args@.skip(used as int + 1));
            }
        }
        if in_conversion {
            if byte == MINUS || byte == PLUS || byte == SPACE || byte == HASH || byte == POINT || (
            DIGIT_0 <= byte && byte <= DIGIT_9) {
                out.push(byte);
                pos += 1;
            } else if used < args.len() && args[used].is_suited_to(byte) {
                out.push(args[used].settle(byte));
                used += 1;
                in_conversion = false;
                pos += 1;
            } else {
                return Err(Error::InvalidArgument);
            }
        } else if byte != PERCENT {
            out.push(byte);
            pos += 1;
        } else if pos + 1 < format.len() && format[pos + 1] == PERCENT {
            out.push(PERCENT);
            out.push(PERCENT);
            pos += 2;
        } else {
            out.push(PERCENT);
            in_conversion = true;
            pos += 1;
        }
        proof {
            let next = printf_from(format@, pos as int, in_conversion, args@.skip(used as int));
            let piece = out@.skip(before.len() as int);
            assert(out@ =~= before + piece);
            assert(printf_from(format@, old_pos, old_mode, left) == preceded_by(next, piece)) by {
                if old_mode {
                    if is_modifier(byte) {
                        assert(piece =~= seq![byte]);
                    } else {
                        assert(piece =~= seq![left.first().settled(byte)]);
                    }
                } else if byte != PERCENT {
                    assert(piece =~= seq![byte]);
                } else if old_pos + 1 < format@.len() && format@[old_pos + 1] == PERCENT {
                    assert(piece =~= seq![PERCENT, PERCENT]);
                } else {
                    assert(piece =~= seq![PERCENT]);
                }
            }
            match next {
                Some(rest) => {
                    assert(before + (piece + rest) =~= out@ + rest);
                },
                None => {},
            }
        }
    }
    if in_conversion || used < args.len() {
        return Err(Error::InvalidArgument);
    }
    proof {
        assert(out@ + Seq::<u8>::empty() =~= out@);
    }
    Ok(out)
}

/// Where a position of a `core::fmt` string lies.
#[derive(Clone, Copy)]
pub enum Place {
    /// In the text between the fields.
    Text,
    /// Behind the `{` that opens a field.
    Opened,
    /// Behind the `:` of a field, where its width stands.
    Width,
    /// Behind the type of a field, which is the byte named here.
    Typed(u8),
}

/// Whether `byte` is a type that a field may name: `x`, `X` or `o`.
pub open spec fn is_field_type(byte: u8) -> bool {
    byte == LOWER_X || byte == UPPER_X || byte == LOWER_O
}

/// The conversion of the field that a `}` closes at a place: that of its
/// type, or `v` where it names none. Text holds no field to close.
pub open spec fn closed_field(place: Place) -> Option<u8> {
    match place {
        Place::Text => None,
        Place::Opened => Some(LOWER_V),
        Place::Width => Some(LOWER_V),
        Place::Typed(letter) => Some(letter),
    }
}

/// The `printf` form of what a `core::fmt` string holds from position `pos`
/// on, where `args` are the arguments that are left and `place` says where
/// `pos` lies.
///
/// Text is kept as it is, but that `{{` and `}}` stand for one brace and a
/// `%` is doubled. A field is `{}`, or `{:`, digits, one of the types `x`,
/// `X` and `o`, and `}`, the digits and the type being optional. It becomes
/// a `%`, the digits, and its type, or the conversion of its argument where
/// it names no type. There is no such form where a field is written
/// otherwise or left open, where a `}` stands alone, where an argument is
/// missing or does not suit, or where arguments are left over.
pub open spec fn core_fmt_from(format: Seq<u8>, pos: int, place: Place, args: Seq<Argument<'_>>)
    -> Option<Seq<u8>>
    decreases format.len() - pos,
{
    if pos < 0 {
        None
    } else if pos >= format.len() {
        if place is Text && args.len() == 0 {
            Some(Seq::empty())
        } else {
            None
        }
    } else if place is Text {
        if format[pos] == OPEN_BRACE {
            if pos + 1 < format.len() && format[pos + 1] == OPEN_BRACE {
                preceded_by(core_fmt_from(format, pos + 2, Place::Text, args), seq![OPEN_BRACE])
            } else {
                preceded_by(core_fmt_from(format, pos + 1, Place::Opened, args), seq![PERCENT])
            }
        } else if format[pos] == CLOSE_BRACE {
            if pos + 1 < format.len() && format[pos + 1] == CLOSE_BRACE {
                preceded_by(core_fmt_from(format, pos + 2, Place::Text, args), seq![CLOSE_BRACE])
            } else {
                None
            }
        } else if format[pos] == PERCENT {
            preceded_by(
                core_fmt_from(format, pos + 1, Place::Text, args),
                seq![PERCENT, PERCENT],
            )
        } else {
            preceded_by(core_fmt_from(format, pos + 1, Place::Text, args), seq![format[pos]])
        }
    } else if format[pos] == CLOSE_BRACE {
        let letter = closed_field(place)->Some_0;
        if args.len() > 0 && args.first().suits(letter) {
            preceded_by(
                core_fmt_from(format, pos + 1, Place::Text, args.drop_first()),
                seq![args.first().settled(letter)],
            )
        } else {
            None
        }
    } else if place is Opened {
        if format[pos] == COLON {
            core_fmt_from(format, pos + 1, Place::Width, args)
        } else {
            None
        }
    } else if place is Width {
        if is_digit(format[pos]) {
            preceded_by(core_fmt_from(format, pos + 1, Place::Width, args), seq![format[pos]])
        } else if is_field_type(format[pos]) {
            core_fmt_from(format, pos + 1, Place::Typed(format[pos]), args)
        } else {
            None
        }
    } else {
        None
    }
}

/// The `printf` form of a `core::fmt` string with these arguments, if it
/// has one.
pub open spec fn core_fmt_form(format: Seq<u8>, args: Seq<Argument<'_>>) -> Option<Seq<u8>> {
    core_fmt_from(format, 0, Place::Text, args)
}

/// Converts a `core::fmt` string into its `printf` form. Fails with
/// `InvalidArgument` where the string and the arguments do not agree.
pub fn convert_core_fmt(format: &[u8], args: &[Argument<'_>]) -> (converted: Result<
    Vec<u8>,
    Error,
>)
    ensures
        match core_fmt_form(format@, args@) {
            Some(text) => converted matches Ok(v) && v@ == text,
            None => converted == Err::<Vec<u8>, Error>(Error::InvalidArgument),
        },
{
    let mut out: Vec<u8> = Vec::new();
    let mut pos: usize = 0;
    let mut used: usize = 0;
    let mut place = Place::Text;
    proof {
        assert(args@.skip(0) =~= args@);
        assert(forall|r: Seq<u8>| Seq::<u8>::empty() + r =~= r);
    }
    while pos < format.len()
        invariant
            pos <= format@.len(),
            used <= args@.len(),
            core_fmt_form(format@, args@) == preceded_by(
                core_fmt_from(format@, pos as int, place, args@.skip(used as int)),
                out@,
            ),
        decreases format@.len() - pos,
    {
        let byte: u8 = format[pos];
        let doubled: bool = pos + 1 < format.len() && format[pos + 1] == byte;
        let ghost left = args@.skip(used as int);
        let ghost before = out@;
        let ghost old_pos = pos as int;
        let ghost old_place = place;
        proof {
            if used < args@.len() {
                assert(left.first() == args@[used as int]);
                assert(left.drop_first() =~= args@.skip(used as int + 1));
            }
        }
        match place {
            Place::Text => {
                if byte == OPEN_BRACE {
                    if doubled {
                        out.push(OPEN_BRACE);
                        pos += 2;
                    } else {
                        out.push(PERCENT);
                        place = Place::Opened;
                        pos += 1;
                    }
                } else if byte == CLOSE_BRACE {
                    if doubled {
                        out.push(CLOSE_BRACE);
                        pos += 2;
                    } else {
                        return Err(Error::InvalidArgument);
                    }
                } else if byte == PERCENT {
                    out.push(PERCENT);
                    out.push(PERCENT);
                    pos += 1;
                } else {
                    out.push(byte);
                    pos += 1;
                }
            },
            _ => {
                if byte == CLOSE_BRACE {
                    let letter: u8 = match place {
                        Place::Typed(letter) => letter,
                        _ => LOWER_V,
                    };
                    if used < args.len() && args[used].is_suited_to(letter) {
                        out.push(args[used].settle(letter));
                        used += 1;
                        place = Place::Text;
                        pos += 1;
                    } else {
                        return Err(Error::InvalidArgument);
                    }
                } else {
                    match place {
                        Place::Opened => {
                            if byte == COLON {
                                place = Place::Width;
                                pos += 1;
                            } else {
                                return Err(Error::InvalidArgument);
                            }
                        },
                        Place::Width => {
                            if DIGIT_0 <= byte && byte <= DIGIT_9 {
                                out.push(byte);
                                pos += 1;
                            } else if byte == LOWER_X || byte == UPPER_X || byte == LOWER_O {
                                place = Place::Typed(byte);
                                pos += 1;
                            } else {
                                return Err(Error::InvalidArgument);
                            }
                        },
                        _ => {
                            return Err(Error::InvalidArgument);
                        },
                    }
                }
            },
        }
        proof {
            let next = core_fmt_from(format@, pos as int, place, args@.skip(used as int));
            let piece = out@.skip(before.len() as int);
            assert(out@ =~= before + piece);
            assert(core_fmt_from(format@, old_pos, old_place, left) == preceded_by(next, piece))
                by {
                if old_place is Text {
                    if byte == OPEN_BRACE {
                        if doubled {
                            assert(piece =~= seq![OPEN_BRACE]);
                        } else {
                            assert(piece =~= seq![PERCENT]);
                        }
                    } else if byte == CLOSE_BRACE {
                        assert(piece =~= seq![CLOSE_BRACE]);
                    } else if byte == PERCENT {
                        assert(piece =~= seq![PERCENT, PERCENT]);
                    } else {
                        assert(piece =~= seq![byte]);
                    }
                } else if byte == CLOSE_BRACE {
                    let letter = closed_field(old_place)->Some_0;
                    assert(piece =~= seq![left.first().settled(letter)]);
                } else if old_place is Width && is_digit(byte) {
                    assert(piece =~= seq![byte]);
                } else {
                    assert(piece =~= Seq::<u8>::empty());
                    match next {
                        Some(rest) => {
                            assert(piece + rest =~= rest);
                        },
                        None => {},
                    }
                }
            }
            match next {
                Some(rest) => {
                    assert(before + (piece + rest) =~= out@ + rest);
                },
                None => {},
            }
        }
    }
    match place {
        Place::Text => {},
        _ => {
            return Err(Error::InvalidArgument);
        },
    }
    if used < args.len() {
        return Err(Error::InvalidArgument);
    }
    proof {
        assert(out@ + Seq::<u8>::empty() =~= out@);
    }
    Ok(out)
}

} // verus!
