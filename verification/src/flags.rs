//! The flags field of a frame.
//!
//! A frame opens with one command byte and a two-byte flags field. Each
//! optional field of a message owns one bit of the flags, in the order in
//! which the message declares its optional fields, and stands in the frame
//! exactly when its bit is set.

use vstd::prelude::*;
use crate::error::ErrorCode;
use crate::raw::fits_opt;
use crate::raw::parse_opt;
use crate::raw::view_opt;
use crate::raw::wire_opt;
use crate::raw::RawDecode;
use crate::raw::RawEncode;

verus! {

/// The flag of the `i`-th optional field, counting from zero.
pub open spec fn flag_bit(i: u8) -> u16 {
    1u16 << i
}

/// `bit` where the field is there, nothing where it is not.
pub open spec fn flag_if(present: bool, bit: u16) -> u16 {
    if present {
        bit
    } else {
        0
    }
}

/// Whether `flags` has any of `bits`.
pub open spec fn flag_set(flags: u16, bits: u16) -> bool {
    flags & bits != 0
}

/// The flags field of a frame that is at least three bytes long.
pub open spec fn frame_flags(frame: Seq<u8>) -> u16 {
    (frame[1] * 256 + frame[2]) as u16
}

/// The first three flags have the values 1, 2 and 4.
pub proof fn lemma_flag_bits()
    ensures
        flag_bit(0) == 1,
        flag_bit(1) == 2,
        flag_bit(2) == 4,
{
    assert(1u16 << 0u8 == 1) by (bit_vector);
    assert(1u16 << 1u8 == 2) by (bit_vector);
    assert(1u16 << 2u8 == 4) by (bit_vector);
}

/// In the union of the first three flags, each is set exactly when it was
/// put in.
pub proof fn lemma_flags_union(a: bool, b: bool, c: bool)
    ensures
        flag_set(flag_if(a, 1) | flag_if(b, 2) | flag_if(c, 4), 1) == a,
        flag_set(flag_if(a, 1) | flag_if(b, 2) | flag_if(c, 4), 2) == b,
        flag_set(flag_if(a, 1) | flag_if(b, 2) | flag_if(c, 4), 4) == c,
        flag_set(flag_if(a, 1) | flag_if(b, 2), 1) == a,
        flag_set(flag_if(a, 1) | flag_if(b, 2), 2) == b,
        flag_set(flag_if(a, 1), 1) == a,
{
    let x = flag_if(a, 1);
    let y = flag_if(b, 2);
    let z = flag_if(c, 4);
    assert((x == 0 || x == 1) && (y == 0 || y == 2) && (z == 0 || z == 4) ==> (((x | y) | z) & 1
        != 0 <==> x == 1) && (((x | y) | z) & 2 != 0 <==> y == 2) && (((x | y) | z) & 4 != 0 <==> z
        == 4) && ((x | y) & 1 != 0 <==> x == 1) && ((x | y) & 2 != 0 <==> y == 2) && (x & 1 != 0
        <==> x == 1)) by (bit_vector);
}

/// Hands out the flags of a message's optional fields in order.
pub struct FlagsCounter {
    pub counter: u8,
}

impl FlagsCounter {
    pub fn new() -> (c: FlagsCounter)
        ensures
            c.counter == 0,
    {
        Self { counter: 0 }
    }

    /// The flag of the next optional field. A flags field has sixteen bits,
    /// so there is no seventeenth.
    pub fn next(&mut self) -> (bit: u16)
        requires
            old(self).counter < 16,
        ensures
            bit == flag_bit(old(self).counter),
            final(self).counter == old(self).counter + 1,
    {
        let inc: u8 = self.counter;
        self.counter += 1;
        1u16 << inc
    }
}

/// Writes a frame: counts the bytes written and gathers the flags of the
/// optional fields that were there.
pub struct FlagsEncodeContext {
    pub flags: u16,
    pub length: usize,
}

impl FlagsEncodeContext {
    /// Opens a frame at the front of `buf`: writes the command byte and a
    /// flags field of zero, and returns the rest of `buf` for the fields.
    /// Fails, leaving `buf` as it was, where `buf` has no room for the three
    /// bytes.
    pub fn new<'a>(command_code: u8, buf: &'a mut [u8]) -> (r: Result<
        (Self, &'a mut [u8]),
        ErrorCode,
    >)
        ensures
            r is Ok <==> old(buf)@.len() >= 3,
            r matches Ok((ctx, rest)) ==> ctx.flags == 0 && ctx.length == 3 && rest@
                == old(buf)@.skip(3) && final(buf)@ == seq![command_code, 0u8, 0u8] + final(rest)@,
            r matches Err(e) ==> e == ErrorCode::InvalidParam && final(buf)@ == old(buf)@,
    {
        if buf.len() < 3 {
            return Err(ErrorCode::InvalidParam);
        }
        let (head, tail) = buf.split_at_mut(3);
        head[0] = command_code;
        head[1] = 0;
        head[2] = 0;
        assert(head@ == seq![command_code, 0u8, 0u8]);
        Ok((Self { flags: 0, length: 3 }, tail))
    }

    /// Writes a field that is always there.
    pub fn encode<'a, T: RawEncode>(&mut self, buf: &'a mut [u8], value: &T) -> (r: Result<
        &'a mut [u8],
        ErrorCode,
    >)
        requires
            old(self).length + old(buf)@.len() <= usize::MAX,
        ensures
            r is Ok <==> T::fits(value@) && T::wire(value@).len() <= old(buf)@.len(),
            r matches Ok(rest) ==> rest@ == old(buf)@.skip(T::wire(value@).len() as int)
                && final(buf)@ == T::wire(value@) + final(rest)@ && final(self).length
                == old(self).length
                + T::wire(value@).len() && final(self).flags == old(self).flags,
            r matches Err(e) ==> e == ErrorCode::InvalidParam && final(buf)@ == old(buf)@
                && *final(self) == *old(self),
    {
        let pre_len: usize = buf.len();
        match value.raw_encode(buf) {
            Ok(next_buf) => {
                self.length += pre_len - next_buf.len();
                Ok(next_buf)
            },
            Err(e) => Err(e),
        }
    }

    /// Writes an optional field: where it is there, sets `inc_flags` and
    /// writes it; where it is not, writes nothing.
    pub fn option_encode<'a, T: RawEncode>(
        &mut self,
        buf: &'a mut [u8],
        value: &Option<T>,
        inc_flags: u16,
    ) -> (r: Result<&'a mut [u8], ErrorCode>)
        requires
            old(self).length + old(buf)@.len() <= usize::MAX,
        ensures
            r is Ok <==> fits_opt::<T>(view_opt(*value)) && wire_opt::<T>(view_opt(*value)).len()
                <= old(buf)@.len(),
            r matches Ok(rest) ==> rest@ == old(buf)@.skip(
                wire_opt::<T>(view_opt(*value)).len() as int,
            ) && final(buf)@ == wire_opt::<T>(view_opt(*value)) + final(rest)@ && final(self).length
                == old(self).length + wire_opt::<T>(view_opt(*value)).len() && final(self).flags
                == old(self).flags | flag_if(value is Some, inc_flags),
            r matches Err(e) ==> e == ErrorCode::InvalidParam && final(buf)@ == old(buf)@
                && *final(self) == *old(self),
    {
        match value {
            Some(v) => {
                let pre_len: usize = buf.len();
                match v.raw_encode(buf) {
                    Ok(next_buf) => {
                        self.flags |= inc_flags;
                        self.length += pre_len - next_buf.len();
                        Ok(next_buf)
                    },
                    Err(e) => Err(e),
                }
            },
            None => {
                proof {
                    let f = self.flags;
                    assert(f | 0u16 == f) by (bit_vector);
                    assert(buf@.skip(0) == buf@);
                }
                Ok(buf)
            },
        }
    }

    pub fn set_flags(&mut self, inc_flags: u16)
        ensures
            final(self).flags == old(self).flags | inc_flags,
            final(self).length == old(self).length,
    {
        self.flags |= inc_flags;
    }

    pub fn get_flags(&self) -> (f: u16)
        ensures
            f == self.flags,
    {
        self.flags
    }

    /// Closes the frame that starts at the front of `buf`: writes the
    /// gathered flags over the flags field and returns what of `buf` lies
    /// behind the frame. Fails, leaving `buf` as it was, where `buf` is
    /// shorter than the frame.
    pub fn finish<'a>(&self, buf: &'a mut [u8]) -> (r: Result<&'a mut [u8], ErrorCode>)
        ensures
            r is Ok <==> 3 <= self.length <= old(buf)@.len(),
            r matches Ok(rest) ==> rest@ == old(buf)@.skip(self.length as int) && final(buf)@
                == old(buf)@.take(1) + <u16 as RawEncode>::wire(self.flags) + old(buf)@.subrange(
                3,
                self.length as int,
            ) + final(rest)@,
            r matches Err(e) ==> e == ErrorCode::InvalidParam && final(buf)@ == old(buf)@,
    {
        if self.length < 3 || buf.len() < self.length {
            return Err(ErrorCode::InvalidParam);
        }
        let (frame, tail) = buf.split_at_mut(self.length);
        frame[1] = (self.flags / 256) as u8;
        frame[2] = (self.flags % 256) as u8;
        assert(frame@ == old(buf)@.take(1) + <u16 as RawEncode>::wire(self.flags)
            + old(buf)@.subrange(3, self.length as int));
        Ok(tail)
    }
}

/// Reads a frame's fields: holds the flags that tell which optional fields
/// are there.
pub struct FlagsDecodeContext {
    pub flags: u16,
}

impl FlagsDecodeContext {
    /// Reads the flags field off the front of `buf`, which starts behind the
    /// command byte.
    pub fn new<'a>(buf: &'a [u8]) -> (r: Result<(Self, &'a [u8]), ErrorCode>)
        ensures
            r is Ok <==> buf@.len() >= 2,
            r matches Ok((ctx, rest)) ==> ctx.flags == (buf@[0] * 256 + buf@[1]) as u16 && rest@
                == buf@.skip(2),
            r matches Err(e) ==> e == ErrorCode::InvalidData,
    {
        match u16::raw_decode(buf) {
            Ok((flags, rest)) => Ok((Self { flags }, rest)),
            Err(e) => Err(e),
        }
    }

    /// Reads a field that is always there.
    pub fn decode<'a, T: RawDecode>(&mut self, buf: &'a [u8]) -> (r: Result<
        (T, &'a [u8]),
        ErrorCode,
    >)
        ensures
            *final(self) == *old(self),
            r is Ok <==> T::parse(buf@) is Some,
            r matches Ok((x, rest)) ==> T::parse(buf@) == Some((x@, buf@.len() - rest@.len()))
                && rest@ == buf@.skip(buf@.len() - rest@.len()),
            r matches Err(e) ==> e == ErrorCode::InvalidData,
    {
        T::raw_decode(buf)
    }

    /// Reads an optional field: nothing, and no byte taken, where none of
    /// `check_flags` is set; the field where one is.
    pub fn option_decode<'a, T: RawDecode>(&mut self, buf: &'a [u8], check_flags: u16) -> (r:
        Result<(Option<T>, &'a [u8]), ErrorCode>)
        ensures
            *final(self) == *old(self),
            r is Ok <==> parse_opt::<T>(flag_set(old(self).flags, check_flags), buf@) is Some,
            r matches Ok((x, rest)) ==> parse_opt::<T>(
                flag_set(old(self).flags, check_flags),
                buf@,
            ) == Some((view_opt(x), buf@.len() - rest@.len())) && rest@ == buf@.skip(
                buf@.len() - rest@.len(),
            ),
            r matches Err(e) ==> e == ErrorCode::InvalidData,
    {
        if self.flags & check_flags == 0 {
            assert(buf@.skip(0) == buf@);
            Ok((None, buf))
        } else {
            match T::raw_decode(buf) {
                Ok((v, rest)) => Ok((Some(v), rest)),
                Err(e) => Err(e),
            }
        }
    }

    pub fn check_flags(&self, bits: u16) -> (b: bool)
        ensures
            b == flag_set(self.flags, bits),
    {
        self.flags & bits != 0
    }

    pub fn flags(&self) -> (f: u16)
        ensures
            f == self.flags,
    {
        self.flags
    }
}

} // verus!
