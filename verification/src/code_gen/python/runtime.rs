//! The runtime code of the generated Python package: the helpers, the
//! serializer and the deserializer, which every package holds the same.
use vstd::prelude::*;

use crate::text::{split_seq, split_str, views};

verus! {

/// The helpers of the generated package: the widths of numbers, varint and
/// zigzag encoding, and the bounds check of integers.
pub const UTIL_CODE: &'static str = "BITS_PER_BYTE = 8
BITS_PER_VARINT_BYTE = 7
U8_BYTES = 1
U16_BYTES = 2
U32_BYTES = 4
U64_BYTES = 8
U128_BYTES = 16

def de_zig_zag_signed(n):
    return (n >> 1) ^ (-(n & 0b1))

def zig_zag(n_bytes, n):
    return (n << 1) ^ (n >> (n_bytes * BITS_PER_BYTE - 1))

def varint_max(n_bytes):
    return (n_bytes * BITS_PER_BYTE + (BITS_PER_BYTE - 1)) // BITS_PER_VARINT_BYTE

def max_of_last_byte(n_bytes):
    return (1 << (n_bytes * BITS_PER_BYTE) % 7) - 1

def to_number_if_safe(n):
    return n if abs(n) > (1 << 53) - 1 else int(n)

def varint(n_bytes, n):
    value = n
    out = []
    for i in range(varint_max(n_bytes)):
        out.append(int(value & 0xFF))
        if value < 128:
            return out
        out[i] |= 0x80
        value >>= 7
    return out

def check_bounds(n_bytes, signed, value):
    max_val = 2 ** (n_bytes * BITS_PER_BYTE)
    value_b = int(value)
    if signed:
        bounds = max_val // 2
        return -bounds <= value_b < bounds
    else:
        return 0 <= value_b < max_val";

/// The serializer class of the generated package.
pub const SERIALIZER_CODE: &'static str = "import struct

from .util import *

class Serializer:
    def __init__(self):
        self.bytes = []

    def finish(self) -> bytes:
        return bytes(self.bytes)

    def push_n(self, bytes_in):
        self.bytes.extend(bytes_in)

    def serialize_bool(self, value):
        self.serialize_number(U8_BYTES, False, 1 if value else 0)

    def serialize_number(self, n_bytes, signed, value):
        if n_bytes == U8_BYTES:
            self.bytes.append(int(value) & 0xFF)
        elif n_bytes in {U16_BYTES, U32_BYTES, U64_BYTES, U128_BYTES}:
            value_b = int(value)
            buffer = varint(n_bytes, zig_zag(n_bytes, value_b) if signed else value_b)
            self.push_n(buffer)
        else:
            raise Exception(\"byte count not supported\")

    def serialize_number_float(self, n_bytes, value):
        if n_bytes == U32_BYTES:
            b_buffer = struct.pack(\"<f\", value)
        elif n_bytes == U64_BYTES:
            b_buffer = struct.pack(\"<d\", value)
        else:
            raise Exception(\"byte count not supported\")
        self.push_n(b_buffer)

    def serialize_string(self, s):
        encoded = s.encode(\"utf-8\")
        self.push_n(varint(U32_BYTES, len(encoded)))
        self.push_n(encoded)

    def serialize_array(self, ser, array, length):
        if length is None:
            self.push_n(varint(U32_BYTES, len(array)))
        [ser(self, array[i]) for i in range(len(array) if length is None else length)]

    def serialize_map(self, ser, map_obj):
        entries = list(map_obj.items())
        self.push_n(varint(U32_BYTES, len(entries)))
        for k, v in entries:
            ser(self, k, v)";

/// The deserializer class of the generated package.
pub const DESERIALIZER_CODE: &'static str = "import struct

from .util import *

class Deserializer:
    def __init__(self, bytes_in):
        self.bytes = bytearray(bytes_in)

    def pop_next(self):
        if not self.bytes:
            raise Exception(\"input buffer too small\")
        return self.bytes.pop(0)

    def pop_n(self, n):
        bytes_out = []
        for _ in range(n):
            bytes_out.append(self.pop_next())
        return bytes_out

    def get_int8(self, signed):
        return int.from_bytes(bytes([self.pop_next()]), byteorder=\"little\", signed=signed)

    def try_take(self, n_bytes):
        out = 0
        v_max = varint_max(n_bytes)
        for i in range(v_max):
            val = self.pop_next()
            carry = val & 0x7F
            out |= carry << (7 * i)
            if (val & 0x80) == 0:
                if i == v_max - 1 and val > max_of_last_byte(n_bytes):
                    raise Exception(\"Bad Variant\")
                else:
                    return out
        raise Exception(\"Bad Variant\")

    def deserialize_bool(self):
        byte = self.pop_next()
        return byte is not None and byte > 0

    def deserialize_number(self, n_bytes, signed):
        if n_bytes == U8_BYTES:
            return self.get_int8(signed)
        elif n_bytes in {U16_BYTES, U32_BYTES, U64_BYTES, U128_BYTES}:
            val = self.try_take(n_bytes)
            return to_number_if_safe(de_zig_zag_signed(val) if signed else val)
        else:
            raise Exception(\"byte count not supported\")

    def deserialize_number_float(self, n_bytes):
        b_buffer = bytes(self.pop_n(n_bytes))
        if n_bytes == U32_BYTES:
            return struct.unpack(\"<f\", b_buffer)[0]
        elif n_bytes == U64_BYTES:
            return struct.unpack(\"<d\", b_buffer)[0]
        else:
            raise Exception(\"byte count not supported\")

    def deserialize_string(self):
        str_len = self.try_take(U32_BYTES)
        str_bytes = self.pop_n(str_len)
        return bytes(str_bytes).decode(\"utf-8\")

    def deserialize_array(self, des, length = None):
        return [des(self) for _ in range(self.try_take(U32_BYTES) if length is None else length)]

    def deserialize_map(self, des):
        return {key: value for key, value in (des(self) for _ in range(self.try_take(U32_BYTES)))}

    def release_bytes(self):
        return bytes(self.bytes)";

/// The aliases of the integer types that type annotations name.
pub const BASIC_TYPINGS_CODE: &'static str = "u8 = int
i8 = int
u16 = int
i16 = int
u32 = int
i32 = int
u64 = int
i64 = int
u128 = int
i128 = int";

/// The lines of the helpers of the generated package.
pub fn gen_util() -> (r: Vec<String>)
    ensures
        views(r@) == split_seq(UTIL_CODE@, "\n"@),
{
    split_str(UTIL_CODE, "\n")
}

/// The lines of the serializer class.
pub fn gen_serializer_code() -> (r: Vec<String>)
    ensures
        views(r@) == split_seq(SERIALIZER_CODE@, "\n"@),
{
    split_str(SERIALIZER_CODE, "\n")
}

/// The lines of the deserializer class.
pub fn gen_deserializer_code() -> (r: Vec<String>)
    ensures
        views(r@) == split_seq(DESERIALIZER_CODE@, "\n"@),
{
    split_str(DESERIALIZER_CODE, "\n")
}

/// The lines of the aliases of the integer types.
pub fn gen_basic_typings() -> (r: Vec<String>)
    ensures
        views(r@) == split_seq(BASIC_TYPINGS_CODE@, "\n"@),
{
    split_str(BASIC_TYPINGS_CODE, "\n")
}

} // verus!
