use vstd::prelude::*;
use vstd::utf8::*;

verus! {

/// The number of bytes that `next_codepoint` consumes for a sequence
/// whose first byte is `b`: the width announced by a UTF-8 leading byte,
/// or 1 for a byte that starts no sequence (a continuation byte or a byte
/// from 0xF8 up).
pub open spec fn spec_sequence_length(b: u8) -> nat {
    if is_leading_byte_width_2(b) {
        2
    } else if is_leading_byte_width_3(b) {
        3
    } else if is_leading_byte_width_4(b) {
        4
    } else {
        1
    }
}

/// What `next_codepoint` returns for `data` read at `position`: the value
/// assembled from the payload bits of a sequence of the announced width, or the
/// raw first byte when that byte announces no width.
pub open spec fn spec_next_codepoint(data: Seq<u8>, position: int) -> (u32, usize) {
    let b = data[position];
    if is_leading_byte_width_2(b) {
        (codepoint_width_2(b, data[position + 1]), 2)
    } else if is_leading_byte_width_3(b) {
        (codepoint_width_3(b, data[position + 1], data[position + 2]), 3)
    } else if is_leading_byte_width_4(b) {
        (codepoint_width_4(b, data[position + 1], data[position + 2], data[position + 3]), 4)
    } else {
        (b as u32, 1)
    }
}

proof fn lemma_low_seven_bits(b: u8)
    requires
        b <= 0x7f,
    ensures
        b & 0x7f == b,
{
    assert(b <= 0x7f ==> b & 0x7f == b) by (bit_vector);
}

proof fn lemma_leading_ones_class(b: u8)
    ensures
        (b.leading_ones() == 0) <==> is_leading_byte_width_1(b),
        (b.leading_ones() == 1) <==> is_continuation_byte(b),
        (b.leading_ones() == 2) <==> is_leading_byte_width_2(b),
        (b.leading_ones() == 3) <==> is_leading_byte_width_3(b),
        (b.leading_ones() == 4) <==> is_leading_byte_width_4(b),
{
    vstd::std_specs::bits::axiom_u8_leading_ones(b);
    let k = vstd::std_specs::bits::u8_leading_ones(b);
    if k == 0 {
        assert((b >> 7u8) & 1u8 == 0);
        assert((b >> 7u8) & 1u8 == 0 ==> b <= 0x7f) by (bit_vector);
    } else if k == 1 {
        assert((b >> 7u8) & 1u8 == 1 && (b >> 6u8) & 1u8 == 0);
        assert((b >> 7u8) & 1u8 == 1 && (b >> 6u8) & 1u8 == 0 ==> 0x80 <= b <= 0xbf)
            by (bit_vector);
    } else if k == 2 {
        assert((b >> 7u8) & 1u8 == 1 && (b >> 6u8) & 1u8 == 1 && (b >> 5u8) & 1u8 == 0);
        assert((b >> 7u8) & 1u8 == 1 && (b >> 6u8) & 1u8 == 1 && (b >> 5u8) & 1u8 == 0 ==> 0xc0
            <= b <= 0xdf) by (bit_vector);
    } else if k == 3 {
        assert((b >> 7u8) & 1u8 == 1 && (b >> 6u8) & 1u8 == 1 && (b >> 5u8) & 1u8 == 1 && (b
            >> 4u8) & 1u8 == 0);
        assert((b >> 7u8) & 1u8 == 1 && (b >> 6u8) & 1u8 == 1 && (b >> 5u8) & 1u8 == 1 && (b
            >> 4u8) & 1u8 == 0 ==> 0xe0 <= b <= 0xef) by (bit_vector);
    } else if k == 4 {
        assert((b >> 7u8) & 1u8 == 1 && (b >> 6u8) & 1u8 == 1 && (b >> 5u8) & 1u8 == 1 && (b
            >> 4u8) & 1u8 == 1 && (b >> 3u8) & 1u8 == 0);
        assert((b >> 7u8) & 1u8 == 1 && (b >> 6u8) & 1u8 == 1 && (b >> 5u8) & 1u8 == 1 && (b
            >> 4u8) & 1u8 == 1 && (b >> 3u8) & 1u8 == 0 ==> 0xf0 <= b <= 0xf7) by (bit_vector);
    } else {
        assert((b >> 7u8) & 1u8 == 1 && (b >> 6u8) & 1u8 == 1 && (b >> 5u8) & 1u8 == 1 && (b
            >> 4u8) & 1u8 == 1 && (b >> 3u8) & 1u8 == 1);
        assert((b >> 7u8) & 1u8 == 1 && (b >> 6u8) & 1u8 == 1 && (b >> 5u8) & 1u8 == 1 && (b
            >> 4u8) & 1u8 == 1 && (b >> 3u8) & 1u8 == 1 ==> 0xf8 <= b) by (bit_vector);
    }
}

/// Reads the code point that starts at `position` in a UTF-8 byte slice and
/// returns it with the number of bytes it takes. A byte that starts no UTF-8
/// sequence is returned as its own value, one byte long.
pub fn next_codepoint(data: &[u8], position: usize) -> (result: (u32, usize))
    requires
        position < data@.len(),
        position + spec_sequence_length(data@[position as int]) <= data@.len(),
    ensures
        result == spec_next_codepoint(data@, position as int),
        valid_leading_and_continuation_bytes_first_codepoint(data@.skip(position as int)) ==> {
            &&& result.0 == decode_first_codepoint(data@.skip(position as int))
            &&& result.1 == length_of_first_codepoint(data@.skip(position as int))
        },
{
    let first_byte = data[position];
    proof {
        lemma_leading_ones_class(first_byte);
    }
    let mut code: u32 = 0;
    let leading = first_byte.leading_ones();
    let byte_length: usize = if leading == 0 {
        code = code | (first_byte as u32);
        1
    } else if leading == 2 {
        let b1 = data[position + 1];
        code = code | (((first_byte & 0b1_1111) as u32) << 6u32);
        code = code | ((b1 & 0b11_1111) as u32);
        proof {
            assert((0u32 | (((first_byte & 0x1f) as u32) << 6u32)) | ((b1 & 0x3f) as u32)
                == ((first_byte & 0x1f) as u32) << 6u32 | ((b1 & 0x3f) as u32)) by (bit_vector);
        }
        2
    } else if leading == 3 {
        let b1 = data[position + 1];
        let b2 = data[position + 2];
        code = code | (((first_byte & 0b1111) as u32) << 12u32);
        code = code | (((b1 & 0b11_1111) as u32) << 6u32);
        code = code | ((b2 & 0b11_1111) as u32);
        proof {
            assert(((0u32 | (((first_byte & 0x0f) as u32) << 12u32)) | (((b1 & 0x3f) as u32)
                << 6u32)) | ((b2 & 0x3f) as u32) == ((first_byte & 0x0f) as u32) << 12u32 | (((
            b1 & 0x3f) as u32) << 6u32) | ((b2 & 0x3f) as u32)) by (bit_vector);
        }
        3
    } else if leading == 4 {
        let b1 = data[position + 1];
        let b2 = data[position + 2];
        let b3 = data[position + 3];
        code = code | (((first_byte & 0b111) as u32) << 18u32);
        code = code | (((b1 & 0b11_1111) as u32) << 12u32);
        code = code | (((b2 & 0b11_1111) as u32) << 6u32);
        code = code | ((b3 & 0b11_1111) as u32);
        proof {
            assert((((0u32 | (((first_byte & 0x07) as u32) << 18u32)) | (((b1 & 0x3f) as u32)
                << 12u32)) | (((b2 & 0x3f) as u32) << 6u32)) | ((b3 & 0x3f) as u32) == ((
            first_byte & 0x07) as u32) << 18u32 | (((b1 & 0x3f) as u32) << 12u32) | (((b2
                & 0x3f) as u32) << 6u32) | ((b3 & 0x3f) as u32)) by (bit_vector);
        }
        4
    } else {
        code = first_byte as u32;
        1
    };
    proof {
        assert(0u32 | (first_byte as u32) == first_byte as u32) by (bit_vector);
        let rest = data@.skip(position as int);
        assert(rest[0] == data@[position as int]);
        if valid_leading_and_continuation_bytes_first_codepoint(rest) {
            if is_leading_byte_width_1(first_byte) {
                lemma_low_seven_bits(first_byte);
            } else {
                assert(rest[1] == data@[position + 1]);
                if !is_leading_byte_width_2(first_byte) {
                    assert(rest[2] == data@[position + 2]);
                    if !is_leading_byte_width_3(first_byte) {
                        assert(rest[3] == data@[position + 3]);
                    }
                }
            }
        }
    }
    (code, byte_length)
}

/// The index of the nearest byte before `position` that is not a UTF-8
/// continuation byte, i.e. where the code point that ends just before
/// `position` starts.
pub open spec fn spec_previous_start(data: Seq<u8>, position: int) -> int
    decreases position,
{
    if position <= 1 || !is_continuation_byte(data[position - 1]) {
        position - 1
    } else {
        spec_previous_start(data, position - 1)
    }
}

/// There is a byte before `position` that is not a continuation byte.
pub open spec fn has_start_before(data: Seq<u8>, position: int) -> bool {
    exists|j: int| 0 <= j < position && !is_continuation_byte(#[trigger] data[j])
}

proof fn lemma_previous_start(data: Seq<u8>, position: int)
    requires
        0 < position <= data.len(),
        has_start_before(data, position),
    ensures
        0 <= spec_previous_start(data, position) < position,
        !is_continuation_byte(data[spec_previous_start(data, position)]),
        forall|k: int|
            spec_previous_start(data, position) < k < position ==> is_continuation_byte(
                #[trigger] data[k],
            ),
    decreases position,
{
    if position <= 1 || !is_continuation_byte(data[position - 1]) {
        if position <= 1 {
            let j = choose|j: int| 0 <= j < position && !is_continuation_byte(#[trigger] data[j]);
            assert(j == 0);
        }
    } else {
        let j = choose|j: int| 0 <= j < position && !is_continuation_byte(#[trigger] data[j]);
        assert(j < position - 1);
        lemma_previous_start(data, position - 1);
    }
}

/// Reads the code point that ends just before `position` in a UTF-8 byte
/// slice: steps back over continuation bytes to the byte that starts the
/// sequence, and reads from there as `next_codepoint` does.
pub fn previous_codepoint(data: &[u8], position: usize) -> (result: (u32, usize))
    requires
        0 < position <= data@.len(),
        has_start_before(data@, position as int),
        spec_previous_start(data@, position as int) + spec_sequence_length(
            data@[spec_previous_start(data@, position as int)],
        ) <= data@.len(),
    ensures
        result == spec_next_codepoint(data@, spec_previous_start(data@, position as int)),
{
    proof {
        lemma_previous_start(data@, position as int);
    }
    let mut position = position - 1;
    let ghost start = spec_previous_start(data@, position + 1);
    proof {
        lemma_leading_ones_class(data@[position as int]);
    }
    while data[position].leading_ones() == 1
        invariant
            start <= position < data@.len(),
            0 <= start,
            !is_continuation_byte(data@[start]),
            forall|k: int| start < k <= position ==> is_continuation_byte(#[trigger] data@[k]),
            (data@[position as int].leading_ones() == 1) <==> is_continuation_byte(
                data@[position as int],
            ),
        decreases position,
    {
        position = position - 1;
        proof {
            lemma_leading_ones_class(data@[position as int]);
        }
    }
    assert(position == start);
    next_codepoint(data, position)
}

/// Reading a code point from a buffer whose remainder is valid UTF-8 yields
/// the first character of that remainder and the number of bytes it takes; what
/// follows those bytes decodes to the remaining characters.
pub proof fn law_next_codepoint_reads_utf8(data: Seq<u8>, position: int)
    requires
        0 <= position < data.len(),
        valid_utf8(data.skip(position)),
    ensures
        position + spec_sequence_length(data[position]) <= data.len(),
        ({
            let (code, len) = spec_next_codepoint(data, position);
            &&& code == decode_first_scalar(data.skip(position))
            &&& len == length_of_first_scalar(data.skip(position))
            &&& decode_utf8(data.skip(position)) == seq![code as char] + decode_utf8(
                data.skip(position + len),
            )
            &&& valid_utf8(data.skip(position + len))
        }),
{
    let rest = data.skip(position);
    assert(rest[0] == data[position]);
    let (code, len) = spec_next_codepoint(data, position);
    assert(pop_first_scalar(rest) =~= data.skip(position + length_of_first_scalar(rest)));
    if is_leading_byte_width_2(rest[0]) {
        assert(rest[1] == data[position + 1]);
    } else if is_leading_byte_width_3(rest[0]) {
        assert(rest[1] == data[position + 1]);
        assert(rest[2] == data[position + 2]);
    } else if is_leading_byte_width_4(rest[0]) {
        assert(rest[1] == data[position + 1]);
        assert(rest[2] == data[position + 2]);
        assert(rest[3] == data[position + 3]);
    } else {
        assert(is_leading_byte_width_1(rest[0]));
        lemma_low_seven_bits(rest[0]);
    }
}

/// Stepping back from the end of a well-formed code point gives back what
/// reading forward from its start gave.
pub proof fn law_previous_undoes_next(data: Seq<u8>, position: int)
    requires
        0 <= position < data.len(),
        valid_leading_and_continuation_bytes_first_codepoint(data.skip(position)),
    ensures
        ({
            let (code, len) = spec_next_codepoint(data, position);
            &&& has_start_before(data, position + len)
            &&& spec_previous_start(data, position + len) == position
            &&& spec_next_codepoint(data, spec_previous_start(data, position + len)) == (code, len)
        }),
{
    let rest = data.skip(position);
    assert(rest[0] == data[position]);
    let (code, len) = spec_next_codepoint(data, position);
    assert(!is_continuation_byte(data[position]));
    if len >= 2 {
        assert(rest[1] == data[position + 1]);
    }
    if len >= 3 {
        assert(rest[2] == data[position + 2]);
    }
    if len >= 4 {
        assert(rest[3] == data[position + 3]);
    }
    if len == 2 {
        assert(spec_previous_start(data, position + 1) == position);
    } else if len == 3 {
        assert(spec_previous_start(data, position + 1) == position);
        assert(spec_previous_start(data, position + 2) == position);
    } else if len == 4 {
        assert(spec_previous_start(data, position + 1) == position);
        assert(spec_previous_start(data, position + 2) == position);
        assert(spec_previous_start(data, position + 3) == position);
    }
    assert(0 <= position < position + len && !is_continuation_byte(data[position]));
}

} // verus!
