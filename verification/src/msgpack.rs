//! MessagePack number normalization for responses sent to the client.
//!
//! The client does not accept the `uint32` tag (`0xce`). Every `uint32`
//! value below 2^31 is rewritten as an `int32` (`0xd2`) with the same four
//! bytes; larger values become a `float64` (`0xcb`) holding the same
//! number. Every other value, including the payload of strings, binary
//! and extension values, is copied unchanged.
use vstd::prelude::*;

use crate::error::ServiceError;

verus! {

/// Big-endian unsigned value of a 1, 2 or 4 byte sequence.
pub open spec fn be_uint(s: Seq<u8>) -> nat {
    if s.len() == 1 {
        s[0] as nat
    } else if s.len() == 2 {
        s[0] as nat * 256 + s[1] as nat
    } else if s.len() == 4 {
        s[0] as nat * 16777216 + s[1] as nat * 65536 + s[2] as nat * 256 + s[3] as nat
    } else {
        0
    }
}

/// IEEE-754 binary64 bit pattern of an integer `v` with 2^31 <= v < 2^32:
/// sign 0, biased exponent 1023 + 31, and the 31 bits below the leading one
/// as the top of the 52-bit fraction.
pub open spec fn binary64_bits_of_large_u32(v: nat) -> u64 {
    (0x41E0_0000_0000_0000 + (v - 0x8000_0000) * 0x20_0000) as u64
}

/// The eight bytes of `x`, most significant first.
pub open spec fn be_bytes_u64(x: u64) -> Seq<u8> {
    seq![
        (x >> 56u64) as u8,
        (x >> 48u64) as u8,
        (x >> 40u64) as u8,
        (x >> 32u64) as u8,
        (x >> 24u64) as u8,
        (x >> 16u64) as u8,
        (x >> 8u64) as u8,
        x as u8,
    ]
}

/// The length field of `length_bytes` bytes at `offset`, if it is there.
pub open spec fn spec_read_length(p: Seq<u8>, offset: int, length_bytes: int) -> Option<nat> {
    if offset < 0 || offset + length_bytes > p.len() {
        None
    } else if !(length_bytes == 1 || length_bytes == 2 || length_bytes == 4) {
        None
    } else {
        Some(be_uint(p.subrange(offset, offset + length_bytes)))
    }
}

/// `length` bytes copied from `offset`, with the offset after them.
pub open spec fn spec_copy_bytes(p: Seq<u8>, offset: int, length: int) -> Option<(int, Seq<u8>)> {
    if offset < 0 || length < 0 || offset + length > p.len() {
        None
    } else {
        Some((offset + length, p.subrange(offset, offset + length)))
    }
}

/// Puts `prefix` in front of the bytes of an outcome.
pub open spec fn prepend(prefix: Seq<u8>, r: Option<(int, Seq<u8>)>) -> Option<(int, Seq<u8>)> {
    match r {
        Some((end, bytes)) => Some((end, prefix + bytes)),
        None => None,
    }
}

/// A string, binary or extension value whose content length is given by a
/// `length_bytes` field after the marker, behind `extra` header bytes.
pub open spec fn spec_copy_prefixed(p: Seq<u8>, offset: int, length_bytes: int, extra: int) -> Option<
    (int, Seq<u8>),
> {
    match spec_read_length(p, offset + 1, length_bytes) {
        Some(content) => spec_copy_bytes(p, offset, extra + length_bytes + content),
        None => None,
    }
}

/// The bytes of an outcome (empty where there is none).
pub open spec fn bytes_of(r: Option<(int, Seq<u8>)>) -> Seq<u8> {
    match r {
        Some((_, bytes)) => bytes,
        None => seq![],
    }
}

/// Whether the marker byte stands for a value of one byte.
pub open spec fn is_single_byte_marker(m: u8) -> bool {
    m <= 0x7f || m >= 0xe0 || m == 0xc0 || m == 0xc2 || m == 0xc3
}

/// The normalized form of the value that starts at `o`: the offset after
/// it and the bytes that stand for it in the output; `None` where the
/// input holds no complete value there.
pub open spec fn spec_value(p: Seq<u8>, o: int) -> Option<(int, Seq<u8>)>
    decreases p.len() - o, 0int,
{
    if o < 0 || o >= p.len() {
        None
    } else {
        let m = p[o];
        if is_single_byte_marker(m) {
            Some((o + 1, seq![m]))
        } else if m == 0xcc || m == 0xd0 {
            spec_copy_bytes(p, o, 2)
        } else if m == 0xcd || m == 0xd1 {
            spec_copy_bytes(p, o, 3)
        } else if m == 0xce {
            if o + 5 > p.len() {
                None
            } else {
                let encoded = p.subrange(o + 1, o + 5);
                let v = be_uint(encoded);
                if v < 0x8000_0000 {
                    Some((o + 5, seq![0xd2u8] + encoded))
                } else {
                    Some((o + 5, seq![0xcbu8] + be_bytes_u64(binary64_bits_of_large_u32(v))))
                }
            }
        } else if m == 0xca || m == 0xd2 {
            spec_copy_bytes(p, o, 5)
        } else if m == 0xcb || m == 0xcf || m == 0xd3 {
            spec_copy_bytes(p, o, 9)
        } else if m == 0xc4 || m == 0xd9 {
            spec_copy_prefixed(p, o, 1, 1)
        } else if m == 0xc5 || m == 0xda {
            spec_copy_prefixed(p, o, 2, 1)
        } else if m == 0xc6 || m == 0xdb {
            spec_copy_prefixed(p, o, 4, 1)
        } else if m == 0xc7 {
            spec_copy_prefixed(p, o, 1, 2)
        } else if m == 0xc8 {
            spec_copy_prefixed(p, o, 2, 2)
        } else if m == 0xc9 {
            spec_copy_prefixed(p, o, 4, 2)
        } else if m == 0xd4 {
            spec_copy_bytes(p, o, 3)
        } else if m == 0xd5 {
            spec_copy_bytes(p, o, 4)
        } else if m == 0xd6 {
            spec_copy_bytes(p, o, 6)
        } else if m == 0xd7 {
            spec_copy_bytes(p, o, 10)
        } else if m == 0xd8 {
            spec_copy_bytes(p, o, 18)
        } else if m == 0xdc || m == 0xdd || m == 0xde || m == 0xdf {
            let length_bytes: int = if m == 0xdc || m == 0xde {
                2
            } else {
                4
            };
            match spec_read_length(p, o + 1, length_bytes) {
                None => None,
                Some(count) => {
                    let values: int = if m == 0xde || m == 0xdf {
                        2 * count as int
                    } else {
                        count as int
                    };
                    if values > usize::MAX {
                        None
                    } else {
                        prepend(
                            p.subrange(o, o + 1 + length_bytes),
                            spec_values(p, o + 1 + length_bytes, values),
                        )
                    }
                },
            }
        } else if 0xa0 <= m <= 0xbf {
            spec_copy_bytes(p, o, 1 + (m - 0xa0))
        } else if 0x90 <= m <= 0x9f {
            prepend(seq![m], spec_values(p, o + 1, (m - 0x90) as int))
        } else if 0x80 <= m <= 0x8f {
            prepend(seq![m], spec_values(p, o + 1, 2 * (m - 0x80)))
        } else {
            None
        }
    }
}

/// The normalized form of `n` consecutive values starting at `o`.
pub open spec fn spec_values(p: Seq<u8>, o: int, n: int) -> Option<(int, Seq<u8>)>
    decreases p.len() - o, 1int,
{
    if n <= 0 {
        Some((o, seq![]))
    } else {
        match spec_value(p, o) {
            Some((next, bytes)) => if o < next <= p.len() {
                prepend(bytes, spec_values(p, next, n - 1))
            } else {
                None
            },
            None => None,
        }
    }
}

/// The normalized form of all values from `o` to the end of the input.
pub open spec fn spec_stream(p: Seq<u8>, o: int) -> Option<Seq<u8>>
    decreases p.len() - o,
{
    if o >= p.len() {
        Some(seq![])
    } else {
        match spec_value(p, o) {
            Some((next, bytes)) => if o < next <= p.len() {
                match spec_stream(p, next) {
                    Some(rest) => Some(bytes + rest),
                    None => None,
                }
            } else {
                None
            },
            None => None,
        }
    }
}

/// The normalized form of a whole response; `None` where it is not a
/// sequence of complete MessagePack values.
pub open spec fn spec_normalize(p: Seq<u8>) -> Option<Seq<u8>> {
    spec_stream(p, 0)
}

/// An array (`pairs` false) or map (`pairs` true) whose count stands in
/// `length_bytes` bytes after the marker at `o`: the header copied
/// unchanged, then the count of values (two per map entry) normalized.
pub open spec fn spec_copy_container(p: Seq<u8>, o: int, length_bytes: int, pairs: bool) -> Option<
    (int, Seq<u8>),
> {
    match spec_read_length(p, o + 1, length_bytes) {
        None => None,
        Some(count) => {
            let values: int = if pairs {
                2 * count as int
            } else {
                count as int
            };
            if values > usize::MAX {
                None
            } else {
                prepend(
                    p.subrange(o, o + 1 + length_bytes),
                    spec_values(p, o + 1 + length_bytes, values),
                )
            }
        },
    }
}

/// What copying the value at `o` appends to the output, whether the copy
/// succeeds (its normalized bytes) or fails (the bytes written before the
/// malformed part was found: a container's header and the values copied
/// before the failing one).
pub open spec fn spec_value_out(p: Seq<u8>, o: int) -> Seq<u8>
    decreases p.len() - o, 1int,
{
    if o < 0 || o >= p.len() {
        seq![]
    } else {
        let m = p[o];
        if m == 0xdc || m == 0xdd || m == 0xde || m == 0xdf {
            let length_bytes: int = if m == 0xdc || m == 0xde {
                2
            } else {
                4
            };
            spec_container_out(p, o, length_bytes, m == 0xde || m == 0xdf)
        } else if 0x90 <= m <= 0x9f {
            seq![m] + spec_values_out(p, o + 1, (m - 0x90) as int)
        } else if 0x80 <= m <= 0x8f {
            seq![m] + spec_values_out(p, o + 1, 2 * (m - 0x80))
        } else {
            bytes_of(spec_value(p, o))
        }
    }
}

/// What copying an array or map whose count stands in `length_bytes`
/// bytes after the marker at `o` appends: nothing where the count is not
/// there, else the header and what copying its values appends.
pub open spec fn spec_container_out(p: Seq<u8>, o: int, length_bytes: int, pairs: bool) -> Seq<u8>
    decreases p.len() - o, 0int,
{
    match spec_read_length(p, o + 1, length_bytes) {
        None => seq![],
        Some(count) => {
            let values: int = if pairs {
                2 * count as int
            } else {
                count as int
            };
            if values > usize::MAX {
                p.subrange(o, o + 1 + length_bytes)
            } else {
                p.subrange(o, o + 1 + length_bytes) + spec_values_out(p, o + 1 + length_bytes, values)
            }
        },
    }
}

/// What copying `n` consecutive values from `o` appends, whether the copy
/// succeeds or stops at the first malformed value.
pub open spec fn spec_values_out(p: Seq<u8>, o: int, n: int) -> Seq<u8>
    decreases p.len() - o, 2int,
{
    if n <= 0 {
        seq![]
    } else {
        match spec_value(p, o) {
            Some((next, bytes)) => if o < next <= p.len() {
                bytes + spec_values_out(p, next, n - 1)
            } else {
                bytes
            },
            None => spec_value_out(p, o),
        }
    }
}

/// A copy that succeeds appends exactly the normalized bytes of the value.
pub proof fn lemma_value_out_on_success(p: Seq<u8>, o: int)
    ensures
        spec_value(p, o) matches Some((_, b)) ==> spec_value_out(p, o) == b,
    decreases p.len() - o, 1int,
{
    if 0 <= o < p.len() {
        let m = p[o];
        if m == 0xdc || m == 0xdd || m == 0xde || m == 0xdf {
            let length_bytes: int = if m == 0xdc || m == 0xde {
                2
            } else {
                4
            };
            lemma_container_out_on_success(p, o, length_bytes, m == 0xde || m == 0xdf);
        } else if 0x90 <= m <= 0x9f {
            lemma_values_out_on_success(p, o + 1, (m - 0x90) as int);
        } else if 0x80 <= m <= 0x8f {
            lemma_values_out_on_success(p, o + 1, 2 * (m - 0x80));
        }
    }
}

/// A container copy that succeeds appends exactly its normalized bytes.
pub proof fn lemma_container_out_on_success(p: Seq<u8>, o: int, length_bytes: int, pairs: bool)
    ensures
        spec_copy_container(p, o, length_bytes, pairs) matches Some((_, b)) ==> spec_container_out(
            p,
            o,
            length_bytes,
            pairs,
        ) == b,
    decreases p.len() - o, 0int,
{
    if let Some(count) = spec_read_length(p, o + 1, length_bytes) {
        let values: int = if pairs {
            2 * count as int
        } else {
            count as int
        };
        if values <= usize::MAX {
            lemma_values_out_on_success(p, o + 1 + length_bytes, values);
        }
    }
}

/// A copy of consecutive values that succeeds appends exactly their
/// normalized bytes.
pub proof fn lemma_values_out_on_success(p: Seq<u8>, o: int, n: int)
    ensures
        spec_values(p, o, n) matches Some((_, b)) ==> spec_values_out(p, o, n) == b,
    decreases p.len() - o, 2int,
{
    if n > 0 {
        if let Some((next, bytes)) = spec_value(p, o) {
            if o < next <= p.len() {
                lemma_value_out_on_success(p, o);
                lemma_values_out_on_success(p, next, n - 1);
            }
        }
    }
}

/// The outcome of a copy step: the output is `before` followed by `out`,
/// what the step appends; on success `r` is the offset after the copied
/// value and `out` its normalized bytes as `spec` gives them; on failure
/// `spec` has no value and the error is the normalization failure.
pub open spec fn copied(
    spec: Option<(int, Seq<u8>)>,
    out: Seq<u8>,
    r: Result<usize, ServiceError>,
    before: Seq<u8>,
    after: Seq<u8>,
) -> bool {
    &&& after == before + out
    &&& match r {
        Ok(end) => spec == Some((end as int, out)),
        Err(e) => spec is None && e.message@ == "failed to normalize CN MessagePack response"@,
    }
}

/// Rewrites the `uint32` values of a sequence of MessagePack values; an
/// input that is not such a sequence gives the normalization failure.
pub fn normalize_client_msgpack_numbers(packed: &[u8]) -> (r: Result<Vec<u8>, ServiceError>)
    ensures
        match r {
            Ok(v) => spec_normalize(packed@) == Some(v@),
            Err(e) => spec_normalize(packed@) is None && e.message@
                == "failed to normalize CN MessagePack response"@,
        },
{
    let mut normalized: Vec<u8> = Vec::new();
    let mut offset: usize = 0;
    while offset < packed.len()
        invariant
            offset <= packed@.len(),
            spec_normalize(packed@) == match spec_stream(packed@, offset as int) {
                Some(rest) => Some(normalized@ + rest),
                None => None,
            },
        decreases packed@.len() - offset,
    {
        let ghost before = normalized@;
        let next = match copy_msgpack_value(packed, offset, &mut normalized) {
            Ok(next) => next,
            Err(e) => {
                return Err(e);
            },
        };
        proof {
            let bytes = normalized@.subrange(before.len() as int, normalized@.len() as int);
            assert(normalized@ =~= before + bytes);
            match spec_stream(packed@, next as int) {
                Some(rest) => {
                    assert(before + (bytes + rest) =~= normalized@ + rest);
                },
                None => {},
            }
        }
        offset = next;
    }
    assert(normalized@ + seq![] =~= normalized@);
    Ok(normalized)
}

/// Copies (and where needed rewrites) the value that starts at `offset`.
pub fn copy_msgpack_value(packed: &[u8], offset: usize, normalized: &mut Vec<u8>) -> (r: Result<
    usize,
    ServiceError,
>)
    ensures
        copied(
            spec_value(packed@, offset as int),
            spec_value_out(packed@, offset as int),
            r,
            old(normalized)@,
            final(normalized)@,
        ),
        r matches Ok(end) ==> offset < end <= packed@.len(),
    decreases packed@.len() - offset, 2int,
{
    if offset >= packed.len() {
        return Err(invalid_msgpack_response());
    }
    let marker = packed[offset];
    if marker <= 0x7f || marker >= 0xe0 || marker == 0xc0 || marker == 0xc2 || marker == 0xc3 {
        normalized.push(marker);
        assert(final(normalized)@ =~= old(normalized)@ + seq![marker]);
        return Ok(offset + 1);
    }
    if marker == 0xcc || marker == 0xd0 {
        copy_msgpack_bytes(packed, offset, 2, normalized)
    } else if marker == 0xcd || marker == 0xd1 {
        copy_msgpack_bytes(packed, offset, 3, normalized)
    } else if marker == 0xce {
        if packed.len() - offset < 5 {
            return Err(invalid_msgpack_response());
        }
        let e0 = packed[offset + 1];
        let e1 = packed[offset + 2];
        let e2 = packed[offset + 3];
        let e3 = packed[offset + 4];
        let ghost encoded = packed@.subrange(offset + 1, offset + 5);
        assert(encoded.len() == 4 && encoded[0] == e0 && encoded[1] == e1 && encoded[2] == e2
            && encoded[3] == e3);
        let value: u64 = e0 as u64 * 16777216 + e1 as u64 * 65536 + e2 as u64 * 256 + e3 as u64;
        assert(value == be_uint(encoded));
        if value < 0x8000_0000 {
            normalized.push(0xd2);
            normalized.push(e0);
            normalized.push(e1);
            normalized.push(e2);
            normalized.push(e3);
            assert(final(normalized)@ =~= old(normalized)@ + (seq![0xd2u8] + encoded));
        } else {
            let bits: u64 = 0x41E0_0000_0000_0000 + (value - 0x8000_0000) * 0x20_0000;
            assert(bits == binary64_bits_of_large_u32(value as nat));
            normalized.push(0xcb);
            normalized.push(#[verifier::truncate] ((bits >> 56u64) as u8));
            normalized.push(#[verifier::truncate] ((bits >> 48u64) as u8));
            normalized.push(#[verifier::truncate] ((bits >> 40u64) as u8));
            normalized.push(#[verifier::truncate] ((bits >> 32u64) as u8));
            normalized.push(#[verifier::truncate] ((bits >> 24u64) as u8));
            normalized.push(#[verifier::truncate] ((bits >> 16u64) as u8));
            normalized.push(#[verifier::truncate] ((bits >> 8u64) as u8));
            normalized.push(#[verifier::truncate] (bits as u8));
            assert(final(normalized)@ =~= old(normalized)@ + (seq![0xcbu8] + be_bytes_u64(bits)));
        }
        Ok(offset + 5)
    } else if marker == 0xca || marker == 0xd2 {
        copy_msgpack_bytes(packed, offset, 5, normalized)
    } else if marker == 0xcb || marker == 0xcf || marker == 0xd3 {
        copy_msgpack_bytes(packed, offset, 9, normalized)
    } else if marker == 0xc4 || marker == 0xd9 {
        copy_length_prefixed_msgpack_bytes(packed, offset, 1, normalized)
    } else if marker == 0xc5 || marker == 0xda {
        copy_length_prefixed_msgpack_bytes(packed, offset, 2, normalized)
    } else if marker == 0xc6 || marker == 0xdb {
        copy_length_prefixed_msgpack_bytes(packed, offset, 4, normalized)
    } else if marker == 0xc7 {
        copy_ext_msgpack_bytes(packed, offset, 1, normalized)
    } else if marker == 0xc8 {
        copy_ext_msgpack_bytes(packed, offset, 2, normalized)
    } else if marker == 0xc9 {
        copy_ext_msgpack_bytes(packed, offset, 4, normalized)
    } else if marker == 0xd4 {
        copy_msgpack_bytes(packed, offset, 3, normalized)
    } else if marker == 0xd5 {
        copy_msgpack_bytes(packed, offset, 4, normalized)
    } else if marker == 0xd6 {
        copy_msgpack_bytes(packed, offset, 6, normalized)
    } else if marker == 0xd7 {
        copy_msgpack_bytes(packed, offset, 10, normalized)
    } else if marker == 0xd8 {
        copy_msgpack_bytes(packed, offset, 18, normalized)
    } else if marker == 0xdc {
        assert(spec_value(packed@, offset as int) == spec_copy_container(
            packed@,
            offset as int,
            2,
            false,
        ));
        assert(spec_value_out(packed@, offset as int) == spec_container_out(
            packed@,
            offset as int,
            2,
            false,
        ));
        copy_msgpack_array(packed, offset, 2, normalized)
    } else if marker == 0xdd {
        assert(spec_value(packed@, offset as int) == spec_copy_container(
            packed@,
            offset as int,
            4,
            false,
        ));
        assert(spec_value_out(packed@, offset as int) == spec_container_out(
            packed@,
            offset as int,
            4,
            false,
        ));
        copy_msgpack_array(packed, offset, 4, normalized)
    } else if marker == 0xde {
        assert(spec_value(packed@, offset as int) == spec_copy_container(
            packed@,
            offset as int,
            2,
            true,
        ));
        assert(spec_value_out(packed@, offset as int) == spec_container_out(
            packed@,
            offset as int,
            2,
            true,
        ));
        copy_msgpack_map(packed, offset, 2, normalized)
    } else if marker == 0xdf {
        assert(spec_value(packed@, offset as int) == spec_copy_container(
            packed@,
            offset as int,
            4,
            true,
        ));
        assert(spec_value_out(packed@, offset as int) == spec_container_out(
            packed@,
            offset as int,
            4,
            true,
        ));
        copy_msgpack_map(packed, offset, 4, normalized)
    } else if 0xa0 <= marker && marker <= 0xbf {
        copy_msgpack_bytes(packed, offset, 1 + (marker - 0xa0) as usize, normalized)
    } else if 0x90 <= marker && marker <= 0x9f {
        normalized.push(marker);
        let ghost pushed = normalized@;
        let r = copy_msgpack_values(packed, offset + 1, (marker - 0x90) as usize, normalized);
        proof {
            let out = spec_values_out(packed@, offset + 1, (marker - 0x90) as int);
            assert(pushed == old(normalized)@ + seq![marker]);
            assert(final(normalized)@ =~= old(normalized)@ + (seq![marker] + out));
        }
        r
    } else if 0x80 <= marker && marker <= 0x8f {
        normalized.push(marker);
        let ghost pushed = normalized@;
        let r = copy_msgpack_values(packed, offset + 1, (marker - 0x80) as usize * 2, normalized);
        proof {
            let out = spec_values_out(packed@, offset + 1, 2 * (marker - 0x80));
            assert(pushed == old(normalized)@ + seq![marker]);
            assert(final(normalized)@ =~= old(normalized)@ + (seq![marker] + out));
        }
        r
    } else {
        Err(invalid_msgpack_response())
    }
}

/// Copies a string or binary value whose content length stands in the
/// `length_bytes` bytes after the marker.
pub fn copy_length_prefixed_msgpack_bytes(
    packed: &[u8],
    offset: usize,
    length_bytes: usize,
    normalized: &mut Vec<u8>,
) -> (r: Result<usize, ServiceError>)
    ensures
        copied(
            spec_copy_prefixed(packed@, offset as int, length_bytes as int, 1),
            bytes_of(spec_copy_prefixed(packed@, offset as int, length_bytes as int, 1)),
            r,
            old(normalized)@,
            final(normalized)@,
        ),
        r matches Ok(end) ==> offset < end <= packed@.len(),
        r is Err ==> final(normalized)@ == old(normalized)@,
{
    copy_prefixed(packed, offset, length_bytes, 1, normalized)
}

/// Copies an extension value: marker, length field, type byte and content.
pub fn copy_ext_msgpack_bytes(
    packed: &[u8],
    offset: usize,
    length_bytes: usize,
    normalized: &mut Vec<u8>,
) -> (r: Result<usize, ServiceError>)
    ensures
        copied(
            spec_copy_prefixed(packed@, offset as int, length_bytes as int, 2),
            bytes_of(spec_copy_prefixed(packed@, offset as int, length_bytes as int, 2)),
            r,
            old(normalized)@,
            final(normalized)@,
        ),
        r matches Ok(end) ==> offset < end <= packed@.len(),
        r is Err ==> final(normalized)@ == old(normalized)@,
{
    copy_prefixed(packed, offset, length_bytes, 2, normalized)
}

/// Copies a value whose content length stands in the `length_bytes` bytes
/// after the marker, behind `extra` header bytes.
fn copy_prefixed(
    packed: &[u8],
    offset: usize,
    length_bytes: usize,
    extra: usize,
    normalized: &mut Vec<u8>,
) -> (r: Result<usize, ServiceError>)
    requires
        extra == 1 || extra == 2,
    ensures
        copied(
            spec_copy_prefixed(packed@, offset as int, length_bytes as int, extra as int),
            bytes_of(spec_copy_prefixed(packed@, offset as int, length_bytes as int, extra as int)),
            r,
            old(normalized)@,
            final(normalized)@,
        ),
        r matches Ok(end) ==> offset < end <= packed@.len(),
        r is Err ==> final(normalized)@ == old(normalized)@,
{
    assert(old(normalized)@ + Seq::<u8>::empty() =~= old(normalized)@);
    let len = packed.len();
    assert(len == packed@.len());
    let header = match offset.checked_add(1) {
        Some(h) => h,
        None => return Err(invalid_msgpack_response()),
    };
    let content_length = match read_msgpack_length(packed, header, length_bytes) {
        Ok(length) => length,
        Err(_) => return Err(invalid_msgpack_response()),
    };
    let total = match content_length.checked_add(extra + length_bytes) {
        Some(total) => total,
        None => return Err(invalid_msgpack_response()),
    };
    copy_msgpack_bytes(packed, offset, total, normalized)
}

/// Copies an array header with a `length_bytes` count and its elements.
pub fn copy_msgpack_array(
    packed: &[u8],
    offset: usize,
    length_bytes: usize,
    normalized: &mut Vec<u8>,
) -> (r: Result<usize, ServiceError>)
    ensures
        copied(
            spec_copy_container(packed@, offset as int, length_bytes as int, false),
            spec_container_out(packed@, offset as int, length_bytes as int, false),
            r,
            old(normalized)@,
            final(normalized)@,
        ),
        r matches Ok(end) ==> offset < end <= packed@.len(),
    decreases packed@.len() - offset, 1int,
{
    copy_container(packed, offset, length_bytes, false, normalized)
}

/// Copies a map header with a `length_bytes` count and its keys and values.
pub fn copy_msgpack_map(
    packed: &[u8],
    offset: usize,
    length_bytes: usize,
    normalized: &mut Vec<u8>,
) -> (r: Result<usize, ServiceError>)
    ensures
        copied(
            spec_copy_container(packed@, offset as int, length_bytes as int, true),
            spec_container_out(packed@, offset as int, length_bytes as int, true),
            r,
            old(normalized)@,
            final(normalized)@,
        ),
        r matches Ok(end) ==> offset < end <= packed@.len(),
    decreases packed@.len() - offset, 1int,
{
    copy_container(packed, offset, length_bytes, true, normalized)
}

/// Copies an array (`pairs` false) or map (`pairs` true) header and the
/// values that its count gives.
#[verifier::rlimit(40)]
fn copy_container(
    packed: &[u8],
    offset: usize,
    length_bytes: usize,
    pairs: bool,
    normalized: &mut Vec<u8>,
) -> (r: Result<usize, ServiceError>)
    ensures
        copied(
            spec_copy_container(packed@, offset as int, length_bytes as int, pairs),
            spec_container_out(packed@, offset as int, length_bytes as int, pairs),
            r,
            old(normalized)@,
            final(normalized)@,
        ),
        r matches Ok(end) ==> offset < end <= packed@.len(),
    decreases packed@.len() - offset, 0int,
{
    assert(old(normalized)@ + Seq::<u8>::empty() =~= old(normalized)@);
    let len = packed.len();
    assert(len == packed@.len());
    let header = match offset.checked_add(1) {
        Some(h) => h,
        None => return Err(invalid_msgpack_response()),
    };
    let count = match read_msgpack_length(packed, header, length_bytes) {
        Ok(count) => count,
        Err(_) => return Err(invalid_msgpack_response()),
    };
    let ghost head = packed@.subrange(offset as int, offset + 1 + length_bytes);
    let values_offset = match copy_msgpack_bytes(packed, offset, 1 + length_bytes, normalized) {
        Ok(end) => end,
        Err(_) => return Err(invalid_msgpack_response()),
    };
    let ghost with_header = normalized@;
    let value_count = if pairs {
        match count.checked_mul(2) {
            Some(value_count) => value_count,
            None => return Err(invalid_msgpack_response()),
        }
    } else {
        count
    };
    let r = copy_msgpack_values(packed, values_offset, value_count, normalized);
    proof {
        let out = spec_values_out(packed@, values_offset as int, value_count as int);
        assert(with_header == old(normalized)@ + head);
        assert(final(normalized)@ =~= old(normalized)@ + (head + out));
    }
    r
}

/// Copies `count` consecutive values starting at `offset`; no values copy
/// nothing, wherever `offset` stands.
pub fn copy_msgpack_values(
    packed: &[u8],
    offset: usize,
    count: usize,
    normalized: &mut Vec<u8>,
) -> (r: Result<usize, ServiceError>)
    ensures
        copied(
            spec_values(packed@, offset as int, count as int),
            spec_values_out(packed@, offset as int, count as int),
            r,
            old(normalized)@,
            final(normalized)@,
        ),
        r matches Ok(end) ==> offset <= end && (offset <= packed@.len() ==> end <= packed@.len()),
    decreases packed@.len() - offset, 3int,
{
    let mut current = offset;
    let mut index: usize = 0;
    while index < count
        invariant
            offset <= current,
            index == 0 ==> current == offset,
            index > 0 ==> current <= packed@.len(),
            offset <= packed@.len() ==> current <= packed@.len(),
            index <= count,
            old(normalized)@.len() <= normalized@.len(),
            normalized@.subrange(0, old(normalized)@.len() as int) == old(normalized)@,
            spec_values(packed@, offset as int, count as int) == prepend(
                normalized@.subrange(old(normalized)@.len() as int, normalized@.len() as int),
                spec_values(packed@, current as int, count - index),
            ),
            spec_values_out(packed@, offset as int, count as int) == normalized@.subrange(
                old(normalized)@.len() as int,
                normalized@.len() as int,
            ) + spec_values_out(packed@, current as int, count - index),
        decreases count - index,
    {
        let ghost before = normalized@;
        let ghost start = old(normalized)@.len() as int;
        let ghost acc = before.subrange(start, before.len() as int);
        let result = copy_msgpack_value(packed, current, normalized);
        let ghost bytes = normalized@.subrange(before.len() as int, normalized@.len() as int);
        proof {
            assert(normalized@ =~= before + bytes);
            assert(normalized@.subrange(0, start) =~= before.subrange(0, start));
            assert(normalized@.subrange(start, normalized@.len() as int) =~= acc + bytes);
            assert(bytes == spec_value_out(packed@, current as int));
        }
        let next = match result {
            Ok(next) => next,
            Err(e) => {
                proof {
                    assert(spec_values(packed@, current as int, count - index) is None);
                    assert(spec_values_out(packed@, current as int, count - index) == bytes);
                    assert(normalized@ =~= old(normalized)@ + (acc + bytes));
                }
                return Err(e);
            },
        };
        proof {
            match spec_values(packed@, next as int, count - index - 1) {
                Some((e, rest)) => {
                    assert(acc + (bytes + rest) =~= (acc + bytes) + rest);
                },
                None => {},
            }
            let rest_out = spec_values_out(packed@, next as int, count - index - 1);
            assert(spec_values_out(packed@, current as int, count - index) == bytes + rest_out);
            assert(acc + (bytes + rest_out) =~= (acc + bytes) + rest_out);
        }
        current = next;
        index = index + 1;
    }
    proof {
        let start = old(normalized)@.len() as int;
        let acc = normalized@.subrange(start, normalized@.len() as int);
        assert(acc + seq![] =~= acc);
        assert(normalized@ =~= old(normalized)@ + acc);
    }
    Ok(current)
}

/// Copies `length` bytes starting at `offset` unchanged.
pub fn copy_msgpack_bytes(
    packed: &[u8],
    offset: usize,
    length: usize,
    normalized: &mut Vec<u8>,
) -> (r: Result<usize, ServiceError>)
    ensures
        copied(
            spec_copy_bytes(packed@, offset as int, length as int),
            bytes_of(spec_copy_bytes(packed@, offset as int, length as int)),
            r,
            old(normalized)@,
            final(normalized)@,
        ),
        r matches Ok(end) ==> end == offset + length && end <= packed@.len(),
        r is Err ==> final(normalized)@ == old(normalized)@,
{
    if offset > packed.len() || length > packed.len() - offset {
        assert(final(normalized)@ =~= old(normalized)@ + Seq::<u8>::empty());
        return Err(invalid_msgpack_response());
    }
    let end = offset + length;
    let mut index = offset;
    while index < end
        invariant
            offset <= index <= end <= packed@.len(),
            normalized@ == old(normalized)@ + packed@.subrange(offset as int, index as int),
        decreases end - index,
    {
        normalized.push(packed[index]);
        assert(packed@.subrange(offset as int, index + 1) =~= packed@.subrange(
            offset as int,
            index as int,
        ).push(packed@[index as int]));
        index = index + 1;
    }
    Ok(end)
}

/// Reads a big-endian length field of 1, 2 or 4 bytes at `offset`.
pub fn read_msgpack_length(packed: &[u8], offset: usize, length_bytes: usize) -> (r: Result<
    usize,
    ServiceError,
>)
    ensures
        match r {
            Ok(length) => spec_read_length(packed@, offset as int, length_bytes as int) == Some(
                length as nat,
            ),
            Err(_) => spec_read_length(packed@, offset as int, length_bytes as int) is None,
        },
{
    if offset > packed.len() || length_bytes > packed.len() - offset {
        return Err(invalid_msgpack_response());
    }
    let ghost encoded = packed@.subrange(offset as int, offset + length_bytes);
    if length_bytes == 1 {
        Ok(packed[offset] as usize)
    } else if length_bytes == 2 {
        Ok(packed[offset] as usize * 256 + packed[offset + 1] as usize)
    } else if length_bytes == 4 {
        let value: u64 = packed[offset] as u64 * 16777216 + packed[offset + 1] as u64 * 65536
            + packed[offset + 2] as u64 * 256 + packed[offset + 3] as u64;
        assert(value == be_uint(encoded));
        assert(value <= u32::MAX);
        Ok(value as usize)
    } else {
        Err(invalid_msgpack_response())
    }
}

/// The error that a response which is not valid MessagePack gives.
pub fn invalid_msgpack_response() -> (error: ServiceError)
    ensures
        error.message@ == "failed to normalize CN MessagePack response"@,
{
    ServiceError::new("failed to normalize CN MessagePack response")
}

/// A window inside a window of `q` that holds `b`.
pub proof fn lemma_window(q: Seq<u8>, k: int, b: Seq<u8>, i: int, j: int)
    requires
        0 <= k,
        k + b.len() <= q.len(),
        q.subrange(k, k + b.len()) == b,
        0 <= i <= j <= b.len(),
    ensures
        q.subrange(k + i, k + j) == b.subrange(i, j),
{
    assert forall|x: int| 0 <= x < j - i implies q.subrange(k + i, k + j)[x] == b.subrange(i, j)[x] by {
        assert(q.subrange(k, k + b.len())[i + x] == q[k + i + x]);
    }
    assert(q.subrange(k + i, k + j) =~= b.subrange(i, j));
}

/// The normalized form of a value is itself a value that normalizes to the
/// same bytes, wherever it stands in another input.
#[verifier::rlimit(60)]
pub proof fn lemma_value_fixpoint(p: Seq<u8>, o: int, q: Seq<u8>, k: int)
    requires
        spec_value(p, o) is Some,
        0 <= k,
        k + bytes_of(spec_value(p, o)).len() <= q.len(),
        q.subrange(k, k + bytes_of(spec_value(p, o)).len()) == bytes_of(spec_value(p, o)),
    ensures
        bytes_of(spec_value(p, o)).len() >= 1,
        spec_value(q, k) == Some((k + bytes_of(spec_value(p, o)).len(), bytes_of(spec_value(p, o)))),
    decreases p.len() - o, 0int,
{
    let b = bytes_of(spec_value(p, o));
    let m = p[o];
    assert(q[k] == b[0]);
    if is_single_byte_marker(m) {
    } else if m == 0xce {
        let encoded = p.subrange(o + 1, o + 5);
        if be_uint(encoded) < 0x8000_0000 {
            assert(q.subrange(k, k + 5) =~= b);
        } else {
            assert(q.subrange(k, k + 9) =~= b);
        }
    } else if m == 0xc4 || m == 0xd9 || m == 0xc5 || m == 0xda || m == 0xc6 || m == 0xdb || m
        == 0xc7 || m == 0xc8 || m == 0xc9 {
        let length_bytes: int = if m == 0xc4 || m == 0xd9 || m == 0xc7 {
            1
        } else if m == 0xc5 || m == 0xda || m == 0xc8 {
            2
        } else {
            4
        };
        lemma_window(q, k, b, 1, 1 + length_bytes);
        assert(b.subrange(1, 1 + length_bytes) =~= p.subrange(o + 1, o + 1 + length_bytes));
    } else if m == 0xdc || m == 0xdd || m == 0xde || m == 0xdf {
        let length_bytes: int = if m == 0xdc || m == 0xde {
            2
        } else {
            4
        };
        let count = spec_read_length(p, o + 1, length_bytes)->0;
        let values: int = if m == 0xde || m == 0xdf {
            2 * count as int
        } else {
            count as int
        };
        let header = p.subrange(o, o + 1 + length_bytes);
        let inner = bytes_of(spec_values(p, o + 1 + length_bytes, values));
        assert(b == header + inner);
        lemma_window(q, k, b, 1, 1 + length_bytes);
        assert(b.subrange(1, 1 + length_bytes) =~= p.subrange(o + 1, o + 1 + length_bytes));
        lemma_window(q, k, b, 1 + length_bytes, b.len() as int);
        assert(b.subrange(1 + length_bytes, b.len() as int) =~= inner);
        lemma_values_fixpoint(p, o + 1 + length_bytes, values, q, k + 1 + length_bytes);
    } else if 0x90 <= m <= 0x9f || 0x80 <= m <= 0x8f {
        let values: int = if 0x90 <= m <= 0x9f {
            (m - 0x90) as int
        } else {
            2 * (m - 0x80)
        };
        let inner = bytes_of(spec_values(p, o + 1, values));
        assert(b == seq![m] + inner);
        lemma_window(q, k, b, 1, b.len() as int);
        assert(b.subrange(1, b.len() as int) =~= inner);
        lemma_values_fixpoint(p, o + 1, values, q, k + 1);
    } else {
        assert(q.subrange(k, k + b.len()) =~= b);
    }
}

/// The normalized form of consecutive values normalizes to itself.
pub proof fn lemma_values_fixpoint(p: Seq<u8>, o: int, n: int, q: Seq<u8>, k: int)
    requires
        spec_values(p, o, n) is Some,
        0 <= k,
        k + bytes_of(spec_values(p, o, n)).len() <= q.len(),
        q.subrange(k, k + bytes_of(spec_values(p, o, n)).len()) == bytes_of(spec_values(p, o, n)),
    ensures
        spec_values(q, k, n) == Some((k + bytes_of(spec_values(p, o, n)).len(), bytes_of(spec_values(p, o, n)))),
    decreases p.len() - o, 1int,
{
    let b = bytes_of(spec_values(p, o, n));
    if n > 0 {
        let (next, first) = spec_value(p, o)->0;
        let rest = bytes_of(spec_values(p, next, n - 1));
        assert(b == first + rest);
        lemma_window(q, k, b, 0, first.len() as int);
        assert(b.subrange(0, first.len() as int) =~= first);
        lemma_value_fixpoint(p, o, q, k);
        lemma_window(q, k, b, first.len() as int, b.len() as int);
        assert(b.subrange(first.len() as int, b.len() as int) =~= rest);
        lemma_values_fixpoint(p, next, n - 1, q, k + first.len());
        assert(first + rest == b);
    }
}

/// The normalized form of the values from `o` to the end normalizes to
/// itself when it ends another input.
pub proof fn lemma_stream_fixpoint(p: Seq<u8>, o: int, q: Seq<u8>, k: int)
    requires
        spec_stream(p, o) is Some,
        0 <= k,
        k + spec_stream(p, o)->0.len() == q.len(),
        q.subrange(k, q.len() as int) == spec_stream(p, o)->0,
    ensures
        spec_stream(q, k) == spec_stream(p, o),
    decreases p.len() - o,
{
    let b = spec_stream(p, o)->0;
    if o < p.len() {
        let (next, first) = spec_value(p, o)->0;
        let rest = spec_stream(p, next)->0;
        assert(b == first + rest);
        assert(q.subrange(k, k + b.len()) == b);
        lemma_window(q, k, b, 0, first.len() as int);
        assert(b.subrange(0, first.len() as int) =~= first);
        lemma_value_fixpoint(p, o, q, k);
        lemma_window(q, k, b, first.len() as int, b.len() as int);
        assert(b.subrange(first.len() as int, b.len() as int) =~= rest);
        lemma_stream_fixpoint(p, next, q, k + first.len());
    }
}

/// Normalization is idempotent: a normalized response normalizes to itself.
pub proof fn lemma_normalize_idempotent(packed: Seq<u8>)
    requires
        spec_normalize(packed) is Some,
    ensures
        spec_normalize(spec_normalize(packed)->0) == spec_normalize(packed),
{
    let out = spec_normalize(packed)->0;
    assert(out.subrange(0, out.len() as int) =~= out);
    lemma_stream_fixpoint(packed, 0, out, 0);
}


/// Consecutive values end at or after where they start, and within the
/// input where they start within it.
pub proof fn lemma_values_stay_within(p: Seq<u8>, o: int, n: int)
    ensures
        spec_values(p, o, n) matches Some((e, _)) ==> o <= e && (o <= p.len() ==> e <= p.len()),
    decreases p.len() - o,
{
    if n > 0 {
        if let Some((next, bytes)) = spec_value(p, o) {
            if o < next <= p.len() {
                lemma_values_stay_within(p, next, n - 1);
            }
        }
    }
}

/// A value, where there is one, ends after its marker and within the input.
pub proof fn lemma_value_advances(p: Seq<u8>, o: int)
    ensures
        spec_value(p, o) matches Some((next, _)) ==> o < next <= p.len(),
{
    if 0 <= o < p.len() {
        let m = p[o];
        if m == 0xdc || m == 0xdd || m == 0xde || m == 0xdf {
            let length_bytes: int = if m == 0xdc || m == 0xde {
                2
            } else {
                4
            };
            if let Some(count) = spec_read_length(p, o + 1, length_bytes) {
                let values: int = if m == 0xde || m == 0xdf {
                    2 * count as int
                } else {
                    count as int
                };
                lemma_values_stay_within(p, o + 1 + length_bytes, values);
            }
        } else if 0x90 <= m <= 0x9f {
            lemma_values_stay_within(p, o + 1, (m - 0x90) as int);
        } else if 0x80 <= m <= 0x8f {
            lemma_values_stay_within(p, o + 1, 2 * (m - 0x80));
        }
    }
}

/// No values copy nothing, wherever the offset stands; one value copies as
/// `spec_value` gives it and appends what copying that value appends; and
/// copying `a + b` consecutive values is copying `a` values and then `b`
/// values from where the first copy ended: the same outcome and the same
/// bytes appended, the first malformed value failing the whole copy with
/// what was appended before it left in the output.
pub proof fn lemma_values_split(p: Seq<u8>, o: int, a: nat, b: nat)
    ensures
        spec_values(p, o, 0) == Some((o, Seq::<u8>::empty())),
        spec_values_out(p, o, 0) == Seq::<u8>::empty(),
        spec_values(p, o, 1) == spec_value(p, o),
        spec_values_out(p, o, 1) == spec_value_out(p, o),
        spec_values(p, o, a + b as int) == match spec_values(p, o, a as int) {
            Some((o2, first)) => prepend(first, spec_values(p, o2, b as int)),
            None => None,
        },
        spec_values_out(p, o, a + b as int) == spec_values_out(p, o, a as int) + match spec_values(
            p,
            o,
            a as int,
        ) {
            Some((o2, _)) => spec_values_out(p, o2, b as int),
            None => Seq::<u8>::empty(),
        },
    decreases a,
{
    lemma_value_out_on_success(p, o);
    lemma_value_advances(p, o);
    if let Some((next, bytes)) = spec_value(p, o) {
        if o < next <= p.len() {
            assert(bytes + Seq::<u8>::empty() =~= bytes);
            assert(spec_values_out(p, next, 0) == Seq::<u8>::empty());
        }
    }
    if a == 0 {
        if let Some((e, x)) = spec_values(p, o, b as int) {
            assert(Seq::<u8>::empty() + x =~= x);
        }
        assert(Seq::<u8>::empty() + spec_values_out(p, o, b as int) =~= spec_values_out(
            p,
            o,
            b as int,
        ));
    } else {
        assert((a + b) - 1 == (a - 1) + b);
        match spec_value(p, o) {
            Some((next, bytes)) => {
                if o < next <= p.len() {
                    lemma_values_split(p, next, (a - 1) as nat, b);
                    if let Some((o2, first)) = spec_values(p, next, a - 1) {
                        if let Some((e, rest)) = spec_values(p, o2, b as int) {
                            assert(bytes + (first + rest) =~= (bytes + first) + rest);
                        }
                    }
                    let x = spec_values_out(p, next, a - 1);
                    let y = match spec_values(p, next, a - 1) {
                        Some((o2, _)) => spec_values_out(p, o2, b as int),
                        None => Seq::<u8>::empty(),
                    };
                    assert(bytes + (x + y) =~= (bytes + x) + y);
                } else {
                    assert(bytes + Seq::<u8>::empty() =~= bytes);
                }
            },
            None => {
                assert(spec_value_out(p, o) + Seq::<u8>::empty() =~= spec_value_out(p, o));
            },
        }
    }
}

} // verus!
