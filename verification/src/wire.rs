//! Mathematical model of the wire format.
//!
//! Every field is a tag-length-value element: one tag octet, definite length
//! octets (shortest form), then the contents. A record is one constructed
//! sequence element whose contents are its fields in fixed order. The spec
//! decoders below are the reference semantics the executable decoders are
//! proved equal to: they read the mandatory fields, then resolve the optional
//! tail from the value of the next tag alone.

use vstd::prelude::*;

use crate::records::CMIPAbortSource;
use crate::records::DecodingError;
use crate::records::SpecAbortInfo;
use crate::records::SpecUserInfo;
use crate::records::abort_source_value;
use crate::records::FUNCTIONAL_UNITS_LEN;
use crate::records::MAX_OPEN_VALUE_LEN;
use crate::records::PROTOCOL_VERSION_LEN;

verus! {

/// Universal class, constructed, sequence.
pub const TAG_SEQUENCE: u8 = 0x30;

/// Context class, number 0: the functional-units bitmap.
pub const TAG_USERINFO_FUNCTIONAL_UNITS: u8 = 0x80;

/// Context class, number 1: the protocol-version bitmap.
pub const TAG_USERINFO_PROTOCOL_VERSION: u8 = 0x81;

/// Context class, constructed, number 2: the optional access-control payload.
pub const TAG_USERINFO_ACCESS_CONTROL: u8 = 0xA2;

/// Context class, constructed, number 3: the optional user-info payload.
pub const TAG_USERINFO_USER_INFO: u8 = 0xA3;

/// Context class, number 0: the abort-source enumerated value.
pub const TAG_ABORTINFO_ABORT_SOURCE: u8 = 0x80;

/// Context class, constructed, number 1: the optional user-info payload.
pub const TAG_ABORTINFO_USER_INFO: u8 = 0xA1;

/// Contents lengths the model covers: everything this codec emits fits the
/// one- to three-octet definite length forms.
pub const MAX_CONTENTS_LEN: usize = 0x1000000;

/// The shortest definite length octets for a contents length `n`.
pub open spec fn len_octets(n: int) -> Seq<u8>
    recommends
        0 <= n < MAX_CONTENTS_LEN,
{
    if n < 0x80 {
        seq![n as u8]
    } else if n < 0x100 {
        seq![0x81u8, n as u8]
    } else if n < 0x10000 {
        seq![0x82u8, (n / 0x100) as u8, (n % 0x100) as u8]
    } else {
        seq![0x83u8, (n / 0x10000) as u8, ((n / 0x100) % 0x100) as u8, (n % 0x100) as u8]
    }
}

/// One tag-length-value element.
pub open spec fn tlv(tag: u8, contents: Seq<u8>) -> Seq<u8> {
    seq![tag] + len_octets(contents.len() as int) + contents
}

/// Bit-string contents: a leading count of unused trailing bits (always zero
/// here, the bitmaps are whole octets) followed by the bitmap octets.
pub open spec fn bit_string_contents(bytes: Seq<u8>) -> Seq<u8> {
    seq![0u8] + bytes
}

/// A bit-string element under the given tag.
pub open spec fn bit_string_tlv(tag: u8, bytes: Seq<u8>) -> Seq<u8> {
    tlv(tag, bit_string_contents(bytes))
}

/// The fields of a user-info record, in their fixed wire order: the two
/// mandatory bitmaps, then the optional access-control element, then the
/// optional user-info element. An absent optional field contributes nothing.
pub open spec fn spec_user_info_fields(m: SpecUserInfo) -> Seq<u8> {
    bit_string_tlv(TAG_USERINFO_FUNCTIONAL_UNITS, m.functional_units)
        + bit_string_tlv(TAG_USERINFO_PROTOCOL_VERSION, m.protocol_version)
        + (match m.access_control {
            Some(c) => tlv(TAG_USERINFO_ACCESS_CONTROL, c),
            None => Seq::<u8>::empty(),
        })
        + (match m.user_info {
            Some(c) => tlv(TAG_USERINFO_USER_INFO, c),
            None => Seq::<u8>::empty(),
        })
}

/// The complete encoding of a user-info record.
pub open spec fn spec_user_info_wire(m: SpecUserInfo) -> Seq<u8> {
    tlv(TAG_SEQUENCE, spec_user_info_fields(m))
}

/// The fields of an abort-info record: the mandatory enumerated abort source,
/// then the optional user-info element.
pub open spec fn spec_abort_info_fields(m: SpecAbortInfo) -> Seq<u8> {
    tlv(TAG_ABORTINFO_ABORT_SOURCE, seq![abort_source_value(m.abort_source)])
        + (match m.user_info {
            Some(c) => tlv(TAG_ABORTINFO_USER_INFO, c),
            None => Seq::<u8>::empty(),
        })
}

/// The complete encoding of an abort-info record.
pub open spec fn spec_abort_info_wire(m: SpecAbortInfo) -> Seq<u8> {
    tlv(TAG_SEQUENCE, spec_abort_info_fields(m))
}

/// Reads length octets at position `i`, never past `end`. Yields the contents
/// length and the position after the length octets. Octets that are not a
/// shortest-form definite length of the covered range are malformed.
pub open spec fn spec_parse_len(s: Seq<u8>, i: int, end: int) -> Result<(int, int), DecodingError>
    recommends
        0 <= i <= end <= s.len(),
{
    if i >= end {
        Err(DecodingError::TruncatedInput)
    } else {
        let b0 = s[i];
        if b0 < 0x80 {
            Ok(((b0 as int), i + 1))
        } else if b0 == 0x81 {
            if i + 1 >= end {
                Err(DecodingError::TruncatedInput)
            } else if s[i + 1] < 0x80 {
                Err(DecodingError::MalformedPrimitive)
            } else {
                Ok(((s[i + 1] as int), i + 2))
            }
        } else if b0 == 0x82 {
            if i + 2 >= end {
                Err(DecodingError::TruncatedInput)
            } else {
                let n = (s[i + 1] as int) * 0x100 + (s[i + 2] as int);
                if n < 0x100 {
                    Err(DecodingError::MalformedPrimitive)
                } else {
                    Ok((n, i + 3))
                }
            }
        } else if b0 == 0x83 {
            if i + 3 >= end {
                Err(DecodingError::TruncatedInput)
            } else {
                let n = (s[i + 1] as int) * 0x10000 + (s[i + 2] as int) * 0x100 + (s[i + 3] as int);
                if n < 0x10000 {
                    Err(DecodingError::MalformedPrimitive)
                } else {
                    Ok((n, i + 4))
                }
            }
        } else {
            Err(DecodingError::MalformedPrimitive)
        }
    }
}

/// Reads one element at position `i`, never past `end`. Yields its tag and the
/// bounds of its contents; the position after the element is the contents end.
pub open spec fn spec_parse_element(s: Seq<u8>, i: int, end: int) -> Result<
    (u8, int, int),
    DecodingError,
>
    recommends
        0 <= i <= end <= s.len(),
{
    if i >= end {
        Err(DecodingError::TruncatedInput)
    } else {
        let tag = s[i];
        match spec_parse_len(s, i + 1, end) {
            Err(e) => Err(e),
            Ok((l, cs)) => if l > end - cs {
                Err(DecodingError::TruncatedInput)
            } else {
                Ok((tag, cs, cs + l))
            },
        }
    }
}

/// Reads a mandatory bit-string element of `width` bitmap octets under the
/// expected tag. A tag or shape violation is a malformed primitive.
pub open spec fn spec_parse_bit_string(s: Seq<u8>, i: int, end: int, tag: u8, width: int) -> Result<
    (Seq<u8>, int),
    DecodingError,
>
    recommends
        0 <= i <= end <= s.len(),
{
    match spec_parse_element(s, i, end) {
        Err(e) => Err(e),
        Ok((t, cs, ce)) => if t != tag {
            Err(DecodingError::MalformedPrimitive)
        } else if ce - cs != width + 1 {
            Err(DecodingError::MalformedPrimitive)
        } else if s[cs] != 0 {
            Err(DecodingError::MalformedPrimitive)
        } else {
            Ok((s.subrange(cs + 1, ce), ce))
        },
    }
}

/// Reads an open-typed element whose tag the caller has already inspected;
/// the contents are opaque. Contents past the supported payload bound are
/// malformed.
pub open spec fn spec_parse_open_value(s: Seq<u8>, i: int, end: int) -> Result<
    (Seq<u8>, int),
    DecodingError,
>
    recommends
        0 <= i <= end <= s.len(),
{
    match spec_parse_element(s, i, end) {
        Err(e) => Err(e),
        Ok((t, cs, ce)) => if ce - cs > MAX_OPEN_VALUE_LEN as int {
            Err(DecodingError::MalformedPrimitive)
        } else {
            Ok((s.subrange(cs, ce), ce))
        },
    }
}

/// Reads a mandatory enumerated element under the expected tag; the contents
/// are one octet.
pub open spec fn spec_parse_enumerated(s: Seq<u8>, i: int, end: int, tag: u8) -> Result<
    (u8, int),
    DecodingError,
>
    recommends
        0 <= i <= end <= s.len(),
{
    match spec_parse_element(s, i, end) {
        Err(e) => Err(e),
        Ok((t, cs, ce)) => if t != tag {
            Err(DecodingError::MalformedPrimitive)
        } else if ce - cs != 1 {
            Err(DecodingError::MalformedPrimitive)
        } else {
            Ok((s[cs], ce))
        },
    }
}

/// Resolves the optional tail of a user-info record between `i` and `end`,
/// from the value of the next tag alone. Nothing left: both fields absent.
/// Tag 2 next: access control, then either the end or tag 3 with user info.
/// Tag 3 next: user info alone, access control absent. Any other tag, or any
/// octets left after the resolved fields, is an unexpected tag.
pub open spec fn spec_decode_user_info_tail(s: Seq<u8>, i: int, end: int) -> Result<
    (Option<Seq<u8>>, Option<Seq<u8>>),
    DecodingError,
>
    recommends
        0 <= i <= end <= s.len(),
{
    if i == end {
        Ok((None, None))
    } else if s[i] == TAG_USERINFO_ACCESS_CONTROL {
        match spec_parse_open_value(s, i, end) {
            Err(e) => Err(e),
            Ok((ac, j)) => if j == end {
                Ok((Some(ac), None))
            } else if s[j] == TAG_USERINFO_USER_INFO {
                match spec_parse_open_value(s, j, end) {
                    Err(e) => Err(e),
                    Ok((ui, k)) => if k == end {
                        Ok((Some(ac), Some(ui)))
                    } else {
                        Err(DecodingError::UnexpectedTag)
                    },
                }
            } else {
                Err(DecodingError::UnexpectedTag)
            },
        }
    } else if s[i] == TAG_USERINFO_USER_INFO {
        match spec_parse_open_value(s, i, end) {
            Err(e) => Err(e),
            Ok((ui, k)) => if k == end {
                Ok((None, Some(ui)))
            } else {
                Err(DecodingError::UnexpectedTag)
            },
        }
    } else {
        Err(DecodingError::UnexpectedTag)
    }
}

/// Decodes the fields of a user-info record between `i` and `end`.
pub open spec fn spec_decode_user_info_fields(s: Seq<u8>, i: int, end: int) -> Result<
    SpecUserInfo,
    DecodingError,
>
    recommends
        0 <= i <= end <= s.len(),
{
    match spec_parse_bit_string(s, i, end, TAG_USERINFO_FUNCTIONAL_UNITS, FUNCTIONAL_UNITS_LEN as int) {
        Err(e) => Err(e),
        Ok((fu, j)) => match spec_parse_bit_string(
            s,
            j,
            end,
            TAG_USERINFO_PROTOCOL_VERSION,
            PROTOCOL_VERSION_LEN as int,
        ) {
            Err(e) => Err(e),
            Ok((pv, k)) => match spec_decode_user_info_tail(s, k, end) {
                Err(e) => Err(e),
                Ok((ac, ui)) => Ok(
                    SpecUserInfo {
                        functional_units: fu,
                        protocol_version: pv,
                        access_control: ac,
                        user_info: ui,
                    },
                ),
            },
        },
    }
}

/// Decodes one user-info record at the start of `s`. Yields the record and
/// the number of octets it occupies; octets after the record are untouched.
pub open spec fn spec_decode_user_info(s: Seq<u8>) -> Result<(SpecUserInfo, int), DecodingError> {
    match spec_parse_element(s, 0, s.len() as int) {
        Err(e) => Err(e),
        Ok((t, cs, ce)) => if t != TAG_SEQUENCE {
            Err(DecodingError::MalformedPrimitive)
        } else {
            match spec_decode_user_info_fields(s, cs, ce) {
                Err(e) => Err(e),
                Ok(m) => Ok((m, ce)),
            }
        },
    }
}

/// Decodes the fields of an abort-info record between `i` and `end`: the
/// enumerated abort source, whose only values are 0 and 1, then either the
/// end or the optional user-info element under its expected tag.
pub open spec fn spec_decode_abort_info_fields(s: Seq<u8>, i: int, end: int) -> Result<
    SpecAbortInfo,
    DecodingError,
>
    recommends
        0 <= i <= end <= s.len(),
{
    match spec_parse_enumerated(s, i, end, TAG_ABORTINFO_ABORT_SOURCE) {
        Err(e) => Err(e),
        Ok((v, j)) => if v != 0 && v != 1 {
            Err(DecodingError::InvalidEnumeratedValue)
        } else {
            let src = if v == 0 {
                CMIPAbortSource::CMISEServiceUser
            } else {
                CMIPAbortSource::CMISEServiceProvider
            };
            if j == end {
                Ok(SpecAbortInfo { abort_source: src, user_info: None })
            } else if s[j] == TAG_ABORTINFO_USER_INFO {
                match spec_parse_open_value(s, j, end) {
                    Err(e) => Err(e),
                    Ok((ui, k)) => if k == end {
                        Ok(SpecAbortInfo { abort_source: src, user_info: Some(ui) })
                    } else {
                        Err(DecodingError::UnexpectedTag)
                    },
                }
            } else {
                Err(DecodingError::UnexpectedTag)
            }
        },
    }
}

/// Decodes one abort-info record at the start of `s`. Yields the record and
/// the number of octets it occupies; octets after the record are untouched.
pub open spec fn spec_decode_abort_info(s: Seq<u8>) -> Result<(SpecAbortInfo, int), DecodingError> {
    match spec_parse_element(s, 0, s.len() as int) {
        Err(e) => Err(e),
        Ok((t, cs, ce)) => if t != TAG_SEQUENCE {
            Err(DecodingError::MalformedPrimitive)
        } else {
            match spec_decode_abort_info_fields(s, cs, ce) {
                Err(e) => Err(e),
                Ok(m) => Ok((m, ce)),
            }
        },
    }
}

} // verus!
