//! Executable encoders and decoders, proved against the wire model.
//!
//! Each encoder returns exactly the octet sequence the model assigns to its
//! record. Each decoder returns exactly what the model's reference decoder
//! returns on the same input, value and consumed-octet count alike.

use vstd::prelude::*;
use vstd::slice::slice_index_get;
use vstd::slice::slice_subrange;
use vstd::slice::slice_to_vec;

use crate::records::CMIPAbortInfo;
use crate::records::CMIPAbortSource;
use crate::records::CMIPUserInfo;
use crate::records::DecodingError;
use crate::records::OpenTypedValue;
use crate::records::open_value_view;
use crate::records::FUNCTIONAL_UNITS_LEN;
use crate::records::MAX_OPEN_VALUE_LEN;
use crate::records::PROTOCOL_VERSION_LEN;
use crate::wire::bit_string_contents;
use crate::wire::bit_string_tlv;
use crate::wire::len_octets;
use crate::wire::spec_abort_info_fields;
use crate::wire::spec_abort_info_wire;
use crate::wire::spec_decode_abort_info;
use crate::wire::spec_decode_user_info;
use crate::wire::spec_decode_user_info_tail;
use crate::wire::spec_parse_bit_string;
use crate::wire::spec_parse_element;
use crate::wire::spec_parse_enumerated;
use crate::wire::spec_parse_len;
use crate::wire::spec_parse_open_value;
use crate::wire::spec_user_info_fields;
use crate::wire::spec_user_info_wire;
use crate::wire::tlv;
use crate::wire::MAX_CONTENTS_LEN;
use crate::wire::TAG_ABORTINFO_ABORT_SOURCE;
use crate::wire::TAG_ABORTINFO_USER_INFO;
use crate::wire::TAG_SEQUENCE;
use crate::wire::TAG_USERINFO_ACCESS_CONTROL;
use crate::wire::TAG_USERINFO_FUNCTIONAL_UNITS;
use crate::wire::TAG_USERINFO_PROTOCOL_VERSION;
use crate::wire::TAG_USERINFO_USER_INFO;

verus! {

/// Appends the shortest definite length octets for `n`.
fn push_len(out: &mut Vec<u8>, n: usize)
    requires
        n < MAX_CONTENTS_LEN,
    ensures
        final(out)@ == old(out)@ + len_octets(n as int),
{
    if n < 0x80 {
        out.push(n as u8);
    } else if n < 0x100 {
        out.push(0x81);
        out.push(n as u8);
    } else if n < 0x10000 {
        out.push(0x82);
        out.push((n / 0x100) as u8);
        out.push((n % 0x100) as u8);
    } else {
        out.push(0x83);
        out.push((n / 0x10000) as u8);
        out.push(((n / 0x100) % 0x100) as u8);
        out.push((n % 0x100) as u8);
    }
    proof {
        assert(out@ =~= old(out)@ + len_octets(n as int));
    }
}

/// Appends every octet of `data`.
fn push_all(out: &mut Vec<u8>, data: &Vec<u8>)
    ensures
        final(out)@ == old(out)@ + data@,
{
    let ghost entry = out@;
    let mut k: usize = 0;
    while k < data.len()
        invariant
            k <= data@.len(),
            out@ == entry + data@.subrange(0, k as int),
        decreases data@.len() - k,
    {
        out.push(data[k]);
        proof {
            assert(data@.subrange(0, k + 1 as int) =~= data@.subrange(0, k as int) + seq![
                data@[k as int],
            ]);
            assert(out@ =~= entry + data@.subrange(0, k + 1 as int));
        }
        k = k + 1;
    }
    proof {
        assert(data@.subrange(0, data@.len() as int) =~= data@);
    }
}

/// Appends one element: tag octet, length octets, contents.
fn push_tlv(out: &mut Vec<u8>, tag: u8, contents: &Vec<u8>)
    requires
        contents@.len() < MAX_CONTENTS_LEN,
    ensures
        final(out)@ == old(out)@ + tlv(tag, contents@),
{
    out.push(tag);
    push_len(out, contents.len());
    push_all(out, contents);
    proof {
        assert(out@ =~= old(out)@ + tlv(tag, contents@));
    }
}

/// Appends one bit-string element: tag octet, length octets, a zero
/// unused-bits octet, the bitmap octets.
fn push_bit_string(out: &mut Vec<u8>, tag: u8, bytes: &Vec<u8>)
    requires
        bytes@.len() + 1 < MAX_CONTENTS_LEN,
    ensures
        final(out)@ == old(out)@ + bit_string_tlv(tag, bytes@),
{
    out.push(tag);
    push_len(out, bytes.len() + 1);
    out.push(0);
    push_all(out, bytes);
    proof {
        assert(bit_string_contents(bytes@).len() == bytes@.len() + 1);
        assert(out@ =~= old(out)@ + bit_string_tlv(tag, bytes@));
    }
}

/// Reads length octets at position `i`, never past `end`.
fn parse_len(s: &[u8], i: usize, end: usize) -> (r: Result<(usize, usize), DecodingError>)
    requires
        i <= end,
        end <= s@.len(),
    ensures
        match (r, spec_parse_len(s@, i as int, end as int)) {
            (Ok((l, j)), Ok((sl, sj))) => l as int == sl && j as int == sj && i < j <= end && l
                < MAX_CONTENTS_LEN,
            (Err(e), Err(se)) => e == se,
            _ => false,
        },
{
    if end - i < 1 {
        return Err(DecodingError::TruncatedInput);
    }
    let b0 = *slice_index_get(s, i);
    if b0 < 0x80 {
        Ok((b0 as usize, i + 1))
    } else if b0 == 0x81 {
        if end - i < 2 {
            Err(DecodingError::TruncatedInput)
        } else {
            let b1 = *slice_index_get(s, i + 1);
            if b1 < 0x80 {
                Err(DecodingError::MalformedPrimitive)
            } else {
                Ok((b1 as usize, i + 2))
            }
        }
    } else if b0 == 0x82 {
        if end - i < 3 {
            Err(DecodingError::TruncatedInput)
        } else {
            let b1 = *slice_index_get(s, i + 1);
            let b2 = *slice_index_get(s, i + 2);
            let n = (b1 as usize) * 0x100 + (b2 as usize);
            if n < 0x100 {
                Err(DecodingError::MalformedPrimitive)
            } else {
                Ok((n, i + 3))
            }
        }
    } else if b0 == 0x83 {
        if end - i < 4 {
            Err(DecodingError::TruncatedInput)
        } else {
            let b1 = *slice_index_get(s, i + 1);
            let b2 = *slice_index_get(s, i + 2);
            let b3 = *slice_index_get(s, i + 3);
            let n = (b1 as usize) * 0x10000 + (b2 as usize) * 0x100 + (b3 as usize);
            if n < 0x10000 {
                Err(DecodingError::MalformedPrimitive)
            } else {
                Ok((n, i + 4))
            }
        }
    } else {
        Err(DecodingError::MalformedPrimitive)
    }
}

/// Reads one element at position `i`: its tag and the bounds of its contents.
fn parse_element(s: &[u8], i: usize, end: usize) -> (r: Result<(u8, usize, usize), DecodingError>)
    requires
        i <= end,
        end <= s@.len(),
    ensures
        match (r, spec_parse_element(s@, i as int, end as int)) {
            (Ok((t, cs, ce)), Ok((st, scs, sce))) => t == st && cs as int == scs && ce as int
                == sce && i < cs <= ce <= end,
            (Err(e), Err(se)) => e == se,
            _ => false,
        },
{
    if end - i < 1 {
        return Err(DecodingError::TruncatedInput);
    }
    let tag = *slice_index_get(s, i);
    match parse_len(s, i + 1, end) {
        Err(e) => Err(e),
        Ok((l, cs)) => if l > end - cs {
            Err(DecodingError::TruncatedInput)
        } else {
            Ok((tag, cs, cs + l))
        },
    }
}

/// Reads a mandatory bit-string element of `width` bitmap octets.
fn parse_bit_string(s: &[u8], i: usize, end: usize, tag: u8, width: usize) -> (r: Result<
    (Vec<u8>, usize),
    DecodingError,
>)
    requires
        i <= end,
        end <= s@.len(),
        width < 0x80,
    ensures
        match (r, spec_parse_bit_string(s@, i as int, end as int, tag, width as int)) {
            (Ok((v, j)), Ok((sv, sj))) => v@ == sv && j as int == sj && i < j <= end && v@.len()
                == width,
            (Err(e), Err(se)) => e == se,
            _ => false,
        },
{
    match parse_element(s, i, end) {
        Err(e) => Err(e),
        Ok((t, cs, ce)) => {
            if t != tag {
                Err(DecodingError::MalformedPrimitive)
            } else if ce - cs != width + 1 {
                Err(DecodingError::MalformedPrimitive)
            } else if *slice_index_get(s, cs) != 0 {
                Err(DecodingError::MalformedPrimitive)
            } else {
                let bytes = slice_to_vec(slice_subrange(s, cs + 1, ce));
                Ok((bytes, ce))
            }
        },
    }
}

/// Reads an open-typed element whose tag the caller has already inspected.
fn parse_open_value(s: &[u8], i: usize, end: usize) -> (r: Result<
    (OpenTypedValue, usize),
    DecodingError,
>)
    requires
        i <= end,
        end <= s@.len(),
    ensures
        match (r, spec_parse_open_value(s@, i as int, end as int)) {
            (Ok((v, j)), Ok((sv, sj))) => v@ == sv && j as int == sj && i < j <= end && v.wf(),
            (Err(e), Err(se)) => e == se,
            _ => false,
        },
{
    match parse_element(s, i, end) {
        Err(e) => Err(e),
        Ok((t, cs, ce)) => {
            if ce - cs > MAX_OPEN_VALUE_LEN {
                Err(DecodingError::MalformedPrimitive)
            } else {
                let contents = slice_to_vec(slice_subrange(s, cs, ce));
                Ok((OpenTypedValue { contents }, ce))
            }
        },
    }
}

/// Reads a mandatory enumerated element; the contents are one octet.
fn parse_enumerated(s: &[u8], i: usize, end: usize, tag: u8) -> (r: Result<
    (u8, usize),
    DecodingError,
>)
    requires
        i <= end,
        end <= s@.len(),
    ensures
        match (r, spec_parse_enumerated(s@, i as int, end as int, tag)) {
            (Ok((v, j)), Ok((sv, sj))) => v == sv && j as int == sj && i < j <= end,
            (Err(e), Err(se)) => e == se,
            _ => false,
        },
{
    match parse_element(s, i, end) {
        Err(e) => Err(e),
        Ok((t, cs, ce)) => {
            if t != tag {
                Err(DecodingError::MalformedPrimitive)
            } else if ce - cs != 1 {
                Err(DecodingError::MalformedPrimitive)
            } else {
                Ok((*slice_index_get(s, cs), ce))
            }
        },
    }
}

/// Resolves the optional tail of a user-info record from the next tag alone.
fn decode_user_info_tail(s: &[u8], i: usize, end: usize) -> (r: Result<
    (Option<OpenTypedValue>, Option<OpenTypedValue>),
    DecodingError,
>)
    requires
        i <= end,
        end <= s@.len(),
    ensures
        match (r, spec_decode_user_info_tail(s@, i as int, end as int)) {
            (Ok((ac, ui)), Ok((sac, sui))) => open_value_view(ac) == sac && open_value_view(ui)
                == sui && (ac matches Some(a) ==> a.wf()) && (ui matches Some(u) ==> u.wf()),
            (Err(e), Err(se)) => e == se,
            _ => false,
        },
{
    if i == end {
        return Ok((None, None));
    }
    let t = *slice_index_get(s, i);
    if t == TAG_USERINFO_ACCESS_CONTROL {
        match parse_open_value(s, i, end) {
            Err(e) => Err(e),
            Ok((ac, j)) => {
                if j == end {
                    Ok((Some(ac), None))
                } else {
                    let t2 = *slice_index_get(s, j);
                    if t2 == TAG_USERINFO_USER_INFO {
                        match parse_open_value(s, j, end) {
                            Err(e) => Err(e),
                            Ok((ui, k)) => if k == end {
                                Ok((Some(ac), Some(ui)))
                            } else {
                                Err(DecodingError::UnexpectedTag)
                            },
                        }
                    } else {
                        Err(DecodingError::UnexpectedTag)
                    }
                }
            },
        }
    } else if t == TAG_USERINFO_USER_INFO {
        match parse_open_value(s, i, end) {
            Err(e) => Err(e),
            Ok((ui, k)) => if k == end {
                Ok((None, Some(ui)))
            } else {
                Err(DecodingError::UnexpectedTag)
            },
        }
    } else {
        Err(DecodingError::UnexpectedTag)
    }
}

impl CMIPUserInfo {
    /// Serializes the record: the two mandatory bitmaps under tags 0 and 1,
    /// then each optional payload under its tag only when present, the whole
    /// wrapped as one sequence element.
    pub fn encode(&self) -> (r: Vec<u8>)
        requires
            self.wf(),
        ensures
            r@ == spec_user_info_wire(self@),
    {
        let mut fields: Vec<u8> = Vec::new();
        push_bit_string(&mut fields, TAG_USERINFO_FUNCTIONAL_UNITS, &self.functional_units);
        push_bit_string(&mut fields, TAG_USERINFO_PROTOCOL_VERSION, &self.protocol_version);
        match &self.access_control {
            None => {},
            Some(a) => {
                push_tlv(&mut fields, TAG_USERINFO_ACCESS_CONTROL, &a.contents);
            },
        }
        match &self.user_info {
            None => {},
            Some(u) => {
                push_tlv(&mut fields, TAG_USERINFO_USER_INFO, &u.contents);
            },
        }
        proof {
            assert(fields@ =~= spec_user_info_fields(self@));
        }
        let mut out: Vec<u8> = Vec::new();
        push_tlv(&mut out, TAG_SEQUENCE, &fields);
        proof {
            assert(out@ =~= spec_user_info_wire(self@));
        }
        out
    }

    /// Decodes one user-info record at the start of `input`: the two
    /// mandatory bitmaps, then the optional tail resolved from the next tag
    /// alone. On success the record and the number of octets it occupied are
    /// returned, so a cursor advances exactly past the record.
    pub fn decode(input: &[u8]) -> (r: Result<(Self, usize), DecodingError>)
        ensures
            match (r, spec_decode_user_info(input@)) {
                (Ok((rec, n)), Ok((m, sn))) => rec@ == m && n as int == sn && n <= input@.len()
                    && rec.wf(),
                (Err(e), Err(se)) => e == se,
                _ => false,
            },
    {
        let end = input.len();
        match parse_element(input, 0, end) {
            Err(e) => Err(e),
            Ok((t, cs, ce)) => {
                if t != TAG_SEQUENCE {
                    return Err(DecodingError::MalformedPrimitive);
                }
                match parse_bit_string(input, cs, ce, TAG_USERINFO_FUNCTIONAL_UNITS, FUNCTIONAL_UNITS_LEN) {
                    Err(e) => Err(e),
                    Ok((fu, j)) => match parse_bit_string(
                        input,
                        j,
                        ce,
                        TAG_USERINFO_PROTOCOL_VERSION,
                        PROTOCOL_VERSION_LEN,
                    ) {
                        Err(e) => Err(e),
                        Ok((pv, k)) => match decode_user_info_tail(input, k, ce) {
                            Err(e) => Err(e),
                            Ok((ac, ui)) => Ok(
                                (
                                    CMIPUserInfo {
                                        functional_units: fu,
                                        protocol_version: pv,
                                        access_control: ac,
                                        user_info: ui,
                                    },
                                    ce,
                                ),
                            ),
                        },
                    },
                }
            },
        }
    }
}

impl CMIPAbortInfo {
    /// Serializes the record: the abort source as an enumerated value under
    /// tag 0, then the optional payload under tag 1 only when present, the
    /// whole wrapped as one sequence element.
    pub fn encode(&self) -> (r: Vec<u8>)
        requires
            self.wf(),
        ensures
            r@ == spec_abort_info_wire(self@),
    {
        let source_value: u8 = match self.abort_source {
            CMIPAbortSource::CMISEServiceUser => 0,
            CMIPAbortSource::CMISEServiceProvider => 1,
        };
        let mut enumerated: Vec<u8> = Vec::new();
        enumerated.push(source_value);
        let mut fields: Vec<u8> = Vec::new();
        push_tlv(&mut fields, TAG_ABORTINFO_ABORT_SOURCE, &enumerated);
        match &self.user_info {
            None => {},
            Some(u) => {
                push_tlv(&mut fields, TAG_ABORTINFO_USER_INFO, &u.contents);
            },
        }
        proof {
            assert(enumerated@ =~= seq![crate::records::abort_source_value(self.abort_source)]);
            assert(fields@ =~= spec_abort_info_fields(self@));
        }
        let mut out: Vec<u8> = Vec::new();
        push_tlv(&mut out, TAG_SEQUENCE, &fields);
        proof {
            assert(out@ =~= spec_abort_info_wire(self@));
        }
        out
    }

    /// Decodes one abort-info record at the start of `input`: the enumerated
    /// abort source, then the optional user-info payload if any element
    /// follows. On success the record and the number of octets it occupied
    /// are returned, so a cursor advances exactly past the record.
    pub fn decode(input: &[u8]) -> (r: Result<(Self, usize), DecodingError>)
        ensures
            match (r, spec_decode_abort_info(input@)) {
                (Ok((rec, n)), Ok((m, sn))) => rec@ == m && n as int == sn && n <= input@.len()
                    && rec.wf(),
                (Err(e), Err(se)) => e == se,
                _ => false,
            },
    {
        let end = input.len();
        match parse_element(input, 0, end) {
            Err(e) => Err(e),
            Ok((t, cs, ce)) => {
                if t != TAG_SEQUENCE {
                    return Err(DecodingError::MalformedPrimitive);
                }
                match parse_enumerated(input, cs, ce, TAG_ABORTINFO_ABORT_SOURCE) {
                    Err(e) => Err(e),
                    Ok((v, j)) => {
                        if v != 0 && v != 1 {
                            return Err(DecodingError::InvalidEnumeratedValue);
                        }
                        let abort_source = if v == 0 {
                            CMIPAbortSource::CMISEServiceUser
                        } else {
                            CMIPAbortSource::CMISEServiceProvider
                        };
                        if j == ce {
                            Ok((CMIPAbortInfo { abort_source, user_info: None }, ce))
                        } else {
                            let t2 = *slice_index_get(input, j);
                            if t2 == TAG_ABORTINFO_USER_INFO {
                                match parse_open_value(input, j, ce) {
                                    Err(e) => Err(e),
                                    Ok((ui, k)) => if k == ce {
                                        Ok(
                                            (
                                                CMIPAbortInfo {
                                                    abort_source,
                                                    user_info: Some(ui),
                                                },
                                                ce,
                                            ),
                                        )
                                    } else {
                                        Err(DecodingError::UnexpectedTag)
                                    },
                                }
                            } else {
                                Err(DecodingError::UnexpectedTag)
                            }
                        }
                    },
                }
            },
        }
    }
}

} // verus!
