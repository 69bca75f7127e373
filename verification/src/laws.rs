//! The codec's laws: how encoding and decoding relate on every record.
//!
//! The executable functions are proved equal to the wire model, so every law
//! is stated against the model: round trips for both records; soundness of
//! decoding, which makes the decoder accept exactly the valid encodings; the
//! fixed order of the optional fields, kept by the encoder and enforced by
//! the decoder; the closed abort-source domain; and failure on every
//! truncated encoding.

use vstd::arithmetic::div_mod::lemma_fundamental_div_mod;
use vstd::arithmetic::div_mod::lemma_fundamental_div_mod_converse;
use vstd::prelude::*;

use crate::records::CMIPAbortSource;
use crate::records::DecodingError;
use crate::records::SpecAbortInfo;
use crate::records::SpecUserInfo;
use crate::records::abort_source_value;
use crate::records::MAX_OPEN_VALUE_LEN;
use crate::wire::bit_string_contents;
use crate::wire::bit_string_tlv;
use crate::wire::len_octets;
use crate::wire::spec_abort_info_fields;
use crate::wire::spec_abort_info_wire;
use crate::wire::spec_decode_abort_info;
use crate::wire::spec_decode_abort_info_fields;
use crate::wire::spec_decode_user_info;
use crate::wire::spec_decode_user_info_fields;
use crate::wire::spec_decode_user_info_tail;
use crate::wire::spec_parse_bit_string;
use crate::wire::spec_parse_element;
use crate::wire::spec_parse_enumerated;
use crate::wire::spec_parse_len;
use crate::wire::spec_parse_open_value;
use crate::wire::spec_user_info_fields;
use crate::wire::spec_user_info_wire;
use crate::wire::tlv;
use crate::wire::MAX_CONTENTS_LEN;
use crate::wire::TAG_ABORTINFO_ABORT_SOURCE;
use crate::wire::TAG_ABORTINFO_USER_INFO;
use crate::wire::TAG_SEQUENCE;
use crate::wire::TAG_USERINFO_ACCESS_CONTROL;
use crate::wire::TAG_USERINFO_FUNCTIONAL_UNITS;
use crate::wire::TAG_USERINFO_PROTOCOL_VERSION;
use crate::wire::TAG_USERINFO_USER_INFO;

verus! {

/// How many octets the shortest definite length form for `n` takes.
pub open spec fn len_octets_len(n: int) -> int {
    if n < 0x80 {
        1
    } else if n < 0x100 {
        2
    } else if n < 0x10000 {
        3
    } else {
        4
    }
}

proof fn lemma_len_octets_len(n: int)
    requires
        0 <= n < MAX_CONTENTS_LEN,
    ensures
        len_octets(n).len() == len_octets_len(n),
        1 <= len_octets(n).len() <= 4,
{
}

/// Reading length octets back yields the length they were written from.
proof fn lemma_parse_len_at(s: Seq<u8>, i: int, end: int, n: int)
    requires
        0 <= n < MAX_CONTENTS_LEN,
        0 <= i,
        i + len_octets(n).len() <= end <= s.len(),
        s.subrange(i, i + len_octets(n).len() as int) == len_octets(n),
    ensures
        spec_parse_len(s, i, end) == Ok::<(int, int), DecodingError>(
            (n, i + len_octets(n).len()),
        ),
{
    let ll = len_octets(n).len() as int;
    assert(s[i] == len_octets(n)[0]) by {
        assert(s.subrange(i, i + ll)[0] == s[i]);
    }
    if ll >= 2 {
        assert(s[i + 1] == len_octets(n)[1]) by {
            assert(s.subrange(i, i + ll)[1] == s[i + 1]);
        }
    }
    if ll >= 3 {
        assert(s[i + 2] == len_octets(n)[2]) by {
            assert(s.subrange(i, i + ll)[2] == s[i + 2]);
        }
    }
    if ll >= 4 {
        assert(s[i + 3] == len_octets(n)[3]) by {
            assert(s.subrange(i, i + ll)[3] == s[i + 3]);
        }
    }
    if n < 0x80 {
        assert(s[i] == n as u8);
    } else if n < 0x100 {
        assert(s[i] == 0x81u8);
        assert(s[i + 1] == n as u8);
    } else if n < 0x10000 {
        assert(s[i] == 0x82u8);
        assert(s[i + 1] == (n / 0x100) as u8);
        assert(s[i + 2] == (n % 0x100) as u8);
        assert(0 <= n % 0x100 < 0x100 && 0 <= n / 0x100 < 0x100) by (nonlinear_arith)
            requires
                0x100 <= n < 0x10000,
        ;
        lemma_fundamental_div_mod(n, 0x100);
        assert((s[i + 1] as int) * 0x100 + (s[i + 2] as int) == n);
        assert(n >= 0x100);
    } else {
        assert(s[i] == 0x83u8);
        assert(len_octets(n)[1] == (n / 0x10000) as u8);
        let q1 = n / 0x100;
        let r1 = n % 0x100;
        let q2 = q1 / 0x100;
        let r2 = q1 % 0x100;
        assert(0 <= r1 < 0x100 && 0 <= r2 < 0x100 && 0 <= q1 && 0 <= q2 < 0x100)
            by (nonlinear_arith)
            requires
                0x10000 <= n < 0x1000000,
                q1 == n / 0x100,
                r1 == n % 0x100,
                q2 == q1 / 0x100,
                r2 == q1 % 0x100,
        ;
        lemma_fundamental_div_mod(n, 0x100);
        lemma_fundamental_div_mod(q1, 0x100);
        assert(n == q2 * 0x10000 + r2 * 0x100 + r1);
        lemma_fundamental_div_mod_converse(n, 0x10000, q2, r2 * 0x100 + r1);
        assert(q2 == n / 0x10000);
        assert(s[i + 1] == q2 as u8);
        assert(s[i + 2] == r2 as u8);
        assert(s[i + 3] == r1 as u8);
        assert((s[i + 1] as int) * 0x10000 + (s[i + 2] as int) * 0x100 + (s[i + 3] as int) == n);
        assert(n >= 0x10000);
    }
}

/// Reading an element back yields the tag and contents it was written from.
proof fn lemma_parse_element_at(s: Seq<u8>, i: int, end: int, tag: u8, c: Seq<u8>)
    requires
        c.len() < MAX_CONTENTS_LEN,
        0 <= i,
        i + tlv(tag, c).len() <= end <= s.len(),
        s.subrange(i, i + tlv(tag, c).len() as int) == tlv(tag, c),
    ensures
        spec_parse_element(s, i, end) == Ok::<(u8, int, int), DecodingError>(
            (tag, i + 1 + len_octets(c.len() as int).len(), i + tlv(tag, c).len()),
        ),
        s.subrange(
            i + 1 + len_octets(c.len() as int).len() as int,
            i + tlv(tag, c).len() as int,
        ) == c,
{
    let w = tlv(tag, c);
    let ll = len_octets(c.len() as int).len() as int;
    let wl = w.len() as int;
    assert(wl == 1 + ll + c.len());
    assert(s[i] == tag) by {
        assert(s.subrange(i, i + wl)[0] == s[i]);
        assert(w[0] == tag);
    }
    assert(s.subrange(i + 1, i + 1 + ll) =~= len_octets(c.len() as int)) by {
        assert forall|k: int| 0 <= k < ll implies s.subrange(i + 1, i + 1 + ll)[k] == len_octets(
            c.len() as int,
        )[k] by {
            assert(s.subrange(i, i + wl)[1 + k] == s[i + 1 + k]);
            assert(s.subrange(i + 1, i + 1 + ll)[k] == s[i + 1 + k]);
            assert(w[1 + k] == len_octets(c.len() as int)[k]);
        }
    }
    lemma_parse_len_at(s, i + 1, end, c.len() as int);
    assert(s.subrange(i + 1 + ll, i + wl) =~= c) by {
        assert forall|k: int| 0 <= k < c.len() implies s.subrange(i + 1 + ll, i + wl)[k] == c[k] by {
            assert(s.subrange(i, i + wl)[1 + ll + k] == s[i + (1 + ll + k)]);
            assert(s.subrange(i + 1 + ll, i + wl)[k] == s[i + 1 + ll + k]);
            assert(w[1 + ll + k] == c[k]);
        }
    }
}

/// Reading a bit-string element back yields the bitmap it was written from.
proof fn lemma_parse_bit_string_at(s: Seq<u8>, i: int, end: int, tag: u8, bytes: Seq<u8>)
    requires
        bytes.len() + 1 < MAX_CONTENTS_LEN,
        bytes.len() < 0x80,
        0 <= i,
        i + bit_string_tlv(tag, bytes).len() <= end <= s.len(),
        s.subrange(i, i + bit_string_tlv(tag, bytes).len() as int) == bit_string_tlv(tag, bytes),
    ensures
        spec_parse_bit_string(s, i, end, tag, bytes.len() as int) == Ok::<
            (Seq<u8>, int),
            DecodingError,
        >((bytes, i + bit_string_tlv(tag, bytes).len())),
{
    let c = bit_string_contents(bytes);
    lemma_parse_element_at(s, i, end, tag, c);
    let ll = len_octets(c.len() as int).len() as int;
    let cs = i + 1 + ll;
    let ce = i + tlv(tag, c).len();
    assert(s.subrange(cs, ce) == c);
    assert(s[cs] == c[0]) by {
        assert(s.subrange(cs, ce)[0] == s[cs]);
    }
    assert(c[0] == 0);
    assert(ce - cs == bytes.len() + 1);
    assert(s.subrange(cs + 1, ce) =~= bytes) by {
        assert forall|k: int| 0 <= k < bytes.len() implies s.subrange(cs + 1, ce)[k] == bytes[k] by {
            assert(s.subrange(cs, ce)[k + 1] == s[cs + 1 + k]);
            assert(c[k + 1] == bytes[k]);
        }
    }
}

/// Reading an open-typed element back yields the span it was written from.
proof fn lemma_parse_open_value_at(s: Seq<u8>, i: int, end: int, tag: u8, c: Seq<u8>)
    requires
        c.len() <= MAX_OPEN_VALUE_LEN,
        0 <= i,
        i + tlv(tag, c).len() <= end <= s.len(),
        s.subrange(i, i + tlv(tag, c).len() as int) == tlv(tag, c),
    ensures
        spec_parse_open_value(s, i, end) == Ok::<(Seq<u8>, int), DecodingError>(
            (c, i + tlv(tag, c).len()),
        ),
        s[i] == tag,
{
    lemma_parse_element_at(s, i, end, tag, c);
    assert(s[i] == tlv(tag, c)[0]) by {
        assert(s.subrange(i, i + tlv(tag, c).len() as int)[0] == s[i]);
    }
}

/// Reading an enumerated element back yields the value it was written from.
proof fn lemma_parse_enumerated_at(s: Seq<u8>, i: int, end: int, tag: u8, v: u8)
    requires
        0 <= i,
        i + 3 <= end <= s.len(),
        s.subrange(i, i + 3) == tlv(tag, seq![v]),
    ensures
        spec_parse_enumerated(s, i, end, tag) == Ok::<(u8, int), DecodingError>((v, i + 3)),
{
    let c = seq![v];
    assert(tlv(tag, c).len() == 3);
    lemma_parse_element_at(s, i, end, tag, c);
    assert(s.subrange(i + 2, i + 3) == c);
    assert(s[i + 2] == v) by {
        assert(s.subrange(i + 2, i + 3)[0] == s[i + 2]);
    }
}

/// A piece of an already-located span of `s` is itself located in `s`.
proof fn lemma_extract_piece(s: Seq<u8>, base: int, whole: Seq<u8>, off: int, piece: Seq<u8>)
    requires
        0 <= base,
        base + whole.len() <= s.len(),
        s.subrange(base, base + whole.len() as int) == whole,
        0 <= off,
        off + piece.len() <= whole.len(),
        forall|k: int| 0 <= k < piece.len() ==> whole[off + k] == piece[k],
    ensures
        s.subrange(base + off, base + off + piece.len() as int) == piece,
{
    assert(s.subrange(base + off, base + off + piece.len() as int) =~= piece) by {
        assert forall|k: int|
            0 <= k < piece.len() implies s.subrange(
            base + off,
            base + off + piece.len() as int,
        )[k] == piece[k] by {
            assert(s.subrange(base, base + whole.len() as int)[off + k] == s[base + off + k]);
            assert(s.subrange(base + off, base + off + piece.len() as int)[k] == s[base + off
                + k]);
            assert(whole[off + k] == piece[k]);
        }
    }
}

/// Round trip for the user-info record: decoding any encoded record, with any
/// octets following it, succeeds, returns an equal record, and consumes
/// exactly the record's octets. All four presence combinations of the two
/// optional fields are instances of this statement.
pub proof fn lemma_user_info_round_trip(m: SpecUserInfo, rest: Seq<u8>)
    requires
        m.wf(),
    ensures
        ({
            let w = spec_user_info_wire(m);
            spec_decode_user_info(w + rest) == Ok::<(SpecUserInfo, int), DecodingError>(
                (m, w.len() as int),
            )
        }),
{
    let fields = spec_user_info_fields(m);
    let w = spec_user_info_wire(m);
    let s = w + rest;
    let fl = fields.len() as int;
    let fu_t = bit_string_tlv(TAG_USERINFO_FUNCTIONAL_UNITS, m.functional_units);
    let pv_t = bit_string_tlv(TAG_USERINFO_PROTOCOL_VERSION, m.protocol_version);
    let ac_t = match m.access_control {
        Some(c) => tlv(TAG_USERINFO_ACCESS_CONTROL, c),
        None => Seq::<u8>::empty(),
    };
    let ui_t = match m.user_info {
        Some(c) => tlv(TAG_USERINFO_USER_INFO, c),
        None => Seq::<u8>::empty(),
    };
    assert(fu_t.len() == 7);
    assert(pv_t.len() == 5);
    if m.access_control is Some {
        lemma_len_octets_len(m.access_control->0.len() as int);
    }
    if m.user_info is Some {
        lemma_len_octets_len(m.user_info->0.len() as int);
    }
    assert(fl < MAX_CONTENTS_LEN);
    lemma_len_octets_len(fl);
    let ll0 = len_octets(fl).len() as int;
    let cs = 1 + ll0;
    let ce = w.len() as int;
    assert(ce == cs + fl);
    assert(s.subrange(0, ce) =~= w);
    lemma_parse_element_at(s, 0, s.len() as int, TAG_SEQUENCE, fields);
    assert(spec_parse_element(s, 0, s.len() as int) == Ok::<(u8, int, int), DecodingError>(
        (TAG_SEQUENCE, cs, ce),
    ));
    assert(s.subrange(cs, ce) == fields);

    // the functional-units bitmap at the start of the contents
    assert forall|k: int| 0 <= k < 7 implies fields[0 + k] == fu_t[k] by {}
    lemma_extract_piece(s, cs, fields, 0, fu_t);
    lemma_parse_bit_string_at(s, cs, ce, TAG_USERINFO_FUNCTIONAL_UNITS, m.functional_units);
    let p1 = cs + 7;

    // the protocol-version bitmap right after it
    assert forall|k: int| 0 <= k < 5 implies fields[7 + k] == pv_t[k] by {}
    lemma_extract_piece(s, cs, fields, 7, pv_t);
    lemma_parse_bit_string_at(s, p1, ce, TAG_USERINFO_PROTOCOL_VERSION, m.protocol_version);
    let p2 = p1 + 5;

    // the optional tail, one presence combination at a time
    match m.access_control {
        None => {
            match m.user_info {
                None => {
                    assert(p2 == ce);
                    assert(spec_decode_user_info_tail(s, p2, ce) == Ok::<
                        (Option<Seq<u8>>, Option<Seq<u8>>),
                        DecodingError,
                    >((None, None)));
                },
                Some(ui) => {
                    assert forall|k: int| 0 <= k < ui_t.len() implies fields[12 + k] == ui_t[k] by {}
                    lemma_extract_piece(s, cs, fields, 12, ui_t);
                    lemma_parse_open_value_at(s, p2, ce, TAG_USERINFO_USER_INFO, ui);
                    assert(p2 + ui_t.len() == ce);
                    assert(spec_decode_user_info_tail(s, p2, ce) == Ok::<
                        (Option<Seq<u8>>, Option<Seq<u8>>),
                        DecodingError,
                    >((None, Some(ui))));
                },
            }
        },
        Some(ac) => {
            assert forall|k: int| 0 <= k < ac_t.len() implies fields[12 + k] == ac_t[k] by {}
            lemma_extract_piece(s, cs, fields, 12, ac_t);
            lemma_parse_open_value_at(s, p2, ce, TAG_USERINFO_ACCESS_CONTROL, ac);
            let p3 = p2 + ac_t.len() as int;
            match m.user_info {
                None => {
                    assert(p3 == ce);
                    assert(spec_decode_user_info_tail(s, p2, ce) == Ok::<
                        (Option<Seq<u8>>, Option<Seq<u8>>),
                        DecodingError,
                    >((Some(ac), None)));
                },
                Some(ui) => {
                    assert forall|k: int|
                        0 <= k < ui_t.len() implies fields[12 + ac_t.len() + k] == ui_t[k] by {}
                    lemma_extract_piece(s, cs, fields, 12 + ac_t.len() as int, ui_t);
                    lemma_parse_open_value_at(s, p3, ce, TAG_USERINFO_USER_INFO, ui);
                    assert(p3 + ui_t.len() == ce);
                    assert(spec_decode_user_info_tail(s, p2, ce) == Ok::<
                        (Option<Seq<u8>>, Option<Seq<u8>>),
                        DecodingError,
                    >((Some(ac), Some(ui))));
                },
            }
        },
    }
    assert(spec_decode_user_info_fields(s, cs, ce) == Ok::<SpecUserInfo, DecodingError>(m));
}

/// Round trip for the abort-info record: decoding any encoded record, with
/// any octets following it, succeeds, returns an equal record, and consumes
/// exactly the record's octets.
pub proof fn lemma_abort_info_round_trip(m: SpecAbortInfo, rest: Seq<u8>)
    requires
        m.wf(),
    ensures
        ({
            let w = spec_abort_info_wire(m);
            spec_decode_abort_info(w + rest) == Ok::<(SpecAbortInfo, int), DecodingError>(
                (m, w.len() as int),
            )
        }),
{
    let fields = spec_abort_info_fields(m);
    let w = spec_abort_info_wire(m);
    let s = w + rest;
    let fl = fields.len() as int;
    let src_t = tlv(TAG_ABORTINFO_ABORT_SOURCE, seq![abort_source_value(m.abort_source)]);
    let ui_t = match m.user_info {
        Some(c) => tlv(TAG_ABORTINFO_USER_INFO, c),
        None => Seq::<u8>::empty(),
    };
    assert(src_t.len() == 3);
    if m.user_info is Some {
        lemma_len_octets_len(m.user_info->0.len() as int);
    }
    assert(fl < MAX_CONTENTS_LEN);
    lemma_len_octets_len(fl);
    let ll0 = len_octets(fl).len() as int;
    let cs = 1 + ll0;
    let ce = w.len() as int;
    assert(ce == cs + fl);
    assert(s.subrange(0, ce) =~= w);
    lemma_parse_element_at(s, 0, s.len() as int, TAG_SEQUENCE, fields);
    assert(s.subrange(cs, ce) == fields);

    // the enumerated abort source at the start of the contents
    assert forall|k: int| 0 <= k < 3 implies fields[0 + k] == src_t[k] by {}
    lemma_extract_piece(s, cs, fields, 0, src_t);
    lemma_parse_enumerated_at(s, cs, ce, TAG_ABORTINFO_ABORT_SOURCE, abort_source_value(m.abort_source));
    let p1 = cs + 3;

    match m.user_info {
        None => {
            assert(p1 == ce);
        },
        Some(ui) => {
            assert forall|k: int| 0 <= k < ui_t.len() implies fields[3 + k] == ui_t[k] by {}
            lemma_extract_piece(s, cs, fields, 3, ui_t);
            lemma_parse_open_value_at(s, p1, ce, TAG_ABORTINFO_USER_INFO, ui);
            assert(p1 + ui_t.len() == ce);
        },
    }
    assert(spec_decode_abort_info_fields(s, cs, ce) == Ok::<SpecAbortInfo, DecodingError>(m));
}

/// Length octets that parse successfully are the shortest form of the length
/// they carry.
proof fn lemma_parse_len_sound(s: Seq<u8>, i: int, end: int)
    requires
        0 <= i <= end <= s.len(),
        spec_parse_len(s, i, end) is Ok,
    ensures
        ({
            let (l, j) = spec_parse_len(s, i, end)->Ok_0;
            &&& 0 <= l < MAX_CONTENTS_LEN
            &&& i < j <= end
            &&& j - i == len_octets(l).len()
            &&& s.subrange(i, j) == len_octets(l)
        }),
{
    let b0 = s[i];
    if b0 < 0x80 {
        let l = b0 as int;
        assert(s.subrange(i, i + 1) =~= len_octets(l));
    } else if b0 == 0x81 {
        let l = s[i + 1] as int;
        assert(s.subrange(i, i + 2) =~= len_octets(l));
    } else if b0 == 0x82 {
        let b1 = s[i + 1] as int;
        let b2 = s[i + 2] as int;
        let l = b1 * 0x100 + b2;
        lemma_fundamental_div_mod_converse(l, 0x100, b1, b2);
        assert(s.subrange(i, i + 3) =~= len_octets(l));
    } else {
        let b1 = s[i + 1] as int;
        let b2 = s[i + 2] as int;
        let b3 = s[i + 3] as int;
        let l = b1 * 0x10000 + b2 * 0x100 + b3;
        assert(0 <= b2 * 0x100 + b3 < 0x10000);
        lemma_fundamental_div_mod_converse(l, 0x10000, b1, b2 * 0x100 + b3);
        lemma_fundamental_div_mod_converse(l, 0x100, b1 * 0x100 + b2, b3);
        lemma_fundamental_div_mod_converse(b1 * 0x100 + b2, 0x100, b1, b2);
        assert(s.subrange(i, i + 4) =~= len_octets(l));
    }
}

/// An element that parses successfully spans exactly the element the tag and
/// contents it yields encode to.
proof fn lemma_parse_element_sound(s: Seq<u8>, i: int, end: int)
    requires
        0 <= i <= end <= s.len(),
        spec_parse_element(s, i, end) is Ok,
    ensures
        ({
            let (t, cs, ce) = spec_parse_element(s, i, end)->Ok_0;
            &&& t == s[i]
            &&& i < cs <= ce <= end
            &&& ce - cs < MAX_CONTENTS_LEN
            &&& s.subrange(i, ce) == tlv(t, s.subrange(cs, ce))
        }),
{
    let (t, cs, ce) = spec_parse_element(s, i, end)->Ok_0;
    lemma_parse_len_sound(s, i + 1, end);
    let c = s.subrange(cs, ce);
    assert(c.len() == ce - cs);
    assert(s.subrange(i, ce) =~= seq![s[i]] + s.subrange(i + 1, cs) + s.subrange(cs, ce)) by {
        assert forall|k: int|
            0 <= k < ce - i implies s.subrange(i, ce)[k] == (seq![s[i]] + s.subrange(i + 1, cs)
            + s.subrange(cs, ce))[k] by {
            if k == 0 {
            } else if k < cs - i {
                assert(s.subrange(i + 1, cs)[k - 1] == s[i + k]);
            } else {
                assert(s.subrange(cs, ce)[k - (cs - i)] == s[i + k]);
            }
        }
    }
}

/// A bit string that parses successfully spans exactly the bit-string element
/// its bitmap encodes to.
proof fn lemma_parse_bit_string_sound(s: Seq<u8>, i: int, end: int, tag: u8, width: int)
    requires
        0 <= i <= end <= s.len(),
        0 <= width,
        spec_parse_bit_string(s, i, end, tag, width) is Ok,
    ensures
        ({
            let (v, j) = spec_parse_bit_string(s, i, end, tag, width)->Ok_0;
            &&& v.len() == width
            &&& i < j <= end
            &&& s.subrange(i, j) == bit_string_tlv(tag, v)
        }),
{
    let (t, cs, ce) = spec_parse_element(s, i, end)->Ok_0;
    lemma_parse_element_sound(s, i, end);
    let c = s.subrange(cs, ce);
    let v = s.subrange(cs + 1, ce);
    assert(c[0] == 0) by {
        assert(s.subrange(cs, ce)[0] == s[cs]);
    }
    assert(bit_string_contents(v) =~= c) by {
        assert forall|k: int| 0 <= k < c.len() implies bit_string_contents(v)[k] == c[k] by {
            if k > 0 {
                assert(s.subrange(cs + 1, ce)[k - 1] == s[cs + k]);
                assert(s.subrange(cs, ce)[k] == s[cs + k]);
            }
        }
    }
}

/// An open-typed element that parses successfully spans exactly the element
/// its contents encode to under the tag found on the wire.
proof fn lemma_parse_open_value_sound(s: Seq<u8>, i: int, end: int)
    requires
        0 <= i <= end <= s.len(),
        spec_parse_open_value(s, i, end) is Ok,
    ensures
        ({
            let (c, j) = spec_parse_open_value(s, i, end)->Ok_0;
            &&& c.len() <= MAX_OPEN_VALUE_LEN
            &&& i < j <= end
            &&& s.subrange(i, j) == tlv(s[i], c)
        }),
{
    lemma_parse_element_sound(s, i, end);
}

/// An enumerated element that parses successfully spans exactly the element
/// its value encodes to.
proof fn lemma_parse_enumerated_sound(s: Seq<u8>, i: int, end: int, tag: u8)
    requires
        0 <= i <= end <= s.len(),
        spec_parse_enumerated(s, i, end, tag) is Ok,
    ensures
        ({
            let (v, j) = spec_parse_enumerated(s, i, end, tag)->Ok_0;
            &&& i < j <= end
            &&& j == i + 3
            &&& s.subrange(i, j) == tlv(tag, seq![v])
        }),
{
    let (t, cs, ce) = spec_parse_element(s, i, end)->Ok_0;
    lemma_parse_element_sound(s, i, end);
    assert(s.subrange(cs, ce) =~= seq![s[cs]]) by {
        assert(s.subrange(cs, ce)[0] == s[cs]);
    }
}

/// A user-info optional tail that parses successfully spans exactly what its
/// two resolved fields encode to, in the fixed tag-2-then-tag-3 order.
proof fn lemma_user_info_tail_sound(s: Seq<u8>, i: int, end: int)
    requires
        0 <= i <= end <= s.len(),
        spec_decode_user_info_tail(s, i, end) is Ok,
    ensures
        ({
            let (ac, ui) = spec_decode_user_info_tail(s, i, end)->Ok_0;
            &&& crate::records::open_value_opt_wf(ac)
            &&& crate::records::open_value_opt_wf(ui)
            &&& s.subrange(i, end) == (match ac {
                Some(c) => tlv(TAG_USERINFO_ACCESS_CONTROL, c),
                None => Seq::<u8>::empty(),
            }) + (match ui {
                Some(c) => tlv(TAG_USERINFO_USER_INFO, c),
                None => Seq::<u8>::empty(),
            })
        }),
{
    let (ac, ui) = spec_decode_user_info_tail(s, i, end)->Ok_0;
    let ac_t = match ac {
        Some(c) => tlv(TAG_USERINFO_ACCESS_CONTROL, c),
        None => Seq::<u8>::empty(),
    };
    let ui_t = match ui {
        Some(c) => tlv(TAG_USERINFO_USER_INFO, c),
        None => Seq::<u8>::empty(),
    };
    if i == end {
        assert(s.subrange(i, end) =~= ac_t + ui_t);
    } else if s[i] == TAG_USERINFO_ACCESS_CONTROL {
        let (c1, j) = spec_parse_open_value(s, i, end)->Ok_0;
        lemma_parse_open_value_sound(s, i, end);
        if j == end {
            assert(s.subrange(i, end) =~= ac_t + ui_t);
        } else {
            let (c2, k) = spec_parse_open_value(s, j, end)->Ok_0;
            lemma_parse_open_value_sound(s, j, end);
            assert(s.subrange(i, end) =~= s.subrange(i, j) + s.subrange(j, end)) by {
                assert forall|k2: int|
                    0 <= k2 < end - i implies s.subrange(i, end)[k2] == (s.subrange(i, j)
                    + s.subrange(j, end))[k2] by {
                    if k2 < j - i {
                        assert(s.subrange(i, j)[k2] == s[i + k2]);
                    } else {
                        assert(s.subrange(j, end)[k2 - (j - i)] == s[i + k2]);
                    }
                }
            }
            assert(s.subrange(i, end) =~= ac_t + ui_t);
        }
    } else {
        let (c2, k) = spec_parse_open_value(s, i, end)->Ok_0;
        lemma_parse_open_value_sound(s, i, end);
        assert(s.subrange(i, end) =~= ac_t + ui_t);
    }
}

/// Decoding is sound: whenever the user-info decoder succeeds, the returned
/// record satisfies the record invariant and the consumed octets are exactly
/// that record's encoding. Together with the round trip this says the decoder
/// accepts precisely the valid encodings, and inverts the encoder on them.
pub proof fn lemma_user_info_decode_sound(s: Seq<u8>)
    requires
        spec_decode_user_info(s) is Ok,
    ensures
        ({
            let (m, n) = spec_decode_user_info(s)->Ok_0;
            &&& m.wf()
            &&& 0 < n <= s.len()
            &&& s.take(n) == spec_user_info_wire(m)
        }),
{
    let (m, n) = spec_decode_user_info(s)->Ok_0;
    let (t, cs, ce) = spec_parse_element(s, 0, s.len() as int)->Ok_0;
    lemma_parse_element_sound(s, 0, s.len() as int);
    let content = s.subrange(cs, ce);
    let (fu, j1) = spec_parse_bit_string(
        s,
        cs,
        ce,
        TAG_USERINFO_FUNCTIONAL_UNITS,
        crate::records::FUNCTIONAL_UNITS_LEN as int,
    )->Ok_0;
    lemma_parse_bit_string_sound(
        s,
        cs,
        ce,
        TAG_USERINFO_FUNCTIONAL_UNITS,
        crate::records::FUNCTIONAL_UNITS_LEN as int,
    );
    let (pv, j2) = spec_parse_bit_string(
        s,
        j1,
        ce,
        TAG_USERINFO_PROTOCOL_VERSION,
        crate::records::PROTOCOL_VERSION_LEN as int,
    )->Ok_0;
    lemma_parse_bit_string_sound(
        s,
        j1,
        ce,
        TAG_USERINFO_PROTOCOL_VERSION,
        crate::records::PROTOCOL_VERSION_LEN as int,
    );
    lemma_user_info_tail_sound(s, j2, ce);
    assert(content =~= s.subrange(cs, j1) + s.subrange(j1, j2) + s.subrange(j2, ce)) by {
        assert forall|k: int|
            0 <= k < ce - cs implies content[k] == (s.subrange(cs, j1) + s.subrange(j1, j2)
            + s.subrange(j2, ce))[k] by {
            if k < j1 - cs {
                assert(s.subrange(cs, j1)[k] == s[cs + k]);
            } else if k < j2 - cs {
                assert(s.subrange(j1, j2)[k - (j1 - cs)] == s[cs + k]);
            } else {
                assert(s.subrange(j2, ce)[k - (j2 - cs)] == s[cs + k]);
            }
            assert(content[k] == s[cs + k]);
        }
    }
    assert(spec_user_info_fields(m) == content);
    assert(s.take(n) == s.subrange(0, ce));
}

/// Decoding is sound: whenever the abort-info decoder succeeds, the returned
/// record satisfies the record invariant and the consumed octets are exactly
/// that record's encoding. Together with the round trip this says the decoder
/// accepts precisely the valid encodings, and inverts the encoder on them.
pub proof fn lemma_abort_info_decode_sound(s: Seq<u8>)
    requires
        spec_decode_abort_info(s) is Ok,
    ensures
        ({
            let (m, n) = spec_decode_abort_info(s)->Ok_0;
            &&& m.wf()
            &&& 0 < n <= s.len()
            &&& s.take(n) == spec_abort_info_wire(m)
        }),
{
    let (m, n) = spec_decode_abort_info(s)->Ok_0;
    let (t, cs, ce) = spec_parse_element(s, 0, s.len() as int)->Ok_0;
    lemma_parse_element_sound(s, 0, s.len() as int);
    let content = s.subrange(cs, ce);
    let (v, j1) = spec_parse_enumerated(s, cs, ce, TAG_ABORTINFO_ABORT_SOURCE)->Ok_0;
    lemma_parse_enumerated_sound(s, cs, ce, TAG_ABORTINFO_ABORT_SOURCE);
    assert(abort_source_value(m.abort_source) == v);
    let ui_t = match m.user_info {
        Some(c) => tlv(TAG_ABORTINFO_USER_INFO, c),
        None => Seq::<u8>::empty(),
    };
    if j1 == ce {
        assert(content =~= s.subrange(cs, j1) + ui_t);
    } else {
        lemma_parse_open_value_sound(s, j1, ce);
        assert(content =~= s.subrange(cs, j1) + s.subrange(j1, ce)) by {
            assert forall|k: int|
                0 <= k < ce - cs implies content[k] == (s.subrange(cs, j1) + s.subrange(
                j1,
                ce,
            ))[k] by {
                if k < j1 - cs {
                    assert(s.subrange(cs, j1)[k] == s[cs + k]);
                } else {
                    assert(s.subrange(j1, ce)[k - (j1 - cs)] == s[cs + k]);
                }
                assert(content[k] == s[cs + k]);
            }
        }
    }
    assert(spec_abort_info_fields(m) == content);
    assert(s.take(n) == s.subrange(0, ce));
}

/// The encoder keeps the fixed wire order of the optional fields: in every
/// encoding that carries both, the tag-2 element begins strictly before the
/// tag-3 element.
pub proof fn lemma_encoding_orders_optionals(m: SpecUserInfo)
    requires
        m.wf(),
        m.access_control is Some,
        m.user_info is Some,
    ensures
        ({
            let w = spec_user_info_wire(m);
            let head = 1 + len_octets(spec_user_info_fields(m).len() as int).len() as int;
            let ac_len = tlv(TAG_USERINFO_ACCESS_CONTROL, m.access_control->0).len() as int;
            &&& head + 12 < head + 12 + ac_len < w.len()
            &&& w[head + 12] == TAG_USERINFO_ACCESS_CONTROL
            &&& w[head + 12 + ac_len] == TAG_USERINFO_USER_INFO
        }),
{
    let fields = spec_user_info_fields(m);
    let w = spec_user_info_wire(m);
    let fl = fields.len() as int;
    let ac = m.access_control->0;
    let ui = m.user_info->0;
    let ac_t = tlv(TAG_USERINFO_ACCESS_CONTROL, ac);
    let ui_t = tlv(TAG_USERINFO_USER_INFO, ui);
    lemma_len_octets_len(ac.len() as int);
    lemma_len_octets_len(ui.len() as int);
    assert(fl < MAX_CONTENTS_LEN);
    lemma_len_octets_len(fl);
    let head = 1 + len_octets(fl).len() as int;
    assert(w.subrange(0, w.len() as int) =~= w);
    lemma_parse_element_at(w, 0, w.len() as int, TAG_SEQUENCE, fields);
    assert(w.subrange(head, w.len() as int) == fields);
    assert forall|k: int| 0 <= k < ac_t.len() implies fields[12 + k] == ac_t[k] by {}
    lemma_extract_piece(w, head, fields, 12, ac_t);
    assert(w[head + 12] == ac_t[0]) by {
        assert(w.subrange(head + 12, head + 12 + ac_t.len() as int)[0] == w[head + 12]);
    }
    assert forall|k: int|
        0 <= k < ui_t.len() implies fields[12 + ac_t.len() + k] == ui_t[k] by {}
    lemma_extract_piece(w, head, fields, 12 + ac_t.len() as int, ui_t);
    assert(w[head + 12 + ac_t.len()] == ui_t[0]) by {
        assert(w.subrange(
            head + 12 + ac_t.len(),
            head + 12 + ac_t.len() + ui_t.len() as int,
        )[0] == w[head + 12 + ac_t.len()]);
    }
}

/// The wire order of the optional user-info fields is fixed: a sequence that
/// carries the tag-3 element before the tag-2 element is rejected with an
/// unexpected tag, never read as a record with both fields present.
pub proof fn lemma_misordered_optionals_rejected(
    fu: Seq<u8>,
    pv: Seq<u8>,
    ac: Seq<u8>,
    ui: Seq<u8>,
)
    requires
        fu.len() == crate::records::FUNCTIONAL_UNITS_LEN,
        pv.len() == crate::records::PROTOCOL_VERSION_LEN,
        ac.len() <= MAX_OPEN_VALUE_LEN,
        ui.len() <= MAX_OPEN_VALUE_LEN,
    ensures
        ({
            let fields = bit_string_tlv(TAG_USERINFO_FUNCTIONAL_UNITS, fu) + bit_string_tlv(
                TAG_USERINFO_PROTOCOL_VERSION,
                pv,
            ) + tlv(TAG_USERINFO_USER_INFO, ui) + tlv(TAG_USERINFO_ACCESS_CONTROL, ac);
            spec_decode_user_info(tlv(TAG_SEQUENCE, fields)) == Err::<
                (SpecUserInfo, int),
                DecodingError,
            >(DecodingError::UnexpectedTag)
        }),
{
    let fu_t = bit_string_tlv(TAG_USERINFO_FUNCTIONAL_UNITS, fu);
    let pv_t = bit_string_tlv(TAG_USERINFO_PROTOCOL_VERSION, pv);
    let ui_t = tlv(TAG_USERINFO_USER_INFO, ui);
    let ac_t = tlv(TAG_USERINFO_ACCESS_CONTROL, ac);
    let fields = fu_t + pv_t + ui_t + ac_t;
    let s = tlv(TAG_SEQUENCE, fields);
    let fl = fields.len() as int;
    assert(fu_t.len() == 7);
    assert(pv_t.len() == 5);
    lemma_len_octets_len(ui.len() as int);
    lemma_len_octets_len(ac.len() as int);
    assert(fl < MAX_CONTENTS_LEN);
    lemma_len_octets_len(fl);
    let ll0 = len_octets(fl).len() as int;
    let cs = 1 + ll0;
    let ce = s.len() as int;
    assert(ce == cs + fl);
    assert(s.subrange(0, ce) =~= s);
    lemma_parse_element_at(s, 0, ce, TAG_SEQUENCE, fields);
    assert(s.subrange(cs, ce) == fields);
    assert forall|k: int| 0 <= k < 7 implies fields[0 + k] == fu_t[k] by {}
    lemma_extract_piece(s, cs, fields, 0, fu_t);
    lemma_parse_bit_string_at(s, cs, ce, TAG_USERINFO_FUNCTIONAL_UNITS, fu);
    let p1 = cs + 7;
    assert forall|k: int| 0 <= k < 5 implies fields[7 + k] == pv_t[k] by {}
    lemma_extract_piece(s, cs, fields, 7, pv_t);
    lemma_parse_bit_string_at(s, p1, ce, TAG_USERINFO_PROTOCOL_VERSION, pv);
    let p2 = p1 + 5;
    assert forall|k: int| 0 <= k < ui_t.len() implies fields[12 + k] == ui_t[k] by {}
    lemma_extract_piece(s, cs, fields, 12, ui_t);
    lemma_parse_open_value_at(s, p2, ce, TAG_USERINFO_USER_INFO, ui);
    let p3 = p2 + ui_t.len() as int;
    // the tag-2 element still follows, so the tail does not end where the
    // record must: the lookahead rejects it
    assert(p3 + ac_t.len() == ce);
    assert(ac_t.len() >= 2);
    assert(p3 != ce);
    assert(spec_decode_user_info_tail(s, p2, ce) == Err::<
        (Option<Seq<u8>>, Option<Seq<u8>>),
        DecodingError,
    >(DecodingError::UnexpectedTag));
}

/// The abort-source domain is closed: enumerated value 0 decodes to the
/// service-user source, 1 to the service-provider source, and every other
/// value is rejected as an invalid enumerated value.
pub proof fn lemma_abort_source_domain(v: u8)
    ensures
        ({
            let s = tlv(TAG_SEQUENCE, tlv(TAG_ABORTINFO_ABORT_SOURCE, seq![v]));
            &&& v == 0 ==> spec_decode_abort_info(s) == Ok::<(SpecAbortInfo, int), DecodingError>(
                (
                    SpecAbortInfo {
                        abort_source: CMIPAbortSource::CMISEServiceUser,
                        user_info: None,
                    },
                    s.len() as int,
                ),
            )
            &&& v == 1 ==> spec_decode_abort_info(s) == Ok::<(SpecAbortInfo, int), DecodingError>(
                (
                    SpecAbortInfo {
                        abort_source: CMIPAbortSource::CMISEServiceProvider,
                        user_info: None,
                    },
                    s.len() as int,
                ),
            )
            &&& v >= 2 ==> spec_decode_abort_info(s) == Err::<(SpecAbortInfo, int), DecodingError>(
                DecodingError::InvalidEnumeratedValue,
            )
        }),
{
    let fields = tlv(TAG_ABORTINFO_ABORT_SOURCE, seq![v]);
    let s = tlv(TAG_SEQUENCE, fields);
    assert(fields.len() == 3);
    let cs = 2;
    let ce = s.len() as int;
    assert(ce == 5);
    assert(s.subrange(0, ce) =~= s);
    lemma_parse_element_at(s, 0, ce, TAG_SEQUENCE, fields);
    assert(s.subrange(cs, ce) == fields);
    lemma_parse_enumerated_at(s, cs, ce, TAG_ABORTINFO_ABORT_SOURCE, v);
}

/// Every strict prefix of length octets reads as truncated input.
proof fn lemma_parse_len_truncated(s: Seq<u8>, i: int, end: int, n: int)
    requires
        0 <= n < MAX_CONTENTS_LEN,
        0 <= i <= end <= s.len(),
        end - i < len_octets(n).len(),
        forall|k: int| 0 <= k < end - i ==> s[i + k] == len_octets(n)[k],
    ensures
        spec_parse_len(s, i, end) == Err::<(int, int), DecodingError>(
            DecodingError::TruncatedInput,
        ),
{
    if i < end {
        assert(s[i + 0] == len_octets(n)[0]);
        assert(s[i] == len_octets(n)[0]);
    }
}

/// Every strict prefix of an element reads as truncated input.
proof fn lemma_tlv_truncated(tag: u8, c: Seq<u8>, n: int)
    requires
        c.len() < MAX_CONTENTS_LEN,
        0 <= n < tlv(tag, c).len(),
    ensures
        spec_parse_element(tlv(tag, c).take(n), 0, n) == Err::<(u8, int, int), DecodingError>(
            DecodingError::TruncatedInput,
        ),
{
    let w = tlv(tag, c);
    let s = w.take(n);
    let cl = c.len() as int;
    lemma_len_octets_len(cl);
    let ll = len_octets(cl).len() as int;
    assert(w.len() == 1 + ll + cl);
    if n == 0 {
    } else {
        assert(s[0] == w[0]);
        if n < 1 + ll {
            lemma_parse_len_truncated(s, 1, n, cl);
        } else {
            assert(s.subrange(1, 1 + ll) =~= len_octets(cl)) by {
                assert forall|k: int| 0 <= k < ll implies s.subrange(1, 1 + ll)[k] == len_octets(
                    cl,
                )[k] by {
                    assert(s.subrange(1, 1 + ll)[k] == s[1 + k]);
                    assert(s[1 + k] == w[1 + k]);
                }
            }
            lemma_parse_len_at(s, 1, n, cl);
            // the declared contents length runs past the cut
            assert(cl > n - (1 + ll));
        }
    }
}

/// Truncation is detected: every strict prefix of an encoded user-info
/// record, in particular one cut inside the mandatory fields, is rejected as
/// truncated input.
pub proof fn lemma_user_info_truncated(m: SpecUserInfo, n: int)
    requires
        m.wf(),
        0 <= n < spec_user_info_wire(m).len(),
    ensures
        spec_decode_user_info(spec_user_info_wire(m).take(n)) == Err::<
            (SpecUserInfo, int),
            DecodingError,
        >(DecodingError::TruncatedInput),
{
    let fields = spec_user_info_fields(m);
    if m.access_control is Some {
        lemma_len_octets_len(m.access_control->0.len() as int);
    }
    if m.user_info is Some {
        lemma_len_octets_len(m.user_info->0.len() as int);
    }
    assert(fields.len() < MAX_CONTENTS_LEN);
    lemma_tlv_truncated(TAG_SEQUENCE, fields, n);
}

/// Truncation is detected: every strict prefix of an encoded abort-info
/// record, in particular one cut inside the mandatory abort source, is
/// rejected as truncated input.
pub proof fn lemma_abort_info_truncated(m: SpecAbortInfo, n: int)
    requires
        m.wf(),
        0 <= n < spec_abort_info_wire(m).len(),
    ensures
        spec_decode_abort_info(spec_abort_info_wire(m).take(n)) == Err::<
            (SpecAbortInfo, int),
            DecodingError,
        >(DecodingError::TruncatedInput),
{
    let fields = spec_abort_info_fields(m);
    if m.user_info is Some {
        lemma_len_octets_len(m.user_info->0.len() as int);
    }
    assert(fields.len() < MAX_CONTENTS_LEN);
    lemma_tlv_truncated(TAG_SEQUENCE, fields, n);
}

} // verus!
