//! The two association control records and the plain values they carry.
//!
//! Both records are pure data: fixed-width capability bitmaps, a closed
//! abort-source enumeration, and optional open-typed payloads whose internal
//! shape is resolved by a higher layer and is opaque here.

use vstd::prelude::*;

verus! {

/// Number of octets in the functional-units capability bitmap.
pub const FUNCTIONAL_UNITS_LEN: usize = 4;

/// Number of octets in the protocol-version bitmap.
pub const PROTOCOL_VERSION_LEN: usize = 2;

/// Largest open-typed payload the codec carries: its length must fit in the
/// two-octet long length form, so the enclosing record's length octets stay
/// within the three-octet form.
pub const MAX_OPEN_VALUE_LEN: usize = 0xFFFF;

/// Why a decode attempt was rejected.
#[derive(Clone, Copy, Debug, PartialEq, Eq, Structural)]
pub enum DecodingError {
    /// A mandatory field's tag or primitive shape does not conform.
    MalformedPrimitive,
    /// The tag found at a decision point matches none of the tags valid there.
    UnexpectedTag,
    /// An enumerated field's value lies outside its closed value set.
    InvalidEnumeratedValue,
    /// Fewer octets remain than the encoding claims to need.
    TruncatedInput,
}

/// The originator of an association abort.
#[derive(Clone, Copy, Debug, PartialEq, Eq, Structural)]
pub enum CMIPAbortSource {
    CMISEServiceUser,
    CMISEServiceProvider,
}

/// The enumerated integer each abort source is carried as on the wire.
pub open spec fn abort_source_value(s: CMIPAbortSource) -> u8 {
    match s {
        CMIPAbortSource::CMISEServiceUser => 0,
        CMIPAbortSource::CMISEServiceProvider => 1,
    }
}

/// A value of an externally identified type: the record only knows that it is
/// present, never its internal shape, so it is held as the opaque octet span
/// the external layer produced (type identifier and payload included).
#[derive(Clone, Debug, PartialEq, Eq)]
pub struct OpenTypedValue {
    pub contents: Vec<u8>,
}

impl View for OpenTypedValue {
    type V = Seq<u8>;

    open spec fn view(&self) -> Seq<u8> {
        self.contents@
    }
}

impl OpenTypedValue {
    /// The payload fits the codec's supported length forms.
    pub open spec fn wf(self) -> bool {
        self.contents@.len() <= MAX_OPEN_VALUE_LEN
    }

    /// Wraps an already-encoded open value.
    pub fn new(contents: Vec<u8>) -> (r: Self)
        requires
            contents@.len() <= MAX_OPEN_VALUE_LEN,
        ensures
            r@ == contents@,
            r.wf(),
    {
        OpenTypedValue { contents }
    }
}

/// The payload carried by an optional open-typed slot, if any.
pub open spec fn open_value_view(o: Option<OpenTypedValue>) -> Option<Seq<u8>> {
    match o {
        Some(v) => Some(v.contents@),
        None => None,
    }
}

pub open spec fn open_value_opt_wf(o: Option<Seq<u8>>) -> bool {
    match o {
        Some(c) => c.len() <= MAX_OPEN_VALUE_LEN,
        None => true,
    }
}

/// Mathematical model of an association user-info record.
pub struct SpecUserInfo {
    pub functional_units: Seq<u8>,
    pub protocol_version: Seq<u8>,
    pub access_control: Option<Seq<u8>>,
    pub user_info: Option<Seq<u8>>,
}

impl SpecUserInfo {
    pub open spec fn wf(self) -> bool {
        &&& self.functional_units.len() == FUNCTIONAL_UNITS_LEN
        &&& self.protocol_version.len() == PROTOCOL_VERSION_LEN
        &&& open_value_opt_wf(self.access_control)
        &&& open_value_opt_wf(self.user_info)
    }
}

/// Capability negotiation payload exchanged at association open: two mandatory
/// fixed-width bitmaps, then two optional open-typed payloads whose presence
/// the wire signals only through their tags.
#[derive(Clone, Debug, PartialEq, Eq)]
pub struct CMIPUserInfo {
    pub functional_units: Vec<u8>,
    pub protocol_version: Vec<u8>,
    pub access_control: Option<OpenTypedValue>,
    pub user_info: Option<OpenTypedValue>,
}

impl View for CMIPUserInfo {
    type V = SpecUserInfo;

    open spec fn view(&self) -> SpecUserInfo {
        SpecUserInfo {
            functional_units: self.functional_units@,
            protocol_version: self.protocol_version@,
            access_control: open_value_view(self.access_control),
            user_info: open_value_view(self.user_info),
        }
    }
}

impl CMIPUserInfo {
    pub open spec fn wf(self) -> bool {
        self@.wf()
    }

    pub fn new(
        functional_units: [u8; 4],
        protocol_version: [u8; 2],
        access_control: Option<OpenTypedValue>,
        user_info: Option<OpenTypedValue>,
    ) -> (r: Self)
        requires
            (access_control matches Some(a) ==> a.wf()),
            (user_info matches Some(u) ==> u.wf()),
        ensures
            r@ == (SpecUserInfo {
                functional_units: functional_units@,
                protocol_version: protocol_version@,
                access_control: open_value_view(access_control),
                user_info: open_value_view(user_info),
            }),
            r.wf(),
    {
        CMIPUserInfo {
            functional_units: vstd::slice::slice_to_vec(functional_units.as_slice()),
            protocol_version: vstd::slice::slice_to_vec(protocol_version.as_slice()),
            access_control,
            user_info,
        }
    }
}

impl Default for CMIPUserInfo {
    /// All functional units off, only the first protocol version on, no
    /// optional payloads.
    fn default() -> (r: Self)
        ensures
            r@ == (SpecUserInfo {
                functional_units: seq![0u8, 0u8, 0u8, 0u8],
                protocol_version: seq![1u8, 0u8],
                access_control: None,
                user_info: None,
            }),
            r.wf(),
    {
        let r = CMIPUserInfo::new([0, 0, 0, 0], [1, 0], None, None);
        proof {
            assert(r@.functional_units =~= seq![0u8, 0u8, 0u8, 0u8]);
            assert(r@.protocol_version =~= seq![1u8, 0u8]);
        }
        r
    }
}

/// Mathematical model of an association abort-info record.
pub struct SpecAbortInfo {
    pub abort_source: CMIPAbortSource,
    pub user_info: Option<Seq<u8>>,
}

impl SpecAbortInfo {
    pub open spec fn wf(self) -> bool {
        open_value_opt_wf(self.user_info)
    }
}

/// Reason payload carried when an association is forcibly terminated: a
/// mandatory abort source, then one optional open-typed payload.
#[derive(Clone, Debug, PartialEq, Eq)]
pub struct CMIPAbortInfo {
    pub abort_source: CMIPAbortSource,
    pub user_info: Option<OpenTypedValue>,
}

impl View for CMIPAbortInfo {
    type V = SpecAbortInfo;

    open spec fn view(&self) -> SpecAbortInfo {
        SpecAbortInfo {
            abort_source: self.abort_source,
            user_info: open_value_view(self.user_info),
        }
    }
}

impl CMIPAbortInfo {
    pub open spec fn wf(self) -> bool {
        self@.wf()
    }

    pub fn new(abort_source: CMIPAbortSource, user_info: Option<OpenTypedValue>) -> (r: Self)
        requires
            (user_info matches Some(u) ==> u.wf()),
        ensures
            r@ == (SpecAbortInfo {
                abort_source,
                user_info: open_value_view(user_info),
            }),
            r.wf(),
    {
        CMIPAbortInfo { abort_source, user_info }
    }
}

/// The well-known object identifier naming the user-info record type for
/// external dispatch.
pub fn cmip_userinfo_oid() -> (r: Vec<u32>)
    ensures
        r@ == seq![9u32, 1u32, 0u32, 1u32],
{
    let mut v: Vec<u32> = Vec::new();
    v.push(9);
    v.push(1);
    v.push(0);
    v.push(1);
    proof {
        assert(v@ =~= seq![9u32, 1u32, 0u32, 1u32]);
    }
    v
}

/// The well-known object identifier naming the abort-info record type for
/// external dispatch.
pub fn cmip_abortinfo_oid() -> (r: Vec<u32>)
    ensures
        r@ == seq![9u32, 1u32, 0u32, 2u32],
{
    let mut v: Vec<u32> = Vec::new();
    v.push(9);
    v.push(1);
    v.push(0);
    v.push(2);
    proof {
        assert(v@ =~= seq![9u32, 1u32, 0u32, 2u32]);
    }
    v
}

} // verus!
