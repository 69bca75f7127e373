//! Tag-driven encoder and decoder for the two control records exchanged while
//! a management-protocol association is set up or torn down: the user-info
//! record (capability negotiation) and the abort-info record (abort reason).
//! Optional fields carry no presence flag on the wire; the decoder resolves
//! presence by looking at the next tag alone, and that resolution policy is
//! stated and proved here.

pub mod codec;
pub mod laws;
pub mod records;
pub mod wire;

pub use records::CMIPAbortInfo;
pub use records::CMIPAbortSource;
pub use records::CMIPUserInfo;
pub use records::DecodingError;
pub use records::OpenTypedValue;
pub use records::cmip_abortinfo_oid;
pub use records::cmip_userinfo_oid;
