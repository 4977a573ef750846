//! NFSv4 access control lists as typed data, and a decoder for the
//! line-oriented listing in which `nfs4_getfacl` prints them.
//!
//! A listing holds one entry per line, written as four fields:
//!
//! ```text
//! <type>:<flags>:<principal>:<permissions>
//! ```
//!
//! The last character of the type field is one of `A`, `D`, `U`, `L`; the
//! flags and the permissions are strings of letters, one for each bit; the
//! principal is taken as it stands. Empty lines and lines that begin with
//! `#` are passed over.
//!
//! [`Acl::parse`] decodes a listing and stops at the first line that is no
//! entry; [`Acl::parse_lenient`] decodes what it can and reports the lines
//! that it cannot. [`Acl::group_id_aces`] picks the entries of groups that
//! are named by their number.
//!
//! Every function here is verified against a contract over the text as a
//! sequence of characters: [`text::lines`] and [`text::split`] say what the
//! lines and the fields of a text are, [`decode::decode_entry`] what entry a
//! line denotes, and [`acl::entries`] and [`acl::rejections`] what a listing
//! holds.

pub mod ace;
pub mod ace_flags;
pub mod ace_permissions;
pub mod acl;
pub mod decode;
pub mod text;

pub use ace::{Ace, AcePrincipals, AceType, AceView};
pub use ace_flags::AceFlags;
pub use ace_permissions::AcePermissions;
pub use acl::Acl;
pub use decode::{DecodeError, DecodeErrorKind, DecodeErrorView};
