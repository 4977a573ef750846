//! Decoding one line of an access control listing into an entry.

use crate::ace::{Ace, AcePrincipals, AceType, AceView};
use crate::ace_flags::AceFlags;
use crate::ace_permissions::AcePermissions;
use crate::text::{chars_of, field_spans, span_texts, split, string_of};
use vstd::prelude::*;
use vstd::slice::slice_subrange;
use vstd::std_specs::cmp::PartialEqSpecImpl;

verus! {

/// Why a line is no entry.
#[derive(Clone, Copy, Debug, PartialEq, Eq, Structural)]
pub enum DecodeErrorKind {
    /// The line does not consist of exactly four fields.
    MalformedLine,
    /// The type field is empty or does not end in a type letter.
    UnknownTypeChar,
    /// The flags field holds a character that is no flag letter.
    UnknownFlagChar,
    /// The permissions field holds a character that is no permission letter.
    UnknownPermissionChar,
}

/// A line of a listing that is no entry: why, which line, and what it
/// holds.
#[derive(Debug)]
pub struct DecodeError {
    pub kind: DecodeErrorKind,
    /// The number of the line in the text, counted from one.
    pub line_number: usize,
    /// The line as it stands in the text, without its line ending.
    pub content: String,
}

impl Clone for DecodeError {
    fn clone(&self) -> (r: DecodeError)
        ensures
            r == *self,
    {
        DecodeError {
            kind: self.kind,
            line_number: self.line_number,
            content: self.content.clone(),
        }
    }
}

/// What a `DecodeError` says.
pub struct DecodeErrorView {
    pub kind: DecodeErrorKind,
    pub line_number: nat,
    pub content: Seq<char>,
}

impl View for DecodeError {
    type V = DecodeErrorView;

    open spec fn view(&self) -> DecodeErrorView {
        DecodeErrorView {
            kind: self.kind,
            line_number: self.line_number as nat,
            content: self.content@,
        }
    }
}

impl PartialEq for DecodeError {
    fn eq(&self, other: &DecodeError) -> (r: bool) {
        self.kind == other.kind && self.line_number == other.line_number && self.content
            == other.content
    }
}

impl Eq for DecodeError {

}

impl PartialEqSpecImpl for DecodeError {
    open spec fn obeys_eq_spec() -> bool {
        true
    }

    open spec fn eq_spec(&self, other: &DecodeError) -> bool {
        self@ == other@
    }
}

/// The field separator of an entry line.
pub const FIELD_SEPARATOR: char = ':';

/// The character that begins a comment line.
pub const COMMENT_MARKER: char = '#';

/// A line that holds no entry and is passed over: an empty line or a
/// comment.
pub open spec fn is_skipped(line: Seq<char>) -> bool {
    line.len() == 0 || line[0] == COMMENT_MARKER
}

/// The entry that a line denotes, or why it denotes none.
///
/// The line must consist of four fields: type, flags, principal and
/// permissions. The last character of the type field gives the kind of the
/// entry, the flags and permissions fields are strings of letters, and the
/// principal is taken as it stands. Of several faults the first in this
/// order is reported: the number of fields, the type, the flags, the
/// permissions.
pub open spec fn decode_entry(line: Seq<char>) -> Result<AceView, DecodeErrorKind> {
    let fields = split(line, FIELD_SEPARATOR);
    if fields.len() != 4 {
        Err(DecodeErrorKind::MalformedLine)
    } else if fields[0].len() == 0 || AceType::of_letter(fields[0].last()) is None {
        Err(DecodeErrorKind::UnknownTypeChar)
    } else if !AceFlags::all_letters(fields[1]) {
        Err(DecodeErrorKind::UnknownFlagChar)
    } else if !AcePermissions::all_letters(fields[3]) {
        Err(DecodeErrorKind::UnknownPermissionChar)
    } else {
        Ok(
            AceView {
                ace_type: AceType::of_letter(fields[0].last())->0,
                flags: AceFlags::union_of_letters(fields[1]),
                principal: fields[2],
                permissions: AcePermissions::union_of_letters(fields[3]),
            },
        )
    }
}

/// Whether a line is passed over.
pub fn skips(line: &[char]) -> (r: bool)
    ensures
        r == is_skipped(line@),
{
    line.len() == 0 || line[0] == COMMENT_MARKER
}

impl Ace {
    /// Decodes the characters of one entry line.
    pub fn decode(line: &[char]) -> (r: Result<Ace, DecodeErrorKind>)
        ensures
            match r {
                Ok(ace) => decode_entry(line@) == Ok::<AceView, DecodeErrorKind>(ace@),
                Err(kind) => decode_entry(line@) == Err::<AceView, DecodeErrorKind>(kind),
            },
    {
        let spans = field_spans(line, FIELD_SEPARATOR);
        let ghost fields = split(line@, FIELD_SEPARATOR);
        proof {
            assert(span_texts(line@, spans@).len() == spans@.len());
        }
        if spans.len() != 4 {
            return Err(DecodeErrorKind::MalformedLine);
        }
        proof {
            assert(fields[0] == span_texts(line@, spans@)[0]);
            assert(fields[1] == span_texts(line@, spans@)[1]);
            assert(fields[2] == span_texts(line@, spans@)[2]);
            assert(fields[3] == span_texts(line@, spans@)[3]);
        }
        let type_field = slice_subrange(line, spans[0].0, spans[0].1);
        if type_field.len() == 0 {
            return Err(DecodeErrorKind::UnknownTypeChar);
        }
        let ace_type = match AceType::from_letter(type_field[type_field.len() - 1]) {
            Some(ace_type) => ace_type,
            None => {
                return Err(DecodeErrorKind::UnknownTypeChar);
            },
        };
        let ace_flags = match AceFlags::from_letter_slice(
            slice_subrange(line, spans[1].0, spans[1].1),
        ) {
            Some(flags) => flags,
            None => {
                return Err(DecodeErrorKind::UnknownFlagChar);
            },
        };
        let ace_permissions = match AcePermissions::from_letter_slice(
            slice_subrange(line, spans[3].0, spans[3].1),
        ) {
            Some(permissions) => permissions,
            None => {
                return Err(DecodeErrorKind::UnknownPermissionChar);
            },
        };
        let principal = string_of(slice_subrange(line, spans[2].0, spans[2].1));
        Ok(Ace { ace_type, ace_flags, ace_principals: AcePrincipals(principal), ace_permissions })
    }

    /// Decodes one entry line.
    pub fn from_line(line: &str) -> (r: Result<Ace, DecodeErrorKind>)
        ensures
            match r {
                Ok(ace) => decode_entry(line@) == Ok::<AceView, DecodeErrorKind>(ace@),
                Err(kind) => decode_entry(line@) == Err::<AceView, DecodeErrorKind>(kind),
            },
    {
        let chars = chars_of(line);
        Ace::decode(chars.as_slice())
    }
}

/// A line that does not consist of exactly four fields, such as one whose
/// permissions field is missing, is malformed and denotes no entry.
pub proof fn lemma_wrong_field_count_is_malformed(line: Seq<char>)
    requires
        split(line, FIELD_SEPARATOR).len() != 4,
    ensures
        decode_entry(line) == Err::<AceView, DecodeErrorKind>(DecodeErrorKind::MalformedLine),
{
}

/// The flags and permissions of a decoded entry have no bit outside their
/// vocabularies.
pub proof fn lemma_decoded_entry_in_vocabulary(line: Seq<char>)
    requires
        decode_entry(line) is Ok,
    ensures
        AceFlags::in_vocabulary(decode_entry(line)->Ok_0.flags),
        AcePermissions::in_vocabulary(decode_entry(line)->Ok_0.permissions),
{
    let fields = split(line, FIELD_SEPARATOR);
    crate::ace_flags::lemma_letters_give_their_bits(fields[1], 'g');
    crate::ace_permissions::lemma_letters_give_their_bits(fields[3], 'r');
}

} // verus!
