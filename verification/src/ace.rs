//! Access control entries: their kind, their principal and the entry itself.

use crate::ace_flags::AceFlags;
use crate::ace_permissions::AcePermissions;
use vstd::prelude::*;
use vstd::std_specs::cmp::PartialEqSpecImpl;

verus! {

/// The kind of an access control entry.
#[derive(Clone, Copy, Debug, PartialEq, Eq, Structural)]
pub enum AceType {
    Allow,
    Deny,
    Audit,
    Alarm,
}

impl AceType {
    /// The kind that a type letter stands for.
    pub open spec fn of_letter(c: char) -> Option<AceType> {
        if c == 'A' {
            Some(AceType::Allow)
        } else if c == 'D' {
            Some(AceType::Deny)
        } else if c == 'U' {
            Some(AceType::Audit)
        } else if c == 'L' {
            Some(AceType::Alarm)
        } else {
            None
        }
    }

    /// Reads a type letter: `A`, `D`, `U` or `L`. Any other character is
    /// no type letter.
    pub fn from_letter(c: char) -> (r: Option<AceType>)
        ensures
            r == Self::of_letter(c),
    {
        match c {
            'A' => Some(AceType::Allow),
            'D' => Some(AceType::Deny),
            'U' => Some(AceType::Audit),
            'L' => Some(AceType::Alarm),
            _ => None,
        }
    }
}

/// The subject of an entry: a user id, a group id or a symbolic name such
/// as `OWNER@`, kept as it was written.
#[derive(Debug)]
pub struct AcePrincipals(pub String);

impl Clone for AcePrincipals {
    fn clone(&self) -> (r: AcePrincipals)
        ensures
            r == *self,
    {
        AcePrincipals(self.0.clone())
    }
}

impl View for AcePrincipals {
    type V = Seq<char>;

    open spec fn view(&self) -> Seq<char> {
        self.0@
    }
}

impl PartialEq for AcePrincipals {
    fn eq(&self, other: &AcePrincipals) -> (r: bool) {
        self.0 == other.0
    }
}

impl Eq for AcePrincipals {

}

impl PartialEqSpecImpl for AcePrincipals {
    open spec fn obeys_eq_spec() -> bool {
        true
    }

    open spec fn eq_spec(&self, other: &AcePrincipals) -> bool {
        self@ == other@
    }
}

/// One access control entry.
#[derive(Debug)]
pub struct Ace {
    pub ace_type: AceType,
    pub ace_flags: AceFlags,
    pub ace_principals: AcePrincipals,
    pub ace_permissions: AcePermissions,
}

impl Clone for Ace {
    fn clone(&self) -> (r: Ace)
        ensures
            r == *self,
    {
        Ace {
            ace_type: self.ace_type,
            ace_flags: self.ace_flags,
            ace_principals: self.ace_principals.clone(),
            ace_permissions: self.ace_permissions,
        }
    }
}

/// What an entry says: its kind, the numeric forms of its flags and
/// permissions, and the text of its principal.
pub struct AceView {
    pub ace_type: AceType,
    pub flags: u8,
    pub principal: Seq<char>,
    pub permissions: u16,
}

impl View for Ace {
    type V = AceView;

    open spec fn view(&self) -> AceView {
        AceView {
            ace_type: self.ace_type,
            flags: self.ace_flags@,
            principal: self.ace_principals@,
            permissions: self.ace_permissions@,
        }
    }
}

impl PartialEq for Ace {
    /// Two entries are equal when all four fields are.
    fn eq(&self, other: &Ace) -> (r: bool) {
        proof {
            if self.ace_flags@ == other.ace_flags@ {
                crate::ace_flags::lemma_equal_by_bits(self.ace_flags, other.ace_flags);
            }
            if self.ace_permissions@ == other.ace_permissions@ {
                crate::ace_permissions::lemma_equal_by_bits(
                    self.ace_permissions,
                    other.ace_permissions,
                );
            }
        }
        self.ace_type == other.ace_type && self.ace_flags == other.ace_flags
            && self.ace_principals == other.ace_principals && self.ace_permissions
            == other.ace_permissions
    }
}

impl Eq for Ace {

}

impl PartialEqSpecImpl for Ace {
    open spec fn obeys_eq_spec() -> bool {
        true
    }

    open spec fn eq_spec(&self, other: &Ace) -> bool {
        self@ == other@
    }
}

} // verus!
