//! The permissions that an access control entry grants, denies, audits or
//! alarms on.

use crate::text::chars_of;
use vstd::prelude::*;
use vstd::std_specs::ops::BitOrSpecImpl;

verus! {

/// A set of permissions, held as a bit mask in which only the fourteen
/// defined bits can be set.
#[derive(Clone, Copy, Debug, PartialEq, Eq, Structural)]
pub struct AcePermissions {
    bits: u16,
}

impl View for AcePermissions {
    type V = u16;

    /// The numeric form of the set: the bitwise or of its members' bits.
    closed spec fn view(&self) -> u16 {
        self.bits
    }
}

impl AcePermissions {
    /// Read the data of a file, or list a directory.
    pub const READ_DATA: u16 = 0x0001;

    /// Write the data of a file, or create a file in a directory.
    pub const WRITE_DATA: u16 = 0x0002;

    /// Append data to a file, or create a subdirectory.
    pub const APPEND_DATA: u16 = 0x0004;

    /// Execute a file, or traverse a directory.
    pub const EXECUTE: u16 = 0x0008;

    /// Delete the object itself.
    pub const DELETE: u16 = 0x0010;

    /// Delete an entry of a directory.
    pub const DELETE_CHILD: u16 = 0x0020;

    /// Read the plain attributes.
    pub const READ_ATTRIBUTES: u16 = 0x0040;

    /// Write the plain attributes.
    pub const WRITE_ATTRIBUTES: u16 = 0x0080;

    /// Read the named attributes.
    pub const READ_NAMED_ATTRIBUTES: u16 = 0x0100;

    /// Write the named attributes.
    pub const WRITE_NAMED_ATTRIBUTES: u16 = 0x0200;

    /// Read the access control list.
    pub const READ_ACL: u16 = 0x0400;

    /// Write the access control list.
    pub const WRITE_ACL: u16 = 0x0800;

    /// Change the owner.
    pub const WRITE_OWNER: u16 = 0x1000;

    /// Use the object for synchronisation.
    pub const SYNCHRONIZE: u16 = 0x2000;

    /// Every defined bit.
    pub const ALL: u16 = 0x3fff;

    /// A mask is in the vocabulary when it sets no bit outside the defined
    /// fourteen.
    pub open spec fn in_vocabulary(bits: u16) -> bool {
        bits & Self::ALL == bits
    }

    /// The set's numeric form is in the vocabulary. Every set that the
    /// program holds is valid.
    #[verifier::type_invariant]
    pub closed spec fn is_valid(self) -> bool {
        Self::in_vocabulary(self.bits)
    }

    /// The set whose numeric form is `bits`.
    pub closed spec fn of_bits(bits: u16) -> AcePermissions {
        AcePermissions { bits }
    }

    /// The bit that a permission letter stands for.
    pub open spec fn bit_of_letter(c: char) -> Option<u16> {
        if c == 'r' {
            Some(Self::READ_DATA)
        } else if c == 'w' {
            Some(Self::WRITE_DATA)
        } else if c == 'a' {
            Some(Self::APPEND_DATA)
        } else if c == 'x' {
            Some(Self::EXECUTE)
        } else if c == 'd' {
            Some(Self::DELETE)
        } else if c == 'D' {
            Some(Self::DELETE_CHILD)
        } else if c == 't' {
            Some(Self::READ_ATTRIBUTES)
        } else if c == 'T' {
            Some(Self::WRITE_ATTRIBUTES)
        } else if c == 'n' {
            Some(Self::READ_NAMED_ATTRIBUTES)
        } else if c == 'N' {
            Some(Self::WRITE_NAMED_ATTRIBUTES)
        } else if c == 'c' {
            Some(Self::READ_ACL)
        } else if c == 'C' {
            Some(Self::WRITE_ACL)
        } else if c == 'o' {
            Some(Self::WRITE_OWNER)
        } else if c == 'y' {
            Some(Self::SYNCHRONIZE)
        } else {
            None
        }
    }

    /// What a character adds to a set: its bit, or nothing where it is no
    /// permission letter.
    pub open spec fn letter_mask(c: char) -> u16 {
        match Self::bit_of_letter(c) {
            Some(bit) => bit,
            None => 0,
        }
    }

    /// Every character of `letters` is a permission letter.
    pub open spec fn all_letters(letters: Seq<char>) -> bool {
        forall|i: int| 0 <= i < letters.len() ==> Self::bit_of_letter(#[trigger] letters[i]) is Some
    }

    /// The union of the bits of `letters`, taken left to right.
    pub open spec fn union_of_letters(letters: Seq<char>) -> u16
        decreases letters.len(),
    {
        if letters.len() == 0 {
            0
        } else {
            Self::union_of_letters(letters.drop_last()) | Self::letter_mask(letters.last())
        }
    }

    /// The set that a string of permission letters denotes, if every
    /// character is a permission letter.
    pub open spec fn decode_letters(letters: Seq<char>) -> Option<u16> {
        if Self::all_letters(letters) {
            Some(Self::union_of_letters(letters))
        } else {
            None
        }
    }

    /// The set that a numeric form denotes, if the mask is in the
    /// vocabulary.
    pub open spec fn decode_bits(bits: u16) -> Option<AcePermissions> {
        if Self::in_vocabulary(bits) {
            Some(Self::of_bits(bits))
        } else {
            None
        }
    }

    /// The set with no permission.
    pub fn empty() -> (r: AcePermissions)
        ensures
            r@ == 0,
    {
        proof {
            lemma_masks_in_vocabulary();
        }
        AcePermissions { bits: 0 }
    }

    /// The set that holds every permission.
    pub fn all() -> (r: AcePermissions)
        ensures
            r@ == Self::ALL,
    {
        proof {
            lemma_masks_in_vocabulary();
        }
        AcePermissions { bits: Self::ALL }
    }

    /// The set that holds only the read-data permission.
    pub fn read_data() -> (r: AcePermissions)
        ensures
            r@ == Self::READ_DATA,
    {
        proof {
            lemma_masks_in_vocabulary();
        }
        AcePermissions { bits: Self::READ_DATA }
    }

    /// The set that holds only the write-data permission.
    pub fn write_data() -> (r: AcePermissions)
        ensures
            r@ == Self::WRITE_DATA,
    {
        proof {
            lemma_masks_in_vocabulary();
        }
        AcePermissions { bits: Self::WRITE_DATA }
    }

    /// The set that holds only the append-data permission.
    pub fn append_data() -> (r: AcePermissions)
        ensures
            r@ == Self::APPEND_DATA,
    {
        proof {
            lemma_masks_in_vocabulary();
        }
        AcePermissions { bits: Self::APPEND_DATA }
    }

    /// The set that holds only the execute permission.
    pub fn execute() -> (r: AcePermissions)
        ensures
            r@ == Self::EXECUTE,
    {
        proof {
            lemma_masks_in_vocabulary();
        }
        AcePermissions { bits: Self::EXECUTE }
    }

    /// The set that holds only the delete permission.
    pub fn delete() -> (r: AcePermissions)
        ensures
            r@ == Self::DELETE,
    {
        proof {
            lemma_masks_in_vocabulary();
        }
        AcePermissions { bits: Self::DELETE }
    }

    /// The set that holds only the delete-child permission.
    pub fn delete_child() -> (r: AcePermissions)
        ensures
            r@ == Self::DELETE_CHILD,
    {
        proof {
            lemma_masks_in_vocabulary();
        }
        AcePermissions { bits: Self::DELETE_CHILD }
    }

    /// The set that holds only the read-attributes permission.
    pub fn read_attributes() -> (r: AcePermissions)
        ensures
            r@ == Self::READ_ATTRIBUTES,
    {
        proof {
            lemma_masks_in_vocabulary();
        }
        AcePermissions { bits: Self::READ_ATTRIBUTES }
    }

    /// The set that holds only the write-attributes permission.
    pub fn write_attributes() -> (r: AcePermissions)
        ensures
            r@ == Self::WRITE_ATTRIBUTES,
    {
        proof {
            lemma_masks_in_vocabulary();
        }
        AcePermissions { bits: Self::WRITE_ATTRIBUTES }
    }

    /// The set that holds only the read-named-attributes permission.
    pub fn read_named_attributes() -> (r: AcePermissions)
        ensures
            r@ == Self::READ_NAMED_ATTRIBUTES,
    {
        proof {
            lemma_masks_in_vocabulary();
        }
        AcePermissions { bits: Self::READ_NAMED_ATTRIBUTES }
    }

    /// The set that holds only the write-named-attributes permission.
    pub fn write_named_attributes() -> (r: AcePermissions)
        ensures
            r@ == Self::WRITE_NAMED_ATTRIBUTES,
    {
        proof {
            lemma_masks_in_vocabulary();
        }
        AcePermissions { bits: Self::WRITE_NAMED_ATTRIBUTES }
    }

    /// The set that holds only the read-ACL permission.
    pub fn read_acl() -> (r: AcePermissions)
        ensures
            r@ == Self::READ_ACL,
    {
        proof {
            lemma_masks_in_vocabulary();
        }
        AcePermissions { bits: Self::READ_ACL }
    }

    /// The set that holds only the write-ACL permission.
    pub fn write_acl() -> (r: AcePermissions)
        ensures
            r@ == Self::WRITE_ACL,
    {
        proof {
            lemma_masks_in_vocabulary();
        }
        AcePermissions { bits: Self::WRITE_ACL }
    }

    /// The set that holds only the write-owner permission.
    pub fn write_owner() -> (r: AcePermissions)
        ensures
            r@ == Self::WRITE_OWNER,
    {
        proof {
            lemma_masks_in_vocabulary();
        }
        AcePermissions { bits: Self::WRITE_OWNER }
    }

    /// The set that holds only the synchronize permission.
    pub fn synchronize() -> (r: AcePermissions)
        ensures
            r@ == Self::SYNCHRONIZE,
    {
        proof {
            lemma_masks_in_vocabulary();
        }
        AcePermissions { bits: Self::SYNCHRONIZE }
    }

    /// The numeric form of the set. It never has a bit outside the
    /// vocabulary.
    pub fn bits(&self) -> (bits: u16)
        ensures
            bits == self@,
            Self::in_vocabulary(bits),
    {
        proof {
            use_type_invariant(self);
        }
        self.bits
    }

    /// The set with the given numeric form, unless the mask has a bit
    /// outside the vocabulary.
    pub fn from_bits(bits: u16) -> (r: Option<AcePermissions>)
        ensures
            r == Self::decode_bits(bits),
            r matches Some(permissions) ==> permissions@ == bits,
    {
        if bits & Self::ALL == bits {
            Some(AcePermissions { bits })
        } else {
            None
        }
    }

    /// The set of the defined bits of a mask; bits outside the vocabulary
    /// are dropped.
    pub fn from_bits_truncate(bits: u16) -> (r: AcePermissions)
        ensures
            r@ == bits & Self::ALL,
    {
        proof {
            lemma_truncate_in_vocabulary(bits);
        }
        AcePermissions { bits: bits & Self::ALL }
    }

    /// The single permission that a letter stands for, or `None` where
    /// the character is no permission letter.
    pub fn from_letter(c: char) -> (r: Option<AcePermissions>)
        ensures
            match r {
                Some(permissions) => Self::bit_of_letter(c) == Some(permissions@),
                None => Self::bit_of_letter(c) is None,
            },
    {
        proof {
            lemma_masks_in_vocabulary();
        }
        match c {
            'r' => Some(AcePermissions { bits: Self::READ_DATA }),
            'w' => Some(AcePermissions { bits: Self::WRITE_DATA }),
            'a' => Some(AcePermissions { bits: Self::APPEND_DATA }),
            'x' => Some(AcePermissions { bits: Self::EXECUTE }),
            'd' => Some(AcePermissions { bits: Self::DELETE }),
            'D' => Some(AcePermissions { bits: Self::DELETE_CHILD }),
            't' => Some(AcePermissions { bits: Self::READ_ATTRIBUTES }),
            'T' => Some(AcePermissions { bits: Self::WRITE_ATTRIBUTES }),
            'n' => Some(AcePermissions { bits: Self::READ_NAMED_ATTRIBUTES }),
            'N' => Some(AcePermissions { bits: Self::WRITE_NAMED_ATTRIBUTES }),
            'c' => Some(AcePermissions { bits: Self::READ_ACL }),
            'C' => Some(AcePermissions { bits: Self::WRITE_ACL }),
            'o' => Some(AcePermissions { bits: Self::WRITE_OWNER }),
            'y' => Some(AcePermissions { bits: Self::SYNCHRONIZE }),
            _ => None,
        }
    }

    /// The set that a slice of permission letters denotes, or `None` where
    /// a character is no permission letter.
    pub fn from_letter_slice(letters: &[char]) -> (r: Option<AcePermissions>)
        ensures
            match r {
                Some(permissions) => Self::decode_letters(letters@) == Some(permissions@),
                None => Self::decode_letters(letters@) is None,
            },
    {
        let mut permissions = AcePermissions::empty();
        let mut i: usize = 0;
        while i < letters.len()
            invariant
                i <= letters.len(),
                Self::all_letters(letters@.take(i as int)),
                permissions@ == Self::union_of_letters(letters@.take(i as int)),
            decreases letters.len() - i,
        {
            let ghost seen = letters@.take(i as int);
            let ghost next = letters@.take(i + 1);
            proof {
                assert(next.drop_last() == seen);
                assert(next.last() == letters@[i as int]);
            }
            match AcePermissions::from_letter(letters[i]) {
                Some(permission) => {
                    permissions = permissions.union(permission);
                },
                None => {
                    return None;
                },
            }
            proof {
                assert forall|j: int| 0 <= j < next.len() implies Self::bit_of_letter(
                    #[trigger] next[j],
                ) is Some by {
                    if j < i {
                        assert(next[j] == seen[j]);
                    }
                }
            }
            i += 1;
        }
        proof {
            assert(letters@.take(i as int) == letters@);
        }
        Some(permissions)
    }

    /// The set that a string of permission letters denotes, or `None` where
    /// a character is no permission letter.
    pub fn from_letters(letters: &str) -> (r: Option<AcePermissions>)
        ensures
            match r {
                Some(permissions) => Self::decode_letters(letters@) == Some(permissions@),
                None => Self::decode_letters(letters@) is None,
            },
    {
        let chars = chars_of(letters);
        Self::from_letter_slice(chars.as_slice())
    }

    /// Whether the set holds no permission.
    pub fn is_empty(&self) -> (r: bool)
        ensures
            r == (self@ == 0),
    {
        self.bits == 0
    }

    /// Whether every permission of `other` is in the set.
    pub fn contains(&self, other: AcePermissions) -> (r: bool)
        ensures
            r == (self@ & other@ == other@),
    {
        self.bits & other.bits == other.bits
    }

    /// The permissions that are in either set.
    pub fn union(self, other: AcePermissions) -> (r: AcePermissions)
        ensures
            r@ == self@ | other@,
    {
        proof {
            use_type_invariant(self);
            use_type_invariant(other);
            lemma_union_in_vocabulary(self.bits, other.bits);
        }
        AcePermissions { bits: self.bits | other.bits }
    }

    /// Adds the permissions of `other` to the set.
    pub fn insert(&mut self, other: AcePermissions)
        ensures
            final(self)@ == old(self)@ | other@,
    {
        *self = self.union(other);
    }
}

impl core::ops::BitOr for AcePermissions {
    type Output = AcePermissions;

    /// The union of two sets.
    fn bitor(self, rhs: AcePermissions) -> (r: AcePermissions)
        ensures
            r@ == self@ | rhs@,
    {
        proof {
            use_type_invariant(self);
            use_type_invariant(rhs);
            lemma_union_in_vocabulary(self.bits, rhs.bits);
        }
        AcePermissions { bits: self.bits | rhs.bits }
    }
}

impl BitOrSpecImpl for AcePermissions {
    open spec fn obeys_bitor_spec() -> bool {
        true
    }

    open spec fn bitor_req(self, rhs: AcePermissions) -> bool {
        true
    }

    open spec fn bitor_spec(self, rhs: AcePermissions) -> AcePermissions {
        Self::of_bits(self@ | rhs@)
    }
}

/// Two sets with the same numeric form are the same set.
pub proof fn lemma_equal_by_bits(a: AcePermissions, b: AcePermissions)
    requires
        a@ == b@,
    ensures
        a == b,
{
}

/// Encoding a set and decoding the result gives the set back: the numeric
/// form of a set denotes that very set, whatever subset of the vocabulary
/// it is.
pub proof fn lemma_bits_round_trip(permissions: AcePermissions)
    requires
        permissions.is_valid(),
    ensures
        AcePermissions::decode_bits(permissions@) == Some(permissions),
{
}

/// Decoding a mask and encoding the result gives the mask back: a mask
/// denotes a set exactly when it is in the vocabulary, and it is then the
/// numeric form of that set.
pub proof fn lemma_mask_round_trip(bits: u16)
    ensures
        AcePermissions::decode_bits(bits) is Some <==> AcePermissions::in_vocabulary(bits),
        AcePermissions::decode_bits(bits) matches Some(set) ==> set@ == bits && set.is_valid(),
{
}

/// Decoding a string of letters sets the bit of a permission letter
/// exactly when that letter occurs in the string, and sets no bit outside
/// the vocabulary.
pub proof fn lemma_letters_give_their_bits(letters: Seq<char>, c: char)
    ensures
        AcePermissions::in_vocabulary(AcePermissions::union_of_letters(letters)),
        AcePermissions::bit_of_letter(c) matches Some(bit) ==> (AcePermissions::union_of_letters(
            letters,
        ) & bit == bit <==> letters.contains(c)),
    decreases letters.len(),
{
    lemma_masks_in_vocabulary();
    let bit = AcePermissions::letter_mask(c);
    if letters.len() == 0 {
        lemma_or_single_bit(0, 0, bit);
    } else {
        let before = letters.drop_last();
        let last = letters.last();
        lemma_letters_give_their_bits(before, c);
        lemma_union_in_vocabulary(
            AcePermissions::union_of_letters(before),
            AcePermissions::letter_mask(last),
        );
        lemma_or_single_bit(
            AcePermissions::union_of_letters(before),
            AcePermissions::letter_mask(last),
            bit,
        );
        if AcePermissions::bit_of_letter(c) is Some {
            if letters.contains(c) {
                let i = choose|i: int| 0 <= i < letters.len() && letters[i] == c;
                if i < before.len() {
                    assert(before[i] == c);
                }
            }
            if before.contains(c) {
                let i = choose|i: int| 0 <= i < before.len() && before[i] == c;
                assert(letters[i] == c);
            }
            if last == c {
                assert(letters[letters.len() - 1] == c);
            }
        }
    }
}

/// Neither the order of the letters nor their repetition matters: two
/// strings in which the same characters occur denote the same set.
pub proof fn lemma_letters_as_a_set(a: Seq<char>, b: Seq<char>)
    requires
        a.to_set() == b.to_set(),
    ensures
        AcePermissions::decode_letters(a) == AcePermissions::decode_letters(b),
        AcePermissions::union_of_letters(a) == AcePermissions::union_of_letters(b),
{
    assert forall|c: char| #[trigger] a.contains(c) == b.contains(c) by {
        assert(a.to_set().contains(c) == a.contains(c));
        assert(b.to_set().contains(c) == b.contains(c));
    }
    lemma_letters_give_their_bits(a, 'r');
    lemma_letters_give_their_bits(a, 'w');
    lemma_letters_give_their_bits(a, 'a');
    lemma_letters_give_their_bits(a, 'x');
    lemma_letters_give_their_bits(a, 'd');
    lemma_letters_give_their_bits(a, 'D');
    lemma_letters_give_their_bits(a, 't');
    lemma_letters_give_their_bits(a, 'T');
    lemma_letters_give_their_bits(a, 'n');
    lemma_letters_give_their_bits(a, 'N');
    lemma_letters_give_their_bits(a, 'c');
    lemma_letters_give_their_bits(a, 'C');
    lemma_letters_give_their_bits(a, 'o');
    lemma_letters_give_their_bits(a, 'y');
    lemma_letters_give_their_bits(b, 'r');
    lemma_letters_give_their_bits(b, 'w');
    lemma_letters_give_their_bits(b, 'a');
    lemma_letters_give_their_bits(b, 'x');
    lemma_letters_give_their_bits(b, 'd');
    lemma_letters_give_their_bits(b, 'D');
    lemma_letters_give_their_bits(b, 't');
    lemma_letters_give_their_bits(b, 'T');
    lemma_letters_give_their_bits(b, 'n');
    lemma_letters_give_their_bits(b, 'N');
    lemma_letters_give_their_bits(b, 'c');
    lemma_letters_give_their_bits(b, 'C');
    lemma_letters_give_their_bits(b, 'o');
    lemma_letters_give_their_bits(b, 'y');
    lemma_equal_bit_by_bit(
        AcePermissions::union_of_letters(a),
        AcePermissions::union_of_letters(b),
    );
    if AcePermissions::all_letters(a) {
        assert forall|j: int| 0 <= j < b.len() implies AcePermissions::bit_of_letter(
            #[trigger] b[j],
        ) is Some by {
            assert(b.contains(b[j]));
            assert(a.contains(b[j]));
            let i = choose|i: int| 0 <= i < a.len() && a[i] == b[j];
            assert(AcePermissions::bit_of_letter(a[i]) is Some);
        }
    }
    if AcePermissions::all_letters(b) {
        assert forall|j: int| 0 <= j < a.len() implies AcePermissions::bit_of_letter(
            #[trigger] a[j],
        ) is Some by {
            assert(a.contains(a[j]));
            assert(b.contains(a[j]));
            let i = choose|i: int| 0 <= i < b.len() && b[i] == a[j];
            assert(AcePermissions::bit_of_letter(b[i]) is Some);
        }
    }
}

/// A mask that is one permission's bit, or no bit at all.
spec fn single_or_none(bits: u16) -> bool {
    bits == 0
        || bits == 0x0001
        || bits == 0x0002
        || bits == 0x0004
        || bits == 0x0008
        || bits == 0x0010
        || bits == 0x0020
        || bits == 0x0040
        || bits == 0x0080
        || bits == 0x0100
        || bits == 0x0200
        || bits == 0x0400
        || bits == 0x0800
        || bits == 0x1000
        || bits == 0x2000
}

/// Adding one permission's bit to a mask sets that bit and changes no
/// other.
proof fn lemma_or_single_bit(a: u16, x: u16, m: u16)
    by (bit_vector)
    requires
        single_or_none(x),
        single_or_none(m),
    ensures
        ((a | x) & m == m) == ((a & m == m) || x == m),
        (0u16 & m == m) == (m == 0),
{
}

/// Two masks in the vocabulary that agree on each permission's bit are
/// equal.
proof fn lemma_equal_bit_by_bit(a: u16, b: u16)
    by (bit_vector)
    requires
        a & 0x3fff == a,
        b & 0x3fff == b,
        (a & 0x0001 == 0x0001) == (b & 0x0001 == 0x0001),
        (a & 0x0002 == 0x0002) == (b & 0x0002 == 0x0002),
        (a & 0x0004 == 0x0004) == (b & 0x0004 == 0x0004),
        (a & 0x0008 == 0x0008) == (b & 0x0008 == 0x0008),
        (a & 0x0010 == 0x0010) == (b & 0x0010 == 0x0010),
        (a & 0x0020 == 0x0020) == (b & 0x0020 == 0x0020),
        (a & 0x0040 == 0x0040) == (b & 0x0040 == 0x0040),
        (a & 0x0080 == 0x0080) == (b & 0x0080 == 0x0080),
        (a & 0x0100 == 0x0100) == (b & 0x0100 == 0x0100),
        (a & 0x0200 == 0x0200) == (b & 0x0200 == 0x0200),
        (a & 0x0400 == 0x0400) == (b & 0x0400 == 0x0400),
        (a & 0x0800 == 0x0800) == (b & 0x0800 == 0x0800),
        (a & 0x1000 == 0x1000) == (b & 0x1000 == 0x1000),
        (a & 0x2000 == 0x2000) == (b & 0x2000 == 0x2000),
    ensures
        a == b,
{
}

/// Each permission's bit, the empty mask and the full mask are in the
/// vocabulary.
proof fn lemma_masks_in_vocabulary()
    ensures
        AcePermissions::in_vocabulary(0),
        AcePermissions::in_vocabulary(AcePermissions::READ_DATA),
        AcePermissions::in_vocabulary(AcePermissions::WRITE_DATA),
        AcePermissions::in_vocabulary(AcePermissions::APPEND_DATA),
        AcePermissions::in_vocabulary(AcePermissions::EXECUTE),
        AcePermissions::in_vocabulary(AcePermissions::DELETE),
        AcePermissions::in_vocabulary(AcePermissions::DELETE_CHILD),
        AcePermissions::in_vocabulary(AcePermissions::READ_ATTRIBUTES),
        AcePermissions::in_vocabulary(AcePermissions::WRITE_ATTRIBUTES),
        AcePermissions::in_vocabulary(AcePermissions::READ_NAMED_ATTRIBUTES),
        AcePermissions::in_vocabulary(AcePermissions::WRITE_NAMED_ATTRIBUTES),
        AcePermissions::in_vocabulary(AcePermissions::READ_ACL),
        AcePermissions::in_vocabulary(AcePermissions::WRITE_ACL),
        AcePermissions::in_vocabulary(AcePermissions::WRITE_OWNER),
        AcePermissions::in_vocabulary(AcePermissions::SYNCHRONIZE),
        AcePermissions::in_vocabulary(AcePermissions::ALL),
{
    assert(0u16 & 0x3fff == 0
        && 0x0001u16 & 0x3fff == 0x0001
        && 0x0002u16 & 0x3fff == 0x0002
        && 0x0004u16 & 0x3fff == 0x0004
        && 0x0008u16 & 0x3fff == 0x0008
        && 0x0010u16 & 0x3fff == 0x0010
        && 0x0020u16 & 0x3fff == 0x0020
        && 0x0040u16 & 0x3fff == 0x0040
        && 0x0080u16 & 0x3fff == 0x0080
        && 0x0100u16 & 0x3fff == 0x0100
        && 0x0200u16 & 0x3fff == 0x0200
        && 0x0400u16 & 0x3fff == 0x0400
        && 0x0800u16 & 0x3fff == 0x0800
        && 0x1000u16 & 0x3fff == 0x1000
        && 0x2000u16 & 0x3fff == 0x2000
        && 0x3fffu16 & 0x3fff == 0x3fff) by (bit_vector);
}

proof fn lemma_truncate_in_vocabulary(bits: u16)
    ensures
        AcePermissions::in_vocabulary(bits & AcePermissions::ALL),
{
    assert((bits & 0x3fff) & 0x3fff == bits & 0x3fff) by (bit_vector);
}

proof fn lemma_union_in_vocabulary(a: u16, b: u16)
    requires
        AcePermissions::in_vocabulary(a),
        AcePermissions::in_vocabulary(b),
    ensures
        AcePermissions::in_vocabulary(a | b),
{
    assert((a | b) & 0x3fff == a | b) by (bit_vector)
        requires
            a & 0x3fff == a,
            b & 0x3fff == b,
    ;
}

} // verus!
