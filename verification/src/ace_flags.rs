//! The inheritance and audit flags of an access control entry.

use crate::text::chars_of;
use vstd::prelude::*;
use vstd::std_specs::ops::BitOrSpecImpl;

verus! {

/// A set of entry flags, held as a bit mask in which only the seven defined
/// bits can be set.
#[derive(Clone, Copy, Debug, PartialEq, Eq, Structural)]
pub struct AceFlags {
    bits: u8,
}

impl View for AceFlags {
    type V = u8;

    /// The numeric form of the set: the bitwise or of its members' bits.
    closed spec fn view(&self) -> u8 {
        self.bits
    }
}

impl AceFlags {
    /// The principal is a group.
    pub const GROUP: u8 = 0x01;

    /// New directories below inherit the entry.
    pub const DIRECTORY_INHERIT: u8 = 0x02;

    /// New files below inherit the entry.
    pub const FILE_INHERIT: u8 = 0x04;

    /// Inheritance stops after one level.
    pub const NO_PROPAGATE_INHERIT: u8 = 0x08;

    /// The entry is only inherited and does not apply to the object itself.
    pub const INHERIT_ONLY: u8 = 0x10;

    /// Audit or alarm on successful access.
    pub const SUCCESSFUL_ACCESS: u8 = 0x20;

    /// Audit or alarm on failed access.
    pub const FAILED_ACCESS: u8 = 0x40;

    /// Every defined bit.
    pub const ALL: u8 = 0x7f;

    /// A mask is in the vocabulary when it sets no bit outside the defined
    /// seven.
    pub open spec fn in_vocabulary(bits: u8) -> bool {
        bits & Self::ALL == bits
    }

    /// The set's numeric form is in the vocabulary. Every set that the
    /// program holds is valid.
    #[verifier::type_invariant]
    pub closed spec fn is_valid(self) -> bool {
        Self::in_vocabulary(self.bits)
    }

    /// The set whose numeric form is `bits`.
    pub closed spec fn of_bits(bits: u8) -> AceFlags {
        AceFlags { bits }
    }

    /// The bit that a flag letter stands for.
    pub open spec fn bit_of_letter(c: char) -> Option<u8> {
        if c == 'g' {
            Some(Self::GROUP)
        } else if c == 'd' {
            Some(Self::DIRECTORY_INHERIT)
        } else if c == 'f' {
            Some(Self::FILE_INHERIT)
        } else if c == 'n' {
            Some(Self::NO_PROPAGATE_INHERIT)
        } else if c == 'i' {
            Some(Self::INHERIT_ONLY)
        } else if c == 'S' {
            Some(Self::SUCCESSFUL_ACCESS)
        } else if c == 'F' {
            Some(Self::FAILED_ACCESS)
        } else {
            None
        }
    }

    /// What a character adds to a set: its bit, or nothing where it is no
    /// flag letter.
    pub open spec fn letter_mask(c: char) -> u8 {
        match Self::bit_of_letter(c) {
            Some(bit) => bit,
            None => 0,
        }
    }

    /// Every character of `letters` is a flag letter.
    pub open spec fn all_letters(letters: Seq<char>) -> bool {
        forall|i: int| 0 <= i < letters.len() ==> Self::bit_of_letter(#[trigger] letters[i]) is Some
    }

    /// The union of the bits of `letters`, taken left to right.
    pub open spec fn union_of_letters(letters: Seq<char>) -> u8
        decreases letters.len(),
    {
        if letters.len() == 0 {
            0
        } else {
            Self::union_of_letters(letters.drop_last()) | Self::letter_mask(letters.last())
        }
    }

    /// The set that a string of flag letters denotes, if every character is
    /// a flag letter.
    pub open spec fn decode_letters(letters: Seq<char>) -> Option<u8> {
        if Self::all_letters(letters) {
            Some(Self::union_of_letters(letters))
        } else {
            None
        }
    }

    /// The set that a numeric form denotes, if the mask is in the
    /// vocabulary.
    pub open spec fn decode_bits(bits: u8) -> Option<AceFlags> {
        if Self::in_vocabulary(bits) {
            Some(Self::of_bits(bits))
        } else {
            None
        }
    }

    /// The set with no flag.
    pub fn empty() -> (r: AceFlags)
        ensures
            r@ == 0,
    {
        proof {
            lemma_masks_in_vocabulary();
        }
        AceFlags { bits: 0 }
    }

    /// The set that holds every flag.
    pub fn all() -> (r: AceFlags)
        ensures
            r@ == Self::ALL,
    {
        proof {
            lemma_masks_in_vocabulary();
        }
        AceFlags { bits: Self::ALL }
    }

    /// The set that holds only the group flag.
    pub fn group() -> (r: AceFlags)
        ensures
            r@ == Self::GROUP,
    {
        proof {
            lemma_masks_in_vocabulary();
        }
        AceFlags { bits: Self::GROUP }
    }

    /// The set that holds only the directory-inherit flag.
    pub fn directory_inherit() -> (r: AceFlags)
        ensures
            r@ == Self::DIRECTORY_INHERIT,
    {
        proof {
            lemma_masks_in_vocabulary();
        }
        AceFlags { bits: Self::DIRECTORY_INHERIT }
    }

    /// The set that holds only the file-inherit flag.
    pub fn file_inherit() -> (r: AceFlags)
        ensures
            r@ == Self::FILE_INHERIT,
    {
        proof {
            lemma_masks_in_vocabulary();
        }
        AceFlags { bits: Self::FILE_INHERIT }
    }

    /// The set that holds only the no-propagate-inherit flag.
    pub fn no_propagate_inherit() -> (r: AceFlags)
        ensures
            r@ == Self::NO_PROPAGATE_INHERIT,
    {
        proof {
            lemma_masks_in_vocabulary();
        }
        AceFlags { bits: Self::NO_PROPAGATE_INHERIT }
    }

    /// The set that holds only the inherit-only flag.
    pub fn inherit_only() -> (r: AceFlags)
        ensures
            r@ == Self::INHERIT_ONLY,
    {
        proof {
            lemma_masks_in_vocabulary();
        }
        AceFlags { bits: Self::INHERIT_ONLY }
    }

    /// The set that holds only the successful-access flag.
    pub fn successful_access() -> (r: AceFlags)
        ensures
            r@ == Self::SUCCESSFUL_ACCESS,
    {
        proof {
            lemma_masks_in_vocabulary();
        }
        AceFlags { bits: Self::SUCCESSFUL_ACCESS }
    }

    /// The set that holds only the failed-access flag.
    pub fn failed_access() -> (r: AceFlags)
        ensures
            r@ == Self::FAILED_ACCESS,
    {
        proof {
            lemma_masks_in_vocabulary();
        }
        AceFlags { bits: Self::FAILED_ACCESS }
    }

    /// The numeric form of the set. It never has a bit outside the
    /// vocabulary.
    pub fn bits(&self) -> (bits: u8)
        ensures
            bits == self@,
            Self::in_vocabulary(bits),
    {
        proof {
            use_type_invariant(self);
        }
        self.bits
    }

    /// The set with the given numeric form, unless the mask has a bit
    /// outside the vocabulary.
    pub fn from_bits(bits: u8) -> (r: Option<AceFlags>)
        ensures
            r == Self::decode_bits(bits),
            r matches Some(flags) ==> flags@ == bits,
    {
        if bits & Self::ALL == bits {
            Some(AceFlags { bits })
        } else {
            None
        }
    }

    /// The set of the defined bits of a mask; bits outside the vocabulary
    /// are dropped.
    pub fn from_bits_truncate(bits: u8) -> (r: AceFlags)
        ensures
            r@ == bits & Self::ALL,
    {
        proof {
            lemma_truncate_in_vocabulary(bits);
        }
        AceFlags { bits: bits & Self::ALL }
    }

    /// The single flag that a letter stands for, or `None` where the
    /// character is no flag letter.
    pub fn from_letter(c: char) -> (r: Option<AceFlags>)
        ensures
            match r {
                Some(flags) => Self::bit_of_letter(c) == Some(flags@),
                None => Self::bit_of_letter(c) is None,
            },
    {
        proof {
            lemma_masks_in_vocabulary();
        }
        match c {
            'g' => Some(AceFlags { bits: Self::GROUP }),
            'd' => Some(AceFlags { bits: Self::DIRECTORY_INHERIT }),
            'f' => Some(AceFlags { bits: Self::FILE_INHERIT }),
            'n' => Some(AceFlags { bits: Self::NO_PROPAGATE_INHERIT }),
            'i' => Some(AceFlags { bits: Self::INHERIT_ONLY }),
            'S' => Some(AceFlags { bits: Self::SUCCESSFUL_ACCESS }),
            'F' => Some(AceFlags { bits: Self::FAILED_ACCESS }),
            _ => None,
        }
    }

    /// The set that a slice of flag letters denotes, or `None` where a
    /// character is no flag letter.
    pub fn from_letter_slice(letters: &[char]) -> (r: Option<AceFlags>)
        ensures
            match r {
                Some(flags) => Self::decode_letters(letters@) == Some(flags@),
                None => Self::decode_letters(letters@) is None,
            },
    {
        let mut flags = AceFlags::empty();
        let mut i: usize = 0;
        while i < letters.len()
            invariant
                i <= letters.len(),
                Self::all_letters(letters@.take(i as int)),
                flags@ == Self::union_of_letters(letters@.take(i as int)),
            decreases letters.len() - i,
        {
            let ghost seen = letters@.take(i as int);
            let ghost next = letters@.take(i + 1);
            proof {
                assert(next.drop_last() == seen);
                assert(next.last() == letters@[i as int]);
            }
            match AceFlags::from_letter(letters[i]) {
                Some(flag) => {
                    flags = flags.union(flag);
                },
                None => {
                    return None;
                },
            }
            proof {
                assert forall|j: int| 0 <= j < next.len() implies Self::bit_of_letter(
                    #[trigger] next[j],
                ) is Some by {
                    if j < i {
                        assert(next[j] == seen[j]);
                    }
                }
            }
            i += 1;
        }
        proof {
            assert(letters@.take(i as int) == letters@);
        }
        Some(flags)
    }

    /// The set that a string of flag letters denotes, or `None` where a
    /// character is no flag letter.
    pub fn from_letters(letters: &str) -> (r: Option<AceFlags>)
        ensures
            match r {
                Some(flags) => Self::decode_letters(letters@) == Some(flags@),
                None => Self::decode_letters(letters@) is None,
            },
    {
        let chars = chars_of(letters);
        Self::from_letter_slice(chars.as_slice())
    }

    /// Whether the set holds no flag.
    pub fn is_empty(&self) -> (r: bool)
        ensures
            r == (self@ == 0),
    {
        self.bits == 0
    }

    /// Whether every flag of `other` is in the set.
    pub fn contains(&self, other: AceFlags) -> (r: bool)
        ensures
            r == (self@ & other@ == other@),
    {
        self.bits & other.bits == other.bits
    }

    /// The flags that are in either set.
    pub fn union(self, other: AceFlags) -> (r: AceFlags)
        ensures
            r@ == self@ | other@,
    {
        proof {
            use_type_invariant(self);
            use_type_invariant(other);
            lemma_union_in_vocabulary(self.bits, other.bits);
        }
        AceFlags { bits: self.bits | other.bits }
    }

    /// Adds the flags of `other` to the set.
    pub fn insert(&mut self, other: AceFlags)
        ensures
            final(self)@ == old(self)@ | other@,
    {
        *self = self.union(other);
    }
}

impl core::ops::BitOr for AceFlags {
    type Output = AceFlags;

    /// The union of two sets.
    fn bitor(self, rhs: AceFlags) -> (r: AceFlags)
        ensures
            r@ == self@ | rhs@,
    {
        proof {
            use_type_invariant(self);
            use_type_invariant(rhs);
            lemma_union_in_vocabulary(self.bits, rhs.bits);
        }
        AceFlags { bits: self.bits | rhs.bits }
    }
}

impl BitOrSpecImpl for AceFlags {
    open spec fn obeys_bitor_spec() -> bool {
        true
    }

    open spec fn bitor_req(self, rhs: AceFlags) -> bool {
        true
    }

    open spec fn bitor_spec(self, rhs: AceFlags) -> AceFlags {
        Self::of_bits(self@ | rhs@)
    }
}

/// Two sets with the same numeric form are the same set.
pub proof fn lemma_equal_by_bits(a: AceFlags, b: AceFlags)
    requires
        a@ == b@,
    ensures
        a == b,
{
}

/// Encoding a set and decoding the result gives the set back: the numeric
/// form of a set denotes that very set, whatever subset of the vocabulary
/// it is.
pub proof fn lemma_bits_round_trip(flags: AceFlags)
    requires
        flags.is_valid(),
    ensures
        AceFlags::decode_bits(flags@) == Some(flags),
{
}

/// Decoding a mask and encoding the result gives the mask back: a mask
/// denotes a set exactly when it is in the vocabulary, and it is then the
/// numeric form of that set.
pub proof fn lemma_mask_round_trip(bits: u8)
    ensures
        AceFlags::decode_bits(bits) is Some <==> AceFlags::in_vocabulary(bits),
        AceFlags::decode_bits(bits) matches Some(set) ==> set@ == bits && set.is_valid(),
{
}

/// Decoding a string of letters sets the bit of a flag letter exactly when
/// that letter occurs in the string, and sets no bit outside the
/// vocabulary.
pub proof fn lemma_letters_give_their_bits(letters: Seq<char>, c: char)
    ensures
        AceFlags::in_vocabulary(AceFlags::union_of_letters(letters)),
        AceFlags::bit_of_letter(c) matches Some(bit) ==> (AceFlags::union_of_letters(letters) & bit
            == bit <==> letters.contains(c)),
    decreases letters.len(),
{
    lemma_masks_in_vocabulary();
    let bit = AceFlags::letter_mask(c);
    if letters.len() == 0 {
        lemma_or_single_bit(0, 0, bit);
    } else {
        let before = letters.drop_last();
        let last = letters.last();
        lemma_letters_give_their_bits(before, c);
        lemma_union_in_vocabulary(
            AceFlags::union_of_letters(before),
            AceFlags::letter_mask(last),
        );
        lemma_or_single_bit(AceFlags::union_of_letters(before), AceFlags::letter_mask(last), bit);
        if AceFlags::bit_of_letter(c) is Some {
            if letters.contains(c) {
                let i = choose|i: int| 0 <= i < letters.len() && letters[i] == c;
                if i < before.len() {
                    assert(before[i] == c);
                }
            }
            if before.contains(c) {
                let i = choose|i: int| 0 <= i < before.len() && before[i] == c;
                assert(letters[i] == c);
            }
            if last == c {
                assert(letters[letters.len() - 1] == c);
            }
        }
    }
}

/// Neither the order of the letters nor their repetition matters: two
/// strings in which the same characters occur denote the same set.
pub proof fn lemma_letters_as_a_set(a: Seq<char>, b: Seq<char>)
    requires
        a.to_set() == b.to_set(),
    ensures
        AceFlags::decode_letters(a) == AceFlags::decode_letters(b),
        AceFlags::union_of_letters(a) == AceFlags::union_of_letters(b),
{
    assert forall|c: char| #[trigger] a.contains(c) == b.contains(c) by {
        assert(a.to_set().contains(c) == a.contains(c));
        assert(b.to_set().contains(c) == b.contains(c));
    }
    lemma_letters_give_their_bits(a, 'g');
    lemma_letters_give_their_bits(a, 'd');
    lemma_letters_give_their_bits(a, 'f');
    lemma_letters_give_their_bits(a, 'n');
    lemma_letters_give_their_bits(a, 'i');
    lemma_letters_give_their_bits(a, 'S');
    lemma_letters_give_their_bits(a, 'F');
    lemma_letters_give_their_bits(b, 'g');
    lemma_letters_give_their_bits(b, 'd');
    lemma_letters_give_their_bits(b, 'f');
    lemma_letters_give_their_bits(b, 'n');
    lemma_letters_give_their_bits(b, 'i');
    lemma_letters_give_their_bits(b, 'S');
    lemma_letters_give_their_bits(b, 'F');
    lemma_equal_bit_by_bit(AceFlags::union_of_letters(a), AceFlags::union_of_letters(b));
    if AceFlags::all_letters(a) {
        assert forall|j: int| 0 <= j < b.len() implies AceFlags::bit_of_letter(
            #[trigger] b[j],
        ) is Some by {
            assert(b.contains(b[j]));
            assert(a.contains(b[j]));
            let i = choose|i: int| 0 <= i < a.len() && a[i] == b[j];
            assert(AceFlags::bit_of_letter(a[i]) is Some);
        }
    }
    if AceFlags::all_letters(b) {
        assert forall|j: int| 0 <= j < a.len() implies AceFlags::bit_of_letter(
            #[trigger] a[j],
        ) is Some by {
            assert(a.contains(a[j]));
            assert(b.contains(a[j]));
            let i = choose|i: int| 0 <= i < b.len() && b[i] == a[j];
            assert(AceFlags::bit_of_letter(b[i]) is Some);
        }
    }
}

/// A mask that is one flag's bit, or no bit at all.
spec fn single_or_none(bits: u8) -> bool {
    bits == 0 || bits == 0x01 || bits == 0x02 || bits == 0x04 || bits == 0x08 || bits == 0x10
        || bits == 0x20 || bits == 0x40
}

/// Adding one flag's bit to a mask sets that bit and changes no other.
proof fn lemma_or_single_bit(a: u8, x: u8, m: u8)
    by (bit_vector)
    requires
        single_or_none(x),
        single_or_none(m),
    ensures
        ((a | x) & m == m) == ((a & m == m) || x == m),
        (0u8 & m == m) == (m == 0),
{
}

/// Two masks in the vocabulary that agree on each flag's bit are equal.
proof fn lemma_equal_bit_by_bit(a: u8, b: u8)
    by (bit_vector)
    requires
        a & 0x7f == a,
        b & 0x7f == b,
        (a & 0x01 == 0x01) == (b & 0x01 == 0x01),
        (a & 0x02 == 0x02) == (b & 0x02 == 0x02),
        (a & 0x04 == 0x04) == (b & 0x04 == 0x04),
        (a & 0x08 == 0x08) == (b & 0x08 == 0x08),
        (a & 0x10 == 0x10) == (b & 0x10 == 0x10),
        (a & 0x20 == 0x20) == (b & 0x20 == 0x20),
        (a & 0x40 == 0x40) == (b & 0x40 == 0x40),
    ensures
        a == b,
{
}

/// Each flag's bit, the empty mask and the full mask are in the vocabulary.
proof fn lemma_masks_in_vocabulary()
    ensures
        AceFlags::in_vocabulary(0),
        AceFlags::in_vocabulary(AceFlags::GROUP),
        AceFlags::in_vocabulary(AceFlags::DIRECTORY_INHERIT),
        AceFlags::in_vocabulary(AceFlags::FILE_INHERIT),
        AceFlags::in_vocabulary(AceFlags::NO_PROPAGATE_INHERIT),
        AceFlags::in_vocabulary(AceFlags::INHERIT_ONLY),
        AceFlags::in_vocabulary(AceFlags::SUCCESSFUL_ACCESS),
        AceFlags::in_vocabulary(AceFlags::FAILED_ACCESS),
        AceFlags::in_vocabulary(AceFlags::ALL),
{
    assert(0u8 & 0x7f == 0 && 0x01u8 & 0x7f == 0x01 && 0x02u8 & 0x7f == 0x02 && 0x04u8 & 0x7f
        == 0x04 && 0x08u8 & 0x7f == 0x08 && 0x10u8 & 0x7f == 0x10 && 0x20u8 & 0x7f == 0x20 && 0x40u8
        & 0x7f == 0x40 && 0x7fu8 & 0x7f == 0x7f) by (bit_vector);
}

proof fn lemma_truncate_in_vocabulary(bits: u8)
    ensures
        AceFlags::in_vocabulary(bits & AceFlags::ALL),
{
    assert((bits & 0x7f) & 0x7f == bits & 0x7f) by (bit_vector);
}

proof fn lemma_union_in_vocabulary(a: u8, b: u8)
    requires
        AceFlags::in_vocabulary(a),
        AceFlags::in_vocabulary(b),
    ensures
        AceFlags::in_vocabulary(a | b),
{
    assert((a | b) & 0x7f == a | b) by (bit_vector)
        requires
            a & 0x7f == a,
            b & 0x7f == b,
    ;
}

} // verus!
