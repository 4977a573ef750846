//! Access control lists: decoding a listing and picking the group entries.

use crate::ace::{Ace, AceView};
use crate::ace_flags::AceFlags;
use crate::decode::{
    decode_entry, is_skipped, skips, DecodeError, DecodeErrorKind, DecodeErrorView,
    FIELD_SEPARATOR,
};
use crate::text::{
    chars_of, first_index, is_number, is_unsigned_integer, lemma_first_index,
    lemma_first_index_is_first, line_spans, lines, span_texts, split, string_of,
    without_carriage_return,
};
use vstd::prelude::*;
use vstd::slice::slice_subrange;

verus! {

/// An access control list: its entries in the order in which they are
/// evaluated.
#[derive(Debug)]
pub struct Acl {
    pub aces: Vec<Ace>,
}

/// What each entry of a sequence says.
pub open spec fn ace_views(aces: Seq<Ace>) -> Seq<AceView> {
    aces.map_values(|ace: Ace| ace@)
}

/// What each error of a sequence says.
pub open spec fn error_views(errors: Seq<DecodeError>) -> Seq<DecodeErrorView> {
    errors.map_values(|error: DecodeError| error@)
}

impl View for Acl {
    type V = Seq<AceView>;

    open spec fn view(&self) -> Seq<AceView> {
        ace_views(self.aces@)
    }
}

/// A line that denotes an entry.
pub open spec fn is_entry_line(line: Seq<char>) -> bool {
    !is_skipped(line) && decode_entry(line) is Ok
}

/// A line that is neither passed over nor denotes an entry.
pub open spec fn is_rejected_line(line: Seq<char>) -> bool {
    !is_skipped(line) && decode_entry(line) is Err
}

/// The test that picks the entry lines.
pub open spec fn picks_entry_lines() -> spec_fn(Seq<char>) -> bool {
    |line: Seq<char>| is_entry_line(line)
}

/// The step from an entry line to its entry.
pub open spec fn entry_of_line() -> spec_fn(Seq<char>) -> AceView {
    |line: Seq<char>| decode_entry(line)->Ok_0
}

/// The entries that the lines denote, in the order of the lines. Lines that
/// are passed over or rejected give none.
pub open spec fn entries(lines: Seq<Seq<char>>) -> Seq<AceView> {
    lines.filter(picks_entry_lines()).map_values(entry_of_line())
}

/// Each line with its number, counted from one.
pub open spec fn numbered(lines: Seq<Seq<char>>) -> Seq<(nat, Seq<char>)> {
    Seq::new(lines.len(), |i: int| ((i + 1) as nat, lines[i]))
}

/// The test that picks the rejected lines among numbered lines.
pub open spec fn picks_rejected_lines() -> spec_fn((nat, Seq<char>)) -> bool {
    |line: (nat, Seq<char>)| is_rejected_line(line.1)
}

/// The error that reports a rejected line: why it is no entry, its number
/// and what it holds.
pub open spec fn rejection(line_number: nat, line: Seq<char>) -> DecodeErrorView {
    DecodeErrorView { kind: decode_entry(line)->Err_0, line_number, content: line }
}

/// The step from a rejected numbered line to the error that reports it.
pub open spec fn rejection_of_line() -> spec_fn((nat, Seq<char>)) -> DecodeErrorView {
    |line: (nat, Seq<char>)| rejection(line.0, line.1)
}

/// The errors that report the rejected lines, in the order of the lines.
pub open spec fn rejections(lines: Seq<Seq<char>>) -> Seq<DecodeErrorView> {
    numbered(lines).filter(picks_rejected_lines()).map_values(rejection_of_line())
}

/// An entry for a group that is named by its number: the principal is an
/// unsigned decimal number and the group flag is set.
pub open spec fn is_group_id_entry(entry: AceView) -> bool {
    is_unsigned_integer(entry.principal) && entry.flags & AceFlags::GROUP == AceFlags::GROUP
}

/// The test that picks the group entries among what entries say.
pub open spec fn picks_group_id_entries() -> spec_fn(AceView) -> bool {
    |entry: AceView| is_group_id_entry(entry)
}

/// The test that picks the group entries among entries.
pub open spec fn picks_group_id_aces() -> spec_fn(Ace) -> bool {
    |ace: Ace| is_group_id_entry(ace@)
}

impl Acl {
    /// Decodes a listing and reports every line that is no entry.
    ///
    /// Empty lines and comment lines are passed over. The list holds the
    /// entries of all other lines that decode, in the order of the lines;
    /// the errors report the lines that do not, in the order of the lines.
    pub fn parse_lenient(text: &str) -> (r: (Acl, Vec<DecodeError>))
        ensures
            r.0@ == entries(lines(text@)),
            error_views(r.1@) == rejections(lines(text@)),
    {
        let chars = chars_of(text);
        let spans = line_spans(chars.as_slice());
        let ghost all = lines(text@);
        let mut aces: Vec<Ace> = Vec::new();
        let mut errors: Vec<DecodeError> = Vec::new();
        let mut i: usize = 0;
        proof {
            assert(all.take(0) == Seq::<Seq<char>>::empty());
            assert(numbered(all.take(0)) == Seq::<(nat, Seq<char>)>::empty());
            Seq::<Seq<char>>::empty().lemma_filter_len(picks_entry_lines());
            Seq::<(nat, Seq<char>)>::empty().lemma_filter_len(picks_rejected_lines());
            assert(ace_views(aces@) == entries(all.take(0)));
            assert(error_views(errors@) == rejections(all.take(0)));
        }
        while i < spans.len()
            invariant
                i <= spans.len(),
                chars@ == text@,
                all == lines(text@),
                spans@.len() == all.len(),
                forall|k: int|
                    0 <= k < spans@.len() ==> (#[trigger] spans@[k]).0 <= spans@[k].1
                        <= chars@.len(),
                span_texts(chars@, spans@) == all,
                ace_views(aces@) == entries(all.take(i as int)),
                error_views(errors@) == rejections(all.take(i as int)),
            decreases spans.len() - i,
        {
            let line = slice_subrange(chars.as_slice(), spans[i].0, spans[i].1);
            let ghost seen = all.take(i as int);
            proof {
                assert(line@ == span_texts(chars@, spans@)[i as int]);
                lemma_entries_push(seen, all[i as int]);
                lemma_rejections_push(seen, all[i as int]);
                assert(all.take(i + 1) == seen.push(all[i as int]));
            }
            if !skips(line) {
                match Ace::decode(line) {
                    Ok(ace) => {
                        let ghost before = aces@;
                        aces.push(ace);
                        proof {
                            assert(ace_views(aces@) == ace_views(before).push(ace@));
                        }
                    },
                    Err(kind) => {
                        let ghost before = errors@;
                        let error = DecodeError {
                            kind,
                            line_number: i + 1,
                            content: string_of(line),
                        };
                        errors.push(error);
                        proof {
                            assert(error_views(errors@) == error_views(before).push(error@));
                        }
                    },
                }
            }
            i += 1;
        }
        proof {
            assert(all.take(i as int) == all);
        }
        (Acl { aces }, errors)
    }

    /// Decodes a listing, or reports the first line that is no entry.
    ///
    /// Empty lines and comment lines are passed over. Where every other
    /// line decodes, the list holds their entries in the order of the
    /// lines. Where one does not, no list is given: the error reports the
    /// first such line.
    pub fn parse(text: &str) -> (r: Result<Acl, DecodeError>)
        ensures
            match r {
                Ok(acl) => rejections(lines(text@)).len() == 0 && acl@ == entries(lines(text@)),
                Err(error) => rejections(lines(text@)).len() > 0 && error@ == rejections(
                    lines(text@),
                )[0],
            },
    {
        let (acl, mut errors) = Acl::parse_lenient(text);
        if errors.len() == 0 {
            Ok(acl)
        } else {
            let first = errors.remove(0);
            Err(first)
        }
    }

    /// The entries for groups that are named by their number, in their
    /// order in the list.
    pub fn group_id_aces(self) -> (r: Vec<Ace>)
        ensures
            r@ == self.aces@.filter(picks_group_id_aces()),
            ace_views(r@) == self@.filter(picks_group_id_entries()),
    {
        let ghost all = self.aces@;
        let mut group_aces: Vec<Ace> = Vec::new();
        proof {
            assert(all.take(0) == Seq::<Ace>::empty());
            all.take(0).lemma_filter_len(picks_group_id_aces());
            ace_views(all.take(0)).lemma_filter_len(picks_group_id_entries());
        }
        for ace in it: self.aces
            invariant
                it.seq() == all,
                group_aces@ == all.take(it.index()).filter(picks_group_id_aces()),
                ace_views(group_aces@) == ace_views(all.take(it.index())).filter(
                    picks_group_id_entries(),
                ),
        {
            let ghost seen = all.take(it.index());
            let ghost before = group_aces@;
            proof {
                assert(all.take(it.index() + 1) == seen.push(ace));
                assert(ace_views(seen.push(ace)) == ace_views(seen).push(ace@));
                seen.lemma_filter_push(ace, picks_group_id_aces());
                ace_views(seen).lemma_filter_push(ace@, picks_group_id_entries());
            }
            if is_number(ace.ace_principals.0.as_str()) && ace.ace_flags.contains(
                AceFlags::group(),
            ) {
                group_aces.push(ace);
                proof {
                    assert(ace_views(group_aces@) == ace_views(before).push(ace@));
                }
            }
        }
        proof {
            assert(all.take(all.len() as int) == all);
        }
        group_aces
    }
}

/// Lines that are all passed over, as in an empty text or one of comments
/// only, give no entry and no error.
pub proof fn lemma_skipped_lines_give_nothing(lines: Seq<Seq<char>>)
    requires
        forall|i: int| 0 <= i < lines.len() ==> is_skipped(#[trigger] lines[i]),
    ensures
        entries(lines).len() == 0,
        rejections(lines).len() == 0,
    decreases lines.len(),
{
    if lines.len() == 0 {
        lines.lemma_filter_len(picks_entry_lines());
        numbered(lines).lemma_filter_len(picks_rejected_lines());
    } else {
        let before = lines.drop_last();
        assert(before.push(lines.last()) == lines);
        assert forall|i: int| 0 <= i < before.len() implies is_skipped(#[trigger] before[i]) by {
            assert(before[i] == lines[i]);
        }
        lemma_skipped_lines_give_nothing(before);
        lemma_entries_push(before, lines.last());
        lemma_rejections_push(before, lines.last());
    }
}

/// The entries keep the order of the lines: the entries of two runs of
/// lines, one after the other, are those of the first run followed by
/// those of the second.
pub proof fn lemma_entries_in_line_order(first: Seq<Seq<char>>, second: Seq<Seq<char>>)
    ensures
        entries(first + second) == entries(first) + entries(second),
{
    Seq::filter_distributes_over_add(first, second, picks_entry_lines());
    assert((first.filter(picks_entry_lines()) + second.filter(picks_entry_lines())).map_values(
        entry_of_line(),
    ) == entries(first) + entries(second));
}

/// The lines of a text follow those of the text before it, where that text
/// is empty or ends with a line feed.
pub proof fn lemma_lines_of_joined_texts(first: Seq<char>, second: Seq<char>)
    requires
        first.len() == 0 || first.last() == '\n',
    ensures
        lines(first + second) == lines(first) + lines(second),
    decreases first.len(),
{
    if first.len() == 0 {
        assert(first + second == second);
        assert(lines(first) + lines(second) == lines(second));
    } else {
        let joined = first + second;
        lemma_first_index_is_first(first, '\n');
        let at = first_index(first, '\n');
        assert forall|j: int| 0 <= j < at implies joined[j] != '\n' by {
            assert(joined[j] == first[j]);
        }
        assert(joined[at] == first[at]);
        lemma_first_index(joined, '\n', at);
        let rest = first.skip(at + 1);
        assert(joined.take(at) == first.take(at));
        assert(joined.skip(at + 1) == rest + second);
        if rest.len() > 0 {
            assert(rest.last() == first.last());
        }
        lemma_lines_of_joined_texts(rest, second);
        assert(seq![without_carriage_return(first.take(at))] + (lines(rest) + lines(second)) == (
        seq![without_carriage_return(first.take(at))] + lines(rest)) + lines(second));
    }
}

/// Decoding keeps the order of the text: the entries of a listing that
/// follows another one follow the entries of that one.
pub proof fn lemma_entries_of_joined_texts(first: Seq<char>, second: Seq<char>)
    requires
        first.len() == 0 || first.last() == '\n',
    ensures
        entries(lines(first + second)) == entries(lines(first)) + entries(lines(second)),
{
    lemma_lines_of_joined_texts(first, second);
    lemma_entries_in_line_order(lines(first), lines(second));
}

/// The place of a line's entry among the entries: as many entries stand
/// before it as the lines before it denote.
pub open spec fn entry_position(lines: Seq<Seq<char>>, i: int) -> int {
    entries(lines.take(i)).len() as int
}

/// The entry of each entry line stands at that line's place, and the entry
/// of a later line stands after that of an earlier one.
pub proof fn lemma_entries_follow_their_lines(lines: Seq<Seq<char>>, i: int, j: int)
    requires
        0 <= i < j < lines.len(),
        is_entry_line(lines[i]),
        is_entry_line(lines[j]),
    ensures
        0 <= entry_position(lines, i) < entry_position(lines, j) < entries(lines).len(),
        entries(lines)[entry_position(lines, i)] == decode_entry(lines[i])->Ok_0,
        entries(lines)[entry_position(lines, j)] == decode_entry(lines[j])->Ok_0,
{
    let head = lines.take(i);
    let middle = lines.subrange(i + 1, j);
    let tail = lines.skip(j + 1);
    assert(lines.take(j) == head.push(lines[i]) + middle);
    assert(lines == lines.take(j).push(lines[j]) + tail);
    lemma_entries_push(head, lines[i]);
    lemma_entries_in_line_order(head.push(lines[i]), middle);
    lemma_entries_push(lines.take(j), lines[j]);
    lemma_entries_in_line_order(lines.take(j).push(lines[j]), tail);
}

/// No error is reported exactly when no line is rejected.
pub proof fn lemma_no_rejections(lines: Seq<Seq<char>>)
    ensures
        rejections(lines).len() == 0 <==> forall|i: int|
            0 <= i < lines.len() ==> !is_rejected_line(#[trigger] lines[i]),
    decreases lines.len(),
{
    if lines.len() == 0 {
        numbered(lines).lemma_filter_len(picks_rejected_lines());
    } else {
        let before = lines.drop_last();
        assert(before.push(lines.last()) == lines);
        lemma_no_rejections(before);
        lemma_rejections_push(before, lines.last());
        if rejections(lines).len() == 0 {
            assert forall|i: int| 0 <= i < lines.len() implies !is_rejected_line(
                #[trigger] lines[i],
            ) by {
                if i < before.len() {
                    assert(before[i] == lines[i]);
                }
            }
        }
        if forall|i: int| 0 <= i < lines.len() ==> !is_rejected_line(#[trigger] lines[i]) {
            assert forall|i: int| 0 <= i < before.len() implies !is_rejected_line(
                #[trigger] before[i],
            ) by {
                assert(before[i] == lines[i]);
            }
            assert(!is_rejected_line(lines[lines.len() - 1]));
        }
    }
}

/// The first error reports the first rejected line: its number, counted
/// from one, what it holds, and why it is no entry.
pub proof fn lemma_first_rejection(lines: Seq<Seq<char>>, i: int)
    requires
        0 <= i < lines.len(),
        is_rejected_line(lines[i]),
        forall|j: int| 0 <= j < i ==> !is_rejected_line(#[trigger] lines[j]),
    ensures
        rejections(lines).len() > 0,
        rejections(lines)[0] == rejection((i + 1) as nat, lines[i]),
    decreases lines.len(),
{
    let before = lines.drop_last();
    assert(before.push(lines.last()) == lines);
    lemma_rejections_push(before, lines.last());
    if i == lines.len() - 1 {
        assert forall|j: int| 0 <= j < before.len() implies !is_rejected_line(
            #[trigger] before[j],
        ) by {
            assert(before[j] == lines[j]);
        }
        lemma_no_rejections(before);
    } else {
        assert(before[i] == lines[i]);
        assert forall|j: int| 0 <= j < i implies !is_rejected_line(#[trigger] before[j]) by {
            assert(before[j] == lines[j]);
        }
        lemma_first_rejection(before, i);
    }
}

/// Every rejected line is reported, with its number, what it holds and
/// why it is no entry.
pub proof fn lemma_rejected_line_is_reported(lines: Seq<Seq<char>>, i: int)
    requires
        0 <= i < lines.len(),
        is_rejected_line(lines[i]),
    ensures
        rejections(lines).contains(rejection((i + 1) as nat, lines[i])),
    decreases lines.len(),
{
    let before = lines.drop_last();
    assert(before.push(lines.last()) == lines);
    lemma_rejections_push(before, lines.last());
    if i == lines.len() - 1 {
        assert(rejections(lines)[rejections(lines).len() - 1] == rejection(
            (i + 1) as nat,
            lines[i],
        ));
    } else {
        assert(before[i] == lines[i]);
        lemma_rejected_line_is_reported(before, i);
        let at = choose|k: int|
            0 <= k < rejections(before).len() && rejections(before)[k] == rejection(
                (i + 1) as nat,
                lines[i],
            );
        assert(rejections(lines)[at] == rejection((i + 1) as nat, lines[i]));
    }
}

/// A line that lacks a field, or has one too many, gives no entry and is
/// not lost: the errors report it as malformed, with its number and what
/// it holds, and the entries are those of the other lines.
pub proof fn lemma_malformed_line_is_reported(lines: Seq<Seq<char>>, i: int)
    requires
        0 <= i < lines.len(),
        !is_skipped(lines[i]),
        split(lines[i], FIELD_SEPARATOR).len() != 4,
    ensures
        rejections(lines).contains(
            DecodeErrorView {
                kind: DecodeErrorKind::MalformedLine,
                line_number: (i + 1) as nat,
                content: lines[i],
            },
        ),
        entries(lines) == entries(lines.take(i) + lines.skip(i + 1)),
{
    lemma_rejected_line_is_reported(lines, i);
    assert(lines == lines.take(i).push(lines[i]) + lines.skip(i + 1));
    lemma_entries_push(lines.take(i), lines[i]);
    lemma_entries_in_line_order(lines.take(i).push(lines[i]), lines.skip(i + 1));
    lemma_entries_in_line_order(lines.take(i), lines.skip(i + 1));
}

/// What one more line adds to the entries.
proof fn lemma_entries_push(lines: Seq<Seq<char>>, line: Seq<char>)
    ensures
        entries(lines.push(line)) == if is_entry_line(line) {
            entries(lines).push(decode_entry(line)->Ok_0)
        } else {
            entries(lines)
        },
{
    lines.lemma_filter_push(line, picks_entry_lines());
    if is_entry_line(line) {
        let kept = lines.filter(picks_entry_lines());
        assert(kept.push(line).map_values(entry_of_line()) == kept.map_values(
            entry_of_line(),
        ).push(decode_entry(line)->Ok_0));
    }
}

/// What one more line adds to the errors.
proof fn lemma_rejections_push(lines: Seq<Seq<char>>, line: Seq<char>)
    ensures
        rejections(lines.push(line)) == if is_rejected_line(line) {
            rejections(lines).push(rejection((lines.len() + 1) as nat, line))
        } else {
            rejections(lines)
        },
{
    let last = ((lines.len() + 1) as nat, line);
    assert(numbered(lines.push(line)) == numbered(lines).push(last));
    numbered(lines).lemma_filter_push(last, picks_rejected_lines());
    if is_rejected_line(line) {
        let kept = numbered(lines).filter(picks_rejected_lines());
        assert(kept.push(last).map_values(rejection_of_line()) == kept.map_values(
            rejection_of_line(),
        ).push(rejection_of_line()(last)));
    }
}

} // verus!
