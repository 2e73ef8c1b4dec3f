//! What a search selects: epochs, and messages by role and content.

use vstd::prelude::*;
use std::collections::HashSet;
use crate::pattern::{passes, text_passes, Pattern};
use crate::record::{ChatMessage, MessageView};
use crate::role::ChatMessageRole;
use crate::text::{
    all_digits, chars_of, digits_of, find_char, first_place, is_digit, lemma_digits_of,
    lemma_digits_trimmed, lemma_first_place, lemma_no_place, lemma_unsigned_round_trip,
    read_unsigned, str_equal, trim_bounds, trimmed, unsigned_of,
};

verus! {

broadcast use vstd::std_specs::hash::group_hash_axioms;

/// A choice of epochs: all of them, those of a set, or those of a range with
/// both ends.
#[derive(Debug)]
pub enum IntFilter {
    All,
    ExplicitSet(HashSet<u32>),
    Range(u32, u32),
}

/// A choice of epochs, as plain values.
pub enum IntFilterView {
    All,
    ExplicitSet(Set<u32>),
    Range(u32, u32),
}

impl IntFilterView {
    /// Whether the choice holds `epoch`.
    pub open spec fn accepts(self, epoch: u32) -> bool {
        match self {
            IntFilterView::All => true,
            IntFilterView::ExplicitSet(epochs) => epochs.contains(epoch),
            IntFilterView::Range(low, high) => low <= epoch <= high,
        }
    }
}

impl View for IntFilter {
    type V = IntFilterView;

    open spec fn view(&self) -> IntFilterView {
        match self {
            IntFilter::All => IntFilterView::All,
            IntFilter::ExplicitSet(epochs) => IntFilterView::ExplicitSet(epochs@),
            IntFilter::Range(low, high) => IntFilterView::Range(*low, *high),
        }
    }
}

/// Why a text is no choice of epochs.
#[derive(Debug, Clone, Copy, PartialEq, Eq, Structural)]
pub enum EpochSpecError {
    /// The text holds a `-`, and what stands before the first one, or what
    /// stands behind it, is no unsigned number.
    InvalidRange,
    /// The text holds no `-`, and one of the items between its commas is no
    /// unsigned number.
    InvalidList,
}

/// The numbers of a list: the items between the commas of `chars`, each
/// without the white space around it. `None` where an item is no unsigned
/// number.
pub open spec fn list_of(chars: Seq<char>) -> Option<Set<u32>>
    decreases chars.len(),
{
    match first_place(chars, ',') {
        None => match unsigned_of(trimmed(chars)) {
            Some(value) => Some(Set::empty().insert(value)),
            None => None,
        },
        Some(i) => if 0 <= i < chars.len() {
            match (unsigned_of(trimmed(chars.take(i))), list_of(chars.skip(i + 1))) {
                (Some(value), Some(rest)) => Some(rest.insert(value)),
                _ => None,
            }
        } else {
            None
        },
    }
}

/// The choice of epochs that `chars` writes down.
///
/// `all` is every epoch. A text with a `-` is a range: the number before the
/// first `-` is its low end, the number behind it its high end, both within.
/// Any other text is a list of numbers with commas between them.
pub open spec fn epoch_spec_of(chars: Seq<char>) -> Result<IntFilterView, EpochSpecError> {
    if chars == "all"@ {
        Ok(IntFilterView::All)
    } else {
        match first_place(chars, '-') {
            Some(i) => match (unsigned_of(chars.take(i)), unsigned_of(chars.skip(i + 1))) {
                (Some(low), Some(high)) => Ok(IntFilterView::Range(low, high)),
                _ => Err(EpochSpecError::InvalidRange),
            },
            None => match list_of(chars) {
                Some(epochs) => Ok(IntFilterView::ExplicitSet(epochs)),
                None => Err(EpochSpecError::InvalidList),
            },
        }
    }
}

/// The numbers read so far together with those still to come.
pub open spec fn joined(read: Set<u32>, rest: Option<Set<u32>>) -> Option<Set<u32>> {
    match rest {
        Some(rest) => Some(read.union(rest)),
        None => None,
    }
}

/// Reads a list of numbers with commas between them.
fn read_list(chars: &Vec<char>) -> (out: Option<HashSet<u32>>)
    ensures
        match out {
            Some(epochs) => list_of(chars@) == Some(epochs@),
            None => list_of(chars@) is None,
        },
{
    let mut epochs: HashSet<u32> = HashSet::new();
    let mut start: usize = 0;
    assert(chars@.skip(0) =~= chars@);
    assert(Set::<u32>::empty().union(list_of(chars@)->0) =~= list_of(chars@)->0);
    loop
        invariant
            start <= chars.len(),
            list_of(chars@) == joined(epochs@, list_of(chars@.skip(start as int))),
        decreases chars.len() - start,
    {
        let ghost rest = chars@.skip(start as int);
        let comma = find_char(chars, start, ',');
        let end: usize = match comma {
            Some(k) => start + k,
            None => chars.len(),
        };
        proof {
            if comma is Some {
                assert(chars@.subrange(start as int, end as int) =~= rest.take(end - start));
            } else {
                assert(chars@.subrange(start as int, end as int) =~= rest);
            }
        }
        let (from, to) = trim_bounds(chars, start, end);
        let value = match read_unsigned(chars, from, to) {
            Some(value) => value,
            None => { return None; },
        };
        let ghost before = epochs@;
        epochs.insert(value);
        if comma.is_none() {
            assert(before.union(Set::empty().insert(value)) =~= epochs@);
            return Some(epochs);
        }
        proof {
            assert(rest.skip(end - start + 1) =~= chars@.skip(end + 1));
            let tail = list_of(chars@.skip(end + 1));
            if tail is Some {
                assert(before.union(tail->0.insert(value)) =~= epochs@.union(tail->0));
            }
        }
        start = end + 1;
    }
}

impl IntFilter {
    /// Whether the choice holds `item`.
    pub fn filter(&self, item: &u32) -> (out: bool)
        ensures
            out == self@.accepts(*item),
    {
        match self {
            IntFilter::All => true,
            IntFilter::ExplicitSet(epochs) => epochs.contains(item),
            IntFilter::Range(low, high) => *low <= *item && *item <= *high,
        }
    }

    /// Reads a choice of epochs: `all`, a range such as `3-7`, or a list such
    /// as `1,3,7`.
    pub fn from_str(s: &str) -> (out: Result<IntFilter, EpochSpecError>)
        ensures
            match out {
                Ok(filter) => epoch_spec_of(s@) == Ok::<IntFilterView, EpochSpecError>(filter@),
                Err(e) => epoch_spec_of(s@) == Err::<IntFilterView, EpochSpecError>(e),
            },
    {
        if str_equal(s, "all") {
            return Ok(IntFilter::All);
        }
        let chars = chars_of(s);
        assert(chars@.skip(0) =~= chars@);
        match find_char(&chars, 0, '-') {
            Some(i) => {
                assert(chars@.subrange(0, i as int) =~= chars@.take(i as int));
                assert(chars@.subrange(i + 1, chars.len() as int) =~= chars@.skip(i + 1));
                let low = read_unsigned(&chars, 0, i);
                let high = read_unsigned(&chars, i + 1, chars.len());
                match (low, high) {
                    (Some(low), Some(high)) => Ok(IntFilter::Range(low, high)),
                    _ => Err(EpochSpecError::InvalidRange),
                }
            },
            None => match read_list(&chars) {
                Some(epochs) => Ok(IntFilter::ExplicitSet(epochs)),
                None => Err(EpochSpecError::InvalidList),
            },
        }
    }
}

/// Which messages a search keeps: those of the given roles, if roles are
/// given, whose content the pattern matches, if a pattern is given.
pub struct MessageFilter {
    pub roles: Option<Vec<ChatMessageRole>>,
    pub pattern: Option<Pattern>,
}

impl MessageFilter {
    /// Whether `role` passes: no roles are given, or it is one of them.
    pub open spec fn role_passes(self, role: ChatMessageRole) -> bool {
        match self.roles {
            Some(roles) => roles@.contains(role),
            None => true,
        }
    }

    /// Whether the filter keeps a message.
    pub open spec fn keeps(self, message: MessageView) -> bool {
        self.role_passes(message.role) && passes(self.pattern, message.content)
    }

    /// Whether the filter keeps `message`.
    pub fn accepts(&self, message: &ChatMessage) -> (out: bool)
        ensures
            out == self.keeps(message@),
    {
        if let Some(roles) = &self.roles {
            if !has_role(roles, message.role) {
                return false;
            }
        }
        text_passes(&self.pattern, message.content.as_str())
    }
}

/// Whether `role` is among `roles`.
pub fn has_role(roles: &Vec<ChatMessageRole>, role: ChatMessageRole) -> (out: bool)
    ensures
        out == roles@.contains(role),
{
    let mut i: usize = 0;
    while i < roles.len()
        invariant
            i <= roles.len(),
            forall|k: int| 0 <= k < i ==> roles[k] != role,
        decreases roles.len() - i,
    {
        if roles[i] == role {
            return true;
        }
        i += 1;
    }
    false
}

/// A range as it is written: the low end, a `-`, the high end.
pub open spec fn range_text(low: u32, high: u32) -> Seq<char> {
    digits_of(low as nat) + seq!['-'] + digits_of(high as nat)
}

/// A list as it is written: its numbers with a comma between each two.
pub open spec fn list_text(epochs: Seq<u32>) -> Seq<char>
    recommends
        epochs.len() >= 1,
    decreases epochs.len(),
{
    if epochs.len() <= 1 {
        digits_of(epochs[0] as nat)
    } else {
        digits_of(epochs[0] as nat) + seq![','] + list_text(epochs.drop_first())
    }
}

/// `all` is read as the choice of every epoch, and that choice holds every
/// epoch.
pub proof fn lemma_all_accepts_every_epoch(epoch: u32)
    ensures
        epoch_spec_of("all"@) == Ok::<IntFilterView, EpochSpecError>(IntFilterView::All),
        IntFilterView::All.accepts(epoch),
{
}

/// A range that is written down is read as that range, and it holds exactly
/// the epochs from its low end to its high end, both within.
pub proof fn lemma_range_round_trip(low: u32, high: u32, epoch: u32)
    ensures
        epoch_spec_of(range_text(low, high)) == Ok::<IntFilterView, EpochSpecError>(
            IntFilterView::Range(low, high),
        ),
        IntFilterView::Range(low, high).accepts(epoch) <==> low <= epoch <= high,
{
    reveal_strlit("all");
    let first = digits_of(low as nat);
    let second = digits_of(high as nat);
    let text = range_text(low, high);
    lemma_digits_of(low as nat);
    lemma_digits_of(high as nat);
    lemma_unsigned_round_trip(low);
    lemma_unsigned_round_trip(high);
    assert(text[0] == first[0]);
    assert(is_digit(first[0]));
    assert("all"@[0] == 'a');
    assert(text != "all"@);
    assert forall|k: int| 0 <= k < first.len() implies text[k] != '-' by {
        assert(text[k] == first[k]);
        assert(is_digit(first[k]));
    }
    lemma_first_place(text, '-', first.len() as int);
    assert(text.take(first.len() as int) =~= first);
    assert(text.skip(first.len() as int + 1) =~= second);
}

/// A list that is written down holds neither a `-` nor white space, starts
/// with a digit, and is read as the set of its numbers.
pub proof fn lemma_list_text(epochs: Seq<u32>)
    requires
        epochs.len() >= 1,
    ensures
        list_text(epochs).len() >= 1,
        is_digit(list_text(epochs)[0]),
        forall|k: int| 0 <= k < list_text(epochs).len() ==> list_text(epochs)[k] != '-',
        list_of(list_text(epochs)) == Some(epochs.to_set()),
    decreases epochs.len(),
{
    let first = digits_of(epochs[0] as nat);
    let text = list_text(epochs);
    lemma_digits_of(epochs[0] as nat);
    lemma_unsigned_round_trip(epochs[0]);
    lemma_digits_trimmed(first);
    assert(is_digit(first[0]));
    if epochs.len() == 1 {
        assert forall|k: int| 0 <= k < text.len() implies text[k] != ',' && text[k] != '-' by {
            assert(is_digit(text[k]));
        }
        lemma_no_place(text, ',');
        assert(epochs.to_set() =~= Set::empty().insert(epochs[0])) by {
            assert forall|e: u32| epochs.to_set().contains(e) <==> e == epochs[0] by {
                if e == epochs[0] {
                    assert(epochs.contains(epochs[0]));
                }
            }
        }
    } else {
        let rest = epochs.drop_first();
        let tail = list_text(rest);
        lemma_list_text(rest);
        assert(text[0] == first[0]);
        assert forall|k: int| 0 <= k < text.len() implies text[k] != '-' by {
            if k < first.len() {
                assert(text[k] == first[k]);
                assert(is_digit(first[k]));
            } else if k > first.len() {
                assert(text[k] == tail[k - first.len() - 1]);
            }
        }
        assert forall|k: int| 0 <= k < first.len() implies text[k] != ',' by {
            assert(text[k] == first[k]);
            assert(is_digit(first[k]));
        }
        lemma_first_place(text, ',', first.len() as int);
        assert(text.take(first.len() as int) =~= first);
        assert(text.skip(first.len() as int + 1) =~= tail);
        assert(epochs.to_set() =~= rest.to_set().insert(epochs[0])) by {
            assert forall|e: u32| epochs.to_set().contains(e) <==> (e == epochs[0]
                || rest.to_set().contains(e)) by {
                if epochs.contains(e) {
                    let k = choose|k: int| 0 <= k < epochs.len() && epochs[k] == e;
                    if k > 0 {
                        assert(rest[k - 1] == e);
                    }
                }
                if rest.contains(e) {
                    let k = choose|k: int| 0 <= k < rest.len() && rest[k] == e;
                    assert(epochs[k + 1] == e);
                }
                if e == epochs[0] {
                    assert(epochs.contains(epochs[0]));
                }
            }
        }
    }
}

/// A list that is written down is read as the choice of its numbers, and it
/// holds exactly those.
pub proof fn lemma_list_round_trip(epochs: Seq<u32>, epoch: u32)
    requires
        epochs.len() >= 1,
    ensures
        epoch_spec_of(list_text(epochs)) == Ok::<IntFilterView, EpochSpecError>(
            IntFilterView::ExplicitSet(epochs.to_set()),
        ),
        IntFilterView::ExplicitSet(epochs.to_set()).accepts(epoch) <==> epochs.contains(epoch),
{
    reveal_strlit("all");
    lemma_list_text(epochs);
    let text = list_text(epochs);
    assert("all"@[0] == 'a');
    assert(text != "all"@);
    lemma_no_place(text, '-');
}

} // verus!
