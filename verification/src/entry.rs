//! The entries of an archive: which of them are samples, and which of those
//! a search selects.
//!
//! A sample is stored under the name `samples/<id>_epoch_<epoch>.json`. The
//! id is any text; the epoch is written in decimal digits, at least one.

use vstd::prelude::*;
use crate::filter::{IntFilter, IntFilterView};
use crate::pattern::{passes, text_passes, Pattern};
use crate::text::{
    all_digits, char_is_digit, chars_of, decimal_value, digits_of, is_digit, lemma_digits_of,
    read_decimal, stands_at, word_at,
};

verus! {

/// The name under which the sample `id` of the epoch that `digits` write is
/// stored.
pub open spec fn entry_name(id: Seq<char>, digits: Seq<char>) -> Seq<char> {
    "samples/"@ + id + "_epoch_"@ + digits + ".json"@
}

/// How many decimal digits `chars` ends with.
pub open spec fn trailing_digits(chars: Seq<char>) -> nat
    decreases chars.len(),
{
    if chars.len() > 0 && is_digit(chars.last()) {
        1 + trailing_digits(chars.drop_last())
    } else {
        0
    }
}

/// The id and the digits of the epoch that `name` holds, where `name` is the
/// name of a sample.
///
/// Between `samples/` and `.json` the name ends with digits; before them
/// stands `_epoch_`, and all that is before that is the id. The id may hold
/// `_epoch_` itself.
pub open spec fn entry_parts(name: Seq<char>) -> Option<(Seq<char>, Seq<char>)> {
    let prefix = "samples/"@;
    let marker = "_epoch_"@;
    let suffix = ".json"@;
    if name.len() >= prefix.len() + suffix.len() && name.take(prefix.len() as int) == prefix
        && name.skip(name.len() - suffix.len()) == suffix {
        let body = name.subrange(prefix.len() as int, name.len() - suffix.len());
        let digits = trailing_digits(body);
        let id_len = body.len() - digits - marker.len();
        if digits >= 1 && stands_at(body, id_len, marker) {
            Some((body.take(id_len), body.skip(body.len() - digits)))
        } else {
            None
        }
    } else {
        None
    }
}

/// What the three fixed parts of a sample's name hold.
pub proof fn lemma_name_parts()
    ensures
        "samples/"@.len() == 8,
        "_epoch_"@.len() == 7,
        "_epoch_"@[6] == '_',
        ".json"@.len() == 5,
{
    reveal_strlit("samples/");
    reveal_strlit("_epoch_");
    reveal_strlit(".json");
}

/// The digits that text ends with are digits, are no more than the text
/// holds, and what stands before them ends with something else.
pub proof fn lemma_trailing_digits(chars: Seq<char>)
    ensures
        trailing_digits(chars) <= chars.len(),
        all_digits(chars.skip(chars.len() - trailing_digits(chars))),
        trailing_digits(chars) < chars.len() ==> !is_digit(
            chars[chars.len() - trailing_digits(chars) - 1],
        ),
    decreases chars.len(),
{
    if chars.len() > 0 && is_digit(chars.last()) {
        let front = chars.drop_last();
        lemma_trailing_digits(front);
        let n = trailing_digits(chars);
        let tail = chars.skip(chars.len() - n);
        assert forall|i: int| 0 <= i < tail.len() implies is_digit(#[trigger] tail[i]) by {
            if i < tail.len() - 1 {
                assert(tail[i] == front.skip(front.len() - trailing_digits(front))[i]);
            }
        }
    }
}

/// Text that does not end with a digit, with digits put behind it, ends with
/// exactly those digits.
pub proof fn lemma_digits_behind(head: Seq<char>, digits: Seq<char>)
    requires
        all_digits(digits),
        head.len() == 0 || !is_digit(head.last()),
    ensures
        trailing_digits(head + digits) == digits.len(),
    decreases digits.len(),
{
    if digits.len() == 0 {
        assert(head + digits =~= head);
    } else {
        let whole = head + digits;
        assert(whole.last() == digits.last());
        assert(is_digit(digits[digits.len() - 1]));
        assert(whole.drop_last() =~= head + digits.drop_last());
        assert forall|i: int| 0 <= i < digits.drop_last().len() implies is_digit(
            #[trigger] digits.drop_last()[i],
        ) by {
            assert(digits.drop_last()[i] == digits[i]);
        }
        lemma_digits_behind(head, digits.drop_last());
    }
}

/// A name that holds an id and an epoch is the name under which that id is
/// stored for that epoch, and its epoch is written in digits, at least one.
/// So a name that is not of that form holds neither.
pub proof fn lemma_entry_parts_sound(name: Seq<char>)
    requires
        entry_parts(name) is Some,
    ensures
        match entry_parts(name) {
            Some((id, digits)) => name == entry_name(id, digits) && digits.len() >= 1
                && all_digits(digits),
            None => false,
        },
{
    lemma_name_parts();
    let prefix = "samples/"@;
    let marker = "_epoch_"@;
    let suffix = ".json"@;
    let body = name.subrange(prefix.len() as int, name.len() - suffix.len());
    lemma_trailing_digits(body);
    let digits = trailing_digits(body);
    let id_len = body.len() - digits - marker.len();
    let id = body.take(id_len);
    let tail = body.skip(body.len() - digits);
    assert(body =~= id + body.subrange(id_len, id_len + marker.len()) + tail);
    assert(name =~= name.take(prefix.len() as int) + body + name.skip(name.len() - suffix.len()));
    assert(name =~= entry_name(id, tail));
}

/// The name under which an id is stored for an epoch holds exactly that id
/// and the digits of that epoch, whatever the id is.
pub proof fn lemma_entry_parts_complete(id: Seq<char>, digits: Seq<char>)
    requires
        digits.len() >= 1,
        all_digits(digits),
    ensures
        entry_parts(entry_name(id, digits)) == Some((id, digits)),
{
    lemma_name_parts();
    let prefix = "samples/"@;
    let marker = "_epoch_"@;
    let suffix = ".json"@;
    let name = entry_name(id, digits);
    assert(name.take(prefix.len() as int) =~= prefix);
    assert(name.skip(name.len() - suffix.len()) =~= suffix);
    let body = name.subrange(prefix.len() as int, name.len() - suffix.len());
    assert(body =~= (id + marker) + digits);
    assert((id + marker).last() == '_');
    lemma_digits_behind(id + marker, digits);
    let id_len = body.len() - digits.len() - marker.len();
    assert(id_len == id.len());
    assert(body.subrange(id_len, id_len + marker.len()) =~= marker);
    assert(body.take(id_len) =~= id);
    assert(body.skip(body.len() - digits.len()) =~= digits);
}

/// Why an entry that is named like a sample is none.
#[derive(Debug, Clone, Copy, PartialEq, Eq, Structural)]
pub enum EntryNameError {
    /// The epoch does not fit in 32 bits.
    EpochOutOfRange,
}

/// Reads the sample id and the epoch out of an entry's name.
///
/// An entry that is not named like a sample is none, and that is no error.
/// One that is, with an epoch that does not fit in 32 bits, is an error.
pub fn sample_id_and_epoch_from_filename(filename: &str) -> (out: Result<
    Option<(String, u32)>,
    EntryNameError,
>)
    ensures
        match entry_parts(filename@) {
            None => out matches Ok(None),
            Some((id, digits)) => if decimal_value(digits) <= u32::MAX {
                out matches Ok(Some(found)) && found.0@ == id && found.1 == decimal_value(digits)
            } else {
                out matches Err(EntryNameError::EpochOutOfRange)
            },
        },
{
    proof {
        lemma_name_parts();
    }
    let chars = chars_of(filename);
    let prefix = chars_of("samples/");
    let marker = chars_of("_epoch_");
    let suffix = chars_of(".json");
    let n = chars.len();
    if n < 13 || !word_at(&chars, 0, &prefix) || !word_at(&chars, n - 5, &suffix) {
        proof {
            if n >= 13 {
                assert(chars@.subrange(0, 8) =~= chars@.take(8));
                assert(chars@.subrange(n - 5, n as int) =~= chars@.skip(n - 5));
            }
        }
        return Ok(None);
    }
    let ghost body = chars@.subrange(8, n - 5);
    proof {
        assert(chars@.subrange(0, 8) =~= chars@.take(8));
        assert(chars@.subrange(n - 5, n as int) =~= chars@.skip(n - 5));
        assert(body.take(body.len() as int) =~= body);
    }
    let mut k: usize = n - 5;
    while k > 8 && char_is_digit(chars[k - 1])
        invariant
            8 <= k <= n - 5,
            n == chars.len(),
            body == chars@.subrange(8, n - 5),
            trailing_digits(body) == (n - 5 - k) + trailing_digits(body.take(k - 8)),
        decreases k,
    {
        proof {
            let front = body.take(k - 8);
            assert(front.last() == chars[k - 1]);
            assert(front.drop_last() =~= body.take(k - 8 - 1));
        }
        k -= 1;
    }
    proof {
        let front = body.take(k - 8);
        if k > 8 {
            assert(front.last() == chars[k - 1]);
        }
        assert(trailing_digits(front) == 0);
    }
    let digits: usize = n - 5 - k;
    if digits == 0 || k - 8 < 7 || !word_at(&chars, k - 7, &marker) {
        proof {
            if digits != 0 && k - 8 >= 7 {
                assert(body.subrange(k - 15, k - 8) =~= chars@.subrange(k - 7, k as int));
            }
        }
        return Ok(None);
    }
    proof {
        assert(body.subrange(k - 15, k - 8) =~= chars@.subrange(k - 7, k as int));
        assert(body.take(k - 15) =~= chars@.subrange(8, k - 7));
        assert(body.skip(body.len() - digits) =~= chars@.subrange(k as int, n - 5));
        lemma_trailing_digits(body);
    }
    match read_decimal(&chars, k, n - 5) {
        Some(epoch) => {
            let id = filename.substring_char(8, k - 7).to_owned();
            Ok(Some((id, epoch)))
        },
        None => Err(EntryNameError::EpochOutOfRange),
    }
}

/// Where one sample is stored: the archive, the entry's name in it, and the
/// sample id and the epoch that the name holds.
#[derive(Debug, Clone, PartialEq, Eq)]
pub struct SampleLocator {
    pub archive_path: String,
    pub entry_name: String,
    pub sample_id: String,
    pub epoch: u32,
}

/// Where a sample is stored, as plain values.
pub struct LocatorView {
    pub archive_path: Seq<char>,
    pub entry_name: Seq<char>,
    pub sample_id: Seq<char>,
    pub epoch: u32,
}

impl View for SampleLocator {
    type V = LocatorView;

    open spec fn view(&self) -> LocatorView {
        LocatorView {
            archive_path: self.archive_path@,
            entry_name: self.entry_name@,
            sample_id: self.sample_id@,
            epoch: self.epoch,
        }
    }
}

/// The entries of a search in one archive: the samples it selects, and the
/// names of the entries whose epoch does not fit in 32 bits.
#[derive(Debug, Clone, PartialEq, Eq)]
pub struct Selection {
    pub selected: Vec<SampleLocator>,
    pub out_of_range: Vec<String>,
}

/// The sample id and the epoch that `name` holds, where it is the name of a
/// sample whose epoch fits in 32 bits.
pub open spec fn sample_of(name: Seq<char>) -> Option<(Seq<char>, u32)> {
    match entry_parts(name) {
        Some((id, digits)) => if decimal_value(digits) <= u32::MAX {
            Some((id, decimal_value(digits) as u32))
        } else {
            None
        },
        None => None,
    }
}

/// Whether `name` is the name of a sample whose epoch does not fit in 32 bits.
pub open spec fn epoch_out_of_range(name: Seq<char>) -> bool {
    match entry_parts(name) {
        Some((id, digits)) => decimal_value(digits) > u32::MAX,
        None => false,
    }
}

/// Whether a search selects the entry `name`: it is a sample, its id gets
/// through the sample filter, and its epoch is among the epochs.
pub open spec fn is_selected(name: Seq<char>, sample: Option<Pattern>, epochs: IntFilterView) -> bool {
    match sample_of(name) {
        Some((id, epoch)) => passes(sample, id) && epochs.accepts(epoch),
        None => false,
    }
}

/// The name under which a sample is stored for an epoch holds that sample's
/// id and that epoch, whatever the id is.
pub proof fn lemma_entry_name_round_trip(id: Seq<char>, epoch: u32)
    ensures
        sample_of(entry_name(id, digits_of(epoch as nat))) == Some((id, epoch)),
{
    lemma_digits_of(epoch as nat);
    lemma_entry_parts_complete(id, digits_of(epoch as nat));
}

/// A name that holds no sample is not the name under which any sample is
/// stored for any epoch.
pub proof fn lemma_other_names_hold_nothing(name: Seq<char>, id: Seq<char>, digits: Seq<char>)
    requires
        entry_parts(name) is None,
        digits.len() >= 1,
        all_digits(digits),
    ensures
        name != entry_name(id, digits),
{
    lemma_entry_parts_complete(id, digits);
}

/// Where the sample of the entry `name` of the archive `path` is stored.
pub open spec fn locator_of(path: Seq<char>, name: Seq<char>) -> LocatorView
    recommends
        sample_of(name) is Some,
{
    let found = sample_of(name).unwrap();
    LocatorView { archive_path: path, entry_name: name, sample_id: found.0, epoch: found.1 }
}

/// The samples that a search selects among `names`, in the order of `names`.
pub open spec fn selected_of(
    path: Seq<char>,
    names: Seq<Seq<char>>,
    sample: Option<Pattern>,
    epochs: IntFilterView,
) -> Seq<LocatorView>
    decreases names.len(),
{
    if names.len() == 0 {
        Seq::empty()
    } else {
        let before = selected_of(path, names.drop_last(), sample, epochs);
        if is_selected(names.last(), sample, epochs) {
            before.push(locator_of(path, names.last()))
        } else {
            before
        }
    }
}

/// Those of `names` whose epoch does not fit in 32 bits, in the order of
/// `names`.
pub open spec fn out_of_range_of(names: Seq<Seq<char>>) -> Seq<Seq<char>>
    decreases names.len(),
{
    if names.len() == 0 {
        Seq::empty()
    } else {
        let before = out_of_range_of(names.drop_last());
        if epoch_out_of_range(names.last()) {
            before.push(names.last())
        } else {
            before
        }
    }
}

/// The names as plain values.
pub open spec fn names_view(names: Seq<String>) -> Seq<Seq<char>> {
    Seq::new(names.len(), |i: int| names[i]@)
}

/// The locators as plain values.
pub open spec fn locators_view(locators: Seq<SampleLocator>) -> Seq<LocatorView> {
    Seq::new(locators.len(), |i: int| locators[i]@)
}

/// Picks the samples of one archive that a search selects.
///
/// `file_names` are the names of the archive's entries. An entry that is not
/// named like a sample is passed over. One whose epoch does not fit in 32
/// bits is reported by name, and the others are still looked at.
pub fn matching_samples_in_log(
    log_path: &str,
    file_names: &Vec<String>,
    sample_regex: &Option<Pattern>,
    epoch_filter: &IntFilter,
) -> (out: Selection)
    ensures
        locators_view(out.selected@) == selected_of(
            log_path@,
            names_view(file_names@),
            *sample_regex,
            epoch_filter@,
        ),
        names_view(out.out_of_range@) == out_of_range_of(names_view(file_names@)),
{
    let ghost names = names_view(file_names@);
    let mut selected: Vec<SampleLocator> = Vec::new();
    let mut out_of_range: Vec<String> = Vec::new();
    let mut i: usize = 0;
    assert(locators_view(selected@) =~= Seq::empty());
    assert(names_view(out_of_range@) =~= Seq::empty());
    while i < file_names.len()
        invariant
            i <= file_names.len(),
            names == names_view(file_names@),
            locators_view(selected@) == selected_of(
                log_path@,
                names.take(i as int),
                *sample_regex,
                epoch_filter@,
            ),
            names_view(out_of_range@) == out_of_range_of(names.take(i as int)),
        decreases file_names.len() - i,
    {
        let name = &file_names[i];
        proof {
            let seen = names.take(i + 1);
            assert(seen.drop_last() =~= names.take(i as int));
            assert(seen.last() == name@);
        }
        let ghost selected_before = selected@;
        let ghost out_of_range_before = out_of_range@;
        match sample_id_and_epoch_from_filename(name.as_str()) {
            Ok(Some((sample_id, epoch))) => {
                if text_passes(sample_regex, sample_id.as_str()) && epoch_filter.filter(&epoch) {
                    selected.push(
                        SampleLocator {
                            archive_path: log_path.to_owned(),
                            entry_name: name.clone(),
                            sample_id,
                            epoch,
                        },
                    );
                    assert(locators_view(selected@) =~= locators_view(selected_before).push(
                        locator_of(log_path@, name@),
                    ));
                }
            },
            Ok(None) => {},
            Err(_) => {
                out_of_range.push(name.clone());
                assert(names_view(out_of_range@) =~= names_view(out_of_range_before).push(name@));
            },
        }
        i += 1;
    }
    assert(names.take(i as int) =~= names);
    Selection { selected, out_of_range }
}

} // verus!
