//! Decoding the samples of a search.
//!
//! Each entry is decoded by itself, under the search's message filter. What
//! one entry gives depends on that entry and on the filter, and on nothing
//! else: not on the other entries, and not on the order in which the entries
//! are taken.

use vstd::prelude::*;
use crate::decode::{
    accepts, decoded, deserialize_sample_filtered, place_filtered, record_of, turns_down,
    DecodeError, RecordView,
};
use crate::json::items_view;
use crate::filter::MessageFilter;
use crate::record::{ChatMessage, EvalSample, MessageView, SampleView};

verus! {

/// What the filter leaves of a message.
pub open spec fn kept_place(filter: MessageFilter, message: MessageView) -> Option<MessageView> {
    if filter.keeps(message) {
        Some(message)
    } else {
        None
    }
}

/// What the filter leaves of a record: every place of the transcript, with
/// the message where the filter keeps it.
pub open spec fn filtered_sample(record: RecordView, filter: MessageFilter) -> SampleView {
    SampleView {
        id: record.id,
        epoch: record.epoch,
        messages: Seq::new(record.messages.len(), |i: int| kept_place(filter, record.messages[i])),
    }
}

/// What decoding `text` under `filter` gives.
pub open spec fn filtered_record(text: Seq<u8>, filter: MessageFilter) -> Result<
    SampleView,
    DecodeError,
> {
    match record_of(text) {
        Ok(record) => Ok(filtered_sample(record, filter)),
        Err(e) => Err(e),
    }
}

/// What a decoder returned, as plain values.
pub open spec fn result_view(out: Result<EvalSample, DecodeError>) -> Result<
    SampleView,
    DecodeError,
> {
    match out {
        Ok(sample) => Ok(sample@),
        Err(e) => Err(e),
    }
}

/// What the decoders returned, as plain values.
pub open spec fn results_view(outs: Seq<Result<EvalSample, DecodeError>>) -> Seq<
    Result<SampleView, DecodeError>,
> {
    Seq::new(outs.len(), |i: int| result_view(outs[i]))
}

/// What decoding each of `texts` under `filter` gives.
pub open spec fn filtered_records(texts: Seq<Seq<u8>>, filter: MessageFilter) -> Seq<
    Result<SampleView, DecodeError>,
> {
    Seq::new(texts.len(), |i: int| filtered_record(texts[i], filter))
}

/// Whether a filter never both accepts and turns down messages that say the
/// same.
pub open spec fn consistent<F: Fn(&ChatMessage) -> bool>(filter: F) -> bool {
    forall|message: MessageView| !(accepts(filter, message) && turns_down(filter, message))
}

/// A decoded transcript has one place for each message of the record. The
/// place holds the message, as the record has it, if the filter accepted it,
/// and is empty if the filter turned it down.
pub proof fn lemma_places_keep_positions<F: Fn(&ChatMessage) -> bool>(
    text: Seq<u8>,
    filter: F,
    sample: EvalSample,
)
    requires
        decoded(text, filter, Ok(sample)),
    ensures
        record_of(text) is Ok,
        sample@.messages.len() == record_of(text)->Ok_0.messages.len(),
        forall|i: int|
            0 <= i < sample@.messages.len() ==> match #[trigger] sample@.messages[i] {
                Some(kept) => kept == record_of(text)->Ok_0.messages[i] && accepts(filter, kept),
                None => turns_down(filter, record_of(text)->Ok_0.messages[i]),
            },
{
    let record = record_of(text)->Ok_0;
    assert forall|i: int| 0 <= i < sample@.messages.len() implies match #[trigger] sample@.messages[i] {
        Some(kept) => kept == record.messages[i] && accepts(filter, kept),
        None => turns_down(filter, record.messages[i]),
    } by {
        assert(place_filtered(filter, record.messages[i], sample.messages@[i]));
    }
}

/// Decoding the same text under the same filter gives the same, whenever
/// the filter answers the same for messages that say the same.
pub proof fn lemma_decode_deterministic<F: Fn(&ChatMessage) -> bool>(
    text: Seq<u8>,
    filter: F,
    first: Result<EvalSample, DecodeError>,
    second: Result<EvalSample, DecodeError>,
)
    requires
        consistent(filter),
        decoded(text, filter, first),
        decoded(text, filter, second),
    ensures
        result_view(first) == result_view(second),
{
    if record_of(text) is Ok {
        let record = record_of(text)->Ok_0;
        let a = first->Ok_0;
        let b = second->Ok_0;
        lemma_places_keep_positions(text, filter, a);
        lemma_places_keep_positions(text, filter, b);
        assert forall|i: int| 0 <= i < record.messages.len() implies a@.messages[i]
            == b@.messages[i] by {
            let message = record.messages[i];
            assert(!(accepts(filter, message) && turns_down(filter, message)));
        }
        assert(a@.messages =~= b@.messages);
    }
}

/// Decodes the sample record that `text` holds and keeps the messages that
/// the filter keeps.
pub fn read_sample_filtered(text: &[u8], message_filter: &MessageFilter) -> (out: Result<
    EvalSample,
    DecodeError,
>)
    ensures
        result_view(out) == filtered_record(text@, *message_filter),
{
    let keep = |message: &ChatMessage| -> (kept: bool)
        ensures
            kept == message_filter.keeps(message@),
        { message_filter.accepts(message) };
    let out = deserialize_sample_filtered(text, keep);
    proof {
        if out is Ok {
            let sample = out->Ok_0;
            let record = record_of(text@)->Ok_0;
            lemma_places_keep_positions(text@, keep, sample);
            assert(sample@.messages =~= filtered_sample(record, *message_filter).messages);
        }
    }
    out
}

/// Decodes each entry of one archive under the search's message filter.
///
/// The results stand in the order of the entries. An entry that cannot be
/// decoded gives its error at its place, and the others are decoded all the
/// same.
pub fn process_eval_file(entries: &Vec<Vec<u8>>, message_filter: &MessageFilter) -> (out: Vec<
    Result<EvalSample, DecodeError>,
>)
    ensures
        results_view(out@) == filtered_records(items_view(entries@), *message_filter),
{
    let mut out: Vec<Result<EvalSample, DecodeError>> = Vec::new();
    let mut i: usize = 0;
    while i < entries.len()
        invariant
            i <= entries.len(),
            out.len() == i,
            forall|k: int|
                0 <= k < i ==> result_view(#[trigger] out[k]) == filtered_record(
                    entries[k]@,
                    *message_filter,
                ),
        decreases entries.len() - i,
    {
        out.push(read_sample_filtered(entries[i].as_slice(), message_filter));
        i += 1;
    }
    assert(results_view(out@) =~= filtered_records(
        items_view(entries@),
        *message_filter,
    ));
    out
}

/// What a search finds does not depend on the order in which the entries
/// are taken: the same entries, in whatever order, give the same results,
/// each as often.
pub proof fn lemma_order_does_not_matter(
    texts: Seq<Seq<u8>>,
    moved: Seq<Seq<u8>>,
    filter: MessageFilter,
)
    requires
        texts.to_multiset() == moved.to_multiset(),
    ensures
        filtered_records(texts, filter).to_multiset() == filtered_records(
            moved,
            filter,
        ).to_multiset(),
    decreases texts.len(),
{
    texts.to_multiset_ensures();
    moved.to_multiset_ensures();
    if texts.len() == 0 {
        assert(filtered_records(texts, filter) =~= filtered_records(moved, filter));
    } else {
        let last = texts.last();
        let front = texts.drop_last();
        front.to_multiset_ensures();
        assert(texts =~= front.push(last));
        assert(moved.to_multiset().count(last) > 0);
        assert(moved.contains(last));
        let j = choose|j: int| 0 <= j < moved.len() && moved[j] == last;
        let others = moved.remove(j);
        assert(others.to_multiset() =~= front.to_multiset());
        lemma_order_does_not_matter(front, others, filter);
        let found = filtered_records(texts, filter);
        let found_moved = filtered_records(moved, filter);
        let found_front = filtered_records(front, filter);
        let found_others = filtered_records(others, filter);
        found_front.to_multiset_ensures();
        found_moved.to_multiset_ensures();
        assert(found =~= found_front.push(filtered_record(last, filter)));
        assert(found_moved.remove(j) =~= found_others);
        assert(found_moved[j] == filtered_record(last, filter));
        assert(found_moved.contains(found_moved[j]));
        assert(found.to_multiset() =~= found_moved.to_multiset());
    }
}

} // verus!
