//! What is shown of a decoded sample: one block for each message that was
//! kept, in the order of the transcript.
//!
//! The places that the filter emptied show nothing. A run of empty places
//! counts as one gap, however long it is.

use vstd::prelude::*;
use itertools::Itertools;
use crate::pattern::{regex_spans, Pattern};
use crate::record::{place_view, places_view, ChatMessage, EvalSample, MessageView, SampleView};
use crate::role::{role_color, role_token, ChatMessageRole, RoleColor};

verus! {

/// `places` with each run of empty places made one empty place.
pub open spec fn collapse_gaps<T>(places: Seq<Option<T>>) -> Seq<Option<T>>
    decreases places.len(),
{
    if places.len() == 0 {
        places
    } else {
        let before = collapse_gaps(places.drop_last());
        if places.len() >= 2 && places[places.len() - 2] is None && places.last() is None {
            before
        } else {
            before.push(places.last())
        }
    }
}

/// The messages that `places` hold, in order.
pub open spec fn present<T>(places: Seq<Option<T>>) -> Seq<T>
    decreases places.len(),
{
    if places.len() == 0 {
        Seq::empty()
    } else {
        let before = present(places.drop_last());
        match places.last() {
            Some(message) => before.push(message),
            None => before,
        }
    }
}

/// Making one gap of each run of empty places loses no message and keeps
/// the messages in order.
pub proof fn lemma_collapse_keeps_messages<T>(places: Seq<Option<T>>)
    ensures
        present(collapse_gaps(places)) == present(places),
    decreases places.len(),
{
    if places.len() > 0 {
        lemma_collapse_keeps_messages(places.drop_last());
        let before = collapse_gaps(places.drop_last());
        if !(places.len() >= 2 && places[places.len() - 2] is None && places.last() is None) {
            assert(before.push(places.last()).drop_last() =~= before);
        }
    }
}

/// After the runs are made one, no two empty places stand side by side.
pub proof fn lemma_collapse_leaves_single_gaps<T>(places: Seq<Option<T>>)
    ensures
        collapse_gaps(places).len() <= places.len(),
        places.len() > 0 ==> collapse_gaps(places).len() > 0 && (collapse_gaps(places).last()
            is None <==> places.last() is None),
        forall|i: int|
            0 <= i < collapse_gaps(places).len() - 1 ==> !(collapse_gaps(places)[i] is None
                && #[trigger] collapse_gaps(places)[i + 1] is None),
    decreases places.len(),
{
    if places.len() > 0 {
        lemma_collapse_leaves_single_gaps(places.drop_last());
    }
}

/// Whether both places are empty.
pub fn both_absent(a: &Option<ChatMessage>, b: &Option<ChatMessage>) -> (out: bool)
    ensures
        out == (a is None && b is None),
{
    a.is_none() && b.is_none()
}

/// What the references point to, in order.
pub open spec fn pointed_to(places: Seq<&Option<ChatMessage>>) -> Seq<Option<ChatMessage>> {
    Seq::new(places.len(), |i: int| *places[i])
}

/// Calls `itertools::Itertools::dedup_by` on the places, with "both are empty"
/// for "equal": of each run of places that are equal in this sense the first
/// stays, and the order of what stays is kept.
#[verifier::external_body]
fn dedup_gaps<'a>(places: &'a Vec<Option<ChatMessage>>) -> (out: Vec<&'a Option<ChatMessage>>)
    ensures
        pointed_to(out@) == collapse_gaps(places@),
{
    places.iter().dedup_by(|a, b| both_absent(a, b)).collect()
}

/// The places of a transcript with each run of empty places made one.
pub fn collapsed<'a>(places: &'a Vec<Option<ChatMessage>>) -> (out: Vec<&'a Option<ChatMessage>>)
    ensures
        pointed_to(out@) == collapse_gaps(places@),
{
    dedup_gaps(places)
}

/// One message as it is shown: where it comes from, who wrote it and in which
/// colour that is shown, what it says, and where in that the search pattern
/// matches.
#[derive(Debug, Clone, PartialEq, Eq)]
pub struct MessageBlock {
    pub file_name: String,
    pub sample_id: String,
    pub epoch: i64,
    pub role: ChatMessageRole,
    pub color: RoleColor,
    pub label: String,
    pub content: String,
    pub highlights: Vec<(usize, usize)>,
}

/// A block as plain values.
pub struct BlockView {
    pub file_name: Seq<char>,
    pub sample_id: Seq<char>,
    pub epoch: i64,
    pub role: ChatMessageRole,
    pub color: RoleColor,
    pub label: Seq<char>,
    pub content: Seq<char>,
    pub highlights: Seq<(usize, usize)>,
}

impl View for MessageBlock {
    type V = BlockView;

    open spec fn view(&self) -> BlockView {
        BlockView {
            file_name: self.file_name@,
            sample_id: self.sample_id@,
            epoch: self.epoch,
            role: self.role,
            color: self.color,
            label: self.label@,
            content: self.content@,
            highlights: self.highlights@,
        }
    }
}

/// Where `highlight` matches in `content`; nowhere, if there is no pattern.
pub open spec fn highlights_of(highlight: Option<Pattern>, content: Seq<char>) -> Seq<
    (usize, usize),
> {
    match highlight {
        Some(pattern) => regex_spans(pattern@, content),
        None => Seq::empty(),
    }
}

/// The block that shows `message` of the sample `sample_id` at `epoch` in the
/// file `file_name`. The label is the role's token in square brackets.
pub open spec fn block_of(
    file_name: Seq<char>,
    sample_id: Seq<char>,
    epoch: i64,
    message: MessageView,
    highlight: Option<Pattern>,
) -> BlockView {
    BlockView {
        file_name,
        sample_id,
        epoch,
        role: message.role,
        color: role_color(message.role),
        label: "["@ + role_token(message.role) + "]"@,
        content: message.content,
        highlights: highlights_of(highlight, message.content),
    }
}

/// The blocks that show a sample: one for each message that was kept, in the
/// order of the transcript.
pub open spec fn blocks_of(file_name: Seq<char>, sample: SampleView, highlight: Option<Pattern>) -> Seq<
    BlockView,
> {
    let kept = present(sample.messages);
    Seq::new(
        kept.len(),
        |i: int| block_of(file_name, sample.id, sample.epoch, kept[i], highlight),
    )
}

/// The blocks as plain values.
pub open spec fn blocks_view(blocks: Seq<MessageBlock>) -> Seq<BlockView> {
    Seq::new(blocks.len(), |i: int| blocks[i]@)
}

/// Lays out one message. `source` names the file, the sample and the epoch.
pub fn display_message(
    source: (&str, &str, i64),
    message: &ChatMessage,
    highlight_regex: &Option<Pattern>,
) -> (out: MessageBlock)
    ensures
        out@ == block_of(source.0@, source.1@, source.2, message@, *highlight_regex),
{
    let (log_file, sample_id, epoch) = source;
    let mut label = "[".to_owned();
    label.append(message.role.as_str());
    label.append("]");
    let highlights = match highlight_regex {
        Some(pattern) => pattern.spans(message.content.as_str()),
        None => Vec::new(),
    };
    MessageBlock {
        file_name: log_file.to_owned(),
        sample_id: sample_id.to_owned(),
        epoch,
        role: message.role,
        color: message.role.color(),
        label,
        content: message.content.clone(),
        highlights,
    }
}

/// The views of the messages that places hold are the messages that the
/// views of the places hold.
pub proof fn lemma_present_views(places: Seq<Option<ChatMessage>>)
    ensures
        present(places_view(places)) == Seq::new(
            present(places).len(),
            |i: int| present(places)[i]@,
        ),
    decreases places.len(),
{
    if places.len() == 0 {
        assert(places_view(places) =~= Seq::empty());
        assert(present(places_view(places)) =~= Seq::new(
            present(places).len(),
            |i: int| present(places)[i]@,
        ));
    } else {
        lemma_present_views(places.drop_last());
        assert(places_view(places).drop_last() =~= places_view(places.drop_last()));
        assert(places_view(places).last() == place_view(places.last()));
        assert(present(places_view(places)) =~= Seq::new(
            present(places).len(),
            |i: int| present(places)[i]@,
        ));
    }
}

/// Lays out a decoded sample of the file `file_name`: one block for each
/// message that was kept, in order, and nothing for the gaps.
pub fn render_sample(file_name: &str, sample: &EvalSample, highlight_regex: &Option<Pattern>) -> (out:
    Vec<MessageBlock>)
    ensures
        blocks_view(out@) == blocks_of(file_name@, sample@, *highlight_regex),
{
    let places = collapsed(&sample.messages);
    let ghost collapsed = pointed_to(places@);
    let mut blocks: Vec<MessageBlock> = Vec::new();
    let mut i: usize = 0;
    assert(collapsed.take(0) =~= Seq::empty());
    while i < places.len()
        invariant
            i <= places.len(),
            collapsed == pointed_to(places@),
            blocks.len() == present(collapsed.take(i as int)).len(),
            forall|k: int|
                0 <= k < blocks.len() ==> (#[trigger] blocks[k])@ == block_of(
                    file_name@,
                    sample.id@,
                    sample.epoch,
                    present(collapsed.take(i as int))[k]@,
                    *highlight_regex,
                ),
        decreases places.len() - i,
    {
        proof {
            let seen = collapsed.take(i + 1);
            assert(seen.drop_last() =~= collapsed.take(i as int));
            assert(seen.last() == *places[i as int]);
        }
        if let Some(message) = places[i] {
            let block = display_message(
                (file_name, sample.id.as_str(), sample.epoch),
                message,
                highlight_regex,
            );
            blocks.push(block);
        }
        i += 1;
    }
    proof {
        assert(collapsed.take(i as int) =~= collapsed);
        lemma_collapse_keeps_messages(sample.messages@);
        lemma_present_views(sample.messages@);
        assert(blocks_view(blocks@) =~= blocks_of(file_name@, sample@, *highlight_regex));
    }
    blocks
}

/// A piece of a message's content, from byte `start` up to byte `end`, and
/// whether it is to be emphasized.
#[derive(Debug, Clone, Copy, PartialEq, Eq, Structural)]
pub struct Segment {
    pub start: usize,
    pub end: usize,
    pub emphasized: bool,
}

/// Whether a match lies behind what is laid out already and within the
/// content.
pub open spec fn fits(done: usize, length: usize, span: (usize, usize)) -> bool {
    done <= span.0 <= span.1 <= length
}

/// The content from byte `done` on, cut into pieces along the matches: what
/// lies before a match is a plain piece, the match an emphasized one, and what
/// lies behind the last match a plain piece again. A match that does not fit
/// is passed over.
pub open spec fn pieces(done: usize, length: usize, spans: Seq<(usize, usize)>) -> Seq<Segment>
    decreases spans.len(),
{
    if spans.len() == 0 {
        seq![Segment { start: done, end: length, emphasized: false }]
    } else if fits(done, length, spans[0]) {
        seq![
            Segment { start: done, end: spans[0].0, emphasized: false },
            Segment { start: spans[0].0, end: spans[0].1, emphasized: true },
        ] + pieces(spans[0].1, length, spans.drop_first())
    } else {
        pieces(done, length, spans.drop_first())
    }
}

/// The pieces lie side by side and cover the content from `done` to its end:
/// the first starts at `done`, each starts where the one before it ends, and
/// the last ends where the content ends.
pub proof fn lemma_pieces_cover(done: usize, length: usize, spans: Seq<(usize, usize)>)
    requires
        done <= length,
    ensures
        pieces(done, length, spans).len() >= 1,
        pieces(done, length, spans).first().start == done,
        pieces(done, length, spans).last().end == length,
        forall|i: int|
            0 <= i < pieces(done, length, spans).len() ==> (#[trigger] pieces(
                done,
                length,
                spans,
            )[i]).start <= pieces(done, length, spans)[i].end <= length,
        forall|i: int|
            0 <= i < pieces(done, length, spans).len() - 1 ==> (#[trigger] pieces(
                done,
                length,
                spans,
            )[i]).end == pieces(done, length, spans)[i + 1].start,
    decreases spans.len(),
{
    if spans.len() > 0 {
        if fits(done, length, spans[0]) {
            lemma_pieces_cover(spans[0].1, length, spans.drop_first());
            let head = seq![
                Segment { start: done, end: spans[0].0, emphasized: false },
                Segment { start: spans[0].0, end: spans[0].1, emphasized: true },
            ];
            let tail = pieces(spans[0].1, length, spans.drop_first());
            let all = pieces(done, length, spans);
            assert(all =~= head + tail);
            assert forall|i: int| 0 <= i < all.len() implies (#[trigger] all[i]).start
                <= all[i].end <= length by {
                if i >= 2 {
                    assert(all[i] == tail[i - 2]);
                }
            }
            assert forall|i: int| 0 <= i < all.len() - 1 implies (#[trigger] all[i]).end == all[i
                + 1].start by {
                if i >= 2 {
                    assert(all[i] == tail[i - 2]);
                    assert(all[i + 1] == tail[i - 1]);
                } else if i == 1 {
                    assert(all[2] == tail[0]);
                }
            }
        } else {
            lemma_pieces_cover(done, length, spans.drop_first());
        }
    }
}

/// Cuts a content of `length` bytes into pieces along the matches in it.
pub fn segments(length: usize, highlights: &Vec<(usize, usize)>) -> (out: Vec<Segment>)
    ensures
        out@ == pieces(0, length, highlights@),
{
    let mut out: Vec<Segment> = Vec::new();
    let mut done: usize = 0;
    let mut i: usize = 0;
    assert(highlights@.skip(0) =~= highlights@);
    while i < highlights.len()
        invariant
            i <= highlights.len(),
            out@ + pieces(done, length, highlights@.skip(i as int)) == pieces(
                0,
                length,
                highlights@,
            ),
        decreases highlights.len() - i,
    {
        let (start, end) = highlights[i];
        proof {
            let rest = highlights@.skip(i as int);
            assert(rest[0] == highlights[i as int]);
            assert(rest.drop_first() =~= highlights@.skip(i + 1));
        }
        if done <= start && start <= end && end <= length {
            let ghost before = out@;
            out.push(Segment { start: done, end: start, emphasized: false });
            out.push(Segment { start, end, emphasized: true });
            proof {
                let head = seq![
                    Segment { start: done, end: start, emphasized: false },
                    Segment { start, end, emphasized: true },
                ];
                let tail = pieces(end, length, highlights@.skip(i + 1));
                assert(out@ =~= before + head);
                assert((before + head) + tail =~= before + (head + tail));
            }
            done = end;
        }
        i += 1;
    }
    let ghost before = out@;
    out.push(Segment { start: done, end: length, emphasized: false });
    proof {
        assert(highlights@.skip(i as int) =~= Seq::empty());
        assert(out@ =~= before + pieces(done, length, Seq::empty()));
    }
    out
}

} // verus!
