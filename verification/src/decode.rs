//! Decoding one sample record while filtering its messages.
//!
//! Every message of the record is decoded and shown to the filter. One that
//! the filter accepts is kept; one that it turns down is dropped, and its
//! place in the transcript stays, empty. The decoded transcript therefore has
//! exactly as many places as the record has messages.

use vstd::prelude::*;
use crate::json::{
    json_integer, json_items, json_members, json_string, items_view, members_view, read_integer,
    read_items, read_members, read_string, Member,
};
use crate::record::{place_view, ChatMessage, EvalSample, MessageView};
use crate::role::{role_of_token, ChatMessageRole};
use crate::text::str_equal;

verus! {

/// A field of a sample record that the decoder reads.
#[derive(Debug, Clone, Copy, PartialEq, Eq, Structural)]
pub enum Field {
    Id,
    Epoch,
    Messages,
}

/// Why a record could not be decoded.
#[derive(Debug, Clone, Copy, PartialEq, Eq, Structural)]
pub enum DecodeError {
    /// The text does not start with a JSON object.
    NotAnObject,
    /// A field is there, and is not what it has to be: `id` a string, `epoch`
    /// an integer of 64 bits, `messages` an array.
    InvalidField(Field),
    /// The message at this place is no object with a `role` that is one of the
    /// four tokens and a `content` that is a string.
    InvalidMessage(usize),
    /// The record has no such field.
    MissingField(Field),
}

/// The name of a field, as the record writes it.
pub open spec fn field_name(field: Field) -> Seq<char> {
    match field {
        Field::Id => "id"@,
        Field::Epoch => "epoch"@,
        Field::Messages => "messages"@,
    }
}

impl Field {
    /// The name of the field, as the record writes it.
    pub fn name(&self) -> (out: &'static str)
        ensures
            out@ == field_name(*self),
    {
        match self {
            Field::Id => "id",
            Field::Epoch => "epoch",
            Field::Messages => "messages",
        }
    }
}

/// The text of the first member called `key`, if there is one.
pub open spec fn member_text(members: Seq<(Seq<char>, Seq<u8>)>, key: Seq<char>) -> Option<
    Seq<u8>,
>
    decreases members.len(),
{
    if members.len() == 0 {
        None
    } else if members[0].0 == key {
        Some(members[0].1)
    } else {
        member_text(members.drop_first(), key)
    }
}

/// The message that `text` holds: an object whose `role` is a string that is
/// one of the four role tokens, and whose `content` is a string. Other members
/// do not count. `None` where `text` is no such object.
pub open spec fn message_of(text: Seq<u8>) -> Option<MessageView> {
    match json_members(text) {
        None => None,
        Some(members) => match (member_text(members, "role"@), member_text(members, "content"@)) {
            (Some(role_text), Some(content_text)) => match (
                json_string(role_text),
                json_string(content_text),
            ) {
                (Some(token), Some(content)) => match role_of_token(token) {
                    Some(role) => Some(MessageView { role, content }),
                    None => None,
                },
                _ => None,
            },
            _ => None,
        },
    }
}

/// Whether each of the first `n` items holds a message.
pub open spec fn all_messages(items: Seq<Seq<u8>>, n: int) -> bool {
    forall|i: int| 0 <= i < n ==> (#[trigger] message_of(items[i])) is Some
}

/// The messages that the items hold, in order.
pub open spec fn messages_of(items: Seq<Seq<u8>>) -> Seq<MessageView>
    recommends
        all_messages(items, items.len() as int),
{
    Seq::new(items.len(), |i: int| message_of(items[i])->0)
}

/// Whether `i` is the place of the first item that holds no message.
pub open spec fn is_first_invalid(items: Seq<Seq<u8>>, i: int) -> bool {
    &&& 0 <= i < items.len()
    &&& message_of(items[i]) is None
    &&& all_messages(items, i)
}

/// The place of the first item that holds no message, where there is one.
pub open spec fn first_invalid(items: Seq<Seq<u8>>) -> int {
    choose|i: int| is_first_invalid(items, i)
}

/// Only one place is that of the first item that holds no message.
pub proof fn lemma_first_invalid(items: Seq<Seq<u8>>, i: int)
    requires
        is_first_invalid(items, i),
    ensures
        first_invalid(items) == i,
        !all_messages(items, items.len() as int),
{
    let c = first_invalid(items);
    assert(is_first_invalid(items, c));
    if c < i {
        assert(message_of(items[c]) is Some);
    }
    if i < c {
        assert(message_of(items[i]) is Some);
    }
}

/// A record before any filter: its id, its epoch and all of its messages.
pub struct RecordView {
    pub id: Seq<char>,
    pub epoch: i64,
    pub messages: Seq<MessageView>,
}

/// What the `messages` member of a record holds. A record without that
/// member has no messages.
pub open spec fn record_messages(members: Seq<(Seq<char>, Seq<u8>)>) -> Result<
    Seq<MessageView>,
    DecodeError,
> {
    match member_text(members, field_name(Field::Messages)) {
        None => Ok(Seq::empty()),
        Some(text) => match json_items(text) {
            None => Err(DecodeError::InvalidField(Field::Messages)),
            Some(items) => if all_messages(items, items.len() as int) {
                Ok(messages_of(items))
            } else {
                Err(DecodeError::InvalidMessage(first_invalid(items) as usize))
            },
        },
    }
}

/// The record that `text` holds, or the first thing that is wrong with it.
///
/// What is there is looked at before what is missing: first `id`, `epoch` and
/// `messages` in this order, each only if the record has it, then whether `id`
/// is there, then whether `epoch` is. Members of other names do not count.
pub open spec fn record_of(text: Seq<u8>) -> Result<RecordView, DecodeError> {
    match json_members(text) {
        None => Err(DecodeError::NotAnObject),
        Some(members) => {
            let id = member_text(members, field_name(Field::Id));
            let epoch = member_text(members, field_name(Field::Epoch));
            if id is Some && json_string(id->0) is None {
                Err(DecodeError::InvalidField(Field::Id))
            } else if epoch is Some && json_integer(epoch->0) is None {
                Err(DecodeError::InvalidField(Field::Epoch))
            } else {
                match record_messages(members) {
                    Err(e) => Err(e),
                    Ok(messages) => if id is None {
                        Err(DecodeError::MissingField(Field::Id))
                    } else if epoch is None {
                        Err(DecodeError::MissingField(Field::Epoch))
                    } else {
                        Ok(
                            RecordView {
                                id: json_string(id->0)->0,
                                epoch: json_integer(epoch->0)->0,
                                messages,
                            },
                        )
                    },
                }
            }
        },
    }
}

/// Whether `filter` may be called on every message.
pub open spec fn callable<F: Fn(&ChatMessage) -> bool>(filter: F) -> bool {
    forall|message: &ChatMessage| call_requires(filter, (message,))
}

/// Whether `filter` has turned down a message that says `message`.
pub open spec fn turns_down<F: Fn(&ChatMessage) -> bool>(filter: F, message: MessageView) -> bool {
    exists|m: ChatMessage| m@ == message && call_ensures(filter, (&m,), false)
}

/// Whether `filter` has accepted a message that says `message`.
pub open spec fn accepts<F: Fn(&ChatMessage) -> bool>(filter: F, message: MessageView) -> bool {
    exists|m: ChatMessage| m@ == message && call_ensures(filter, (&m,), true)
}

/// Whether `place` is what `filter` leaves of `message`: the message itself
/// where the filter accepted it, nothing where it turned the message down.
pub open spec fn place_filtered<F: Fn(&ChatMessage) -> bool>(
    filter: F,
    message: MessageView,
    place: Option<ChatMessage>,
) -> bool {
    match place {
        Some(kept) => kept@ == message && call_ensures(filter, (&kept,), true),
        None => turns_down(filter, message),
    }
}

/// Whether `places` is what `filter` leaves of `messages`: one place for each
/// message, in order.
pub open spec fn places_filtered<F: Fn(&ChatMessage) -> bool>(
    filter: F,
    messages: Seq<MessageView>,
    places: Seq<Option<ChatMessage>>,
) -> bool {
    &&& places.len() == messages.len()
    &&& forall|i: int|
        0 <= i < messages.len() ==> place_filtered(filter, messages[i], #[trigger] places[i])
}

/// Whether `out` is what decoding `text` under `filter` gives: the error of
/// the record where it has one, and else the record's id and epoch with what
/// the filter leaves of its messages.
pub open spec fn decoded<F: Fn(&ChatMessage) -> bool>(
    text: Seq<u8>,
    filter: F,
    out: Result<EvalSample, DecodeError>,
) -> bool {
    match record_of(text) {
        Err(e) => out == Err::<EvalSample, DecodeError>(e),
        Ok(record) => {
            &&& out is Ok
            &&& out->Ok_0.id@ == record.id
            &&& out->Ok_0.epoch == record.epoch
            &&& places_filtered(filter, record.messages, out->Ok_0.messages@)
        },
    }
}

/// Looks a member up by its key.
fn find_member<'a>(members: &'a Vec<Member>, key: &str) -> (out: Option<&'a Vec<u8>>)
    ensures
        match out {
            Some(text) => member_text(members_view(members@), key@) == Some(text@),
            None => member_text(members_view(members@), key@) is None,
        },
{
    let ghost all = members_view(members@);
    let mut i: usize = 0;
    assert(all.skip(0) =~= all);
    while i < members.len()
        invariant
            i <= members.len(),
            all == members_view(members@),
            member_text(all, key@) == member_text(all.skip(i as int), key@),
        decreases members.len() - i,
    {
        proof {
            assert(all.skip(i as int).drop_first() =~= all.skip(i + 1));
            assert(all.skip(i as int)[0] == all[i as int]);
        }
        if str_equal(members[i].0.as_str(), key) {
            return Some(&members[i].1);
        }
        i += 1;
    }
    assert(all.skip(i as int).len() == 0);
    None
}

/// Reads the string that a member holds.
fn member_string(members: &Vec<Member>, key: &str) -> (out: Option<String>)
    ensures
        match member_text(members_view(members@), key@) {
            Some(text) => match out {
                Some(value) => json_string(text) == Some(value@),
                None => json_string(text) is None,
            },
            None => out is None,
        },
{
    match find_member(members, key) {
        Some(text) => match read_string(text.as_slice()) {
            Ok(value) => Some(value),
            Err(_) => None,
        },
        None => None,
    }
}

/// Decodes one message.
pub fn decode_message(text: &[u8]) -> (out: Option<ChatMessage>)
    ensures
        place_view(out) == message_of(text@),
{
    let members = match read_members(text) {
        Ok(members) => members,
        Err(_) => { return None; },
    };
    let token = match member_string(&members, "role") {
        Some(token) => token,
        None => { return None; },
    };
    let content = match member_string(&members, "content") {
        Some(content) => content,
        None => { return None; },
    };
    match ChatMessageRole::from_token(token.as_str()) {
        Some(role) => Some(ChatMessage { role, content }),
        None => None,
    }
}

/// Decodes the messages that `items` hold and keeps those that `filter`
/// accepts, each at its place. Stops at the first item that holds no message,
/// and names its place.
pub fn decode_messages<F: Fn(&ChatMessage) -> bool>(items: &Vec<Vec<u8>>, filter: &F) -> (out:
    Result<Vec<Option<ChatMessage>>, usize>)
    requires
        callable(*filter),
    ensures
        match out {
            Ok(places) => {
                &&& all_messages(items_view(items@), items.len() as int)
                &&& places_filtered(*filter, messages_of(items_view(items@)), places@)
            },
            Err(i) => {
                &&& i < items.len()
                &&& message_of(items[i as int]@) is None
                &&& all_messages(items_view(items@), i as int)
            },
        },
{
    let ghost texts = items_view(items@);
    let mut places: Vec<Option<ChatMessage>> = Vec::new();
    let mut i: usize = 0;
    while i < items.len()
        invariant
            i <= items.len(),
            texts == items_view(items@),
            callable(*filter),
            all_messages(texts, i as int),
            places.len() == i,
            forall|k: int|
                0 <= k < i ==> place_filtered(*filter, message_of(texts[k])->0, #[trigger] places[k]),
        decreases items.len() - i,
    {
        let message = match decode_message(items[i].as_slice()) {
            Some(message) => message,
            None => { return Err(i); },
        };
        let keep = filter(&message);
        let place = if keep { Some(message) } else { None };
        places.push(place);
        i += 1;
    }
    Ok(places)
}

/// A decoder of sample records that keeps the messages its filter accepts.
pub struct FilteredEvalSampleDeserializer<F> where F: Fn(&ChatMessage) -> bool {
    message_filter: F,
}

impl<F> FilteredEvalSampleDeserializer<F> where F: Fn(&ChatMessage) -> bool {
    /// The filter that this decoder shows each message to.
    pub closed spec fn filter(self) -> F {
        self.message_filter
    }

    /// A decoder that keeps what `message_filter` accepts.
    pub fn new(message_filter: F) -> (out: Self)
        ensures
            out.filter() == message_filter,
    {
        Self { message_filter }
    }

    /// Decodes the record that `text` holds.
    ///
    /// The fields of the record are read by name; fields of other names are
    /// passed over. Each message is decoded, shown to the filter once, in the
    /// record's order, and kept at its place if the filter accepts it.
    pub fn deserialize(self, text: &[u8]) -> (out: Result<EvalSample, DecodeError>)
        requires
            callable(self.filter()),
        ensures
            decoded(text@, self.filter(), out),
    {
        let members = match read_members(text) {
            Ok(members) => members,
            Err(_) => { return Err(DecodeError::NotAnObject); },
        };
        let id = match find_member(&members, Field::Id.name()) {
            Some(id_text) => match read_string(id_text.as_slice()) {
                Ok(id) => Some(id),
                Err(_) => { return Err(DecodeError::InvalidField(Field::Id)); },
            },
            None => None,
        };
        let epoch = match find_member(&members, Field::Epoch.name()) {
            Some(epoch_text) => match read_integer(epoch_text.as_slice()) {
                Ok(epoch) => Some(epoch),
                Err(_) => { return Err(DecodeError::InvalidField(Field::Epoch)); },
            },
            None => None,
        };
        let messages = match find_member(&members, Field::Messages.name()) {
            Some(messages_text) => {
                let items = match read_items(messages_text.as_slice()) {
                    Ok(items) => items,
                    Err(_) => { return Err(DecodeError::InvalidField(Field::Messages)); },
                };
                match decode_messages(&items, &self.message_filter) {
                    Ok(places) => places,
                    Err(i) => {
                        proof {
                            lemma_first_invalid(items_view(items@), i as int);
                        }
                        return Err(DecodeError::InvalidMessage(i));
                    },
                }
            },
            None => Vec::new(),
        };
        let id = match id {
            Some(id) => id,
            None => { return Err(DecodeError::MissingField(Field::Id)); },
        };
        let epoch = match epoch {
            Some(epoch) => epoch,
            None => { return Err(DecodeError::MissingField(Field::Epoch)); },
        };
        Ok(EvalSample { id, epoch, messages })
    }
}

/// Decodes the sample record that `text` holds, keeping the messages that
/// `filter` accepts.
pub fn deserialize_sample_filtered<F: Fn(&ChatMessage) -> bool>(text: &[u8], filter: F) -> (out:
    Result<EvalSample, DecodeError>)
    requires
        callable(filter),
    ensures
        decoded(text@, filter, out),
{
    let deserializer = FilteredEvalSampleDeserializer::new(filter);
    deserializer.deserialize(text)
}

} // verus!
