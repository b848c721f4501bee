//! The subscription to a channel of the feed, as the BSON document that is
//! sent for it.

use crate::errors::Failure;
use crate::universalis::SubscribeEvent;
use vstd::prelude::*;
use vstd::utf8::encode_utf8;

verus! {

#[verifier::external_type_specification]
#[verifier::external_body]
pub struct ExDocument(bson::Document);

#[verifier::external_type_specification]
#[verifier::external_body]
pub struct ExSerError(bson::ser::Error);

/// The fields of a BSON document in their order: each key with its value,
/// where the value is a string, and with nothing where it is of another
/// type.
pub uninterp spec fn document_fields(document: bson::Document) -> Seq<
    (Seq<char>, Option<Seq<char>>),
>;

/// The four bytes that a length is written as: its lowest 32 bits, the
/// lowest byte first.
pub open spec fn length_bytes(length: nat) -> Seq<u8> {
    seq![
        (length % 256) as u8,
        (length / 256 % 256) as u8,
        (length / 65536 % 256) as u8,
        (length / 16777216 % 256) as u8,
    ]
}

/// The bytes that a field with a string as its value is written as: the
/// mark of a string, the key and a NUL byte, the length of what follows,
/// and the string and a NUL byte.
pub open spec fn field_bytes(key: Seq<char>, value: Seq<char>) -> Seq<u8> {
    seq![2u8] + encode_utf8(key) + seq![0u8] + length_bytes(encode_utf8(value).len() + 1)
        + encode_utf8(value) + seq![0u8]
}

/// The bytes of the fields, one after the other.
pub open spec fn fields_bytes(fields: Seq<(Seq<char>, Option<Seq<char>>)>) -> Seq<u8>
    recommends
        all_strings(fields),
    decreases fields.len(),
{
    if fields.len() == 0 {
        Seq::empty()
    } else {
        fields_bytes(fields.drop_last()) + field_bytes(fields.last().0, fields.last().1->0)
    }
}

/// The bytes that a BSON document is written as, for a document whose
/// values are all strings: the length of the whole, the fields, and a NUL
/// byte.
pub open spec fn document_bytes(fields: Seq<(Seq<char>, Option<Seq<char>>)>) -> Seq<u8>
    recommends
        all_strings(fields),
{
    length_bytes(fields_bytes(fields).len() + 5) + fields_bytes(fields) + seq![0u8]
}

/// Whether one of the fields has the key.
pub open spec fn has_key(fields: Seq<(Seq<char>, Option<Seq<char>>)>, key: Seq<char>) -> bool {
    exists|i: int| 0 <= i < fields.len() && (#[trigger] fields[i]).0 == key
}

/// The fields after a string was set under the key: in the place of the
/// field that had the key, or after all fields where none had it.
pub open spec fn with_string(
    fields: Seq<(Seq<char>, Option<Seq<char>>)>,
    key: Seq<char>,
    value: Seq<char>,
) -> Seq<(Seq<char>, Option<Seq<char>>)> {
    if has_key(fields, key) {
        fields.update(
            choose|i: int| 0 <= i < fields.len() && (#[trigger] fields[i]).0 == key,
            (key, Some(value)),
        )
    } else {
        fields.push((key, Some(value)))
    }
}

/// `bson::Document::new` makes a document without fields.
pub assume_specification[ bson::Document::new ]() -> (document: bson::Document)
    ensures
        document_fields(document) == Seq::<(Seq<char>, Option<Seq<char>>)>::empty(),
;

/// Calls `bson::Document::insert` with a string as the value. A document
/// keeps its fields in the order in which their keys first came: a new key
/// goes to the end, and a key that is there keeps its place and gets the new
/// value. No two fields of a document have the same key.
#[verifier::external_body]
fn insert_string(document: &mut bson::Document, key: &str, value: &str)
    ensures
        document_fields(*final(document)) == with_string(
            document_fields(*old(document)),
            key@,
            value@,
        ),
{
    document.insert(key, value);
}

/// How many bytes a string in a document takes at most: its length and one
/// more are written in 32 bits with a sign.
pub const MAX_STRING: usize = 0x7fff_fffe;

/// How many bytes a document takes at most: its length is written in 32
/// bits with a sign.
pub const MAX_DOCUMENT: usize = 0x7fff_ffff;

/// Whether every value is a string.
pub open spec fn all_strings(fields: Seq<(Seq<char>, Option<Seq<char>>)>) -> bool {
    forall|i: int| 0 <= i < fields.len() ==> (#[trigger] fields[i]).1 is Some
}

/// Whether no key holds the character that ends a key where it is written.
pub open spec fn keys_end_nowhere(fields: Seq<(Seq<char>, Option<Seq<char>>)>) -> bool {
    forall|i: int| 0 <= i < fields.len() ==> !(#[trigger] fields[i]).0.contains('\0')
}

/// Whether every string takes no more than `MAX_STRING` bytes.
pub open spec fn strings_fit(fields: Seq<(Seq<char>, Option<Seq<char>>)>) -> bool {
    forall|i: int|
        0 <= i < fields.len() ==> ((#[trigger] fields[i]).1 matches Some(value) ==> encode_utf8(
            value,
        ).len() <= MAX_STRING)
}

/// Calls `bson::Document::to_writer` with an empty vector to write to. A
/// document whose values are all strings is written unless one of its keys
/// holds a NUL character, and is written as `document_bytes` lays it out,
/// with the lowest 32 bits of its length where the length takes more.
/// Strings of more than `MAX_STRING` bytes are kept away from the call: it
/// adds one to the length of a string in 32 bits.
#[verifier::external_body]
fn write_document(document: &bson::Document) -> (r: Result<Vec<u8>, bson::ser::Error>)
    requires
        strings_fit(document_fields(*document)),
    ensures
        all_strings(document_fields(*document)) ==> (r is Ok <==> keys_end_nowhere(
            document_fields(*document),
        )),
        r matches Ok(bytes) ==> all_strings(document_fields(*document)) ==> bytes@
            == document_bytes(document_fields(*document)),
{
    let mut bytes: Vec<u8> = Vec::new();
    document.to_writer(&mut bytes).map(|_| bytes)
}

/// The fields of the document that a subscription is sent as.
pub open spec fn subscription_fields(event: Seq<char>, channel: Seq<char>) -> Seq<
    (Seq<char>, Option<Seq<char>>),
> {
    seq![("event"@, Some(event)), ("channel"@, Some(channel))]
}

/// The keys of a subscription take five and seven bytes.
proof fn lemma_subscription_keys()
    ensures
        encode_utf8("event"@).len() == 5,
        encode_utf8("channel"@).len() == 7,
{
    reveal_strlit("event");
    reveal_strlit("channel");
    reveal_with_fuel(encode_utf8, 8);
    let event = "event"@;
    let channel = "channel"@;
    assert(encode_utf8(event).len() == 5) by {
        assert(event.drop_first().drop_first().drop_first().drop_first().drop_first().len() == 0);
    }
    assert(encode_utf8(channel).len() == 7) by {
        assert(channel.drop_first().drop_first().drop_first().drop_first().drop_first()
            .drop_first().drop_first().len() == 0);
    }
}

/// A subscription is written in 31 bytes and the bytes of its two texts.
pub proof fn lemma_subscription_length(event: Seq<char>, channel: Seq<char>)
    ensures
        document_bytes(subscription_fields(event, channel)).len() == 31 + encode_utf8(event).len()
            + encode_utf8(channel).len(),
{
    lemma_subscription_keys();
    let fields = subscription_fields(event, channel);
    let first = fields.drop_last();
    assert(first =~= seq![("event"@, Some(event))]);
    assert(first.drop_last() =~= Seq::<(Seq<char>, Option<Seq<char>>)>::empty());
    assert(fields_bytes(first) == fields_bytes(first.drop_last()) + field_bytes("event"@, event));
    assert(fields_bytes(fields) == fields_bytes(first) + field_bytes("channel"@, channel));
}

/// The frame to send once the document was written; where it was not, the
/// subscription has failed as the transport fails.
pub fn subscription_frame(written: Result<Vec<u8>, bson::ser::Error>) -> (r: Result<
    Vec<u8>,
    Failure,
>)
    ensures
        match written {
            Ok(bytes) => r == Ok::<Vec<u8>, Failure>(bytes),
            Err(_) => r == Err::<Vec<u8>, Failure>(Failure::Transport),
        },
{
    match written {
        Ok(bytes) => Ok(bytes),
        Err(_) => Err(Failure::Transport),
    }
}

impl<'a> SubscribeEvent<'a> {
    /// The message that subscribes to the channel.
    pub fn subscribe(channel: &'a str) -> (r: SubscribeEvent<'a>)
        ensures
            r.event@ == "subscribe"@,
            r.channel@ == channel@,
    {
        SubscribeEvent { event: "subscribe", channel }
    }
}

/// The message as the bytes of one BSON document with the fields `event` and
/// `channel`, in this order. A message is written whenever the document is
/// one: where it takes no more than `MAX_DOCUMENT` bytes, which are 31 and
/// those of the two texts. Where it would take more, nothing is written and
/// the subscription fails as the transport fails.
pub fn serialize_event(ev: &SubscribeEvent) -> (r: Result<Vec<u8>, Failure>)
    ensures
        r is Ok <==> 31 + encode_utf8(ev.event@).len() + encode_utf8(ev.channel@).len()
            <= MAX_DOCUMENT,
        r is Ok <==> document_bytes(subscription_fields(ev.event@, ev.channel@)).len()
            <= MAX_DOCUMENT,
        r matches Ok(bytes) ==> bytes@ == document_bytes(
            subscription_fields(ev.event@, ev.channel@),
        ),
        r matches Err(failure) ==> failure == Failure::Transport,
{
    proof {
        lemma_subscription_length(ev.event@, ev.channel@);
    }
    let event_bytes = ev.event.as_bytes().len();
    let channel_bytes = ev.channel.as_bytes().len();
    if event_bytes > MAX_DOCUMENT - 31 || channel_bytes > MAX_DOCUMENT - 31 - event_bytes {
        return Err(Failure::Transport);
    }
    let mut document = bson::Document::new();
    insert_string(&mut document, "event", ev.event);
    proof {
        let first = document_fields(document);
        assert(first =~= seq![("event"@, Some(ev.event@))]);
        reveal_strlit("event");
        reveal_strlit("channel");
        assert("event"@.len() != "channel"@.len());
        assert(!has_key(first, "channel"@));
    }
    insert_string(&mut document, "channel", ev.channel);
    proof {
        let fields = document_fields(document);
        reveal_strlit("event");
        reveal_strlit("channel");
        assert(fields =~= subscription_fields(ev.event@, ev.channel@));
        assert(fields[0].1 == Some(ev.event@));
        assert(fields[1].1 == Some(ev.channel@));
        assert(!"event"@.contains('\0'));
        assert(!"channel"@.contains('\0'));
        assert(all_strings(fields));
        assert(strings_fit(fields));
        assert(keys_end_nowhere(fields));
    }
    subscription_frame(write_document(&document))
}

} // verus!
