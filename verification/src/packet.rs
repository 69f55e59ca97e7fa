//! JSON-RPC packets: requests, responses, and their ids.
use serde_json::value::RawValue;
use vstd::prelude::*;

verus! {

/// Id of a JSON-RPC request or response.
#[derive(Clone, Debug)]
pub enum Id {
    /// A number.
    Number(u64),
    /// A string.
    Text(String),
    /// No id, as in the answer to a batch that could not be read.
    Null,
}

/// An id, with its text as a sequence of characters.
pub enum IdView {
    /// A number.
    Number(u64),
    /// A string.
    Text(Seq<char>),
    /// No id.
    Null,
}

impl View for Id {
    type V = IdView;

    open spec fn view(&self) -> IdView {
        match *self {
            Id::Number(number) => IdView::Number(number),
            Id::Text(text) => IdView::Text(text@),
            Id::Null => IdView::Null,
        }
    }
}

impl Id {
    /// Whether the two ids are the same.
    pub fn same(&self, other: &Id) -> (r: bool)
        ensures
            r == (self@ == other@),
    {
        match (self, other) {
            (Id::Number(a), Id::Number(b)) => *a == *b,
            (Id::Text(a), Id::Text(b)) => *a == *b,
            (Id::Null, Id::Null) => true,
            _ => false,
        }
    }
}

/// One request, or several that are sent together.
#[derive(Debug)]
pub enum RequestPacket<R> {
    /// A single request.
    Single(R),
    /// A batch of requests.
    Batch(Vec<R>),
}

/// The response to a request.
#[derive(Debug)]
pub struct Response<P> {
    /// Id of the request.
    pub id: Id,
    /// The result or the error.
    pub payload: P,
}

/// One response, or several that came together.
#[derive(Debug)]
pub enum ResponsePacket<P> {
    /// A single response.
    Single(Response<P>),
    /// A batch of responses.
    Batch(Vec<Response<P>>),
}

/// The responses of a packet, in order.
pub open spec fn responses_of<P>(packet: ResponsePacket<P>) -> Seq<Response<P>> {
    match packet {
        ResponsePacket::Single(response) => seq![response],
        ResponsePacket::Batch(responses) => responses@,
    }
}

impl<P> ResponsePacket<P> {
    /// The responses of the packet, in order.
    pub fn into_responses(self) -> (responses: Vec<Response<P>>)
        ensures
            responses@ == responses_of(self),
    {
        match self {
            ResponsePacket::Single(response) => {
                let mut responses: Vec<Response<P>> = Vec::new();
                responses.push(response);
                assert(responses@ =~= seq![response]);
                responses
            },
            ResponsePacket::Batch(responses) => responses,
        }
    }
}

impl<P> ResponsePacket<P> {
    /// A packet of the responses: a single one stands by itself, otherwise they are a batch.
    pub fn from_responses(responses: Vec<Response<P>>) -> (packet: Self)
        ensures
            responses_of(packet) == responses@,
            packet is Single <==> responses@.len() == 1,
    {
        let mut responses = responses;
        if responses.len() == 1 {
            let ghost before = responses@;
            let response = responses.swap_remove(0);
            assert(seq![response] =~= before);
            ResponsePacket::Single(response)
        } else {
            ResponsePacket::Batch(responses)
        }
    }
}

/// The texts of strings.
pub open spec fn texts_of(strings: Seq<String>) -> Seq<Seq<char>> {
    strings.map_values(|s: String| s@)
}

/// How many bytes a JSON text takes when it is serialized on its own; nothing if it is no JSON.
pub uninterp spec fn json_len(text: Seq<char>) -> Option<usize>;

/// How many bytes JSON texts take together; nothing if one is no JSON.
pub open spec fn json_sum(texts: Seq<Seq<char>>) -> Option<nat>
    decreases texts.len(),
{
    if texts.len() == 0 {
        Some(0)
    } else {
        match (json_sum(texts.drop_last()), json_len(texts.last())) {
            (Some(sum), Some(len)) => Some(sum + len as nat),
            _ => None,
        }
    }
}

/// How many bytes JSON texts take when they are serialized as a list: the texts, the commas
/// between them, and the brackets; nothing if one is no JSON.
pub open spec fn json_list_len(texts: Seq<Seq<char>>) -> Option<nat> {
    match json_sum(texts) {
        Some(sum) => Some(
            if texts.len() == 0 {
                2
            } else {
                sum + (texts.len() - 1) as nat + 2
            },
        ),
        None => None,
    }
}

/// `serde_json::to_vec` of a raw JSON value: the number of bytes that it writes depends on the
/// text alone. A text that is no JSON makes no raw value, and has no length.
#[verifier::external_body]
fn raw_json_len(text: &String) -> (r: Option<usize>)
    ensures
        r == json_len(text@),
{
    let value = RawValue::from_string(text.clone()).ok()?;
    serde_json::to_vec(&value).ok().map(|bytes| bytes.len())
}

/// `serde_json::to_vec` of a list of raw JSON values: it writes each as it is written on its own,
/// with commas between them and brackets around them. A text that is no JSON makes no raw value,
/// and the list has no length.
#[verifier::external_body]
fn raw_json_list_len(texts: &Vec<String>) -> (r: Option<usize>)
    ensures
        match r {
            Some(len) => json_list_len(texts_of(texts@)) == Some(len as nat),
            None => json_list_len(texts_of(texts@)) is None,
        },
{
    let values: Option<Vec<Box<RawValue>>> = texts
        .iter()
        .map(|text| RawValue::from_string(text.clone()).ok())
        .collect();
    serde_json::to_vec(&values?).ok().map(|bytes| bytes.len())
}

/// Size of a packet of JSON texts in bytes, as far as it can be serialized.
pub open spec fn packet_len(packet: RequestPacket<String>) -> Option<nat> {
    match packet {
        RequestPacket::Single(text) => match json_len(text@) {
            Some(len) => Some(len as nat),
            None => None,
        },
        RequestPacket::Batch(texts) => json_list_len(texts_of(texts@)),
    }
}

/// The size to reckon with for a packet whose serialized size is known or not: one that cannot be
/// serialized counts as larger than any limit.
pub fn bytes_or_max(len: Option<usize>) -> (bytes: usize)
    ensures
        bytes == match len {
            Some(len) => len,
            None => usize::MAX,
        },
{
    match len {
        Some(len) => len,
        None => usize::MAX,
    }
}

/// Serialized size of a packet of JSON texts, by which endpoints accept or refuse it. A packet that
/// cannot be serialized counts as larger than any limit.
pub fn request_bytes(packet: &RequestPacket<String>) -> (bytes: usize)
    ensures
        match packet_len(*packet) {
            Some(len) => bytes == len,
            None => bytes == usize::MAX,
        },
{
    let len = match packet {
        RequestPacket::Single(text) => raw_json_len(text),
        RequestPacket::Batch(texts) => raw_json_list_len(texts),
    };
    bytes_or_max(len)
}

/// A list is its brackets, its texts and the commas between them: an empty one takes two bytes,
/// the first text adds what it takes on its own, and every further one a comma as well. A list
/// with a text that is no JSON has no size, and neither has any longer one.
pub proof fn law_lists_grow_by_their_texts(texts: Seq<Seq<char>>, text: Seq<char>)
    ensures
        json_list_len(Seq::empty()) == Some(2nat),
        json_list_len(seq![text]) == match json_len(text) {
            Some(len) => Some((len + 2) as nat),
            None => None::<nat>,
        },
        texts.len() > 0 ==> json_list_len(texts.push(text)) == match (
            json_list_len(texts),
            json_len(text),
        ) {
            (Some(list), Some(len)) => Some((list + 1 + len) as nat),
            _ => None::<nat>,
        },
{
    assert(texts.push(text).drop_last() =~= texts);
    assert(seq![text].drop_last() =~= Seq::empty());
    assert(json_sum(Seq::empty()) == Some(0nat));
}

/// A packet of one request is as large as its text, and a batch as large as the list of its
/// texts, which stand in the order of its requests.
pub proof fn law_packets_are_sized_by_their_texts(text: String, texts: Vec<String>, i: int)
    ensures
        json_len(text@) matches Some(len) ==> packet_len(RequestPacket::Single(text)) == Some(
            len as nat,
        ),
        json_len(text@) is None ==> packet_len(RequestPacket::Single(text)) is None,
        packet_len(RequestPacket::Batch(texts)) == json_list_len(texts_of(texts@)),
        texts_of(texts@).len() == texts@.len(),
        0 <= i < texts@.len() ==> texts_of(texts@)[i] == texts@[i]@,
{
}

/// The responses of a packet are the single one, or those of the batch.
pub proof fn law_responses_of_packets<P>(response: Response<P>, responses: Vec<Response<P>>)
    ensures
        responses_of(ResponsePacket::Single(response)).len() == 1,
        responses_of(ResponsePacket::Single(response))[0] == response,
        responses_of(ResponsePacket::Batch(responses)) == responses@,
{
}

/// Ids are the same exactly if both are the same number, both the same text, or neither is there.
pub proof fn law_ids_differ_in_value(a: Id, b: Id)
    ensures
        a@ == b@ <==> match (a, b) {
            (Id::Number(x), Id::Number(y)) => x == y,
            (Id::Text(x), Id::Text(y)) => x@ == y@,
            (Id::Null, Id::Null) => true,
            _ => false,
        },
{
}

} // verus!
