//! DNS wire format, through hickory_proto: what a message's questions and
//! answers are, and the replies built from them.
use crate::dns::{views, Question, Record, RecordData, RecordView};
use hickory_proto::op::{Message, MessageType};
use hickory_proto::rr::rdata::{A, AAAA, PTR};
use hickory_proto::rr::{Name, RData};
use hickory_proto::serialize::binary::BinDecodable;
use vstd::prelude::*;

verus! {

/// The question section of the message encoded by `b`, when `b` decodes.
pub uninterp spec fn questions_of(b: Seq<u8>) -> Option<Seq<Question>>;

/// The answer section of the message encoded by `b`, when `b` decodes.
pub uninterp spec fn answers_of(b: Seq<u8>) -> Option<Seq<Record>>;

/// The encoding of the request `req` turned into a response that carries
/// `answers` after the answers it already had.
pub uninterp spec fn reply_with(req: Seq<u8>, answers: Seq<RecordView>) -> Option<Seq<u8>>;

/// The encoding of the message `reply` with its answer section replaced by
/// its answers at positions `kept`, in that order.
pub uninterp spec fn reply_keeping(reply: Seq<u8>, kept: Seq<usize>) -> Option<Seq<u8>>;

/// Relies on hickory_proto's `Message::from_bytes` and `Message::queries`:
/// each question's name as text and its type code.
#[verifier::external_body]
pub(crate) fn decode_questions(bytes: &[u8]) -> (r: Option<Vec<Question>>)
    ensures
        match r {
            Some(v) => questions_of(bytes@) == Some(v@),
            None => questions_of(bytes@) is None,
        },
{
    let m = Message::from_bytes(bytes).ok()?;
    Some(m.queries().iter().map(|q| Question { name: q.name().to_utf8(), qtype: u16::from(q.query_type()) }).collect())
}

/// Relies on hickory_proto's `Message::from_bytes` and `Message::answers`:
/// each answer's owner name as text, type code, TTL, and its A, AAAA or PTR data.
#[verifier::external_body]
pub(crate) fn decode_answers(bytes: &[u8]) -> (r: Option<Vec<Record>>)
    ensures
        match r {
            Some(v) => answers_of(bytes@) == Some(v@),
            None => answers_of(bytes@) is None,
        },
{
    let m = Message::from_bytes(bytes).ok()?;
    Some(m.answers().iter().map(|r| Record {
        name: r.name().to_utf8(),
        rtype: u16::from(r.record_type()),
        ttl: r.ttl(),
        data: match r.data() {
            Some(RData::A(a)) => RecordData::A(u32::from(a.0)),
            Some(RData::AAAA(a)) => RecordData::Aaaa(u128::from(a.0)),
            Some(RData::PTR(p)) => RecordData::Ptr(p.0.to_utf8()),
            _ => RecordData::Other,
        },
    }).collect())
}

/// Relies on hickory_proto's `Message::from_bytes`, `set_message_type`,
/// `add_answer`, `Record::from_rdata`, `Name::from_ascii` and `Message::to_vec`.
#[verifier::external_body]
pub(crate) fn encode_reply(request: &[u8], answers: &[Record]) -> (r: Option<Vec<u8>>)
    ensures
        match r {
            Some(v) => reply_with(request@, views(answers@)) == Some(v@),
            None => reply_with(request@, views(answers@)) is None,
        },
{
    let mut m = Message::from_bytes(request).ok()?;
    m.set_message_type(MessageType::Response);
    for a in answers.iter() {
        let data = match &a.data {
            RecordData::A(v) => RData::A(A((*v).into())),
            RecordData::Aaaa(v) => RData::AAAA(AAAA((*v).into())),
            RecordData::Ptr(n) => RData::PTR(PTR(Name::from_ascii(n).ok()?)),
            RecordData::Other => return None,
        };
        m.add_answer(hickory_proto::rr::Record::from_rdata(Name::from_ascii(&a.name).ok()?, a.ttl, data));
    }
    m.to_vec().ok()
}

/// Relies on hickory_proto's `Message::from_bytes`, `take_answers`,
/// `insert_answers` and `Message::to_vec`.
#[verifier::external_body]
pub(crate) fn encode_keeping(reply: &[u8], kept: &[usize]) -> (r: Option<Vec<u8>>)
    requires
        answers_of(reply@) matches Some(a) && forall|i: int| 0 <= i < kept@.len() ==> #[trigger] kept@[i] < a.len(),
    ensures
        match r {
            Some(v) => reply_keeping(reply@, kept@) == Some(v@),
            None => reply_keeping(reply@, kept@) is None,
        },
{
    let mut m = Message::from_bytes(reply).ok()?;
    let all = m.take_answers();
    m.insert_answers(kept.iter().map(|&i| all[i].clone()).collect());
    m.to_vec().ok()
}

} // verus!
