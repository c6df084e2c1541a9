//! Messages as the DNS library reads and writes them.

use hickory_proto::op::{Message, MessageType, OpCode, Query};
use hickory_proto::rr::{Name, RData, RecordType};
use vstd::prelude::*;
use vstd::string::*;

verus! {

/// What a message holds: whether it is a query, whether its opcode is QUERY,
/// and how many questions, authority records, additional records and signatures
/// it has. An EDNS record is not among the additional records. Of each answer,
/// the address bytes of an A or AAAA record, nothing for records of other
/// types, and the TTL.
pub struct Parsed {
    pub is_query: bool,
    pub is_query_op: bool,
    pub queries: usize,
    pub name_servers: usize,
    pub additionals: usize,
    pub signatures: usize,
    pub answers: Vec<(Option<Vec<u8>>, u32)>,
}

/// An answer as plain values.
pub type Answer = (Option<Seq<u8>>, u32);

/// What a message holds, in the order of `Parsed`.
pub type Content = (bool, bool, nat, nat, nat, nat, Seq<Answer>);

pub open spec fn answer_view(a: (Option<Vec<u8>>, u32)) -> Answer {
    (
        match a.0 {
            Some(bytes) => Some(bytes@),
            None => None,
        },
        a.1,
    )
}

pub open spec fn answer_views(v: Seq<(Option<Vec<u8>>, u32)>) -> Seq<Answer> {
    v.map_values(|a: (Option<Vec<u8>>, u32)| answer_view(a))
}

impl View for Parsed {
    type V = Content;

    open spec fn view(&self) -> Content {
        (
            self.is_query,
            self.is_query_op,
            self.queries as nat,
            self.name_servers as nat,
            self.additionals as nat,
            self.signatures as nat,
            answer_views(self.answers@),
        )
    }
}

/// Whether every address is one: four bytes of an A record, or sixteen of an
/// AAAA record.
pub open spec fn addresses_complete(answers: Seq<(Option<Vec<u8>>, u32)>) -> bool {
    forall|i: int|
        0 <= i < answers.len() && (#[trigger] answers[i]).0 is Some ==> (answers[i].0->0)@.len()
            == 4 || (answers[i].0->0)@.len() == 16
}

/// What the bytes of a message hold, or the text of the error with which they
/// are refused.
pub uninterp spec fn hickory_content(message: Seq<u8>) -> Result<Content, Seq<char>>;

/// Nothing for a text that is a domain name, or the text of the error with which
/// it is refused.
pub uninterp spec fn hickory_name(host: Seq<char>) -> Result<(), Seq<char>>;

/// The bytes of a recursive query for the records of one type of a name, or the
/// text of the error with which the name is refused.
pub uninterp spec fn hickory_query(id: u16, host: Seq<char>, record_type: u16) -> Result<
    Seq<u8>,
    Seq<char>,
>;

/// Whether a message is a recursive query with this ID and one question, which
/// ends in the record type and the class IN, and with nothing else.
pub open spec fn is_recursive_query(id: u16, record_type: u16, message: Seq<u8>) -> bool {
    let n = message.len() as int;
    &&& n >= 17
    &&& message.take(12) == seq![
        (id / 256) as u8,
        (id % 256) as u8,
        1u8,
        0u8,
        0u8,
        1u8,
        0u8,
        0u8,
        0u8,
        0u8,
        0u8,
        0u8,
    ]
    &&& message.skip(n - 4) == seq![
        (record_type / 256) as u8,
        (record_type % 256) as u8,
        0u8,
        1u8,
    ]
}

/// `hickory_proto::op::Message::from_vec`, and what the message holds. An A
/// record has four address bytes and an AAAA record sixteen. Which bytes are a
/// message is not stated.
#[verifier::external_body]
pub(crate) fn read_message(message: &[u8]) -> (r: Result<Parsed, String>)
    ensures
        match hickory_content(message@) {
            Ok(content) => r matches Ok(got) && got@ == content,
            Err(error) => r matches Err(got) && got@ == error,
        },
        r matches Ok(got) ==> addresses_complete(got.answers@),
{
    let m = Message::from_vec(message).map_err(|e| e.to_string())?;
    let address = |data: &RData| match data {
        RData::A(a) => Some(a.octets().to_vec()),
        RData::AAAA(a) => Some(a.octets().to_vec()),
        _ => None,
    };
    Ok(Parsed { is_query: m.message_type() == MessageType::Query,
        is_query_op: m.op_code() == OpCode::Query, queries: m.queries().len(),
        name_servers: m.name_servers().len(), additionals: m.additionals().len(),
        signatures: m.signature().len(),
        answers: m.answers().iter().map(|r| (address(r.data()), r.ttl())).collect() })
}

/// `hickory_proto::rr::Name::from_str`: whether a text is a domain name. Which
/// texts are depends on the text alone and is not stated further.
#[verifier::external_body]
pub(crate) fn check_name(host: &str) -> (r: Result<(), String>)
    ensures
        match hickory_name(host@) {
            Ok(()) => r is Ok,
            Err(message) => r matches Err(got) && got@ == message,
        },
{
    let name: Result<Name, _> = std::str::FromStr::from_str(host);
    name.map(|_| ()).map_err(|e| e.to_string())
}

/// `hickory_proto::op::Message::to_vec` on a recursive query with one question,
/// for a name that `Name::from_str` accepts: a header with the ID, the RD flag
/// and one question, the name, the record type and the class IN. How the name is
/// encoded depends on the text alone and is not stated further.
#[verifier::external_body]
pub(crate) fn write_query(id: u16, host: &str, record_type: u16) -> (r: Result<Vec<u8>, String>)
    ensures
        match hickory_query(id, host@, record_type) {
            Ok(bytes) => r matches Ok(got) && got@ == bytes,
            Err(message) => r matches Err(got) && got@ == message,
        },
        r matches Ok(got) ==> is_recursive_query(id, record_type, got@),
        r is Ok ==> hickory_name(host@) is Ok,
{
    let name = <Name as std::str::FromStr>::from_str(host).map_err(|e| e.to_string())?;
    let mut msg = Message::new();
    msg.set_id(id).set_message_type(MessageType::Query).set_op_code(OpCode::Query);
    msg.set_recursion_desired(true).add_query(Query::query(name, RecordType::from(record_type)));
    msg.to_vec().map_err(|e| e.to_string())
}

} // verus!
