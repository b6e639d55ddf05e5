//! The exchange of headers that opens every peer connection.

use vstd::prelude::*;
use crate::tcpros::descriptor::{MessageType, MessageTypeModel};
use crate::tcpros::header::{get, value_of};
use crate::text::{pairs, same_text};

verus! {

/// Why a handshake failed.
#[derive(Clone, Debug, PartialEq, Eq)]
pub enum Fault {
    /// The header lacks this field.
    MissingField(String),
    /// The field does not hold what is expected of it: the field, what was
    /// expected, what came.
    Mismatch(String, String, String),
    /// The peer sent an error, with this reason.
    Rejected(String),
}

/// A fault with its texts.
pub enum FaultModel {
    MissingField(Seq<char>),
    Mismatch(Seq<char>, Seq<char>, Seq<char>),
    Rejected(Seq<char>),
}

impl View for Fault {
    type V = FaultModel;

    open spec fn view(&self) -> FaultModel {
        match *self {
            Fault::MissingField(f) => FaultModel::MissingField(f@),
            Fault::Mismatch(f, e, a) => FaultModel::Mismatch(f@, e@, a@),
            Fault::Rejected(r) => FaultModel::Rejected(r@),
        }
    }
}

/// The reason that is sent to a peer whose request is refused.
pub open spec fn reason(f: FaultModel) -> Seq<char> {
    match f {
        FaultModel::MissingField(field) => "missing field '"@ + field + "'"@,
        FaultModel::Mismatch(field, expected, actual) => "field '"@ + field + "' expected '"@
            + expected + "', received '"@ + actual + "'"@,
        FaultModel::Rejected(r) => r,
    }
}

/// Two values of `type` or `md5sum` go together when they are equal or one
/// of them is `*`, which accepts any.
pub open spec fn compatible(a: Seq<char>, b: Seq<char>) -> bool {
    a == b || a == "*"@ || b == "*"@
}

/// What is wrong with the value that `fields` give to `field`, which must go
/// together with `expected`.
pub open spec fn field_fault(
    fields: Seq<(Seq<char>, Seq<char>)>,
    field: Seq<char>,
    expected: Seq<char>,
) -> Option<FaultModel> {
    match value_of(fields, field) {
        None => Some(FaultModel::MissingField(field)),
        Some(actual) => if compatible(actual, expected) {
            None
        } else {
            Some(FaultModel::Mismatch(field, expected, actual))
        },
    }
}

/// What is wrong with a request for the link named `name`, where `key` is
/// `topic` or `service`: the fingerprint is looked at first, then the type,
/// then the name, which must be equal, then the caller's name, which must
/// be there.
pub open spec fn request_fault(
    fields: Seq<(Seq<char>, Seq<char>)>,
    key: Seq<char>,
    name: Seq<char>,
    msg_type: MessageTypeModel,
) -> Option<FaultModel> {
    if field_fault(fields, "md5sum"@, msg_type.md5sum) is Some {
        field_fault(fields, "md5sum"@, msg_type.md5sum)
    } else if field_fault(fields, "type"@, msg_type.msg_type) is Some {
        field_fault(fields, "type"@, msg_type.msg_type)
    } else if value_of(fields, key) is None {
        Some(FaultModel::MissingField(key))
    } else if value_of(fields, key)->Some_0 != name {
        Some(FaultModel::Mismatch(key, name, value_of(fields, key)->Some_0))
    } else if value_of(fields, "callerid"@) is None {
        Some(FaultModel::MissingField("callerid"@))
    } else {
        None
    }
}

/// What is wrong with the answer to a request: an `error` field refuses the
/// request; else fingerprint and type must go together with the own ones.
pub open spec fn answer_fault(fields: Seq<(Seq<char>, Seq<char>)>, msg_type: MessageTypeModel) -> Option<
    FaultModel,
> {
    if value_of(fields, "error"@) is Some {
        Some(FaultModel::Rejected(value_of(fields, "error"@)->Some_0))
    } else if field_fault(fields, "md5sum"@, msg_type.md5sum) is Some {
        field_fault(fields, "md5sum"@, msg_type.md5sum)
    } else {
        field_fault(fields, "type"@, msg_type.msg_type)
    }
}

/// The header with which a subscriber asks for a topic.
pub open spec fn subscriber_header(
    caller_id: Seq<char>,
    topic: Seq<char>,
    msg_type: MessageTypeModel,
    nodelay: bool,
) -> Seq<(Seq<char>, Seq<char>)> {
    let base = seq![
        ("callerid"@, caller_id),
        ("topic"@, topic),
        ("type"@, msg_type.msg_type),
        ("md5sum"@, msg_type.md5sum),
    ];
    if nodelay {
        base.push(("tcp_nodelay"@, "1"@))
    } else {
        base
    }
}

/// The header with which a publisher accepts a subscriber.
pub open spec fn publisher_header(caller_id: Seq<char>, msg_type: MessageTypeModel, latching: bool) -> Seq<
    (Seq<char>, Seq<char>),
> {
    seq![
        ("callerid"@, caller_id),
        ("type"@, msg_type.msg_type),
        ("md5sum"@, msg_type.md5sum),
        ("message_definition"@, msg_type.definition),
        ("latching"@, if latching { "1"@ } else { "0"@ }),
    ]
}

/// The header with which a client asks for a service.
pub open spec fn client_header(
    caller_id: Seq<char>,
    service: Seq<char>,
    msg_type: MessageTypeModel,
    persistent: bool,
) -> Seq<(Seq<char>, Seq<char>)> {
    let base = seq![
        ("callerid"@, caller_id),
        ("service"@, service),
        ("type"@, msg_type.msg_type),
        ("md5sum"@, msg_type.md5sum),
    ];
    if persistent {
        base.push(("persistent"@, "1"@))
    } else {
        base
    }
}

/// The header with which a server accepts a client.
pub open spec fn server_header(caller_id: Seq<char>, msg_type: MessageTypeModel) -> Seq<
    (Seq<char>, Seq<char>),
> {
    seq![("callerid"@, caller_id), ("type"@, msg_type.msg_type), ("md5sum"@, msg_type.md5sum)]
}

/// The header that refuses a request.
pub open spec fn error_header(f: FaultModel) -> Seq<(Seq<char>, Seq<char>)> {
    seq![("error"@, reason(f))]
}

fn entry(key: &str, value: &str) -> (r: (String, String))
    ensures
        r.0@ == key@,
        r.1@ == value@,
{
    (key.to_owned(), value.to_owned())
}

fn go_together(a: &str, b: &str) -> (r: bool)
    ensures
        r == compatible(a@, b@),
{
    same_text(a, b) || same_text(a, "*") || same_text(b, "*")
}

fn check_field(fields: &Vec<(String, String)>, field: &str, expected: &str) -> (r: Result<
    (),
    Fault,
>)
    ensures
        match r {
            Ok(()) => field_fault(pairs(fields@), field@, expected@) is None,
            Err(f) => field_fault(pairs(fields@), field@, expected@) == Some(f@),
        },
{
    match get(fields, field) {
        None => Err(Fault::MissingField(field.to_owned())),
        Some(actual) => {
            if go_together(actual.as_str(), expected) {
                Ok(())
            } else {
                Err(Fault::Mismatch(field.to_owned(), expected.to_owned(), actual.clone()))
            }
        },
    }
}

/// Checks a request for the link named `name`, where `key` is `topic` or
/// `service`, and hands back the caller's name.
pub fn check_request(
    fields: &Vec<(String, String)>,
    key: &str,
    name: &str,
    msg_type: &MessageType,
) -> (r: Result<String, Fault>)
    ensures
        match r {
            Ok(caller) => {
                &&& request_fault(pairs(fields@), key@, name@, msg_type@) is None
                &&& value_of(pairs(fields@), "callerid"@) == Some(caller@)
            },
            Err(f) => request_fault(pairs(fields@), key@, name@, msg_type@) == Some(f@),
        },
{
    match check_field(fields, "md5sum", msg_type.md5sum.as_str()) {
        Err(f) => {
            return Err(f);
        },
        Ok(()) => {},
    }
    match check_field(fields, "type", msg_type.msg_type.as_str()) {
        Err(f) => {
            return Err(f);
        },
        Ok(()) => {},
    }
    match get(fields, key) {
        None => {
            return Err(Fault::MissingField(key.to_owned()));
        },
        Some(actual) => {
            if !same_text(actual.as_str(), name) {
                return Err(Fault::Mismatch(key.to_owned(), name.to_owned(), actual.clone()));
            }
        },
    }
    match get(fields, "callerid") {
        None => Err(Fault::MissingField(String::from_str("callerid"))),
        Some(caller) => Ok(caller.clone()),
    }
}

/// Checks the answer to a request.
pub fn check_answer(fields: &Vec<(String, String)>, msg_type: &MessageType) -> (r: Result<
    (),
    Fault,
>)
    ensures
        match r {
            Ok(()) => answer_fault(pairs(fields@), msg_type@) is None,
            Err(f) => answer_fault(pairs(fields@), msg_type@) == Some(f@),
        },
{
    match get(fields, "error") {
        Some(why) => {
            return Err(Fault::Rejected(why.clone()));
        },
        None => {},
    }
    match check_field(fields, "md5sum", msg_type.md5sum.as_str()) {
        Err(f) => {
            return Err(f);
        },
        Ok(()) => {},
    }
    check_field(fields, "type", msg_type.msg_type.as_str())
}

/// Writes the reason that is sent for a fault.
pub fn reason_text(f: &Fault) -> (r: String)
    ensures
        r@ == reason(f@),
{
    match f {
        Fault::MissingField(field) => String::from_str("missing field '").concat(
            field.as_str(),
        ).concat("'"),
        Fault::Mismatch(field, expected, actual) => String::from_str("field '").concat(
            field.as_str(),
        ).concat("' expected '").concat(expected.as_str()).concat("', received '").concat(
            actual.as_str(),
        ).concat("'"),
        Fault::Rejected(why) => why.clone(),
    }
}

/// The header that refuses a request because of `f`.
pub fn refusal(f: &Fault) -> (r: Vec<(String, String)>)
    ensures
        pairs(r@) == error_header(f@),
{
    let mut out: Vec<(String, String)> = Vec::new();
    out.push(entry("error", reason_text(f).as_str()));
    assert(pairs(out@) =~= error_header(f@));
    out
}

/// The header with which a subscriber asks for `topic`.
pub fn subscriber_request(caller_id: &str, topic: &str, msg_type: &MessageType, nodelay: bool) -> (r:
    Vec<(String, String)>)
    ensures
        pairs(r@) == subscriber_header(caller_id@, topic@, msg_type@, nodelay),
{
    let mut out: Vec<(String, String)> = Vec::new();
    out.push(entry("callerid", caller_id));
    out.push(entry("topic", topic));
    out.push(entry("type", msg_type.msg_type.as_str()));
    out.push(entry("md5sum", msg_type.md5sum.as_str()));
    if nodelay {
        out.push(entry("tcp_nodelay", "1"));
    }
    assert(pairs(out@) =~= subscriber_header(caller_id@, topic@, msg_type@, nodelay));
    out
}

/// The header with which a client asks for `service`.
pub fn client_request(caller_id: &str, service: &str, msg_type: &MessageType, persistent: bool) -> (r:
    Vec<(String, String)>)
    ensures
        pairs(r@) == client_header(caller_id@, service@, msg_type@, persistent),
{
    let mut out: Vec<(String, String)> = Vec::new();
    out.push(entry("callerid", caller_id));
    out.push(entry("service", service));
    out.push(entry("type", msg_type.msg_type.as_str()));
    out.push(entry("md5sum", msg_type.md5sum.as_str()));
    if persistent {
        out.push(entry("persistent", "1"));
    }
    assert(pairs(out@) =~= client_header(caller_id@, service@, msg_type@, persistent));
    out
}

/// Answers a subscriber that asks for `topic`: with the publisher's header
/// where the request is in order, else with the header that refuses it.
pub fn publisher_answer(
    caller_id: &str,
    topic: &str,
    msg_type: &MessageType,
    latching: bool,
    request: &Vec<(String, String)>,
) -> (r: Result<Vec<(String, String)>, Vec<(String, String)>>)
    ensures
        match r {
            Ok(fields) => {
                &&& request_fault(pairs(request@), "topic"@, topic@, msg_type@) is None
                &&& pairs(fields@) == publisher_header(caller_id@, msg_type@, latching)
            },
            Err(fields) => {
                &&& request_fault(pairs(request@), "topic"@, topic@, msg_type@) is Some
                &&& pairs(fields@) == error_header(
                    request_fault(pairs(request@), "topic"@, topic@, msg_type@)->Some_0,
                )
            },
        },
{
    match check_request(request, "topic", topic, msg_type) {
        Err(f) => Err(refusal(&f)),
        Ok(_) => {
            let mut out: Vec<(String, String)> = Vec::new();
            out.push(entry("callerid", caller_id));
            out.push(entry("type", msg_type.msg_type.as_str()));
            out.push(entry("md5sum", msg_type.md5sum.as_str()));
            out.push(entry("message_definition", msg_type.definition.as_str()));
            out.push(entry("latching", if latching { "1" } else { "0" }));
            assert(pairs(out@) =~= publisher_header(caller_id@, msg_type@, latching));
            Ok(out)
        },
    }
}

/// Answers a client that asks for `service`: with the server's header where
/// the request is in order, else with the header that refuses it.
pub fn server_answer(
    caller_id: &str,
    service: &str,
    msg_type: &MessageType,
    request: &Vec<(String, String)>,
) -> (r: Result<Vec<(String, String)>, Vec<(String, String)>>)
    ensures
        match r {
            Ok(fields) => {
                &&& request_fault(pairs(request@), "service"@, service@, msg_type@) is None
                &&& pairs(fields@) == server_header(caller_id@, msg_type@)
            },
            Err(fields) => {
                &&& request_fault(pairs(request@), "service"@, service@, msg_type@) is Some
                &&& pairs(fields@) == error_header(
                    request_fault(pairs(request@), "service"@, service@, msg_type@)->Some_0,
                )
            },
        },
{
    match check_request(request, "service", service, msg_type) {
        Err(f) => Err(refusal(&f)),
        Ok(_) => {
            let mut out: Vec<(String, String)> = Vec::new();
            out.push(entry("callerid", caller_id));
            out.push(entry("type", msg_type.msg_type.as_str()));
            out.push(entry("md5sum", msg_type.md5sum.as_str()));
            assert(pairs(out@) =~= server_header(caller_id@, msg_type@));
            Ok(out)
        },
    }
}

/// Whether a client's header asks to keep the connection for more than one
/// call.
pub fn wants_persistence(request: &Vec<(String, String)>) -> (r: bool)
    ensures
        r == (value_of(pairs(request@), "persistent"@) == Some("1"@)),
{
    match get(request, "persistent") {
        Some(v) => same_text(v.as_str(), "1"),
        None => false,
    }
}

} // verus!
