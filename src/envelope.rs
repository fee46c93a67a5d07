//! The wire envelope of the chat protocol and its codec.
//!
//! An envelope is the JSON object `{"messageType": .., "dataArray": .., "data": ..}`;
//! the payload of a chat message is itself the JSON object `{"from": .., "message": ..}`.
use vstd::prelude::*;
use vstd::string::StringExecFns;
use crate::json::{
    JsonModel, JsonValue, encode_items, lemma_parse_first_member, lemma_parse_list,
    lemma_parse_members_end, lemma_parse_next_member, lemma_parse_null, lemma_parse_str_value,
    parse_members_more, parse_object, parse_value, is_ws, skip_ws, encode_list, fields_view, member, null_text, parse_document,
    quote, read_document, strs, write_quoted,
};
use crate::text::{chars_of, push_char};

verus! {

/// The kind of an envelope.
#[derive(PartialEq, Eq, Structural, Clone, Copy, Debug)]
pub enum MsgTypes {
    Users,
    Register,
    Message,
}

/// Why a text could not be decoded.
#[derive(PartialEq, Eq, Structural, Clone, Copy, Debug)]
pub enum DecodeError {
    /// The text is no envelope: not well-formed, or without a known `messageType`,
    /// or with a field of the wrong kind.
    MalformedEnvelope,
    /// The payload of a chat message lacks `from` or `message`, or is not well-formed.
    MalformedPayload,
}

/// An envelope: its kind, a list of strings (for `Users`) and a string (for `Register`
/// and `Message`).
pub struct WebSocketMessage {
    pub message_type: MsgTypes,
    pub data_array: Option<Vec<String>>,
    pub data: Option<String>,
}

/// The mathematical form of an envelope.
pub struct EnvelopeModel {
    pub message_type: MsgTypes,
    pub data_array: Option<Seq<Seq<char>>>,
    pub data: Option<Seq<char>>,
}

impl View for WebSocketMessage {
    type V = EnvelopeModel;

    open spec fn view(&self) -> EnvelopeModel {
        EnvelopeModel {
            message_type: self.message_type,
            data_array: match self.data_array {
                Some(l) => Some(strs(l@)),
                None => None,
            },
            data: match self.data {
                Some(s) => Some(s@),
                None => None,
            },
        }
    }
}

/// A chat message: who sent it, and what it says.
pub struct MessageData {
    pub from: String,
    pub message: String,
}

/// The mathematical form of a chat message.
pub struct MessageModel {
    pub from: Seq<char>,
    pub message: Seq<char>,
}

impl View for MessageData {
    type V = MessageModel;

    open spec fn view(&self) -> MessageModel {
        MessageModel { from: self.from@, message: self.message@ }
    }
}

/// The wire token of each kind.
pub open spec fn type_token(t: MsgTypes) -> Seq<char> {
    match t {
        MsgTypes::Users => "users"@,
        MsgTypes::Register => "register"@,
        MsgTypes::Message => "message"@,
    }
}

/// The kind whose wire token is `s`, if any.
pub open spec fn token_type(s: Seq<char>) -> Option<MsgTypes> {
    if s == "users"@ {
        Some(MsgTypes::Users)
    } else if s == "register"@ {
        Some(MsgTypes::Register)
    } else if s == "message"@ {
        Some(MsgTypes::Message)
    } else {
        None
    }
}

/// The encoded form of an envelope: its fields in a fixed order, `null` for a missing one.
pub open spec fn encode_spec(e: EnvelopeModel) -> Seq<char> {
    seq!['{'] + member("messageType"@, quote(type_token(e.message_type))) + seq![','] + member(
        "dataArray"@,
        match e.data_array {
            Some(l) => encode_list(l),
            None => null_text(),
        },
    ) + seq![','] + member(
        "data"@,
        match e.data {
            Some(s) => quote(s),
            None => null_text(),
        },
    ) + seq!['}']
}

/// The value of the first member named `k`.
pub open spec fn lookup(fs: Seq<(Seq<char>, JsonModel)>, k: Seq<char>) -> Option<JsonModel>
    decreases fs.len(),
{
    if fs.len() == 0 {
        None
    } else if fs[0].0 == k {
        Some(fs[0].1)
    } else {
        lookup(fs.drop_first(), k)
    }
}

/// An optional string member: absent or `null` is `None`; an array is refused.
pub open spec fn opt_str(v: Option<JsonModel>) -> Option<Option<Seq<char>>> {
    match v {
        None => Some(None),
        Some(JsonModel::Null) => Some(None),
        Some(JsonModel::Str(s)) => Some(Some(s)),
        Some(JsonModel::List(_)) => None,
    }
}

/// An optional array member: absent or `null` is `None`; a string is refused.
pub open spec fn opt_list(v: Option<JsonModel>) -> Option<Option<Seq<Seq<char>>>> {
    match v {
        None => Some(None),
        Some(JsonModel::Null) => Some(None),
        Some(JsonModel::List(l)) => Some(Some(l)),
        Some(JsonModel::Str(_)) => None,
    }
}

/// The envelope that the members of an object describe.
pub open spec fn envelope_of(fs: Seq<(Seq<char>, JsonModel)>) -> Result<EnvelopeModel, DecodeError> {
    let ty = match lookup(fs, "messageType"@) {
        Some(JsonModel::Str(s)) => token_type(s),
        _ => None,
    };
    let arr = opt_list(lookup(fs, "dataArray"@));
    let data = opt_str(lookup(fs, "data"@));
    if ty is Some && arr is Some && data is Some {
        Ok(EnvelopeModel { message_type: ty->0, data_array: arr->0, data: data->0 })
    } else {
        Err(DecodeError::MalformedEnvelope)
    }
}

/// What decoding the text `t` gives.
pub open spec fn decode_spec(t: Seq<char>) -> Result<EnvelopeModel, DecodeError> {
    match parse_document(t) {
        Some(fs) => envelope_of(fs),
        None => Err(DecodeError::MalformedEnvelope),
    }
}

/// What decoding the text `t` as the payload of a chat message gives.
pub open spec fn decode_message_spec(t: Seq<char>) -> Result<MessageModel, DecodeError> {
    match parse_document(t) {
        Some(fs) => match (lookup(fs, "from"@), lookup(fs, "message"@)) {
            (Some(JsonModel::Str(f)), Some(JsonModel::Str(m))) => Ok(MessageModel { from: f, message: m }),
            _ => Err(DecodeError::MalformedPayload),
        },
        None => Err(DecodeError::MalformedPayload),
    }
}

/// The wire token of a kind.
fn type_token_str(t: MsgTypes) -> (r: &'static str)
    ensures
        r@ == type_token(t),
{
    match t {
        MsgTypes::Users => "users",
        MsgTypes::Register => "register",
        MsgTypes::Message => "message",
    }
}

/// Appends the JSON array of the strings in `l` to `out`.
fn write_list(out: &mut String, l: &Vec<String>)
    ensures
        final(out)@ == old(out)@ + encode_list(strs(l@)),
{
    let ghost m = strs(l@);
    if l.len() == 0 {
        out.append("[]");
        proof {
            reveal_strlit("[]");
        }
        assert(out@ =~= old(out)@ + encode_list(m));
        return ;
    }
    let mut o = String::new();
    push_char(&mut o, '[');
    write_quoted(&mut o, l[0].as_str());
    let ghost start = o@;
    let mut i: usize = 1;
    assert(m.subrange(1, 1) =~= Seq::<Seq<char>>::empty());
    while i < l.len()
        invariant
            1 <= i <= l@.len(),
            m == strs(l@),
            o@ == start + encode_items(m.subrange(1, i as int)),
        decreases l.len() - i,
    {
        push_char(&mut o, ',');
        write_quoted(&mut o, l[i].as_str());
        proof {
            let sub = m.subrange(1, i + 1);
            assert(sub.drop_last() =~= m.subrange(1, i as int));
            assert(sub.last() == l@[i as int]@);
        }
        i = i + 1;
        assert(o@ =~= start + encode_items(m.subrange(1, i as int)));
    }
    push_char(&mut o, ']');
    assert(m.subrange(1, i as int) =~= m.drop_first());
    out.append(o.as_str());
    assert(out@ =~= old(out)@ + encode_list(m));
}

/// Encodes an envelope as its wire text.
pub fn encode(e: &WebSocketMessage) -> (r: String)
    ensures
        r@ == encode_spec(e@),
{
    let mut out = String::new();
    push_char(&mut out, '{');
    write_quoted(&mut out, "messageType");
    push_char(&mut out, ':');
    write_quoted(&mut out, type_token_str(e.message_type));
    push_char(&mut out, ',');
    write_quoted(&mut out, "dataArray");
    push_char(&mut out, ':');
    match &e.data_array {
        Some(l) => write_list(&mut out, l),
        None => {
            out.append("null");
            proof {
                reveal_strlit("null");
            }
        },
    }
    push_char(&mut out, ',');
    write_quoted(&mut out, "data");
    push_char(&mut out, ':');
    match &e.data {
        Some(s) => write_quoted(&mut out, s.as_str()),
        None => {
            out.append("null");
            proof {
                reveal_strlit("null");
            }
        },
    }
    push_char(&mut out, '}');
    assert(out@ =~= encode_spec(e@));
    out
}

proof fn lemma_lookup_skip(fs: Seq<(Seq<char>, JsonModel)>, k: Seq<char>, i: int)
    requires
        0 <= i < fs.len(),
        fs[i].0 != k,
    ensures
        lookup(fs.skip(i), k) == lookup(fs.skip(i + 1), k),
{
    assert(fs.skip(i).drop_first() =~= fs.skip(i + 1));
}

/// The value of the first member of `fs` named `key`.
fn find_field<'a>(fs: &'a Vec<(String, JsonValue)>, key: &str) -> (r: Option<&'a JsonValue>)
    ensures
        r matches Some(v) ==> lookup(fields_view(fs@), key@) == Some(v@),
        r is None ==> lookup(fields_view(fs@), key@) is None,
{
    let k = key.to_owned();
    let ghost fv = fields_view(fs@);
    let mut i: usize = 0;
    assert(fv.skip(0) =~= fv);
    while i < fs.len()
        invariant
            i <= fs@.len(),
            fv == fields_view(fs@),
            k@ == key@,
            lookup(fv, key@) == lookup(fv.skip(i as int), key@),
        decreases fs.len() - i,
    {
        if fs[i].0 == k {
            assert(fv.skip(i as int)[0] == fv[i as int]);
            return Some(&fs[i].1);
        }
        proof {
            lemma_lookup_skip(fv, key@, i as int);
        }
        i = i + 1;
    }
    assert(fv.skip(i as int).len() == 0);
    None
}

/// A copy of a list of strings.
fn clone_strings(l: &Vec<String>) -> (r: Vec<String>)
    ensures
        strs(r@) == strs(l@),
{
    let mut r: Vec<String> = Vec::new();
    let mut i: usize = 0;
    while i < l.len()
        invariant
            i <= l@.len(),
            strs(r@) == strs(l@.take(i as int)),
        decreases l.len() - i,
    {
        let ghost r0 = r@;
        let c = l[i].clone();
        r.push(c);
        assert(strs(r@) =~= strs(r0).push(l@[i as int]@));
        assert(l@.take(i + 1) =~= l@.take(i as int).push(l@[i as int]));
        assert(strs(l@.take(i + 1)) =~= strs(l@.take(i as int)).push(l@[i as int]@));
        i = i + 1;
    }
    assert(l@.take(i as int) =~= l@);
    r
}

/// The kind whose wire token is `s`, if any.
fn token_type_exec(s: &String) -> (r: Option<MsgTypes>)
    ensures
        r == token_type(s@),
{
    if *s == "users".to_owned() {
        Some(MsgTypes::Users)
    } else if *s == "register".to_owned() {
        Some(MsgTypes::Register)
    } else if *s == "message".to_owned() {
        Some(MsgTypes::Message)
    } else {
        None
    }
}

/// Decodes an envelope from its wire text.
pub fn decode(text: &str) -> (r: Result<WebSocketMessage, DecodeError>)
    ensures
        r matches Ok(e) ==> decode_spec(text@) == Ok::<EnvelopeModel, DecodeError>(e@),
        r matches Err(x) ==> decode_spec(text@) == Err::<EnvelopeModel, DecodeError>(x),
{
    let t = chars_of(text);
    let fs = match read_document(&t) {
        Some(fs) => fs,
        None => {
            return Err(DecodeError::MalformedEnvelope);
        },
    };
    let ty = match find_field(&fs, "messageType") {
        Some(JsonValue::Str(s)) => token_type_exec(s),
        _ => None,
    };
    let message_type = match ty {
        Some(x) => x,
        None => {
            return Err(DecodeError::MalformedEnvelope);
        },
    };
    let data_array = match find_field(&fs, "dataArray") {
        None => None,
        Some(JsonValue::Null) => None,
        Some(JsonValue::List(l)) => Some(clone_strings(l)),
        Some(JsonValue::Str(_)) => {
            return Err(DecodeError::MalformedEnvelope);
        },
    };
    let data = match find_field(&fs, "data") {
        None => None,
        Some(JsonValue::Null) => None,
        Some(JsonValue::Str(s)) => Some(s.clone()),
        Some(JsonValue::List(_)) => {
            return Err(DecodeError::MalformedEnvelope);
        },
    };
    let e = WebSocketMessage { message_type, data_array, data };
    assert(decode_spec(text@) == Ok::<EnvelopeModel, DecodeError>(e@));
    Ok(e)
}

/// Decodes the payload of a chat message.
pub fn decode_message_data(text: &str) -> (r: Result<MessageData, DecodeError>)
    ensures
        r matches Ok(m) ==> decode_message_spec(text@) == Ok::<MessageModel, DecodeError>(m@),
        r matches Err(x) ==> decode_message_spec(text@) == Err::<MessageModel, DecodeError>(x),
{
    let t = chars_of(text);
    let fs = match read_document(&t) {
        Some(fs) => fs,
        None => {
            return Err(DecodeError::MalformedPayload);
        },
    };
    let from = match find_field(&fs, "from") {
        Some(JsonValue::Str(s)) => s.clone(),
        _ => {
            return Err(DecodeError::MalformedPayload);
        },
    };
    let message = match find_field(&fs, "message") {
        Some(JsonValue::Str(s)) => s.clone(),
        _ => {
            return Err(DecodeError::MalformedPayload);
        },
    };
    Ok(MessageData { from, message })
}

proof fn lemma_token_type(t: MsgTypes)
    ensures
        token_type(type_token(t)) == Some(t),
{
    reveal_strlit("users");
    reveal_strlit("register");
    reveal_strlit("message");
    assert("users"@.len() == 5);
    assert("register"@.len() == 8);
    assert("message"@.len() == 7);
}

/// The text of the `dataArray` member's value.
pub open spec fn array_text(o: Option<Seq<Seq<char>>>) -> Seq<char> {
    match o {
        Some(l) => encode_list(l),
        None => null_text(),
    }
}

/// The `dataArray` member's value.
pub open spec fn array_value(o: Option<Seq<Seq<char>>>) -> JsonModel {
    match o {
        Some(l) => JsonModel::List(l),
        None => JsonModel::Null,
    }
}

/// The text of the `data` member's value.
pub open spec fn data_text(o: Option<Seq<char>>) -> Seq<char> {
    match o {
        Some(x) => quote(x),
        None => null_text(),
    }
}

/// The `data` member's value.
pub open spec fn data_value(o: Option<Seq<char>>) -> JsonModel {
    match o {
        Some(x) => JsonModel::Str(x),
        None => JsonModel::Null,
    }
}

/// The members of an encoded envelope.
pub open spec fn encoded_fields(e: EnvelopeModel) -> Seq<(Seq<char>, JsonModel)> {
    seq![
        ("messageType"@, JsonModel::Str(type_token(e.message_type))),
        ("dataArray"@, array_value(e.data_array)),
        ("data"@, data_value(e.data)),
    ]
}

proof fn lemma_array_member(o: Option<Seq<Seq<char>>>, r: Seq<char>)
    ensures
        parse_value(array_text(o) + r) == Some((array_value(o), r)),
        array_text(o).len() > 0,
        !is_ws(array_text(o)[0]),
{
    match o {
        Some(l) => {
            lemma_parse_list(l, r);
            if l.len() > 0 {
                assert(encode_list(l)[0] == '[');
            }
        },
        None => lemma_parse_null(r),
    }
}

proof fn lemma_data_member(o: Option<Seq<char>>, r: Seq<char>)
    ensures
        parse_value(data_text(o) + r) == Some((data_value(o), r)),
        data_text(o).len() > 0,
        !is_ws(data_text(o)[0]),
{
    match o {
        Some(x) => lemma_parse_str_value(x, r),
        None => lemma_parse_null(r),
    }
}

#[verifier::rlimit(50)]
proof fn lemma_parse_encoded(e: EnvelopeModel)
    ensures
        parse_document(encode_spec(e)) == Some(encoded_fields(e)),
{
    let tok = type_token(e.message_type);
    let lt = array_text(e.data_array);
    let dt = data_text(e.data);
    let end = seq!['}'];
    let r2 = seq![','] + member("data"@, dt) + end;
    let r1 = seq![','] + member("dataArray"@, lt) + r2;
    assert(encode_spec(e) =~= seq!['{'] + member("messageType"@, quote(tok)) + r1);
    lemma_parse_str_value(tok, r1);
    lemma_array_member(e.data_array, r2);
    lemma_data_member(e.data, end);
    lemma_parse_first_member("messageType"@, quote(tok), JsonModel::Str(tok), r1);
    lemma_parse_next_member("dataArray"@, lt, array_value(e.data_array), r2);
    lemma_parse_next_member("data"@, dt, data_value(e.data), end);
    lemma_parse_members_end();
    let none = Seq::<(Seq<char>, JsonModel)>::empty();
    let f0 = ("messageType"@, JsonModel::Str(tok));
    let f1 = ("dataArray"@, array_value(e.data_array));
    let f2 = ("data"@, data_value(e.data));
    let empty = Seq::<char>::empty();
    assert(parse_members_more(r2) == Some((seq![f2] + none, empty)));
    assert(parse_members_more(r1) == Some((seq![f1] + (seq![f2] + none), empty)));
    assert(parse_object(encode_spec(e)) == Some((seq![f0] + (seq![f1] + (seq![f2] + none)), empty)));
    assert(seq![f0] + (seq![f1] + (seq![f2] + none)) =~= encoded_fields(e));
    assert(skip_ws(empty) == empty);
}

proof fn lemma_envelope_of_encoded(e: EnvelopeModel)
    ensures
        envelope_of(encoded_fields(e)) == Ok::<EnvelopeModel, DecodeError>(e),
{
    reveal_strlit("messageType");
    reveal_strlit("dataArray");
    reveal_strlit("data");
    assert("messageType"@.len() == 11);
    assert("dataArray"@.len() == 9);
    assert("data"@.len() == 4);
    let fs = encoded_fields(e);
    assert(fs.drop_first() =~= seq![("dataArray"@, array_value(e.data_array)), ("data"@, data_value(e.data))]);
    assert(fs.drop_first().drop_first() =~= seq![("data"@, data_value(e.data))]);
    assert(lookup(fs, "messageType"@) == Some(JsonModel::Str(type_token(e.message_type))));
    assert(fs[0].0 != "dataArray"@ && fs[0].0 != "data"@);
    assert(fs.drop_first()[0].0 != "data"@);
    assert(lookup(fs.drop_first(), "dataArray"@) == Some(array_value(e.data_array)));
    assert(lookup(fs, "dataArray"@) == Some(array_value(e.data_array)));
    assert(lookup(fs.drop_first().drop_first(), "data"@) == Some(data_value(e.data)));
    assert(lookup(fs.drop_first(), "data"@) == Some(data_value(e.data)));
    assert(lookup(fs, "data"@) == Some(data_value(e.data)));
    lemma_token_type(e.message_type);
}

/// Decoding the encoding of any envelope gives that envelope back.
pub proof fn lemma_decode_encode(e: EnvelopeModel)
    ensures
        decode_spec(encode_spec(e)) == Ok::<EnvelopeModel, DecodeError>(e),
{
    lemma_parse_encoded(e);
    lemma_envelope_of_encoded(e);
}

/// A text whose object has no string `messageType` naming a known kind, or that is no
/// object at all, is refused as a malformed envelope.
pub proof fn lemma_unknown_type_refused(t: Seq<char>)
    requires
        match parse_document(t) {
            Some(fs) => !(lookup(fs, "messageType"@) matches Some(JsonModel::Str(s)) && token_type(s) is Some),
            None => true,
        },
    ensures
        decode_spec(t) == Err::<EnvelopeModel, DecodeError>(DecodeError::MalformedEnvelope),
{
}

} // verus!
