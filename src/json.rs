//! A JSON document tree and the envelope frame around every message:
//! `{"src": .., "dest": .., "body": {"type": .., <fields>, "msg_id": ..}}`.
use vstd::prelude::*;

use crate::gossip::names;
use crate::message::ParseError;

verus! {

/// A JSON value. Numbers that are unsigned integers the protocols can hold
/// are `Num`; any other number is kept as written, in `OtherNum`.
#[derive(Debug, PartialEq, Eq)]
pub enum Json {
    Null,
    Bool(bool),
    Num(usize),
    OtherNum(String),
    Str(String),
    Arr(Vec<Json>),
    Obj(Vec<(String, Json)>),
}

/// The mathematical form of a `Json` value.
pub enum JsonV {
    Null,
    Bool(bool),
    Num(usize),
    OtherNum(Seq<char>),
    Str(Seq<char>),
    Arr(Seq<JsonV>),
    Obj(Seq<(Seq<char>, JsonV)>),
}

impl Json {
    pub open spec fn jv(self) -> JsonV
        decreases self,
    {
        match self {
            Json::Null => JsonV::Null,
            Json::Bool(b) => JsonV::Bool(b),
            Json::Num(n) => JsonV::Num(n),
            Json::OtherNum(t) => JsonV::OtherNum(t@),
            Json::Str(s) => JsonV::Str(s@),
            Json::Arr(v) => JsonV::Arr(items_v(v@)),
            Json::Obj(v) => JsonV::Obj(fields_v(v@)),
        }
    }
}

/// The mathematical form of the items of an array.
pub open spec fn items_v(v: Seq<Json>) -> Seq<JsonV>
    decreases v,
{
    Seq::new(v.len() as nat, |i: int| if 0 <= i < v.len() { v[i].jv() } else { JsonV::Null })
}

/// The mathematical form of the members of an object.
pub open spec fn fields_v(v: Seq<(String, Json)>) -> Seq<(Seq<char>, JsonV)>
    decreases v,
{
    Seq::new(
        v.len() as nat,
        |i: int|
            if 0 <= i < v.len() {
                (v[i].0@, v[i].1.jv())
            } else {
                (Seq::empty(), JsonV::Null)
            },
    )
}

/// The value of the first member named `key`.
pub open spec fn lookup(fields: Seq<(Seq<char>, JsonV)>, key: Seq<char>) -> Option<JsonV>
    decreases fields.len(),
{
    if fields.len() == 0 {
        None
    } else if fields[0].0 == key {
        Some(fields[0].1)
    } else {
        lookup(fields.drop_first(), key)
    }
}

/// The numbers of `items`, if every item is a number.
pub open spec fn nums_of(items: Seq<JsonV>) -> Option<Seq<usize>> {
    if forall|i: int| 0 <= i < items.len() ==> items[i] is Num {
        Some(Seq::new(items.len(), |i: int| items[i]->Num_0))
    } else {
        None
    }
}

/// The strings of `items`, if every item is a string.
pub open spec fn strs_of(items: Seq<JsonV>) -> Option<Seq<Seq<char>>> {
    if forall|i: int| 0 <= i < items.len() ==> items[i] is Str {
        Some(Seq::new(items.len(), |i: int| items[i]->Str_0))
    } else {
        None
    }
}

/// A number field of `fields`.
pub open spec fn num_field(fields: Seq<(Seq<char>, JsonV)>, key: Seq<char>) -> Option<usize> {
    match lookup(fields, key) {
        Some(JsonV::Num(n)) => Some(n),
        _ => None,
    }
}

/// A string field of `fields`.
pub open spec fn str_field(fields: Seq<(Seq<char>, JsonV)>, key: Seq<char>) -> Option<Seq<char>> {
    match lookup(fields, key) {
        Some(JsonV::Str(s)) => Some(s),
        _ => None,
    }
}

/// An array-of-numbers field of `fields`.
pub open spec fn nums_field(fields: Seq<(Seq<char>, JsonV)>, key: Seq<char>) -> Option<Seq<usize>> {
    match lookup(fields, key) {
        Some(JsonV::Arr(items)) => nums_of(items),
        _ => None,
    }
}

/// An array-of-strings field of `fields`.
pub open spec fn strs_field(fields: Seq<(Seq<char>, JsonV)>, key: Seq<char>) -> Option<Seq<Seq<char>>> {
    match lookup(fields, key) {
        Some(JsonV::Arr(items)) => strs_of(items),
        _ => None,
    }
}

/// The request id of a body: absent or `null` is no id; any other non-number
/// is malformed.
pub open spec fn msg_id_of(body: Seq<(Seq<char>, JsonV)>) -> Option<Option<usize>> {
    match lookup(body, "msg_id"@) {
        None => Some(None),
        Some(JsonV::Null) => Some(None),
        Some(JsonV::Num(n)) => Some(Some(n)),
        _ => None,
    }
}

/// The frame of an envelope: source, destination, payload tag, the body's
/// members and its request id.
pub struct Frame {
    pub src: Seq<char>,
    pub dst: Seq<char>,
    pub tag: Seq<char>,
    pub body: Seq<(Seq<char>, JsonV)>,
    pub msg_id: Option<usize>,
}

/// Reads the frame of an envelope, if `j` has one.
pub open spec fn frame_of(j: JsonV) -> Option<Frame> {
    match j {
        JsonV::Obj(top) => match (str_field(top, "src"@), str_field(top, "dest"@), lookup(top, "body"@)) {
            (Some(src), Some(dst), Some(JsonV::Obj(body))) => match (str_field(body, "type"@), msg_id_of(body)) {
                (Some(tag), Some(msg_id)) => Some(Frame { src, dst, tag, body, msg_id }),
                _ => None,
            },
            _ => None,
        },
        _ => None,
    }
}

/// The JSON form of an id: the number, or `null`.
pub open spec fn id_v(msg_id: Option<usize>) -> JsonV {
    match msg_id {
        Some(n) => JsonV::Num(n),
        None => JsonV::Null,
    }
}

/// The envelope that carries a payload tagged `tag` with members `fields`.
pub open spec fn envelope_v(
    src: Seq<char>,
    dst: Seq<char>,
    tag: Seq<char>,
    fields: Seq<(Seq<char>, JsonV)>,
    msg_id: Option<usize>,
) -> JsonV {
    JsonV::Obj(
        seq![
            ("src"@, JsonV::Str(src)),
            ("dest"@, JsonV::Str(dst)),
            ("body"@, JsonV::Obj(seq![("type"@, JsonV::Str(tag))] + fields + seq![("msg_id"@, id_v(msg_id))])),
        ],
    )
}

/// The JSON form of a list of numbers.
pub open spec fn nums_v(s: Seq<usize>) -> JsonV {
    JsonV::Arr(Seq::new(s.len(), |i: int| JsonV::Num(s[i])))
}

/// The JSON form of a list of strings.
pub open spec fn strs_v(s: Seq<Seq<char>>) -> JsonV {
    JsonV::Arr(Seq::new(s.len(), |i: int| JsonV::Str(s[i])))
}

/// The member of `fields` named `key`.
pub fn find_field<'a>(fields: &'a Vec<(String, Json)>, key: &str) -> (r: Option<&'a Json>)
    ensures
        match r {
            Some(j) => lookup(fields_v(fields@), key@) == Some(j.jv()),
            None => lookup(fields_v(fields@), key@) is None,
        },
{
    let k = key.to_owned();
    let ghost all = fields_v(fields@);
    let mut i: usize = 0;
    assert(all.subrange(0, all.len() as int) =~= all);
    while i < fields.len()
        invariant
            i <= fields.len(),
            all == fields_v(fields@),
            k@ == key@,
            lookup(all, key@) == lookup(all.subrange(i as int, all.len() as int), key@),
        decreases fields.len() - i,
    {
        let ghost rest = all.subrange(i as int, all.len() as int);
        assert(rest.drop_first() =~= all.subrange(i + 1, all.len() as int));
        if fields[i].0 == k {
            return Some(&fields[i].1);
        }
        i = i + 1;
    }
    None
}

fn parse_error(what: &str) -> (r: ParseError) {
    ParseError(what.to_owned())
}

/// A number member of `fields`.
pub fn get_num(fields: &Vec<(String, Json)>, key: &str) -> (r: Result<usize, ParseError>)
    ensures
        match r {
            Ok(n) => num_field(fields_v(fields@), key@) == Some(n),
            Err(_) => num_field(fields_v(fields@), key@) is None,
        },
{
    match find_field(fields, key) {
        Some(Json::Num(n)) => Ok(*n),
        _ => Err(parse_error("expected a number field")),
    }
}

/// A string member of `fields`.
pub fn get_str(fields: &Vec<(String, Json)>, key: &str) -> (r: Result<String, ParseError>)
    ensures
        match r {
            Ok(s) => str_field(fields_v(fields@), key@) == Some(s@),
            Err(_) => str_field(fields_v(fields@), key@) is None,
        },
{
    match find_field(fields, key) {
        Some(Json::Str(s)) => Ok(s.clone()),
        _ => Err(parse_error("expected a string field")),
    }
}

/// An array-of-numbers member of `fields`.
pub fn get_nums(fields: &Vec<(String, Json)>, key: &str) -> (r: Result<Vec<usize>, ParseError>)
    ensures
        match r {
            Ok(v) => nums_field(fields_v(fields@), key@) == Some(v@),
            Err(_) => nums_field(fields_v(fields@), key@) is None,
        },
{
    match find_field(fields, key) {
        Some(Json::Arr(items)) => nums_from(items),
        _ => Err(parse_error("expected an array of numbers")),
    }
}

/// An array-of-strings member of `fields`.
pub fn get_strs(fields: &Vec<(String, Json)>, key: &str) -> (r: Result<Vec<String>, ParseError>)
    ensures
        match r {
            Ok(v) => strs_field(fields_v(fields@), key@) == Some(names(v@)),
            Err(_) => strs_field(fields_v(fields@), key@) is None,
        },
{
    match find_field(fields, key) {
        Some(Json::Arr(items)) => strs_from(items),
        _ => Err(parse_error("expected an array of strings")),
    }
}

/// The numbers of `items`.
pub fn nums_from(items: &Vec<Json>) -> (r: Result<Vec<usize>, ParseError>)
    ensures
        match r {
            Ok(v) => nums_of(items_v(items@)) == Some(v@),
            Err(_) => nums_of(items_v(items@)) is None,
        },
{
    let ghost s = items_v(items@);
    let mut out: Vec<usize> = Vec::new();
    let mut i: usize = 0;
    while i < items.len()
        invariant
            i <= items.len(),
            s == items_v(items@),
            s.len() == items.len(),
            out@.len() == i,
            forall|k: int| 0 <= k < i ==> s[k] == JsonV::Num(#[trigger] out@[k]),
        decreases items.len() - i,
    {
        match &items[i] {
            Json::Num(n) => {
                assert(s[i as int] == JsonV::Num(*n));
                out.push(*n);
            },
            _ => {
                assert(!(s[i as int] is Num));
                return Err(parse_error("expected a number"));
            },
        }
        i = i + 1;
    }
    assert forall|k: int| 0 <= k < s.len() implies s[k] is Num by {
        assert(s[k] == JsonV::Num(out@[k]));
    }
    assert(nums_of(s)->Some_0 =~= out@);
    Ok(out)
}

/// The strings of `items`.
pub fn strs_from(items: &Vec<Json>) -> (r: Result<Vec<String>, ParseError>)
    ensures
        match r {
            Ok(v) => strs_of(items_v(items@)) == Some(names(v@)),
            Err(_) => strs_of(items_v(items@)) is None,
        },
{
    let ghost s = items_v(items@);
    let mut out: Vec<String> = Vec::new();
    let mut i: usize = 0;
    while i < items.len()
        invariant
            i <= items.len(),
            s == items_v(items@),
            s.len() == items.len(),
            out@.len() == i,
            forall|k: int| 0 <= k < i ==> s[k] == JsonV::Str((#[trigger] out@[k])@),
        decreases items.len() - i,
    {
        match &items[i] {
            Json::Str(t) => {
                assert(s[i as int] == JsonV::Str(t@));
                out.push(t.clone());
            },
            _ => {
                assert(!(s[i as int] is Str));
                return Err(parse_error("expected a string"));
            },
        }
        i = i + 1;
    }
    assert forall|k: int| 0 <= k < s.len() implies s[k] is Str by {
        assert(s[k] == JsonV::Str(out@[k]@));
    }
    assert(strs_of(s)->Some_0 =~= names(out@));
    Ok(out)
}

/// Reads the frame of the envelope `j`.
pub fn read_frame(j: &Json) -> (r: Result<(String, String, String, &Vec<(String, Json)>, Option<usize>), ParseError>)
    ensures
        match r {
            Ok((src, dst, tag, body, msg_id)) => frame_of(j.jv()) == Some(
                Frame { src: src@, dst: dst@, tag: tag@, body: fields_v(body@), msg_id },
            ),
            Err(_) => frame_of(j.jv()) is None,
        },
{
    let top = match j {
        Json::Obj(top) => top,
        _ => {
            return Err(parse_error("an envelope is an object"));
        },
    };
    let src = get_str(top, "src")?;
    let dst = get_str(top, "dest")?;
    let body = match find_field(top, "body") {
        Some(Json::Obj(body)) => body,
        _ => {
            return Err(parse_error("the body is an object"));
        },
    };
    let tag = get_str(body, "type")?;
    let msg_id = match find_field(body, "msg_id") {
        None => None,
        Some(Json::Null) => None,
        Some(Json::Num(n)) => Some(*n),
        _ => {
            return Err(parse_error("msg_id is a number or null"));
        },
    };
    Ok((src, dst, tag, body, msg_id))
}

/// The envelope from `src` to `dst` carrying a payload tagged `tag` with
/// members `fields`.
pub fn envelope(src: String, dst: String, tag: &str, fields: Vec<(String, Json)>, msg_id: Option<usize>) -> (r: Json)
    ensures
        r.jv() == envelope_v(src@, dst@, tag@, fields_v(fields@), msg_id),
{
    let mut fields = fields;
    let ghost given = fields@;
    let id = match msg_id {
        Some(n) => Json::Num(n),
        None => Json::Null,
    };
    let mut body: Vec<(String, Json)> = Vec::new();
    body.push(("type".to_owned(), Json::Str(tag.to_owned())));
    body.append(&mut fields);
    body.push(("msg_id".to_owned(), id));
    assert(fields_v(body@) =~= seq![("type"@, JsonV::Str(tag@))] + fields_v(given) + seq![("msg_id"@, id_v(msg_id))]);
    let mut top: Vec<(String, Json)> = Vec::new();
    top.push(("src".to_owned(), Json::Str(src)));
    top.push(("dest".to_owned(), Json::Str(dst)));
    top.push(("body".to_owned(), Json::Obj(body)));
    let r = Json::Obj(top);
    assert(fields_v(top@) =~= envelope_v(src@, dst@, tag@, fields_v(given), msg_id)->Obj_0);
    r
}

/// The JSON array of `v`.
pub fn nums_json(v: &Vec<usize>) -> (r: Json)
    ensures
        r.jv() == nums_v(v@),
{
    let mut items: Vec<Json> = Vec::new();
    let mut i: usize = 0;
    while i < v.len()
        invariant
            i <= v.len(),
            items@.len() == i,
            forall|k: int| 0 <= k < i ==> (#[trigger] items@[k]).jv() == JsonV::Num(v@[k]),
        decreases v.len() - i,
    {
        let item = Json::Num(v[i]);
        assert(item.jv() == JsonV::Num(v@[i as int]));
        items.push(item);
        i = i + 1;
    }
    let r = Json::Arr(items);
    assert(items_v(items@) =~= nums_v(v@)->Arr_0);
    r
}

/// The JSON array of `v`.
pub fn strs_json(v: &Vec<String>) -> (r: Json)
    ensures
        r.jv() == strs_v(names(v@)),
{
    let mut items: Vec<Json> = Vec::new();
    let mut i: usize = 0;
    while i < v.len()
        invariant
            i <= v.len(),
            items@.len() == i,
            forall|k: int| 0 <= k < i ==> (#[trigger] items@[k]).jv() == JsonV::Str(v@[k]@),
        decreases v.len() - i,
    {
        let item = Json::Str(v[i].clone());
        assert(item.jv() == JsonV::Str(v@[i as int]@));
        items.push(item);
        i = i + 1;
    }
    let r = Json::Arr(items);
    assert(items_v(items@) =~= strs_v(names(v@))->Arr_0);
    r
}

/// One member named `key`.
pub fn member(key: &str, value: Json) -> (r: (String, Json))
    ensures
        r.0@ == key@,
        r.1 == value,
{
    (key.to_owned(), value)
}

} // verus!
