//! An owned model of untyped JSON values.
//!
//! Patch documents arrive as JSON. The surrounding process parses the raw
//! text and hands the library this owned form, in which a number carries the
//! readings the engine consumes: its closest 64-bit IEEE-754 value (as a bit
//! pattern, so that contracts stay over plain integers), its exact integer
//! readings where it has them, and its decimal rendering from the document.

use vstd::prelude::*;

verus! {

/// One JSON number.
pub struct JsonNumber {
    /// Bit pattern of the number read as a 64-bit IEEE-754 value.
    pub bits: u64,
    /// The number read as a signed 64-bit integer, where it is one.
    pub int_val: Option<i64>,
    /// The number read as an unsigned 64-bit integer, where it is one.
    pub uint_val: Option<u64>,
    /// The number's decimal rendering in the document.
    pub text: String,
}

/// One JSON value.
pub enum JsonValue {
    Null,
    Bool(bool),
    Num(JsonNumber),
    Text(String),
    Arr(Vec<JsonValue>),
    Obj(Vec<(String, JsonValue)>),
}

/// Mathematical image of a [`JsonNumber`].
pub struct JsonNumberModel {
    pub bits: u64,
    pub int_val: Option<i64>,
    pub uint_val: Option<u64>,
    pub text: Seq<char>,
}

/// Mathematical image of a [`JsonValue`].
pub enum JsonModel {
    Null,
    Bool(bool),
    Num(JsonNumberModel),
    Text(Seq<char>),
    Arr(Seq<JsonModel>),
    Obj(Seq<(Seq<char>, JsonModel)>),
}

impl View for JsonNumber {
    type V = JsonNumberModel;

    open spec fn view(&self) -> JsonNumberModel {
        JsonNumberModel {
            bits: self.bits,
            int_val: self.int_val,
            uint_val: self.uint_val,
            text: self.text@,
        }
    }
}

pub open spec fn json_model(v: JsonValue) -> JsonModel
    decreases v,
{
    match v {
        JsonValue::Null => JsonModel::Null,
        JsonValue::Bool(b) => JsonModel::Bool(b),
        JsonValue::Num(n) => JsonModel::Num(n@),
        JsonValue::Text(s) => JsonModel::Text(s@),
        JsonValue::Arr(items) => JsonModel::Arr(json_arr_model(items@)),
        JsonValue::Obj(fields) => JsonModel::Obj(json_obj_model(fields@)),
    }
}

pub open spec fn json_arr_model(items: Seq<JsonValue>) -> Seq<JsonModel>
    decreases items,
{
    if items.len() == 0 {
        Seq::empty()
    } else {
        seq![json_model(items[0])] + json_arr_model(items.drop_first())
    }
}

pub open spec fn json_obj_model(fields: Seq<(String, JsonValue)>) -> Seq<(Seq<char>, JsonModel)>
    decreases fields,
{
    if fields.len() == 0 {
        Seq::empty()
    } else {
        seq![(fields[0].0@, json_model(fields[0].1))] + json_obj_model(fields.drop_first())
    }
}

impl View for JsonValue {
    type V = JsonModel;

    open spec fn view(&self) -> JsonModel {
        json_model(*self)
    }
}

/// The image of an array is the image of its items, in order.
pub proof fn lemma_json_arr_model(items: Seq<JsonValue>)
    ensures
        json_arr_model(items).len() == items.len(),
        forall|i: int|
            0 <= i < items.len() ==> json_arr_model(items)[i] == json_model(#[trigger] items[i]),
    decreases items,
{
    if items.len() > 0 {
        lemma_json_arr_model(items.drop_first());
        assert forall|i: int|
            0 <= i < items.len() implies json_arr_model(items)[i] == json_model(
            #[trigger] items[i],
        ) by {
            if i > 0 {
                assert(items.drop_first()[i - 1] == items[i]);
                assert(json_arr_model(items)[i] == json_arr_model(items.drop_first())[i - 1]);
            }
        }
    }
}

/// The image of an object keeps each field's name and value, in order.
pub proof fn lemma_json_obj_model(fields: Seq<(String, JsonValue)>)
    ensures
        json_obj_model(fields).len() == fields.len(),
        forall|i: int|
            0 <= i < fields.len() ==> json_obj_model(fields)[i] == ((#[trigger] fields[i]).0@,
            json_model(fields[i].1)),
    decreases fields,
{
    if fields.len() > 0 {
        lemma_json_obj_model(fields.drop_first());
        assert forall|i: int|
            0 <= i < fields.len() implies json_obj_model(fields)[i] == ((#[trigger] fields[i]).0@,
        json_model(fields[i].1)) by {
            if i > 0 {
                assert(fields.drop_first()[i - 1] == fields[i]);
                assert(json_obj_model(fields)[i] == json_obj_model(fields.drop_first())[i - 1]);
            }
        }
    }
}

/// First field of the object with the given name, if any.
pub open spec fn obj_lookup(fields: Seq<(Seq<char>, JsonModel)>, key: Seq<char>) -> Option<
    JsonModel,
>
    decreases fields,
{
    if fields.len() == 0 {
        None
    } else if fields[0].0 == key {
        Some(fields[0].1)
    } else {
        obj_lookup(fields.drop_first(), key)
    }
}

/// Looks a field up in an object by name, first match winning.
pub open spec fn json_get(v: JsonModel, key: Seq<char>) -> Option<JsonModel> {
    match v {
        JsonModel::Obj(fields) => obj_lookup(fields, key),
        _ => None,
    }
}

impl JsonValue {
    /// First field with the given name of this object, if this is an object
    /// and it has one.
    pub fn get(&self, key: &str) -> (r: Option<&JsonValue>)
        ensures
            match r {
                Some(f) => json_get(self@, key@) == Some(f@),
                None => json_get(self@, key@) is None,
            },
    {
        match self {
            JsonValue::Obj(fields) => {
                let mut i: usize = 0;
                proof {
                    lemma_json_obj_model(fields@);
                    assert(json_obj_model(fields@).skip(0) =~= json_obj_model(fields@));
                }
                while i < fields.len()
                    invariant
                        i <= fields@.len(),
                        self@ == JsonModel::Obj(json_obj_model(fields@)),
                        json_obj_model(fields@).len() == fields@.len(),
                        forall|k: int|
                            0 <= k < fields@.len() ==> json_obj_model(fields@)[k] == ((
                            #[trigger] fields@[k]).0@, json_model(fields@[k].1)),
                        obj_lookup(json_obj_model(fields@).skip(i as int), key@) == obj_lookup(
                            json_obj_model(fields@),
                            key@,
                        ),
                        forall|k: int| 0 <= k < i ==> (#[trigger] fields@[k]).0@ != key@,
                    decreases fields@.len() - i,
                {
                    let name = &fields[i].0;
                    if crate::text::str_eq(name.as_str(), key) {
                        proof {
                            let tail = json_obj_model(fields@).skip(i as int);
                            assert(tail.len() > 0);
                            assert(tail[0] == json_obj_model(fields@)[i as int]);
                            assert(tail[0].0 == key@);
                            assert(obj_lookup(tail, key@) == Some(tail[0].1));
                        }
                        return Some(&fields[i].1);
                    }
                    proof {
                        let tail = json_obj_model(fields@).skip(i as int);
                        assert(tail[0] == json_obj_model(fields@)[i as int]);
                        assert(tail.drop_first() =~= json_obj_model(fields@).skip(i + 1));
                    }
                    i = i + 1;
                }
                proof {
                    assert(json_obj_model(fields@).skip(i as int) =~= Seq::empty());
                }
                None
            },
            _ => None,
        }
    }

}

/// One hexadecimal digit, lower case.
pub open spec fn hex_digit_model(n: int) -> char {
    if n == 0 {
        '0'
    } else if n == 1 {
        '1'
    } else if n == 2 {
        '2'
    } else if n == 3 {
        '3'
    } else if n == 4 {
        '4'
    } else if n == 5 {
        '5'
    } else if n == 6 {
        '6'
    } else if n == 7 {
        '7'
    } else if n == 8 {
        '8'
    } else if n == 9 {
        '9'
    } else if n == 10 {
        'a'
    } else if n == 11 {
        'b'
    } else if n == 12 {
        'c'
    } else if n == 13 {
        'd'
    } else if n == 14 {
        'e'
    } else {
        'f'
    }
}

/// How one character stands inside a rendered JSON string: quotes and
/// backslashes carry a backslash, the named control characters use their
/// short escapes, the remaining control characters a `\u00` escape.
pub open spec fn escape_char_model(c: char) -> Seq<char> {
    if c == '"' {
        "\\\""@
    } else if c == '\\' {
        "\\\\"@
    } else if c == '\u{8}' {
        "\\b"@
    } else if c == '\t' {
        "\\t"@
    } else if c == '\n' {
        "\\n"@
    } else if c == '\u{c}' {
        "\\f"@
    } else if c == '\r' {
        "\\r"@
    } else if (c as int) < 0x20 {
        "\\u00"@ + seq![hex_digit_model((c as int) / 16), hex_digit_model((c as int) % 16)]
    } else {
        seq![c]
    }
}

/// A rendered JSON string body: each character escaped, in order.
pub open spec fn escape_model(s: Seq<char>) -> Seq<char>
    decreases s,
{
    if s.len() == 0 {
        Seq::empty()
    } else {
        escape_char_model(s[0]) + escape_model(s.drop_first())
    }
}

/// Escaping distributes over appending one character.
pub proof fn lemma_escape_push(s: Seq<char>, c: char)
    ensures
        escape_model(s.push(c)) == escape_model(s) + escape_char_model(c),
    decreases s,
{
    if s.len() == 0 {
        assert(s.push(c) =~= seq![c]);
        assert(s.push(c).drop_first() =~= Seq::empty());
        assert(escape_model(Seq::<char>::empty()) =~= Seq::<char>::empty());
        assert(s.push(c)[0] == c);
        assert(escape_model(s.push(c)) =~= escape_char_model(c));
        assert(escape_model(s) + escape_char_model(c) =~= escape_char_model(c));
    } else {
        assert(s.push(c).drop_first() =~= s.drop_first().push(c));
        lemma_escape_push(s.drop_first(), c);
        assert(escape_model(s.push(c)) =~= escape_model(s) + escape_char_model(c));
    }
}

/// The rendered form of a JSON value: the compact serialization, object
/// fields and array items in order, numbers by their recorded rendering.
pub open spec fn json_text_model(v: JsonModel) -> Seq<char>
    decreases v,
{
    match v {
        JsonModel::Null => "null"@,
        JsonModel::Bool(b) => if b {
            "true"@
        } else {
            "false"@
        },
        JsonModel::Num(n) => n.text,
        JsonModel::Text(s) => "\""@ + escape_model(s) + "\""@,
        JsonModel::Arr(items) => "["@ + json_text_items(items) + "]"@,
        JsonModel::Obj(fields) => "{"@ + json_text_fields(fields) + "}"@,
    }
}

/// Rendered array items, comma separated.
pub open spec fn json_text_items(items: Seq<JsonModel>) -> Seq<char>
    decreases items,
{
    if items.len() == 0 {
        Seq::empty()
    } else if items.len() == 1 {
        json_text_model(items[0])
    } else {
        json_text_model(items[0]) + ","@ + json_text_items(items.drop_first())
    }
}

/// Rendered object fields, comma separated, each a quoted name, a colon and
/// the field's value.
pub open spec fn json_text_fields(fields: Seq<(Seq<char>, JsonModel)>) -> Seq<char>
    decreases fields,
{
    if fields.len() == 0 {
        Seq::empty()
    } else {
        let head = "\""@ + escape_model(fields[0].0) + "\":"@ + json_text_model(fields[0].1);
        if fields.len() == 1 {
            head
        } else {
            head + ","@ + json_text_fields(fields.drop_first())
        }
    }
}

/// One hexadecimal digit, lower case.
fn hex_digit(n: u8) -> (r: &'static str)
    requires
        n < 16,
    ensures
        r@ == seq![hex_digit_model(n as int)],
{
    proof {
        reveal_strlit("0");
        reveal_strlit("1");
        reveal_strlit("2");
        reveal_strlit("3");
        reveal_strlit("4");
        reveal_strlit("5");
        reveal_strlit("6");
        reveal_strlit("7");
        reveal_strlit("8");
        reveal_strlit("9");
        reveal_strlit("a");
        reveal_strlit("b");
        reveal_strlit("c");
        reveal_strlit("d");
        reveal_strlit("e");
        reveal_strlit("f");
    }
    match n {
        0 => "0",
        1 => "1",
        2 => "2",
        3 => "3",
        4 => "4",
        5 => "5",
        6 => "6",
        7 => "7",
        8 => "8",
        9 => "9",
        10 => "a",
        11 => "b",
        12 => "c",
        13 => "d",
        14 => "e",
        _ => "f",
    }
}

/// Appends the escaped form of one character.
fn push_escaped(out: &mut String, c: char)
    ensures
        final(out)@ == old(out)@ + escape_char_model(c),
{
    proof {
        reveal_strlit("\\\"");
        reveal_strlit("\\\\");
        reveal_strlit("\\b");
        reveal_strlit("\\t");
        reveal_strlit("\\n");
        reveal_strlit("\\f");
        reveal_strlit("\\r");
        reveal_strlit("\\u00");
    }
    if c == '"' {
        out.append("\\\"");
    } else if c == '\\' {
        out.append("\\\\");
    } else if c == '\u{8}' {
        out.append("\\b");
    } else if c == '\t' {
        out.append("\\t");
    } else if c == '\n' {
        out.append("\\n");
    } else if c == '\u{c}' {
        out.append("\\f");
    } else if c == '\r' {
        out.append("\\r");
    } else if (c as u32) < 0x20 {
        let code = c as u32;
        out.append("\\u00");
        out.append(hex_digit((code / 16) as u8));
        out.append(hex_digit((code % 16) as u8));
        proof {
            assert(out@ =~= old(out)@ + escape_char_model(c));
        }
    } else {
        push_char(out, c);
        proof {
            assert(out@ =~= old(out)@ + escape_char_model(c));
        }
    }
}

/// Relies on `String::push`: appends the given character.
#[verifier::external_body]
fn push_char(out: &mut String, c: char)
    ensures
        final(out)@ == old(out)@.push(c),
{
    out.push(c);
}

/// Rendering distributes over appending one item to an array.
pub proof fn lemma_items_push(items: Seq<JsonModel>, x: JsonModel)
    ensures
        json_text_items(items.push(x)) == if items.len() == 0 {
            json_text_model(x)
        } else {
            json_text_items(items) + ","@ + json_text_model(x)
        },
    decreases items,
{
    if items.len() == 0 {
        assert(items.push(x) =~= seq![x]);
        assert(json_text_items(seq![x]) == json_text_model(x));
    } else {
        assert(items.push(x).drop_first() =~= items.drop_first().push(x));
        assert(items.push(x)[0] == items[0]);
        assert(items.push(x).len() == items.len() + 1);
        lemma_items_push(items.drop_first(), x);
        if items.len() == 1 {
            assert(json_text_items(items.push(x)) =~= json_text_items(items) + ","@
                + json_text_model(x));
        } else {
            assert(json_text_items(items.push(x)) =~= json_text_items(items) + ","@
                + json_text_model(x));
        }
    }
}

/// Rendering distributes over appending one field to an object.
pub proof fn lemma_fields_push(fields: Seq<(Seq<char>, JsonModel)>, x: (Seq<char>, JsonModel))
    ensures
        json_text_fields(fields.push(x)) == if fields.len() == 0 {
            "\""@ + escape_model(x.0) + "\":"@ + json_text_model(x.1)
        } else {
            json_text_fields(fields) + ","@ + "\""@ + escape_model(x.0) + "\":"@ + json_text_model(
                x.1,
            )
        },
    decreases fields,
{
    if fields.len() == 0 {
        assert(fields.push(x) =~= seq![x]);
        assert(json_text_fields(seq![x]) == "\""@ + escape_model(x.0) + "\":"@ + json_text_model(
            x.1,
        ));
    } else {
        assert(fields.push(x).drop_first() =~= fields.drop_first().push(x));
        assert(fields.push(x)[0] == fields[0]);
        lemma_fields_push(fields.drop_first(), x);
        assert(json_text_fields(fields.push(x)) =~= json_text_fields(fields) + ","@ + "\""@
            + escape_model(x.0) + "\":"@ + json_text_model(x.1));
    }
}

/// Renders a JSON value in its compact textual form.
pub fn json_text(v: &JsonValue) -> (r: String)
    ensures
        r@ == json_text_model(v@),
    decreases v,
{
    match v {
        JsonValue::Null => "null".to_owned(),
        JsonValue::Bool(b) => if *b {
            "true".to_owned()
        } else {
            "false".to_owned()
        },
        JsonValue::Num(n) => n.text.clone(),
        JsonValue::Text(s) => {
            let mut out = String::new();
            out.append("\"");
            push_escaped_str(&mut out, s.as_str());
            out.append("\"");
            proof {
                assert(out@ =~= json_text_model(v@));
            }
            out
        },
        JsonValue::Arr(items) => {
            let mut out = String::new();
            out.append("[");
            proof {
                lemma_json_arr_model(items@);
                assert(json_arr_model(items@).take(0) =~= Seq::<JsonModel>::empty());
                assert(out@ =~= "["@ + json_text_items(json_arr_model(items@).take(0)));
            }
            let mut i: usize = 0;
            while i < items.len()
                invariant
                    i <= items@.len(),
                    json_arr_model(items@).len() == items@.len(),
                    forall|k: int|
                        0 <= k < items@.len() ==> json_arr_model(items@)[k] == json_model(
                            #[trigger] items@[k],
                        ),
                    out@ == "["@ + json_text_items(json_arr_model(items@).take(i as int)),
                    *v == JsonValue::Arr(*items),
                decreases items@.len() - i,
            {
                if i > 0 {
                    out.append(",");
                }
                proof {
                    assert(decreases_to!(*v => (*v)->Arr_0));
                    assert((*v)->Arr_0 == *items);
                    assert(decreases_to!(*items => items@));
                    assert(decreases_to!(items@ => items@[i as int]));
                    assert(decreases_to!(*v => items@[i as int]));
                }
                let piece = json_text(&items[i]);
                out.append(piece.as_str());
                proof {
                    let m = json_arr_model(items@);
                    assert(m.take(i + 1) =~= m.take(i as int).push(m[i as int]));
                    lemma_items_push(m.take(i as int), m[i as int]);
                    assert(out@ =~= "["@ + json_text_items(m.take(i + 1)));
                }
                i = i + 1;
            }
            out.append("]");
            proof {
                let m = json_arr_model(items@);
                assert(m.take(m.len() as int) =~= m);
                assert(out@ =~= json_text_model(v@));
            }
            out
        },
        JsonValue::Obj(fields) => {
            let mut out = String::new();
            out.append("{");
            proof {
                lemma_json_obj_model(fields@);
                assert(json_obj_model(fields@).take(0) =~= Seq::<(Seq<char>, JsonModel)>::empty());
                assert(out@ =~= "{"@ + json_text_fields(json_obj_model(fields@).take(0)));
            }
            let mut i: usize = 0;
            while i < fields.len()
                invariant
                    i <= fields@.len(),
                    json_obj_model(fields@).len() == fields@.len(),
                    forall|k: int|
                        0 <= k < fields@.len() ==> json_obj_model(fields@)[k] == ((
                        #[trigger] fields@[k]).0@, json_model(fields@[k].1)),
                    out@ == "{"@ + json_text_fields(json_obj_model(fields@).take(i as int)),
                    *v == JsonValue::Obj(*fields),
                decreases fields@.len() - i,
            {
                if i > 0 {
                    out.append(",");
                }
                out.append("\"");
                push_escaped_str(&mut out, fields[i].0.as_str());
                out.append("\":");
                proof {
                    assert(decreases_to!(*v => (*v)->Obj_0));
                    assert((*v)->Obj_0 == *fields);
                    assert(decreases_to!(*fields => fields@));
                    assert(decreases_to!(fields@ => fields@[i as int]));
                    assert(decreases_to!(fields@[i as int] => fields@[i as int].1));
                    assert(decreases_to!(*v => fields@[i as int].1));
                }
                let piece = json_text(&fields[i].1);
                out.append(piece.as_str());
                proof {
                    let m = json_obj_model(fields@);
                    assert(m.take(i + 1) =~= m.take(i as int).push(m[i as int]));
                    lemma_fields_push(m.take(i as int), m[i as int]);
                    assert(out@ =~= "{"@ + json_text_fields(m.take(i + 1)));
                }
                i = i + 1;
            }
            out.append("}");
            proof {
                let m = json_obj_model(fields@);
                assert(m.take(m.len() as int) =~= m);
                assert(out@ =~= json_text_model(v@));
            }
            out
        },
    }
}

/// Appends the escaped form of a whole string.
fn push_escaped_str(out: &mut String, s: &str)
    ensures
        final(out)@ == old(out)@ + escape_model(s@),
{
    let n = s.unicode_len();
    let mut i: usize = 0;
    while i < n
        invariant
            i <= n,
            n == s@.len(),
            out@ == old(out)@ + escape_model(s@.take(i as int)),
        decreases n - i,
    {
        let c = s.get_char(i);
        push_escaped(out, c);
        proof {
            assert(s@.take(i + 1) =~= s@.take(i as int).push(s@[i as int]));
            lemma_escape_push(s@.take(i as int), s@[i as int]);
        }
        i = i + 1;
    }
    proof {
        assert(s@.take(n as int) =~= s@);
    }
}

} // verus!

