//! JSON documents: a value tree, the text that writes one, and the reading of
//! a text into a tree.
use vstd::prelude::*;
use vstd::string::StringExecFns;

use crate::text::same_text;

verus! {

/// A JSON document.
///
/// A number is held as the text that writes it, so that no precision is
/// lost and no floating point is needed. An object holds its members as a
/// list, in order; a name is looked up from the front.
#[derive(Debug, PartialEq, Eq)]
pub enum JsonValue {
    Null,
    Bool(bool),
    Number(String),
    Text(String),
    List(Vec<JsonValue>),
    Object(Vec<(String, JsonValue)>),
}

/// The mathematical model of one member of an object.
pub struct Member {
    pub name: Seq<char>,
    pub value: Json,
}

/// The mathematical model of a [`JsonValue`].
pub enum Json {
    Null,
    Bool(bool),
    Number(Seq<char>),
    Text(Seq<char>),
    List(Seq<Json>),
    Object(Seq<Member>),
}

impl View for JsonValue {
    type V = Json;

    open spec fn view(&self) -> Json
        decreases self,
    {
        match self {
            JsonValue::Null => Json::Null,
            JsonValue::Bool(b) => Json::Bool(*b),
            JsonValue::Number(n) => Json::Number(n@),
            JsonValue::Text(t) => Json::Text(t@),
            JsonValue::List(items) => Json::List(
                Seq::new(
                    items.len() as nat,
                    |i: int|
                        if 0 <= i < items.len() {
                            items[i].view()
                        } else {
                            Json::Null
                        },
                ),
            ),
            JsonValue::Object(members) => Json::Object(
                Seq::new(
                    members.len() as nat,
                    |i: int|
                        if 0 <= i < members.len() {
                            Member { name: members[i].0@, value: members[i].1.view() }
                        } else {
                            Member { name: Seq::empty(), value: Json::Null }
                        },
                ),
            ),
        }
    }
}

/// The models of the items of a list, in order.
pub open spec fn items_view(items: Seq<JsonValue>) -> Seq<Json> {
    Seq::new(items.len(), |i: int| items[i]@)
}

/// The models of the members of an object, in order.
pub open spec fn members_view(members: Seq<(String, JsonValue)>) -> Seq<Member> {
    Seq::new(members.len(), |i: int| Member { name: members[i].0@, value: members[i].1@ })
}

/// The model of a list is the list of its items' models.
pub proof fn lemma_list_view(items: Vec<JsonValue>)
    ensures
        JsonValue::List(items)@ == Json::List(items_view(items@)),
{
    assert(JsonValue::List(items)@->List_0 =~= items_view(items@));
}

/// The model of an object is the list of its members' names and models.
pub proof fn lemma_object_view(members: Vec<(String, JsonValue)>)
    ensures
        JsonValue::Object(members)@ == Json::Object(members_view(members@)),
{
    let written = JsonValue::Object(members)@->Object_0;
    assert(written =~= members_view(members@));
}

/// The value of the first member of that name, if there is one.
pub open spec fn member_named(members: Seq<Member>, name: Seq<char>) -> Option<Json>
    decreases members.len(),
{
    if members.len() == 0 {
        None
    } else if members[0].name == name {
        Some(members[0].value)
    } else {
        member_named(members.drop_first(), name)
    }
}

/// A member is looked up in the first of two runs of members, and in the
/// second only where the first has none of that name.
pub proof fn lemma_member_named_concat(first: Seq<Member>, second: Seq<Member>, name: Seq<char>)
    ensures
        member_named(first + second, name) == match member_named(first, name) {
            Some(value) => Some(value),
            None => member_named(second, name),
        },
    decreases first.len(),
{
    if first.len() == 0 {
        assert(first + second =~= second);
    } else {
        assert((first + second).drop_first() =~= first.drop_first() + second);
        lemma_member_named_concat(first.drop_first(), second, name);
    }
}

/// No two members have the same name.
pub open spec fn distinct_names(members: Seq<Member>) -> bool {
    forall|i: int, j: int|
        0 <= i < j < members.len() ==> (#[trigger] members[i]).name != (#[trigger] members[j]).name
}

/// In the document and in every document inside it, no object has two
/// members of the same name.
pub open spec fn well_keyed(json: Json) -> bool
    decreases json,
{
    match json {
        Json::List(items) => forall|i: int|
            0 <= i < items.len() ==> well_keyed(#[trigger] items[i]),
        Json::Object(members) => distinct_names(members) && forall|i: int|
            0 <= i < members.len() ==> well_keyed((#[trigger] members[i]).value),
        _ => true,
    }
}

/// A member that is found is one of the members.
pub proof fn lemma_member_named_is_member(members: Seq<Member>, name: Seq<char>) -> (at: int)
    requires
        member_named(members, name) is Some,
    ensures
        0 <= at < members.len(),
        members[at].name == name,
        member_named(members, name) == Some(members[at].value),
    decreases members.len(),
{
    if members[0].name == name {
        0
    } else {
        let rest = members.drop_first();
        let at: int = lemma_member_named_is_member(rest, name);
        assert(rest[at] == members[at + 1]);
        at + 1
    }
}

/// The lowercase hexadecimal digit for `d`; `'0'` where `d` is above 15.
pub open spec fn hex_digit(d: nat) -> char {
    if d == 1 {
        '1'
    } else if d == 2 {
        '2'
    } else if d == 3 {
        '3'
    } else if d == 4 {
        '4'
    } else if d == 5 {
        '5'
    } else if d == 6 {
        '6'
    } else if d == 7 {
        '7'
    } else if d == 8 {
        '8'
    } else if d == 9 {
        '9'
    } else if d == 10 {
        'a'
    } else if d == 11 {
        'b'
    } else if d == 12 {
        'c'
    } else if d == 13 {
        'd'
    } else if d == 14 {
        'e'
    } else if d == 15 {
        'f'
    } else {
        '0'
    }
}

/// How one character stands inside a JSON string: the quotation mark, the
/// reverse solidus and the control characters below U+0020 are escaped, the
/// latter by their short form where JSON has one and as `\u00XX` otherwise;
/// every other character stands for itself.
pub open spec fn escaped_char(c: char) -> Seq<char> {
    if c == '"' {
        seq!['\\', '"']
    } else if c == '\\' {
        seq!['\\', '\\']
    } else if c == '\u{08}' {
        seq!['\\', 'b']
    } else if c == '\u{0c}' {
        seq!['\\', 'f']
    } else if c == '\n' {
        seq!['\\', 'n']
    } else if c == '\r' {
        seq!['\\', 'r']
    } else if c == '\t' {
        seq!['\\', 't']
    } else if (c as u32) < 0x20 {
        seq![
            '\\',
            'u',
            '0',
            '0',
            hex_digit(((c as u32) / 16) as nat),
            hex_digit(((c as u32) % 16) as nat),
        ]
    } else {
        seq![c]
    }
}

/// The characters of a text, each as it stands inside a JSON string.
pub open spec fn escaped(text: Seq<char>) -> Seq<char>
    decreases text.len(),
{
    if text.len() == 0 {
        Seq::empty()
    } else {
        escaped(text.drop_last()) + escaped_char(text.last())
    }
}

/// A text as a JSON string: escaped, between quotation marks.
pub open spec fn quoted(text: Seq<char>) -> Seq<char> {
    seq!['"'] + escaped(text) + seq!['"']
}

/// The compact JSON text of a document: no white space, members and items
/// in their order, separated by commas.
pub open spec fn text_of(json: Json) -> Seq<char>
    decreases json,
{
    match json {
        Json::Null => seq!['n', 'u', 'l', 'l'],
        Json::Bool(b) => if b {
            seq!['t', 'r', 'u', 'e']
        } else {
            seq!['f', 'a', 'l', 's', 'e']
        },
        Json::Number(digits) => digits,
        Json::Text(text) => quoted(text),
        Json::List(items) => seq!['['] + items_text(items) + seq![']'],
        Json::Object(members) => seq!['{'] + members_text(members) + seq!['}'],
    }
}

/// The texts of the items of a list, with a comma between two of them.
pub open spec fn items_text(items: Seq<Json>) -> Seq<char>
    decreases items,
{
    if items.len() == 0 {
        Seq::empty()
    } else if items.len() == 1 {
        text_of(items[0])
    } else {
        items_text(items.drop_last()) + seq![','] + text_of(items.last())
    }
}

/// The text of one member of an object: its name as a string, a colon, its
/// value.
pub open spec fn member_text(member: Member) -> Seq<char>
    decreases member,
{
    quoted(member.name) + seq![':'] + text_of(member.value)
}

/// The texts of the members of an object, with a comma between two of them.
pub open spec fn members_text(members: Seq<Member>) -> Seq<char>
    decreases members,
{
    if members.len() == 0 {
        Seq::empty()
    } else if members.len() == 1 {
        member_text(members[0])
    } else {
        members_text(members.drop_last()) + seq![','] + member_text(members.last())
    }
}

/// The lowercase hexadecimal digit for `d`.
fn hex_char(d: u32) -> (c: char)
    requires
        d < 16,
    ensures
        c == hex_digit(d as nat),
{
    if d == 0 {
        '0'
    } else if d == 1 {
        '1'
    } else if d == 2 {
        '2'
    } else if d == 3 {
        '3'
    } else if d == 4 {
        '4'
    } else if d == 5 {
        '5'
    } else if d == 6 {
        '6'
    } else if d == 7 {
        '7'
    } else if d == 8 {
        '8'
    } else if d == 9 {
        '9'
    } else if d == 10 {
        'a'
    } else if d == 11 {
        'b'
    } else if d == 12 {
        'c'
    } else if d == 13 {
        'd'
    } else if d == 14 {
        'e'
    } else {
        'f'
    }
}

/// Appends a backslash and the letter of a short escape.
fn push_short_escape(out: &mut String, letter: char)
    ensures
        final(out)@ == old(out)@ + seq!['\\', letter],
{
    out.push('\\');
    out.push(letter);
    assert(out@ =~= old(out)@ + seq!['\\', letter]);
}

/// Appends one character as it stands inside a JSON string.
fn push_escaped_char(out: &mut String, c: char)
    ensures
        final(out)@ == old(out)@ + escaped_char(c),
{
    if c == '"' {
        push_short_escape(out, '"');
    } else if c == '\\' {
        push_short_escape(out, '\\');
    } else if c == '\u{08}' {
        push_short_escape(out, 'b');
    } else if c == '\u{0c}' {
        push_short_escape(out, 'f');
    } else if c == '\n' {
        push_short_escape(out, 'n');
    } else if c == '\r' {
        push_short_escape(out, 'r');
    } else if c == '\t' {
        push_short_escape(out, 't');
    } else if (c as u32) < 0x20 {
        let code: u32 = c as u32;
        push_short_escape(out, 'u');
        out.push('0');
        out.push('0');
        out.push(hex_char(code / 16));
        out.push(hex_char(code % 16));
        assert(out@ =~= old(out)@ + escaped_char(c));
    } else {
        out.push(c);
        assert(out@ =~= old(out)@ + escaped_char(c));
    }
}

/// Appends a text as a JSON string.
pub fn push_quoted(out: &mut String, text: &str)
    ensures
        final(out)@ == old(out)@ + quoted(text@),
{
    let ghost before = out@;
    out.push('"');
    for c in it: text.chars()
        invariant
            it.seq() == text@,
            out@ == before + seq!['"'] + escaped(text@.take(it.index() as int)),
    {
        let ghost i = it.index() as int;
        push_escaped_char(out, c);
        assert(text@.take(i + 1).drop_last() =~= text@.take(i));
        assert(out@ =~= before + seq!['"'] + escaped(text@.take(i + 1)));
    }
    assert(text@.take(text@.len() as int) =~= text@);
    out.push('"');
    assert(out@ =~= before + quoted(text@));
}

impl JsonValue {
    /// The value of the first member of that name, where this document is
    /// an object that has one.
    pub fn get(&self, name: &str) -> (found: Option<&JsonValue>)
        ensures
            match found {
                Some(value) => self@ is Object && member_named(self@->Object_0, name@) == Some(
                    value@,
                ),
                None => !(self@ is Object) || member_named(self@->Object_0, name@) is None,
            },
    {
        match self {
            JsonValue::Object(members) => {
                let ghost models = members_view(members@);
                proof {
                    lemma_object_view(*members);
                    assert(models.skip(0) =~= models);
                }
                let mut i: usize = 0;
                while i < members.len()
                    invariant
                        i <= members.len(),
                        self@ == Json::Object(models),
                        models == members_view(members@),
                        member_named(models, name@) == member_named(models.skip(i as int), name@),
                    decreases members.len() - i,
                {
                    if same_text(members[i].0.as_str(), name) {
                        assert(models.skip(i as int)[0] == models[i as int]);
                        return Some(&members[i].1);
                    }
                    assert(models.skip(i as int)[0] == models[i as int]);
                    assert(models.skip(i as int).drop_first() =~= models.skip(i + 1));
                    i += 1;
                }
                assert(models.skip(i as int) =~= Seq::<Member>::empty());
                None
            },
            _ => None,
        }
    }

    /// Appends the compact JSON text of this document.
    pub fn write_text(&self, out: &mut String)
        ensures
            final(out)@ == old(out)@ + text_of(self@),
        decreases self,
    {
        let ghost before = out@;
        match self {
            JsonValue::Null => {
                out.push('n');
                out.push('u');
                out.push('l');
                out.push('l');
                assert(out@ =~= before + text_of(self@));
            },
            JsonValue::Bool(b) => {
                if *b {
                    out.push('t');
                    out.push('r');
                    out.push('u');
                    out.push('e');
                } else {
                    out.push('f');
                    out.push('a');
                    out.push('l');
                    out.push('s');
                    out.push('e');
                }
                assert(out@ =~= before + text_of(self@));
            },
            JsonValue::Number(digits) => {
                out.append(digits.as_str());
            },
            JsonValue::Text(text) => {
                push_quoted(out, text.as_str());
            },
            JsonValue::List(items) => {
                let ghost models = items_view(items@);
                out.push('[');
                let mut i: usize = 0;
                while i < items.len()
                    invariant
                        i <= items.len(),
                        *self == JsonValue::List(*items),
                        models == items_view(items@),
                        out@ == before + seq!['['] + items_text(models.take(i as int)),
                    decreases items.len() - i,
                {
                    if i > 0 {
                        out.push(',');
                    }
                    proof {
                        assert(decreases_to!(*self => self->List_0));
                        assert(decreases_to!(*items => items[i as int]));
                    }
                    items[i].write_text(out);
                    proof {
                        let seen = models.take(i as int);
                        let next = models.take(i + 1);
                        assert(next.drop_last() =~= seen);
                        assert(next.last() == items[i as int]@);
                        if i == 0 {
                            assert(seen =~= Seq::<Json>::empty());
                        }
                        assert(out@ =~= before + seq!['['] + items_text(next));
                    }
                    i += 1;
                }
                out.push(']');
                proof {
                    lemma_list_view(*items);
                    assert(models.take(items.len() as int) =~= models);
                    assert(out@ =~= before + text_of(self@));
                }
            },
            JsonValue::Object(members) => {
                let ghost models = members_view(members@);
                out.push('{');
                let mut i: usize = 0;
                while i < members.len()
                    invariant
                        i <= members.len(),
                        *self == JsonValue::Object(*members),
                        models == members_view(members@),
                        out@ == before + seq!['{'] + members_text(models.take(i as int)),
                    decreases members.len() - i,
                {
                    if i > 0 {
                        out.push(',');
                    }
                    proof {
                        assert(decreases_to!(*self => self->Object_0));
                        assert(decreases_to!(*members => members[i as int]));
                        assert(decreases_to!(members[i as int] => members[i as int].1));
                    }
                    let ghost start = out@;
                    push_quoted(out, members[i].0.as_str());
                    out.push(':');
                    members[i].1.write_text(out);
                    proof {
                        let seen = models.take(i as int);
                        let next = models.take(i + 1);
                        assert(next.drop_last() =~= seen);
                        assert(next.last() == models[i as int]);
                        assert(out@ =~= start + member_text(models[i as int]));
                        if i == 0 {
                            assert(seen =~= Seq::<Member>::empty());
                        }
                        assert(out@ =~= before + seq!['{'] + members_text(next));
                    }
                    i += 1;
                }
                out.push('}');
                proof {
                    lemma_object_view(*members);
                    assert(models.take(members.len() as int) =~= models);
                    assert(out@ =~= before + text_of(self@));
                }
            },
        }
    }

    /// The compact JSON text of this document.
    pub fn to_text(&self) -> (text: String)
        ensures
            text@ == text_of(self@),
    {
        let mut out = String::new();
        self.write_text(&mut out);
        assert(out@ =~= text_of(self@));
        out
    }
}

/// Trusted: `serde_json::Value`, a document as the JSON parser hands it
/// over. Nothing inside it is visible to the proofs.
#[verifier::external_type_specification]
#[verifier::external_body]
pub struct ExParsedDocument(serde_json::Value);

/// Trusted: `serde_json::Error`, the parser's account of a text that it
/// could not read.
#[verifier::external_type_specification]
#[verifier::external_body]
pub struct ExParseFailure(serde_json::Error);

/// What reading a text as JSON gives: the document that the text writes,
/// or the parser's message where the text writes none. This is what
/// `serde_json::from_str` returns for the text, the document taken as its
/// model and the failure as its message.
pub uninterp spec fn parsed_json(text: Seq<char>) -> Result<Json, Seq<char>>;

/// The model of a document of the parser: what it holds, with each number
/// as the text that `serde_json::Number` displays for it and the members of
/// each object in the order in which `serde_json::Map` hands them out.
pub uninterp spec fn document_model(document: serde_json::Value) -> Json;

/// The message of a failure of the parser: what `serde_json::Error`
/// displays.
pub uninterp spec fn failure_text(failure: serde_json::Error) -> Seq<char>;

/// Trusted: calls `serde_json::from_str` for a `serde_json::Value`, which
/// reads the whole text as one JSON document and fails where the text is
/// not one. The result depends on the text alone.
#[verifier::external_body]
fn parse_document(text: &str) -> (parsed: Result<serde_json::Value, serde_json::Error>)
    ensures
        match parsed {
            Ok(document) => parsed_json(text@) == Ok::<Json, Seq<char>>(document_model(document)),
            Err(failure) => parsed_json(text@) == Err::<Json, Seq<char>>(failure_text(failure)),
        },
{
    serde_json::from_str::<serde_json::Value>(text)
}

/// A document of the parser, opened by one level: what it is, with the
/// documents inside it still closed.
enum Shape {
    Null,
    Bool(bool),
    Number(String),
    Text(String),
    List(Vec<serde_json::Value>),
    Object(Vec<(String, serde_json::Value)>),
}

/// The model of a document, given what it is and the models of the
/// documents inside it.
spec fn shape_model(shape: Shape) -> Json {
    match shape {
        Shape::Null => Json::Null,
        Shape::Bool(flag) => Json::Bool(flag),
        Shape::Number(digits) => Json::Number(digits@),
        Shape::Text(text) => Json::Text(text@),
        Shape::List(items) => Json::List(
            Seq::new(items@.len(), |i: int| document_model(items@[i])),
        ),
        Shape::Object(members) => Json::Object(
            Seq::new(
                members@.len(),
                |i: int| Member { name: members@[i].0@, value: document_model(members@[i].1) },
            ),
        ),
    }
}

/// Trusted: tells the variants of `serde_json::Value` apart and moves out
/// what each holds. A number is handed over as the text that
/// `serde_json::Number` displays, the items of an array in their order, and
/// the members of an object in the order of `serde_json::Map`'s iterator,
/// which hands out each name once. The model of the document is made of
/// these parts.
#[verifier::external_body]
fn open(document: serde_json::Value) -> (shape: Shape)
    ensures
        shape_model(shape) == document_model(document),
        shape is Object ==> distinct_names(shape_model(shape)->Object_0),
{
    match document {
        serde_json::Value::Null => Shape::Null,
        serde_json::Value::Bool(flag) => Shape::Bool(flag),
        serde_json::Value::Number(number) => Shape::Number(number.to_string()),
        serde_json::Value::String(text) => Shape::Text(text),
        serde_json::Value::Array(items) => Shape::List(items),
        serde_json::Value::Object(members) => Shape::Object(members.into_iter().collect()),
    }
}

/// Turns a document of the parser into a [`JsonValue`], level by level.
fn lift(document: serde_json::Value) -> (value: JsonValue)
    ensures
        value@ == document_model(document),
        well_keyed(value@),
    decreases document_model(document),
{
    let ghost whole = document_model(document);
    match open(document) {
        Shape::Null => JsonValue::Null,
        Shape::Bool(flag) => JsonValue::Bool(flag),
        Shape::Number(digits) => JsonValue::Number(digits),
        Shape::Text(text) => JsonValue::Text(text),
        Shape::List(items) => {
            let ghost closed = items@;
            let ghost models = Seq::new(closed.len(), |i: int| document_model(closed[i]));
            let mut lifted: Vec<JsonValue> = Vec::new();
            for item in it: items
                invariant
                    it.seq() == closed,
                    whole == document_model(document),
                    whole == Json::List(models),
                    models == Seq::new(closed.len(), |i: int| document_model(closed[i])),
                    lifted.len() == it.index(),
                    forall|k: int| 0 <= k < it.index() ==> (#[trigger] lifted[k])@ == models[k],
                    forall|k: int| 0 <= k < it.index() ==> well_keyed(#[trigger] models[k]),
            {
                proof {
                    assert(models[it.index() as int] == document_model(item));
                    assert(decreases_to!(whole => whole->List_0));
                    assert(decreases_to!(models => models[it.index() as int]));
                }
                lifted.push(lift(item));
            }
            proof {
                lemma_list_view(lifted);
                assert(items_view(lifted@) =~= models);
            }
            JsonValue::List(lifted)
        },
        Shape::Object(members) => {
            let ghost closed = members@;
            let ghost models = Seq::new(
                closed.len(),
                |i: int| Member { name: closed[i].0@, value: document_model(closed[i].1) },
            );
            let mut lifted: Vec<(String, JsonValue)> = Vec::new();
            for member in it: members
                invariant
                    it.seq() == closed,
                    whole == document_model(document),
                    whole == Json::Object(models),
                    models == Seq::new(
                        closed.len(),
                        |i: int| Member { name: closed[i].0@, value: document_model(closed[i].1) },
                    ),
                    lifted.len() == it.index(),
                    forall|k: int|
                        0 <= k < it.index() ==> (#[trigger] lifted[k]).0@ == models[k].name
                            && lifted[k].1@ == models[k].value && well_keyed(models[k].value),
            {
                proof {
                    let model = models[it.index() as int];
                    assert(model.value == document_model(member.1));
                    assert(decreases_to!(whole => whole->Object_0));
                    assert(decreases_to!(models => model));
                    assert(decreases_to!(model => model.value));
                }
                let (name, inside) = member;
                lifted.push((name, lift(inside)));
            }
            proof {
                lemma_object_view(lifted);
                assert(members_view(lifted@) =~= models);
            }
            JsonValue::Object(lifted)
        },
    }
}

/// Trusted: the message that a `serde_json::Error` displays.
#[verifier::external_body]
fn failure_message(failure: &serde_json::Error) -> (message: String)
    ensures
        message@ == failure_text(*failure),
{
    failure.to_string()
}

/// Reads a text as one JSON document. Gives the document where the text
/// writes one, and the parser's message where it does not. Where the text
/// writes a name twice in one object, the document holds that name once.
pub fn parse(text: &str) -> (parsed: Result<JsonValue, String>)
    ensures
        match parsed {
            Ok(value) => parsed_json(text@) == Ok::<Json, Seq<char>>(value@) && well_keyed(value@),
            Err(message) => parsed_json(text@) == Err::<Json, Seq<char>>(message@),
        },
{
    match parse_document(text) {
        Ok(document) => Ok(lift(document)),
        Err(failure) => Err(failure_message(&failure)),
    }
}

impl Clone for JsonValue {
    /// A copy of this document, equal to it member by member.
    fn clone(&self) -> (copy: JsonValue)
        ensures
            copy@ == self@,
        decreases self,
    {
        match self {
            JsonValue::Null => JsonValue::Null,
            JsonValue::Bool(flag) => JsonValue::Bool(*flag),
            JsonValue::Number(digits) => JsonValue::Number(digits.clone()),
            JsonValue::Text(text) => JsonValue::Text(text.clone()),
            JsonValue::List(items) => {
                let mut copies: Vec<JsonValue> = Vec::new();
                let mut i: usize = 0;
                while i < items.len()
                    invariant
                        i <= items.len(),
                        *self == JsonValue::List(*items),
                        copies.len() == i,
                        forall|k: int| 0 <= k < i ==> (#[trigger] copies[k])@ == items[k]@,
                    decreases items.len() - i,
                {
                    proof {
                        assert(decreases_to!(*self => self->List_0));
                        assert(decreases_to!(*items => items[i as int]));
                    }
                    copies.push(items[i].clone());
                    i += 1;
                }
                proof {
                    lemma_list_view(*items);
                    lemma_list_view(copies);
                    assert(items_view(copies@) =~= items_view(items@));
                }
                JsonValue::List(copies)
            },
            JsonValue::Object(members) => {
                let mut copies: Vec<(String, JsonValue)> = Vec::new();
                let mut i: usize = 0;
                while i < members.len()
                    invariant
                        i <= members.len(),
                        *self == JsonValue::Object(*members),
                        copies.len() == i,
                        forall|k: int|
                            0 <= k < i ==> (#[trigger] copies[k]).0@ == members[k].0@
                                && copies[k].1@ == members[k].1@,
                    decreases members.len() - i,
                {
                    proof {
                        assert(decreases_to!(*self => self->Object_0));
                        assert(decreases_to!(*members => members[i as int]));
                        assert(decreases_to!(members[i as int] => members[i as int].1));
                    }
                    copies.push((members[i].0.clone(), members[i].1.clone()));
                    i += 1;
                }
                proof {
                    lemma_object_view(*members);
                    lemma_object_view(copies);
                    assert(members_view(copies@) =~= members_view(members@));
                }
                JsonValue::Object(copies)
            },
        }
    }
}

} // verus!
