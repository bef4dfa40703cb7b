//! JSON values as the wire protocol uses them.
//!
//! `serde_json` decides what is JSON and what a value is. Its own map type
//! keeps one value per key, while the protocol refuses an object that names a
//! field twice. So an object is read as the list of its members: the object's
//! text is rewritten into an array of alternating keys and values, which
//! `serde_json` reads.

use crate::text::{characters, decimal, decimal_text, is_digit, lemma_decimal_is_digits};
use serde_json::Value;
use vstd::prelude::*;

verus! {

/// A JSON value, opened one level deep: an array or an object is held as its
/// compact text. A number that is no integer is held as its text.
#[derive(Debug, PartialEq, Eq)]
pub enum Json {
    Null,
    Bool(bool),
    Unsigned(u64),
    Signed(i64),
    Float(String),
    Text(String),
    Array(String),
    Object(String),
}

/// What a [`Json`] value holds.
pub enum JsonView {
    Null,
    Bool(bool),
    Unsigned(u64),
    Signed(i64),
    Float(Seq<char>),
    Text(Seq<char>),
    Array(Seq<char>),
    Object(Seq<char>),
}

impl View for Json {
    type V = JsonView;

    open spec fn view(&self) -> JsonView {
        match self {
            Json::Null => JsonView::Null,
            Json::Bool(b) => JsonView::Bool(*b),
            Json::Unsigned(n) => JsonView::Unsigned(*n),
            Json::Signed(n) => JsonView::Signed(*n),
            Json::Float(t) => JsonView::Float(t@),
            Json::Text(t) => JsonView::Text(t@),
            Json::Array(t) => JsonView::Array(t@),
            Json::Object(t) => JsonView::Object(t@),
        }
    }
}

/// The kinds of JSON document that the protocol tells apart.
#[derive(Clone, Copy, Debug, PartialEq, Eq, Structural)]
pub enum JsonKind {
    Object,
    Array,
    Scalar,
}

/// One member of an object: its key and its value.
pub type Member = (String, Json);

/// What a [`Member`] holds.
pub type MemberView = (Seq<char>, JsonView);

pub open spec fn json_views(values: Seq<Json>) -> Seq<JsonView> {
    values.map_values(|value: Json| value@)
}

pub open spec fn member_view(member: Member) -> MemberView {
    (member.0@, member.1@)
}

pub open spec fn member_views(members: Seq<Member>) -> Seq<MemberView> {
    members.map_values(|member: Member| member_view(member))
}

impl Clone for Json {
    fn clone(&self) -> (value: Json)
        ensures
            value@ == self@,
    {
        match self {
            Json::Null => Json::Null,
            Json::Bool(b) => Json::Bool(*b),
            Json::Unsigned(n) => Json::Unsigned(*n),
            Json::Signed(n) => Json::Signed(*n),
            Json::Float(t) => Json::Float(t.clone()),
            Json::Text(t) => Json::Text(t.clone()),
            Json::Array(t) => Json::Array(t.clone()),
            Json::Object(t) => Json::Object(t.clone()),
        }
    }
}

// --- Writing ---

/// A hexadecimal digit, in small letters.
pub open spec fn hex_digit(n: nat) -> char {
    if n < 10 {
        (n + 48) as char
    } else {
        (n + 87) as char
    }
}

/// A character inside a JSON string.
pub open spec fn escaped(c: char) -> Seq<char> {
    if c == '"' {
        seq!['\\', '"']
    } else if c == '\\' {
        seq!['\\', '\\']
    } else if c as u32 == 8 {
        seq!['\\', 'b']
    } else if c as u32 == 9 {
        seq!['\\', 't']
    } else if c as u32 == 10 {
        seq!['\\', 'n']
    } else if c as u32 == 12 {
        seq!['\\', 'f']
    } else if c as u32 == 13 {
        seq!['\\', 'r']
    } else if (c as u32) < 32 {
        seq![
            '\\',
            'u',
            '0',
            '0',
            hex_digit((c as u32 / 16) as nat),
            hex_digit((c as u32 % 16) as nat),
        ]
    } else {
        seq![c]
    }
}

/// The characters of a text inside a JSON string.
pub open spec fn escaped_text(text: Seq<char>) -> Seq<char>
    decreases text.len(),
{
    if text.len() == 0 {
        seq![]
    } else {
        escaped_text(text.drop_last()) + escaped(text.last())
    }
}

/// A text as a JSON string.
pub open spec fn quoted(text: Seq<char>) -> Seq<char> {
    seq!['"'] + escaped_text(text) + seq!['"']
}

/// The values that a request holds: no nesting, no fractions, no negatives.
pub open spec fn plain(value: JsonView) -> bool {
    value is Null || value is Bool || value is Unsigned || value is Text
}

/// A plain value in compact JSON.
pub open spec fn plain_text(value: JsonView) -> Seq<char> {
    match value {
        JsonView::Bool(true) => seq!['t', 'r', 'u', 'e'],
        JsonView::Bool(false) => seq!['f', 'a', 'l', 's', 'e'],
        JsonView::Unsigned(n) => decimal_text(n as nat),
        JsonView::Text(t) => quoted(t),
        _ => seq!['n', 'u', 'l', 'l'],
    }
}

pub open spec fn plain_items(items: Seq<JsonView>) -> bool {
    forall|i: int| 0 <= i < items.len() ==> plain(#[trigger] items[i])
}

pub open spec fn plain_members(members: Seq<MemberView>) -> bool {
    forall|i: int| 0 <= i < members.len() ==> plain((#[trigger] members[i]).1)
}

/// Plain values, separated by commas.
pub open spec fn items_text(items: Seq<JsonView>) -> Seq<char>
    decreases items.len(),
{
    if items.len() == 0 {
        seq![]
    } else if items.len() == 1 {
        plain_text(items[0])
    } else {
        items_text(items.drop_last()) + seq![','] + plain_text(items.last())
    }
}

/// An array of plain values in compact JSON.
pub open spec fn array_text(items: Seq<JsonView>) -> Seq<char> {
    seq!['['] + items_text(items) + seq![']']
}

/// A member with a plain value in compact JSON.
pub open spec fn member_text(member: MemberView) -> Seq<char> {
    quoted(member.0) + seq![':'] + plain_text(member.1)
}

/// Members with plain values, separated by commas.
pub open spec fn members_text(members: Seq<MemberView>) -> Seq<char>
    decreases members.len(),
{
    if members.len() == 0 {
        seq![]
    } else if members.len() == 1 {
        member_text(members[0])
    } else {
        members_text(members.drop_last()) + seq![','] + member_text(members.last())
    }
}

/// An object of members with plain values in compact JSON.
pub open spec fn object_text(members: Seq<MemberView>) -> Seq<char> {
    seq!['{'] + members_text(members) + seq!['}']
}

/// `serde_json::to_string` on a `str`: a JSON string with the two-character
/// escapes that JSON has, `\u00..` for the other control characters, and every
/// other character as it stands. Writing a `str` into memory does not fail.
#[verifier::external_body]
fn quote(text: &str) -> (json: String)
    ensures
        json@ == quoted(text@),
{
    serde_json::to_string(text).unwrap()
}

/// A plain value in compact JSON.
fn write_plain(value: &Json) -> (text: String)
    requires
        plain(value@),
    ensures
        text@ == plain_text(value@),
{
    proof {
        reveal_strlit("true");
        reveal_strlit("false");
        reveal_strlit("null");
    }
    match value {
        Json::Bool(true) => {
            let text = "true".to_string();
            assert(text@ =~= seq!['t', 'r', 'u', 'e']);
            text
        },
        Json::Bool(false) => {
            let text = "false".to_string();
            assert(text@ =~= seq!['f', 'a', 'l', 's', 'e']);
            text
        },
        Json::Unsigned(n) => decimal(*n),
        Json::Text(t) => quote(t.as_str()),
        _ => {
            let text = "null".to_string();
            assert(text@ =~= seq!['n', 'u', 'l', 'l']);
            text
        },
    }
}

/// A whole number in decimal.
pub open spec fn signed_text(n: int) -> Seq<char> {
    if n < 0 {
        seq!['-'] + decimal_text((-n) as nat)
    } else {
        decimal_text(n as nat)
    }
}

/// A value in compact JSON.
pub open spec fn compact_text(value: JsonView) -> Seq<char> {
    match value {
        JsonView::Signed(n) => signed_text(n as int),
        JsonView::Float(t) => t,
        JsonView::Array(t) => t,
        JsonView::Object(t) => t,
        _ => plain_text(value),
    }
}

/// A whole number in decimal.
pub fn write_signed(n: i64) -> (text: String)
    ensures
        text@ == signed_text(n as int),
{
    if n < 0 {
        proof {
            reveal_strlit("-");
            assert("-"@ =~= seq!['-']);
        }
        let mut text = "-".to_string();
        text.append(decimal(((-(n + 1)) as u64) + 1).as_str());
        text
    } else {
        decimal(n as u64)
    }
}

impl Json {
    /// The value in compact JSON.
    pub fn to_text(&self) -> (text: String)
        ensures
            text@ == compact_text(self@),
    {
        match self {
            Json::Signed(n) => write_signed(*n),
            Json::Float(t) | Json::Array(t) | Json::Object(t) => t.clone(),
            _ => write_plain(self),
        }
    }
}

/// An object of members with plain values in compact JSON, in their order.
pub fn write_object(members: &Vec<Member>) -> (text: String)
    requires
        plain_members(member_views(members@)),
    ensures
        text@ == object_text(member_views(members@)),
{
    let ghost views = member_views(members@);
    proof {
        reveal_strlit("{");
        reveal_strlit("}");
        reveal_strlit(",");
        reveal_strlit(":");
    }
    let mut text = "{".to_string();
    let mut i: usize = 0;
    assert(text@ =~= seq!['{'] + members_text(views.take(0)));
    while i < members.len()
        invariant
            i <= members.len(),
            views == member_views(members@),
            plain_members(views),
            text@ == seq!['{'] + members_text(views.take(i as int)),
            ","@ == seq![','],
            ":"@ == seq![':'],
        decreases members.len() - i,
    {
        assert(views[i as int] == member_view(members@[i as int]));
        if i > 0 {
            text.append(",");
        }
        let key = quote(members[i].0.as_str());
        let value = write_plain(&members[i].1);
        text.append(key.as_str());
        text.append(":");
        text.append(value.as_str());
        proof {
            let done = views.take(i + 1);
            assert(done.drop_last() =~= views.take(i as int));
            assert(done.last() == views[i as int]);
            if i == 0 {
                assert(text@ =~= seq!['{'] + member_text(views[0]));
            } else {
                assert(text@ =~= seq!['{'] + (members_text(views.take(i as int)) + seq![',']
                    + member_text(views[i as int])));
            }
        }
        i += 1;
    }
    text.append("}");
    assert(views.take(views.len() as int) =~= views);
    assert(text@ =~= object_text(views));
    text
}

// --- Reading ---

/// Where a reader of JSON text stands: how deep in arrays and objects, whether
/// in a string, and whether right behind a string's backslash.
pub struct Scan {
    pub depth: i128,
    pub in_string: bool,
    pub after_backslash: bool,
}

/// Where reading starts.
pub open spec fn scan_start() -> Scan {
    Scan { depth: 0, in_string: false, after_backslash: false }
}

/// Where the reader stands behind the next character.
pub open spec fn scan_step(scan: Scan, c: char) -> Scan {
    if scan.in_string {
        if scan.after_backslash {
            Scan { after_backslash: false, ..scan }
        } else if c == '\\' {
            Scan { after_backslash: true, ..scan }
        } else if c == '"' {
            Scan { in_string: false, ..scan }
        } else {
            scan
        }
    } else if c == '"' {
        Scan { in_string: true, ..scan }
    } else if c == '{' || c == '[' {
        Scan { depth: (scan.depth + 1) as i128, ..scan }
    } else if c == '}' || c == ']' {
        Scan { depth: (scan.depth - 1) as i128, ..scan }
    } else {
        scan
    }
}

/// What becomes of the next character: the outer object's braces turn into
/// brackets, and the colons behind its keys into commas.
pub open spec fn flat_char(scan: Scan, c: char) -> char {
    if scan.in_string {
        c
    } else if scan.depth == 0 && c == '{' {
        '['
    } else if scan.depth == 1 && c == '}' {
        ']'
    } else if scan.depth == 1 && c == ':' {
        ','
    } else {
        c
    }
}

/// Where the reader stands behind a text.
pub open spec fn scan_text(scan: Scan, text: Seq<char>) -> Scan
    decreases text.len(),
{
    if text.len() == 0 {
        scan
    } else {
        scan_step(scan_text(scan, text.drop_last()), text.last())
    }
}

/// What becomes of a text.
pub open spec fn flat_text(scan: Scan, text: Seq<char>) -> Seq<char>
    decreases text.len(),
{
    if text.len() == 0 {
        seq![]
    } else {
        flat_text(scan, text.drop_last()).push(
            flat_char(scan_text(scan, text.drop_last()), text.last()),
        )
    }
}

/// An object's text, rewritten into an array of alternating keys and values.
pub open spec fn flattened(text: Seq<char>) -> Seq<char> {
    flat_text(scan_start(), text)
}

/// `String::push` appends one character.
pub assume_specification[ String::push ](text: &mut String, c: char)
    ensures
        final(text)@ == old(text)@.push(c),
;

impl Scan {
    fn start() -> (scan: Scan)
        ensures
            scan == scan_start(),
    {
        Scan { depth: 0, in_string: false, after_backslash: false }
    }

    fn step(&self, c: char) -> (next: Scan)
        requires
            i128::MIN < self.depth < i128::MAX,
        ensures
            next == scan_step(*self, c),
    {
        if self.in_string {
            if self.after_backslash {
                Scan { depth: self.depth, in_string: true, after_backslash: false }
            } else if c == '\\' {
                Scan { depth: self.depth, in_string: true, after_backslash: true }
            } else if c == '"' {
                Scan { depth: self.depth, in_string: false, after_backslash: false }
            } else {
                Scan { depth: self.depth, in_string: true, after_backslash: false }
            }
        } else if c == '"' {
            Scan { depth: self.depth, in_string: true, after_backslash: self.after_backslash }
        } else if c == '{' || c == '[' {
            Scan { depth: self.depth + 1, in_string: false, after_backslash: self.after_backslash }
        } else if c == '}' || c == ']' {
            Scan { depth: self.depth - 1, in_string: false, after_backslash: self.after_backslash }
        } else {
            Scan { depth: self.depth, in_string: false, after_backslash: self.after_backslash }
        }
    }

    fn flat(&self, c: char) -> (flat: char)
        ensures
            flat == flat_char(*self, c),
    {
        if self.in_string {
            c
        } else if self.depth == 0 && c == '{' {
            '['
        } else if self.depth == 1 && c == '}' {
            ']'
        } else if self.depth == 1 && c == ':' {
            ','
        } else {
            c
        }
    }
}

/// Rewrites an object's text into an array of alternating keys and values.
fn flatten(text: &str) -> (flat: String)
    ensures
        flat@ == flattened(text@),
{
    let chars = characters(text);
    let mut scan = Scan::start();
    let mut flat = String::new();
    let mut i: usize = 0;
    while i < chars.len()
        invariant
            i <= chars.len(),
            chars@ == text@,
            scan == scan_text(scan_start(), text@.take(i as int)),
            flat@ == flat_text(scan_start(), text@.take(i as int)),
            -i <= scan.depth <= i,
        decreases chars.len() - i,
    {
        let c = chars[i];
        proof {
            let done = text@.take(i + 1);
            assert(done.drop_last() =~= text@.take(i as int));
            assert(done.last() == c);
        }
        flat.push(scan.flat(c));
        scan = scan.step(c);
        i += 1;
    }
    assert(text@.take(text@.len() as int) =~= text@);
    flat
}

/// What kind of JSON document a text is, as `serde_json` reads it. `None` for
/// a text that is no JSON.
pub uninterp spec fn json_kind(text: Seq<char>) -> Option<JsonKind>;

/// The values of a JSON array, as `serde_json` reads it. `None` for a text
/// that is no JSON array.
pub uninterp spec fn json_items(text: Seq<char>) -> Option<Seq<JsonView>>;

/// `serde_json::from_str`, into a `serde_json::Map` for an object, into a `Vec`
/// for an array, and into a `serde_json::Value` for any other value. A `Value`
/// alone would not do: it takes an object whose first key is `serde_json`'s own
/// mark of raw JSON for what that JSON says. An object of plain values in
/// compact form is read as an object.
#[verifier::external_body]
pub(crate) fn read_kind(text: &str) -> (kind: Option<JsonKind>)
    ensures
        kind == json_kind(text@),
        forall|members: Seq<MemberView>| #[trigger]
            object_text(members) == text@ && plain_members(members) ==> kind == Some(
                JsonKind::Object,
            ),
{
    let object: Result<serde_json::Map<String, Value>, _> = serde_json::from_str(text);
    let array: Result<Vec<Value>, _> = serde_json::from_str(text);
    let value: Result<Value, _> = serde_json::from_str(text);
    let object = object.map(|_| JsonKind::Object);
    let array = array.map(|_| JsonKind::Array);
    let scalar = value.map(|_| JsonKind::Scalar);
    object.or(array).or(scalar).ok()
}

/// A JSON text as the `{:?}` of its value shows it. `None` for a text that is
/// no JSON.
pub uninterp spec fn json_shown(text: Seq<char>) -> Option<Seq<char>>;

/// What a shown value says.
pub open spec fn shown_view(shown: Option<String>) -> Option<Seq<char>> {
    match shown {
        Some(text) => Some(text@),
        None => None,
    }
}

/// `serde_json::from_str` into a `serde_json::Value`, shown with `{:?}`.
#[verifier::external_body]
pub(crate) fn show_json(text: &str) -> (shown: Option<String>)
    ensures
        shown_view(shown) == json_shown(text@),
{
    let value: Value = serde_json::from_str(text).ok()?;
    Some(format!("{value:?}"))
}

/// What read values hold.
pub open spec fn items_view(items: Option<Vec<Json>>) -> Option<Seq<JsonView>> {
    match items {
        Some(values) => Some(json_views(values@)),
        None => None,
    }
}

/// What read members hold.
pub open spec fn members_view(members: Option<Vec<Member>>) -> Option<Seq<MemberView>> {
    match members {
        Some(list) => Some(member_views(list@)),
        None => None,
    }
}

/// `serde_json::from_str` into a `Vec<serde_json::Value>`, each value taken
/// over as a [`Json`]. An array of plain values in compact form is read back
/// as those values.
#[verifier::external_body]
pub(crate) fn read_items(text: &str) -> (items: Option<Vec<Json>>)
    ensures
        items_view(items) == json_items(text@),
        forall|values: Seq<JsonView>| #[trigger]
            array_text(values) == text@ && plain_items(values) ==> items_view(items) == Some(values),
{
    let values: Vec<Value> = serde_json::from_str(text).ok()?;
    let convert = |value: Value| match value {
        Value::Null => Json::Null,
        Value::Bool(b) => Json::Bool(b),
        Value::String(t) => Json::Text(t),
        Value::Array(_) => Json::Array(value.to_string()),
        Value::Object(_) => Json::Object(value.to_string()),
        Value::Number(n) => match (n.as_u64(), n.as_i64()) {
            (Some(n), _) => Json::Unsigned(n),
            (_, Some(n)) => Json::Signed(n),
            _ => Json::Float(n.to_string()),
        },
    };
    Some(values.into_iter().map(convert).collect())
}

/// Alternating keys and values as members. `None` where a key is no string or
/// the last key has no value.
pub open spec fn paired(items: Seq<JsonView>) -> Option<Seq<MemberView>> {
    if items.len() % 2 == 0 && forall|i: int|
        0 <= i < items.len() / 2 ==> (#[trigger] items[2 * i]) is Text {
        Some(
            Seq::new(
                (items.len() / 2) as nat,
                |i: int| (items[2 * i]->Text_0, items[2 * i + 1]),
            ),
        )
    } else {
        None
    }
}

/// The members of an object's text, in order and with repetitions. `None` for
/// a text that is no JSON object.
pub open spec fn object_members(text: Seq<char>) -> Option<Seq<MemberView>> {
    if json_kind(text) == Some(JsonKind::Object) {
        match json_items(flattened(text)) {
            Some(items) => paired(items),
            None => None,
        }
    } else {
        None
    }
}

/// The members of alternating keys and values.
pub fn pair(items: &Vec<Json>) -> (members: Option<Vec<Member>>)
    ensures
        members_view(members) == paired(json_views(items@)),
{
    let ghost views = json_views(items@);
    if items.len() % 2 != 0 {
        return None;
    }
    let mut members: Vec<Member> = Vec::new();
    let mut i: usize = 0;
    while i < items.len()
        invariant
            i <= items.len(),
            i % 2 == 0,
            items.len() % 2 == 0,
            views == json_views(items@),
            members@.len() == i / 2,
            forall|k: int| 0 <= k < i / 2 ==> (#[trigger] views[2 * k]) is Text,
            forall|k: int|
                0 <= k < i / 2 ==> member_view(#[trigger] members@[k]) == (
                    views[2 * k]->Text_0,
                    views[2 * k + 1],
                ),
        decreases items.len() - i,
    {
        assert(views[i as int] == items@[i as int]@);
        assert(views[i + 1] == items@[i + 1]@);
        match &items[i] {
            Json::Text(key) => {
                let value = items[i + 1].clone();
                members.push((key.clone(), value));
                proof {
                    assert(2 * (i / 2) == i);
                }
            },
            _ => {
                assert(2 * (i / 2) == i);
                assert(!(views[2 * (i / 2) as int] is Text));
                return None;
            },
        }
        i += 2;
    }
    proof {
        let expected = Seq::new(
            (views.len() / 2) as nat,
            |k: int| (views[2 * k]->Text_0, views[2 * k + 1]),
        );
        assert(member_views(members@) =~= expected);
    }
    Some(members)
}

// --- What is read of what was written ---

/// An object's keys and values, alternating.
pub open spec fn alternating(members: Seq<MemberView>) -> Seq<JsonView> {
    Seq::new(
        2 * members.len(),
        |i: int|
            if i % 2 == 0 {
                JsonView::Text(members[i / 2].0)
            } else {
                members[i / 2].1
            },
    )
}

proof fn lemma_paired_alternating(members: Seq<MemberView>)
    ensures
        paired(alternating(members)) == Some(members),
{
    let items = alternating(members);
    assert(items.len() % 2 == 0);
    assert forall|i: int| 0 <= i < items.len() / 2 implies (#[trigger] items[2 * i]) is Text by {
        assert((2 * i) % 2 == 0);
    }
    let read = Seq::new(
        (items.len() / 2) as nat,
        |i: int| (items[2 * i]->Text_0, items[2 * i + 1]),
    );
    assert forall|i: int| 0 <= i < members.len() implies #[trigger] read[i] == members[i] by {
        assert((2 * i) % 2 == 0 && (2 * i) / 2 == i);
        assert((2 * i + 1) % 2 == 1 && (2 * i + 1) / 2 == i);
    }
    assert(read =~= members);
}

/// Reading two texts one behind the other is reading the one and then the
/// other.
proof fn lemma_scan_concat(scan: Scan, a: Seq<char>, b: Seq<char>)
    ensures
        scan_text(scan, a + b) == scan_text(scan_text(scan, a), b),
        flat_text(scan, a + b) == flat_text(scan, a) + flat_text(scan_text(scan, a), b),
    decreases b.len(),
{
    if b.len() == 0 {
        assert(a + b =~= a);
        assert(flat_text(scan, a) + Seq::<char>::empty() =~= flat_text(scan, a));
    } else {
        lemma_scan_concat(scan, a, b.drop_last());
        assert((a + b).drop_last() =~= a + b.drop_last());
        assert((a + b).last() == b.last());
        assert(flat_text(scan, a + b) =~= flat_text(scan, a) + flat_text(
            scan_text(scan, a),
            b,
        ));
    }
}

/// A character that a reader outside of strings passes over.
spec fn neutral(c: char) -> bool {
    c != '"' && c != '{' && c != '[' && c != '}' && c != ']' && c != ':'
}

proof fn lemma_neutral(scan: Scan, text: Seq<char>)
    requires
        !scan.in_string,
        forall|i: int| 0 <= i < text.len() ==> neutral(#[trigger] text[i]),
    ensures
        scan_text(scan, text) == scan,
        flat_text(scan, text) == text,
    decreases text.len(),
{
    if text.len() > 0 {
        lemma_neutral(scan, text.drop_last());
        assert(neutral(text[text.len() - 1]));
        assert(text.drop_last().push(text.last()) =~= text);
    } else {
        assert(flat_text(scan, text) =~= text);
    }
}

/// Behind the outer object's opening brace.
spec fn in_object() -> Scan {
    Scan { depth: 1, in_string: false, after_backslash: false }
}

/// In a string of the outer object.
spec fn in_member_string() -> Scan {
    Scan { depth: 1, in_string: true, after_backslash: false }
}

/// One character of a string.
proof fn lemma_scan_one(scan: Scan, c: char)
    ensures
        scan_text(scan, seq![c]) == scan_step(scan, c),
        flat_text(scan, seq![c]) == seq![flat_char(scan, c)],
{
    let text = seq![c];
    assert(text.drop_last() =~= Seq::<char>::empty());
    assert(scan_text(scan, text.drop_last()) == scan);
    assert(flat_text(scan, text.drop_last()) =~= Seq::<char>::empty());
    assert(flat_text(scan, text) =~= seq![flat_char(scan, c)]);
}

/// A text that a reader in a string passes over, character by character.
proof fn lemma_string_run(text: Seq<char>)
    requires
        forall|i: int| 0 <= i < text.len() ==> #[trigger] text[i] != '"' && text[i] != '\\',
    ensures
        scan_text(in_member_string(), text) == in_member_string(),
        flat_text(in_member_string(), text) == text,
    decreases text.len(),
{
    if text.len() > 0 {
        lemma_string_run(text.drop_last());
        assert(text[text.len() - 1] != '"');
        assert(text.drop_last().push(text.last()) =~= text);
    } else {
        assert(flat_text(in_member_string(), text) =~= text);
    }
}

proof fn lemma_escaped(c: char)
    ensures
        scan_text(in_member_string(), escaped(c)) == in_member_string(),
        flat_text(in_member_string(), escaped(c)) == escaped(c),
{
    let e = escaped(c);
    if e.len() == 1 {
        lemma_string_run(e);
    } else {
        let head = e.take(2);
        let first = seq![e[0]];
        let second = seq![e[1]];
        assert(head =~= first + second);
        lemma_scan_one(in_member_string(), e[0]);
        let behind = scan_text(in_member_string(), first);
        lemma_scan_one(behind, e[1]);
        lemma_scan_concat(in_member_string(), first, second);
        assert(scan_text(in_member_string(), head) == in_member_string());
        assert(flat_text(in_member_string(), head) =~= head);
        let tail = e.skip(2);
        lemma_string_run(tail);
        lemma_scan_concat(in_member_string(), head, tail);
        assert(e =~= head + tail);
    }
}

proof fn lemma_escaped_text(text: Seq<char>)
    ensures
        scan_text(in_member_string(), escaped_text(text)) == in_member_string(),
        flat_text(in_member_string(), escaped_text(text)) == escaped_text(text),
    decreases text.len(),
{
    if text.len() > 0 {
        lemma_escaped_text(text.drop_last());
        lemma_escaped(text.last());
        lemma_scan_concat(
            in_member_string(),
            escaped_text(text.drop_last()),
            escaped(text.last()),
        );
    } else {
        assert(flat_text(in_member_string(), escaped_text(text)) =~= escaped_text(text));
    }
}

proof fn lemma_quoted(text: Seq<char>)
    ensures
        scan_text(in_object(), quoted(text)) == in_object(),
        flat_text(in_object(), quoted(text)) == quoted(text),
{
    let open = seq!['"'];
    let body = escaped_text(text);
    lemma_scan_one(in_object(), '"');
    lemma_escaped_text(text);
    lemma_scan_one(in_member_string(), '"');
    lemma_scan_concat(in_object(), open, body);
    lemma_scan_concat(in_object(), open + body, open);
}

proof fn lemma_plain_text(value: JsonView)
    requires
        plain(value),
    ensures
        scan_text(in_object(), plain_text(value)) == in_object(),
        flat_text(in_object(), plain_text(value)) == plain_text(value),
{
    match value {
        JsonView::Text(t) => {
            lemma_quoted(t);
        },
        JsonView::Unsigned(n) => {
            lemma_decimal_is_digits(n as nat);
            assert forall|i: int| 0 <= i < plain_text(value).len() implies neutral(
                #[trigger] plain_text(value)[i],
            ) by {
                assert(is_digit(decimal_text(n as nat)[i]));
            }
            lemma_neutral(in_object(), plain_text(value));
        },
        _ => {
            lemma_neutral(in_object(), plain_text(value));
        },
    }
}

proof fn lemma_member_text(member: MemberView)
    requires
        plain(member.1),
    ensures
        scan_text(in_object(), member_text(member)) == in_object(),
        flat_text(in_object(), member_text(member)) == quoted(member.0) + seq![',']
            + plain_text(member.1),
{
    lemma_quoted(member.0);
    lemma_scan_one(in_object(), ':');
    lemma_plain_text(member.1);
    lemma_scan_concat(in_object(), quoted(member.0), seq![':']);
    lemma_scan_concat(in_object(), quoted(member.0) + seq![':'], plain_text(member.1));
}

proof fn lemma_members_text(members: Seq<MemberView>)
    requires
        plain_members(members),
    ensures
        scan_text(in_object(), members_text(members)) == in_object(),
        flat_text(in_object(), members_text(members)) == items_text(alternating(members)),
    decreases members.len(),
{
    let items = alternating(members);
    if members.len() == 0 {
        assert(flat_text(in_object(), members_text(members)) =~= items_text(items));
    } else {
        let last = members.last();
        assert(last == members[members.len() - 1]);
        lemma_member_text(last);
        assert(items.len() >= 2);
        let n = members.len() as int;
        assert((2 * n - 1) % 2 == 1 && (2 * n - 1) / 2 == n - 1);
        assert((2 * n - 2) % 2 == 0 && (2 * n - 2) / 2 == n - 1);
        assert(items.last() == last.1);
        assert(items.drop_last().last() == JsonView::Text(last.0));
        let before = items.drop_last().drop_last();
        assert(before =~= alternating(members.drop_last()));
        if members.len() == 1 {
            assert(items.drop_last().len() == 1);
            assert(items_text(items.drop_last()) == quoted(last.0));
            assert(items_text(items) == quoted(last.0) + seq![','] + plain_text(last.1));
        } else {
            let rest = members.drop_last();
            lemma_members_text(rest);
            lemma_scan_one(in_object(), ',');
            lemma_scan_concat(in_object(), members_text(rest), seq![',']);
            lemma_scan_concat(
                in_object(),
                members_text(rest) + seq![','],
                member_text(last),
            );
            assert(items_text(items.drop_last()) == items_text(before) + seq![','] + quoted(
                last.0,
            ));
            assert(items_text(items) == items_text(before) + seq![','] + quoted(last.0) + seq![',']
                + plain_text(last.1));
            assert(flat_text(in_object(), members_text(members)) =~= items_text(items));
        }
    }
}

/// An object's compact text, flattened, is the compact text of the array of
/// its keys and values.
proof fn lemma_flattened_object(members: Seq<MemberView>)
    requires
        plain_members(members),
    ensures
        flattened(object_text(members)) == array_text(alternating(members)),
{
    lemma_scan_one(scan_start(), '{');
    lemma_members_text(members);
    lemma_scan_one(in_object(), '}');
    lemma_scan_concat(scan_start(), seq!['{'], members_text(members));
    lemma_scan_concat(scan_start(), seq!['{'] + members_text(members), seq!['}']);
    assert(flattened(object_text(members)) =~= array_text(alternating(members)));
}

proof fn lemma_alternating_plain(members: Seq<MemberView>)
    requires
        plain_members(members),
    ensures
        plain_items(alternating(members)),
{
    let items = alternating(members);
    assert forall|i: int| 0 <= i < items.len() implies plain(#[trigger] items[i]) by {
        assert(plain(members[i / 2].1));
    }
}

/// Reads the members of an object's text.
pub fn read_object(text: &str) -> (members: Option<Vec<Member>>)
    ensures
        members_view(members) == object_members(text@),
        forall|written: Seq<MemberView>| #[trigger]
            object_text(written) == text@ && plain_members(written) ==> members_view(members)
                == Some(written),
{
    proof {
        assert forall|written: Seq<MemberView>| #[trigger]
            object_text(written) == text@ && plain_members(written) implies flattened(text@)
            == array_text(alternating(written)) && plain_items(alternating(written)) && paired(
            alternating(written),
        ) == Some(written) by {
            lemma_flattened_object(written);
            lemma_alternating_plain(written);
            lemma_paired_alternating(written);
        }
    }
    match read_kind(text) {
        Some(JsonKind::Object) => {
            let flat = flatten(text);
            match read_items(flat.as_str()) {
                Some(items) => pair(&items),
                None => None,
            }
        },
        _ => None,
    }
}

// --- What is written and read ---

/// The number that a hexadecimal digit spells.
pub open spec fn hex_value(c: char) -> int {
    if '0' <= c <= '9' {
        c as u32 - 48
    } else {
        c as u32 - 87
    }
}

/// In a string each character stands as it is, but for the quote and the
/// backslash, which get a backslash before them, and the control characters: those
/// with a letter of their own stand as that letter behind a backslash, and the
/// others as their number in four hexadecimal digits.
pub proof fn lemma_escapes(c: char)
    ensures
        c == '"' || c == '\\' ==> escaped(c) == seq!['\\', c],
        c == '\u{8}' ==> escaped(c) == seq!['\\', 'b'],
        c == '\t' ==> escaped(c) == seq!['\\', 't'],
        c == '\n' ==> escaped(c) == seq!['\\', 'n'],
        c == '\u{c}' ==> escaped(c) == seq!['\\', 'f'],
        c == '\r' ==> escaped(c) == seq!['\\', 'r'],
        c < ' ' && c != '\u{8}' && c != '\t' && c != '\n' && c != '\u{c}' && c != '\r' ==> {
            let text = escaped(c);
            &&& text.len() == 6
            &&& text[0] == '\\' && text[1] == 'u' && text[2] == '0' && text[3] == '0'
            &&& '0' <= text[4] <= '9' || 'a' <= text[4] <= 'f'
            &&& '0' <= text[5] <= '9' || 'a' <= text[5] <= 'f'
            &&& 16 * hex_value(text[4]) + hex_value(text[5]) == c as u32
        },
        c >= ' ' && c != '"' && c != '\\' ==> escaped(c) == seq![c],
{
}

/// A string is written between quotes, character by character.
pub proof fn lemma_quoted_text(a: Seq<char>, b: Seq<char>, c: char)
    ensures
        quoted(a) == seq!['"'] + escaped_text(a) + seq!['"'],
        escaped_text(Seq::<char>::empty()).len() == 0,
        escaped_text(seq![c]) == escaped(c),
        escaped_text(a + b) == escaped_text(a) + escaped_text(b),
    decreases b.len(),
{
    assert(seq![c].drop_last() =~= seq![]);
    reveal_with_fuel(escaped_text, 2);
    assert(escaped_text(seq![c]) =~= escaped(c));
    if b.len() == 0 {
        assert(a + b =~= a);
        assert(escaped_text(a) + escaped_text(b) =~= escaped_text(a));
    } else {
        lemma_quoted_text(a, b.drop_last(), c);
        assert((a + b).drop_last() =~= a + b.drop_last());
        assert((a + b).last() == b.last());
        assert(escaped_text(a + b) =~= escaped_text(a) + escaped_text(b));
    }
}

/// An object is written between braces, its members one behind the other with a
/// comma between and in their order: the name as a string, a colon, and the value
/// without a blank.
pub proof fn lemma_object_text(members: Seq<MemberView>, name: Seq<char>, value: JsonView)
    ensures
        object_text(Seq::<MemberView>::empty()) == seq!['{', '}'],
        object_text(seq![(name, value)]) == seq!['{'] + quoted(name) + seq![':'] + plain_text(
            value,
        ) + seq!['}'],
        members.len() > 0 ==> object_text(members.push((name, value))) == object_text(
            members,
        ).drop_last() + seq![','] + quoted(name) + seq![':'] + plain_text(value) + seq!['}'],
{
    let member = (name, value);
    assert(object_text(Seq::<MemberView>::empty()) =~= seq!['{', '}']);
    assert(object_text(seq![member]) =~= seq!['{'] + quoted(name) + seq![':'] + plain_text(value)
        + seq!['}']);
    assert(members.push(member).drop_last() =~= members);
    if members.len() > 0 {
        assert(object_text(members).drop_last() =~= seq!['{'] + members_text(members));
        assert(object_text(members.push(member)) =~= object_text(members).drop_last() + seq![',']
            + quoted(name) + seq![':'] + plain_text(value) + seq!['}']);
    }
}

/// How values are written: the constants by their names, numbers in decimal with a
/// minus before those below zero, strings in quotes, and everything else as it
/// came.
pub proof fn lemma_value_text(value: JsonView)
    ensures
        match value {
            JsonView::Null => compact_text(value) == "null"@ && plain_text(value) == "null"@,
            JsonView::Bool(true) => compact_text(value) == "true"@ && plain_text(value)
                == "true"@,
            JsonView::Bool(false) => compact_text(value) == "false"@ && plain_text(value)
                == "false"@,
            JsonView::Unsigned(n) => compact_text(value) == decimal_text(n as nat) && plain_text(
                value,
            ) == decimal_text(n as nat),
            JsonView::Signed(n) => {
                &&& n < 0 ==> compact_text(value) == seq!['-'] + decimal_text((-n) as nat)
                &&& n >= 0 ==> compact_text(value) == decimal_text(n as nat)
            },
            JsonView::Text(text) => compact_text(value) == quoted(text) && plain_text(value)
                == quoted(text),
            JsonView::Float(text) => compact_text(value) == text,
            JsonView::Array(text) => compact_text(value) == text,
            JsonView::Object(text) => compact_text(value) == text,
        },
{
    reveal_strlit("null");
    reveal_strlit("true");
    reveal_strlit("false");
    assert("null"@ =~= seq!['n', 'u', 'l', 'l']);
    assert("true"@ =~= seq!['t', 'r', 'u', 'e']);
    assert("false"@ =~= seq!['f', 'a', 'l', 's', 'e']);
}

/// Values pair up to members exactly where they are a name and a value in turn:
/// each member's name is the string before its value.
pub proof fn lemma_pairs(items: Seq<JsonView>, members: Seq<MemberView>)
    ensures
        paired(items) == Some(members) <==> items.len() == 2 * members.len() && forall|i: int|
            0 <= i < members.len() ==> {
                &&& #[trigger] items[2 * i] == JsonView::Text(members[i].0)
                &&& items[2 * i + 1] == members[i].1
            },
{
    if paired(items) == Some(members) {
        assert forall|i: int| 0 <= i < members.len() implies {
            &&& #[trigger] items[2 * i] == JsonView::Text(members[i].0)
            &&& items[2 * i + 1] == members[i].1
        } by {
            assert(items[2 * i] is Text);
        }
    }
    if items.len() == 2 * members.len() && forall|i: int|
        0 <= i < members.len() ==> {
            &&& #[trigger] items[2 * i] == JsonView::Text(members[i].0)
            &&& items[2 * i + 1] == members[i].1
        } {
        assert(items.len() / 2 == members.len());
        assert forall|i: int| 0 <= i < items.len() / 2 implies (#[trigger] items[2 * i]) is Text by {
            assert(items[2 * i] == JsonView::Text(members[i].0));
        }
        let made = Seq::new(
            (items.len() / 2) as nat,
            |i: int| (items[2 * i]->Text_0, items[2 * i + 1]),
        );
        assert forall|i: int| 0 <= i < members.len() implies made[i] == members[i] by {
            assert(items[2 * i] == JsonView::Text(members[i].0));
        }
        assert(made =~= members);
    }
}

/// How a text is read character by character. A quote outside a string opens one,
/// and inside it closes it, unless a backslash that none stands before comes right
/// before it. Outside strings the brackets of both kinds count the depth.
pub proof fn lemma_scan(scan: Scan, c: char)
    requires
        i128::MIN < scan.depth < i128::MAX,
    ensures
        scan_start().depth == 0,
        !scan_start().in_string && !scan_start().after_backslash,
        ({
            let next = scan_step(scan, c);
            let escaped = scan.in_string && scan.after_backslash;
            let opens = !scan.in_string && (c == '{' || c == '[');
            let closes = !scan.in_string && (c == '}' || c == ']');
            &&& next.in_string <==> if c == '"' && !escaped {
                !scan.in_string
            } else {
                scan.in_string
            }
            &&& scan.in_string ==> (next.after_backslash <==> c == '\\' && !scan.after_backslash)
            &&& !scan.in_string ==> next.after_backslash == scan.after_backslash
            &&& next.depth == scan.depth + if opens {
                1int
            } else if closes {
                -1
            } else {
                0
            }
        }),
{
}

/// The flattened text of an object has the same length, and differs from the
/// object's only where the outermost braces and the colons between its own names
/// and values stand: these become brackets and commas. What stands in strings and
/// in nested values is untouched.
pub proof fn lemma_flattening(text: Seq<char>, i: int)
    requires
        0 <= i < text.len(),
    ensures
        flattened(text).len() == text.len(),
        ({
            let at = scan_text(scan_start(), text.take(i));
            flattened(text)[i] == if at.in_string {
                text[i]
            } else if at.depth == 0 && text[i] == '{' {
                '['
            } else if at.depth == 1 && text[i] == '}' {
                ']'
            } else if at.depth == 1 && text[i] == ':' {
                ','
            } else {
                text[i]
            }
        }),
        scan_text(scan_start(), text.take(i + 1)) == scan_step(
            scan_text(scan_start(), text.take(i)),
            text[i],
        ),
        scan_text(scan_start(), text.take(0)) == scan_start(),
    decreases text.len(),
{
    lemma_flat_len(scan_start(), text);
    assert(text.take(i + 1).drop_last() =~= text.take(i));
    assert(text.take(0) =~= seq![]);
    let before = text.drop_last();
    if i < before.len() {
        lemma_flattening(before, i);
        assert(before.take(i) =~= text.take(i));
        lemma_flat_len(scan_start(), before);
    } else {
        assert(text.take(i) =~= before);
        lemma_flat_len(scan_start(), before);
    }
}

proof fn lemma_flat_len(scan: Scan, text: Seq<char>)
    ensures
        flat_text(scan, text).len() == text.len(),
    decreases text.len(),
{
    if text.len() > 0 {
        lemma_flat_len(scan, text.drop_last());
    }
}

/// The members of a text are there only where the text is an object: then they are
/// the pairs of its flattened text's values.
pub proof fn lemma_members_of_text(text: Seq<char>)
    ensures
        json_kind(text) != Some(JsonKind::Object) ==> object_members(text) is None,
        json_kind(text) == Some(JsonKind::Object) ==> match json_items(flattened(text)) {
            Some(items) => object_members(text) == paired(items),
            None => object_members(text) is None,
        },
{
}

} // verus!
