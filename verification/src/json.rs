//! JSON: the members of a record, and the text of an object.

use vstd::prelude::*;
use vstd::string::StringExecFns;

verus! {

/// What a member of a JSON object is, as far as it is read.
#[derive(Debug)]
pub enum JsonKind {
    Null,
    Text(String),
    Int(i64),
    /// A boolean, an array, an object, or a number that is no 64-bit signed integer.
    Other,
}

/// A member of a JSON object: what it is, and its text.
#[derive(Debug)]
pub struct JsonValue {
    pub kind: JsonKind,
    pub raw: String,
}

/// What a `JsonKind` holds.
pub enum KindView {
    Null,
    Text(Seq<char>),
    Int(i64),
    Other,
}

/// What a `JsonValue` holds.
#[verifier::ext_equal]
pub struct ValueView {
    pub kind: KindView,
    pub raw: Seq<char>,
}

impl View for JsonValue {
    type V = ValueView;

    open spec fn view(&self) -> ValueView {
        ValueView {
            kind: match self.kind {
                JsonKind::Null => KindView::Null,
                JsonKind::Text(s) => KindView::Text(s@),
                JsonKind::Int(i) => KindView::Int(i),
                JsonKind::Other => KindView::Other,
            },
            raw: self.raw@,
        }
    }
}

/// The members of an object.
pub open spec fn members_of(v: Seq<(String, JsonValue)>) -> Seq<(Seq<char>, ValueView)> {
    Seq::new(v.len(), |i: int| (v[i].0@, v[i].1@))
}

/// What `serde_json::from_str` reads out of a text: `None` where it reports an error, no
/// members where the value is no object, else the members with their compact text.
pub uninterp spec fn json_members(line: Seq<char>) -> Option<Seq<(Seq<char>, ValueView)>>;

/// Calls `serde_json::from_str` for a `serde_json::Value` and hands its members over.
/// Claimed: the members depend on the text alone.
#[verifier::external_body]
pub(crate) fn parse_members(line: &str) -> (r: Option<Vec<(String, JsonValue)>>)
    ensures
        match r {
            Some(v) => json_members(line@) == Some(members_of(v@)),
            None => json_members(line@) is None,
        },
{
    let value: serde_json::Value = serde_json::from_str(line).ok()?;
    let serde_json::Value::Object(map) = value else { return Some(Vec::new()) };
    Some(map.into_iter().map(|(key, v)| {
        let raw = v.to_string();
        let kind = match v {
            serde_json::Value::Null => JsonKind::Null,
            serde_json::Value::String(s) => JsonKind::Text(s),
            serde_json::Value::Number(n) => n.as_i64().map_or(JsonKind::Other, JsonKind::Int),
            _ => JsonKind::Other,
        };
        (key, JsonValue { kind, raw })
    }).collect())
}

/// A hexadecimal digit.
pub open spec fn hex_digit(n: int) -> char {
    if n < 10 {
        ('0' as int + n) as char
    } else {
        ('a' as int + n - 10) as char
    }
}

/// A character as it stands in a JSON string.
pub open spec fn escaped(c: char) -> Seq<char> {
    match c {
        '"' => seq!['\\', '"'],
        '\\' => seq!['\\', '\\'],
        '\u{8}' => seq!['\\', 'b'],
        '\t' => seq!['\\', 't'],
        '\n' => seq!['\\', 'n'],
        '\u{c}' => seq!['\\', 'f'],
        '\r' => seq!['\\', 'r'],
        _ => if ' ' <= c {
            seq![c]
        } else {
            seq!['\\', 'u', '0', '0', hex_digit(c as int / 16), hex_digit(c as int % 16)]
        },
    }
}

/// A text as it stands in a JSON string.
pub open spec fn escaped_text(s: Seq<char>) -> Seq<char>
    decreases s.len(),
{
    if s.len() == 0 {
        Seq::empty()
    } else {
        escaped_text(s.drop_last()) + escaped(s.last())
    }
}

/// The JSON text of a string.
pub open spec fn json_quoted(s: Seq<char>) -> Seq<char> {
    seq!['"'] + escaped_text(s) + seq!['"']
}

/// Calls `serde_json::to_string` on a string. Claimed: the result is the string between quotation
/// marks, in which quotation marks, backslashes and control characters below the space are
/// escaped, those that have one by their short form, and all else stands as it is.
#[verifier::external_body]
pub(crate) fn quote(s: &str) -> (r: String)
    ensures
        r@ == json_quoted(s@),
{
    serde_json::to_string(s).unwrap()
}

/// The member with a key.
pub open spec fn member(m: Seq<(Seq<char>, ValueView)>, key: Seq<char>) -> Option<ValueView>
    decreases m.len(),
{
    if m.len() == 0 {
        None
    } else if m.last().0 == key {
        Some(m.last().1)
    } else {
        member(m.drop_last(), key)
    }
}

/// Finds the member with a key.
pub fn find_member<'a>(m: &'a Vec<(String, JsonValue)>, key: &str) -> (r: Option<&'a JsonValue>)
    ensures
        match r {
            Some(v) => member(members_of(m@), key@) == Some(v@),
            None => member(members_of(m@), key@) is None,
        },
{
    let ghost all = members_of(m@);
    let mut n: usize = m.len();
    assert(all.take(n as int) =~= all);
    while n > 0
        invariant
            n <= m@.len(),
            all == members_of(m@),
            member(all, key@) == member(all.take(n as int), key@),
        decreases n,
    {
        assert(all.take(n as int).drop_last() =~= all.take(n - 1));
        assert(all.take(n as int).last() == all[n - 1]);
        if crate::text::same_text(m[n - 1].0.as_str(), key) {
            return Some(&m[n - 1].1);
        }
        n = n - 1;
    }
    None
}

/// The members of an object that is to be written: plain keys with the text of their values.
pub open spec fn parts_of(v: Seq<(&str, String)>) -> Seq<(Seq<char>, Seq<char>)> {
    Seq::new(v.len(), |i: int| (v[i].0@, v[i].1@))
}

/// A member in JSON.
pub open spec fn pair_text(p: (Seq<char>, Seq<char>)) -> Seq<char> {
    seq!['"'] + p.0 + seq!['"', ':'] + p.1
}

/// Texts in a row, parted by commas.
pub open spec fn comma_list(parts: Seq<Seq<char>>) -> Seq<char>
    decreases parts.len(),
{
    if parts.len() == 0 {
        Seq::empty()
    } else if parts.len() == 1 {
        parts[0]
    } else {
        comma_list(parts.drop_last()) + seq![','] + parts.last()
    }
}

/// A JSON object.
pub open spec fn object_text(members: Seq<(Seq<char>, Seq<char>)>) -> Seq<char> {
    seq!['{'] + comma_list(Seq::new(members.len(), |i: int| pair_text(members[i]))) + seq!['}']
}

/// A JSON array.
pub open spec fn array_text(items: Seq<Seq<char>>) -> Seq<char> {
    seq!['['] + comma_list(items) + seq![']']
}

/// Puts texts in a row.
fn write_list(parts: &Vec<String>) -> (r: String)
    ensures
        r@ == comma_list(crate::task::texts(parts@)),
{
    let ghost all = crate::task::texts(parts@);
    let mut out: String = String::new();
    assert(all.take(0) =~= Seq::<Seq<char>>::empty());
    let mut i: usize = 0;
    while i < parts.len()
        invariant
            i <= parts@.len(),
            all == crate::task::texts(parts@),
            out@ == comma_list(all.take(i as int)),
        decreases parts@.len() - i,
    {
        proof {
            reveal_strlit(",");
            assert(all.take(i + 1).drop_last() =~= all.take(i as int));
            assert(","@ =~= seq![',']);
        }
        if i > 0 {
            out.append(",");
        }
        out.append(parts[i].as_str());
        assert(out@ =~= comma_list(all.take(i + 1)));
        i = i + 1;
    }
    assert(all.take(parts@.len() as int) =~= all);
    out
}

/// Writes a JSON object.
pub fn write_object(members: &Vec<(&str, String)>) -> (r: String)
    ensures
        r@ == object_text(parts_of(members@)),
{
    let ghost parts = parts_of(members@);
    let mut pairs: Vec<String> = Vec::new();
    let mut i: usize = 0;
    while i < members.len()
        invariant
            i <= members@.len(),
            parts == parts_of(members@),
            pairs@.len() == i,
            forall|j: int| 0 <= j < i ==> (#[trigger] pairs@[j])@ == pair_text(parts[j]),
        decreases members@.len() - i,
    {
        proof {
            reveal_strlit("\"");
            reveal_strlit("\":");
        }
        let mut pair: String = "\"".to_string();
        pair.append(members[i].0);
        pair.append("\":");
        pair.append(members[i].1.as_str());
        assert(pair@ =~= pair_text(parts[i as int]));
        pairs.push(pair);
        i = i + 1;
    }
    proof {
        reveal_strlit("{");
        reveal_strlit("}");
        assert(crate::task::texts(pairs@) =~= Seq::new(
            parts.len(),
            |i: int| pair_text(parts[i]),
        ));
    }
    let mut out: String = "{".to_string();
    out.append(write_list(&pairs).as_str());
    out.append("}");
    assert(out@ =~= object_text(parts));
    out
}

/// Writes a JSON array.
pub fn write_array(items: &Vec<String>) -> (r: String)
    ensures
        r@ == array_text(crate::task::texts(items@)),
{
    proof {
        reveal_strlit("[");
        reveal_strlit("]");
    }
    let mut out: String = "[".to_string();
    out.append(write_list(items).as_str());
    out.append("]");
    assert(out@ =~= array_text(crate::task::texts(items@)));
    out
}

/// A list is its items with a comma between each two, a member its key between quotation marks
/// and its value after a colon, and an object or an array what it holds between its brackets.
pub proof fn law_json_is_put_together(
    items: Seq<Seq<char>>,
    x: Seq<char>,
    key: Seq<char>,
    members: Seq<(Seq<char>, Seq<char>)>,
)
    ensures
        comma_list(Seq::empty()) == Seq::<char>::empty(),
        comma_list(seq![x]) == x,
        items.len() > 0 ==> comma_list(items.push(x)) == comma_list(items) + seq![','] + x,
        array_text(items) == seq!['['] + comma_list(items) + seq![']'],
        object_text(members) == seq!['{'] + comma_list(
            Seq::new(
                members.len(),
                |i: int| seq!['"'] + members[i].0 + seq!['"', ':'] + members[i].1,
            ),
        ) + seq!['}'],
{
    assert(items.push(x).drop_last() =~= items);
    assert(Seq::new(members.len(), |i: int| pair_text(members[i])) =~= Seq::new(
        members.len(),
        |i: int| seq!['"'] + members[i].0 + seq!['"', ':'] + members[i].1,
    ));
}

/// The member with a key is the last that has it, and there is none only where none has it.
pub proof fn law_member_is_the_last_with_its_key(
    m: Seq<(Seq<char>, ValueView)>,
    key: Seq<char>,
    i: int,
)
    ensures
        member(m, key) matches Some(v) ==> exists|k: int|
            {
                &&& 0 <= k < m.len()
                &&& #[trigger] m[k] == (key, v)
                &&& forall|j: int| k < j < m.len() ==> (#[trigger] m[j]).0 != key
            },
        member(m, key) is None && 0 <= i < m.len() ==> m[i].0 != key,
    decreases m.len(),
{
    if m.len() > 0 && m.last().0 != key {
        let front = m.drop_last();
        law_member_is_the_last_with_its_key(front, key, i);
        if member(front, key) is Some {
            let v = member(front, key)->0;
            let k = choose|k: int|
                {
                    &&& 0 <= k < front.len()
                    &&& #[trigger] front[k] == (key, v)
                    &&& forall|j: int| k < j < front.len() ==> (#[trigger] front[j]).0 != key
                };
            assert(m[k] == (key, v));
            assert forall|j: int| k < j < m.len() implies (#[trigger] m[j]).0 != key by {
                if j < front.len() {
                    assert(front[j] == m[j]);
                }
            }
        } else if 0 <= i < front.len() {
            assert(front[i] == m[i]);
        }
    } else if m.len() > 0 {
        assert(m[m.len() - 1] == (key, m.last().1));
    }
}

/// What a record is said to hold is what its members hold.
pub proof fn law_members_are_what_they_hold(v: Seq<(String, JsonValue)>, i: int)
    requires
        0 <= i < v.len(),
    ensures
        members_of(v).len() == v.len(),
        members_of(v)[i].0 == v[i].0@,
        members_of(v)[i].1.raw == v[i].1.raw@,
        v[i].1.kind is Null <==> members_of(v)[i].1.kind is Null,
        v[i].1.kind is Other <==> members_of(v)[i].1.kind is Other,
        v[i].1.kind matches JsonKind::Text(s) ==> members_of(v)[i].1.kind == KindView::Text(s@),
        v[i].1.kind matches JsonKind::Int(n) ==> members_of(v)[i].1.kind == KindView::Int(n),
{
}

/// The members that are to be written are the keys with their texts, each in its place.
pub proof fn law_parts_are_what_they_hold(v: Seq<(&str, String)>, i: int)
    requires
        0 <= i < v.len(),
    ensures
        parts_of(v).len() == v.len(),
        parts_of(v)[i].0 == v[i].0@,
        parts_of(v)[i].1 == v[i].1@,
{
}

} // verus!
