//! JSON values of the `serde_json` crate, and what they hold.

use serde_json::Value;
use vstd::prelude::*;
use crate::text;

verus! {

/// A JSON value of the `serde_json` crate.
#[verifier::external_type_specification]
#[verifier::external_body]
pub struct ExValue(serde_json::Value);

/// What a JSON value holds.  A number is known by the text that stands for it.
pub enum Doc {
    Null,
    Bool(bool),
    Number(Seq<char>),
    Text(Seq<char>),
    List(Seq<Doc>),
    Object(Map<Seq<char>, Doc>),
}

/// The contents of a value.
pub uninterp spec fn doc(v: Value) -> Doc;

/// The text that `serde_json` writes for a value.
pub uninterp spec fn rendered(d: Doc) -> Seq<char>;

/// The value that `serde_json` reads from a text, or the words with which it
/// refuses the text.
pub uninterp spec fn parsed(input: Seq<u8>) -> Result<Doc, Seq<char>>;

/// The contents of a list of values.
pub open spec fn docs(v: Seq<Value>) -> Seq<Doc> {
    v.map_values(|x: Value| doc(x))
}

/// No two pairs have the same name.
pub open spec fn names_distinct(v: Seq<(String, Value)>) -> bool {
    forall|i: int, j: int| 0 <= i < j < v.len() ==> #[trigger] v[i].0@ != #[trigger] v[j].0@
}

/// The members that the pairs describe.
pub open spec fn members(v: Seq<(String, Value)>) -> Map<Seq<char>, Doc>
    decreases v.len(),
{
    if v.len() == 0 {
        Map::empty()
    } else {
        members(v.drop_last()).insert(v.last().0@, doc(v.last().1))
    }
}

/// The member `key` of an object.
pub open spec fn member_of(d: Doc, key: Seq<char>) -> Option<Doc> {
    match d {
        Doc::Object(m) => if m.contains_key(key) {
            Some(m[key])
        } else {
            None
        },
        _ => None,
    }
}

/// The element `i` of a list.
pub open spec fn element_of(d: Doc, i: int) -> Option<Doc> {
    match d {
        Doc::List(l) => if 0 <= i < l.len() {
            Some(l[i])
        } else {
            None
        },
        _ => None,
    }
}

/// The characters of a JSON string.
pub open spec fn text_of(d: Doc) -> Option<Seq<char>> {
    match d {
        Doc::Text(s) => Some(s),
        _ => None,
    }
}

/// The unsigned integer of 64 bits that a JSON number stands for.
pub open spec fn number_of(d: Doc) -> Option<u64> {
    if exists|n: u64| d == Doc::Number(#[trigger] text::decimal(n as nat)) {
        Some(choose|n: u64| d == Doc::Number(#[trigger] text::decimal(n as nat)))
    } else {
        None
    }
}

/// The number written in decimal stands for itself.
pub proof fn number_stands_for_itself(n: u64)
    ensures
        number_of(Doc::Number(text::decimal(n as nat))) == Some(n),
{
    let d = Doc::Number(text::decimal(n as nat));
    let m = choose|m: u64| d == Doc::Number(#[trigger] text::decimal(m as nat));
    text::lemma_decimal_is_injective(n as nat, m as nat);
}

/// The document of an optional value.
pub open spec fn opt_doc(v: Option<&Value>) -> Option<Doc> {
    match v {
        Some(x) => Some(doc(*x)),
        None => None,
    }
}

/// Makes `serde_json::Value::Null`.
#[verifier::external_body]
pub(crate) fn null() -> (r: Value)
    ensures
        doc(r) == Doc::Null,
{
    Value::Null
}

/// Calls `serde_json::Value::from` on a string slice: the JSON string of the
/// same characters.
#[verifier::external_body]
pub(crate) fn text_value(s: &str) -> (r: Value)
    ensures
        doc(r) == Doc::Text(s@),
{
    Value::from(s)
}

/// Calls `serde_json::Value::from` on an unsigned number: the JSON number that
/// is written in decimal.
#[verifier::external_body]
pub(crate) fn number_value(n: u64) -> (r: Value)
    ensures
        doc(r) == Doc::Number(text::decimal(n as nat)),
{
    Value::from(n)
}

/// Calls `serde_json::Value::from` on a vector: the JSON array of the values.
#[verifier::external_body]
pub(crate) fn list_value(v: Vec<Value>) -> (r: Value)
    ensures
        doc(r) == Doc::List(docs(v@)),
{
    Value::from(v)
}

/// Calls `serde_json::Value::from_iter` on pairs: the JSON object with these
/// members.  Pairs with equal names are left out.
#[verifier::external_body]
pub(crate) fn object_value(v: Vec<(String, Value)>) -> (r: Value)
    requires
        names_distinct(v@),
    ensures
        doc(r) == Doc::Object(members(v@)),
{
    v.into_iter().collect::<Value>()
}

/// Calls `to_string` of `serde_json::Value`: the compact text of the value.
#[verifier::external_body]
pub(crate) fn render(v: &Value) -> (r: String)
    ensures
        r@ == rendered(doc(*v)),
{
    v.to_string()
}

/// Calls `serde_json::from_slice`: the value that the text stands for, or the
/// words of the error with which the text is refused.
#[verifier::external_body]
pub(crate) fn parse(input: &[u8]) -> (r: Result<Value, String>)
    ensures
        match r {
            Ok(v) => parsed(input@) == Ok::<Doc, Seq<char>>(doc(v)),
            Err(e) => parsed(input@) == Err::<Doc, Seq<char>>(e@),
        },
{
    serde_json::from_slice::<Value>(input).map_err(|e| e.to_string())
}

/// Calls `serde_json::Value::get` with a name: the member of that name, where
/// the value is an object that has one.
#[verifier::external_body]
pub(crate) fn member<'a>(v: &'a Value, key: &str) -> (r: Option<&'a Value>)
    ensures
        opt_doc(r) == member_of(doc(*v), key@),
{
    v.get(key)
}

/// Calls `serde_json::Value::get` with a position: the element there, where
/// the value is an array that reaches so far.
#[verifier::external_body]
pub(crate) fn element<'a>(v: &'a Value, i: usize) -> (r: Option<&'a Value>)
    ensures
        opt_doc(r) == element_of(doc(*v), i as int),
{
    v.get(i)
}

/// `serde_json::Value::as_str` gives the characters of a JSON string, and
/// `None` for every other value.
pub assume_specification[ serde_json::Value::as_str ](v: &serde_json::Value) -> (r: Option<&str>)
    ensures
        text::opt_str(r) == text_of(doc(*v)),
;

/// `serde_json::Value::as_u64` gives the number where the value is one that is
/// written as an unsigned decimal integer of 64 bits, and `None` otherwise.
pub assume_specification[ serde_json::Value::as_u64 ](v: &serde_json::Value) -> (r: Option<u64>)
    ensures
        r == number_of(doc(*v)),
;

/// The members of an object that is being written.
pub struct ObjectBuilder {
    pairs: Vec<(String, Value)>,
}

impl View for ObjectBuilder {
    type V = Map<Seq<char>, Doc>;

    closed spec fn view(&self) -> Map<Seq<char>, Doc> {
        members(self.pairs@)
    }
}

/// A pair that is set in place of one with the same name gives the member
/// another value.
proof fn lemma_set_pair(v: Seq<(String, Value)>, i: int, p: (String, Value))
    requires
        names_distinct(v),
        0 <= i < v.len(),
        v[i].0@ == p.0@,
    ensures
        names_distinct(v.update(i, p)),
        members(v.update(i, p)) == members(v).insert(p.0@, doc(p.1)),
    decreases v.len(),
{
    let w = v.update(i, p);
    assert(names_distinct(w));
    let head = v.drop_last();
    assert(names_distinct(head));
    if i < v.len() - 1 {
        lemma_set_pair(head, i, p);
        assert(w.drop_last() =~= head.update(i, p));
        assert(w.last() == v.last());
        assert(v[i].0@ != v[v.len() - 1].0@);
        assert(members(w) =~= members(v).insert(p.0@, doc(p.1)));
    } else {
        assert(w.drop_last() =~= head);
        assert(members(w) =~= members(v).insert(p.0@, doc(p.1)));
    }
}

impl ObjectBuilder {
    #[verifier::type_invariant]
    spec fn pairs_distinct(self) -> bool {
        names_distinct(self.pairs@)
    }

    /// An object without members.
    pub fn new() -> (r: Self)
        ensures
            r@ == Map::<Seq<char>, Doc>::empty(),
    {
        ObjectBuilder { pairs: Vec::new() }
    }

    /// The object with the member `key` set to `value`.
    pub fn with(self, key: &str, value: Value) -> (r: Self)
        ensures
            r@ == self@.insert(key@, doc(value)),
    {
        proof {
            use_type_invariant(&self);
        }
        let ghost before = self.pairs@;
        let mut pairs: Vec<(String, Value)> = self.pairs;
        let mut i: usize = 0;
        while i < pairs.len()
            invariant
                pairs@ == before,
                self@ == members(before),
                names_distinct(before),
                forall|j: int| 0 <= j < i ==> #[trigger] before[j].0@ != key@,
            decreases pairs@.len() - i,
        {
            if text::same(pairs[i].0.as_str(), key) {
                let pair: (String, Value) = (key.to_string(), value);
                proof {
                    lemma_set_pair(before, i as int, pair);
                }
                pairs.set(i, pair);
                return ObjectBuilder { pairs };
            }
            i += 1;
        }
        pairs.push((key.to_string(), value));
        assert(pairs@.drop_last() =~= before);
        ObjectBuilder { pairs }
    }

    /// The object with the member `key` set to a string.
    pub fn with_text(self, key: &str, value: &str) -> (r: Self)
        ensures
            r@ == self@.insert(key@, Doc::Text(value@)),
    {
        self.with(key, text_value(value))
    }

    /// The object with the member `key` set to a number.
    pub fn with_number(self, key: &str, value: u64) -> (r: Self)
        ensures
            r@ == self@.insert(key@, Doc::Number(text::decimal(value as nat))),
    {
        self.with(key, number_value(value))
    }

    /// The finished object.
    pub fn build(self) -> (r: Value)
        ensures
            doc(r) == Doc::Object(self@),
    {
        proof {
            use_type_invariant(&self);
        }
        object_value(self.pairs)
    }
}

/// The array of one value.
pub fn single(v: Value) -> (r: Value)
    ensures
        doc(r) == Doc::List(seq![doc(v)]),
{
    let mut l: Vec<Value> = Vec::new();
    l.push(v);
    assert(docs(l@) =~= seq![doc(v)]);
    list_value(l)
}

/// The array without values.
pub fn nothing() -> (r: Value)
    ensures
        doc(r) == Doc::List(Seq::<Doc>::empty()),
{
    let l: Vec<Value> = Vec::new();
    assert(docs(l@) =~= Seq::<Doc>::empty());
    list_value(l)
}

/// The members that pairs with distinct names describe are those pairs, each with
/// its value.
pub proof fn members_are_the_pairs(v: Seq<(String, Value)>, i: int)
    requires
        names_distinct(v),
        0 <= i < v.len(),
    ensures
        members(v).contains_key(v[i].0@),
        members(v)[v[i].0@] == doc(v[i].1),
    decreases v.len(),
{
    let d = v.drop_last();
    if i < v.len() - 1 {
        assert(names_distinct(d)) by {
            assert forall|a: int, b: int| 0 <= a < b < d.len() implies #[trigger] d[a].0@
                != #[trigger] d[b].0@ by {
                assert(v[a].0@ != v[b].0@);
            }
        }
        members_are_the_pairs(d, i);
        assert(v[i].0@ != v[v.len() - 1].0@);
    }
}

/// A member is found in an object under its name, an element in a list under its
/// position, and the characters of a string are those it holds.
pub proof fn values_are_found_where_they_are(
    m: Map<Seq<char>, Doc>,
    key: Seq<char>,
    l: Seq<Doc>,
    i: int,
    s: Seq<char>,
)
    ensures
        m.contains_key(key) ==> member_of(Doc::Object(m), key) == Some(m[key]),
        !m.contains_key(key) ==> member_of(Doc::Object(m), key) is None,
        member_of(Doc::List(l), key) is None && member_of(Doc::Text(s), key) is None && member_of(
            Doc::Null,
            key,
        ) is None,
        0 <= i < l.len() ==> element_of(Doc::List(l), i) == Some(l[i]),
        i >= l.len() ==> element_of(Doc::List(l), i) is None,
        element_of(Doc::Object(m), i) is None,
        text_of(Doc::Text(s)) == Some(s),
        text_of(Doc::Number(s)) is None && text_of(Doc::Null) is None && text_of(Doc::List(l)) is None
            && text_of(Doc::Object(m)) is None,
{
}

/// The contents of a list of values are those of every value, in their order.
pub proof fn every_value_is_in_the_list(v: Seq<Value>)
    ensures
        docs(v).len() == v.len(),
        forall|i: int| 0 <= i < v.len() ==> #[trigger] docs(v)[i] == doc(v[i]),
{
}

} // verus!
