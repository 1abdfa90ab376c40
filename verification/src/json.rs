//! JSON values, and the two places where text becomes a value and a value
//! becomes text.
//!
//! [`Json`] is the executable type. Its view, [`JsonValue`], is the same tree
//! written with sequences, and is what every contract in this crate speaks of.
//! Reading and writing JSON text is left to `serde_json`; what it returns is
//! known to the proofs only by name, as [`json_parse`] and [`json_text`].

use vstd::prelude::*;

verus! {

/// `serde_json::Number`, which a [`JsonNumber`] carries where the number is
/// no integer. Nothing is known of what is in it.
#[verifier::external_type_specification]
#[verifier::external_body]
pub struct ExNumber(serde_json::Number);

/// `serde_json::Value`, which stands between the text and a [`Json`] when
/// JSON is read or written. Nothing is known of what is in it.
#[verifier::external_type_specification]
#[verifier::external_body]
pub struct ExValue(serde_json::Value);

/// `Clone` of `serde_json::Number`: the copy is the number that was copied.
pub assume_specification[ <serde_json::Number as Clone>::clone ](
    number: &serde_json::Number,
) -> (copy: serde_json::Number)
    ensures
        copy == *number,
;

/// A JSON number.
///
/// Integers are held as integers, so that the protocol can read an error
/// code or a request id. Every other number is carried as the parser made
/// it and is never looked into.
#[derive(Debug, PartialEq)]
pub enum JsonNumber {
    /// An integer that is zero or more.
    PosInt(u64),
    /// An integer below zero.
    NegInt(i64),
    /// Any other number: one with a fraction or an exponent, or an integer
    /// that does not fit in 64 bits.
    Float(serde_json::Number),
}

impl JsonNumber {
    /// The integer that this number stands for, if it is one.
    pub open spec fn as_int(self) -> Option<int> {
        match self {
            JsonNumber::PosInt(u) => Some(u as int),
            JsonNumber::NegInt(i) => Some(i as int),
            JsonNumber::Float(_) => None,
        }
    }

    /// The number as an `i64`, if it is an integer in that range.
    pub open spec fn spec_i64(self) -> Option<i64> {
        match self.as_int() {
            Some(i) => if i64::MIN <= i <= i64::MAX {
                Some(i as i64)
            } else {
                None
            },
            None => None,
        }
    }

    /// The number as an `i64`, if it is an integer in that range.
    pub fn as_i64(&self) -> (r: Option<i64>)
        ensures
            r == self.spec_i64(),
    {
        match self {
            JsonNumber::PosInt(u) => {
                if *u <= 0x7fff_ffff_ffff_ffffu64 {
                    Some(*u as i64)
                } else {
                    None
                }
            },
            JsonNumber::NegInt(i) => Some(*i),
            JsonNumber::Float(_) => None,
        }
    }

    /// The number that stands for `i`: `PosInt` from zero on, `NegInt` below.
    pub open spec fn integer(i: i64) -> JsonNumber {
        if i >= 0 {
            JsonNumber::PosInt(i as u64)
        } else {
            JsonNumber::NegInt(i)
        }
    }

    /// The number that stands for `i`.
    pub fn from_i64(i: i64) -> (r: JsonNumber)
        ensures
            r == JsonNumber::integer(i),
    {
        if i >= 0 {
            JsonNumber::PosInt(i as u64)
        } else {
            JsonNumber::NegInt(i)
        }
    }
}

/// A JSON value.
///
/// An object keeps its members in the order in which they were written.
/// Where a name occurs twice, the last member of that name is the one that
/// is read.
#[derive(Debug, PartialEq)]
pub enum Json {
    Null,
    Bool(bool),
    Number(JsonNumber),
    String(String),
    Array(Vec<Json>),
    Object(Vec<(String, Json)>),
}

/// The mathematical value of a [`Json`].
pub enum JsonValue {
    Null,
    Bool(bool),
    Number(JsonNumber),
    String(Seq<char>),
    Array(Seq<JsonValue>),
    Object(Seq<(Seq<char>, JsonValue)>),
}

/// The value of `json`.
pub open spec fn json_view(json: Json) -> JsonValue
    decreases json, 0nat,
{
    match json {
        Json::Null => JsonValue::Null,
        Json::Bool(b) => JsonValue::Bool(b),
        Json::Number(n) => JsonValue::Number(n),
        Json::String(s) => JsonValue::String(s@),
        Json::Array(items) => JsonValue::Array(items_prefix(items@, items@.len())),
        Json::Object(members) => JsonValue::Object(members_prefix(members@, members@.len())),
    }
}

/// The values of the first `n` of `items`.
pub open spec fn items_prefix(items: Seq<Json>, n: nat) -> Seq<JsonValue>
    decreases items, n,
{
    if n == 0 || n > items.len() {
        Seq::empty()
    } else {
        items_prefix(items, (n - 1) as nat).push(json_view(items[n - 1]))
    }
}

/// The names and values of the first `n` of `members`.
pub open spec fn members_prefix(members: Seq<(String, Json)>, n: nat) -> Seq<
    (Seq<char>, JsonValue),
>
    decreases members, n,
{
    if n == 0 || n > members.len() {
        Seq::empty()
    } else {
        members_prefix(members, (n - 1) as nat).push(
            (members[n - 1].0@, json_view(members[n - 1].1)),
        )
    }
}

impl View for Json {
    type V = JsonValue;

    open spec fn view(&self) -> JsonValue {
        json_view(*self)
    }
}

impl Clone for JsonNumber {
    /// A copy that is the same number.
    fn clone(&self) -> (copy: JsonNumber)
        ensures
            copy == *self,
    {
        match self {
            JsonNumber::PosInt(u) => JsonNumber::PosInt(*u),
            JsonNumber::NegInt(i) => JsonNumber::NegInt(*i),
            JsonNumber::Float(n) => JsonNumber::Float(n.clone()),
        }
    }
}

impl Clone for Json {
    /// A copy with the same value.
    fn clone(&self) -> (copy: Json)
        ensures
            copy@ == self@,
        decreases self,
    {
        match self {
            Json::Null => Json::Null,
            Json::Bool(b) => Json::Bool(*b),
            Json::Number(n) => Json::Number(n.clone()),
            Json::String(s) => Json::String(s.clone()),
            Json::Array(items) => {
                let mut copy: Vec<Json> = Vec::new();
                let mut i: usize = 0;
                while i < items.len()
                    invariant
                        *self == Json::Array(*items),
                        i <= items@.len(),
                        copy@.len() == i,
                        forall|j: int| 0 <= j < i ==> copy@[j]@ == items@[j]@,
                    decreases items@.len() - i,
                {
                    assert(decreases_to!(*self => self->Array_0));
                    assert(decreases_to!(*items => items[i as int]));
                    copy.push(items[i].clone());
                    i += 1;
                }
                let copied = Json::Array(copy);
                proof {
                    lemma_array_view(copy);
                    lemma_array_view(*items);
                    assert(items_view(copy@) =~= items_view(items@));
                }
                copied
            },
            Json::Object(members) => {
                let mut copy: Vec<(String, Json)> = Vec::new();
                let mut i: usize = 0;
                while i < members.len()
                    invariant
                        *self == Json::Object(*members),
                        i <= members@.len(),
                        copy@.len() == i,
                        forall|j: int|
                            0 <= j < i ==> copy@[j].0@ == members@[j].0@ && copy@[j].1@
                                == members@[j].1@,
                    decreases members@.len() - i,
                {
                    assert(decreases_to!(*self => self->Object_0));
                    assert(decreases_to!(*members => members[i as int]));
                    copy.push((members[i].0.clone(), members[i].1.clone()));
                    i += 1;
                }
                let copied = Json::Object(copy);
                proof {
                    lemma_object_view(copy);
                    lemma_object_view(*members);
                    assert(members_view(copy@) =~= members_view(members@));
                }
                copied
            },
        }
    }
}

/// The value of the last member of `members` that is named `key`.
pub open spec fn lookup(members: Seq<(Seq<char>, JsonValue)>, key: Seq<char>) -> Option<JsonValue>
    decreases members.len(),
{
    if members.len() == 0 {
        None
    } else if members.last().0 == key {
        Some(members.last().1)
    } else {
        lookup(members.drop_last(), key)
    }
}

/// The values of the members of an object, in their order.
pub open spec fn members_view(members: Seq<(String, Json)>) -> Seq<(Seq<char>, JsonValue)> {
    Seq::new(members.len(), |i: int| (members[i].0@, members[i].1@))
}

/// The values of the items of an array, in their order.
pub open spec fn items_view(items: Seq<Json>) -> Seq<JsonValue> {
    Seq::new(items.len(), |i: int| items[i]@)
}

/// The value of a `Json` that may be absent.
pub open spec fn option_view(json: Option<Json>) -> Option<JsonValue> {
    match json {
        Some(j) => Some(j@),
        None => None,
    }
}

/// The value of a borrowed `Json` that may be absent.
pub open spec fn option_ref_view(json: Option<&Json>) -> Option<JsonValue> {
    match json {
        Some(j) => Some(j@),
        None => None,
    }
}

impl JsonValue {
    /// What an object holds under `key`; `None` for a missing key and for
    /// every value that is not an object.
    pub open spec fn member(self, key: Seq<char>) -> Option<JsonValue> {
        match self {
            JsonValue::Object(members) => lookup(members, key),
            _ => None,
        }
    }

    /// Null, a boolean, a number or a string: neither array nor object.
    pub open spec fn is_scalar(self) -> bool {
        !(self is Array) && !(self is Object)
    }
}

proof fn lemma_items_prefix(items: Seq<Json>, n: nat)
    requires
        n <= items.len(),
    ensures
        items_prefix(items, n) == items_view(items.take(n as int)),
    decreases n,
{
    if n > 0 {
        lemma_items_prefix(items, (n - 1) as nat);
        assert(items.take(n as int).drop_last() =~= items.take(n - 1));
    }
    assert(items_prefix(items, n) =~= items_view(items.take(n as int)));
}

proof fn lemma_members_prefix(members: Seq<(String, Json)>, n: nat)
    requires
        n <= members.len(),
    ensures
        members_prefix(members, n) == members_view(members.take(n as int)),
    decreases n,
{
    if n > 0 {
        lemma_members_prefix(members, (n - 1) as nat);
        assert(members.take(n as int).drop_last() =~= members.take(n - 1));
    }
    assert(members_prefix(members, n) =~= members_view(members.take(n as int)));
}

/// An object's view is the view of its members, one by one.
pub proof fn lemma_object_view(members: Vec<(String, Json)>)
    ensures
        Json::Object(members)@ == JsonValue::Object(members_view(members@)),
{
    lemma_members_prefix(members@, members@.len());
    assert(members@.take(members@.len() as int) =~= members@);
}

/// An array's view is the view of its items, one by one.
pub proof fn lemma_array_view(items: Vec<Json>)
    ensures
        Json::Array(items)@ == JsonValue::Array(items_view(items@)),
{
    lemma_items_prefix(items@, items@.len());
    assert(items@.take(items@.len() as int) =~= items@);
}

impl Json {
    /// Whether the value is neither an array nor an object.
    pub fn is_scalar(&self) -> (r: bool)
        ensures
            r == self@.is_scalar(),
    {
        match self {
            Json::Array(_) => false,
            Json::Object(_) => false,
            _ => true,
        }
    }

    /// Whether the value is `null`.
    pub fn is_null(&self) -> (r: bool)
        ensures
            r == (self@ is Null),
    {
        match self {
            Json::Null => true,
            _ => false,
        }
    }
}

impl Json {
    /// What an object holds under `key`: the value of the last member of
    /// that name. `None` for a missing key and for what is not an object.
    pub fn member<'a>(&'a self, key: &str) -> (r: Option<&'a Json>)
        ensures
            option_ref_view(r) == self@.member(key@),
    {
        match self {
            Json::Object(members) => {
                proof {
                    lemma_object_view(*members);
                }
                let ghost all = members_view(members@);
                let name = key.to_owned();
                let mut i: usize = members.len();
                assert(all.take(i as int) =~= all);
                while i > 0
                    invariant
                        i <= members@.len(),
                        name@ == key@,
                        all == members_view(members@),
                        self@ == JsonValue::Object(all),
                        lookup(all, key@) == lookup(all.take(i as int), key@),
                    decreases i,
                {
                    i -= 1;
                    assert(all.take(i + 1).drop_last() =~= all.take(i as int));
                    if members[i].0 == name {
                        return Some(&members[i].1);
                    }
                }
                None
            },
            _ => None,
        }
    }
}

impl JsonValue {
    /// Whether every number in the value is an integer.
    pub open spec fn integral(self) -> bool
        decreases self, 0nat,
    {
        match self {
            JsonValue::Number(number) => !(number is Float),
            JsonValue::Array(items) => JsonValue::items_integral(items, items.len()),
            JsonValue::Object(members) => JsonValue::members_integral(members, members.len()),
            _ => true,
        }
    }

    /// Whether every number in the first `n` of `items` is an integer.
    pub open spec fn items_integral(items: Seq<JsonValue>, n: nat) -> bool
        decreases items, n,
    {
        if n == 0 || n > items.len() {
            true
        } else {
            JsonValue::items_integral(items, (n - 1) as nat) && items[n - 1].integral()
        }
    }

    /// Whether every number in the first `n` of `members` is an integer.
    pub open spec fn members_integral(members: Seq<(Seq<char>, JsonValue)>, n: nat) -> bool
        decreases members, n,
    {
        if n == 0 || n > members.len() {
            true
        } else {
            JsonValue::members_integral(members, (n - 1) as nat) && members[n - 1].1.integral()
        }
    }
}

/// The first `n` items hold integers only where each of them does.
pub proof fn lemma_items_integral(items: Seq<JsonValue>, n: nat)
    requires
        n <= items.len(),
    ensures
        JsonValue::items_integral(items, n) <==> forall|i: int|
            0 <= i < n ==> (#[trigger] items[i]).integral(),
    decreases n,
{
    if n > 0 {
        lemma_items_integral(items, (n - 1) as nat);
    }
}

/// The first `n` members hold integers only where each of them does.
pub proof fn lemma_members_integral(members: Seq<(Seq<char>, JsonValue)>, n: nat)
    requires
        n <= members.len(),
    ensures
        JsonValue::members_integral(members, n) <==> forall|i: int|
            0 <= i < n ==> (#[trigger] members[i]).1.integral(),
    decreases n,
{
    if n > 0 {
        lemma_members_integral(members, (n - 1) as nat);
    }
}

impl JsonNumber {
    /// Whether the two are the same integer. Of a number that is no
    /// integer nothing is known, so two of them are never found the same.
    pub fn same_as(&self, other: &JsonNumber) -> (same: bool)
        ensures
            same == (*self == *other && !(*self is Float)),
    {
        match (self, other) {
            (JsonNumber::PosInt(a), JsonNumber::PosInt(b)) => *a == *b,
            (JsonNumber::NegInt(a), JsonNumber::NegInt(b)) => *a == *b,
            _ => false,
        }
    }
}

impl Json {
    /// Whether the two values are the same, and hold no number but
    /// integers.
    pub fn same_as(&self, other: &Json) -> (same: bool)
        ensures
            same == (self@ == other@ && self@.integral()),
        decreases self,
    {
        match (self, other) {
            (Json::Null, Json::Null) => true,
            (Json::Bool(a), Json::Bool(b)) => *a == *b,
            (Json::Number(a), Json::Number(b)) => a.same_as(b),
            (Json::String(a), Json::String(b)) => *a == *b,
            (Json::Array(a), Json::Array(b)) => {
                proof {
                    lemma_array_view(*a);
                    lemma_array_view(*b);
                }
                if a.len() != b.len() {
                    assert(items_view(a@).len() != items_view(b@).len());
                    return false;
                }
                let mut i: usize = 0;
                while i < a.len()
                    invariant
                        *self == Json::Array(*a),
                        *other == Json::Array(*b),
                        self@ == JsonValue::Array(items_view(a@)),
                        other@ == JsonValue::Array(items_view(b@)),
                        a@.len() == b@.len(),
                        i <= a@.len(),
                        forall|j: int| 0 <= j < i ==> a@[j]@ == b@[j]@ && a@[j]@.integral(),
                    decreases a@.len() - i,
                {
                    assert(decreases_to!(*self => self->Array_0));
                    assert(decreases_to!(*a => a[i as int]));
                    if !a[i].same_as(&b[i]) {
                        proof {
                            let mine = items_view(a@);
                            let theirs = items_view(b@);
                            assert(mine[i as int] == a@[i as int]@);
                            assert(theirs[i as int] == b@[i as int]@);
                            if mine[i as int] == theirs[i as int] {
                                assert(!mine[i as int].integral());
                                lemma_items_integral(mine, mine.len());
                            } else {
                                assert(mine != theirs);
                            }
                        }
                        return false;
                    }
                    i += 1;
                }
                assert(items_view(a@) =~= items_view(b@));
                assert forall|j: int| 0 <= j < items_view(a@).len() implies (
                #[trigger] items_view(a@)[j]).integral() by {
                    assert(items_view(a@)[j] == a@[j]@);
                }
                proof {
                    lemma_items_integral(items_view(a@), items_view(a@).len());
                }
                true
            },
            (Json::Object(a), Json::Object(b)) => {
                proof {
                    lemma_object_view(*a);
                    lemma_object_view(*b);
                }
                if a.len() != b.len() {
                    assert(members_view(a@).len() != members_view(b@).len());
                    return false;
                }
                let mut i: usize = 0;
                while i < a.len()
                    invariant
                        *self == Json::Object(*a),
                        *other == Json::Object(*b),
                        self@ == JsonValue::Object(members_view(a@)),
                        other@ == JsonValue::Object(members_view(b@)),
                        a@.len() == b@.len(),
                        i <= a@.len(),
                        forall|j: int|
                            0 <= j < i ==> a@[j].0@ == b@[j].0@ && a@[j].1@ == b@[j].1@
                                && a@[j].1@.integral(),
                    decreases a@.len() - i,
                {
                    assert(decreases_to!(*self => self->Object_0));
                    assert(decreases_to!(*a => a[i as int]));
                    assert(members_view(a@)[i as int] == (a@[i as int].0@, a@[i as int].1@));
                    assert(members_view(b@)[i as int] == (b@[i as int].0@, b@[i as int].1@));
                    if !(a[i].0 == b[i].0) {
                        return false;
                    }
                    if !a[i].1.same_as(&b[i].1) {
                        proof {
                            let mine = members_view(a@);
                            let theirs = members_view(b@);
                            if mine[i as int].1 == theirs[i as int].1 {
                                assert(!mine[i as int].1.integral());
                                lemma_members_integral(mine, mine.len());
                            } else {
                                assert(mine != theirs);
                            }
                        }
                        return false;
                    }
                    i += 1;
                }
                assert(members_view(a@) =~= members_view(b@));
                assert forall|j: int| 0 <= j < members_view(a@).len() implies (
                #[trigger] members_view(a@)[j]).1.integral() by {
                    assert(members_view(a@)[j] == (a@[j].0@, a@[j].1@));
                }
                proof {
                    lemma_members_integral(members_view(a@), members_view(a@).len());
                }
                true
            },
            _ => false,
        }
    }
}

/// Why a text could not be read as JSON.
#[derive(Debug, Clone, Copy, PartialEq, Eq)]
pub enum ParseFailure {
    /// The text is not JSON.
    Syntax,
    /// The text ends in the middle of a value.
    Eof,
    /// The text is JSON of a kind that the reader does not hold.
    Data,
    /// The bytes could not be read at all.
    Io,
}

/// What `serde_json::from_slice` makes of `text`, read as one JSON value.
pub uninterp spec fn json_parse(text: Seq<u8>) -> Result<JsonValue, ParseFailure>;

/// The compact text that `serde_json::to_vec` writes for `value`; `None`
/// where it reports an error in place of a text.
pub uninterp spec fn json_text(value: JsonValue) -> Option<Seq<u8>>;

/// The value of what [`parse`] returns.
pub open spec fn parse_view(parsed: Result<Json, ParseFailure>) -> Result<
    JsonValue,
    ParseFailure,
> {
    match parsed {
        Ok(json) => Ok(json@),
        Err(failure) => Err(failure),
    }
}

/// Tells the three kinds of `serde_json::Number` apart, by `as_u64` and
/// `as_i64`: an integer becomes `PosInt` or `NegInt`, any other number is
/// kept as it is. Nothing is claimed of the result here.
#[verifier::external_body]
fn number_from_serde(number: serde_json::Number) -> JsonNumber {
    match (number.as_u64(), number.as_i64()) {
        (Some(u), _) => JsonNumber::PosInt(u),
        (_, Some(i)) => JsonNumber::NegInt(i),
        _ => JsonNumber::Float(number),
    }
}

/// Copies a `serde_json::Value` into a [`Json`], node for node. Nothing is
/// claimed of the result here: [`parse`] names it.
#[verifier::external_body]
fn from_serde(value: serde_json::Value) -> Json {
    match value {
        serde_json::Value::Null => Json::Null,
        serde_json::Value::Bool(b) => Json::Bool(b),
        serde_json::Value::Number(n) => Json::Number(number_from_serde(n)),
        serde_json::Value::String(s) => Json::String(s),
        serde_json::Value::Array(a) => Json::Array(a.into_iter().map(from_serde).collect()),
        serde_json::Value::Object(m) => Json::Object(
            m.into_iter().map(|(k, v)| (k, from_serde(v))).collect(),
        ),
    }
}

/// Makes the `serde_json::Number` that a [`JsonNumber`] stands for. Nothing
/// is claimed of the result here.
#[verifier::external_body]
fn number_to_serde(number: &JsonNumber) -> serde_json::Number {
    match number {
        JsonNumber::PosInt(u) => serde_json::Number::from(*u),
        JsonNumber::NegInt(i) => serde_json::Number::from(*i),
        JsonNumber::Float(n) => n.clone(),
    }
}

/// Copies a [`Json`] into a `serde_json::Value`, node for node. Nothing is
/// claimed of the result here: [`emit`] names the text written from it.
#[verifier::external_body]
fn to_serde(json: &Json) -> serde_json::Value {
    match json {
        Json::Null => serde_json::Value::Null,
        Json::Bool(b) => serde_json::Value::Bool(*b),
        Json::Number(n) => serde_json::Value::Number(number_to_serde(n)),
        Json::String(s) => serde_json::Value::String(s.clone()),
        Json::Array(a) => serde_json::Value::Array(a.iter().map(to_serde).collect()),
        Json::Object(m) => serde_json::Value::Object(
            m.iter().map(|(k, v)| (k.clone(), to_serde(v))).collect(),
        ),
    }
}

/// `serde_json::from_slice`, reading `text` as exactly one JSON value.
///
/// The contract gives the outcome its name, [`json_parse`], and says no more
/// of it. A failure comes back as the category that `serde_json` puts it in.
#[verifier::external_body]
pub(crate) fn parse(text: &[u8]) -> (parsed: Result<Json, ParseFailure>)
    ensures
        parse_view(parsed) == json_parse(text@),
{
    match serde_json::from_slice::<serde_json::Value>(text) {
        Ok(value) => Ok(from_serde(value)),
        Err(error) => Err(
            match error.classify() {
                serde_json::error::Category::Syntax => ParseFailure::Syntax,
                serde_json::error::Category::Eof => ParseFailure::Eof,
                serde_json::error::Category::Data => ParseFailure::Data,
                serde_json::error::Category::Io => ParseFailure::Io,
            },
        ),
    }
}

/// `serde_json::to_vec`, writing `json` as compact text; `None` where it
/// reports an error.
///
/// The contract gives the outcome its name, [`json_text`], and claims one
/// thing of a text: it holds no line feed. The writer puts no white space
/// between tokens and writes a line feed inside a string as the two
/// characters `\n`.
#[verifier::external_body]
pub(crate) fn emit(json: &Json) -> (text: Option<Vec<u8>>)
    ensures
        match text {
            Some(bytes) => json_text(json@) == Some(bytes@) && !bytes@.contains(0x0au8),
            None => json_text(json@) is None,
        },
{
    serde_json::to_vec(&to_serde(json)).ok()
}

/// `serde_json::to_string`, writing `json` as compact text; `None` where it
/// reports an error.
///
/// The string is the text that [`emit`] writes, read as UTF-8: it has the
/// bytes that [`json_text`] names.
#[verifier::external_body]
pub(crate) fn emit_string(json: &Json) -> (text: Option<String>)
    ensures
        match text {
            Some(written) => json_text(json@) == Some(vstd::utf8::encode_utf8(written@)),
            None => json_text(json@) is None,
        },
{
    serde_json::to_string(&to_serde(json)).ok()
}

} // verus!
