//! JSON values as plain data.
use vstd::prelude::*;
use crate::text::same_text;

verus! {

/// A JSON number.
#[derive(Debug, Clone, Copy, PartialEq, Eq, Structural)]
pub enum Number {
    /// An integer that is not negative.
    Unsigned(u64),
    /// A negative integer.
    Negative(i64),
    /// Any other number, by the bits of its double-precision value.
    Real(u64),
}

/// A JSON value.
#[derive(Debug)]
pub enum Value {
    Null,
    Bool(bool),
    Number(Number),
    String(String),
    Array(Vec<Value>),
    Object(Record),
}

/// A single entity row, represented as a JSON object.
#[derive(Debug)]
pub struct Record {
    fields: Vec<(String, Value)>,
}

/// The mathematical content of a JSON value.
#[verifier::ext_equal]
pub enum Json {
    Null,
    Bool(bool),
    Number(Number),
    String(Seq<char>),
    Array(Seq<Json>),
    Object(Map<Seq<char>, Json>),
}

pub closed spec fn model_of(value: Value) -> Json
    decreases value,
{
    match value {
        Value::Null => Json::Null,
        Value::Bool(b) => Json::Bool(b),
        Value::Number(n) => Json::Number(n),
        Value::String(s) => Json::String(s@),
        Value::Array(items) => Json::Array(models_of(items@)),
        Value::Object(record) => Json::Object(fields_of(record.fields@)),
    }
}

pub closed spec fn models_of(items: Seq<Value>) -> Seq<Json>
    decreases items,
{
    if items.len() == 0 {
        Seq::empty()
    } else {
        models_of(items.drop_last()).push(model_of(items.last()))
    }
}

pub closed spec fn fields_of(fields: Seq<(String, Value)>) -> Map<Seq<char>, Json>
    decreases fields,
{
    if fields.len() == 0 {
        Map::empty()
    } else {
        fields_of(fields.drop_last()).insert(fields.last().0@, model_of(fields.last().1))
    }
}

impl View for Value {
    type V = Json;

    closed spec fn view(&self) -> Json {
        model_of(*self)
    }
}

impl View for Record {
    type V = Map<Seq<char>, Json>;

    closed spec fn view(&self) -> Map<Seq<char>, Json> {
        fields_of(self.fields@)
    }
}

/// Values by their content.
pub open spec fn values(items: Seq<Value>) -> Seq<Json> {
    Seq::new(items.len(), |i: int| items[i]@)
}

/// Records by their content.
pub open spec fn records(items: Seq<Record>) -> Seq<Map<Seq<char>, Json>> {
    Seq::new(items.len(), |i: int| items[i]@)
}

proof fn lemma_models_of(items: Seq<Value>)
    ensures
        models_of(items) == values(items),
    decreases items.len(),
{
    if items.len() > 0 {
        lemma_models_of(items.drop_last());
    }
    assert(models_of(items) =~= values(items));
}

/// What each kind of value stands for.
pub proof fn lemma_value_view(value: Value)
    ensures
        value@ == (match value {
            Value::Null => Json::Null,
            Value::Bool(b) => Json::Bool(b),
            Value::Number(n) => Json::Number(n),
            Value::String(s) => Json::String(s@),
            Value::Array(items) => Json::Array(values(items@)),
            Value::Object(record) => Json::Object(record@),
        }),
{
    if let Value::Array(items) = value {
        lemma_models_of(items@);
    }
}

spec fn distinct_fields(fields: Seq<(String, Value)>) -> bool {
    forall|i: int, j: int|
        0 <= i < j < fields.len() ==> (#[trigger] fields[i]).0@ != (#[trigger] fields[j]).0@
}

proof fn lemma_fields_of(fields: Seq<(String, Value)>)
    requires
        distinct_fields(fields),
    ensures
        forall|i: int|
            0 <= i < fields.len() ==> {
                &&& fields_of(fields).contains_key((#[trigger] fields[i]).0@)
                &&& fields_of(fields)[fields[i].0@] == fields[i].1@
            },
        forall|k: Seq<char>| #[trigger]
            fields_of(fields).contains_key(k) ==> exists|i: int|
                0 <= i < fields.len() && (#[trigger] fields[i]).0@ == k,
    decreases fields.len(),
{
    if fields.len() > 0 {
        let front = fields.drop_last();
        assert(distinct_fields(front)) by {
            assert forall|i: int, j: int| 0 <= i < j < front.len() implies (
            #[trigger] front[i]).0@ != (#[trigger] front[j]).0@ by {
                assert(front[i] == fields[i] && front[j] == fields[j]);
            }
        }
        lemma_fields_of(front);
        assert forall|i: int| 0 <= i < fields.len() implies {
            &&& fields_of(fields).contains_key((#[trigger] fields[i]).0@)
            &&& fields_of(fields)[fields[i].0@] == fields[i].1@
        } by {
            if i < front.len() {
                assert(front[i] == fields[i]);
                assert(fields[i].0@ != fields[fields.len() - 1].0@);
            }
        }
        assert forall|k: Seq<char>| #[trigger] fields_of(fields).contains_key(k) implies exists|
            i: int,
        |
            0 <= i < fields.len() && (#[trigger] fields[i]).0@ == k by {
            if k == fields.last().0@ {
                assert(fields[fields.len() - 1].0@ == k);
            } else {
                assert(fields_of(front).contains_key(k));
                let i = choose|i: int| 0 <= i < front.len() && (#[trigger] front[i]).0@ == k;
                assert(fields[i] == front[i]);
            }
        }
    }
}

impl Clone for Value {
    fn clone(&self) -> (copy: Self)
        ensures
            copy@ == self@,
        decreases *self,
    {
        let copy = match self {
            Value::Null => Value::Null,
            Value::Bool(b) => Value::Bool(*b),
            Value::Number(n) => Value::Number(*n),
            Value::String(s) => Value::String(s.clone()),
            Value::Array(items) => {
                let mut out: Vec<Value> = Vec::new();
                let mut i: usize = 0;
                while i < items.len()
                    invariant
                        i <= items@.len(),
                        out@.len() == i,
                        *self == Value::Array(*items),
                        forall|j: int| 0 <= j < i ==> (#[trigger] out@[j])@ == items@[j]@,
                    decreases items@.len() - i,
                {
                    proof {
                        assert(decreases_to!(*self => self->Array_0));
                        assert(decreases_to!(*items => items@));
                        assert(decreases_to!(items@ => items@[i as int]));
                    }
                    out.push(items[i].clone());
                    i = i + 1;
                }
                assert(values(out@) =~= values(items@));
                Value::Array(out)
            },
            Value::Object(record) => {
                let mut out: Vec<(String, Value)> = Vec::new();
                let mut i: usize = 0;
                proof {
                    use_type_invariant(record);
                }
                while i < record.fields.len()
                    invariant
                        i <= record.fields@.len(),
                        out@.len() == i,
                        *self == Value::Object(*record),
                        distinct_fields(record.fields@),
                        forall|j: int|
                            0 <= j < i ==> (#[trigger] out@[j]).0@ == record.fields@[j].0@
                                && out@[j].1@ == record.fields@[j].1@,
                    decreases record.fields@.len() - i,
                {
                    proof {
                        assert(decreases_to!(*self => self->Object_0));
                        assert(decreases_to!(*record => record.fields));
                        assert(decreases_to!(record.fields => record.fields@));
                        assert(decreases_to!(record.fields@ => record.fields@[i as int]));
                        assert(decreases_to!(record.fields@[i as int] => record.fields@[i as int].1));
                    }
                    out.push((record.fields[i].0.clone(), record.fields[i].1.clone()));
                    i = i + 1;
                }
                proof {
                    lemma_same_fields(out@, record.fields@);
                }
                Value::Object(Record { fields: out })
            },
        };
        proof {
            lemma_value_view(*self);
            lemma_value_view(copy);
        }
        copy
    }
}

proof fn lemma_same_fields(a: Seq<(String, Value)>, b: Seq<(String, Value)>)
    requires
        a.len() == b.len(),
        forall|i: int| 0 <= i < a.len() ==> (#[trigger] a[i]).0@ == b[i].0@ && a[i].1@ == b[i].1@,
    ensures
        fields_of(a) == fields_of(b),
        distinct_fields(b) ==> distinct_fields(a),
    decreases a.len(),
{
    if a.len() > 0 {
        assert forall|i: int| 0 <= i < a.drop_last().len() implies (
        #[trigger] a.drop_last()[i]).0@ == b.drop_last()[i].0@ && a.drop_last()[i].1@
            == b.drop_last()[i].1@ by {
            assert(a[i].0@ == b[i].0@);
        }
        lemma_same_fields(a.drop_last(), b.drop_last());
        assert(a[a.len() - 1].0@ == b[b.len() - 1].0@);
    }
    if distinct_fields(b) {
        assert forall|i: int, j: int| 0 <= i < j < a.len() implies (#[trigger] a[i]).0@ != (
        #[trigger] a[j]).0@ by {
            assert(b[i].0@ != b[j].0@);
        }
    }
}

impl Value {
    /// A text.
    pub fn text(s: &str) -> (value: Value)
        ensures
            value@ == Json::String(s@),
    {
        Value::String(s.to_string())
    }

    /// A truth value.
    pub fn boolean(b: bool) -> (value: Value)
        ensures
            value@ == Json::Bool(b),
    {
        Value::Bool(b)
    }

    /// An object.
    pub fn object(record: Record) -> (value: Value)
        ensures
            value@ == Json::Object(record@),
    {
        Value::Object(record)
    }

    /// An array.
    pub fn array(items: Vec<Value>) -> (value: Value)
        ensures
            value@ == Json::Array(values(items@)),
    {
        proof {
            lemma_value_view(Value::Array(items));
        }
        Value::Array(items)
    }

    /// An integer.
    pub fn integer(n: i64) -> (value: Value)
        ensures
            value@ == Json::Number(integer_number(n)),
    {
        if n < 0 {
            Value::Number(Number::Negative(n))
        } else {
            Value::Number(Number::Unsigned(n as u64))
        }
    }

    pub fn is_null(&self) -> (null: bool)
        ensures
            null == (self@ is Null),
    {
        proof {
            lemma_value_view(*self);
        }
        match self {
            Value::Null => true,
            _ => false,
        }
    }

    pub fn as_str(&self) -> (text: Option<&str>)
        ensures
            match text {
                Some(s) => self@ == Json::String(s@),
                None => !(self@ is String),
            },
    {
        proof {
            lemma_value_view(*self);
        }
        match self {
            Value::String(s) => Some(s.as_str()),
            _ => None,
        }
    }

    pub fn as_u64(&self) -> (number: Option<u64>)
        ensures
            number == unsigned_in(self@),
    {
        proof {
            lemma_value_view(*self);
        }
        match self {
            Value::Number(Number::Unsigned(n)) => Some(*n),
            _ => None,
        }
    }

    pub fn as_i64(&self) -> (number: Option<i64>)
        ensures
            number == integer_in(self@),
    {
        proof {
            lemma_value_view(*self);
        }
        match self {
            Value::Number(Number::Unsigned(n)) => if *n <= i64::MAX as u64 {
                Some(*n as i64)
            } else {
                None
            },
            Value::Number(Number::Negative(n)) => Some(*n),
            _ => None,
        }
    }

    pub fn as_object(&self) -> (record: Option<&Record>)
        ensures
            match record {
                Some(r) => self@ == Json::Object(r@),
                None => !(self@ is Object),
            },
    {
        proof {
            lemma_value_view(*self);
        }
        match self {
            Value::Object(record) => Some(record),
            _ => None,
        }
    }

    pub fn into_object(self) -> (record: Option<Record>)
        ensures
            match record {
                Some(r) => self@ == Json::Object(r@),
                None => !(self@ is Object),
            },
    {
        proof {
            lemma_value_view(self);
        }
        match self {
            Value::Object(record) => Some(record),
            _ => None,
        }
    }

    pub fn as_array(&self) -> (items: Option<&Vec<Value>>)
        ensures
            match items {
                Some(v) => self@ == Json::Array(values(v@)),
                None => !(self@ is Array),
            },
    {
        proof {
            lemma_value_view(*self);
        }
        match self {
            Value::Array(items) => Some(items),
            _ => None,
        }
    }

    /// The field of an object.
    pub fn get(&self, key: &str) -> (value: Option<&Value>)
        ensures
            match value {
                Some(v) => field_of(self@, key@) == Some(v@),
                None => field_of(self@, key@) is None,
            },
    {
        match self.as_object() {
            Some(record) => record.get(key),
            None => None,
        }
    }
}

/// How an integer is represented.
pub open spec fn integer_number(n: i64) -> Number {
    if n < 0 {
        Number::Negative(n)
    } else {
        Number::Unsigned(n as u64)
    }
}

/// The unsigned integer that a value is.
pub open spec fn unsigned_in(value: Json) -> Option<u64> {
    match value {
        Json::Number(Number::Unsigned(n)) => Some(n),
        _ => None,
    }
}

/// The signed integer that a value is.
pub open spec fn integer_in(value: Json) -> Option<i64> {
    match value {
        Json::Number(Number::Unsigned(n)) => if n <= i64::MAX {
            Some(n as i64)
        } else {
            None
        },
        Json::Number(Number::Negative(n)) => Some(n),
        _ => None,
    }
}

/// The field of an object.
pub open spec fn field_of(value: Json, key: Seq<char>) -> Option<Json> {
    match value {
        Json::Object(fields) => field_in(fields, key),
        _ => None,
    }
}

/// A field.
pub open spec fn field_in(fields: Map<Seq<char>, Json>, key: Seq<char>) -> Option<Json> {
    if fields.contains_key(key) {
        Some(fields[key])
    } else {
        None
    }
}

/// A field, if it is a text.
pub open spec fn text_in(fields: Map<Seq<char>, Json>, key: Seq<char>) -> Option<Seq<char>> {
    match field_in(fields, key) {
        Some(Json::String(s)) => Some(s),
        _ => None,
    }
}

/// The fields that are not null.
pub open spec fn without_nulls(fields: Map<Seq<char>, Json>) -> Map<Seq<char>, Json> {
    Map::new(|k: Seq<char>| fields.contains_key(k) && !(fields[k] is Null), |k: Seq<char>| fields[k])
}

impl Clone for Record {
    fn clone(&self) -> (copy: Self)
        ensures
            copy@ == self@,
    {
        let mut out: Vec<(String, Value)> = Vec::new();
        let mut i: usize = 0;
        proof {
            use_type_invariant(self);
        }
        while i < self.fields.len()
            invariant
                i <= self.fields@.len(),
                out@.len() == i,
                distinct_fields(self.fields@),
                forall|j: int|
                    0 <= j < i ==> (#[trigger] out@[j]).0@ == self.fields@[j].0@ && out@[j].1@
                        == self.fields@[j].1@,
            decreases self.fields@.len() - i,
        {
            out.push((self.fields[i].0.clone(), self.fields[i].1.clone()));
            i = i + 1;
        }
        proof {
            lemma_same_fields(out@, self.fields@);
        }
        Record { fields: out }
    }
}

impl Record {
    #[verifier::type_invariant]
    spec fn keys_distinct(self) -> bool {
        distinct_fields(self.fields@)
    }

    /// The record without fields.
    #[must_use]
    pub fn new() -> (record: Self)
        ensures
            record@ == Map::<Seq<char>, Json>::empty(),
    {
        Record { fields: Vec::new() }
    }

    /// The fields in the order in which [`Record::at`] gives them.
    pub closed spec fn listing(self) -> Seq<(String, Value)> {
        self.fields@
    }

    /// How many fields there are.
    pub fn len(&self) -> (len: usize)
        ensures
            len == self.listing().len(),
    {
        self.fields.len()
    }

    /// The field at a position.
    pub fn at(&self, i: usize) -> (field: (&String, &Value))
        requires
            i < self.listing().len(),
        ensures
            *field.0 == self.listing()[i as int].0,
            *field.1 == self.listing()[i as int].1,
            self@.contains_key(field.0@),
            self@[field.0@] == field.1@,
    {
        proof {
            use_type_invariant(self);
            lemma_fields_of(self.fields@);
        }
        (&self.fields[i].0, &self.fields[i].1)
    }

    fn position(&self, key: &str) -> (found: Option<usize>)
        ensures
            match found {
                Some(i) => i < self.fields@.len() && self.fields@[i as int].0@ == key@,
                None => forall|j: int|
                    0 <= j < self.fields@.len() ==> (#[trigger] self.fields@[j]).0@ != key@,
            },
    {
        let mut i: usize = 0;
        while i < self.fields.len()
            invariant
                i <= self.fields@.len(),
                forall|j: int| 0 <= j < i ==> (#[trigger] self.fields@[j]).0@ != key@,
            decreases self.fields@.len() - i,
        {
            if same_text(self.fields[i].0.as_str(), key) {
                return Some(i);
            }
            i = i + 1;
        }
        None
    }

    /// The value of a field.
    pub fn get(&self, key: &str) -> (value: Option<&Value>)
        ensures
            match value {
                Some(v) => field_in(self@, key@) == Some(v@),
                None => field_in(self@, key@) is None,
            },
    {
        proof {
            use_type_invariant(self);
            lemma_fields_of(self.fields@);
        }
        match self.position(key) {
            Some(i) => Some(&self.fields[i].1),
            None => None,
        }
    }

    /// The value of a field, if it is a text.
    pub fn get_str(&self, key: &str) -> (text: Option<&str>)
        ensures
            match text {
                Some(s) => text_in(self@, key@) == Some(s@),
                None => text_in(self@, key@) is None,
            },
    {
        match self.get(key) {
            Some(value) => value.as_str(),
            None => None,
        }
    }

    pub fn contains_key(&self, key: &str) -> (found: bool)
        ensures
            found == self@.contains_key(key@),
    {
        self.get(key).is_some()
    }

    /// Takes a field out.
    pub fn remove(&mut self, key: &str) -> (taken: Option<Value>)
        ensures
            final(self)@ == old(self)@.remove(key@),
            match taken {
                Some(v) => field_in(old(self)@, key@) == Some(v@),
                None => field_in(old(self)@, key@) is None,
            },
    {
        proof {
            use_type_invariant(&*self);
            lemma_fields_of(self.fields@);
        }
        match self.position(key) {
            None => {
                assert(self@ =~= old(self)@.remove(key@));
                None
            },
            Some(at) => {
                let mut fields: Vec<(String, Value)> = Vec::new();
                std::mem::swap(&mut fields, &mut self.fields);
                let (_, value) = fields.remove(at);
                proof {
                    lemma_remove_field(old(self).fields@, at as int);
                }
                self.fields = fields;
                Some(value)
            },
        }
    }

    /// Puts a field in, in place of the one of that name.
    pub fn insert(&mut self, key: String, value: Value)
        ensures
            final(self)@ == old(self)@.insert(key@, value@),
    {
        let ghost start = self@;
        let _ = self.remove(key.as_str());
        proof {
            use_type_invariant(&*self);
            lemma_fields_of(self.fields@);
        }
        let ghost cleared = self@;
        let mut fields: Vec<(String, Value)> = Vec::new();
        std::mem::swap(&mut fields, &mut self.fields);
        let ghost before = fields@;
        fields.push((key, value));
        proof {
            let after = fields@;
            assert forall|i: int, j: int| 0 <= i < j < after.len() implies (
            #[trigger] after[i]).0@ != (#[trigger] after[j]).0@ by {
                assert(after[i] == before[i]);
                if j < before.len() {
                    assert(after[j] == before[j]);
                } else {
                    assert(fields_of(before).contains_key(before[i].0@));
                }
            }
            assert(after.drop_last() =~= before);
            assert(fields_of(after) =~= start.insert(key@, value@));
        }
        self.fields = fields;
    }

    /// Drops the fields that are null.
    pub fn strip_nulls(&mut self)
        ensures
            final(self)@ == without_nulls(old(self)@),
    {
        let mut kept = Record::new();
        let mut i: usize = 0;
        let ghost start = self.fields@;
        proof {
            use_type_invariant(&*self);
            lemma_fields_of(start);
        }
        while i < self.fields.len()
            invariant
                i <= self.fields@.len(),
                self.fields@ == start,
                distinct_fields(start),
                forall|j: int|
                    0 <= j < start.len() ==> fields_of(start).contains_key(
                        (#[trigger] start[j]).0@,
                    ) && fields_of(start)[start[j].0@] == start[j].1@,
                forall|k: Seq<char>| #[trigger]
                    kept@.contains_key(k) ==> fields_of(start).contains_key(k) && kept@[k]
                        == fields_of(start)[k] && !(kept@[k] is Null),
                forall|j: int|
                    0 <= j < i && !((#[trigger] start[j]).1@ is Null) ==> kept@.contains_key(
                        start[j].0@,
                    ),
            decreases start.len() - i,
        {
            let value = &self.fields[i].1;
            if !value.is_null() {
                kept.insert(self.fields[i].0.clone(), value.clone());
            }
            i = i + 1;
        }
        proof {
            assert forall|k: Seq<char>| kept@.contains_key(k) == #[trigger] without_nulls(
                fields_of(start),
            ).contains_key(k) by {
                if without_nulls(fields_of(start)).contains_key(k) {
                    let j = choose|j: int| 0 <= j < start.len() && (#[trigger] start[j]).0@ == k;
                    assert(kept@.contains_key(start[j].0@));
                }
            }
            assert(kept@ =~= without_nulls(fields_of(start)));
        }
        *self = kept;
    }
}

proof fn lemma_remove_field(before: Seq<(String, Value)>, at: int)
    requires
        distinct_fields(before),
        0 <= at < before.len(),
    ensures
        distinct_fields(before.remove(at)),
        fields_of(before.remove(at)) == fields_of(before).remove(before[at].0@),
{
    let after = before.remove(at);
    let key = before[at].0@;
    assert forall|i: int, j: int| 0 <= i < j < after.len() implies (#[trigger] after[i]).0@ != (
    #[trigger] after[j]).0@ by {
        let p = if i < at { i } else { i + 1 };
        let q = if j < at { j } else { j + 1 };
        assert(after[i] == before[p] && after[j] == before[q]);
    }
    lemma_fields_of(before);
    lemma_fields_of(after);
    assert forall|k: Seq<char>|
        #[trigger] fields_of(after).contains_key(k) == fields_of(before).remove(key).contains_key(
            k,
        ) by {
        if fields_of(after).contains_key(k) {
            let i = choose|i: int| 0 <= i < after.len() && (#[trigger] after[i]).0@ == k;
            let p = if i < at { i } else { i + 1 };
            assert(after[i] == before[p]);
            assert(before[p].0@ != before[at].0@);
        }
        if fields_of(before).contains_key(k) && k != key {
            let p = choose|p: int| 0 <= p < before.len() && (#[trigger] before[p]).0@ == k;
            let i = if p < at { p } else { p - 1 };
            assert(after[i] == before[p]);
        }
    }
    assert forall|k: Seq<char>| #[trigger] fields_of(after).contains_key(k) implies fields_of(
        after,
    )[k] == fields_of(before)[k] by {
        let i = choose|i: int| 0 <= i < after.len() && (#[trigger] after[i]).0@ == k;
        let p = if i < at { i } else { i + 1 };
        assert(after[i] == before[p]);
    }
    assert(fields_of(after) =~= fields_of(before).remove(key));
}

/// The fields of `base` with those of `added` put over them.
pub open spec fn overlaid(
    base: Map<Seq<char>, Json>,
    added: Map<Seq<char>, Json>,
) -> Map<Seq<char>, Json> {
    base.union_prefer_right(added)
}

/// Merges fields into what a record was before: the fields become the new
/// record if there was no object.
pub fn merge_fields(existing: Option<Value>, fields: Record) -> (merged: Record)
    ensures
        merged@ == overlaid(
            match existing {
                Some(value) => match value@ {
                    Json::Object(before) => before,
                    _ => Map::empty(),
                },
                None => Map::empty(),
            },
            fields@,
        ),
{
    let mut merged = match existing {
        Some(value) => match value.into_object() {
            Some(record) => record,
            None => Record::new(),
        },
        None => Record::new(),
    };
    let ghost base = merged@;
    let count = fields.len();
    let mut i: usize = 0;
    proof {
        use_type_invariant(&fields);
        lemma_fields_of(fields.fields@);
    }
    let ghost listing = fields.fields@;
    while i < count
        invariant
            i <= count,
            count == listing.len(),
            listing == fields.listing(),
            forall|j: int|
                0 <= j < listing.len() ==> fields@.contains_key((#[trigger] listing[j]).0@)
                    && fields@[listing[j].0@] == listing[j].1@,
            forall|k: Seq<char>|
                #![trigger merged@.contains_key(k)]
                merged@.contains_key(k) ==> base.contains_key(k) || fields@.contains_key(k),
            forall|k: Seq<char>|
                #![trigger merged@.contains_key(k)]
                base.contains_key(k) ==> merged@.contains_key(k),
            forall|k: Seq<char>|
                #![trigger merged@[k]]
                merged@.contains_key(k) && !fields@.contains_key(k) ==> merged@[k] == base[k],
            forall|j: int|
                0 <= j < i ==> merged@.contains_key((#[trigger] listing[j]).0@)
                    && merged@[listing[j].0@] == listing[j].1@,
        decreases count - i,
    {
        let (key, value) = fields.at(i);
        let ghost before = merged@;
        merged.insert(key.clone(), value.clone());
        proof {
            assert forall|j: int| 0 <= j < i + 1 implies merged@.contains_key(
                (#[trigger] listing[j]).0@,
            ) && merged@[listing[j].0@] == listing[j].1@ by {
                if j < i {
                    assert(before.contains_key(listing[j].0@));
                    assert(fields@[listing[j].0@] == listing[j].1@);
                    assert(fields@[listing[i as int].0@] == listing[i as int].1@);
                }
            }
        }
        i = i + 1;
    }
    proof {
        let target = overlaid(base, fields@);
        assert forall|k: Seq<char>| #[trigger] merged@.contains_key(k) == target.contains_key(k) by {
            if fields@.contains_key(k) {
                let j = choose|j: int| 0 <= j < listing.len() && (#[trigger] listing[j]).0@ == k;
                assert(merged@.contains_key(listing[j].0@));
            }
        }
        assert forall|k: Seq<char>| #[trigger] merged@.contains_key(k) implies merged@[k]
            == target[k] by {
            if fields@.contains_key(k) {
                let j = choose|j: int| 0 <= j < listing.len() && (#[trigger] listing[j]).0@ == k;
                assert(merged@[listing[j].0@] == listing[j].1@);
            }
        }
        assert(merged@ =~= target);
    }
    merged
}

/// A value gives back what it was made of, and nothing of another kind.
pub proof fn values_give_back_their_content(
    text: &str,
    of_text: Value,
    number: i64,
    of_number: Value,
    record: Record,
    of_record: Value,
    items: Vec<Value>,
    of_items: Value,
    read_text: Option<&str>,
    read_signed: Option<i64>,
    read_unsigned: Option<u64>,
    read_record: Option<&Record>,
    taken_record: Option<Record>,
    read_items: Option<&Vec<Value>>,
)
    requires
        call_ensures(Value::text, (text,), of_text),
        call_ensures(Value::as_str, (&of_text,), read_text),
        call_ensures(Value::integer, (number,), of_number),
        call_ensures(Value::as_i64, (&of_number,), read_signed),
        call_ensures(Value::as_u64, (&of_number,), read_unsigned),
        call_ensures(Value::object, (record,), of_record),
        call_ensures(Value::as_object, (&of_record,), read_record),
        call_ensures(Value::into_object, (of_record,), taken_record),
        call_ensures(Value::array, (items,), of_items),
        call_ensures(Value::as_array, (&of_items,), read_items),
    ensures
        read_text matches Some(t) && t@ == text@,
        read_signed == Some(number),
        number >= 0 ==> (read_unsigned matches Some(n) && n == number),
        number < 0 ==> read_unsigned is None,
        read_record matches Some(r) && r@ == record@,
        taken_record matches Some(r) && r@ == record@,
        read_items matches Some(v) && v@.len() == items@.len(),
        forall|i: int|
            0 <= i < items@.len() ==> (#[trigger] read_items->Some_0@[i])@ == items@[i]@,
{
    assert(values(read_items->Some_0@) == values(items@));
    assert(values(read_items->Some_0@).len() == read_items->Some_0@.len());
    assert forall|i: int| 0 <= i < items@.len() implies (#[trigger] read_items->Some_0@[i])@
        == items@[i]@ by {
        assert(values(read_items->Some_0@)[i] == values(items@)[i]);
    }
}

/// Reading a value of one kind as another gives nothing; only null is null.
pub proof fn values_are_of_one_kind(
    value: Value,
    null: bool,
    text: Option<&str>,
    unsigned: Option<u64>,
    signed: Option<i64>,
    record: Option<&Record>,
    items: Option<&Vec<Value>>,
)
    requires
        call_ensures(Value::is_null, (&value,), null),
        call_ensures(Value::as_str, (&value,), text),
        call_ensures(Value::as_u64, (&value,), unsigned),
        call_ensures(Value::as_i64, (&value,), signed),
        call_ensures(Value::as_object, (&value,), record),
        call_ensures(Value::as_array, (&value,), items),
    ensures
        null <==> value is Null,
        text is Some <==> value is String,
        record is Some <==> value is Object,
        items is Some <==> value is Array,
        value matches Value::String(s) ==> text->Some_0@ == s@,
        value matches Value::Object(r) ==> record->Some_0@ == r@,
        unsigned is Some <==> (value matches Value::Number(Number::Unsigned(_))),
        value matches Value::Number(Number::Unsigned(n)) ==> unsigned == Some(n) && (signed is Some
            <==> n <= i64::MAX) && (signed matches Some(m) ==> m == n),
        value matches Value::Number(Number::Negative(n)) ==> signed == Some(n),
        value matches Value::Number(Number::Real(_)) ==> signed is None,
        !(value is Number) ==> signed is None,
{
    lemma_value_view(value);
}

/// A record is a map from names to values: after a field is set it reads as set, after
/// it is removed it is gone and was handed out, and the other fields stay.
pub proof fn fields_read_as_set(
    setting: &mut Record,
    key: String,
    value: Value,
    set: &Record,
    asked: &str,
    read: Option<&Value>,
    removing: &mut Record,
    taken: Option<Value>,
    left: &Record,
    read_left: Option<&Value>,
    found: bool,
)
    requires
        call_ensures(Record::insert, (setting, key, value), ()),
        *set == *final(setting),
        call_ensures(Record::get, (set, asked), read),
        *old(removing) == *final(setting),
        call_ensures(Record::remove, (removing, asked), taken),
        *left == *final(removing),
        call_ensures(Record::get, (left, asked), read_left),
        call_ensures(Record::contains_key, (left, asked), found),
    ensures
        asked@ == key@ ==> (read matches Some(v) && v@ == value@),
        asked@ != key@ ==> match read {
            Some(v) => old(setting)@.contains_key(asked@) && old(setting)@[asked@] == v@,
            None => !old(setting)@.contains_key(asked@),
        },
        read is Some <==> taken is Some,
        read is Some ==> taken->Some_0@ == read->Some_0@,
        read_left is None,
        !found,
        forall|other: Seq<char>|
            other != asked@ ==> (#[trigger] final(removing)@.contains_key(other) <==> old(removing)@.contains_key(other)) && (old(removing)@.contains_key(other) ==> final(removing)@[other] == old(removing)@[other]),
{
}

/// Reading a field as text gives the text that it holds.
pub proof fn text_fields_read_as_text(record: &Record, key: &str, text: Option<&str>, field: Option<&Value>)
    requires
        call_ensures(Record::get_str, (record, key), text),
        call_ensures(Record::get, (record, key), field),
    ensures
        match text {
            Some(t) => field is Some && field->Some_0@ == Json::String(t@),
            None => field is None || !(field->Some_0@ is String),
        },
{
}

/// Stripping takes away the nulls and nothing else.
pub proof fn stripping_takes_only_nulls(
    stripping: &mut Record,
    stripped: &Record,
    key: &str,
    read: Option<&Value>,
)
    requires
        call_ensures(Record::strip_nulls, (stripping,), ()),
        *stripped == *final(stripping),
        call_ensures(Record::get, (stripped, key), read),
    ensures
        read is Some <==> old(stripping)@.contains_key(key@) && !(old(stripping)@[key@] is Null),
        read matches Some(v) ==> v@ == old(stripping)@[key@],
{
}

/// Merging keeps what was there and puts the new fields over it.
pub proof fn merging_puts_new_fields_over_old(
    existing: Record,
    fields: Record,
    merged: Record,
    key: &str,
    read: Option<&Value>,
)
    requires
        call_ensures(merge_fields, (Some(Value::Object(existing)), fields), merged),
        call_ensures(Record::get, (&merged, key), read),
    ensures
        fields@.contains_key(key@) ==> (read matches Some(v) && v@ == fields@[key@]),
        !fields@.contains_key(key@) && existing@.contains_key(key@) ==> (read matches Some(v) && v@
            == existing@[key@]),
        !fields@.contains_key(key@) && !existing@.contains_key(key@) ==> read is None,
{
    lemma_value_view(Value::Object(existing));
}

/// Merging over nothing, or over a value that is no object, leaves the new fields.
pub proof fn merging_over_nothing_leaves_the_fields(
    existing: Option<Value>,
    fields: Record,
    merged: Record,
)
    requires
        !(existing matches Some(Value::Object(_))),
        call_ensures(merge_fields, (existing, fields), merged),
    ensures
        merged@ == fields@,
{
    if let Some(value) = existing {
        lemma_value_view(value);
    }
}

/// An object gives its fields by name, other values have none; a new record is empty.
pub proof fn objects_give_their_fields(
    value: Value,
    key: &str,
    found: Option<&Value>,
    record: &Record,
    field: Option<&Value>,
    fresh: Record,
    nothing: Option<&Value>,
    flag: bool,
    of_flag: Value,
)
    requires
        call_ensures(Value::get, (&value, key), found),
        call_ensures(Record::get, (record, key), field),
        call_ensures(Record::new, (), fresh),
        call_ensures(Record::get, (&fresh, key), nothing),
        call_ensures(Value::boolean, (flag,), of_flag),
    ensures
        !(value is Object) ==> found is None,
        value == Value::Object(*record) ==> {
            &&& found is Some <==> field is Some
            &&& found is Some ==> found->Some_0@ == field->Some_0@
        },
        nothing is None,
        of_flag@ == Json::Bool(flag),
{
    lemma_value_view(value);
}

/// The fields of a record can be gone through by number; each is the record's own.
pub proof fn fields_can_be_gone_through(
    record: &Record,
    len: usize,
    i: usize,
    field: (&String, &Value),
    key: &str,
    read: Option<&Value>,
)
    requires
        call_ensures(Record::len, (record,), len),
        i < len,
        call_ensures(Record::at, (record, i), field),
        key@ == field.0@,
        call_ensures(Record::get, (record, key), read),
    ensures
        read matches Some(value) && value@ == field.1@,
{
}

} // verus!
