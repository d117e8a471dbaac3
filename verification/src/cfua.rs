//! The document: an ordered list of `(key, value)` pairs.
use vstd::prelude::*;
use crate::array::ToCfuaArray;
use crate::float::CfuaFloat;

verus! {

/// What a value is: the mathematical model of [`CfuaType`].
pub enum Value {
    Integer(i64),
    /// A float, as the token that writes it.
    Float(Seq<char>),
    Text(Seq<char>),
    Bool(bool),
    Array(Seq<Value>),
    /// A section marker; the section's name is the key of the pair.
    Section,
}

/// A pair of a document: the key and the value.
pub type Entry = (Seq<char>, Value);

/// A value of a document. Two values are equal where their models are.
#[derive(Debug)]
pub enum CfuaType {
    Integer(i64),
    Float(CfuaFloat),
    String(String),
    Bool(bool),
    Array(Vec<CfuaType>),
    /// A section, as written with `@`. The section's name is the key of the
    /// pair.
    Section(()),
}

/// The model of `value`.
pub open spec fn value_of(value: CfuaType) -> Value
    decreases value,
{
    match value {
        CfuaType::Integer(i) => Value::Integer(i),
        CfuaType::Float(f) => Value::Float(f@),
        CfuaType::String(s) => Value::Text(s@),
        CfuaType::Bool(b) => Value::Bool(b),
        CfuaType::Array(items) => Value::Array(
            Seq::new(
                items@.len(),
                |i: int|
                    if 0 <= i < items@.len() {
                        value_of(items@[i])
                    } else {
                        Value::Section
                    },
            ),
        ),
        CfuaType::Section(_) => Value::Section,
    }
}

impl View for CfuaType {
    type V = Value;

    open spec fn view(&self) -> Value {
        value_of(*self)
    }
}

/// The models of the values of `items`, in order.
pub open spec fn values_of(items: Seq<CfuaType>) -> Seq<Value> {
    Seq::new(items.len(), |i: int| items[i]@)
}

/// The model of an array is the sequence of the models of its elements.
pub proof fn lemma_array_view(items: Vec<CfuaType>)
    ensures
        CfuaType::Array(items)@ == Value::Array(values_of(items@)),
{
    let a = CfuaType::Array(items);
    let left = a@->Array_0;
    assert forall|i: int| 0 <= i < left.len() implies left[i] == values_of(items@)[i] by {
        assert(items[i] == items@[i]);
    }
    assert(left =~= values_of(items@));
}

/// A copy of `items`, element by element.
pub fn clone_values(items: &Vec<CfuaType>) -> (r: Vec<CfuaType>)
    ensures
        values_of(r@) == values_of(items@),
{
    let mut out: Vec<CfuaType> = Vec::new();
    let mut i: usize = 0;
    while i < items.len()
        invariant
            i <= items.len(),
            out@.len() == i,
            forall|j: int| 0 <= j < i ==> out@[j]@ == items@[j]@,
        decreases items.len() - i,
    {
        let e = items[i].clone();
        out.push(e);
        i += 1;
    }
    out
}

impl PartialEq for CfuaType {
    fn eq(&self, other: &Self) -> (r: bool)
        decreases self,
    {
        match self {
            CfuaType::Integer(a) => match other {
                CfuaType::Integer(b) => *a == *b,
                _ => false,
            },
            CfuaType::Float(a) => match other {
                CfuaType::Float(b) => *a == *b,
                _ => false,
            },
            CfuaType::String(a) => match other {
                CfuaType::String(b) => *a == *b,
                _ => false,
            },
            CfuaType::Bool(a) => match other {
                CfuaType::Bool(b) => *a == *b,
                _ => false,
            },
            CfuaType::Array(a) => match other {
                CfuaType::Array(b) => {
                    proof {
                        lemma_array_view(*a);
                        lemma_array_view(*b);
                    }
                    if a.len() != b.len() {
                        assert(values_of(a@).len() != values_of(b@).len());
                        return false;
                    }
                    let mut i: usize = 0;
                    while i < a.len()
                        invariant
                            *self == CfuaType::Array(*a),
                            self@ == Value::Array(values_of(a@)),
                            other@ == Value::Array(values_of(b@)),
                            a.len() == b.len(),
                            i <= a.len(),
                            forall|j: int| 0 <= j < i ==> a@[j]@ == b@[j]@,
                        decreases a.len() - i,
                    {
                        proof {
                            vstd::std_specs::vec::axiom_vec_index_decreases(*a, i as int);
                        }
                        if !(a[i] == b[i]) {
                            assert(values_of(a@)[i as int] != values_of(b@)[i as int]);
                            return false;
                        }
                        i += 1;
                    }
                    assert(values_of(a@) =~= values_of(b@));
                    true
                },
                _ => false,
            },
            CfuaType::Section(_) => match other {
                CfuaType::Section(_) => true,
                _ => false,
            },
        }
    }
}

impl vstd::std_specs::cmp::PartialEqSpecImpl for CfuaType {
    open spec fn obeys_eq_spec() -> bool {
        true
    }

    open spec fn eq_spec(&self, other: &Self) -> bool {
        self@ == other@
    }
}

impl Clone for CfuaType {
    fn clone(&self) -> (r: Self)
        ensures
            r@ == self@,
        decreases self,
    {
        match self {
            CfuaType::Integer(i) => CfuaType::Integer(*i),
            CfuaType::Float(f) => CfuaType::Float(f.clone()),
            CfuaType::String(s) => CfuaType::String(s.clone()),
            CfuaType::Bool(b) => CfuaType::Bool(*b),
            CfuaType::Array(v) => {
                let mut out: Vec<CfuaType> = Vec::new();
                let mut i: usize = 0;
                while i < v.len()
                    invariant
                        *self == CfuaType::Array(*v),
                        i <= v.len(),
                        out@.len() == i,
                        forall|j: int| 0 <= j < i ==> out@[j]@ == v@[j]@,
                    decreases v.len() - i,
                {
                    proof {
                        vstd::std_specs::vec::axiom_vec_index_decreases(*v, i as int);
                        assert(decreases_to!(*self => self->Array_0));
                    }
                    let e = v[i].clone();
                    out.push(e);
                    i += 1;
                }
                proof {
                    lemma_array_view(out);
                    lemma_array_view(*v);
                    assert(values_of(out@) =~= values_of(v@));
                }
                CfuaType::Array(out)
            },
            CfuaType::Section(_) => CfuaType::Section(()),
        }
    }
}

/// The pairs that `data` holds, as models.
pub open spec fn entries_of(data: Seq<(String, CfuaType)>) -> Seq<Entry> {
    Seq::new(data.len(), |i: int| (data[i].0@, data[i].1@))
}

/// The value of the first pair of `entries` whose key is `key`.
pub open spec fn first_value(entries: Seq<Entry>, key: Seq<char>) -> Option<Value>
    decreases entries.len(),
{
    if entries.len() == 0 {
        None
    } else if entries[0].0 == key {
        Some(entries[0].1)
    } else {
        first_value(entries.skip(1), key)
    }
}

/// A lookup takes the first pair of the key: a pair that is appended is
/// found only under a key that no earlier pair has.
pub proof fn lemma_first_value_push(entries: Seq<Entry>, entry: Entry, key: Seq<char>)
    ensures
        first_value(entries.push(entry), key) == match first_value(entries, key) {
            Some(v) => Some(v),
            None => if entry.0 == key {
                Some(entry.1)
            } else {
                None
            },
        },
    decreases entries.len(),
{
    let more = entries.push(entry);
    if entries.len() == 0 {
        assert(more[0] == entry);
    } else {
        assert(more.skip(1) =~= entries.skip(1).push(entry));
        lemma_first_value_push(entries.skip(1), entry, key);
    }
}

/// A document: pairs of a key and a value, in the order in which they were
/// appended. A key may occur more than once.
///
/// A document is made empty with [`Cfua::create`] and filled with the
/// `write_` methods, or scanned from text with `Cfua::from_string`;
/// `Cfua::to_string` writes it as text.
///
/// Two documents are equal where they hold the same pairs in the same
/// order.
#[derive(Debug)]
pub struct Cfua {
    data: Vec<(String, CfuaType)>,
}

impl View for Cfua {
    type V = Seq<Entry>;

    closed spec fn view(&self) -> Seq<Entry> {
        entries_of(self.data@)
    }
}

impl PartialEq for Cfua {
    fn eq(&self, other: &Self) -> (r: bool) {
        if self.data.len() != other.data.len() {
            assert(self@.len() != other@.len());
            return false;
        }
        let mut i: usize = 0;
        while i < self.data.len()
            invariant
                self.data.len() == other.data.len(),
                i <= self.data.len(),
                forall|j: int| 0 <= j < i ==> self@[j] == other@[j],
            decreases self.data.len() - i,
        {
            if !(self.data[i].0 == other.data[i].0) || !(self.data[i].1 == other.data[i].1) {
                assert(self@[i as int] != other@[i as int]);
                return false;
            }
            i += 1;
        }
        assert(self@ =~= other@);
        true
    }
}

impl vstd::std_specs::cmp::PartialEqSpecImpl for Cfua {
    open spec fn obeys_eq_spec() -> bool {
        true
    }

    open spec fn eq_spec(&self, other: &Self) -> bool {
        self@ == other@
    }
}

impl Clone for Cfua {
    fn clone(&self) -> (r: Self)
        ensures
            r@ == self@,
    {
        Cfua { data: self.get_all() }
    }
}

impl Cfua {
    /// An empty document.
    pub fn create() -> (r: Self)
        ensures
            r@ == Seq::<Entry>::empty(),
    {
        let r = Cfua { data: Vec::new() };
        r
    }

    /// Appends the pair `(key, value)`.
    pub(crate) fn write_value(&mut self, key: &str, value: CfuaType)
        ensures
            final(self)@ == old(self)@.push((key@, value@)),
    {
        self.data.push((key.to_owned(), value));
    }

    /// Appends the integer `value` under `key`.
    pub fn write_integer(&mut self, key: &str, value: i64)
        ensures
            final(self)@ == old(self)@.push((key@, Value::Integer(value))),
    {
        self.write_value(key, CfuaType::Integer(value));
    }

    /// Appends the float `value` under `key`.
    pub fn write_float(&mut self, key: &str, value: CfuaFloat)
        ensures
            final(self)@ == old(self)@.push((key@, Value::Float(value@))),
    {
        self.write_value(key, CfuaType::Float(value));
    }

    /// Appends the string `value` under `key`.
    pub fn write_string(&mut self, key: &str, value: &str)
        ensures
            final(self)@ == old(self)@.push((key@, Value::Text(value@))),
    {
        self.write_value(key, CfuaType::String(value.to_owned()));
    }

    /// Appends the boolean `value` under `key`.
    pub fn write_bool(&mut self, key: &str, value: bool)
        ensures
            final(self)@ == old(self)@.push((key@, Value::Bool(value))),
    {
        self.write_value(key, CfuaType::Bool(value));
    }

    /// Appends the marker of the section `key` (`@key`).
    pub fn write_section(&mut self, key: &str)
        ensures
            final(self)@ == old(self)@.push((key@, Value::Section)),
    {
        self.write_value(key, CfuaType::Section(()));
    }

    /// Appends the array `value` under `key`. The array comes from a
    /// builder such as `CfuaIntegerArray`, or is a vector of values.
    pub fn write_array<F: ToCfuaArray>(&mut self, key: &str, value: F)
        ensures
            final(self)@ == old(self)@.push((key@, Value::Array(value.items()))),
    {
        self.write_value(key, value.finish());
    }

    /// The place of the first pair whose key is `key`.
    fn find(&self, key: &str) -> (r: Option<usize>)
        ensures
            match r {
                Some(i) => i < self.data@.len() && first_value(self@, key@) == Some(self@[i as int].1),
                None => first_value(self@, key@) is None,
            },
    {
        let wanted: String = key.to_owned();
        let mut i: usize = 0;
        assert(self@.skip(0) =~= self@);
        while i < self.data.len()
            invariant
                i <= self.data.len(),
                wanted@ == key@,
                first_value(self@, key@) == first_value(self@.skip(i as int), key@),
            decreases self.data.len() - i,
        {
            let ghost rest = self@.skip(i as int);
            assert(rest.skip(1) =~= self@.skip(i + 1));
            if self.data[i].0 == wanted {
                return Some(i);
            }
            i += 1;
        }
        None
    }

    /// The integer under `key`: the value of the first pair with that key,
    /// if it is an integer.
    pub fn read_integer(&self, key: &str) -> (r: Option<i64>)
        ensures
            r == match first_value(self@, key@) {
                Some(Value::Integer(i)) => Some(i),
                _ => None,
            },
    {
        match self.find(key) {
            Some(i) => match &self.data[i].1 {
                CfuaType::Integer(v) => Some(*v),
                _ => None,
            },
            None => None,
        }
    }

    /// The float under `key`: the value of the first pair with that key, if
    /// it is a float.
    pub fn read_float(&self, key: &str) -> (r: Option<CfuaFloat>)
        ensures
            match first_value(self@, key@) {
                Some(Value::Float(t)) => r matches Some(f) && f@ == t,
                _ => r is None,
            },
    {
        match self.find(key) {
            Some(i) => match &self.data[i].1 {
                CfuaType::Float(f) => Some(f.clone()),
                _ => None,
            },
            None => None,
        }
    }

    /// The string under `key`: the value of the first pair with that key,
    /// if it is a string.
    pub fn read_string(&self, key: &str) -> (r: Option<String>)
        ensures
            match first_value(self@, key@) {
                Some(Value::Text(t)) => r matches Some(s) && s@ == t,
                _ => r is None,
            },
    {
        match self.find(key) {
            Some(i) => match &self.data[i].1 {
                CfuaType::String(s) => Some(s.clone()),
                _ => None,
            },
            None => None,
        }
    }

    /// The boolean under `key`: the value of the first pair with that key,
    /// if it is a boolean.
    pub fn read_bool(&self, key: &str) -> (r: Option<bool>)
        ensures
            r == match first_value(self@, key@) {
                Some(Value::Bool(b)) => Some(b),
                _ => None,
            },
    {
        match self.find(key) {
            Some(i) => match &self.data[i].1 {
                CfuaType::Bool(b) => Some(*b),
                _ => None,
            },
            None => None,
        }
    }

    /// The array under `key`: a copy of the elements of the first pair with
    /// that key, if its value is an array.
    pub fn read_array(&self, key: &str) -> (r: Option<Vec<CfuaType>>)
        ensures
            match first_value(self@, key@) {
                Some(Value::Array(items)) => r matches Some(v) && values_of(v@) == items,
                _ => r is None,
            },
    {
        match self.find(key) {
            Some(i) => match &self.data[i].1 {
                CfuaType::Array(v) => {
                    proof {
                        lemma_array_view(*v);
                    }
                    Some(clone_values(v))
                },
                _ => None,
            },
            None => None,
        }
    }

    /// A copy of all pairs, in the order in which they were appended.
    pub fn get_all(&self) -> (r: Vec<(String, CfuaType)>)
        ensures
            entries_of(r@) == self@,
    {
        let mut out: Vec<(String, CfuaType)> = Vec::new();
        let mut i: usize = 0;
        while i < self.data.len()
            invariant
                i <= self.data.len(),
                out@.len() == i,
                forall|j: int| 0 <= j < i ==> out@[j].0@ == self.data@[j].0@ && out@[j].1@ == self.data@[j].1@,
            decreases self.data.len() - i,
        {
            let key = self.data[i].0.clone();
            let value = self.data[i].1.clone();
            out.push((key, value));
            i += 1;
        }
        out
    }

    /// The key of the pair at place `index`.
    pub(crate) fn key_at(&self, index: usize) -> (r: &String)
        requires
            index < self@.len(),
        ensures
            r@ == self@[index as int].0,
    {
        &self.data[index].0
    }

    /// The value of the pair at place `index`.
    pub(crate) fn value_at(&self, index: usize) -> (r: &CfuaType)
        requires
            index < self@.len(),
        ensures
            r@ == self@[index as int].1,
    {
        &self.data[index].1
    }

    /// The number of pairs.
    pub fn len(&self) -> (r: usize)
        ensures
            r == self@.len(),
    {
        self.data.len()
    }
}

} // verus!
