//! The dynamic value model: the one data type that crosses every plugin
//! boundary.

use crate::entries::{
    distinct_keys, entry_keys, find_entry, first_index, has_key, lemma_first_exists,
    lemma_first_index,
};
use vstd::prelude::*;
use vstd::std_specs::cmp::PartialEqSpecImpl;

verus! {

/// What a [`Value`] denotes: a tagged tree in which a table is a
/// mathematical mapping from names to values, so that neither the order of
/// its entries nor a shadowed entry can be told apart. Two values are equal
/// where they denote the same.
pub enum ValueView {
    Null,
    Bool(bool),
    Integer(i64),
    Float(u64),
    String(Seq<char>),
    Array(Seq<ValueView>),
    Table(Map<Seq<char>, ValueView>),
}

/// A dynamic tagged value.
///
/// `Float` holds the IEEE 754 binary64 bit pattern of the number. `Table` holds
/// its entries as a list; where a name occurs more than once, the first entry
/// with that name is the one the table holds.
#[derive(Debug)]
pub enum Value {
    Null,
    Bool(bool),
    Integer(i64),
    Float(u64),
    String(String),
    Array(Vec<Value>),
    Table(Vec<(String, Value)>),
}

/// What a list of values denotes, item by item.
pub open spec fn array_view(items: Seq<Value>) -> Seq<ValueView> {
    Seq::new(items.len(), |i: int| items[i]@)
}

/// What a list of entries denotes: each name that occurs, bound to the value
/// of the first entry that has it.
pub open spec fn table_view(entries: Seq<(String, Value)>) -> Map<Seq<char>, ValueView> {
    Map::new(
        |key: Seq<char>| has_key(entry_keys(entries), key),
        |key: Seq<char>| entries[first_index(entry_keys(entries), key)].1@,
    )
}

/// What a value denotes.
pub open spec fn value_view(value: Value) -> ValueView
    decreases value,
{
    match value {
        Value::Null => ValueView::Null,
        Value::Bool(b) => ValueView::Bool(b),
        Value::Integer(i) => ValueView::Integer(i),
        Value::Float(bits) => ValueView::Float(bits),
        Value::String(s) => ValueView::String(s@),
        Value::Array(items) => ValueView::Array(
            Seq::new(
                items@.len(),
                |i: int|
                    if 0 <= i < items@.len() {
                        value_view(items@[i])
                    } else {
                        ValueView::Null
                    },
            ),
        ),
        Value::Table(entries) => ValueView::Table(
            Map::new(
                |key: Seq<char>| has_key(entry_keys(entries@), key),
                |key: Seq<char>|
                    {
                        let i = first_index(entry_keys(entries@), key);
                        if 0 <= i < entries@.len() {
                            value_view(entries@[i].1)
                        } else {
                            ValueView::Null
                        }
                    },
            ),
        ),
    }
}

/// A value in which every table binds each name once: no entry of a table
/// is shadowed by an earlier one, at any depth.
pub open spec fn well_formed(value: Value) -> bool
    decreases value,
{
    match value {
        Value::Array(items) => forall|i: int|
            0 <= i < items@.len() ==> well_formed(#[trigger] items@[i]),
        Value::Table(entries) => {
            &&& distinct_keys(entry_keys(entries@))
            &&& forall|i: int|
                0 <= i < entries@.len() ==> well_formed((#[trigger] entries@[i]).1)
        },
        _ => true,
    }
}

impl View for Value {
    type V = ValueView;

    open spec fn view(&self) -> ValueView {
        value_view(*self)
    }
}

/// Equality goes by the variant and is recursive: values of different
/// variants differ, scalars are equal where their payloads are, arrays
/// where they are as long and equal item by item, and tables where they
/// bind the same names, each to equal values.
pub proof fn lemma_equality_is_structural(a: ValueView, b: ValueView)
    ensures
        a == b ==> (a is Null <==> b is Null) && (a is Bool <==> b is Bool) && (a is Integer
            <==> b is Integer) && (a is Float <==> b is Float) && (a is String <==> b is String)
            && (a is Array <==> b is Array) && (a is Table <==> b is Table),
        a is Null && b is Null ==> a == b,
        a is Bool && b is Bool ==> (a == b <==> a->Bool_0 == b->Bool_0),
        a is Integer && b is Integer ==> (a == b <==> a->Integer_0 == b->Integer_0),
        a is Float && b is Float ==> (a == b <==> a->Float_0 == b->Float_0),
        a is String && b is String ==> (a == b <==> a->String_0 == b->String_0),
        a is Array && b is Array ==> (a == b <==> a->Array_0.len() == b->Array_0.len()
            && forall|i: int| 0 <= i < a->Array_0.len() ==> a->Array_0[i] == b->Array_0[i]),
        a is Table && b is Table ==> (a == b <==> a->Table_0.dom() == b->Table_0.dom()
            && forall|key: Seq<char>|
            a->Table_0.contains_key(key) ==> #[trigger] a->Table_0[key] == b->Table_0[key]),
{
    if a is Array && b is Array {
        if a->Array_0.len() == b->Array_0.len() && forall|i: int|
            0 <= i < a->Array_0.len() ==> a->Array_0[i] == b->Array_0[i] {
            assert(a->Array_0 =~= b->Array_0);
        }
    }
    if a is Table && b is Table {
        if a->Table_0.dom() == b->Table_0.dom() && forall|key: Seq<char>|
            a->Table_0.contains_key(key) ==> #[trigger] a->Table_0[key] == b->Table_0[key] {
            assert(a->Table_0 =~= b->Table_0);
        }
    }
}

/// Lists of entries with the same names, in the same order, and values that
/// denote the same, denote the same mapping.
pub proof fn lemma_table_view_same(a: Seq<(String, Value)>, b: Seq<(String, Value)>)
    requires
        a.len() == b.len(),
        forall|i: int| 0 <= i < a.len() ==> a[i].0@ == b[i].0@ && a[i].1@ == b[i].1@,
    ensures
        table_view(a) == table_view(b),
{
    assert(entry_keys(a) =~= entry_keys(b));
    assert forall|key: Seq<char>| has_key(entry_keys(a), key) implies table_view(a)[key]
        == table_view(b)[key] by {
        lemma_first_exists(entry_keys(a), key);
    }
    assert(table_view(a) =~= table_view(b));
}

/// A deep copy: it denotes the same, and binds each name once where the
/// value does.
fn copy_of(value: &Value) -> (r: Value)
    ensures
        r@ == value@,
        well_formed(*value) ==> well_formed(r),
    decreases value,
{
    match value {
        Value::Null => Value::Null,
        Value::Bool(b) => Value::Bool(*b),
        Value::Integer(i) => Value::Integer(*i),
        Value::Float(bits) => Value::Float(*bits),
        Value::String(s) => Value::String(s.clone()),
        Value::Array(items) => {
            let mut out: Vec<Value> = Vec::new();
            let mut i: usize = 0;
            while i < items.len()
                invariant
                    i <= items.len(),
                    out.len() == i,
                    *value == Value::Array(*items),
                    forall|j: int| 0 <= j < i ==> out[j]@ == items[j]@,
                    forall|j: int|
                        0 <= j < i && well_formed(items[j]) ==> well_formed(#[trigger] out[j]),
                decreases items.len() - i,
            {
                assert(decreases_to!(*value => value->Array_0));
                let item = copy_of(&items[i]);
                out.push(item);
                i += 1;
            }
            proof {
                Value::lemma_array_view(out);
                Value::lemma_array_view(*items);
                assert(array_view(out@) =~= array_view(items@));
            }
            Value::Array(out)
        },
        Value::Table(entries) => {
            let mut out: Vec<(String, Value)> = Vec::new();
            let mut i: usize = 0;
            while i < entries.len()
                invariant
                    i <= entries.len(),
                    out.len() == i,
                    *value == Value::Table(*entries),
                    forall|j: int|
                        0 <= j < i ==> out[j].0@ == entries[j].0@ && out[j].1@ == entries[j].1@,
                    forall|j: int|
                        0 <= j < i && well_formed(entries[j].1) ==> well_formed(
                            (#[trigger] out[j]).1,
                        ),
                decreases entries.len() - i,
            {
                let name = entries[i].0.clone();
                assert(decreases_to!(*value => value->Table_0));
                let item = copy_of(&entries[i].1);
                out.push((name, item));
                i += 1;
            }
            proof {
                Value::lemma_table_view(out);
                Value::lemma_table_view(*entries);
                lemma_table_view_same(out@, entries@);
                assert(entry_keys(out@) =~= entry_keys(entries@));
            }
            Value::Table(out)
        },
    }
}

/// Whether two values denote the same.
fn same(a: &Value, b: &Value) -> (r: bool)
    ensures
        r == (a@ == b@),
    decreases a,
{
    match (a, b) {
        (Value::Null, Value::Null) => true,
        (Value::Bool(x), Value::Bool(y)) => *x == *y,
        (Value::Integer(x), Value::Integer(y)) => *x == *y,
        (Value::Float(x), Value::Float(y)) => *x == *y,
        (Value::String(x), Value::String(y)) => *x == *y,
        (Value::Array(xs), Value::Array(ys)) => {
            proof {
                Value::lemma_array_view(*xs);
                Value::lemma_array_view(*ys);
            }
            if xs.len() != ys.len() {
                assert(array_view(xs@).len() != array_view(ys@).len());
                return false;
            }
            let mut i: usize = 0;
            while i < xs.len()
                invariant
                    i <= xs.len(),
                    xs.len() == ys.len(),
                    *a == Value::Array(*xs),
                    a@ == ValueView::Array(array_view(xs@)),
                    b@ == ValueView::Array(array_view(ys@)),
                    forall|j: int| 0 <= j < i ==> xs[j]@ == ys[j]@,
                decreases xs.len() - i,
            {
                if !same(&xs[i], &ys[i]) {
                    assert(array_view(xs@)[i as int] != array_view(ys@)[i as int]);
                    return false;
                }
                i += 1;
            }
            assert(array_view(xs@) =~= array_view(ys@));
            true
        },
        (Value::Table(xs), Value::Table(ys)) => {
            proof {
                Value::lemma_table_view(*xs);
                Value::lemma_table_view(*ys);
            }
            let ghost kx = entry_keys(xs@);
            let ghost ky = entry_keys(ys@);
            let mut i: usize = 0;
            while i < xs.len()
                invariant
                    i <= xs.len(),
                    *a == Value::Table(*xs),
                    kx == entry_keys(xs@),
                    ky == entry_keys(ys@),
                    a@ == ValueView::Table(table_view(xs@)),
                    b@ == ValueView::Table(table_view(ys@)),
                    forall|j: int|
                        0 <= j < i ==> has_key(ky, #[trigger] kx[j]) && table_view(xs@)[kx[j]]
                            == table_view(ys@)[kx[j]],
                decreases xs.len() - i,
            {
                let name = xs[i].0.as_str();
                assert(name@ == kx[i as int]);
                let first = match find_entry(xs, name) {
                    Some(first) => first,
                    None => {
                        assert(false);
                        i
                    },
                };
                proof {
                    lemma_first_index(kx, name@, first as int);
                }
                match find_entry(ys, name) {
                    None => {
                        assert(table_view(xs@).contains_key(name@));
                        assert(!table_view(ys@).contains_key(name@));
                        return false;
                    },
                    Some(other) => {
                        proof {
                            lemma_first_index(ky, name@, other as int);
                        }
                        if !same(&xs[first].1, &ys[other].1) {
                            assert(table_view(xs@)[name@] != table_view(ys@)[name@]);
                            return false;
                        }
                    },
                }
                i += 1;
            }
            let mut j: usize = 0;
            while j < ys.len()
                invariant
                    j <= ys.len(),
                    kx == entry_keys(xs@),
                    ky == entry_keys(ys@),
                    a@ == ValueView::Table(table_view(xs@)),
                    b@ == ValueView::Table(table_view(ys@)),
                    forall|p: int| 0 <= p < j ==> has_key(kx, #[trigger] ky[p]),
                decreases ys.len() - j,
            {
                let name = ys[j].0.as_str();
                assert(name@ == ky[j as int]);
                if find_entry(xs, name).is_none() {
                    assert(table_view(ys@).contains_key(name@));
                    assert(!table_view(xs@).contains_key(name@));
                    return false;
                }
                j += 1;
            }
            assert(table_view(xs@) =~= table_view(ys@));
            true
        },
        _ => false,
    }
}

impl Default for Value {
    fn default() -> (r: Self)
        ensures
            r@ is Null,
    {
        Value::Null
    }
}

impl Clone for Value {
    fn clone(&self) -> (r: Self)
        ensures
            r@ == self@,
            well_formed(*self) ==> well_formed(r),
    {
        copy_of(self)
    }
}

impl PartialEq for Value {
    fn eq(&self, other: &Self) -> (r: bool) {
        same(self, other)
    }
}

impl PartialEqSpecImpl for Value {
    open spec fn obeys_eq_spec() -> bool {
        true
    }

    open spec fn eq_spec(&self, other: &Self) -> bool {
        self@ == other@
    }
}

impl Value {
    /// An `Array` denotes the list of what its items denote.
    pub proof fn lemma_array_view(items: Vec<Value>)
        ensures
            Value::Array(items)@ == ValueView::Array(array_view(items@)),
    {
        assert(Value::Array(items)@->Array_0 =~= array_view(items@));
    }

    /// A `Table` denotes the mapping of its entries.
    pub proof fn lemma_table_view(entries: Vec<(String, Value)>)
        ensures
            Value::Table(entries)@ == ValueView::Table(table_view(entries@)),
    {
        let keys = entry_keys(entries@);
        assert forall|key: Seq<char>| has_key(keys, key) implies 0 <= first_index(keys, key)
            < entries.len() by {
            lemma_first_exists(keys, key);
        }
        assert(Value::Table(entries)@->Table_0 =~= table_view(entries@));
    }

    /// Whether this is `Null`.
    pub fn is_null(&self) -> (r: bool)
        ensures
            r == (self@ is Null),
    {
        matches!(self, Value::Null)
    }

    /// The boolean of a `Bool`, and nothing of any other variant.
    pub fn as_bool(&self) -> (r: Option<bool>)
        ensures
            r == (match self@ {
                ValueView::Bool(b) => Some(b),
                _ => None,
            }),
    {
        if let Value::Bool(b) = self {
            return Some(*b);
        }
        None
    }

    /// The integer of an `Integer`, and nothing of any other variant.
    pub fn as_int(&self) -> (r: Option<i64>)
        ensures
            r == (match self@ {
                ValueView::Integer(i) => Some(i),
                _ => None,
            }),
    {
        if let Value::Integer(i) = self {
            return Some(*i);
        }
        None
    }

    /// The bit pattern of a `Float`, and nothing of any other variant.
    pub fn as_float(&self) -> (r: Option<u64>)
        ensures
            r == (match self@ {
                ValueView::Float(bits) => Some(bits),
                _ => None,
            }),
    {
        if let Value::Float(bits) = self {
            return Some(*bits);
        }
        None
    }

    /// The text of a `String`, and nothing of any other variant.
    pub fn as_str(&self) -> (r: Option<&str>)
        ensures
            match self@ {
                ValueView::String(s) => r matches Some(t) && t@ == s,
                _ => r is None,
            },
    {
        if let Value::String(s) = self {
            return Some(s.as_str());
        }
        None
    }

    /// The items of an `Array`, and nothing of any other variant. The items
    /// are the value's own.
    pub fn as_array(&self) -> (r: Option<&Vec<Value>>)
        ensures
            match self@ {
                ValueView::Array(items) => r matches Some(v) && array_view(v@) == items,
                _ => r is None,
            },
            r matches Some(v) ==> *self == Value::Array(*v),
    {
        if let Value::Array(a) = self {
            proof {
                Value::lemma_array_view(*a);
            }
            return Some(a);
        }
        None
    }

    /// The entries of a `Table`, and nothing of any other variant. The
    /// entries are the value's own, so each name occurs once among them
    /// where the value is well formed.
    pub fn as_map(&self) -> (r: Option<&Vec<(String, Value)>>)
        ensures
            match self@ {
                ValueView::Table(m) => r matches Some(v) && table_view(v@) == m,
                _ => r is None,
            },
            r matches Some(v) ==> *self == Value::Table(*v),
    {
        if let Value::Table(m) = self {
            proof {
                Value::lemma_table_view(*m);
            }
            return Some(m);
        }
        None
    }

    /// The value that a `Table` binds to `key`; nothing where it binds none,
    /// and nothing of any other variant.
    pub fn get(&self, key: &str) -> (r: Option<&Value>)
        ensures
            match self@ {
                ValueView::Table(m) => if m.contains_key(key@) {
                    r matches Some(v) && v@ == m[key@]
                } else {
                    r is None
                },
                _ => r is None,
            },
            well_formed(*self) ==> (r matches Some(v) ==> well_formed(*v)),
    {
        match self {
            Value::Table(entries) => {
                proof {
                    Value::lemma_table_view(*entries);
                }
                match find_entry(entries, key) {
                    Some(i) => {
                        proof {
                            lemma_first_index(entry_keys(entries@), key@, i as int);
                        }
                        Some(&entries[i].1)
                    },
                    None => None,
                }
            },
            _ => None,
        }
    }
}

} // verus!
