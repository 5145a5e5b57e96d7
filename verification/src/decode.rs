//! Decoding a value from the shape of its source: scalars, sequences and
//! mappings, as a parser hands them over.

use crate::errors::{AncymonError, ConfigError};
use crate::entries::{
    distinct_keys, entry_keys, find_entry, first_index, has_key, is_first, lemma_first_exists,
    lemma_first_index,
};
use crate::values::{array_view, table_view, well_formed, Value, ValueView};
use toml::Value as TomlValue;
use vstd::prelude::*;
use vstd::string::StringExecFns;

verus! {

/// What a [`Node`] denotes: the same tree over mathematical sequences.
pub enum NodeView {
    Unit,
    Bool(bool),
    Signed(i64),
    Unsigned(u64),
    Float(u64),
    Text(Seq<char>),
    Date(Seq<char>),
    Sequence(Seq<NodeView>),
    Mapping(Seq<(Seq<char>, NodeView)>),
}

/// The shape of a piece of source data before it is decoded. A mapping is
/// the list of its entries as they were written, so a name may occur twice.
/// `Float` holds the IEEE 754 binary64 bit pattern of the number, `Date`
/// the text of a date-time as its source writes it.
#[derive(Debug)]
pub enum Node {
    Unit,
    Bool(bool),
    Signed(i64),
    Unsigned(u64),
    Float(u64),
    Text(String),
    Date(String),
    Sequence(Vec<Node>),
    Mapping(Vec<(String, Node)>),
}

/// What a node denotes.
pub open spec fn node_view(node: Node) -> NodeView
    decreases node,
{
    match node {
        Node::Unit => NodeView::Unit,
        Node::Bool(b) => NodeView::Bool(b),
        Node::Signed(i) => NodeView::Signed(i),
        Node::Unsigned(u) => NodeView::Unsigned(u),
        Node::Float(bits) => NodeView::Float(bits),
        Node::Text(s) => NodeView::Text(s@),
        Node::Date(s) => NodeView::Date(s@),
        Node::Sequence(items) => NodeView::Sequence(
            Seq::new(
                items@.len(),
                |i: int|
                    if 0 <= i < items@.len() {
                        node_view(items@[i])
                    } else {
                        NodeView::Unit
                    },
            ),
        ),
        Node::Mapping(entries) => NodeView::Mapping(
            Seq::new(
                entries@.len(),
                |i: int|
                    if 0 <= i < entries@.len() {
                        (entries@[i].0@, node_view(entries@[i].1))
                    } else {
                        (Seq::empty(), NodeView::Unit)
                    },
            ),
        ),
    }
}

impl View for Node {
    type V = NodeView;

    open spec fn view(&self) -> NodeView {
        node_view(*self)
    }
}

/// The names of a mapping's entries, in order.
pub open spec fn mapping_keys(entries: Seq<(Seq<char>, NodeView)>) -> Seq<Seq<char>> {
    Seq::new(entries.len(), |i: int| entries[i].0)
}

/// Whether a node can be decoded: every unsigned integer in it fits in 63
/// bits, and no mapping in it has a name twice.
pub open spec fn decodable(node: NodeView) -> bool
    decreases node,
{
    match node {
        NodeView::Unsigned(u) => u <= i64::MAX,
        NodeView::Sequence(items) => forall|i: int|
            0 <= i < items.len() ==> decodable(#[trigger] items[i]),
        NodeView::Mapping(entries) => {
            &&& distinct_keys(mapping_keys(entries))
            &&& forall|i: int| 0 <= i < entries.len() ==> decodable((#[trigger] entries[i]).1)
        },
        _ => true,
    }
}

/// The name under which a decoded date-time stands in its table.
pub open spec fn date_key() -> Seq<char> {
    "$__toml_private_datetime"@
}

/// The value that a decodable node stands for: nesting is kept, a sequence
/// keeps its order and a mapping its names. A date-time stands for a table
/// that binds the one name `date_key()` to the date-time's text.
pub open spec fn decoded(node: NodeView) -> ValueView
    decreases node,
{
    match node {
        NodeView::Unit => ValueView::Null,
        NodeView::Bool(b) => ValueView::Bool(b),
        NodeView::Signed(i) => ValueView::Integer(i),
        NodeView::Unsigned(u) => ValueView::Integer(u as i64),
        NodeView::Float(bits) => ValueView::Float(bits),
        NodeView::Text(s) => ValueView::String(s),
        NodeView::Date(s) => ValueView::Table(
            Map::empty().insert(date_key(), ValueView::String(s)),
        ),
        NodeView::Sequence(items) => ValueView::Array(
            Seq::new(
                items.len(),
                |i: int|
                    if 0 <= i < items.len() {
                        decoded(items[i])
                    } else {
                        ValueView::Null
                    },
            ),
        ),
        NodeView::Mapping(entries) => ValueView::Table(
            Map::new(
                |key: Seq<char>| has_key(mapping_keys(entries), key),
                |key: Seq<char>|
                    {
                        let i = first_index(mapping_keys(entries), key);
                        if 0 <= i < entries.len() {
                            decoded(entries[i].1)
                        } else {
                            ValueView::Null
                        }
                    },
            ),
        ),
    }
}

/// Nodes that denote the same decode alike: whether a node can be decoded,
/// and what value it stands for, depend on nothing but its shape.
pub proof fn lemma_decoding_depends_on_shape(a: Node, b: Node)
    requires
        a@ == b@,
    ensures
        decodable(a@) == decodable(b@),
        decoded(a@) == decoded(b@),
{
}

/// Decoding keeps the nesting: the value of a decodable sequence is the
/// array of its items' values, in order; the value of a decodable mapping
/// is the table that binds each name to its entry's value, and no other
/// name.
pub proof fn lemma_decoding_keeps_nesting(node: NodeView)
    requires
        decodable(node),
    ensures
        node matches NodeView::Sequence(items) ==> {
            &&& decoded(node) is Array
            &&& decoded(node)->Array_0.len() == items.len()
            &&& forall|i: int|
                0 <= i < items.len() ==> decodable(items[i]) && (
                #[trigger] decoded(node)->Array_0[i]) == decoded(items[i])
        },
        node matches NodeView::Mapping(entries) ==> {
            &&& decoded(node) is Table
            &&& forall|i: int|
                0 <= i < entries.len() ==> decodable(entries[i].1) && decoded(
                    node,
                )->Table_0.contains_key((#[trigger] entries[i]).0) && decoded(
                    node,
                )->Table_0[entries[i].0] == decoded(entries[i].1)
            &&& forall|key: Seq<char>|
                decoded(node)->Table_0.contains_key(key) ==> exists|i: int|
                    0 <= i < entries.len() && (#[trigger] entries[i]).0 == key
        },
{
    match node {
        NodeView::Mapping(entries) => {
            let keys = mapping_keys(entries);
            assert forall|i: int| 0 <= i < entries.len() implies decodable(entries[i].1)
                && decoded(node)->Table_0.contains_key((#[trigger] entries[i]).0) && decoded(
                node,
            )->Table_0[entries[i].0] == decoded(entries[i].1) by {
                assert(keys[i] == entries[i].0);
                assert forall|j: int| 0 <= j < i implies keys[j] != entries[i].0 by {
                    assert(keys[j] != keys[i]);
                }
                assert(is_first(keys, entries[i].0, i));
                lemma_first_index(keys, entries[i].0, i);
            }
            assert forall|key: Seq<char>|
                decoded(node)->Table_0.contains_key(key) implies exists|i: int|
                0 <= i < entries.len() && (#[trigger] entries[i]).0 == key by {
                let i = choose|i: int| 0 <= i < keys.len() && keys[i] == key;
                assert(entries[i].0 == key);
            }
        },
        _ => {},
    }
}

/// What keeps a node from being decoded.
pub enum Fault {
    /// An unsigned integer that does not fit in 63 bits.
    TooLarge,
    /// A name that a mapping has twice.
    Duplicate,
}

/// The text of the error that reports a fault.
pub open spec fn fault_text(fault: Fault) -> Seq<char> {
    match fault {
        Fault::TooLarge => "u64 value too large to fit in i64"@,
        Fault::Duplicate => "duplicate key in mapping"@,
    }
}

/// The first of a list of faults: that of the first position that has one.
pub open spec fn first_fault(faults: Seq<Option<Fault>>) -> Option<Fault>
    decreases faults.len(),
{
    if faults.len() == 0 {
        None
    } else {
        match first_fault(faults.drop_last()) {
            Some(f) => Some(f),
            None => faults.last(),
        }
    }
}

/// The first fault of a node together with the faults of its parts,
/// position by position.
pub open spec fn examine(node: NodeView) -> (Option<Fault>, Seq<Option<Fault>>)
    decreases node,
{
    match node {
        NodeView::Unsigned(u) => if u <= i64::MAX {
            (None, Seq::empty())
        } else {
            (Some(Fault::TooLarge), Seq::empty())
        },
        NodeView::Sequence(items) => {
            let faults = Seq::new(
                items.len(),
                |i: int|
                    if 0 <= i < items.len() {
                        examine(items[i]).0
                    } else {
                        None
                    },
            );
            (first_fault(faults), faults)
        },
        NodeView::Mapping(entries) => {
            let faults = Seq::new(
                entries.len(),
                |i: int|
                    if 0 <= i < entries.len() {
                        if is_first(mapping_keys(entries), entries[i].0, i) {
                            examine(entries[i].1).0
                        } else {
                            Some(Fault::Duplicate)
                        }
                    } else {
                        None
                    },
            );
            (first_fault(faults), faults)
        },
        _ => (None, Seq::empty()),
    }
}

/// The first fault of a node, as a reader meets it who goes through the
/// node from its start: nothing for a scalar but an unsigned integer that
/// does not fit; for a sequence the fault of its first faulty item; for a
/// mapping the fault of its first faulty entry.
pub open spec fn fault(node: NodeView) -> Option<Fault> {
    examine(node).0
}

/// The faults of the items of a sequence, position by position.
pub open spec fn item_faults(items: Seq<NodeView>) -> Seq<Option<Fault>> {
    Seq::new(items.len(), |i: int| fault(items[i]))
}

/// The faults of the entries of a mapping, position by position: a name
/// that an earlier entry has is a duplicate; any other entry has the fault
/// of its value.
pub open spec fn entry_faults(entries: Seq<(Seq<char>, NodeView)>) -> Seq<Option<Fault>> {
    Seq::new(
        entries.len(),
        |i: int|
            if is_first(mapping_keys(entries), entries[i].0, i) {
                fault(entries[i].1)
            } else {
                Some(Fault::Duplicate)
            },
    )
}

/// A scalar has no fault but an unsigned integer that does not fit; a
/// sequence has the first of its items' faults, a mapping the first of its
/// entries' faults.
pub proof fn lemma_fault_of_container(node: NodeView)
    ensures
        node matches NodeView::Unsigned(u) ==> (fault(node) == if u <= i64::MAX {
            None
        } else {
            Some(Fault::TooLarge)
        }),
        node matches NodeView::Sequence(items) ==> fault(node) == first_fault(item_faults(items)),
        node matches NodeView::Mapping(entries) ==> fault(node) == first_fault(
            entry_faults(entries),
        ),
        !(node is Unsigned || node is Sequence || node is Mapping) ==> fault(node) is None,
{
    match node {
        NodeView::Sequence(items) => {
            assert(examine(node).1 =~= item_faults(items));
        },
        NodeView::Mapping(entries) => {
            assert(examine(node).1 =~= entry_faults(entries));
        },
        _ => {},
    }
}

/// The first of a list of faults is that of the first position that has
/// one; there is none exactly where no position has one.
pub proof fn lemma_first_fault(faults: Seq<Option<Fault>>)
    ensures
        first_fault(faults) is None <==> forall|i: int|
            0 <= i < faults.len() ==> (#[trigger] faults[i]) is None,
        forall|i: int|
            0 <= i < faults.len() && (#[trigger] faults[i]) is Some && (forall|j: int|
                0 <= j < i ==> (#[trigger] faults[j]) is None) ==> first_fault(faults)
                == faults[i],
    decreases faults.len(),
{
    if faults.len() > 0 {
        let rest = faults.drop_last();
        lemma_first_fault(rest);
        assert forall|i: int| 0 <= i < rest.len() implies rest[i] == faults[i] by {}
        if first_fault(rest) is None {
            assert forall|i: int| 0 <= i < faults.len() - 1 implies (#[trigger] faults[i])
                is None by {
                assert(rest[i] is None);
            }
        } else {
            let k = choose|k: int| 0 <= k < rest.len() && !((#[trigger] rest[k]) is None);
            assert(faults[k] is Some);
        }
        assert forall|i: int|
            0 <= i < faults.len() && (#[trigger] faults[i]) is Some && (forall|j: int|
                0 <= j < i ==> (#[trigger] faults[j]) is None) implies first_fault(faults)
            == faults[i] by {
            if i < rest.len() {
                assert(rest[i] is Some);
                assert forall|j: int| 0 <= j < i implies (#[trigger] rest[j]) is None by {
                    assert(faults[j] is None);
                }
                assert(first_fault(rest) == rest[i]);
            } else {
                assert forall|j: int| 0 <= j < rest.len() implies (#[trigger] rest[j])
                    is None by {
                    assert(faults[j] is None);
                }
            }
        }
    }
}

/// A node can be decoded exactly where it has no fault.
pub proof fn lemma_decodable_iff_no_fault(node: NodeView)
    ensures
        decodable(node) <==> fault(node) is None,
    decreases node,
{
    lemma_fault_of_container(node);
    match node {
        NodeView::Sequence(items) => {
            let faults = item_faults(items);
            lemma_first_fault(faults);
            assert forall|i: int| 0 <= i < items.len() implies (decodable(#[trigger] items[i])
                <==> faults[i] is None) by {
                lemma_decodable_iff_no_fault(items[i]);
            }
            if decodable(node) {
                assert forall|i: int| 0 <= i < faults.len() implies (#[trigger] faults[i])
                    is None by {
                    assert(decodable(items[i]));
                }
            } else {
                let i = choose|i: int| 0 <= i < items.len() && !decodable(#[trigger] items[i]);
                assert(faults[i] is Some);
            }
        },
        NodeView::Mapping(entries) => {
            let faults = entry_faults(entries);
            let keys = mapping_keys(entries);
            lemma_first_fault(faults);
            assert forall|i: int| 0 <= i < entries.len() implies (decodable(
                (#[trigger] entries[i]).1,
            ) <==> fault(entries[i].1) is None) by {
                lemma_decodable_iff_no_fault(entries[i].1);
            }
            if decodable(node) {
                assert forall|i: int| 0 <= i < faults.len() implies (#[trigger] faults[i])
                    is None by {
                    assert(keys[i] == entries[i].0);
                    assert forall|j: int| 0 <= j < i implies keys[j] != entries[i].0 by {
                        assert(keys[j] != keys[i]);
                    }
                    assert(decodable(entries[i].1));
                }
            } else {
                if !distinct_keys(keys) {
                    let (a, b) = choose|a: int, b: int|
                        0 <= a < b < keys.len() && keys[a] == keys[b];
                    assert(keys[b] == entries[b].0);
                    assert(!is_first(keys, entries[b].0, b));
                    assert(faults[b] is Some);
                } else {
                    let i = choose|i: int|
                        0 <= i < entries.len() && !decodable((#[trigger] entries[i]).1);
                    assert(fault(entries[i].1) is Some);
                    assert(faults[i] is Some);
                }
            }
        },
        _ => {},
    }
}

impl Node {
    /// A `Sequence` denotes the list of what its items denote.
    pub proof fn lemma_sequence_view(items: Vec<Node>)
        ensures
            Node::Sequence(items)@ is Sequence,
            Node::Sequence(items)@->Sequence_0.len() == items@.len(),
            forall|i: int|
                0 <= i < items@.len() ==> (#[trigger] Node::Sequence(items)@->Sequence_0[i])
                    == items@[i]@,
    {
    }

    /// A `Mapping` denotes the list of what its entries denote.
    pub proof fn lemma_mapping_view(entries: Vec<(String, Node)>)
        ensures
            Node::Mapping(entries)@ is Mapping,
            Node::Mapping(entries)@->Mapping_0.len() == entries@.len(),
            forall|i: int|
                0 <= i < entries@.len() ==> (#[trigger] Node::Mapping(entries)@->Mapping_0[i]) == (
                    entries@[i].0@,
                    entries@[i].1@,
                ),
            mapping_keys(Node::Mapping(entries)@->Mapping_0) == entry_keys(entries@),
    {
        assert(mapping_keys(Node::Mapping(entries)@->Mapping_0) =~= entry_keys(entries@));
    }
}

impl Value {
    /// Decodes a node into the value it stands for.
    ///
    /// Succeeds exactly on the decodable nodes, which are those without a
    /// fault; every table of the value then binds each name once. A failure
    /// is a `ConversionError` whose text reports the node's first fault.
    pub fn decode(node: &Node) -> (r: Result<Value, AncymonError>)
        ensures
            r is Ok <==> decodable(node@),
            r matches Ok(v) ==> well_formed(v),
            match fault(node@) {
                None => r matches Ok(v) && v@ == decoded(node@),
                Some(f) => r matches Err(AncymonError::ConversionError(text)) && text@
                    == fault_text(f),
            },
        decreases node,
    {
        proof {
            lemma_decodable_iff_no_fault(node@);
            lemma_fault_of_container(node@);
        }
        match node {
            Node::Unit => Ok(Value::Null),
            Node::Bool(b) => Ok(Value::Bool(*b)),
            Node::Signed(i) => Ok(Value::Integer(*i)),
            Node::Unsigned(u) => {
                if *u <= 0x7fff_ffff_ffff_ffffu64 {
                    Ok(Value::Integer(*u as i64))
                } else {
                    Err(
                        AncymonError::ConversionError(
                            String::from_str("u64 value too large to fit in i64"),
                        ),
                    )
                }
            },
            Node::Float(bits) => Ok(Value::Float(*bits)),
            Node::Text(s) => Ok(Value::String(s.clone())),
            Node::Date(s) => {
                let mut out: Vec<(String, Value)> = Vec::new();
                out.push((String::from_str("$__toml_private_datetime"), Value::String(s.clone())));
                proof {
                    Value::lemma_table_view(out);
                    let keys = entry_keys(out@);
                    assert(keys[0] == date_key());
                    assert forall|key: Seq<char>| has_key(keys, key) implies key
                        == date_key() by {
                        let i = choose|i: int| 0 <= i < keys.len() && keys[i] == key;
                        assert(i == 0);
                    }
                    assert(is_first(keys, date_key(), 0));
                    lemma_first_index(keys, date_key(), 0);
                    assert(table_view(out@) =~= decoded(node@)->Table_0);
                    assert(well_formed(out@[0].1));
                    assert(well_formed(Value::Table(out)));
                }
                Ok(Value::Table(out))
            },
            Node::Sequence(items) => {
                proof {
                    Node::lemma_sequence_view(*items);
                }
                let ghost src = node@->Sequence_0;
                let ghost faults = item_faults(src);
                proof {
                    lemma_fault_of_container(node@);
                }
                let mut out: Vec<Value> = Vec::new();
                let mut i: usize = 0;
                while i < items.len()
                    invariant
                        i <= items.len(),
                        out.len() == i,
                        *node == Node::Sequence(*items),
                        node@ == NodeView::Sequence(src),
                        src.len() == items@.len(),
                        forall|j: int| 0 <= j < items@.len() ==> (#[trigger] src[j]) == items@[j]@,
                        faults == item_faults(src),
                        fault(node@) == first_fault(faults),
                        forall|j: int| 0 <= j < i ==> (#[trigger] faults[j]) is None,
                        forall|j: int| 0 <= j < i ==> out[j]@ == decoded(src[j]),
                        forall|j: int| 0 <= j < i ==> well_formed(#[trigger] out[j]),
                    decreases items.len() - i,
                {
                    assert(decreases_to!(*node => node->Sequence_0));
                    match Value::decode(&items[i]) {
                        Ok(value) => {
                            assert(faults[i as int] == fault(src[i as int]));
                            out.push(value);
                        },
                        Err(e) => {
                            proof {
                                assert(faults[i as int] == fault(src[i as int]));
                                lemma_first_fault(faults);
                            }
                            return Err(e);
                        },
                    }
                    i += 1;
                }
                proof {
                    lemma_first_fault(faults);
                    Value::lemma_array_view(out);
                    assert(array_view(out@) =~= decoded(node@)->Array_0);
                    assert forall|j: int| 0 <= j < out@.len() implies well_formed(
                        #[trigger] out@[j],
                    ) by {
                        assert(well_formed(out[j]));
                    }
                    assert(well_formed(Value::Array(out)));
                }
                Ok(Value::Array(out))
            },
            Node::Mapping(entries) => {
                proof {
                    Node::lemma_mapping_view(*entries);
                }
                let ghost src = node@->Mapping_0;
                let ghost keys = entry_keys(entries@);
                let ghost faults = entry_faults(src);
                proof {
                    lemma_fault_of_container(node@);
                }
                let mut out: Vec<(String, Value)> = Vec::new();
                let mut i: usize = 0;
                while i < entries.len()
                    invariant
                        i <= entries.len(),
                        out.len() == i,
                        *node == Node::Mapping(*entries),
                        node@ == NodeView::Mapping(src),
                        src.len() == entries@.len(),
                        keys == entry_keys(entries@),
                        keys == mapping_keys(src),
                        forall|j: int|
                            0 <= j < entries@.len() ==> (#[trigger] src[j]) == (
                                entries@[j].0@,
                                entries@[j].1@,
                            ),
                        faults == entry_faults(src),
                        fault(node@) == first_fault(faults),
                        forall|j: int| 0 <= j < i ==> (#[trigger] faults[j]) is None,
                        forall|j: int| 0 <= j < i ==> is_first(keys, #[trigger] keys[j], j),
                        forall|j: int|
                            0 <= j < i ==> (#[trigger] out[j]).0@ == keys[j] && out[j].1@
                                == decoded(src[j].1),
                        forall|j: int| 0 <= j < i ==> well_formed((#[trigger] out[j]).1),
                    decreases entries.len() - i,
                {
                    assert(decreases_to!(*node => node->Mapping_0));
                    let name = entries[i].0.as_str();
                    assert(name@ == keys[i as int]);
                    assert(src[i as int].0 == keys[i as int]);
                    match find_entry(entries, name) {
                        Some(first) => {
                            if first != i {
                                proof {
                                    if is_first(keys, keys[i as int], i as int) {
                                        lemma_first_index(keys, keys[i as int], i as int);
                                        lemma_first_index(keys, keys[i as int], first as int);
                                    }
                                    assert(faults[i as int] == Some(Fault::Duplicate));
                                    lemma_first_fault(faults);
                                }
                                return Err(
                                    AncymonError::ConversionError(
                                        String::from_str("duplicate key in mapping"),
                                    ),
                                );
                            }
                        },
                        None => {
                            assert(false);
                        },
                    }
                    match Value::decode(&entries[i].1) {
                        Ok(value) => {
                            out.push((entries[i].0.clone(), value));
                        },
                        Err(e) => {
                            proof {
                                assert(faults[i as int] == fault(src[i as int].1));
                                lemma_first_fault(faults);
                            }
                            return Err(e);
                        },
                    }
                    assert(faults[i as int] == fault(src[i as int].1));
                    i += 1;
                }
                proof {
                    lemma_first_fault(faults);
                    Value::lemma_table_view(out);
                    assert(entry_keys(out@) =~= keys);
                    assert forall|a: int, b: int| 0 <= a < b < keys.len() implies keys[a]
                        != keys[b] by {
                        assert(is_first(keys, keys[b], b));
                    }
                    assert forall|key: Seq<char>| has_key(keys, key) implies table_view(out@)[key]
                        == decoded(node@)->Table_0[key] by {
                        lemma_first_exists(keys, key);
                    }
                    assert(table_view(out@) =~= decoded(node@)->Table_0);
                    assert forall|j: int| 0 <= j < out@.len() implies well_formed(
                        (#[trigger] out@[j]).1,
                    ) by {
                        assert(well_formed(out[j].1));
                    }
                    assert(well_formed(Value::Table(out)));
                }
                Ok(Value::Table(out))
            },
        }
    }
}

/// The type of a parsed TOML value, `toml::Value`, as the `toml` crate
/// holds it.
#[verifier::external_type_specification]
#[verifier::external_body]
pub struct ExTomlValue(TomlValue);

/// The tree of the TOML document that `text` holds, where `text` is one.
pub uninterp spec fn toml_document(text: Seq<char>) -> Option<NodeView>;

/// The tree that a parsed TOML value holds, as plain values.
pub uninterp spec fn toml_tree(value: TomlValue) -> NodeView;

/// Parses a TOML document with `str::parse::<toml::Table>`. The result is a
/// function of the text alone: nothing where the text is no TOML document,
/// else the root table, which holds the document's tree.
#[verifier::external_body]
fn parse_document(text: &str) -> (r: Option<TomlValue>)
    ensures
        match r {
            Some(value) => toml_document(text@) == Some(toml_tree(value)),
            None => toml_document(text@) is None,
        },
{
    text.parse::<toml::Table>().ok().map(TomlValue::Table)
}

/// Moves a `toml::Value` into a node, variant by variant: a string becomes
/// `Text`, an integer `Signed`, a boolean `Bool`, a float its bit pattern
/// (`to_bits`), a date-time a `Date` of the text that TOML writes for it
/// (`to_string`), an array a `Sequence` of its items in order, and a table
/// a `Mapping` of its entries in the order in which the table yields them.
/// The node is the tree that the value holds.
#[verifier::external_body]
fn node_of(value: TomlValue) -> (node: Node)
    ensures
        node@ == toml_tree(value),
{
    match value {
        TomlValue::String(s) => Node::Text(s),
        TomlValue::Integer(i) => Node::Signed(i),
        TomlValue::Float(x) => Node::Float(x.to_bits()),
        TomlValue::Boolean(b) => Node::Bool(b),
        TomlValue::Datetime(d) => Node::Date(d.to_string()),
        TomlValue::Array(a) => Node::Sequence(a.into_iter().map(node_of).collect()),
        TomlValue::Table(t) => Node::Mapping(
            t.into_iter().map(|(k, v)| (k, node_of(v))).collect(),
        ),
    }
}

impl Value {
    /// Reads a value from the text of a TOML document.
    ///
    /// Text that is no TOML document is a `ParsingError`; a document is
    /// decoded as [`Value::decode`] decodes its tree, so every table of the
    /// value binds each name once.
    pub fn from_toml(text: &str) -> (r: Result<Value, AncymonError>)
        ensures
            r matches Ok(v) ==> well_formed(v),
            match toml_document(text@) {
                None => r matches Err(AncymonError::ConfigError(ConfigError::ParsingError)),
                Some(doc) => match fault(doc) {
                    None => r matches Ok(v) && v@ == decoded(doc),
                    Some(f) => r matches Err(AncymonError::ConversionError(reason)) && reason@
                        == fault_text(f),
                },
            },
    {
        match parse_document(text) {
            None => Err(AncymonError::ConfigError(ConfigError::ParsingError)),
            Some(value) => {
                let node = node_of(value);
                Value::decode(&node)
            },
        }
    }
}

} // verus!
