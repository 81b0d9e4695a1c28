//! The value model: configuration values, tables, and their mathematical views.
//!
//! A [`Table`] is an association list from string keys to [`Node`] values with
//! first-match lookup semantics; the public operations never create a second
//! entry for a key that is already present, so keys stay unique within one
//! table level. A [`Node`] is a closed variant type: scalars, a temporal
//! value, a sequence, a nested table, or the explicit absence marker.
//!
//! Specifications speak about [`NodeView`] and [`TableView`], the ghost
//! mirrors of `Node` and `Table`.

use vstd::prelude::*;

use crate::assoc::{assoc_contains, assoc_get, assoc_index_of, assoc_unique, assoc_update,
    lemma_assoc_index_of, lemma_assoc_index_of_first, lemma_assoc_snoc, lemma_assoc_update_get,
    lemma_assoc_update_get_other, lemma_assoc_update_unique};

pub mod converter;

verus! {

/// A calendar date and wall-clock time, stored as plain fields.
///
/// The store never computes with these fields; it only holds and returns
/// them. Calendar validity is the concern of whoever constructs the value.
#[derive(Debug, Clone, Copy, PartialEq, Eq, Structural)]
pub struct DateTime {
    pub year: i32,
    pub month: u8,
    pub day: u8,
    pub hour: u8,
    pub minute: u8,
    pub second: u8,
    pub nanosecond: u32,
}

/// A sequence of configuration values.
pub type Array = Vec<Node>;

/// A configuration value: exactly one variant is active at a time.
///
/// The two float variants hold IEEE 754 bit patterns (`f64::to_bits` /
/// `f32::to_bits`); the store keeps and compares the bits without ever
/// interpreting them numerically.
#[derive(Debug)]
pub enum Node {
    /// A nested table, making values form a tree.
    Nested(Table),
    /// A sequence of values.
    Array(Array),
    /// A temporal value.
    DateTime(DateTime),
    /// A text value.
    Text(String),
    /// A boolean value.
    Boolean(bool),
    /// An unsigned 128-bit integer.
    IntU128(u128),
    /// An unsigned 64-bit integer.
    IntU64(u64),
    /// An unsigned 32-bit integer.
    IntU32(u32),
    /// A signed 128-bit integer.
    Int128(i128),
    /// A signed 64-bit integer.
    Int64(i64),
    /// A signed 32-bit integer.
    Int32(i32),
    /// A 64-bit float, held as its bit pattern.
    Float64(u64),
    /// A 32-bit float, held as its bit pattern.
    Float32(u32),
    /// The explicit "no value" marker, distinct from "key not found".
    Absent,
}

/// A mapping from string keys to values; the root container and the payload
/// of every [`Node::Nested`].
#[derive(Debug)]
pub struct Table {
    pub(crate) entries: Vec<(String, Node)>,
}

/// The ghost mirror of [`Node`].
#[verifier::ext_equal]
pub enum NodeView {
    Nested(Seq<(Seq<char>, NodeView)>),
    Array(Seq<NodeView>),
    DateTime(DateTime),
    Text(Seq<char>),
    Boolean(bool),
    IntU128(u128),
    IntU64(u64),
    IntU32(u32),
    Int128(i128),
    Int64(i64),
    Int32(i32),
    Float64(u64),
    Float32(u32),
    Absent,
}

/// The ghost mirror of [`Table`]: its entries in order.
pub type TableView = Seq<(Seq<char>, NodeView)>;

/// The views of a sequence of nodes, element by element.
pub open spec fn nodes_view(s: Seq<Node>) -> Seq<NodeView>
    decreases s, 0nat,
{
    if s.len() == 0 {
        Seq::empty()
    } else {
        nodes_view(s.drop_last()).push(s.last()@)
    }
}

/// The views of a sequence of table entries, element by element.
pub open spec fn entries_view(es: Seq<(String, Node)>) -> TableView
    decreases es, 0nat,
{
    if es.len() == 0 {
        Seq::empty()
    } else {
        entries_view(es.drop_last()).push((es.last().0@, es.last().1@))
    }
}

impl View for Node {
    type V = NodeView;

    open spec fn view(&self) -> NodeView
        decreases self, 1nat,
    {
        match self {
            Node::Nested(t) => NodeView::Nested(t@),
            Node::Array(a) => NodeView::Array(nodes_view(a@)),
            Node::DateTime(d) => NodeView::DateTime(*d),
            Node::Text(s) => NodeView::Text(s@),
            Node::Boolean(b) => NodeView::Boolean(*b),
            Node::IntU128(v) => NodeView::IntU128(*v),
            Node::IntU64(v) => NodeView::IntU64(*v),
            Node::IntU32(v) => NodeView::IntU32(*v),
            Node::Int128(v) => NodeView::Int128(*v),
            Node::Int64(v) => NodeView::Int64(*v),
            Node::Int32(v) => NodeView::Int32(*v),
            Node::Float64(v) => NodeView::Float64(*v),
            Node::Float32(v) => NodeView::Float32(*v),
            Node::Absent => NodeView::Absent,
        }
    }
}

impl View for Table {
    type V = TableView;

    closed spec fn view(&self) -> TableView
        decreases self, 0nat,
    {
        entries_view(self.entries@)
    }
}

/// `nodes_view` maps the sequence element by element.
pub proof fn lemma_nodes_view(s: Seq<Node>)
    ensures
        nodes_view(s).len() == s.len(),
        forall|i: int| 0 <= i < s.len() ==> nodes_view(s)[i] == s[i]@,
    decreases s.len(),
{
    if s.len() > 0 {
        lemma_nodes_view(s.drop_last());
        assert(nodes_view(s) == nodes_view(s.drop_last()).push(s.last()@));
        assert(nodes_view(s).len() == s.len());
        assert forall|i: int| 0 <= i < s.len() implies nodes_view(s)[i] == s[i]@ by {
            let p = nodes_view(s.drop_last()).push(s.last()@);
            if i < s.len() - 1 {
                assert(p[i] == nodes_view(s.drop_last())[i]);
                assert(s.drop_last()[i] == s[i]);
            } else {
                assert(p[i] == s.last()@);
            }
        }
    }
}

/// `entries_view` maps the sequence element by element.
pub proof fn lemma_entries_view(es: Seq<(String, Node)>)
    ensures
        entries_view(es).len() == es.len(),
        forall|i: int|
            0 <= i < es.len() ==> entries_view(es)[i] == (es[i].0@, es[i].1@),
    decreases es.len(),
{
    if es.len() > 0 {
        lemma_entries_view(es.drop_last());
        assert forall|i: int|
            0 <= i < es.len() implies entries_view(es)[i] == (es[i].0@, es[i].1@) by {
            if i < es.len() - 1 {
                assert(es.drop_last()[i] == es[i]);
                assert(entries_view(es)[i] == entries_view(es.drop_last())[i]);
            } else {
                assert(entries_view(es)[i] == (es.last().0@, es.last().1@));
            }
        }
    }
}

/// Well-formedness of a value: every table level inside it has unique keys.
pub open spec fn node_wf(n: NodeView) -> bool
    decreases n, 0nat,
{
    match n {
        NodeView::Nested(t) => table_wf(t),
        NodeView::Array(s) => forall|i: int| 0 <= i < s.len() ==> node_wf(#[trigger] s[i]),
        _ => true,
    }
}

/// Well-formedness of a table: unique keys at this level, and well-formed
/// values. Constructing tables through the library's operations keeps this.
pub open spec fn table_wf(t: TableView) -> bool
    decreases t, 1nat,
{
    assoc_unique(t) && (forall|i: int| 0 <= i < t.len() ==> node_wf(#[trigger] t[i].1))
}

/// Binding one key to a well-formed value keeps a table well-formed.
pub proof fn lemma_table_wf_update(t: TableView, k: Seq<char>, v: NodeView)
    requires
        table_wf(t),
        node_wf(v),
    ensures
        table_wf(assoc_update(t, k, v)),
{
    lemma_assoc_update_unique(t, k, v);
    lemma_assoc_index_of(t, k);
    let u = assoc_update(t, k, v);
    assert forall|i: int| 0 <= i < u.len() implies node_wf(u[i].1) by {
        if assoc_contains(t, k) {
            if i != assoc_index_of(t, k) {
                assert(u[i] == t[i]);
            }
        } else {
            if i < t.len() {
                assert(u[i] == t[i]);
            }
        }
    }
}

/// How two values bound to the same key combine: nested tables merge
/// recursively, sequences concatenate (destination first), and any other
/// pairing is resolved by the source value replacing the destination value.
pub open spec fn spec_merge_nodes(d: NodeView, s: NodeView) -> NodeView
    decreases s, 0nat,
{
    match (d, s) {
        (NodeView::Nested(dt), NodeView::Nested(st)) => NodeView::Nested(spec_merge(dt, st)),
        (NodeView::Array(da), NodeView::Array(sa)) => NodeView::Array(da + sa),
        (_, other) => other,
    }
}

/// One source entry merged into a destination table: an existing binding for
/// the key is combined by [`spec_merge_nodes`], a missing one is appended.
pub open spec fn spec_merge_entry(d: TableView, k: Seq<char>, s: NodeView) -> TableView
    decreases s, 1nat,
{
    if assoc_contains(d, k) {
        d.update(assoc_index_of(d, k), (k, spec_merge_nodes(d[assoc_index_of(d, k)].1, s)))
    } else {
        d.push((k, s))
    }
}

/// The deep merge of `s` into `d`: source entries are folded in from first to
/// last, each by [`spec_merge_entry`]. Keys only in `d` are left untouched.
pub open spec fn spec_merge(d: TableView, s: TableView) -> TableView
    decreases s, 2nat,
{
    if s.len() == 0 {
        d
    } else {
        spec_merge_entry(spec_merge(d, s.drop_last()), s.last().0, s.last().1)
    }
}

/// Folding one more source entry into a merge of the first `k`.
pub proof fn lemma_spec_merge_step(d: TableView, s: TableView, k: int)
    requires
        0 <= k < s.len(),
    ensures
        spec_merge(d, s.take(k + 1)) == spec_merge_entry(
            spec_merge(d, s.take(k)),
            s[k].0,
            s[k].1,
        ),
{
    assert(s.take(k + 1).drop_last() =~= s.take(k));
    assert(s.take(k + 1).last() == s[k]);
}

/// The views of concatenated node sequences are the concatenated views.
pub proof fn lemma_nodes_view_concat(x: Seq<Node>, y: Seq<Node>)
    ensures
        nodes_view(x + y) =~= nodes_view(x) + nodes_view(y),
{
    lemma_nodes_view(x);
    lemma_nodes_view(y);
    lemma_nodes_view(x + y);
    assert forall|i: int|
        0 <= i < x.len() + y.len() implies nodes_view(x + y)[i] == (nodes_view(x)
        + nodes_view(y))[i] by {
        if i < x.len() {
            assert((x + y)[i] == x[i]);
        } else {
            assert((x + y)[i] == y[i - x.len()]);
        }
    }
}

impl Node {
    /// The nested table behind a mutable reference, when that is the active
    /// variant: the value then follows whatever the caller writes through
    /// the reference.
    pub fn as_nested_mut(&mut self) -> (r: Option<&mut Table>)
        ensures
            match r {
                Some(t) => old(self)@ == NodeView::Nested((*t)@) && final(self)@
                    == NodeView::Nested(final(t)@),
                None => !(old(self)@ is Nested) && *final(self) == *old(self),
            },
    {
        match self {
            Node::Nested(nested) => Some(nested),
            _ => None,
        }
    }

    /// Structural equality of two values: same variant, equal payloads,
    /// nested tables and sequences compared entry by entry.
    pub fn deep_eq(&self, other: &Node) -> (r: bool)
        ensures
            r == (self@ == other@),
        decreases self,
    {
        match (self, other) {
            (Node::Nested(a), Node::Nested(b)) => a.deep_eq(b),
            (Node::Array(a), Node::Array(b)) => nodes_eq(a, b),
            (Node::DateTime(a), Node::DateTime(b)) => a == b,
            (Node::Text(a), Node::Text(b)) => a.eq(b),
            (Node::Boolean(a), Node::Boolean(b)) => a == b,
            (Node::IntU128(a), Node::IntU128(b)) => a == b,
            (Node::IntU64(a), Node::IntU64(b)) => a == b,
            (Node::IntU32(a), Node::IntU32(b)) => a == b,
            (Node::Int128(a), Node::Int128(b)) => a == b,
            (Node::Int64(a), Node::Int64(b)) => a == b,
            (Node::Int32(a), Node::Int32(b)) => a == b,
            (Node::Float64(a), Node::Float64(b)) => a == b,
            (Node::Float32(a), Node::Float32(b)) => a == b,
            (Node::Absent, Node::Absent) => true,
            _ => false,
        }
    }
}

/// Element-by-element equality of two node sequences, by payload views.
#[verifier::loop_isolation(false)]
fn nodes_eq(a: &Array, b: &Array) -> (r: bool)
    ensures
        r == (nodes_view(a@) == nodes_view(b@)),
    decreases a,
{
    proof {
        lemma_nodes_view(a@);
        lemma_nodes_view(b@);
    }
    let n = a.len();
    if n != b.len() {
        return false;
    }
    let mut i: usize = 0;
    while i < n
        invariant
            i <= n,
            n == a@.len(),
            n == b@.len(),
            forall|j: int| 0 <= j < i ==> nodes_view(a@)[j] == nodes_view(b@)[j],
        decreases n - i,
    {
        proof {
            assert(decreases_to!(a => a@));
            assert(decreases_to!(a@ => a@[i as int]));
        }
        if !a[i].deep_eq(&b[i]) {
            proof {
                assert(nodes_view(a@)[i as int] != nodes_view(b@)[i as int]);
            }
            return false;
        }
        i += 1;
    }
    proof {
        assert(nodes_view(a@) =~= nodes_view(b@));
    }
    true
}

impl Table {
    /// Structural equality of two tables: the same entries, in the same
    /// order, with equal keys and structurally equal values.
    #[verifier::loop_isolation(false)]
    pub fn deep_eq(&self, other: &Table) -> (r: bool)
        ensures
            r == (self@ == other@),
        decreases self,
    {
        proof {
            lemma_entries_view(self.entries@);
            lemma_entries_view(other.entries@);
        }
        let n = self.entries.len();
        if n != other.entries.len() {
            return false;
        }
        let mut i: usize = 0;
        while i < n
            invariant
                i <= n,
                n == self.entries@.len(),
                n == other.entries@.len(),
                forall|j: int| 0 <= j < i ==> self@[j] == other@[j],
            decreases n - i,
        {
            if !self.entries[i].0.eq(&other.entries[i].0) {
                proof {
                    assert(self@[i as int] != other@[i as int]);
                }
                return false;
            }
            proof {
                assert(decreases_to!(self => self.entries));
                assert(decreases_to!(self.entries => self.entries@));
                assert(decreases_to!(self.entries@ => self.entries@[i as int]));
                assert(decreases_to!(self.entries@[i as int] => self.entries@[i as int].1));
            }
            if !self.entries[i].1.deep_eq(&other.entries[i].1) {
                proof {
                    assert(self@[i as int] != other@[i as int]);
                }
                return false;
            }
            i += 1;
        }
        proof {
            assert(self@ =~= other@);
        }
        true
    }
}

impl PartialEq for Node {
    /// Structural equality, as [`Node::deep_eq`].
    fn eq(&self, other: &Node) -> (r: bool) {
        self.deep_eq(other)
    }
}

impl vstd::std_specs::cmp::PartialEqSpecImpl for Node {
    open spec fn obeys_eq_spec() -> bool {
        true
    }

    open spec fn eq_spec(&self, other: &Node) -> bool {
        self@ == other@
    }
}

impl PartialEq for Table {
    /// Structural equality, as [`Table::deep_eq`].
    fn eq(&self, other: &Table) -> (r: bool) {
        self.deep_eq(other)
    }
}

impl vstd::std_specs::cmp::PartialEqSpecImpl for Table {
    open spec fn obeys_eq_spec() -> bool {
        true
    }

    open spec fn eq_spec(&self, other: &Table) -> bool {
        self@ == other@
    }
}

impl Default for Node {
    /// The explicit absence marker is the zero value.
    fn default() -> (r: Self)
        ensures
            r == Node::Absent,
    {
        Node::Absent
    }
}

impl From<Table> for Node {
    /// Wraps a table as a nested value.
    fn from(value: Table) -> (r: Self) {
        Node::Nested(value)
    }
}

impl vstd::std_specs::convert::FromSpecImpl<Table> for Node {
    open spec fn obeys_from_spec() -> bool {
        true
    }

    open spec fn from_spec(value: Table) -> Self {
        Node::Nested(value)
    }
}

impl From<Array> for Node {
    /// Wraps a sequence of values.
    fn from(value: Array) -> (r: Self) {
        Node::Array(value)
    }
}

impl vstd::std_specs::convert::FromSpecImpl<Array> for Node {
    open spec fn obeys_from_spec() -> bool {
        true
    }

    open spec fn from_spec(value: Array) -> Self {
        Node::Array(value)
    }
}

impl From<DateTime> for Node {
    /// Wraps a temporal value.
    fn from(value: DateTime) -> (r: Self) {
        Node::DateTime(value)
    }
}

impl vstd::std_specs::convert::FromSpecImpl<DateTime> for Node {
    open spec fn obeys_from_spec() -> bool {
        true
    }

    open spec fn from_spec(value: DateTime) -> Self {
        Node::DateTime(value)
    }
}

impl From<String> for Node {
    /// Wraps a text value.
    fn from(value: String) -> (r: Self) {
        Node::Text(value)
    }
}

impl vstd::std_specs::convert::FromSpecImpl<String> for Node {
    open spec fn obeys_from_spec() -> bool {
        true
    }

    open spec fn from_spec(value: String) -> Self {
        Node::Text(value)
    }
}

impl From<&str> for Node {
    /// Wraps a string slice as an owned text value.
    fn from(value: &str) -> (r: Self)
        ensures
            r matches Node::Text(s) && s@ == value@,
    {
        Node::Text(value.to_owned())
    }
}

impl vstd::std_specs::convert::FromSpecImpl<&str> for Node {
    open spec fn obeys_from_spec() -> bool {
        false
    }

    open spec fn from_spec(value: &str) -> Self {
        Node::Absent
    }
}

impl From<bool> for Node {
    /// Wraps a boolean value.
    fn from(value: bool) -> (r: Self) {
        Node::Boolean(value)
    }
}

impl vstd::std_specs::convert::FromSpecImpl<bool> for Node {
    open spec fn obeys_from_spec() -> bool {
        true
    }

    open spec fn from_spec(value: bool) -> Self {
        Node::Boolean(value)
    }
}

impl From<u128> for Node {
    /// Wraps an unsigned 128-bit integer.
    fn from(value: u128) -> (r: Self) {
        Node::IntU128(value)
    }
}

impl vstd::std_specs::convert::FromSpecImpl<u128> for Node {
    open spec fn obeys_from_spec() -> bool {
        true
    }

    open spec fn from_spec(value: u128) -> Self {
        Node::IntU128(value)
    }
}

impl From<u64> for Node {
    /// Wraps an unsigned 64-bit integer.
    fn from(value: u64) -> (r: Self) {
        Node::IntU64(value)
    }
}

impl vstd::std_specs::convert::FromSpecImpl<u64> for Node {
    open spec fn obeys_from_spec() -> bool {
        true
    }

    open spec fn from_spec(value: u64) -> Self {
        Node::IntU64(value)
    }
}

impl From<u32> for Node {
    /// Wraps an unsigned 32-bit integer.
    fn from(value: u32) -> (r: Self) {
        Node::IntU32(value)
    }
}

impl vstd::std_specs::convert::FromSpecImpl<u32> for Node {
    open spec fn obeys_from_spec() -> bool {
        true
    }

    open spec fn from_spec(value: u32) -> Self {
        Node::IntU32(value)
    }
}

impl From<i128> for Node {
    /// Wraps a signed 128-bit integer.
    fn from(value: i128) -> (r: Self) {
        Node::Int128(value)
    }
}

impl vstd::std_specs::convert::FromSpecImpl<i128> for Node {
    open spec fn obeys_from_spec() -> bool {
        true
    }

    open spec fn from_spec(value: i128) -> Self {
        Node::Int128(value)
    }
}

impl From<i64> for Node {
    /// Wraps a signed 64-bit integer.
    fn from(value: i64) -> (r: Self) {
        Node::Int64(value)
    }
}

impl vstd::std_specs::convert::FromSpecImpl<i64> for Node {
    open spec fn obeys_from_spec() -> bool {
        true
    }

    open spec fn from_spec(value: i64) -> Self {
        Node::Int64(value)
    }
}

impl From<i32> for Node {
    /// Wraps a signed 32-bit integer.
    fn from(value: i32) -> (r: Self) {
        Node::Int32(value)
    }
}

impl vstd::std_specs::convert::FromSpecImpl<i32> for Node {
    open spec fn obeys_from_spec() -> bool {
        true
    }

    open spec fn from_spec(value: i32) -> Self {
        Node::Int32(value)
    }
}

/// Merging an empty source table changes nothing: for every table `t`,
/// `spec_merge(t, empty) == t`.
pub proof fn lemma_merge_empty_identity(t: TableView)
    ensures
        spec_merge(t, Seq::empty()) == t,
{
}

/// What a merge binds each key to, pointwise, for a source table with unique
/// keys: a key present on both sides combines the two values by
/// [`spec_merge_nodes`] — nested tables merge recursively, sequences
/// concatenate, any other pairing takes the source value — a key present only
/// in the source takes the source value, and a key present only in the
/// destination keeps the destination value. In particular the merge binds
/// exactly the union of the two key sets.
pub proof fn lemma_merge_lookup(d: TableView, s: TableView, k: Seq<char>)
    requires
        assoc_unique(s),
    ensures
        assoc_get(spec_merge(d, s), k) == (match (assoc_get(d, k), assoc_get(s, k)) {
            (Some(a), Some(b)) => Some(spec_merge_nodes(a, b)),
            (None, Some(b)) => Some(b),
            (Some(a), None) => Some(a),
            (None, None) => None::<NodeView>,
        }),
    decreases s.len(),
{
    if s.len() == 0 {
        lemma_assoc_index_of(s, k);
    } else {
        let st = s.drop_last();
        let kl = s.last().0;
        let vl = s.last().1;
        assert(assoc_unique(st)) by {
            assert(forall|i: int, j: int|
                0 <= i < j < st.len() ==> st[i] == s[i] && st[j] == s[j]);
        }
        lemma_merge_lookup(d, st, k);
        let m = spec_merge(d, st);
        // The last source key occurs nowhere earlier in the source.
        assert(forall|j: int| 0 <= j < st.len() ==> st[j] == s[j]);
        assert(!assoc_contains(st, kl)) by {
            lemma_assoc_index_of(st, kl);
            if assoc_contains(st, kl) {
                let i = assoc_index_of(st, kl);
                assert(s[i].0 == s[s.len() - 1].0);
            }
        }
        assert(s =~= st.push(s.last()));
        lemma_assoc_snoc(st, s.last(), k);
        lemma_assoc_index_of(m, kl);
        let x = if assoc_contains(m, kl) {
            spec_merge_nodes(m[assoc_index_of(m, kl)].1, vl)
        } else {
            vl
        };
        assert(spec_merge_entry(m, kl, vl) == assoc_update(m, kl, x));
        if k == kl {
            lemma_assoc_update_get(m, kl, x);
        } else {
            lemma_assoc_update_get_other(m, kl, x, k);
        }
    }
}

/// Combining two well-formed values yields a well-formed value.
pub proof fn lemma_merge_nodes_preserves_wf(d: NodeView, s: NodeView)
    requires
        node_wf(d),
        node_wf(s),
    ensures
        node_wf(spec_merge_nodes(d, s)),
    decreases s, 0nat,
{
    match (d, s) {
        (NodeView::Nested(dt), NodeView::Nested(st)) => {
            lemma_merge_preserves_wf(dt, st);
        },
        (NodeView::Array(da), NodeView::Array(sa)) => {
            assert forall|i: int| 0 <= i < (da + sa).len() implies node_wf((da + sa)[i]) by {
                if i < da.len() {
                    assert((da + sa)[i] == da[i]);
                } else {
                    assert((da + sa)[i] == sa[i - da.len()]);
                }
            }
        },
        _ => {},
    }
}

/// Folding one well-formed source entry in keeps a table well-formed.
pub proof fn lemma_merge_entry_preserves_wf(d: TableView, k: Seq<char>, s: NodeView)
    requires
        table_wf(d),
        node_wf(s),
    ensures
        table_wf(spec_merge_entry(d, k, s)),
    decreases s, 1nat,
{
    lemma_assoc_index_of(d, k);
    if assoc_contains(d, k) {
        let x = assoc_index_of(d, k);
        assert(node_wf(d[x].1));
        lemma_merge_nodes_preserves_wf(d[x].1, s);
        assert(spec_merge_entry(d, k, s) == assoc_update(d, k, spec_merge_nodes(d[x].1, s)));
        lemma_table_wf_update(d, k, spec_merge_nodes(d[x].1, s));
    } else {
        lemma_table_wf_update(d, k, s);
    }
}

/// The invariant of the data model survives a merge: a merge of two
/// well-formed tables is well-formed — keys stay unique within every table
/// level.
pub proof fn lemma_merge_preserves_wf(d: TableView, s: TableView)
    requires
        table_wf(d),
        table_wf(s),
    ensures
        table_wf(spec_merge(d, s)),
    decreases s, 2nat,
{
    if s.len() > 0 {
        let st = s.drop_last();
        assert(table_wf(st)) by {
            assert(forall|i: int| 0 <= i < st.len() ==> st[i] == s[i]);
            assert forall|i: int| 0 <= i < st.len() implies node_wf(#[trigger] st[i].1) by {
                assert(node_wf(s[i].1));
            }
        }
        lemma_merge_preserves_wf(d, st);
        assert(node_wf(s[s.len() - 1].1));
        lemma_merge_entry_preserves_wf(spec_merge(d, st), s.last().0, s.last().1);
    }
}

/// Deep-merges the source table `src` into the destination table `dst`.
///
/// Per key present in `src`: nested tables under the same key merge
/// recursively, sequences under the same key concatenate (destination's
/// elements first), and any other pairing has the source value replace the
/// destination value. Keys present only in `dst` are left untouched. The
/// policy is deliberately best-effort: it is neither commutative nor
/// associative in general.
#[verifier::loop_isolation(false)]
pub fn merge_tables(mut dst: Table, src: Table) -> (r: Table)
    ensures
        r@ == spec_merge(dst@, src@),
        table_wf(dst@) && table_wf(src@) ==> table_wf(r@),
    decreases src,
{
    let ghost dst0 = dst;
    let ghost src0 = src;
    proof {
        lemma_entries_view(src0.entries@);
    }
    let Table { entries: mut sentries } = src;
    let n = sentries.len();
    let mut k: usize = 0;
    while k < n
        invariant
            n == src0.entries@.len(),
            k <= n,
            sentries@ =~= src0.entries@.skip(k as int),
            dst@ == spec_merge(dst0@, src0@.take(k as int)),
            src0@.len() == n,
            forall|j: int|
                0 <= j < n ==> src0@[j] == (src0.entries@[j].0@, src0.entries@[j].1@),
        decreases n - k,
    {
        let (key, node) = sentries.remove(0);
        proof {
            assert(node == src0.entries@[k as int].1);
            assert(sentries@ =~= src0.entries@.skip(k as int + 1));
            lemma_spec_merge_step(dst0@, src0@, k as int);
        }
        let ghost dst_before = dst@;
        match dst.index_of(key.as_str()) {
            None => {
                proof {
                    lemma_entries_view(dst.entries@);
                }
                let ghost before = dst.entries@;
                dst.entries.push((key, node));
                proof {
                    lemma_entries_view(dst.entries@);
                    lemma_entries_view(before);
                    assert(dst@ =~= dst_before.push((src0@[k as int].0, src0@[k as int].1)));
                }
            },
            Some(idx) => {
                proof {
                    lemma_assoc_index_of(dst_before, key@);
                    lemma_entries_view(dst.entries@);
                }
                let ghost before = dst.entries@;
                let (dkey, dnode) = dst.entries.remove(idx);
                let merged: Node = match (dnode, node) {
                    (Node::Nested(a), Node::Nested(b)) => {
                        proof {
                            let ghost sn = src0.entries@[k as int].1;
                            assert(decreases_to!(src0 => src0.entries));
                            assert(decreases_to!(src0.entries => src0.entries@));
                            assert(decreases_to!(src0.entries@ => src0.entries@[k as int]));
                            assert(decreases_to!(src0.entries@[k as int] => sn));
                            assert(sn == Node::Nested(b));
                            assert(decreases_to!(sn => sn->Nested_0));
                            assert(sn->Nested_0 == b);
                            assert(decreases_to!(src0 => b));
                        }
                        let m = merge_tables(a, b);
                        Node::Nested(m)
                    },
                    (Node::Array(mut a), Node::Array(mut b)) => {
                        let ghost a0 = a@;
                        let ghost b0 = b@;
                        a.append(&mut b);
                        proof {
                            lemma_nodes_view_concat(a0, b0);
                        }
                        Node::Array(a)
                    },
                    (_, snode) => snode,
                };
                dst.entries.insert(idx, (dkey, merged));
                proof {
                    assert(dst.entries@ =~= before.update(idx as int, (dkey, merged)));
                    lemma_entries_view(dst.entries@);
                    lemma_entries_view(before);
                    assert(dst@ =~= dst_before.update(
                        idx as int,
                        (key@, merged@),
                    ));
                    assert(dst_before[idx as int].0 == key@);
                    assert(dst@ =~= spec_merge_entry(dst_before, src0@[k as int].0, src0@[k as int].1));
                }
            },
        }
        k += 1;
    }
    proof {
        assert(src0@.take(n as int) =~= src0@);
        if table_wf(dst0@) && table_wf(src0@) {
            lemma_merge_preserves_wf(dst0@, src0@);
        }
    }
    dst
}

impl Table {
    /// Creates an empty table.
    pub fn new() -> (r: Table)
        ensures
            r@ == Seq::<(Seq<char>, NodeView)>::empty(),
    {
        Table { entries: Vec::new() }
    }

    /// The number of entries at this table level.
    pub fn len(&self) -> (r: usize)
        ensures
            r == self@.len(),
    {
        proof {
            lemma_entries_view(self.entries@);
        }
        self.entries.len()
    }

    /// Position of the first entry whose key equals `key`.
    pub(crate) fn index_of(&self, key: &str) -> (r: Option<usize>)
        ensures
            match r {
                Some(i) => i == assoc_index_of(self@, key@) && assoc_contains(self@, key@),
                None => !assoc_contains(self@, key@),
            },
    {
        proof {
            lemma_entries_view(self.entries@);
        }
        let k = key.to_owned();
        let n = self.entries.len();
        let mut i: usize = 0;
        while i < n
            invariant
                n == self.entries.len(),
                i <= n,
                k@ == key@,
                forall|j: int| 0 <= j < i ==> self@[j].0 != key@,
                entries_view(self.entries@).len() == n,
                forall|j: int|
                    0 <= j < n ==> entries_view(self.entries@)[j] == (
                        self.entries@[j].0@,
                        self.entries@[j].1@,
                    ),
            decreases n - i,
        {
            if self.entries[i].0 == k {
                proof {
                    lemma_assoc_index_of_first(self@, key@, i as int);
                }
                return Some(i);
            }
            i += 1;
        }
        proof {
            lemma_assoc_index_of(self@, key@);
        }
        None
    }

    /// Whether this table level has an entry for `key`.
    pub fn contains_key(&self, key: &str) -> (r: bool)
        ensures
            r == assoc_contains(self@, key@),
    {
        match self.index_of(key) {
            Some(_) => true,
            None => false,
        }
    }

    /// A reference to the value bound to `key` at this table level, if any.
    pub fn get(&self, key: &str) -> (r: Option<&Node>)
        ensures
            match r {
                Some(n) => assoc_get(self@, key@) == Some(n@),
                None => assoc_get(self@, key@) is None,
            },
    {
        match self.index_of(key) {
            Some(i) => {
                proof {
                    lemma_entries_view(self.entries@);
                    lemma_assoc_index_of(self@, key@);
                }
                Some(&self.entries[i].1)
            },
            None => None,
        }
    }

    /// Removes and returns the entry at position `i`.
    pub(crate) fn remove_entry_at(&mut self, i: usize) -> (r: (String, Node))
        requires
            i < old(self)@.len(),
        ensures
            final(self)@ == old(self)@.remove(i as int),
            r.0@ == old(self)@[i as int].0,
            r.1@ == old(self)@[i as int].1,
    {
        proof {
            lemma_entries_view(self.entries@);
        }
        let ghost before = self.entries@;
        let r = self.entries.remove(i);
        proof {
            lemma_entries_view(self.entries@);
            lemma_entries_view(before);
            assert(self@ =~= old(self)@.remove(i as int));
        }
        r
    }

    /// Inserts an entry at position `i`, shifting later entries back.
    pub(crate) fn insert_entry_at(&mut self, i: usize, key: String, value: Node)
        requires
            i <= old(self)@.len(),
        ensures
            final(self)@ == old(self)@.insert(i as int, (key@, value@)),
    {
        proof {
            lemma_entries_view(self.entries@);
        }
        let ghost before = self.entries@;
        self.entries.insert(i, (key, value));
        proof {
            lemma_entries_view(self.entries@);
            lemma_entries_view(before);
            assert(self@ =~= old(self)@.insert(i as int, (key@, value@)));
        }
    }

    /// Binds `key` to `value` at this table level: replaces the first entry
    /// with that key in place, or appends a new entry. A well-formed table
    /// stays well-formed when the value written is.
    pub fn insert(&mut self, key: String, value: Node)
        ensures
            final(self)@ == assoc_update(old(self)@, key@, value@),
            table_wf(old(self)@) && node_wf(value@) ==> table_wf(final(self)@),
    {
        proof {
            if table_wf(old(self)@) && node_wf(value@) {
                lemma_table_wf_update(old(self)@, key@, value@);
            }
        }
        proof {
            lemma_entries_view(self.entries@);
        }
        match self.index_of(key.as_str()) {
            Some(i) => {
                proof {
                    lemma_assoc_index_of(self@, key@);
                }
                let ghost before = self.entries@;
                let _ = self.entries.remove(i);
                self.entries.insert(i, (key, value));
                proof {
                    assert(self.entries@ =~= before.update(
                        i as int,
                        (self.entries@[i as int].0, self.entries@[i as int].1),
                    ));
                    lemma_entries_view(self.entries@);
                    assert(self@ =~= assoc_update(old(self)@, key@, value@));
                }
            },
            None => {
                let ghost before = self.entries@;
                self.entries.push((key, value));
                proof {
                    lemma_entries_view(self.entries@);
                    lemma_entries_view(before);
                    assert(self@ =~= assoc_update(old(self)@, key@, value@));
                }
            },
        }
    }
}

} // verus!
