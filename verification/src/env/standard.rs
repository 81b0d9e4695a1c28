//! The standard environment: one owned table, addressed by dotted keys.
//!
//! A dotted key such as `a.b.c` names a location in the table tree: all but
//! the last segment select nested tables, the last segment selects the entry
//! itself. [`spec_split`], [`spec_get`] and [`spec_set`] are the mathematical
//! account of splitting and of the two walks; the executable operations are
//! proved against them.

use vstd::prelude::*;

use crate::assoc::{assoc_contains, assoc_get, assoc_index_of, assoc_update, lemma_assoc_index_of,
    lemma_assoc_update_get};
use crate::domain::{lemma_table_wf_update, merge_tables, node_wf, spec_merge, table_wf, Node,
    NodeView, Table, TableView};
use crate::error::{ConfigerError, FileError};
use crate::reader::{ConfigReader, ConfigReaderRegistry, PathReader};

verus! {

/// Splits a dotted key into its segments: the maximal runs of characters
/// between `'.'` separators. The empty key yields one empty segment.
pub open spec fn spec_split(s: Seq<char>) -> Seq<Seq<char>>
    decreases s.len(),
    via spec_split_decreases
{
    let d = first_dot(s);
    if d < 0 {
        seq![s]
    } else {
        seq![s.take(d)] + spec_split(s.skip(d + 1))
    }
}

#[via_fn]
proof fn spec_split_decreases(s: Seq<char>) {
    lemma_first_dot(s);
}

/// Index of the first `'.'` in `s`, or `-1` if there is none.
pub open spec fn first_dot(s: Seq<char>) -> int
    decreases s.len(),
{
    if s.len() == 0 {
        -1
    } else if s[0] == '.' {
        0
    } else {
        let r = first_dot(s.skip(1));
        if r < 0 {
            -1
        } else {
            r + 1
        }
    }
}

/// What `first_dot` returns: a position bounded by the length that holds a
/// dot and has none before it, or `-1` when the string is dot-free.
pub proof fn lemma_first_dot(s: Seq<char>)
    ensures
        first_dot(s) >= 0 ==> first_dot(s) < s.len() && s[first_dot(s)] == '.' && (forall|j: int|
            0 <= j < first_dot(s) ==> s[j] != '.'),
        first_dot(s) < 0 ==> forall|j: int| 0 <= j < s.len() ==> s[j] != '.',
    decreases s.len(),
{
    if s.len() > 0 && s[0] != '.' {
        lemma_first_dot(s.skip(1));
        let d = first_dot(s.skip(1));
        if d >= 0 {
            assert forall|j: int| 0 <= j < first_dot(s) implies s[j] != '.' by {
                if j > 0 {
                    assert(s.skip(1)[j - 1] == s[j]);
                }
            }
        } else {
            assert forall|j: int| 0 <= j < s.len() implies s[j] != '.' by {
                if j > 0 {
                    assert(s.skip(1)[j - 1] == s[j]);
                }
            }
        }
    }
}

/// A first dot at `i` pins `first_dot` down to `i`.
pub proof fn lemma_first_dot_at(s: Seq<char>, i: int)
    requires
        0 <= i < s.len(),
        s[i] == '.',
        forall|j: int| 0 <= j < i ==> s[j] != '.',
    ensures
        first_dot(s) == i,
    decreases s.len(),
{
    if s[0] != '.' {
        assert forall|j: int| 0 <= j < i - 1 implies s.skip(1)[j] != '.' by {
            assert(s.skip(1)[j] == s[j + 1]);
        }
        assert(s.skip(1)[i - 1] == s[i]);
        lemma_first_dot_at(s.skip(1), i - 1);
    }
}

/// A dot-free string pins `first_dot` down to `-1`.
pub proof fn lemma_first_dot_none(s: Seq<char>)
    requires
        forall|j: int| 0 <= j < s.len() ==> s[j] != '.',
    ensures
        first_dot(s) == -1,
    decreases s.len(),
{
    if s.len() > 0 {
        assert forall|j: int| 0 <= j < s.skip(1).len() implies s.skip(1)[j] != '.' by {
            assert(s.skip(1)[j] == s[j + 1]);
        }
        lemma_first_dot_none(s.skip(1));
    }
}

/// The views of the key segments from position `i` on.
pub open spec fn keys_view(keys: Seq<String>, i: int) -> Seq<Seq<char>> {
    Seq::new((keys.len() - i) as nat, |j: int| keys[i + j]@)
}

/// Splits a dotted key into its segment strings.
fn split_key(key: &str) -> (r: Vec<String>)
    ensures
        keys_view(r@, 0) == spec_split(key@),
        r@.len() >= 1,
{
    let ghost s = key@;
    let n = key.unicode_len();
    let mut segs: Vec<String> = Vec::new();
    let mut start: usize = 0;
    let mut i: usize = 0;
    proof {
        assert(s.skip(0) =~= s);
        assert(keys_view(segs@, 0) =~= Seq::<Seq<char>>::empty());
        assert(spec_split(s) =~= keys_view(segs@, 0) + spec_split(s.skip(0)));
    }
    while i < n
        invariant
            start <= i <= n,
            n == s.len(),
            key@ == s,
            spec_split(s) =~= keys_view(segs@, 0) + spec_split(s.skip(start as int)),
            forall|j: int| start <= j < i ==> s[j] != '.',
        decreases n - i,
    {
        if key.get_char(i) == '.' {
            let seg = key.substring_char(start, i).to_owned();
            let ghost segs_before = segs@;
            segs.push(seg);
            proof {
                let sk = s.skip(start as int);
                assert forall|j: int| 0 <= j < i - start implies sk[j] != '.' by {
                    assert(sk[j] == s[start + j]);
                }
                assert(sk[i - start] == s[i as int]);
                lemma_first_dot_at(sk, i - start);
                assert(sk.take(i - start) =~= seg@);
                assert(sk.skip(i - start + 1) =~= s.skip(i as int + 1));
                assert(keys_view(segs@, 0) =~= keys_view(segs_before, 0).push(seg@));
                assert(spec_split(s) =~= keys_view(segs@, 0) + spec_split(s.skip(i as int + 1)));
            }
            start = i + 1;
        }
        i += 1;
    }
    let seg = key.substring_char(start, n).to_owned();
    let ghost segs_before = segs@;
    segs.push(seg);
    proof {
        let sk = s.skip(start as int);
        assert forall|j: int| 0 <= j < sk.len() implies sk[j] != '.' by {
            assert(sk[j] == s[start + j]);
        }
        lemma_first_dot_none(sk);
        assert(sk =~= seg@);
        assert(spec_split(sk) =~= seq![seg@]);
        assert(keys_view(segs@, 0) =~= keys_view(segs_before, 0).push(seg@));
        assert(keys_view(segs@, 0) =~= spec_split(s));
    }
    segs
}

/// The read walk: all but the last segment must select nested tables; the
/// value at the last segment is returned whatever its variant. A missing key
/// fails with `NotFound`, a non-nested value at a non-final segment fails
/// with `NonNested`, and an empty path fails with `EmptyKey`.
pub open spec fn spec_get(t: TableView, path: Seq<Seq<char>>) -> Result<NodeView, ConfigerError>
    decreases path.len(),
{
    if path.len() == 0 {
        Err(ConfigerError::EmptyKey)
    } else {
        match assoc_get(t, path[0]) {
            None => Err(ConfigerError::NotFound),
            Some(n) => {
                if path.len() == 1 {
                    Ok(n)
                } else {
                    match n {
                        NodeView::Nested(sub) => spec_get(sub, path.drop_first()),
                        _ => Err(ConfigerError::NonNested),
                    }
                }
            },
        }
    }
}

/// The write walk: all but the last segment descend into nested tables,
/// creating empty ones where the key is missing; a non-nested value under a
/// non-final segment fails with `NonNested` and leaves the table unchanged.
/// The last segment binds the value outright, replacing whatever was there —
/// including a whole nested subtree.
pub open spec fn spec_set(t: TableView, path: Seq<Seq<char>>, v: NodeView) -> Result<
    TableView,
    ConfigerError,
>
    decreases path.len(),
{
    if path.len() == 0 {
        Err(ConfigerError::EmptyKey)
    } else if path.len() == 1 {
        Ok(assoc_update(t, path[0], v))
    } else {
        let sub = if assoc_contains(t, path[0]) {
            assoc_get(t, path[0]).unwrap()
        } else {
            NodeView::Nested(Seq::empty())
        };
        match sub {
            NodeView::Nested(st) => match spec_set(st, path.drop_first(), v) {
                Ok(st2) => Ok(assoc_update(t, path[0], NodeView::Nested(st2))),
                Err(e) => Err(e),
            },
            _ => Err(ConfigerError::NonNested),
        }
    }
}

/// Writing under keys that are absent always succeeds: a walk that only
/// creates fresh tables can meet no non-nested value.
pub proof fn lemma_spec_set_fresh(path: Seq<Seq<char>>, v: NodeView)
    requires
        path.len() >= 1,
    ensures
        spec_set(Seq::empty(), path, v) is Ok,
    decreases path.len(),
{
    if path.len() > 1 {
        lemma_spec_set_fresh(path.drop_first(), v);
    }
}

/// The write walk keeps the data model's invariant: writing a well-formed
/// value into a well-formed table leaves every table level's keys unique.
pub proof fn lemma_set_preserves_wf(t: TableView, path: Seq<Seq<char>>, v: NodeView)
    requires
        table_wf(t),
        node_wf(v),
        spec_set(t, path, v) is Ok,
    ensures
        table_wf(spec_set(t, path, v).unwrap()),
    decreases path.len(),
{
    if path.len() == 1 {
        lemma_table_wf_update(t, path[0], v);
    } else {
        let sub = if assoc_contains(t, path[0]) {
            assoc_get(t, path[0]).unwrap()
        } else {
            NodeView::Nested(Seq::empty())
        };
        let st = sub->Nested_0;
        if assoc_contains(t, path[0]) {
            lemma_assoc_index_of(t, path[0]);
            assert(node_wf(t[assoc_index_of(t, path[0])].1));
        }
        lemma_set_preserves_wf(st, path.drop_first(), v);
        lemma_table_wf_update(
            t,
            path[0],
            NodeView::Nested(spec_set(st, path.drop_first(), v).unwrap()),
        );
    }
}

/// Round trip: a successful write of `v` at a non-empty path makes a read of
/// the same path return exactly `v`, whatever table the write started from.
pub proof fn lemma_set_get_round_trip(t: TableView, path: Seq<Seq<char>>, v: NodeView)
    requires
        path.len() > 0,
        spec_set(t, path, v) is Ok,
    ensures
        spec_get(spec_set(t, path, v).unwrap(), path) == Ok::<NodeView, ConfigerError>(v),
    decreases path.len(),
{
    if path.len() == 1 {
        lemma_assoc_update_get(t, path[0], v);
    } else {
        let sub = if assoc_contains(t, path[0]) {
            assoc_get(t, path[0]).unwrap()
        } else {
            NodeView::Nested(Seq::empty())
        };
        let st = sub->Nested_0;
        let st2 = spec_set(st, path.drop_first(), v).unwrap();
        lemma_set_get_round_trip(st, path.drop_first(), v);
        lemma_assoc_update_get(t, path[0], NodeView::Nested(st2));
    }
}

/// Round trip at the dotted-key level: after a successful write of `v` under
/// any key, a read of the same key returns exactly `v`.
pub proof fn lemma_set_get_round_trip_key(t: TableView, key: Seq<char>, v: NodeView)
    requires
        spec_set(t, spec_split(key), v) is Ok,
    ensures
        spec_get(spec_set(t, spec_split(key), v).unwrap(), spec_split(key)) == Ok::<
            NodeView,
            ConfigerError,
        >(v),
{
    assert(spec_split(key).len() > 0);
    lemma_set_get_round_trip(t, spec_split(key), v);
}

/// Blunt replace: after a successful write under `a.b`, writing a non-nested
/// value at the prefix `a` replaces the whole subtree under `a`, and a read
/// of `a.b` then fails with `NonNested` at the non-final segment `a`.
pub proof fn lemma_prefix_overwrite(
    t: TableView,
    a: Seq<char>,
    b: Seq<char>,
    v: NodeView,
    w: NodeView,
)
    requires
        spec_set(t, seq![a, b], v) is Ok,
        !(w is Nested),
    ensures
        spec_set(spec_set(t, seq![a, b], v).unwrap(), seq![a], w) is Ok,
        assoc_get(spec_set(spec_set(t, seq![a, b], v).unwrap(), seq![a], w).unwrap(), a) == Some(
            w,
        ),
        spec_get(spec_set(spec_set(t, seq![a, b], v).unwrap(), seq![a], w).unwrap(), seq![a, b])
            == Err::<NodeView, ConfigerError>(ConfigerError::NonNested),
{
    let t1 = spec_set(t, seq![a, b], v).unwrap();
    let t2 = spec_set(t1, seq![a], w).unwrap();
    assert(seq![a][0] == a);
    assert(t2 == assoc_update(t1, a, w));
    lemma_assoc_update_get(t1, a, w);
    assert(seq![a, b][0] == a);
    assert(seq![a, b].len() == 2);
}

/// What every configuration environment offers: dotted-key access to one
/// table and lookup of registered readers.
///
/// The methods carry no contracts of their own; the concrete
/// [`ConfigerEnvironment`] states exactly what each operation does.
pub trait Environment {
    /// The reader type the environment's registry hands out.
    type Reader;

    /// Binds the dotted key `key` to `value`.
    fn set(&mut self, key: &str, value: Node) -> Result<(), ConfigerError>;

    /// Looks the dotted key `key` up.
    fn get(&self, key: &str) -> Result<&Node, ConfigerError>;

    /// The reader registered under `suffix`, if any.
    fn try_acquire(&self, suffix: &str) -> Option<&Self::Reader>;

    /// All registered readers.
    fn try_acquires(&self) -> Vec<&Self::Reader>;
}

/// The environment: owns one table, resolves dotted keys through it, and
/// looks registered readers up by suffix.
pub struct ConfigerEnvironment<R> {
    ctx: Table,
    registry: Option<ConfigReaderRegistry<R>>,
}

impl<R: ConfigReader> ConfigerEnvironment<R> {
    /// The owned table, as a mathematical value.
    pub closed spec fn table_view(&self) -> TableView {
        self.ctx@
    }

    /// The owned registry, if the environment carries one.
    pub closed spec fn spec_registry(&self) -> Option<ConfigReaderRegistry<R>> {
        self.registry
    }

    /// An environment seeded with the given table — conventionally a snapshot
    /// of the process environment variables — and an empty registry.
    pub fn new(env_table: Table) -> (r: Self)
        ensures
            r.table_view() == env_table@,
            r.spec_registry() matches Some(reg) && reg@ == Seq::<(Seq<char>, R)>::empty(),
    {
        Self::mixed(Some(env_table), Some(ConfigReaderRegistry::new()), Table::new())
    }

    /// An environment over `table_opt`, falling back to `env_table` — the
    /// caller's snapshot of the process environment variables — when no table
    /// is supplied.
    pub fn mixed(
        table_opt: Option<Table>,
        registry: Option<ConfigReaderRegistry<R>>,
        env_table: Table,
    ) -> (r: Self)
        ensures
            r.spec_registry() == registry,
            r.table_view() == match table_opt {
                Some(t) => t@,
                None => env_table@,
            },
    {
        match table_opt {
            Some(table) => ConfigerEnvironment { ctx: table, registry },
            None => ConfigerEnvironment { ctx: env_table, registry },
        }
    }

    /// An environment over `table_opt` with `env_table` merged in second, so
    /// environment variables win on conflicting keys; with no table supplied
    /// the environment holds the snapshot alone.
    pub fn mixed_with_env_variables(
        table_opt: Option<Table>,
        registry: Option<ConfigReaderRegistry<R>>,
        env_table: Table,
    ) -> (r: Self)
        ensures
            r.spec_registry() == registry,
            r.table_view() == match table_opt {
                Some(t) => spec_merge(t@, env_table@),
                None => env_table@,
            },
    {
        match table_opt {
            Some(table) => {
                let merged_table = merge_tables(table, env_table);
                ConfigerEnvironment { ctx: merged_table, registry }
            },
            None => ConfigerEnvironment { ctx: env_table, registry },
        }
    }

    /// An environment over the given table with the environment snapshot
    /// merged in second, and an empty registry.
    pub fn table(table: Table, env_table: Table) -> (r: Self)
        ensures
            r.table_view() == spec_merge(table@, env_table@),
            r.spec_registry() matches Some(reg) && reg@ == Seq::<(Seq<char>, R)>::empty(),
    {
        Self::mixed_with_env_variables(Some(table), Some(ConfigReaderRegistry::new()), env_table)
    }

    /// An earlier name for [`Self::table`], kept for callers that still use it.
    pub fn build(table: Table, env_table: Table) -> (r: Self)
        ensures
            r.table_view() == spec_merge(table@, env_table@),
            r.spec_registry() matches Some(reg) && reg@ == Seq::<(Seq<char>, R)>::empty(),
    {
        Self::table(table, env_table)
    }

    /// Replaces the owned table outright.
    pub fn register_table(&mut self, table: Table)
        ensures
            final(self).table_view() == table@,
            final(self).spec_registry() == old(self).spec_registry(),
    {
        self.ctx = table;
    }

    /// Replaces the owned table by `table` with the environment snapshot
    /// merged in second.
    pub fn register_table_with_env_variables(&mut self, table: Table, env_table: Table)
        ensures
            final(self).table_view() == spec_merge(table@, env_table@),
            final(self).spec_registry() == old(self).spec_registry(),
    {
        let merged_table = merge_tables(table, env_table);
        self.ctx = merged_table;
    }

    /// Merges `table` into the owned table, source entries winning by the
    /// merge rules.
    pub fn merge_table(&mut self, table: Table)
        ensures
            final(self).table_view() == spec_merge(old(self).table_view(), table@),
            final(self).spec_registry() == old(self).spec_registry(),
    {
        let mut taken = Table::new();
        core::mem::swap(&mut self.ctx, &mut taken);
        self.ctx = merge_tables(taken, table);
    }

    /// The reader registered under `suffix`, if the environment carries a
    /// registry that knows the suffix.
    pub fn try_acquire(&self, suffix: &str) -> (r: Option<&R>)
        ensures
            match self.spec_registry() {
                Some(reg) => match r {
                    Some(rd) => assoc_get(reg@, suffix@) == Some(*rd),
                    None => assoc_get(reg@, suffix@) is None,
                },
                None => r is None,
            },
    {
        match &self.registry {
            Some(registry) => registry.try_acquire(suffix),
            None => None,
        }
    }

    /// All registered readers; empty if the environment carries no registry.
    pub fn try_acquires(&self) -> (r: Vec<&R>)
        ensures
            match self.spec_registry() {
                Some(reg) => r@.len() == reg@.len() && (forall|i: int|
                    0 <= i < reg@.len() ==> r@[i] == reg@[i].1),
                None => r@.len() == 0,
            },
    {
        match &self.registry {
            Some(registry) => registry.try_acquires(),
            None => Vec::new(),
        }
    }

    /// Binds the dotted key `key` to `value`, creating intermediate tables
    /// as needed. Fails with `EmptyKey` on the empty key and with `NonNested`
    /// when a non-final segment meets a value that is not a nested table; on
    /// failure the owned table is unchanged.
    pub fn set(&mut self, key: &str, value: Node) -> (r: Result<(), ConfigerError>)
        ensures
            final(self).spec_registry() == old(self).spec_registry(),
            key@.len() == 0 ==> r == Err::<(), ConfigerError>(ConfigerError::EmptyKey) && final(self).table_view() == old(self).table_view(),
            key@.len() > 0 ==> match spec_set(
                old(self).table_view(),
                spec_split(key@),
                value@,
            ) {
                Ok(t2) => r is Ok && final(self).table_view() == t2,
                Err(e) => r == Err::<(), ConfigerError>(e) && final(self).table_view() == old(self).table_view(),
            },
            table_wf(old(self).table_view()) && node_wf(value@) ==> table_wf(
                final(self).table_view(),
            ),
    {
        if key.is_empty() {
            return Err(ConfigerError::EmptyKey);
        }
        let keys = split_key(key);
        let r = self.set_nested(keys, value);
        proof {
            if table_wf(old(self).table_view()) && node_wf(value@) && r is Ok {
                lemma_set_preserves_wf(old(self).table_view(), spec_split(key@), value@);
            }
        }
        r
    }

    /// Binds the dotted key `k` to any value a node can be made from: the
    /// conversion runs first, then the write behaves exactly like [`Self::set`].
    pub fn set_t<T>(&mut self, k: &str, v: T) -> (r: Result<(), ConfigerError>) where
        Node: From<T>,

        ensures
            final(self).spec_registry() == old(self).spec_registry(),
            <Node as vstd::std_specs::convert::FromSpec<T>>::obeys_from_spec() ==> {
                let value = <Node as vstd::std_specs::convert::FromSpec<T>>::from_spec(v);
                &&& (k@.len() == 0 ==> r == Err::<(), ConfigerError>(ConfigerError::EmptyKey)
                    && final(self).table_view() == old(self).table_view())
                &&& (k@.len() > 0 ==> match spec_set(
                    old(self).table_view(),
                    spec_split(k@),
                    value@,
                ) {
                    Ok(t2) => r is Ok && final(self).table_view() == t2,
                    Err(e) => r == Err::<(), ConfigerError>(e) && final(self).table_view() == old(
                        self,
                    ).table_view(),
                })
            },
    {
        self.set(k, v.into())
    }

    /// Looks the dotted key `key` up. Fails with `EmptyKey` on the empty key,
    /// with `NotFound` where a segment names no entry, and with `NonNested`
    /// when a non-final segment meets a value that is not a nested table.
    pub fn get(&self, key: &str) -> (r: Result<&Node, ConfigerError>)
        ensures
            key@.len() == 0 ==> r == Err::<&Node, ConfigerError>(ConfigerError::EmptyKey),
            key@.len() > 0 ==> match r {
                Ok(n) => spec_get(self.table_view(), spec_split(key@)) == Ok::<
                    NodeView,
                    ConfigerError,
                >(n@),
                Err(e) => spec_get(self.table_view(), spec_split(key@)) == Err::<
                    NodeView,
                    ConfigerError,
                >(e),
            },
    {
        if key.is_empty() {
            return Err(ConfigerError::EmptyKey);
        }
        let keys = split_key(key);
        self.get_nested(&keys)
    }

    /// Binds the already-split key to `value`.
    fn set_nested(&mut self, keys: Vec<String>, value: Node) -> (r: Result<(), ConfigerError>)
        ensures
            final(self).spec_registry() == old(self).spec_registry(),
            keys@.len() == 0 ==> r == Err::<(), ConfigerError>(ConfigerError::EmptyKey) && final(self).table_view() == old(self).table_view(),
            keys@.len() > 0 ==> match spec_set(
                old(self).table_view(),
                keys_view(keys@, 0),
                value@,
            ) {
                Ok(t2) => r is Ok && final(self).table_view() == t2,
                Err(e) => r == Err::<(), ConfigerError>(e) && final(self).table_view() == old(self).table_view(),
            },
    {
        if keys.is_empty() {
            return Err(ConfigerError::EmptyKey);
        }
        Self::set_nested_recursive(&mut self.ctx, &keys, 0, value)
    }

    /// Looks the already-split key up.
    fn get_nested(&self, keys: &Vec<String>) -> (r: Result<&Node, ConfigerError>)
        ensures
            keys@.len() == 0 ==> r == Err::<&Node, ConfigerError>(ConfigerError::EmptyKey),
            keys@.len() > 0 ==> match r {
                Ok(n) => spec_get(self.table_view(), keys_view(keys@, 0)) == Ok::<
                    NodeView,
                    ConfigerError,
                >(n@),
                Err(e) => spec_get(self.table_view(), keys_view(keys@, 0)) == Err::<
                    NodeView,
                    ConfigerError,
                >(e),
            },
    {
        if keys.is_empty() {
            return Err(ConfigerError::EmptyKey);
        }
        Self::get_nested_recursive(&self.ctx, keys, 0)
    }

    /// One level of the write walk, from segment `i` on.
    fn set_nested_recursive(
        node_ref: &mut Table,
        keys: &Vec<String>,
        i: usize,
        value: Node,
    ) -> (r: Result<(), ConfigerError>)
        requires
            i < keys@.len(),
        ensures
            match r {
                Ok(_) => spec_set(old(node_ref)@, keys_view(keys@, i as int), value@) == Ok::<
                    TableView,
                    ConfigerError,
                >(final(node_ref)@),
                Err(e) => spec_set(old(node_ref)@, keys_view(keys@, i as int), value@) == Err::<
                    TableView,
                    ConfigerError,
                >(e) && final(node_ref)@ == old(node_ref)@,
            },
        decreases keys@.len() - i,
    {
        let ghost path = keys_view(keys@, i as int);
        let n = keys.len();
        let key = keys[i].clone();
        if i + 1 == n {
            node_ref.insert(key, value);
            proof {
                assert(path.len() == 1);
                assert(path[0] == key@);
            }
            Ok(())
        } else {
            proof {
                assert(path.drop_first() =~= keys_view(keys@, i as int + 1));
                assert(path[0] == key@);
            }
            match node_ref.index_of(key.as_str()) {
                Some(idx) => {
                    proof {
                        lemma_assoc_index_of(node_ref@, key@);
                    }
                    let ghost before = node_ref@;
                    let (k, node) = node_ref.remove_entry_at(idx);
                    match node {
                        Node::Nested(mut sub) => {
                            let res = Self::set_nested_recursive(&mut sub, keys, i + 1, value);
                            let is_ok = res.is_ok();
                            let ghost sub_final = sub@;
                            node_ref.insert_entry_at(idx, k, Node::Nested(sub));
                            proof {
                                if is_ok {
                                    assert(node_ref@ =~= assoc_update(
                                        before,
                                        key@,
                                        NodeView::Nested(sub_final),
                                    ));
                                } else {
                                    assert(node_ref@ =~= before);
                                }
                            }
                            res
                        },
                        other => {
                            node_ref.insert_entry_at(idx, k, other);
                            proof {
                                assert(node_ref@ =~= before);
                            }
                            Err(ConfigerError::NonNested)
                        },
                    }
                },
                None => {
                    let mut sub = Table::new();
                    let res = Self::set_nested_recursive(&mut sub, keys, i + 1, value);
                    proof {
                        lemma_spec_set_fresh(keys_view(keys@, i as int + 1), value@);
                        assert(res is Ok);
                    }
                    node_ref.insert(key, Node::Nested(sub));
                    res
                },
            }
        }
    }

    /// One level of the read walk, from segment `i` on.
    fn get_nested_recursive<'a>(
        node_ref: &'a Table,
        keys: &Vec<String>,
        i: usize,
    ) -> (r: Result<&'a Node, ConfigerError>)
        requires
            i < keys@.len(),
        ensures
            match r {
                Ok(n) => spec_get(node_ref@, keys_view(keys@, i as int)) == Ok::<
                    NodeView,
                    ConfigerError,
                >(n@),
                Err(e) => spec_get(node_ref@, keys_view(keys@, i as int)) == Err::<
                    NodeView,
                    ConfigerError,
                >(e),
            },
        decreases keys@.len() - i,
    {
        let ghost path = keys_view(keys@, i as int);
        proof {
            assert(path[0] == keys@[i as int]@);
            assert(path.drop_first() =~= keys_view(keys@, i as int + 1));
        }
        let n = keys.len();
        let key = &keys[i];
        match node_ref.get(key.as_str()) {
            None => Err(ConfigerError::NotFound),
            Some(node) => {
                if i + 1 == n {
                    Ok(node)
                } else {
                    match node {
                        Node::Nested(sub) => Self::get_nested_recursive(sub, keys, i + 1),
                        _ => Err(ConfigerError::NonNested),
                    }
                }
            },
        }
    }

    /// A fresh builder.
    pub fn builder() -> (r: ConfigerEnvironmentBuilder<R>)
        ensures
            r.spec_table() is None,
            r.spec_builder_registry() is None,
            r.spec_path() is None,
            r.spec_profiles() is None,
    {
        ConfigerEnvironmentBuilder::new()
    }
}

impl<R: ConfigReader> Environment for ConfigerEnvironment<R> {
    type Reader = R;

    fn set(&mut self, key: &str, value: Node) -> Result<(), ConfigerError> {
        ConfigerEnvironment::set(self, key, value)
    }

    fn get(&self, key: &str) -> Result<&Node, ConfigerError> {
        ConfigerEnvironment::get(self, key)
    }

    fn try_acquire(&self, suffix: &str) -> Option<&R> {
        ConfigerEnvironment::try_acquire(self, suffix)
    }

    fn try_acquires(&self) -> Vec<&R> {
        ConfigerEnvironment::try_acquires(self)
    }
}

/// Index of the last occurrence of `c` in `s`, or `-1` if there is none.
pub open spec fn last_index_of(s: Seq<char>, c: char) -> int
    decreases s.len(),
{
    if s.len() == 0 {
        -1
    } else if s.last() == c {
        s.len() - 1
    } else {
        last_index_of(s.drop_last(), c)
    }
}

/// What `last_index_of` returns: a position bounded by the length that holds
/// `c` and has none after it, or `-1` when `c` does not occur.
pub proof fn lemma_last_index_of(s: Seq<char>, c: char)
    ensures
        last_index_of(s, c) >= -1,
        last_index_of(s, c) >= 0 ==> last_index_of(s, c) < s.len() && s[last_index_of(s, c)] == c
            && (forall|j: int| last_index_of(s, c) < j < s.len() ==> s[j] != c),
        last_index_of(s, c) < 0 ==> forall|j: int| 0 <= j < s.len() ==> s[j] != c,
    decreases s.len(),
{
    if s.len() > 0 && s.last() != c {
        lemma_last_index_of(s.drop_last(), c);
        assert(forall|j: int| 0 <= j < s.len() - 1 ==> s.drop_last()[j] == s[j]);
    }
}

/// Position of the last occurrence of `c` in `s`.
fn last_char_index(s: &str, c: char) -> (r: Option<usize>)
    ensures
        match r {
            Some(i) => last_index_of(s@, c) == i as int,
            None => last_index_of(s@, c) == -1,
        },
{
    let n = s.unicode_len();
    let mut r: Option<usize> = None;
    let mut i: usize = 0;
    proof {
        assert(s@.take(0).len() == 0);
    }
    while i < n
        invariant
            i <= n,
            n == s@.len(),
            match r {
                Some(j) => last_index_of(s@.take(i as int), c) == j as int && j < i,
                None => last_index_of(s@.take(i as int), c) == -1,
            },
        decreases n - i,
    {
        if s.get_char(i) == c {
            r = Some(i);
        }
        proof {
            assert(s@.take(i as int + 1).drop_last() =~= s@.take(i as int));
            assert(s@.take(i as int + 1).last() == s@[i as int]);
        }
        i += 1;
    }
    proof {
        assert(s@.take(n as int) =~= s@);
    }
    r
}

/// The extension of a path: the run after the last `'.'` of its file name —
/// the part after the last `'/'` — or nothing when the file name has no dot
/// or only its leading character is one.
pub open spec fn spec_extension(p: Seq<char>) -> Option<Seq<char>> {
    let sl = last_index_of(p, '/');
    let d = last_index_of(p, '.');
    if d > sl + 1 {
        Some(p.skip(d + 1))
    } else {
        None
    }
}

/// The adjacent profile file for a base path: `-{profile}` is spliced in
/// between the file stem and the extension, so `dir/config.ext` with profile
/// `p` names `dir/config-p.ext`.
pub open spec fn spec_profile_path(p: Seq<char>, profile: Seq<char>) -> Seq<char>
    recommends
        spec_extension(p) is Some,
{
    let d = last_index_of(p, '.');
    p.take(d) + seq!['-'] + profile + seq!['.'] + p.skip(d + 1)
}

/// The extension of `path`, per [`spec_extension`].
fn path_extension<'a>(path: &'a str) -> (r: Option<&'a str>)
    ensures
        match r {
            Some(e) => spec_extension(path@) == Some(e@),
            None => spec_extension(path@) is None,
        },
{
    let n = path.unicode_len();
    let sl = last_char_index(path, '/');
    let d = last_char_index(path, '.');
    proof {
        lemma_last_index_of(path@, '.');
        lemma_last_index_of(path@, '/');
    }
    match (sl, d) {
        (None, Some(di)) => {
            if di > 0 {
                Some(path.substring_char(di + 1, n))
            } else {
                None
            }
        },
        (Some(si), Some(di)) => {
            if di > si + 1 {
                Some(path.substring_char(di + 1, n))
            } else {
                None
            }
        },
        _ => None,
    }
}

/// The profile file path for `path` and `profile`, per [`spec_profile_path`].
fn profile_path(path: &str, profile: &str) -> (r: String)
    requires
        spec_extension(path@) is Some,
    ensures
        r@ == spec_profile_path(path@, profile@),
{
    let n = path.unicode_len();
    proof {
        lemma_last_index_of(path@, '.');
        lemma_last_index_of(path@, '/');
    }
    let d = match last_char_index(path, '.') {
        Some(di) => di,
        None => {
            proof {
                assert(false);
            }
            0
        },
    };
    let stem = path.substring_char(0, d).to_owned();
    let ext = path.substring_char(d + 1, n);
    let r = stem.concat("-").concat(profile).concat(".").concat(ext);
    proof {
        reveal_strlit("-");
        reveal_strlit(".");
        assert(seq!['-'] =~= "-"@);
        assert(seq!['.'] =~= "."@);
        assert(stem@ =~= path@.take(d as int));
        assert(ext@ =~= path@.skip(d as int + 1));
        assert(r@ =~= stem@ + "-"@ + profile@ + "."@ + ext@);
        assert(r@ =~= spec_profile_path(path@, profile@));
    }
    r
}

/// A merge of `outer` into `base`, where an outer table was supplied at all.
pub open spec fn spec_merge_outer(base: TableView, outer: Option<TableView>) -> TableView {
    match outer {
        Some(t) => spec_merge(base, t),
        None => base,
    }
}

/// Profile tables folded onto a base, in order; a profile whose file did not
/// load contributes nothing.
pub open spec fn spec_fold_profiles(t: TableView, profs: Seq<Option<TableView>>) -> TableView
    decreases profs.len(),
{
    if profs.len() == 0 {
        t
    } else {
        let t2 = spec_fold_profiles(t, profs.drop_last());
        match profs.last() {
            Some(p) => spec_merge(t2, p),
            None => t2,
        }
    }
}

/// The view of an optional table.
pub open spec fn table_opt_view(t: Option<Table>) -> Option<TableView> {
    match t {
        Some(tt) => Some(tt@),
        None => None,
    }
}

/// What a built environment's table is assembled from: the base file's table,
/// then the caller's table merged in, then each loaded profile table in
/// listed order, then the environment snapshot — later sources winning per
/// the merge rules.
pub open spec fn spec_combine(
    base: TableView,
    outer: Option<TableView>,
    profs: Seq<Option<TableView>>,
    env: TableView,
) -> TableView {
    spec_merge(spec_fold_profiles(spec_merge_outer(base, outer), profs), env)
}

/// Builds a [`ConfigerEnvironment`] from whichever of a table, a registry, a
/// file path and a profile list were supplied.
pub struct ConfigerEnvironmentBuilder<R> {
    table: Option<Table>,
    registry: Option<ConfigReaderRegistry<R>>,
    path: Option<String>,
    profiles: Option<Vec<String>>,
}

impl<R: ConfigReader> ConfigerEnvironmentBuilder<R> {
    /// The table supplied so far, if any.
    pub closed spec fn spec_table(&self) -> Option<Table> {
        self.table
    }

    /// The registry supplied so far, if any.
    pub closed spec fn spec_builder_registry(&self) -> Option<ConfigReaderRegistry<R>> {
        self.registry
    }

    /// The path supplied so far, if any.
    pub closed spec fn spec_path(&self) -> Option<String> {
        self.path
    }

    /// The profile list supplied so far, if any.
    pub closed spec fn spec_profiles(&self) -> Option<Vec<String>> {
        self.profiles
    }

    /// A builder with nothing supplied yet.
    pub fn new() -> (r: Self)
        ensures
            r.spec_table() is None,
            r.spec_builder_registry() is None,
            r.spec_path() is None,
            r.spec_profiles() is None,
    {
        ConfigerEnvironmentBuilder { table: None, registry: None, path: None, profiles: None }
    }

    /// Supplies the initial table.
    pub fn with_table(self, table: Table) -> (r: Self)
        ensures
            r.spec_table() == Some(table),
            r.spec_builder_registry() == self.spec_builder_registry(),
            r.spec_path() == self.spec_path(),
            r.spec_profiles() == self.spec_profiles(),
    {
        ConfigerEnvironmentBuilder { table: Some(table), ..self }
    }

    /// Supplies the reader registry.
    pub fn with_registry(self, registry: ConfigReaderRegistry<R>) -> (r: Self)
        ensures
            r.spec_table() == self.spec_table(),
            r.spec_builder_registry() == Some(registry),
            r.spec_path() == self.spec_path(),
            r.spec_profiles() == self.spec_profiles(),
    {
        ConfigerEnvironmentBuilder { registry: Some(registry), ..self }
    }

    /// Supplies the configuration file path.
    pub fn with_path(self, path: String) -> (r: Self)
        ensures
            r.spec_table() == self.spec_table(),
            r.spec_builder_registry() == self.spec_builder_registry(),
            r.spec_path() == Some(path),
            r.spec_profiles() == self.spec_profiles(),
    {
        ConfigerEnvironmentBuilder { path: Some(path), ..self }
    }

    /// Supplies the ordered profile names.
    pub fn with_profiles(self, profiles: Vec<String>) -> (r: Self)
        ensures
            r.spec_table() == self.spec_table(),
            r.spec_builder_registry() == self.spec_builder_registry(),
            r.spec_path() == self.spec_path(),
            r.spec_profiles() == Some(profiles),
    {
        ConfigerEnvironmentBuilder { profiles: Some(profiles), ..self }
    }
}

impl<R: ConfigReader> Default for ConfigerEnvironmentBuilder<R> {
    /// A builder with nothing supplied yet.
    fn default() -> (r: Self)
        ensures
            r.spec_table() is None,
            r.spec_builder_registry() is None,
            r.spec_path() is None,
            r.spec_profiles() is None,
    {
        ConfigerEnvironmentBuilder::new()
    }
}

impl<R: PathReader> ConfigerEnvironmentBuilder<R> {
    /// Reads the adjacent profile file named by `path` and `profile` through
    /// the given reader; what comes back is the reader's business.
    fn read_config_profile_file(reader: &R, path: &str, profile: &str) -> Result<Table, FileError>
        requires
            spec_extension(path@) is Some,
    {
        let file_name_with_profile = profile_path(path, profile);
        reader.read_from_path(file_name_with_profile.as_str())
    }

    /// Reads the base file at `path` through the reader registered for its
    /// extension, merges `table_outer` and then each loadable profile table
    /// on top, and seeds an environment from the result and the snapshot.
    fn build_from_path(
        table_outer: Option<Table>,
        registry: ConfigReaderRegistry<R>,
        path: String,
        profiles: Option<Vec<String>>,
        env_table: Table,
    ) -> (r: Result<ConfigerEnvironment<R>, FileError>)
        ensures
            match spec_extension(path@) {
                None => r matches Err(FileError::InvalidFile(p)) && p@ == path@,
                Some(ext) => !assoc_contains(registry@, ext) ==> (r matches Err(
                    FileError::ReaderNotFound(sfx),
                ) && sfx@ == ext),
            },
            r matches Ok(env) ==> env.spec_registry() == Some(registry) && spec_extension(path@)
                is Some && assoc_contains(registry@, spec_extension(path@).unwrap()) && (exists|
                base: TableView,
                profs: Seq<Option<TableView>>,
            |
                profs.len() == (match profiles {
                    Some(ps) => ps@.len(),
                    None => 0,
                }) && env.table_view() == #[trigger] spec_combine(
                    base,
                    table_opt_view(table_outer),
                    profs,
                    env_table@,
                )),
    {
        let ext = match path_extension(path.as_str()) {
            None => {
                return Err(FileError::InvalidFile(path));
            },
            Some(e) => e,
        };
        let suffix = ext.to_owned();
        match registry.try_acquire(suffix.as_str()) {
            None => Err(FileError::ReaderNotFound(suffix)),
            Some(reader) => {
                match reader.read_from_path(path.as_str()) {
                    Err(e) => {
                        proof {
                            lemma_assoc_index_of(registry@, suffix@);
                        }
                        Err(e)
                    },
                    Ok(base) => {
                        let ghost base_view = base@;
                        let ghost outer_view = match table_outer {
                            Some(ref t) => Some(t@),
                            None => None::<TableView>,
                        };
                        let mut merged_table = match table_outer {
                            Some(t) => merge_tables(base, t),
                            None => base,
                        };
                        let ghost m0 = merged_table@;
                        let ghost mut profs = Seq::<Option<TableView>>::empty();
                        let nprofiles: usize = match &profiles {
                            Some(ps) => ps.len(),
                            None => 0,
                        };
                        if let Some(ps) = &profiles {
                            let mut i: usize = 0;
                            while i < nprofiles
                                invariant
                                    nprofiles == ps@.len(),
                                    i <= nprofiles,
                                    profs.len() == i,
                                    merged_table@ == spec_fold_profiles(m0, profs),
                                    spec_extension(path@) is Some,
                                decreases nprofiles - i,
                            {
                                let rvt_profile = Self::read_config_profile_file(
                                    reader,
                                    path.as_str(),
                                    ps[i].as_str(),
                                );
                                let ghost profs0 = profs;
                                match rvt_profile {
                                    Ok(table_profile) => {
                                        proof {
                                            profs = profs.push(Some(table_profile@));
                                        }
                                        let mut taken = Table::new();
                                        core::mem::swap(&mut merged_table, &mut taken);
                                        merged_table = merge_tables(taken, table_profile);
                                    },
                                    Err(_) => {
                                        proof {
                                            profs = profs.push(None::<TableView>);
                                        }
                                    },
                                }
                                proof {
                                    assert(profs.drop_last() =~= profs0);
                                }
                                i += 1;
                            }
                        }
                        proof {
                            lemma_assoc_index_of(registry@, suffix@);
                        }
                        let env = ConfigerEnvironment::mixed_with_env_variables(
                            Some(merged_table),
                            Some(registry),
                            env_table,
                        );
                        proof {
                            assert(env.table_view() == spec_combine(
                                base_view,
                                outer_view,
                                profs,
                                env_table@,
                            ));
                        }
                        Ok(env)
                    },
                }
            },
        }
    }

    /// Builds the environment from what was supplied:
    /// - a registry and a path (with or without a table) read the file whose
    ///   extension selects the reader, merge the supplied table and every
    ///   loadable profile file on top, and merge the environment snapshot in
    ///   last;
    /// - a table without a path makes an environment over that table, with
    ///   the registry if one was supplied;
    /// - anything else falls back to an environment seeded from the snapshot
    ///   alone, with a fresh empty registry.
    pub fn build(self, env_table: Table) -> (r: Result<ConfigerEnvironment<R>, FileError>)
        ensures
            match (self.spec_table(), self.spec_builder_registry(), self.spec_path()) {
                (Some(t), Some(reg), Some(p)) => true,
                (None, Some(reg), Some(p)) => true,
                (Some(t), Some(reg), None) => r matches Ok(env) && env.table_view() == t@
                    && env.spec_registry() == Some(reg),
                (Some(t), None, None) => r matches Ok(env) && env.table_view() == t@
                    && env.spec_registry() is None,
                _ => r matches Ok(env) && env.table_view() == env_table@ && (
                env.spec_registry() matches Some(reg2) && reg2@ == Seq::<(Seq<char>, R)>::empty()),
            },
            match (self.spec_builder_registry(), self.spec_path()) {
                (Some(reg), Some(p)) => (match spec_extension(p@) {
                    None => r matches Err(FileError::InvalidFile(q)) && q@ == p@,
                    Some(ext) => !assoc_contains(reg@, ext) ==> (r matches Err(
                        FileError::ReaderNotFound(sfx),
                    ) && sfx@ == ext),
                }) && (r matches Ok(env) ==> env.spec_registry() == Some(reg)
                    && spec_extension(p@) is Some && assoc_contains(
                    reg@,
                    spec_extension(p@).unwrap(),
                ) && (exists|base: TableView, profs: Seq<Option<TableView>>|
                    profs.len() == (match self.spec_profiles() {
                        Some(ps) => ps@.len(),
                        None => 0,
                    }) && env.table_view() == #[trigger] spec_combine(
                        base,
                        table_opt_view(self.spec_table()),
                        profs,
                        env_table@,
                    ))),
                _ => true,
            },
    {
        match (self.table, self.registry, self.path) {
            (Some(table_outer), Some(registry), Some(path)) => Self::build_from_path(
                Some(table_outer),
                registry,
                path,
                self.profiles,
                env_table,
            ),
            (None, Some(registry), Some(path)) => Self::build_from_path(
                None,
                registry,
                path,
                self.profiles,
                env_table,
            ),
            (Some(table), Some(registry), None) => Ok(
                ConfigerEnvironment::mixed(Some(table), Some(registry), env_table),
            ),
            (Some(table), None, None) => Ok(
                ConfigerEnvironment::mixed(Some(table), None, env_table),
            ),
            _ => Ok(ConfigerEnvironment::new(env_table)),
        }
    }
}

} // verus!
