//! The routing table: which backend serves which virtual hostname, and how
//! many players each backend currently has.

use crate::text::str_eq;
use vstd::prelude::*;

verus! {

/// One backend with the virtual hostnames it answers to.
#[derive(Debug)]
pub struct ServerEntry {
    /// The name under which the control plane knows the backend.
    pub id: String,
    /// The virtual hostnames, compared case-sensitively.
    pub hostnames: Vec<String>,
    /// Where the backend listens, as `host:port`.
    pub backend_server: String,
    /// The players currently connected through the proxy.
    pub player_count: usize,
}

/// What a `ServerEntry` holds, as mathematical values.
pub struct EntryModel {
    pub id: Seq<char>,
    pub hostnames: Seq<Seq<char>>,
    pub backend_server: Seq<char>,
    pub player_count: nat,
}

/// The character sequences of a list of strings.
pub open spec fn names_of(names: Seq<String>) -> Seq<Seq<char>> {
    names.map_values(|s: String| s@)
}

impl View for ServerEntry {
    type V = EntryModel;

    open spec fn view(&self) -> EntryModel {
        EntryModel {
            id: self.id@,
            hostnames: names_of(self.hostnames@),
            backend_server: self.backend_server@,
            player_count: self.player_count as nat,
        }
    }
}

/// The models of a list of entries.
pub open spec fn models_of(entries: Seq<ServerEntry>) -> Seq<EntryModel> {
    entries.map_values(|e: ServerEntry| e@)
}

/// Entry `i` of `table` answers to `host`.
pub open spec fn serves(table: Seq<EntryModel>, host: Seq<char>, i: int) -> bool {
    0 <= i < table.len() && table[i].hostnames.contains(host)
}

/// Some entry of `table` answers to `host`.
pub open spec fn routed(table: Seq<EntryModel>, host: Seq<char>) -> bool {
    exists|i: int| serves(table, host, i)
}

/// Entry `i` is the first of `table` that answers to `host`.
pub open spec fn is_route(table: Seq<EntryModel>, host: Seq<char>, i: int) -> bool {
    serves(table, host, i) && forall|j: int| 0 <= j < i ==> !serves(table, host, j)
}

/// The index of the first entry that answers to `host`, where there is one.
pub open spec fn route_index(table: Seq<EntryModel>, host: Seq<char>) -> int {
    choose|i: int| is_route(table, host, i)
}

/// The first entry that answers to `host`.
pub open spec fn lookup(table: Seq<EntryModel>, host: Seq<char>) -> Option<EntryModel> {
    if routed(table, host) {
        Some(table[route_index(table, host)])
    } else {
        None
    }
}

/// Every entry has a hostname, and no hostname occurs twice in the table.
pub open spec fn table_valid(table: Seq<EntryModel>) -> bool {
    &&& forall|i: int| 0 <= i < table.len() ==> (#[trigger] table[i]).hostnames.len() > 0
    &&& forall|i: int, a: int, j: int, b: int|
        0 <= i < table.len() && 0 <= a < table[i].hostnames.len() && 0 <= j < table.len() && 0
            <= b < table[j].hostnames.len() && #[trigger] table[i].hostnames[a]
            == #[trigger] table[j].hostnames[b] ==> i == j && a == b
}

/// A player count after one more player has joined.
pub open spec fn incremented(count: nat) -> nat {
    if count < usize::MAX {
        count + 1
    } else {
        count
    }
}

/// A player count after one player has left; it never goes below zero.
pub open spec fn decremented(count: nat) -> nat {
    if count > 0 {
        (count - 1) as nat
    } else {
        0
    }
}

/// `table` with the player count of entry `i` set to `count`.
pub open spec fn with_count(table: Seq<EntryModel>, i: int, count: nat) -> Seq<EntryModel> {
    table.update(i, EntryModel { player_count: count, ..table[i] })
}

/// No name occurs twice in `names`.
pub open spec fn names_distinct(names: Seq<Seq<char>>) -> bool {
    forall|a: int, b: int| 0 <= a < b < names.len() ==> names[a] != names[b]
}

/// No entry of `table` answers to any of `names`.
pub open spec fn names_free(table: Seq<EntryModel>, names: Seq<Seq<char>>) -> bool {
    forall|a: int| 0 <= a < names.len() ==> !routed(table, #[trigger] names[a])
}

/// `entry` can join `table`: it has a hostname, lists none twice, and none
/// of them is taken.
pub open spec fn fits(table: Seq<EntryModel>, entry: EntryModel) -> bool {
    &&& entry.hostnames.len() > 0
    &&& names_distinct(entry.hostnames)
    &&& names_free(table, entry.hostnames)
}

/// `table` with every player count at zero.
pub open spec fn zeroed(table: Seq<EntryModel>) -> Seq<EntryModel> {
    table.map_values(|e: EntryModel| EntryModel { player_count: 0, ..e })
}

/// Why an entry cannot stand in a table.
#[derive(Clone, Copy, Debug, PartialEq, Eq, Structural)]
pub enum TableError {
    /// An entry lists no hostname.
    NoHostnames,
    /// A hostname is listed twice.
    HostnameTaken,
}

proof fn lemma_least_route(table: Seq<EntryModel>, host: Seq<char>, i: int)
    requires
        serves(table, host, i),
    ensures
        exists|k: int| is_route(table, host, k),
    decreases i,
{
    if exists|j: int| 0 <= j < i && serves(table, host, j) {
        let j = choose|j: int| 0 <= j < i && serves(table, host, j);
        lemma_least_route(table, host, j);
    } else {
        assert(is_route(table, host, i));
    }
}

/// Where some entry answers to `host`, the route index names the first such
/// entry.
pub proof fn lemma_route_index(table: Seq<EntryModel>, host: Seq<char>)
    requires
        routed(table, host),
    ensures
        is_route(table, host, route_index(table, host)),
{
    let i = choose|i: int| serves(table, host, i);
    lemma_least_route(table, host, i);
}

/// The first entry that answers to `host` is the route.
pub proof fn lemma_route_index_is(table: Seq<EntryModel>, host: Seq<char>, i: int)
    requires
        is_route(table, host, i),
    ensures
        routed(table, host),
        route_index(table, host) == i,
        lookup(table, host) == Some(table[i]),
{
    let k = route_index(table, host);
    assert(is_route(table, host, k));
    if k < i {
        assert(!serves(table, host, k));
    } else if i < k {
        assert(!serves(table, host, i));
    }
}

/// In a valid table every hostname of an entry leads to that entry, and a
/// hostname that no entry lists leads nowhere.
pub proof fn lemma_routing_containment(table: Seq<EntryModel>, i: int, host: Seq<char>)
    requires
        table_valid(table),
    ensures
        0 <= i < table.len() && table[i].hostnames.contains(host) ==> lookup(table, host) == Some(
            table[i],
        ),
        (forall|j: int| 0 <= j < table.len() ==> !table[j].hostnames.contains(host)) ==> lookup(
            table,
            host,
        ) is None,
{
    if 0 <= i < table.len() && table[i].hostnames.contains(host) {
        let a = choose|a: int| 0 <= a < table[i].hostnames.len() && table[i].hostnames[a] == host;
        assert forall|j: int| 0 <= j < i implies !serves(table, host, j) by {
            if serves(table, host, j) {
                let b = choose|b: int|
                    0 <= b < table[j].hostnames.len() && table[j].hostnames[b] == host;
                assert(table[i].hostnames[a] == table[j].hostnames[b]);
            }
        }
        lemma_route_index_is(table, host, i);
    }
    if forall|j: int| 0 <= j < table.len() ==> !table[j].hostnames.contains(host) {
        if routed(table, host) {
            let k = choose|k: int| serves(table, host, k);
            assert(table[k].hostnames.contains(host));
        }
    }
}

/// Changing a player count changes no route.
pub proof fn lemma_with_count_keeps_routes(
    table: Seq<EntryModel>,
    i: int,
    count: nat,
    host: Seq<char>,
)
    requires
        0 <= i < table.len(),
    ensures
        routed(with_count(table, i, count), host) == routed(table, host),
        routed(table, host) ==> route_index(with_count(table, i, count), host) == route_index(
            table,
            host,
        ),
        table_valid(with_count(table, i, count)) == table_valid(table),
{
    let after = with_count(table, i, count);
    assert forall|k: int| serves(after, host, k) == serves(table, host, k) by {
        if 0 <= k < table.len() {
            assert(after[k].hostnames == table[k].hostnames);
        }
    }
    assert forall|k: int| is_route(after, host, k) == is_route(table, host, k) by {
        assert(serves(after, host, k) == serves(table, host, k));
    }
    if routed(table, host) {
        let k = choose|k: int| serves(table, host, k);
        assert(serves(after, host, k));
        lemma_route_index(table, host);
        lemma_route_index_is(after, host, route_index(table, host));
    }
    if routed(after, host) {
        let k = choose|k: int| serves(after, host, k);
        assert(serves(table, host, k));
    }
    assert forall|k: int| 0 <= k < table.len() implies (#[trigger] after[k]).hostnames
        == table[k].hostnames by {}
    if table_valid(table) {
        assert(table_valid(after));
    }
    if table_valid(after) {
        assert forall|k: int| 0 <= k < table.len() implies (#[trigger] table[k]).hostnames.len()
            > 0 by {
            assert(after[k].hostnames.len() > 0);
        }
        assert forall|p: int, a: int, q: int, b: int|
            0 <= p < table.len() && 0 <= a < table[p].hostnames.len() && 0 <= q < table.len() && 0
                <= b < table[q].hostnames.len() && #[trigger] table[p].hostnames[a]
                == #[trigger] table[q].hostnames[b] implies p == q && a == b by {
            assert(after[p].hostnames[a] == after[q].hostnames[b]);
        }
    }
}

/// A table with one more entry is valid exactly when the table was valid
/// and the entry fits it, wherever the entry is put.
pub proof fn lemma_valid_insert(table: Seq<EntryModel>, i: int, entry: EntryModel)
    requires
        0 <= i <= table.len(),
    ensures
        table_valid(table.insert(i, entry)) <==> table_valid(table) && fits(table, entry),
{
    let wider = table.insert(i, entry);
    assert(wider[i] == entry);
    assert forall|k: int| 0 <= k < table.len() implies table[k] == wider[if k < i {
        k
    } else {
        k + 1
    }] by {}
    if table_valid(table) && fits(table, entry) {
        assert forall|k: int| 0 <= k < wider.len() implies (#[trigger] wider[k]).hostnames.len()
            > 0 by {
            if k < i {
                assert(wider[k] == table[k]);
            } else if k > i {
                assert(wider[k] == table[k - 1]);
            }
        }
        assert forall|p: int, a: int, q: int, b: int|
            0 <= p < wider.len() && 0 <= a < wider[p].hostnames.len() && 0 <= q < wider.len() && 0
                <= b < wider[q].hostnames.len() && #[trigger] wider[p].hostnames[a]
                == #[trigger] wider[q].hostnames[b] implies p == q && a == b by {
            let p_inner = if p < i {
                p
            } else {
                p - 1
            };
            let q_inner = if q < i {
                q
            } else {
                q - 1
            };
            if p == i && q == i {
                if a < b {
                    assert(entry.hostnames[a] != entry.hostnames[b]);
                } else if b < a {
                    assert(entry.hostnames[b] != entry.hostnames[a]);
                }
            } else if p == i {
                assert(wider[q] == table[q_inner]);
                assert(serves(table, entry.hostnames[a], q_inner));
                assert(routed(table, entry.hostnames[a]));
            } else if q == i {
                assert(wider[p] == table[p_inner]);
                assert(serves(table, entry.hostnames[b], p_inner));
                assert(routed(table, entry.hostnames[b]));
            } else {
                assert(wider[p] == table[p_inner]);
                assert(wider[q] == table[q_inner]);
                assert(table[p_inner].hostnames[a] == table[q_inner].hostnames[b]);
            }
        }
    }
    if table_valid(wider) {
        assert forall|k: int| 0 <= k < table.len() implies (#[trigger] table[k]).hostnames.len()
            > 0 by {
            let k_outer = if k < i {
                k
            } else {
                k + 1
            };
            assert(wider[k_outer].hostnames.len() > 0);
        }
        assert forall|p: int, a: int, q: int, b: int|
            0 <= p < table.len() && 0 <= a < table[p].hostnames.len() && 0 <= q < table.len() && 0
                <= b < table[q].hostnames.len() && #[trigger] table[p].hostnames[a]
                == #[trigger] table[q].hostnames[b] implies p == q && a == b by {
            let p_outer = if p < i {
                p
            } else {
                p + 1
            };
            let q_outer = if q < i {
                q
            } else {
                q + 1
            };
            assert(wider[p_outer].hostnames[a] == wider[q_outer].hostnames[b]);
        }
        assert(wider[i].hostnames.len() > 0);
        assert forall|a: int, b: int| 0 <= a < b < entry.hostnames.len() implies entry.hostnames[a]
            != entry.hostnames[b] by {
            if entry.hostnames[a] == entry.hostnames[b] {
                assert(wider[i].hostnames[a] == wider[i].hostnames[b]);
            }
        }
        assert forall|a: int| 0 <= a < entry.hostnames.len() implies !routed(
            table,
            #[trigger] entry.hostnames[a],
        ) by {
            let host = entry.hostnames[a];
            if routed(table, host) {
                let k = choose|k: int| serves(table, host, k);
                let b = choose|b: int|
                    0 <= b < table[k].hostnames.len() && table[k].hostnames[b] == host;
                let k_outer = if k < i {
                    k
                } else {
                    k + 1
                };
                assert(wider[k_outer].hostnames[b] == wider[i].hostnames[a]);
            }
        }
    }
}

/// A valid table stays valid when an entry leaves it, and none of the
/// hostnames of that entry leads anywhere afterwards.
pub proof fn lemma_valid_remove(table: Seq<EntryModel>, i: int)
    requires
        table_valid(table),
        0 <= i < table.len(),
    ensures
        table_valid(table.remove(i)),
        fits(table.remove(i), table[i]),
{
    assert(table.remove(i).insert(i, table[i]) =~= table);
    lemma_valid_insert(table.remove(i), i, table[i]);
}

/// The first entries of a valid table are a valid table.
pub proof fn lemma_valid_prefix(table: Seq<EntryModel>, n: int)
    requires
        table_valid(table),
        0 <= n <= table.len(),
    ensures
        table_valid(table.take(n)),
{
    let part = table.take(n);
    assert forall|k: int| 0 <= k < part.len() implies (#[trigger] part[k]).hostnames.len() > 0 by {
        assert(part[k] == table[k]);
    }
    assert forall|p: int, a: int, q: int, b: int|
        0 <= p < part.len() && 0 <= a < part[p].hostnames.len() && 0 <= q < part.len() && 0 <= b
            < part[q].hostnames.len() && #[trigger] part[p].hostnames[a]
            == #[trigger] part[q].hostnames[b] implies p == q && a == b by {
        assert(table[p].hostnames[a] == table[q].hostnames[b]);
    }
}

/// Player counts have no part in validity.
pub proof fn lemma_valid_zeroed(table: Seq<EntryModel>)
    ensures
        table_valid(zeroed(table)) == table_valid(table),
{
    let z = zeroed(table);
    assert forall|k: int| 0 <= k < table.len() implies (#[trigger] z[k]).hostnames
        == table[k].hostnames by {}
    if table_valid(table) {
        assert(table_valid(z));
    }
    if table_valid(z) {
        assert forall|k: int| 0 <= k < table.len() implies (#[trigger] table[k]).hostnames.len()
            > 0 by {
            assert(z[k].hostnames.len() > 0);
        }
        assert forall|p: int, a: int, q: int, b: int|
            0 <= p < table.len() && 0 <= a < table[p].hostnames.len() && 0 <= q < table.len() && 0
                <= b < table[q].hostnames.len() && #[trigger] table[p].hostnames[a]
                == #[trigger] table[q].hostnames[b] implies p == q && a == b by {
            assert(z[p].hostnames[a] == z[q].hostnames[b]);
        }
    }
}

/// What a connection does to the player count of its backend.
#[derive(Clone, Copy, Debug, PartialEq, Eq, Structural)]
pub enum CounterOp {
    /// A player joins.
    Join,
    /// A player leaves.
    Leave,
}

/// A player count after one operation.
pub open spec fn count_step(count: nat, op: CounterOp) -> nat {
    match op {
        CounterOp::Join => incremented(count),
        CounterOp::Leave => decremented(count),
    }
}

/// A player count after a sequence of operations, the first one first.
pub open spec fn count_after(start: nat, ops: Seq<CounterOp>) -> nat
    decreases ops.len(),
{
    if ops.len() == 0 {
        start
    } else {
        count_step(count_after(start, ops.drop_last()), ops.last())
    }
}

/// `table` after one operation on the count of the entry that answers to
/// `host`; a host that no entry answers to changes nothing.
pub open spec fn counted(table: Seq<EntryModel>, host: Seq<char>, op: CounterOp) -> Seq<
    EntryModel,
> {
    match lookup(table, host) {
        Some(entry) => with_count(
            table,
            route_index(table, host),
            count_step(entry.player_count, op),
        ),
        None => table,
    }
}

/// How many of `ops` are joins.
pub open spec fn joins(ops: Seq<CounterOp>) -> nat
    decreases ops.len(),
{
    if ops.len() == 0 {
        0
    } else {
        joins(ops.drop_last()) + if ops.last() == CounterOp::Join {
            1nat
        } else {
            0nat
        }
    }
}

/// How many of `ops` are leaves.
pub open spec fn leaves(ops: Seq<CounterOp>) -> nat
    decreases ops.len(),
{
    if ops.len() == 0 {
        0
    } else {
        leaves(ops.drop_last()) + if ops.last() == CounterOp::Leave {
            1nat
        } else {
            0nat
        }
    }
}

/// How many of `ops` are leaves that meet a count of zero.
pub open spec fn idle_leaves(start: nat, ops: Seq<CounterOp>) -> nat
    decreases ops.len(),
{
    if ops.len() == 0 {
        0
    } else {
        idle_leaves(start, ops.drop_last()) + if ops.last() == CounterOp::Leave && count_after(
            start,
            ops.drop_last(),
        ) == 0 {
            1nat
        } else {
            0nat
        }
    }
}

/// A count is its start plus the joins, minus the leaves that met a
/// positive count.
pub proof fn lemma_count_accounting(start: nat, ops: Seq<CounterOp>)
    requires
        start + ops.len() <= usize::MAX,
    ensures
        count_after(start, ops) + leaves(ops) == start + joins(ops) + idle_leaves(start, ops),
        joins(ops) + leaves(ops) == ops.len(),
        idle_leaves(start, ops) <= leaves(ops),
    decreases ops.len(),
{
    if ops.len() > 0 {
        lemma_count_accounting(start, ops.drop_last());
    }
}

/// After `n` joins and `m` leaves in any order, a count that started at
/// zero stands at `n - m`, or at zero where that is negative, provided that
/// no more leaves met a count of zero than there are leaves beyond the
/// joins.
pub proof fn lemma_player_counter_bounds(ops: Seq<CounterOp>)
    requires
        ops.len() <= usize::MAX,
        idle_leaves(0, ops) == if leaves(ops) > joins(ops) {
            leaves(ops) - joins(ops)
        } else {
            0
        },
    ensures
        count_after(0, ops) == if joins(ops) > leaves(ops) {
            joins(ops) - leaves(ops)
        } else {
            0
        },
{
    lemma_count_accounting(0, ops);
}

/// The count stands at `n - m`, or at zero where that is negative, exactly
/// when the leaves that met a count of zero are the leaves beyond the joins.
pub proof fn lemma_player_counter_exact(ops: Seq<CounterOp>)
    requires
        ops.len() <= usize::MAX,
    ensures
        (count_after(0, ops) == if joins(ops) > leaves(ops) {
            joins(ops) - leaves(ops)
        } else {
            0
        }) <==> (idle_leaves(0, ops) == if leaves(ops) > joins(ops) {
            leaves(ops) - joins(ops)
        } else {
            0
        }),
{
    lemma_count_accounting(0, ops);
}

/// Where every leave follows a join of its own, no leave meets a count of
/// zero and the count is the number of joins less the number of leaves.
pub proof fn lemma_paired_leaves(ops: Seq<CounterOp>)
    requires
        ops.len() <= usize::MAX,
        forall|k: int| 0 <= k <= ops.len() ==> leaves(#[trigger] ops.take(k)) <= joins(ops.take(k)),
    ensures
        idle_leaves(0, ops) == 0,
        count_after(0, ops) == joins(ops) - leaves(ops),
    decreases ops.len(),
{
    lemma_count_accounting(0, ops);
    if ops.len() > 0 {
        let front = ops.drop_last();
        assert(front =~= ops.take(ops.len() - 1));
        assert(ops =~= ops.take(ops.len() as int));
        assert forall|k: int| 0 <= k <= front.len() implies leaves(#[trigger] front.take(k))
            <= joins(front.take(k)) by {
            assert(front.take(k) =~= ops.take(k));
        }
        lemma_paired_leaves(front);
        lemma_count_accounting(0, front);
    }
}

/// `table` after a sequence of operations on the count of the entry that
/// answers to `host`, the first one first.
pub open spec fn counted_all(table: Seq<EntryModel>, host: Seq<char>, ops: Seq<CounterOp>) -> Seq<
    EntryModel,
>
    decreases ops.len(),
{
    if ops.len() == 0 {
        table
    } else {
        counted(counted_all(table, host, ops.drop_last()), host, ops.last())
    }
}

/// Operations on a count leave the routes as they are, and the count that
/// is observed afterwards is the count after these operations.
pub proof fn lemma_counted_all(table: Seq<EntryModel>, host: Seq<char>, ops: Seq<CounterOp>)
    requires
        routed(table, host),
    ensures
        routed(counted_all(table, host, ops), host),
        route_index(counted_all(table, host, ops), host) == route_index(table, host),
        lookup(counted_all(table, host, ops), host).unwrap().player_count == count_after(
            lookup(table, host).unwrap().player_count,
            ops,
        ),
        table_valid(counted_all(table, host, ops)) == table_valid(table),
    decreases ops.len(),
{
    lemma_route_index(table, host);
    if ops.len() > 0 {
        let before = counted_all(table, host, ops.drop_last());
        lemma_counted_all(table, host, ops.drop_last());
        lemma_route_index(before, host);
        let i = route_index(before, host);
        lemma_with_count_keeps_routes(
            before,
            i,
            count_step(before[i].player_count, ops.last()),
            host,
        );
    }
}

/// The count that is observed on a fresh entry after `n` joins and `m`
/// leaves in any order is `n - m`, or zero where that is negative,
/// provided that no more leaves met a count of zero than there are leaves
/// beyond the joins.
pub proof fn lemma_observed_count(table: Seq<EntryModel>, host: Seq<char>, ops: Seq<CounterOp>)
    requires
        lookup(table, host) matches Some(entry) && entry.player_count == 0,
        ops.len() <= usize::MAX,
        idle_leaves(0, ops) == if leaves(ops) > joins(ops) {
            leaves(ops) - joins(ops)
        } else {
            0
        },
    ensures
        lookup(counted_all(table, host, ops), host) matches Some(entry) && entry.player_count
            == if joins(ops) > leaves(ops) {
            joins(ops) - leaves(ops)
        } else {
            0
        },
{
    lemma_counted_all(table, host, ops);
    lemma_player_counter_bounds(ops);
}

fn names_contain(names: &Vec<String>, host: &str) -> (yes: bool)
    ensures
        yes == names_of(names@).contains(host@),
{
    let mut a: usize = 0;
    while a < names.len()
        invariant
            a <= names.len(),
            forall|k: int| 0 <= k < a ==> names_of(names@)[k] != host@,
        decreases names.len() - a,
    {
        if str_eq(names[a].as_str(), host) {
            assert(names_of(names@)[a as int] == host@);
            return true;
        }
        a = a + 1;
    }
    false
}

fn find_route_among(entries: &Vec<ServerEntry>, limit: usize, host: &str) -> (found: Option<usize>)
    requires
        limit <= entries.len(),
    ensures
        match found {
            Some(i) => is_route(models_of(entries@).take(limit as int), host@, i as int),
            None => !routed(models_of(entries@).take(limit as int), host@),
        },
{
    let ghost table = models_of(entries@).take(limit as int);
    let mut i: usize = 0;
    while i < limit
        invariant
            i <= limit <= entries.len(),
            table == models_of(entries@).take(limit as int),
            forall|j: int| 0 <= j < i ==> !serves(table, host@, j),
        decreases limit - i,
    {
        assert(table[i as int] == entries@[i as int]@);
        if names_contain(&entries[i].hostnames, host) {
            return Some(i);
        }
        i = i + 1;
    }
    None
}

fn find_route(entries: &Vec<ServerEntry>, host: &str) -> (found: Option<usize>)
    ensures
        match found {
            Some(i) => is_route(models_of(entries@), host@, i as int),
            None => !routed(models_of(entries@), host@),
        },
{
    assert(models_of(entries@).take(entries.len() as int) =~= models_of(entries@));
    find_route_among(entries, entries.len(), host)
}

fn names_are_distinct(names: &Vec<String>) -> (yes: bool)
    ensures
        yes == names_distinct(names_of(names@)),
{
    let ghost model = names_of(names@);
    let mut b: usize = 0;
    while b < names.len()
        invariant
            b <= names.len(),
            model == names_of(names@),
            forall|x: int, y: int| 0 <= x < y < b ==> model[x] != model[y],
        decreases names.len() - b,
    {
        let mut a: usize = 0;
        while a < b
            invariant
                a <= b < names.len(),
                model == names_of(names@),
                forall|x: int| 0 <= x < a ==> model[x] != model[b as int],
            decreases b - a,
        {
            if str_eq(names[a].as_str(), names[b].as_str()) {
                assert(model[a as int] == model[b as int]);
                return false;
            }
            a = a + 1;
        }
        b = b + 1;
    }
    true
}

fn names_are_free(entries: &Vec<ServerEntry>, limit: usize, names: &Vec<String>) -> (yes: bool)
    requires
        limit <= entries.len(),
    ensures
        yes == names_free(models_of(entries@).take(limit as int), names_of(names@)),
{
    let ghost model = names_of(names@);
    let ghost table = models_of(entries@).take(limit as int);
    let mut a: usize = 0;
    while a < names.len()
        invariant
            a <= names.len(),
            limit <= entries.len(),
            model == names_of(names@),
            table == models_of(entries@).take(limit as int),
            forall|x: int| 0 <= x < a ==> !routed(table, #[trigger] model[x]),
        decreases names.len() - a,
    {
        assert(model[a as int] == names@[a as int]@);
        if find_route_among(entries, limit, names[a].as_str()).is_some() {
            assert(routed(table, model[a as int]));
            return false;
        }
        a = a + 1;
    }
    true
}

fn check_fit(entries: &Vec<ServerEntry>, limit: usize, entry: &ServerEntry) -> (res: Result<
    (),
    TableError,
>)
    requires
        limit <= entries.len(),
    ensures
        res is Ok <==> fits(models_of(entries@).take(limit as int), entry@),
        res == Err::<(), TableError>(TableError::NoHostnames) <==> entry@.hostnames.len() == 0,
{
    if entry.hostnames.len() == 0 {
        return Err(TableError::NoHostnames);
    }
    if !names_are_distinct(&entry.hostnames) {
        return Err(TableError::HostnameTaken);
    }
    if !names_are_free(entries, limit, &entry.hostnames) {
        return Err(TableError::HostnameTaken);
    }
    Ok(())
}

fn check_table(entries: &Vec<ServerEntry>) -> (res: Result<(), TableError>)
    ensures
        res is Ok <==> table_valid(models_of(entries@)),
        res == Err::<(), TableError>(TableError::NoHostnames) <==> exists|i: int|
            0 <= i < entries.len() && (#[trigger] models_of(entries@)[i]).hostnames.len() == 0,
{
    let ghost table = models_of(entries@);
    let mut k: usize = 0;
    while k < entries.len()
        invariant
            k <= entries.len(),
            table == models_of(entries@),
            forall|i: int| 0 <= i < k ==> (#[trigger] table[i]).hostnames.len() > 0,
        decreases entries.len() - k,
    {
        if entries[k].hostnames.len() == 0 {
            assert(table[k as int].hostnames.len() == 0);
            return Err(TableError::NoHostnames);
        }
        assert(table[k as int].hostnames.len() > 0);
        k = k + 1;
    }
    let mut i: usize = 0;
    assert(table_valid(table.take(0)));
    while i < entries.len()
        invariant
            i <= entries.len(),
            table == models_of(entries@),
            forall|i: int| 0 <= i < entries.len() ==> (#[trigger] table[i]).hostnames.len() > 0,
            table_valid(table.take(i as int)),
        decreases entries.len() - i,
    {
        proof {
            assert(table.take(i + 1) =~= table.take(i as int).insert(i as int, table[i as int]));
            lemma_valid_insert(table.take(i as int), i as int, table[i as int]);
        }
        match check_fit(entries, i, &entries[i]) {
            Ok(()) => {},
            Err(_) => {
                proof {
                    if table_valid(table) {
                        lemma_valid_prefix(table, i + 1);
                    }
                }
                return Err(TableError::HostnameTaken);
            },
        }
        i = i + 1;
    }
    assert(table.take(entries.len() as int) =~= table);
    Ok(())
}

impl Clone for ServerEntry {
    fn clone(&self) -> (copy: Self)
        ensures
            copy@ == self@,
    {
        let mut hostnames: Vec<String> = Vec::new();
        let mut a: usize = 0;
        while a < self.hostnames.len()
            invariant
                a <= self.hostnames.len(),
                hostnames.len() == a,
                forall|k: int| 0 <= k < a ==> hostnames@[k]@ == self.hostnames@[k]@,
            decreases self.hostnames.len() - a,
        {
            hostnames.push(self.hostnames[a].clone());
            a = a + 1;
        }
        assert(names_of(hostnames@) =~= names_of(self.hostnames@));
        ServerEntry {
            id: self.id.clone(),
            hostnames,
            backend_server: self.backend_server.clone(),
            player_count: self.player_count,
        }
    }
}

/// The routing table.
#[derive(Debug)]
pub struct Servers {
    entries: Vec<ServerEntry>,
}

impl View for Servers {
    type V = Seq<EntryModel>;

    closed spec fn view(&self) -> Seq<EntryModel> {
        models_of(self.entries@)
    }
}

impl Clone for Servers {
    fn clone(&self) -> (copy: Self)
        ensures
            copy@ == self@,
    {
        proof {
            use_type_invariant(self);
        }
        Servers { entries: self.list_servers() }
    }
}

impl Servers {
    /// What holds of every table.
    #[verifier::type_invariant]
    pub open spec fn valid(&self) -> bool {
        table_valid(self@)
    }

    /// A table without entries.
    pub fn new() -> (table: Servers)
        ensures
            table@ == Seq::<EntryModel>::empty(),
            table_valid(table@),
    {
        let entries: Vec<ServerEntry> = Vec::new();
        assert(models_of(entries@) =~= Seq::<EntryModel>::empty());
        Servers { entries }
    }

    /// The table that holds `entries` in their order, with every player
    /// count at zero. Entries that list no hostname, or a hostname that is
    /// listed already, make no table.
    pub fn from_entries(entries: Vec<ServerEntry>) -> (res: Result<Servers, TableError>)
        ensures
            match res {
                Ok(table) => table_valid(table@) && table@ == zeroed(models_of(entries@)),
                Err(e) => !table_valid(models_of(entries@)) && (e == TableError::NoHostnames
                    <==> exists|i: int|
                    0 <= i < entries.len() && (#[trigger] models_of(entries@)[i]).hostnames.len()
                        == 0),
            },
            res is Ok <==> table_valid(models_of(entries@)),
    {
        match check_table(&entries) {
            Ok(()) => {},
            Err(e) => {
                return Err(e);
            },
        }
        let ghost given = models_of(entries@);
        let mut entries = entries;
        let mut i: usize = 0;
        while i < entries.len()
            invariant
                i <= entries.len(),
                entries.len() == given.len(),
                forall|k: int| 0 <= k < i ==> (#[trigger] entries@[k])@ == zeroed(given)[k],
                forall|k: int| i <= k < entries.len() ==> (#[trigger] entries@[k])@ == given[k],
            decreases entries.len() - i,
        {
            entries[i].player_count = 0;
            i = i + 1;
        }
        proof {
            assert(models_of(entries@) =~= zeroed(given));
            lemma_valid_zeroed(given);
        }
        Ok(Servers { entries })
    }

    fn set_count(&mut self, i: usize, count: usize)
        requires
            i < old(self)@.len(),
        ensures
            final(self)@ == with_count(old(self)@, i as int, count as nat),
    {
        proof {
            use_type_invariant(&*self);
            lemma_with_count_keeps_routes(self@, i as int, count as nat, Seq::empty());
        }
        let mut entries: Vec<ServerEntry> = Vec::new();
        std::mem::swap(&mut self.entries, &mut entries);
        entries[i].player_count = count;
        assert(models_of(entries@) =~= with_count(old(self)@, i as int, count as nat));
        self.entries = entries;
    }

    /// The first entry that answers to `hostname`.
    pub fn get_by_hostname(&self, hostname: &str) -> (entry: Option<ServerEntry>)
        ensures
            table_valid(self@),
            match entry {
                Some(e) => lookup(self@, hostname@) == Some(e@),
                None => lookup(self@, hostname@) is None,
            },
    {
        proof {
            use_type_invariant(self);
        }
        match find_route(&self.entries, hostname) {
            Some(i) => {
                proof {
                    lemma_route_index_is(self@, hostname@, i as int);
                }
                Some(self.entries[i].clone())
            },
            None => None,
        }
    }

    /// The player count of the entry that answers to `hostname`.
    pub fn get_player_count(&self, hostname: &str) -> (count: Option<usize>)
        ensures
            match lookup(self@, hostname@) {
                Some(e) => count is Some && count.unwrap() == e.player_count,
                None => count is None,
            },
    {
        match find_route(&self.entries, hostname) {
            Some(i) => {
                proof {
                    lemma_route_index_is(self@, hostname@, i as int);
                }
                Some(self.entries[i].player_count)
            },
            None => None,
        }
    }

    /// Counts one more player on the entry that answers to `hostname` and
    /// returns the new count.
    pub fn increment_player_count(&mut self, hostname: &str) -> (count: Option<usize>)
        ensures
            table_valid(final(self)@),
            match lookup(old(self)@, hostname@) {
                Some(e) => count is Some && count.unwrap() == incremented(e.player_count) && final(self)@
                    == with_count(
                    old(self)@,
                    route_index(old(self)@, hostname@),
                    incremented(e.player_count),
                ),
                None => count is None && final(self)@ == old(self)@,
            },
    {
        proof {
            use_type_invariant(&*self);
        }
        match find_route(&self.entries, hostname) {
            Some(i) => {
                proof {
                    lemma_route_index_is(self@, hostname@, i as int);
                    lemma_with_count_keeps_routes(
                        self@,
                        i as int,
                        incremented(self@[i as int].player_count),
                        hostname@,
                    );
                }
                let current = self.entries[i].player_count;
                let next = if current < usize::MAX {
                    current + 1
                } else {
                    current
                };
                self.set_count(i, next);
                Some(next)
            },
            None => None,
        }
    }

    /// Counts one player less on the entry that answers to `hostname` and
    /// returns the new count. A count of zero stays at zero.
    pub fn decrement_player_count(&mut self, hostname: &str) -> (count: Option<usize>)
        ensures
            table_valid(final(self)@),
            match lookup(old(self)@, hostname@) {
                Some(e) => count is Some && count.unwrap() == decremented(e.player_count) && final(self)@
                    == with_count(
                    old(self)@,
                    route_index(old(self)@, hostname@),
                    decremented(e.player_count),
                ),
                None => count is None && final(self)@ == old(self)@,
            },
    {
        proof {
            use_type_invariant(&*self);
        }
        match find_route(&self.entries, hostname) {
            Some(i) => {
                proof {
                    lemma_route_index_is(self@, hostname@, i as int);
                    lemma_with_count_keeps_routes(
                        self@,
                        i as int,
                        decremented(self@[i as int].player_count),
                        hostname@,
                    );
                }
                let current = self.entries[i].player_count;
                let next = if current > 0 {
                    current - 1
                } else {
                    0
                };
                self.set_count(i, next);
                Some(next)
            },
            None => None,
        }
    }

    /// Puts `entry` at the end of the table, unless it lists no hostname
    /// or one that is listed already.
    pub fn add_server(&mut self, entry: ServerEntry) -> (res: Result<(), TableError>)
        ensures
            table_valid(final(self)@),
            match res {
                Ok(()) => fits(old(self)@, entry@) && final(self)@ == old(self)@.push(entry@),
                Err(e) => !fits(old(self)@, entry@) && final(self)@ == old(self)@ && (e
                    == TableError::NoHostnames <==> entry@.hostnames.len() == 0),
            },
    {
        proof {
            use_type_invariant(&*self);
            assert(self@.take(self@.len() as int) =~= self@);
            assert(self@.insert(self@.len() as int, entry@) =~= self@.push(entry@));
            lemma_valid_insert(self@, self@.len() as int, entry@);
        }
        match check_fit(&self.entries, self.entries.len(), &entry) {
            Ok(()) => {},
            Err(e) => {
                return Err(e);
            },
        }
        let mut entries: Vec<ServerEntry> = Vec::new();
        std::mem::swap(&mut self.entries, &mut entries);
        entries.push(entry);
        assert(models_of(entries@) =~= old(self)@.push(entry@));
        self.entries = entries;
        Ok(())
    }

    /// Takes the entry that answers to `hostname` out of the table and says
    /// whether there was one.
    pub fn remove_server(&mut self, hostname: &str) -> (removed: bool)
        ensures
            table_valid(final(self)@),
            removed == routed(old(self)@, hostname@),
            !routed(final(self)@, hostname@),
            removed ==> final(self)@ == old(self)@.remove(route_index(old(self)@, hostname@)),
            !removed ==> final(self)@ == old(self)@,
    {
        proof {
            use_type_invariant(&*self);
        }
        match find_route(&self.entries, hostname) {
            Some(i) => {
                proof {
                    lemma_route_index_is(self@, hostname@, i as int);
                    lemma_valid_remove(self@, i as int);
                    let a = choose|a: int|
                        0 <= a < self@[i as int].hostnames.len() && self@[i as int].hostnames[a]
                            == hostname@;
                    assert(!routed(self@.remove(i as int), self@[i as int].hostnames[a]));
                }
                let mut entries: Vec<ServerEntry> = Vec::new();
                std::mem::swap(&mut self.entries, &mut entries);
                entries.remove(i);
                assert(models_of(entries@) =~= old(self)@.remove(i as int));
                self.entries = entries;
                true
            },
            None => false,
        }
    }

    /// Puts `new_entry` in the place of the entry that answers to
    /// `hostname` and says whether there was one. The table stays as it is
    /// where the new entry lists no hostname or one that another entry
    /// lists.
    pub fn update_server(&mut self, hostname: &str, new_entry: ServerEntry) -> (res: Result<
        bool,
        TableError,
    >)
        ensures
            table_valid(final(self)@),
            match res {
                Ok(true) => routed(old(self)@, hostname@) && final(self)@ == old(self)@.update(
                    route_index(old(self)@, hostname@),
                    new_entry@,
                ),
                Ok(false) => !routed(old(self)@, hostname@) && final(self)@ == old(self)@,
                Err(e) => routed(old(self)@, hostname@) && final(self)@ == old(self)@
                    && !table_valid(
                    old(self)@.update(route_index(old(self)@, hostname@), new_entry@),
                ) && (e == TableError::NoHostnames <==> new_entry@.hostnames.len() == 0),
            },
    {
        proof {
            use_type_invariant(&*self);
        }
        let i = match find_route(&self.entries, hostname) {
            Some(i) => i,
            None => {
                return Ok(false);
            },
        };
        let ghost before = self@;
        proof {
            lemma_route_index_is(before, hostname@, i as int);
            lemma_valid_remove(before, i as int);
            lemma_valid_insert(before.remove(i as int), i as int, new_entry@);
            assert(before.remove(i as int).insert(i as int, new_entry@) =~= before.update(
                i as int,
                new_entry@,
            ));
            assert(before.remove(i as int).insert(i as int, before[i as int]) =~= before);
        }
        let mut entries: Vec<ServerEntry> = Vec::new();
        std::mem::swap(&mut self.entries, &mut entries);
        let current = entries.remove(i);
        assert(models_of(entries@) =~= before.remove(i as int));
        assert(models_of(entries@).take(entries.len() as int) =~= models_of(entries@));
        match check_fit(&entries, entries.len(), &new_entry) {
            Ok(()) => {
                entries.insert(i, new_entry);
                assert(models_of(entries@) =~= before.update(i as int, new_entry@));
                self.entries = entries;
                Ok(true)
            },
            Err(e) => {
                entries.insert(i, current);
                assert(models_of(entries@) =~= before);
                self.entries = entries;
                Err(e)
            },
        }
    }

    /// The entries in their order.
    pub fn list_servers(&self) -> (entries: Vec<ServerEntry>)
        ensures
            models_of(entries@) == self@,
    {
        let mut entries: Vec<ServerEntry> = Vec::new();
        let mut i: usize = 0;
        while i < self.entries.len()
            invariant
                i <= self.entries.len(),
                entries.len() == i,
                forall|k: int| 0 <= k < i ==> (#[trigger] entries@[k])@ == self.entries@[k]@,
            decreases self.entries.len() - i,
        {
            entries.push(self.entries[i].clone());
            i = i + 1;
        }
        assert(models_of(entries@) =~= self@);
        entries
    }

    /// Applies `op` to the player count of the entry that answers to
    /// `hostname` and returns the new count.
    pub fn count(&mut self, hostname: &str, op: CounterOp) -> (count: Option<usize>)
        ensures
            table_valid(final(self)@),
            final(self)@ == counted(old(self)@, hostname@, op),
            match lookup(old(self)@, hostname@) {
                Some(e) => count is Some && count.unwrap() == count_step(e.player_count, op),
                None => count is None,
            },
    {
        match op {
            CounterOp::Join => self.increment_player_count(hostname),
            CounterOp::Leave => self.decrement_player_count(hostname),
        }
    }

    /// The number of entries.
    pub fn len(&self) -> (n: usize)
        ensures
            n == self@.len(),
    {
        self.entries.len()
    }
}

} // verus!
