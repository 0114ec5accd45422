//! Projecting the registry onto the classifier's table.

use crate::registry::{desired_table, ServiceRegistry};
use crate::table::{ServiceAvailability, MAX_ENTRIES};
use vstd::prelude::*;

verus! {

/// Milliseconds between two sync passes.
pub const SYNC_INTERVAL_MILLIS: u64 = 100;

/// One step that a sync pass took on the classifier's table.
#[derive(Clone, Copy, Debug, PartialEq, Eq, Structural)]
pub enum SyncOp {
    /// A managed address that the table lacked was written.
    Add { ip: u32, flag: u32 },
    /// The flag of an address was overwritten with a different one.
    Update { ip: u32, flag: u32 },
    /// An address that is no longer managed was taken out.
    Remove { ip: u32 },
    /// A managed address could not be written because the table was full.
    Full { ip: u32, flag: u32 },
}

/// The table after one step.
pub open spec fn apply_op(table: Map<u32, u32>, op: SyncOp) -> Map<u32, u32> {
    match op {
        SyncOp::Add { ip, flag } => table.insert(ip, flag),
        SyncOp::Update { ip, flag } => table.insert(ip, flag),
        SyncOp::Remove { ip } => table.remove(ip),
        SyncOp::Full { .. } => table,
    }
}

/// The table after a sequence of steps, taken in order.
pub open spec fn replay(table: Map<u32, u32>, ops: Seq<SyncOp>) -> Map<u32, u32>
    decreases ops.len(),
{
    if ops.len() == 0 {
        table
    } else {
        apply_op(replay(table, ops.drop_last()), ops.last())
    }
}

/// The table after the desired flag of each address of `ips` was written,
/// in order, where there was room: an address that is new to a full table
/// is passed over.
pub open spec fn fill(ips: Seq<u32>, desired: Map<u32, u32>, table: Map<u32, u32>) -> Map<
    u32,
    u32,
>
    decreases ips.len(),
{
    if ips.len() == 0 {
        table
    } else {
        let before = fill(ips.drop_last(), desired, table);
        let ip = ips.last();
        if before.contains_key(ip) || before.len() < MAX_ENTRIES {
            before.insert(ip, desired[ip])
        } else {
            before
        }
    }
}

/// The table after a sync pass: the desired flags written as far as there
/// is room, in registry order, and then every address that is not managed
/// taken out.
pub open spec fn synced(ips: Seq<u32>, desired: Map<u32, u32>, table: Map<u32, u32>) -> Map<
    u32,
    u32,
> {
    fill(ips, desired, table).restrict(desired.dom())
}

/// The steps of the first half of a sync pass: for each address of
/// `ips`, in order, an update where the table holds another flag, an
/// addition where it lacks the address and has room, a note where it
/// lacks the address and is full, and nothing where it agrees.
pub open spec fn fill_ops(ips: Seq<u32>, desired: Map<u32, u32>, table: Map<u32, u32>) -> Seq<
    SyncOp,
>
    decreases ips.len(),
{
    if ips.len() == 0 {
        Seq::empty()
    } else {
        let before = fill(ips.drop_last(), desired, table);
        let ops = fill_ops(ips.drop_last(), desired, table);
        let ip = ips.last();
        let flag = desired[ip];
        if before.contains_key(ip) {
            if before[ip] != flag {
                ops.push(SyncOp::Update { ip, flag })
            } else {
                ops
            }
        } else if before.len() < MAX_ENTRIES {
            ops.push(SyncOp::Add { ip, flag })
        } else {
            ops.push(SyncOp::Full { ip, flag })
        }
    }
}

/// The steps of the second half of a sync pass: a removal for each
/// address of `keys`, in order, that is not managed.
pub open spec fn removals(keys: Seq<u32>, desired: Map<u32, u32>) -> Seq<SyncOp>
    decreases keys.len(),
{
    if keys.len() == 0 {
        Seq::empty()
    } else if desired.contains_key(keys.last()) {
        removals(keys.drop_last(), desired)
    } else {
        removals(keys.drop_last(), desired).push(SyncOp::Remove { ip: keys.last() })
    }
}

/// The steps of a sync pass on a table that holds `table` under the
/// addresses `keys`, in the order in which they entered it.
pub open spec fn sync_ops(
    ips: Seq<u32>,
    desired: Map<u32, u32>,
    table: Map<u32, u32>,
    keys: Seq<u32>,
) -> Seq<SyncOp> {
    fill_ops(ips, desired, table) + removals(keys, desired)
}

/// The addresses of the table after the first half of a sync pass, in
/// the order in which they entered it: those it held, and behind them
/// the addresses of `ips` that were added.
pub open spec fn fill_keys(
    ips: Seq<u32>,
    desired: Map<u32, u32>,
    table: Map<u32, u32>,
    keys: Seq<u32>,
) -> Seq<u32>
    decreases ips.len(),
{
    if ips.len() == 0 {
        keys
    } else {
        let before = fill(ips.drop_last(), desired, table);
        let so_far = fill_keys(ips.drop_last(), desired, table, keys);
        if !before.contains_key(ips.last()) && before.len() < MAX_ENTRIES {
            so_far.push(ips.last())
        } else {
            so_far
        }
    }
}

/// The addresses of `keys` that are managed, in the order of `keys`.
pub open spec fn kept(keys: Seq<u32>, desired: Map<u32, u32>) -> Seq<u32>
    decreases keys.len(),
{
    if keys.len() == 0 {
        Seq::empty()
    } else if desired.contains_key(keys.last()) {
        kept(keys.drop_last(), desired).push(keys.last())
    } else {
        kept(keys.drop_last(), desired)
    }
}

/// Whether a step was called for, given the table before the pass and
/// the table that the registry wants.
pub open spec fn op_called_for(op: SyncOp, before: Map<u32, u32>, desired: Map<u32, u32>) -> bool {
    match op {
        SyncOp::Add { ip, flag } => !before.contains_key(ip) && desired.contains_key(ip) && flag
            == desired[ip],
        SyncOp::Update { ip, flag } => before.contains_key(ip) && before[ip] != flag
            && desired.contains_key(ip) && flag == desired[ip],
        SyncOp::Remove { ip } => before.contains_key(ip) && !desired.contains_key(ip),
        SyncOp::Full { ip, flag } => !before.contains_key(ip) && desired.contains_key(ip) && flag
            == desired[ip],
    }
}

/// The address that a step is about.
pub open spec fn op_ip(op: SyncOp) -> u32 {
    match op {
        SyncOp::Add { ip, .. } => ip,
        SyncOp::Update { ip, .. } => ip,
        SyncOp::Remove { ip } => ip,
        SyncOp::Full { ip, .. } => ip,
    }
}

proof fn lemma_replay_push(table: Map<u32, u32>, ops: Seq<SyncOp>, op: SyncOp)
    ensures
        replay(table, ops.push(op)) == apply_op(replay(table, ops), op),
{
    assert(ops.push(op).drop_last() =~= ops);
}

proof fn lemma_fill_push(ips: Seq<u32>, ip: u32, desired: Map<u32, u32>, table: Map<u32, u32>)
    ensures
        fill(ips.push(ip), desired, table) == ({
            let before = fill(ips, desired, table);
            if before.contains_key(ip) || before.len() < MAX_ENTRIES {
                before.insert(ip, desired[ip])
            } else {
                before
            }
        }),
{
    assert(ips.push(ip).drop_last() =~= ips);
}

proof fn lemma_fill_ops_push(ips: Seq<u32>, ip: u32, desired: Map<u32, u32>, table: Map<u32, u32>)
    ensures
        fill_ops(ips.push(ip), desired, table) == ({
            let before = fill(ips, desired, table);
            let ops = fill_ops(ips, desired, table);
            let flag = desired[ip];
            if before.contains_key(ip) {
                if before[ip] != flag {
                    ops.push(SyncOp::Update { ip, flag })
                } else {
                    ops
                }
            } else if before.len() < MAX_ENTRIES {
                ops.push(SyncOp::Add { ip, flag })
            } else {
                ops.push(SyncOp::Full { ip, flag })
            }
        }),
{
    assert(ips.push(ip).drop_last() =~= ips);
}

proof fn lemma_fill_keys_push(
    ips: Seq<u32>,
    ip: u32,
    desired: Map<u32, u32>,
    table: Map<u32, u32>,
    keys: Seq<u32>,
)
    ensures
        fill_keys(ips.push(ip), desired, table, keys) == ({
            let before = fill(ips, desired, table);
            let so_far = fill_keys(ips, desired, table, keys);
            if !before.contains_key(ip) && before.len() < MAX_ENTRIES {
                so_far.push(ip)
            } else {
                so_far
            }
        }),
{
    assert(ips.push(ip).drop_last() =~= ips);
}

proof fn lemma_kept_push(keys: Seq<u32>, key: u32, desired: Map<u32, u32>)
    ensures
        kept(keys.push(key), desired) == (if desired.contains_key(key) {
            kept(keys, desired).push(key)
        } else {
            kept(keys, desired)
        }),
{
    assert(keys.push(key).drop_last() =~= keys);
}

proof fn lemma_removals_push(keys: Seq<u32>, key: u32, desired: Map<u32, u32>)
    ensures
        removals(keys.push(key), desired) == (if desired.contains_key(key) {
            removals(keys, desired)
        } else {
            removals(keys, desired).push(SyncOp::Remove { ip: key })
        }),
{
    assert(keys.push(key).drop_last() =~= keys);
}

proof fn lemma_removals_skip_managed(keys: Seq<u32>, added: Seq<u32>, desired: Map<u32, u32>)
    requires
        forall|i: int| 0 <= i < added.len() ==> desired.contains_key(#[trigger] added[i]),
    ensures
        removals(keys + added, desired) == removals(keys, desired),
    decreases added.len(),
{
    if added.len() == 0 {
        assert(keys + added =~= keys);
    } else {
        let rest = added.drop_last();
        lemma_removals_skip_managed(keys, rest, desired);
        assert(keys + added =~= (keys + rest).push(added.last()));
        lemma_removals_push(keys + rest, added.last(), desired);
        assert(desired.contains_key(added[added.len() - 1]));
    }
}

/// One sync pass. Writes the flag of every record whose address the
/// table lacks or holds with another flag, then removes every address
/// that has no record. Returns the steps taken, in order.
pub fn sync_data(registry: &ServiceRegistry, table: &mut ServiceAvailability) -> (ops: Vec<SyncOp>)
    requires
        registry.wf(),
        old(table).wf(),
    ensures
        final(table).wf(),
        final(table)@ == synced(registry.key_seq(), desired_table(registry@), old(table)@),
        ops@ == sync_ops(
            registry.key_seq(),
            desired_table(registry@),
            old(table)@,
            old(table).key_seq(),
        ),
        final(table).key_seq() == kept(
            fill_keys(
                registry.key_seq(),
                desired_table(registry@),
                old(table)@,
                old(table).key_seq(),
            ),
            desired_table(registry@),
        ),
        replay(old(table)@, ops@) == final(table)@,
        forall|ip: u32| #[trigger]
            final(table)@.contains_key(ip) ==> desired_table(registry@).contains_key(ip)
                && final(table)@[ip] == desired_table(registry@)[ip],
        forall|ip: u32|
            old(table)@.contains_key(ip) && registry@.contains_key(ip)
                ==> #[trigger] final(table)@.contains_key(ip),
        old(table)@.len() + registry@.len() <= MAX_ENTRIES ==> final(table)@ == desired_table(
            registry@,
        ),
        forall|t: int|
            0 <= t < ops@.len() ==> op_called_for(
                #[trigger] ops@[t],
                old(table)@,
                desired_table(registry@),
            ),
        forall|t: int|
            0 <= t < ops@.len() && (#[trigger] ops@[t]) is Full ==> !final(table)@.contains_key(
                op_ip(ops@[t]),
            ),
        forall|ip: u32|
            registry@.contains_key(ip) && !final(table)@.contains_key(ip) ==> ops@.contains(
                SyncOp::Full { ip, flag: #[trigger] desired_table(registry@)[ip] },
            ),
        old(table)@ == desired_table(registry@) ==> ops@.len() == 0,
{
    let ghost before = old(table)@;
    let ghost desired = desired_table(registry@);
    let ghost ips = registry.key_seq();
    let ghost old_keys = old(table).key_seq();
    let ghost mut added: Seq<u32> = Seq::empty();
    proof {
        registry.lemma_keys();
        table.lemma_keys();
        assert(old_keys + added =~= old_keys);
    }
    let snapshot = registry.snapshot_for_sync();
    let n = snapshot.len();
    let mut ops: Vec<SyncOp> = Vec::new();
    let mut i: usize = 0;
    assert(ips.subrange(0, 0) =~= Seq::<u32>::empty());
    while i < n
        invariant
            table.wf(),
            i <= n,
            n == ips.len(),
            snapshot@.len() == n,
            ips.no_duplicates(),
            forall|j: int|
                0 <= j < n ==> (#[trigger] snapshot@[j]).0 == ips[j] && snapshot@[j].1
                    == desired[ips[j]],
            forall|j: int| 0 <= j < n ==> desired.contains_key(#[trigger] ips[j]),
            table@ == fill(ips.subrange(0, i as int), desired, before),
            ops@ == fill_ops(ips.subrange(0, i as int), desired, before),
            table.key_seq() == old_keys + added,
            table.key_seq() == fill_keys(ips.subrange(0, i as int), desired, before, old_keys),
            forall|x: int| 0 <= x < added.len() ==> desired.contains_key(#[trigger] added[x]),
            replay(before, ops@) == table@,
            forall|k: u32| #[trigger]
                table@.contains_key(k) ==> before.contains_key(k) || desired.contains_key(k),
            forall|k: u32| before.contains_key(k) ==> #[trigger] table@.contains_key(k),
            forall|j: int|
                0 <= j < i && table@.contains_key(#[trigger] ips[j]) ==> table@[ips[j]]
                    == desired[ips[j]],
            forall|k: u32|
                before.contains_key(k) && !ips.subrange(0, i as int).contains(k)
                    ==> #[trigger] table@[k] == before[k],
            forall|k: u32|
                table@.contains_key(k) && !before.contains_key(k) ==> #[trigger] ips.subrange(
                    0,
                    i as int,
                ).contains(k),
            table@.len() <= before.len() + i,
            before.len() + n <= MAX_ENTRIES ==> forall|j: int|
                0 <= j < i ==> table@.contains_key(#[trigger] ips[j]),
            forall|t: int| 0 <= t < ops@.len() ==> op_called_for(#[trigger] ops@[t], before, desired),
            forall|t: int|
                0 <= t < ops@.len() && (#[trigger] ops@[t]) is Full ==> !table@.contains_key(
                    op_ip(ops@[t]),
                ) && ips.subrange(0, i as int).contains(op_ip(ops@[t])),
            forall|j: int|
                0 <= j < i && !table@.contains_key(#[trigger] ips[j]) ==> ops@.contains(
                    SyncOp::Full { ip: ips[j], flag: desired[ips[j]] },
                ),
            before == desired ==> ops@.len() == 0,
        decreases n - i,
    {
        let (ip, flag) = snapshot[i];
        let ghost table_before = table@;
        let ghost ops_before = ops@;
        let ghost seen = ips.subrange(0, i as int);
        proof {
            table.lemma_keys();
            lemma_fill_push(seen, ip, desired, before);
            lemma_fill_ops_push(seen, ip, desired, before);
            lemma_fill_keys_push(seen, ip, desired, before, old_keys);
            assert(seen.push(ip) =~= ips.subrange(0, i + 1));
            assert(!seen.contains(ip)) by {
                if seen.contains(ip) {
                    let j = choose|j: int| 0 <= j < seen.len() && seen[j] == ip;
                    assert(ips[j] == ips[i as int]);
                }
            }
        }
        match table.get(ip) {
            Some(current) => {
                if current != flag {
                    let _ = table.insert(ip, flag);
                    ops.push(SyncOp::Update { ip, flag });
                    proof {
                        lemma_replay_push(before, ops_before, SyncOp::Update { ip, flag });
                    }
                } else {
                    assert(table_before.insert(ip, flag) =~= table_before);
                }
            },
            None => {
                match table.insert(ip, flag) {
                    Ok(()) => {
                        ops.push(SyncOp::Add { ip, flag });
                        proof {
                            lemma_replay_push(before, ops_before, SyncOp::Add { ip, flag });
                            assert((old_keys + added).push(ip) =~= old_keys + added.push(ip));
                            added = added.push(ip);
                        }
                    },
                    Err(_) => {
                        ops.push(SyncOp::Full { ip, flag });
                        proof {
                            lemma_replay_push(before, ops_before, SyncOp::Full { ip, flag });
                        }
                    },
                }
            },
        }
        proof {
            table.lemma_keys();
            let now_seen = ips.subrange(0, i + 1);
            assert(now_seen[i as int] == ip);
            assert forall|k: u32| seen.contains(k) implies now_seen.contains(k) by {
                let j = choose|j: int| 0 <= j < seen.len() && seen[j] == k;
                assert(now_seen[j] == k);
            }
            assert forall|k: u32| now_seen.contains(k) && k != ip implies seen.contains(k) by {
                let j = choose|j: int| 0 <= j < now_seen.len() && now_seen[j] == k;
                assert(seen[j] == k);
            }
            assert forall|j: int| 0 <= j < i + 1 && !table@.contains_key(
                #[trigger] ips[j],
            ) implies ops@.contains(SyncOp::Full { ip: ips[j], flag: desired[ips[j]] }) by {
                if j < i {
                    assert(!table_before.contains_key(ips[j]));
                    let w = SyncOp::Full { ip: ips[j], flag: desired[ips[j]] };
                    assert(ops_before.contains(w));
                    let t = choose|t: int| 0 <= t < ops_before.len() && ops_before[t] == w;
                    assert(ops@[t] == w);
                } else {
                    assert(ops@[ops@.len() - 1] == SyncOp::Full { ip, flag });
                }
            }
            assert forall|t: int| 0 <= t < ops@.len() && (#[trigger] ops@[t]) is Full implies
                !table@.contains_key(op_ip(ops@[t])) && now_seen.contains(op_ip(ops@[t])) by {
                if t < ops_before.len() {
                    assert(ops@[t] == ops_before[t]);
                    assert(seen.contains(op_ip(ops_before[t])));
                }
            }
            assert forall|t: int| 0 <= t < ops@.len() implies op_called_for(
                #[trigger] ops@[t],
                before,
                desired,
            ) by {
                if t < ops_before.len() {
                    assert(ops@[t] == ops_before[t]);
                }
            }
        }
        i += 1;
    }
    assert(ips.subrange(0, n as int) =~= ips);
    let ghost filled = table@;
    let ghost ops_filled = ops@;
    let ks = table.keys();
    let m = ks.len();
    let mut j: usize = 0;
    proof {
        table.lemma_keys();
        assert(ks@.subrange(0, 0) =~= Seq::<u32>::empty());
        assert(ops@ =~= ops_filled + removals(ks@.subrange(0, 0), desired));
        assert(table.key_seq() =~= kept(ks@.subrange(0, 0), desired) + ks@.subrange(0, m as int));
        assert(ks@.subrange(0, m as int) =~= ks@);
        assert forall|k: u32| filled.contains_key(k) implies ks@.contains(k) by {
            assert(ks@.to_set().contains(k));
        }
    }
    while j < m
        invariant
            table.wf(),
            registry.wf(),
            desired == desired_table(registry@),
            j <= m,
            m == ks@.len(),
            ks@.no_duplicates(),
            ks@.to_set() == filled.dom(),
            forall|k: u32|
                #![trigger table@.contains_key(k)]
                table@.contains_key(k) <==> filled.contains_key(k) && (desired.contains_key(k)
                    || ks@.subrange(j as int, m as int).contains(k)),
            forall|k: u32| table@.contains_key(k) ==> #[trigger] table@[k] == filled[k],
            forall|k: u32| #[trigger]
                filled.contains_key(k) ==> before.contains_key(k) || desired.contains_key(k),
            replay(before, ops@) == table@,
            ops@ == ops_filled + removals(ks@.subrange(0, j as int), desired),
            table.key_seq() == kept(ks@.subrange(0, j as int), desired) + ks@.subrange(
                j as int,
                m as int,
            ),
            forall|t: int| 0 <= t < ops@.len() ==> op_called_for(#[trigger] ops@[t], before, desired),
            forall|t: int|
                0 <= t < ops@.len() && (#[trigger] ops@[t]) is Full ==> !table@.contains_key(
                    op_ip(ops@[t]),
                ),
            ops_filled.len() <= ops@.len(),
            forall|t: int| 0 <= t < ops_filled.len() ==> ops@[t] == #[trigger] ops_filled[t],
            before == desired ==> ops@.len() == 0,
        decreases m - j,
    {
        let k = ks[j];
        let ghost table_before = table@;
        let ghost ops_before = ops@;
        let ghost rest = ks@.subrange(j as int, m as int);
        let ghost rest_after = ks@.subrange(j + 1, m as int);
        proof {
            assert(rest[0] == k);
            assert(ks@.to_set().contains(k));
            lemma_removals_push(ks@.subrange(0, j as int), k, desired);
            lemma_kept_push(ks@.subrange(0, j as int), k, desired);
            table.lemma_keys();
            assert(ks@.subrange(0, j as int).push(k) =~= ks@.subrange(0, j + 1));
            assert forall|x: u32| rest_after.contains(x) implies rest.contains(x) by {
                let t = choose|t: int| 0 <= t < rest_after.len() && rest_after[t] == x;
                assert(rest[t + 1] == x);
            }
            assert forall|x: u32| rest.contains(x) && x != k implies rest_after.contains(x) by {
                let t = choose|t: int| 0 <= t < rest.len() && rest[t] == x;
                assert(rest_after[t - 1] == x);
            }
            assert(!rest_after.contains(k)) by {
                if rest_after.contains(k) {
                    let t = choose|t: int| 0 <= t < rest_after.len() && rest_after[t] == k;
                    assert(ks@[j + 1 + t] == ks@[j as int]);
                }
            }
        }
        if registry.contains(k) {
            proof {
                let held = kept(ks@.subrange(0, j as int), desired);
                assert(held + rest =~= held.push(k) + rest_after);
            }
        } else {
            table.remove(k);
            ops.push(SyncOp::Remove { ip: k });
            proof {
                lemma_replay_push(before, ops_before, SyncOp::Remove { ip: k });
                assert(table_before.contains_key(k));
                assert(ops@ =~= ops_filled + removals(ks@.subrange(0, j + 1), desired));
                let held = kept(ks@.subrange(0, j as int), desired);
                let keys_before = held + rest;
                let at = keys_before.index_of(k);
                assert(keys_before[held.len() as int] == k);
                assert(keys_before.contains(k));
                assert(keys_before[at] == k);
                assert(at == held.len());
                assert(keys_before.remove(at) =~= held + rest_after);
                assert forall|t: int| 0 <= t < ops@.len() implies op_called_for(
                    #[trigger] ops@[t],
                    before,
                    desired,
                ) by {
                    if t < ops_before.len() {
                        assert(ops@[t] == ops_before[t]);
                    }
                }
                assert forall|t: int| 0 <= t < ops@.len() && (#[trigger] ops@[t]) is Full implies
                    !table@.contains_key(op_ip(ops@[t])) by {
                    if t < ops_before.len() {
                        assert(ops@[t] == ops_before[t]);
                    }
                }
            }
        }
        j += 1;
    }
    proof {
        assert(ks@.subrange(0, m as int) =~= ks@);
        assert(table.key_seq() =~= kept(ks@, desired)) by {
            assert(ks@.subrange(m as int, m as int) =~= Seq::<u32>::empty());
        }
        lemma_removals_skip_managed(old_keys, added, desired);
        assert(table@ =~= filled.restrict(desired.dom()));
        assert forall|ip: u32|
            registry@.contains_key(ip) && !table@.contains_key(ip) implies ops@.contains(
            SyncOp::Full { ip, flag: #[trigger] desired[ip] },
        ) by {
            assert(ips.to_set().contains(ip));
            let x = choose|x: int| 0 <= x < ips.len() && ips[x] == ip;
            assert(!filled.contains_key(ips[x]));
            let w = SyncOp::Full { ip: ips[x], flag: desired[ips[x]] };
            assert(ops_filled.contains(w));
            let t = choose|t: int| 0 <= t < ops_filled.len() && ops_filled[t] == w;
            assert(ops@[t] == w);
        }
        assert forall|ip: u32| #[trigger] table@.contains_key(ip) implies desired.contains_key(ip)
            && table@[ip] == desired[ip] by {
            assert(ips.to_set().contains(ip));
            let x = choose|x: int| 0 <= x < ips.len() && ips[x] == ip;
            assert(filled.contains_key(ips[x]));
        }
        if before.len() + registry@.len() <= MAX_ENTRIES {
            assert forall|ip: u32| desired.contains_key(ip) implies table@.contains_key(ip) by {
                assert(ips.to_set().contains(ip));
                let x = choose|x: int| 0 <= x < ips.len() && ips[x] == ip;
                assert(filled.contains_key(ips[x]));
            }
            assert(table@ =~= desired);
        }
    }
    ops
}

} // verus!
