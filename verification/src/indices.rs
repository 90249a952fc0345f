//! The index builder: read-only secondary indices derived from the raw
//! tables, used by the normalization engine for its joins. Each index is
//! built in one pass and carries, as a ghost value, the rows it was built
//! from; its well-formedness ties the stored groups to those rows.
use vstd::prelude::*;
use crate::strutil::str_eq;
use crate::tables::InventoryMinifigRecord;
use crate::tables::InventoryPartRecord;
use crate::tables::InventoryRecord;
use crate::tables::PartRecord;

verus! {

broadcast use vstd::seq_lib::group_seq_lib_default;

/// Whether a part with the given number exists in the part table.
pub open spec fn part_exists(parts: Seq<PartRecord>, n: Seq<char>) -> bool {
    exists|i: int| 0 <= i < parts.len() && parts[i].part_num@ == n
}

/// Membership index over the part table: which part numbers exist.
pub struct PartNumberSet {
    keys: Vec<String>,
    parts: Ghost<Seq<PartRecord>>,
}

impl PartNumberSet {
    /// The part rows this index was built from.
    pub closed spec fn src(&self) -> Seq<PartRecord> {
        self.parts@
    }

    /// The stored keys are exactly the part numbers of the source rows.
    pub closed spec fn wf(&self) -> bool {
        &&& self.keys@.len() == self.parts@.len()
        &&& forall|i: int| 0 <= i < self.keys@.len() ==> self.keys@[i]@ == self.parts@[i].part_num@
    }

    /// Collects the part numbers of the part table.
    pub fn build(parts: &Vec<PartRecord>) -> (r: Self)
        ensures
            r.wf(),
            r.src() == parts@,
    {
        let mut keys: Vec<String> = Vec::new();
        let n = parts.len();
        let mut i: usize = 0;
        while i < n
            invariant
                n == parts@.len(),
                i <= n,
                keys@.len() == i,
                forall|j: int| 0 <= j < i ==> keys@[j]@ == parts@[j].part_num@,
            decreases n - i,
        {
            keys.push(parts[i].part_num.clone());
            i = i + 1;
        }
        PartNumberSet { keys, parts: Ghost(parts@) }
    }

    /// Membership test: whether some part row carries this part number.
    pub fn contains(&self, n: &str) -> (r: bool)
        requires
            self.wf(),
        ensures
            r == part_exists(self.src(), n@),
    {
        let len = self.keys.len();
        let mut i: usize = 0;
        while i < len
            invariant
                self.wf(),
                len == self.keys@.len(),
                i <= len,
                forall|j: int| 0 <= j < i ==> self.keys@[j]@ != n@,
            decreases len - i,
        {
            if str_eq(self.keys[i].as_str(), n) {
                proof {
                    assert(self.parts@[i as int].part_num@ == n@);
                }
                return true;
            }
            i = i + 1;
        }
        proof {
            assert forall|j: int| 0 <= j < self.parts@.len() implies self.parts@[j].part_num@
                != n@ by {
                assert(self.keys@[j]@ == self.parts@[j].part_num@);
                assert(self.keys@[j]@ != n@);
            }
        }
        false
    }
}

/// A reference from a set to one of its inventories: the inventory id and the
/// version number the inventory carries.
#[derive(Clone, Copy, PartialEq, Eq, Structural, Debug)]
pub struct InvRef {
    pub id: u32,
    pub version: u16,
}

/// The inventories belonging to a set number, in source row order.
pub open spec fn invs_for(invs: Seq<InventoryRecord>, s: Seq<char>) -> Seq<InvRef>
    decreases invs.len(),
{
    if invs.len() == 0 {
        Seq::empty()
    } else {
        let rest = invs_for(invs.drop_last(), s);
        let last = invs.last();
        if last.set_num@ == s {
            rest.push(InvRef { id: last.id, version: last.version })
        } else {
            rest
        }
    }
}

/// If no inventory row carries the set number, its group is empty.
pub proof fn lemma_invs_for_absent(invs: Seq<InventoryRecord>, s: Seq<char>)
    requires
        forall|k: int| 0 <= k < invs.len() ==> invs[k].set_num@ != s,
    ensures
        invs_for(invs, s) == Seq::<InvRef>::empty(),
    decreases invs.len(),
{
    if invs.len() > 0 {
        lemma_invs_for_absent(invs.drop_last(), s);
    }
}

/// Some entry of the grouping carries this key.
pub open spec fn has_key_for(entries: Seq<(String, Vec<InvRef>)>, s: Seq<char>) -> bool {
    exists|i: int| 0 <= i < entries.len() && (#[trigger] entries[i].0@) == s
}

/// Index from set number to the set's inventories, in source row order.
pub struct SetInventoryIndex {
    entries: Vec<(String, Vec<InvRef>)>,
    invs: Ghost<Seq<InventoryRecord>>,
}

impl SetInventoryIndex {
    /// The inventory rows this index was built from.
    pub closed spec fn src(&self) -> Seq<InventoryRecord> {
        self.invs@
    }

    /// Keys are distinct, each group is exactly that key's inventories, and
    /// every inventory row's set number has an entry.
    pub closed spec fn wf(&self) -> bool {
        &&& forall|i: int, j: int|
            0 <= i < j < self.entries@.len() ==> self.entries@[i].0@ != self.entries@[j].0@
        &&& forall|i: int|
            0 <= i < self.entries@.len() ==> self.entries@[i].1@ == invs_for(
                self.invs@,
                self.entries@[i].0@,
            )
        &&& forall|k: int|
            0 <= k < self.invs@.len() ==> #[trigger] has_key_for(
                self.entries@,
                self.invs@[k].set_num@,
            )
    }

    /// Groups the inventory rows by set number, keeping row order inside each
    /// group.
    pub fn build(invs: &Vec<InventoryRecord>) -> (r: Self)
        ensures
            r.wf(),
            r.src() == invs@,
    {
        let mut entries: Vec<(String, Vec<InvRef>)> = Vec::new();
        let n = invs.len();
        let mut k: usize = 0;
        while k < n
            invariant
                n == invs@.len(),
                k <= n,
                forall|i: int, j: int|
                    0 <= i < j < entries@.len() ==> entries@[i].0@ != entries@[j].0@,
                forall|i: int|
                    0 <= i < entries@.len() ==> entries@[i].1@ == invs_for(
                        invs@.take(k as int),
                        entries@[i].0@,
                    ),
                forall|m: int|
                    0 <= m < k ==> #[trigger] has_key_for(entries@, invs@[m].set_num@),
            decreases n - k,
        {
            let ghost prefix = invs@.take(k as int);
            let ghost prefix2 = invs@.take(k + 1 as int);
            proof {
                assert(prefix2.drop_last() =~= prefix);
                assert(prefix2.last() == invs@[k as int]);
            }
            let rec = &invs[k];
            let added = InvRef { id: rec.id, version: rec.version };
            let at = find_key(&entries, rec.set_num.as_str());
            match at {
                Some(at) => {
                    let ghost old_entries = entries@;
                    let pair = entries.remove(at);
                    let (key, mut group) = pair;
                    group.push(added);
                    entries.push((key, group));
                    proof {
                        old_entries.remove_ensures(at as int);
                        let last: int = entries@.len() - 1;
                        assert(entries@.len() == old_entries.len());
                        assert(forall|i: int|
                            0 <= i < at ==> entries@[i] == old_entries[i]);
                        assert(forall|i: int|
                            at <= i < last ==> entries@[i] == old_entries[i + 1]);
                        assert(entries@[last].0@ == old_entries[at as int].0@);
                        assert(entries@[last].1@ == old_entries[at as int].1@.push(added));
                        assert forall|i: int| 0 <= i < entries@.len() implies entries@[i].1@
                            == invs_for(prefix2, entries@[i].0@) by {
                            let key_i = entries@[i].0@;
                            if i < last {
                                let oi: int = if i < at { i } else { i + 1 };
                                assert(entries@[i] == old_entries[oi]);
                                assert(key_i != rec.set_num@);
                                assert(invs_for(prefix2, key_i) == invs_for(prefix, key_i));
                            } else {
                                assert(key_i == rec.set_num@);
                                assert(invs_for(prefix2, key_i) == invs_for(prefix, key_i).push(
                                    added,
                                ));
                            }
                        }
                        assert forall|i: int, j: int|
                            0 <= i < j < entries@.len() implies entries@[i].0@
                            != entries@[j].0@ by {
                            let oi: int = if i < at { i } else { i + 1 };
                            if j < last {
                                let oj: int = if j < at { j } else { j + 1 };
                                assert(entries@[i] == old_entries[oi]);
                                assert(entries@[j] == old_entries[oj]);
                            } else {
                                assert(entries@[i] == old_entries[oi]);
                                assert(entries@[j].0@ == old_entries[at as int].0@);
                            }
                        }
                        assert forall|m: int| 0 <= m < k + 1 implies #[trigger] has_key_for(
                            entries@,
                            invs@[m].set_num@,
                        ) by {
                            if m < k {
                                assert(has_key_for(old_entries, invs@[m].set_num@));
                                let oi = choose|oi: int|
                                    0 <= oi < old_entries.len() && (#[trigger] old_entries[oi].0@)
                                        == invs@[m].set_num@;
                                let ni: int = if oi == at {
                                    last
                                } else if oi < at {
                                    oi
                                } else {
                                    oi - 1
                                };
                                assert(entries@[ni].0@ == invs@[m].set_num@);
                            } else {
                                assert(entries@[last].0@ == invs@[m].set_num@);
                            }
                        }
                    }
                }
                None => {
                    let mut group: Vec<InvRef> = Vec::new();
                    group.push(added);
                    let ghost old_entries = entries@;
                    entries.push((rec.set_num.clone(), group));
                    proof {
                        assert forall|m: int| 0 <= m < prefix.len() implies prefix[m].set_num@
                            != rec.set_num@ by {
                            if prefix[m].set_num@ == rec.set_num@ {
                                assert(has_key_for(old_entries, invs@[m].set_num@));
                                let oi = choose|oi: int|
                                    0 <= oi < old_entries.len() && (#[trigger] old_entries[oi].0@)
                                        == invs@[m].set_num@;
                                assert(old_entries[oi].0@ == rec.set_num@);
                            }
                        }
                        lemma_invs_for_absent(prefix, rec.set_num@);
                        let last: int = entries@.len() - 1;
                        assert(entries@[last].1@ =~= invs_for(prefix2, rec.set_num@));
                        assert forall|i: int| 0 <= i < entries@.len() implies entries@[i].1@
                            == invs_for(prefix2, entries@[i].0@) by {
                            if i < last {
                                assert(entries@[i] == old_entries[i]);
                                assert(entries@[i].0@ != rec.set_num@);
                                assert(invs_for(prefix2, entries@[i].0@) == invs_for(
                                    prefix,
                                    entries@[i].0@,
                                ));
                            }
                        }
                        assert forall|m: int| 0 <= m < k + 1 implies #[trigger] has_key_for(
                            entries@,
                            invs@[m].set_num@,
                        ) by {
                            if m < k {
                                assert(has_key_for(old_entries, invs@[m].set_num@));
                                let oi = choose|oi: int|
                                    0 <= oi < old_entries.len() && (#[trigger] old_entries[oi].0@)
                                        == invs@[m].set_num@;
                                assert(entries@[oi].0@ == invs@[m].set_num@);
                            } else {
                                assert(entries@[last].0@ == invs@[m].set_num@);
                            }
                        }
                    }
                }
            }
            k = k + 1;
        }
        proof {
            assert(invs@.take(n as int) =~= invs@);
        }
        SetInventoryIndex { entries, invs: Ghost(invs@) }
    }

    /// The inventories of a set number, in source row order; a set number
    /// without inventory rows yields the empty group.
    pub fn lookup(&self, set_num: &str) -> (r: Vec<InvRef>)
        requires
            self.wf(),
        ensures
            r@ == invs_for(self.src(), set_num@),
    {
        let at = find_key(&self.entries, set_num);
        match at {
            Some(at) => {
                let entry = &self.entries[at];
                let mut r: Vec<InvRef> = Vec::new();
                let glen = entry.1.len();
                let mut j: usize = 0;
                while j < glen
                    invariant
                        glen == entry.1@.len(),
                        j <= glen,
                        r@ == entry.1@.take(j as int),
                    decreases glen - j,
                {
                    r.push(entry.1[j]);
                    proof {
                        assert(entry.1@.take(j + 1 as int) =~= entry.1@.take(j as int).push(
                            entry.1@[j as int],
                        ));
                    }
                    j = j + 1;
                }
                proof {
                    assert(entry.1@.take(glen as int) =~= entry.1@);
                }
                r
            }
            None => {
                proof {
                    assert forall|m: int| 0 <= m < self.invs@.len() implies self.invs@[m].set_num@
                        != set_num@ by {
                        if self.invs@[m].set_num@ == set_num@ {
                            assert(has_key_for(self.entries@, self.invs@[m].set_num@));
                            let i = choose|i: int|
                                0 <= i < self.entries@.len() && (#[trigger] self.entries@[i].0@)
                                    == self.invs@[m].set_num@;
                            assert(self.entries@[i].0@ == set_num@);
                        }
                    }
                    lemma_invs_for_absent(self.invs@, set_num@);
                }
                Vec::new()
            }
        }
    }
}

/// The inventory-part rows belonging to an inventory id, in source row order.
pub open spec fn part_rows_for(rows: Seq<InventoryPartRecord>, id: u32) -> Seq<
    InventoryPartRecord,
>
    decreases rows.len(),
{
    if rows.len() == 0 {
        Seq::empty()
    } else {
        let rest = part_rows_for(rows.drop_last(), id);
        if rows.last().inventory_id == id {
            rest.push(rows.last())
        } else {
            rest
        }
    }
}

/// If no inventory-part row carries the id, its group is empty.
pub proof fn lemma_part_rows_absent(rows: Seq<InventoryPartRecord>, id: u32)
    requires
        forall|k: int| 0 <= k < rows.len() ==> rows[k].inventory_id != id,
    ensures
        part_rows_for(rows, id) == Seq::<InventoryPartRecord>::empty(),
    decreases rows.len(),
{
    if rows.len() > 0 {
        lemma_part_rows_absent(rows.drop_last(), id);
    }
}

/// Some entry of the grouping carries this inventory id.
pub open spec fn has_id_for_parts(entries: Seq<(u32, Vec<InventoryPartRecord>)>, id: u32) -> bool {
    exists|i: int| 0 <= i < entries.len() && (#[trigger] entries[i].0) == id
}

/// Index from inventory id to that inventory's part rows, in source row order.
pub struct InventoryPartIndex {
    entries: Vec<(u32, Vec<InventoryPartRecord>)>,
    rows: Ghost<Seq<InventoryPartRecord>>,
}

impl InventoryPartIndex {
    /// The inventory-part rows this index was built from.
    pub closed spec fn src(&self) -> Seq<InventoryPartRecord> {
        self.rows@
    }

    /// Keys are distinct, each group is exactly that id's rows, and every
    /// row's inventory id has an entry.
    pub closed spec fn wf(&self) -> bool {
        &&& forall|i: int, j: int|
            0 <= i < j < self.entries@.len() ==> self.entries@[i].0 != self.entries@[j].0
        &&& forall|i: int|
            0 <= i < self.entries@.len() ==> self.entries@[i].1@ == part_rows_for(
                self.rows@,
                self.entries@[i].0,
            )
        &&& forall|k: int|
            0 <= k < self.rows@.len() ==> #[trigger] has_id_for_parts(
                self.entries@,
                self.rows@[k].inventory_id,
            )
    }

    /// Groups the inventory-part rows by inventory id, keeping row order
    /// inside each group.
    pub fn build(rows: Vec<InventoryPartRecord>) -> (r: Self)
        ensures
            r.wf(),
            r.src() == rows@,
    {
        let ghost all = rows@;
        let mut rows = rows;
        let mut entries: Vec<(u32, Vec<InventoryPartRecord>)> = Vec::new();
        let total = rows.len();
        let mut k: usize = 0;
        while k < total
            invariant
                total == all.len(),
                k <= total,
                rows@ =~= all.skip(k as int),
                forall|i: int, j: int|
                    0 <= i < j < entries@.len() ==> entries@[i].0 != entries@[j].0,
                forall|i: int|
                    0 <= i < entries@.len() ==> entries@[i].1@ == part_rows_for(
                        all.take(k as int),
                        entries@[i].0,
                    ),
                forall|m: int|
                    0 <= m < k ==> #[trigger] has_id_for_parts(entries@, all[m].inventory_id),
            decreases total - k,
        {
            let ghost prefix = all.take(k as int);
            let ghost prefix2 = all.take(k + 1 as int);
            proof {
                assert(prefix2.drop_last() =~= prefix);
                assert(prefix2.last() == all[k as int]);
                assert(rows@[0] == all[k as int]);
            }
            let rec = rows.remove(0);
            let ghost recg = rec;
            let id = rec.inventory_id;
            let at = find_id(&entries, id);
            match at {
                Some(at) => {
                    let ghost old_entries = entries@;
                    let pair = entries.remove(at);
                    let (key, mut group) = pair;
                    group.push(rec);
                    entries.push((key, group));
                    proof {
                        old_entries.remove_ensures(at as int);
                        let last: int = entries@.len() - 1;
                        assert(entries@.len() == old_entries.len());
                        assert(forall|i: int| 0 <= i < at ==> entries@[i] == old_entries[i]);
                        assert(forall|i: int|
                            at <= i < last ==> entries@[i] == old_entries[i + 1]);
                        assert(entries@[last].0 == old_entries[at as int].0);
                        assert(entries@[last].1@ == old_entries[at as int].1@.push(recg));
                        assert forall|i: int| 0 <= i < entries@.len() implies entries@[i].1@
                            == part_rows_for(prefix2, entries@[i].0) by {
                            let key_i = entries@[i].0;
                            if i < last {
                                let oi: int = if i < at {
                                    i
                                } else {
                                    i + 1
                                };
                                assert(entries@[i] == old_entries[oi]);
                                assert(key_i != id);
                                assert(part_rows_for(prefix2, key_i) == part_rows_for(
                                    prefix,
                                    key_i,
                                ));
                            } else {
                                assert(key_i == id);
                                assert(part_rows_for(prefix2, key_i) == part_rows_for(
                                    prefix,
                                    key_i,
                                ).push(recg));
                            }
                        }
                        assert forall|i: int, j: int|
                            0 <= i < j < entries@.len() implies entries@[i].0
                            != entries@[j].0 by {
                            let oi: int = if i < at {
                                i
                            } else {
                                i + 1
                            };
                            if j < last {
                                let oj: int = if j < at {
                                    j
                                } else {
                                    j + 1
                                };
                                assert(entries@[i] == old_entries[oi]);
                                assert(entries@[j] == old_entries[oj]);
                            } else {
                                assert(entries@[i] == old_entries[oi]);
                                assert(entries@[j].0 == old_entries[at as int].0);
                            }
                        }
                        assert forall|m: int| 0 <= m < k + 1 implies #[trigger] has_id_for_parts(
                            entries@,
                            all[m].inventory_id,
                        ) by {
                            if m < k {
                                assert(has_id_for_parts(old_entries, all[m].inventory_id));
                                let oi = choose|oi: int|
                                    0 <= oi < old_entries.len() && (#[trigger] old_entries[oi].0)
                                        == all[m].inventory_id;
                                let ni: int = if oi == at {
                                    last
                                } else if oi < at {
                                    oi
                                } else {
                                    oi - 1
                                };
                                assert(entries@[ni].0 == all[m].inventory_id);
                            } else {
                                assert(entries@[last].0 == all[m].inventory_id);
                            }
                        }
                    }
                }
                None => {
                    let mut group: Vec<InventoryPartRecord> = Vec::new();
                    group.push(rec);
                    let ghost old_entries = entries@;
                    entries.push((id, group));
                    proof {
                        assert forall|m: int| 0 <= m < prefix.len() implies prefix[m].inventory_id
                            != id by {
                            if prefix[m].inventory_id == id {
                                assert(has_id_for_parts(old_entries, all[m].inventory_id));
                                let oi = choose|oi: int|
                                    0 <= oi < old_entries.len() && (#[trigger] old_entries[oi].0)
                                        == all[m].inventory_id;
                                assert(old_entries[oi].0 == id);
                            }
                        }
                        lemma_part_rows_absent(prefix, id);
                        let last: int = entries@.len() - 1;
                        assert(entries@[last].1@ =~= part_rows_for(prefix2, id));
                        assert forall|i: int| 0 <= i < entries@.len() implies entries@[i].1@
                            == part_rows_for(prefix2, entries@[i].0) by {
                            if i < last {
                                assert(entries@[i] == old_entries[i]);
                                assert(entries@[i].0 != id);
                                assert(part_rows_for(prefix2, entries@[i].0) == part_rows_for(
                                    prefix,
                                    entries@[i].0,
                                ));
                            }
                        }
                        assert forall|m: int| 0 <= m < k + 1 implies #[trigger] has_id_for_parts(
                            entries@,
                            all[m].inventory_id,
                        ) by {
                            if m < k {
                                assert(has_id_for_parts(old_entries, all[m].inventory_id));
                                let oi = choose|oi: int|
                                    0 <= oi < old_entries.len() && (#[trigger] old_entries[oi].0)
                                        == all[m].inventory_id;
                                assert(entries@[oi].0 == all[m].inventory_id);
                            } else {
                                assert(entries@[last].0 == all[m].inventory_id);
                            }
                        }
                    }
                }
            }
            proof {
                assert(rows@ =~= all.skip(k + 1 as int));
            }
            k = k + 1;
        }
        proof {
            assert(all.take(total as int) =~= all);
        }
        InventoryPartIndex { entries, rows: Ghost(all) }
    }

    /// The part rows of an inventory id; an id without rows yields nothing.
    pub fn get(&self, id: u32) -> (r: Option<&Vec<InventoryPartRecord>>)
        requires
            self.wf(),
        ensures
            match r {
                Some(v) => v@ == part_rows_for(self.src(), id),
                None => part_rows_for(self.src(), id).len() == 0,
            },
    {
        let at = find_id(&self.entries, id);
        match at {
            Some(at) => {
                let entry = &self.entries[at];
                Some(&entry.1)
            }
            None => {
                proof {
                    assert forall|m: int| 0 <= m < self.rows@.len() implies self.rows@[m].inventory_id
                        != id by {
                        if self.rows@[m].inventory_id == id {
                            assert(has_id_for_parts(self.entries@, self.rows@[m].inventory_id));
                            let i = choose|i: int|
                                0 <= i < self.entries@.len() && (#[trigger] self.entries@[i].0)
                                    == self.rows@[m].inventory_id;
                            assert(self.entries@[i].0 == id);
                        }
                    }
                    lemma_part_rows_absent(self.rows@, id);
                }
                None
            }
        }
    }
}

/// Index of the first entry whose inventory id equals the given one, if any.
fn find_id(entries: &Vec<(u32, Vec<InventoryPartRecord>)>, id: u32) -> (r: Option<usize>)
    ensures
        match r {
            Some(i) => i < entries@.len() && entries@[i as int].0 == id,
            None => forall|i: int| 0 <= i < entries@.len() ==> entries@[i].0 != id,
        },
{
    let len = entries.len();
    let mut i: usize = 0;
    while i < len
        invariant
            len == entries@.len(),
            i <= len,
            forall|j: int| 0 <= j < i ==> entries@[j].0 != id,
        decreases len - i,
    {
        if entries[i].0 == id {
            return Some(i);
        }
        i = i + 1;
    }
    None
}

/// The inventory-minifig rows belonging to an inventory id, in source row order.
pub open spec fn minifig_rows_for(rows: Seq<InventoryMinifigRecord>, id: u32) -> Seq<
    InventoryMinifigRecord,
>
    decreases rows.len(),
{
    if rows.len() == 0 {
        Seq::empty()
    } else {
        let rest = minifig_rows_for(rows.drop_last(), id);
        if rows.last().inventory_id == id {
            rest.push(rows.last())
        } else {
            rest
        }
    }
}

/// If no inventory-part row carries the id, its group is empty.
pub proof fn lemma_minifig_rows_absent(rows: Seq<InventoryMinifigRecord>, id: u32)
    requires
        forall|k: int| 0 <= k < rows.len() ==> rows[k].inventory_id != id,
    ensures
        minifig_rows_for(rows, id) == Seq::<InventoryMinifigRecord>::empty(),
    decreases rows.len(),
{
    if rows.len() > 0 {
        lemma_minifig_rows_absent(rows.drop_last(), id);
    }
}

/// Some entry of the grouping carries this inventory id.
pub open spec fn has_id_for_minifigs(entries: Seq<(u32, Vec<InventoryMinifigRecord>)>, id: u32) -> bool {
    exists|i: int| 0 <= i < entries.len() && (#[trigger] entries[i].0) == id
}

/// Index from inventory id to that inventory's part rows, in source row order.
pub struct InventoryMinifigIndex {
    entries: Vec<(u32, Vec<InventoryMinifigRecord>)>,
    rows: Ghost<Seq<InventoryMinifigRecord>>,
}

impl InventoryMinifigIndex {
    /// The inventory-minifig rows this index was built from.
    pub closed spec fn src(&self) -> Seq<InventoryMinifigRecord> {
        self.rows@
    }

    /// Keys are distinct, each group is exactly that id's rows, and every
    /// row's inventory id has an entry.
    pub closed spec fn wf(&self) -> bool {
        &&& forall|i: int, j: int|
            0 <= i < j < self.entries@.len() ==> self.entries@[i].0 != self.entries@[j].0
        &&& forall|i: int|
            0 <= i < self.entries@.len() ==> self.entries@[i].1@ == minifig_rows_for(
                self.rows@,
                self.entries@[i].0,
            )
        &&& forall|k: int|
            0 <= k < self.rows@.len() ==> #[trigger] has_id_for_minifigs(
                self.entries@,
                self.rows@[k].inventory_id,
            )
    }

    /// Groups the inventory-minifig rows by inventory id, keeping row order
    /// inside each group.
    pub fn build(rows: Vec<InventoryMinifigRecord>) -> (r: Self)
        ensures
            r.wf(),
            r.src() == rows@,
    {
        let ghost all = rows@;
        let mut rows = rows;
        let mut entries: Vec<(u32, Vec<InventoryMinifigRecord>)> = Vec::new();
        let total = rows.len();
        let mut k: usize = 0;
        while k < total
            invariant
                total == all.len(),
                k <= total,
                rows@ =~= all.skip(k as int),
                forall|i: int, j: int|
                    0 <= i < j < entries@.len() ==> entries@[i].0 != entries@[j].0,
                forall|i: int|
                    0 <= i < entries@.len() ==> entries@[i].1@ == minifig_rows_for(
                        all.take(k as int),
                        entries@[i].0,
                    ),
                forall|m: int|
                    0 <= m < k ==> #[trigger] has_id_for_minifigs(entries@, all[m].inventory_id),
            decreases total - k,
        {
            let ghost prefix = all.take(k as int);
            let ghost prefix2 = all.take(k + 1 as int);
            proof {
                assert(prefix2.drop_last() =~= prefix);
                assert(prefix2.last() == all[k as int]);
                assert(rows@[0] == all[k as int]);
            }
            let rec = rows.remove(0);
            let ghost recg = rec;
            let id = rec.inventory_id;
            let at = find_id_minifig(&entries, id);
            match at {
                Some(at) => {
                    let ghost old_entries = entries@;
                    let pair = entries.remove(at);
                    let (key, mut group) = pair;
                    group.push(rec);
                    entries.push((key, group));
                    proof {
                        old_entries.remove_ensures(at as int);
                        let last: int = entries@.len() - 1;
                        assert(entries@.len() == old_entries.len());
                        assert(forall|i: int| 0 <= i < at ==> entries@[i] == old_entries[i]);
                        assert(forall|i: int|
                            at <= i < last ==> entries@[i] == old_entries[i + 1]);
                        assert(entries@[last].0 == old_entries[at as int].0);
                        assert(entries@[last].1@ == old_entries[at as int].1@.push(recg));
                        assert forall|i: int| 0 <= i < entries@.len() implies entries@[i].1@
                            == minifig_rows_for(prefix2, entries@[i].0) by {
                            let key_i = entries@[i].0;
                            if i < last {
                                let oi: int = if i < at {
                                    i
                                } else {
                                    i + 1
                                };
                                assert(entries@[i] == old_entries[oi]);
                                assert(key_i != id);
                                assert(minifig_rows_for(prefix2, key_i) == minifig_rows_for(
                                    prefix,
                                    key_i,
                                ));
                            } else {
                                assert(key_i == id);
                                assert(minifig_rows_for(prefix2, key_i) == minifig_rows_for(
                                    prefix,
                                    key_i,
                                ).push(recg));
                            }
                        }
                        assert forall|i: int, j: int|
                            0 <= i < j < entries@.len() implies entries@[i].0
                            != entries@[j].0 by {
                            let oi: int = if i < at {
                                i
                            } else {
                                i + 1
                            };
                            if j < last {
                                let oj: int = if j < at {
                                    j
                                } else {
                                    j + 1
                                };
                                assert(entries@[i] == old_entries[oi]);
                                assert(entries@[j] == old_entries[oj]);
                            } else {
                                assert(entries@[i] == old_entries[oi]);
                                assert(entries@[j].0 == old_entries[at as int].0);
                            }
                        }
                        assert forall|m: int| 0 <= m < k + 1 implies #[trigger] has_id_for_minifigs(
                            entries@,
                            all[m].inventory_id,
                        ) by {
                            if m < k {
                                assert(has_id_for_minifigs(old_entries, all[m].inventory_id));
                                let oi = choose|oi: int|
                                    0 <= oi < old_entries.len() && (#[trigger] old_entries[oi].0)
                                        == all[m].inventory_id;
                                let ni: int = if oi == at {
                                    last
                                } else if oi < at {
                                    oi
                                } else {
                                    oi - 1
                                };
                                assert(entries@[ni].0 == all[m].inventory_id);
                            } else {
                                assert(entries@[last].0 == all[m].inventory_id);
                            }
                        }
                    }
                }
                None => {
                    let mut group: Vec<InventoryMinifigRecord> = Vec::new();
                    group.push(rec);
                    let ghost old_entries = entries@;
                    entries.push((id, group));
                    proof {
                        assert forall|m: int| 0 <= m < prefix.len() implies prefix[m].inventory_id
                            != id by {
                            if prefix[m].inventory_id == id {
                                assert(has_id_for_minifigs(old_entries, all[m].inventory_id));
                                let oi = choose|oi: int|
                                    0 <= oi < old_entries.len() && (#[trigger] old_entries[oi].0)
                                        == all[m].inventory_id;
                                assert(old_entries[oi].0 == id);
                            }
                        }
                        lemma_minifig_rows_absent(prefix, id);
                        let last: int = entries@.len() - 1;
                        assert(entries@[last].1@ =~= minifig_rows_for(prefix2, id));
                        assert forall|i: int| 0 <= i < entries@.len() implies entries@[i].1@
                            == minifig_rows_for(prefix2, entries@[i].0) by {
                            if i < last {
                                assert(entries@[i] == old_entries[i]);
                                assert(entries@[i].0 != id);
                                assert(minifig_rows_for(prefix2, entries@[i].0) == minifig_rows_for(
                                    prefix,
                                    entries@[i].0,
                                ));
                            }
                        }
                        assert forall|m: int| 0 <= m < k + 1 implies #[trigger] has_id_for_minifigs(
                            entries@,
                            all[m].inventory_id,
                        ) by {
                            if m < k {
                                assert(has_id_for_minifigs(old_entries, all[m].inventory_id));
                                let oi = choose|oi: int|
                                    0 <= oi < old_entries.len() && (#[trigger] old_entries[oi].0)
                                        == all[m].inventory_id;
                                assert(entries@[oi].0 == all[m].inventory_id);
                            } else {
                                assert(entries@[last].0 == all[m].inventory_id);
                            }
                        }
                    }
                }
            }
            proof {
                assert(rows@ =~= all.skip(k + 1 as int));
            }
            k = k + 1;
        }
        proof {
            assert(all.take(total as int) =~= all);
        }
        InventoryMinifigIndex { entries, rows: Ghost(all) }
    }

    /// The minifig rows of an inventory id; an id without rows yields nothing.
    pub fn get(&self, id: u32) -> (r: Option<&Vec<InventoryMinifigRecord>>)
        requires
            self.wf(),
        ensures
            match r {
                Some(v) => v@ == minifig_rows_for(self.src(), id),
                None => minifig_rows_for(self.src(), id).len() == 0,
            },
    {
        let at = find_id_minifig(&self.entries, id);
        match at {
            Some(at) => {
                let entry = &self.entries[at];
                Some(&entry.1)
            }
            None => {
                proof {
                    assert forall|m: int| 0 <= m < self.rows@.len() implies self.rows@[m].inventory_id
                        != id by {
                        if self.rows@[m].inventory_id == id {
                            assert(has_id_for_minifigs(self.entries@, self.rows@[m].inventory_id));
                            let i = choose|i: int|
                                0 <= i < self.entries@.len() && (#[trigger] self.entries@[i].0)
                                    == self.rows@[m].inventory_id;
                            assert(self.entries@[i].0 == id);
                        }
                    }
                    lemma_minifig_rows_absent(self.rows@, id);
                }
                None
            }
        }
    }
}

/// Index of the first entry whose inventory id equals the given one, if any.
fn find_id_minifig(entries: &Vec<(u32, Vec<InventoryMinifigRecord>)>, id: u32) -> (r: Option<usize>)
    ensures
        match r {
            Some(i) => i < entries@.len() && entries@[i as int].0 == id,
            None => forall|i: int| 0 <= i < entries@.len() ==> entries@[i].0 != id,
        },
{
    let len = entries.len();
    let mut i: usize = 0;
    while i < len
        invariant
            len == entries@.len(),
            i <= len,
            forall|j: int| 0 <= j < i ==> entries@[j].0 != id,
        decreases len - i,
    {
        if entries[i].0 == id {
            return Some(i);
        }
        i = i + 1;
    }
    None
}

/// Index of the first entry whose key equals the given string, if any.
fn find_key(entries: &Vec<(String, Vec<InvRef>)>, s: &str) -> (r: Option<usize>)
    ensures
        match r {
            Some(i) => i < entries@.len() && entries@[i as int].0@ == s@,
            None => forall|i: int| 0 <= i < entries@.len() ==> entries@[i].0@ != s@,
        },
{
    let len = entries.len();
    let mut i: usize = 0;
    while i < len
        invariant
            len == entries@.len(),
            i <= len,
            forall|j: int| 0 <= j < i ==> entries@[j].0@ != s@,
        decreases len - i,
    {
        if str_eq(entries[i].0.as_str(), s) {
            return Some(i);
        }
        i = i + 1;
    }
    None
}

} // verus!
