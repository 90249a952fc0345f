//! The hierarchy analyzer: depth of the theme forest along parent links.
//! Each theme's depth is itself plus its chain of parents; the table's size
//! bounds every well-formed chain, so a walk that runs longer has revisited a
//! theme and the forest has a cycle, which is reported instead of looping.
use vstd::prelude::*;
use crate::tables::ThemeRecord;

verus! {

/// A theme with this id exists in the table.
pub open spec fn theme_id_exists(themes: Seq<ThemeRecord>, id: u32) -> bool {
    exists|j: int| 0 <= j < themes.len() && themes[j].id == id
}

/// Every parent link points at a theme present in the table.
pub open spec fn parents_closed(themes: Seq<ThemeRecord>) -> bool {
    forall|i: int|
        0 <= i < themes.len() ==> match (#[trigger] themes[i]).parent_id {
            Some(p) => theme_id_exists(themes, p),
            None => true,
        }
}

/// The parent link used for walking from this id: the one of the last table
/// row carrying the id, which is the row a by-id lookup yields.
pub open spec fn theme_parent(themes: Seq<ThemeRecord>, id: u32) -> Option<u32>
    decreases themes.len(),
{
    if themes.len() == 0 {
        None
    } else if themes.last().id == id {
        themes.last().parent_id
    } else {
        theme_parent(themes.drop_last(), id)
    }
}

/// Whether the parent chain starting at this link reaches a root within
/// `fuel` hops.
pub open spec fn chain_ok(themes: Seq<ThemeRecord>, p: Option<u32>, fuel: nat) -> bool
    decreases fuel,
{
    match p {
        None => true,
        Some(pid) => fuel > 0 && chain_ok(themes, theme_parent(themes, pid), (fuel - 1) as nat),
    }
}

/// How many hops the chain takes to reach a root, within `fuel`.
pub open spec fn chain_len(themes: Seq<ThemeRecord>, p: Option<u32>, fuel: nat) -> nat
    decreases fuel,
{
    match p {
        None => 0,
        Some(pid) => if fuel == 0 {
            0
        } else {
            (1 + chain_len(themes, theme_parent(themes, pid), (fuel - 1) as nat)) as nat
        },
    }
}

/// The depth of one theme: itself plus its chain of parents.
pub open spec fn theme_depth(themes: Seq<ThemeRecord>, r: ThemeRecord) -> nat {
    1 + chain_len(themes, r.parent_id, themes.len() as nat)
}

/// Every theme's chain reaches a root within the table's size.
pub open spec fn all_chains_ok(themes: Seq<ThemeRecord>) -> bool {
    forall|i: int|
        0 <= i < themes.len() ==> chain_ok(
            themes,
            (#[trigger] themes[i]).parent_id,
            themes.len() as nat,
        )
}

/// The maximum depth over the first `n` themes.
pub open spec fn max_depth_upto(themes: Seq<ThemeRecord>, n: int) -> nat
    decreases n,
{
    if n <= 0 {
        0
    } else {
        let d = theme_depth(themes, themes[n - 1]);
        let rest = max_depth_upto(themes, n - 1);
        if d > rest {
            d
        } else {
            rest
        }
    }
}

/// The walking link of an id is the parent link of a row carrying the id.
proof fn lemma_theme_parent_from_row(themes: Seq<ThemeRecord>, id: u32) -> (j: int)
    requires
        theme_id_exists(themes, id),
    ensures
        0 <= j < themes.len(),
        themes[j].id == id,
        theme_parent(themes, id) == themes[j].parent_id,
    decreases themes.len(),
{
    if themes.last().id == id {
        themes.len() - 1
    } else {
        let w = choose|w: int| 0 <= w < themes.len() && (#[trigger] themes[w].id) == id;
        assert(themes.drop_last()[w] == themes[w]);
        let j = lemma_theme_parent_from_row(themes.drop_last(), id);
        assert(themes.drop_last()[j] == themes[j]);
        j
    }
}

/// A row that no later row shadows supplies the walking link of its id.
proof fn lemma_theme_parent_at(themes: Seq<ThemeRecord>, j: int)
    requires
        0 <= j < themes.len(),
        forall|l: int| j < l < themes.len() ==> themes[l].id != themes[j].id,
    ensures
        theme_parent(themes, themes[j].id) == themes[j].parent_id,
    decreases themes.len(),
{
    if j == themes.len() - 1 {
    } else {
        assert(themes.drop_last()[j] == themes[j]);
        lemma_theme_parent_at(themes.drop_last(), j);
    }
}

/// The parent link of the row a by-id lookup yields: the last row carrying
/// the id.
fn find_parent(themes: &Vec<ThemeRecord>, id: u32) -> (r: Option<u32>)
    requires
        theme_id_exists(themes@, id),
    ensures
        r == theme_parent(themes@, id),
{
    let n = themes.len();
    let mut j: usize = n;
    while j > 0
        invariant
            n == themes@.len(),
            j <= n,
            theme_id_exists(themes@, id),
            forall|l: int| j <= l < n ==> themes@[l].id != id,
        decreases j,
    {
        j = j - 1;
        if themes[j].id == id {
            proof {
                lemma_theme_parent_at(themes@, j as int);
            }
            return themes[j].parent_id;
        }
    }
    proof {
        let w = choose|w: int| 0 <= w < themes@.len() && (#[trigger] themes@[w].id) == id;
        assert(false);
    }
    None
}

/// The error reported when a theme's parent chain never reaches a root.
#[derive(Debug)]
pub struct ThemeCycleError {
    pub theme_id: u32,
}

/// The greatest depth of any theme in the table: 0 for an empty table, 1 for
/// a root, one more for each parent link walked. A parent chain that fails to
/// reach a root within the table's size has revisited a theme; that cycle is
/// reported, naming a theme whose chain never ends.
pub fn get_themes_tree_depth(themes: &Vec<ThemeRecord>) -> (r: Result<u32, ThemeCycleError>)
    requires
        parents_closed(themes@),
        themes@.len() < u32::MAX,
    ensures
        match r {
            Ok(d) => all_chains_ok(themes@) && d == max_depth_upto(themes@, themes@.len() as int),
            Err(e) => exists|i: int|
                0 <= i < themes@.len() && (#[trigger] themes@[i]).id == e.theme_id && !chain_ok(
                    themes@,
                    themes@[i].parent_id,
                    themes@.len() as nat,
                ),
        },
{
    let n = themes.len();
    let mut max: u32 = 0;
    let mut i: usize = 0;
    while i < n
        invariant
            parents_closed(themes@),
            n == themes@.len(),
            n < u32::MAX,
            i <= n,
            max == max_depth_upto(themes@, i as int),
            max <= n + 1,
            forall|k: int|
                0 <= k < i ==> chain_ok(themes@, (#[trigger] themes@[k]).parent_id, n as nat),
        decreases n - i,
    {
        let start = &themes[i];
        let mut hops: usize = 0;
        let mut cur: Option<u32> = start.parent_id;
        proof {
            if cur is Some {
                assert(theme_id_exists(themes@, cur->0)) by {
                    assert(themes@[i as int].parent_id is Some);
                }
            }
        }
        while cur.is_some()
            invariant
                parents_closed(themes@),
                n == themes@.len(),
                n < u32::MAX,
                hops <= n,
                *start == themes@[i as int],
                0 <= i < n,
                cur matches Some(q) ==> theme_id_exists(themes@, q),
                forall|f: nat|
                    chain_ok(themes@, start.parent_id, (hops + f) as nat) == #[trigger] chain_ok(
                        themes@,
                        cur,
                        f,
                    ),
                forall|f: nat|
                    #[trigger] chain_ok(themes@, cur, f) ==> chain_len(
                        themes@,
                        start.parent_id,
                        (hops + f) as nat,
                    ) == hops + chain_len(themes@, cur, f),
            decreases n - hops,
        {
            if hops >= n {
                proof {
                    assert(chain_ok(themes@, cur, 0nat) == false);
                    assert(chain_ok(themes@, start.parent_id, (hops + 0) as nat) == false);
                    assert(!chain_ok(themes@, themes@[i as int].parent_id, n as nat));
                }
                return Err(ThemeCycleError { theme_id: start.id });
            }
            let pid = cur.unwrap();
            let ghost old_cur = cur;
            let ghost old_hops = hops;
            cur = find_parent(themes, pid);
            hops = hops + 1;
            proof {
                if cur is Some {
                    let j = lemma_theme_parent_from_row(themes@, pid);
                    assert(theme_id_exists(themes@, cur->0));
                }
                assert forall|f: nat|
                    chain_ok(themes@, start.parent_id, (hops + f) as nat) == #[trigger] chain_ok(
                        themes@,
                        cur,
                        f,
                    ) by {
                    assert(chain_ok(themes@, old_cur, (f + 1) as nat) == chain_ok(
                        themes@,
                        start.parent_id,
                        (old_hops + (f + 1)) as nat,
                    ));
                    assert(chain_ok(themes@, old_cur, (f + 1) as nat) == chain_ok(themes@, cur, f));
                }
                assert forall|f: nat| #[trigger] chain_ok(themes@, cur, f) implies chain_len(
                    themes@,
                    start.parent_id,
                    (hops + f) as nat,
                ) == hops + chain_len(themes@, cur, f) by {
                    assert(chain_ok(themes@, old_cur, (f + 1) as nat) == chain_ok(themes@, cur, f));
                    assert(chain_len(themes@, start.parent_id, (old_hops + (f + 1)) as nat)
                        == old_hops + chain_len(themes@, old_cur, (f + 1) as nat));
                    assert(chain_len(themes@, old_cur, (f + 1) as nat) == 1 + chain_len(
                        themes@,
                        cur,
                        f,
                    ));
                }
            }
        }
        proof {
            let f0: nat = (n - hops) as nat;
            assert(chain_ok(themes@, cur, f0));
            assert(chain_ok(themes@, start.parent_id, (hops + f0) as nat));
            assert(chain_len(themes@, start.parent_id, n as nat) == hops + chain_len(
                themes@,
                cur,
                f0,
            ));
            assert(theme_depth(themes@, themes@[i as int]) == hops + 1);
        }
        let depth = (hops + 1) as u32;
        if depth > max {
            max = depth;
        }
        proof {
            assert(max == max_depth_upto(themes@, i + 1 as int));
        }
        i = i + 1;
    }
    Ok(max)
}

} // verus!
