//! The version-diff analyzer: given one part list per version of a set, the
//! parts common to every version and each version's unique residue. Parts
//! compare by structural equality over all fields.
use vstd::prelude::*;
use crate::model::set_part_views;
use crate::model::SetPart;
use crate::model::SetPartV;

verus! {

broadcast use {vstd::seq_lib::group_seq_lib_default, vstd::seq_lib::group_seq_properties};

/// The lists of values of a list of part lists.
pub open spec fn part_views2(s: Seq<Vec<SetPart>>) -> Seq<Seq<SetPartV>> {
    s.map_values(|v: Vec<SetPart>| set_part_views(v@))
}

/// The value is present in every list of the family.
pub open spec fn in_all(inputs: Seq<Seq<SetPartV>>, x: SetPartV) -> bool {
    forall|i: int| 0 <= i < inputs.len() ==> (#[trigger] inputs[i]).contains(x)
}

/// The parts common to every version: for a nonempty family, the values
/// present in each of its lists; for an empty family, nothing.
pub open spec fn common_parts(inputs: Seq<Seq<SetPartV>>) -> Set<SetPartV> {
    if inputs.len() == 0 {
        Set::empty()
    } else {
        Set::new(|x: SetPartV| in_all(inputs, x))
    }
}

/// A version's unique residue: its parts, in order, without those common to
/// all versions.
pub open spec fn unique_residue(v: Seq<SetPartV>, common: Set<SetPartV>) -> Seq<SetPartV> {
    v.filter(|x: SetPartV| !common.contains(x))
}

/// Appending one part to a list filters it into the residue exactly when it
/// is not common.
pub proof fn lemma_unique_residue_push(v: Seq<SetPartV>, x: SetPartV, c: Set<SetPartV>)
    ensures
        unique_residue(v.push(x), c) == if !c.contains(x) {
            unique_residue(v, c).push(x)
        } else {
            unique_residue(v, c)
        },
{
    reveal_with_fuel(Seq::filter, 3);
    assert(unique_residue(Seq::<SetPartV>::empty(), c) =~= Seq::<SetPartV>::empty());
    assert(seq![x].drop_last() =~= Seq::<SetPartV>::empty());
    assert(seq![x].last() == x);
    assert(unique_residue(seq![x], c) == if !c.contains(x) {
        seq![x]
    } else {
        Seq::<SetPartV>::empty()
    });
    assert(v.push(x) =~= v + seq![x]);
    assert(unique_residue(v + seq![x], c) == unique_residue(v, c) + unique_residue(seq![x], c));
    if !c.contains(x) {
        assert(unique_residue(v, c) + seq![x] =~= unique_residue(v, c).push(x));
    } else {
        assert(unique_residue(v, c) + Seq::<SetPartV>::empty() =~= unique_residue(v, c));
    }
}

/// A list whose every part is common leaves an empty residue.
pub proof fn lemma_unique_residue_all_common(v: Seq<SetPartV>, c: Set<SetPartV>)
    requires
        forall|k: int| 0 <= k < v.len() ==> c.contains(#[trigger] v[k]),
    ensures
        unique_residue(v, c) == Seq::<SetPartV>::empty(),
    decreases v.len(),
{
    if v.len() > 0 {
        lemma_unique_residue_all_common(v.drop_last(), c);
        lemma_unique_residue_push(v.drop_last(), v.last(), c);
        assert(v.drop_last().push(v.last()) =~= v);
    }
}

/// Whether some part of the list holds this value.
fn contains_part(v: &Vec<SetPart>, x: &SetPart) -> (r: bool)
    ensures
        r == set_part_views(v@).contains(x@),
{
    let n = v.len();
    let mut i: usize = 0;
    while i < n
        invariant
            n == v@.len(),
            i <= n,
            forall|j: int| 0 <= j < i ==> (#[trigger] v@[j])@ != x@,
        decreases n - i,
    {
        if v[i] == *x {
            proof {
                assert(set_part_views(v@)[i as int] == x@);
            }
            return true;
        }
        i = i + 1;
    }
    proof {
        if set_part_views(v@).contains(x@) {
            let j = choose|j: int|
                0 <= j < set_part_views(v@).len() && set_part_views(v@)[j] == x@;
            assert(v@[j]@ == x@);
        }
    }
    false
}

/// Whether the value is present in every list after the first.
fn in_all_rest(inputs: &Vec<Vec<SetPart>>, x: &SetPart) -> (r: bool)
    ensures
        r == (forall|i: int|
            1 <= i < inputs@.len() ==> (#[trigger] part_views2(inputs@)[i]).contains(x@)),
{
    let n = inputs.len();
    let mut i: usize = 1;
    while i < n
        invariant
            n == inputs@.len(),
            1 <= i <= n || (n == 0 && i == 1),
            forall|j: int| 1 <= j < i ==> (#[trigger] part_views2(inputs@)[j]).contains(x@),
        decreases n - i,
    {
        if !contains_part(&inputs[i], x) {
            proof {
                assert(part_views2(inputs@)[i as int] == set_part_views(inputs@[i as int]@));
            }
            return false;
        }
        proof {
            assert(part_views2(inputs@)[i as int] == set_part_views(inputs@[i as int]@));
        }
        i = i + 1;
    }
    true
}

/// The multi-way intersection of the versions' part lists: each common value
/// once, in order of first appearance in the first list; empty for an empty
/// family.
pub fn intersection_all(inputs: &Vec<Vec<SetPart>>) -> (r: Vec<SetPart>)
    ensures
        set_part_views(r@).no_duplicates(),
        forall|x: SetPartV|
            #![trigger common_parts(part_views2(inputs@)).contains(x)]
            #![trigger set_part_views(r@).contains(x)]
            common_parts(part_views2(inputs@)).contains(x) <==> set_part_views(r@).contains(x),
{
    let mut r: Vec<SetPart> = Vec::new();
    if inputs.len() == 0 {
        proof {
            assert(set_part_views(r@) =~= Seq::<SetPartV>::empty());
        }
        return r;
    }
    let first = &inputs[0];
    let n = first.len();
    let mut j: usize = 0;
    while j < n
        invariant
            inputs@.len() > 0,
            first@ == inputs@[0]@,
            n == first@.len(),
            j <= n,
            set_part_views(r@).no_duplicates(),
            forall|x: SetPartV|
                #![trigger set_part_views(r@).contains(x)]
                set_part_views(r@).contains(x) <==> (set_part_views(first@).take(j as int).contains(
                    x,
                ) && in_all(part_views2(inputs@), x)),
        decreases n - j,
    {
        let cand = &first[j];
        let is_new = !contains_part(&r, cand);
        let everywhere = in_all_rest(inputs, cand);
        let ghost rpre = r@;
        proof {
            assert(set_part_views(first@).take(j + 1 as int) =~= set_part_views(first@).take(
                j as int,
            ).push(first@[j as int]@));
            if everywhere {
                assert(in_all(part_views2(inputs@), cand@)) by {
                    assert forall|i: int|
                        0 <= i < part_views2(inputs@).len() implies (#[trigger] part_views2(
                        inputs@,
                    )[i]).contains(cand@) by {
                        if i == 0 {
                            assert(part_views2(inputs@)[0] == set_part_views(inputs@[0]@));
                            assert(set_part_views(first@)[j as int] == cand@);
                        }
                    }
                }
            }
        }
        if is_new && everywhere {
            r.push(cand.duplicate());
            proof {
                assert(set_part_views(r@) =~= set_part_views(rpre).push(cand@));
                assert forall|x: SetPartV|
                    #![trigger set_part_views(r@).contains(x)]
                    set_part_views(r@).contains(x) <==> (set_part_views(first@).take(
                    j + 1 as int,
                ).contains(x) && in_all(part_views2(inputs@), x)) by {}
            }
        } else {
            proof {
                assert forall|x: SetPartV|
                    #![trigger set_part_views(r@).contains(x)]
                    set_part_views(r@).contains(x) <==> (set_part_views(first@).take(
                    j + 1 as int,
                ).contains(x) && in_all(part_views2(inputs@), x)) by {
                    if x == cand@ {
                        if !everywhere {
                            assert(!in_all(part_views2(inputs@), x)) by {
                                let w = choose|i: int|
                                    1 <= i < inputs@.len() && !(#[trigger] part_views2(
                                        inputs@,
                                    )[i]).contains(cand@);
                                assert(0 <= w < part_views2(inputs@).len());
                            }
                        }
                    }
                }
            }
        }
        j = j + 1;
    }
    proof {
        assert(set_part_views(first@).take(n as int) =~= set_part_views(first@));
        assert forall|x: SetPartV|
            #![trigger common_parts(part_views2(inputs@)).contains(x)]
            #![trigger set_part_views(r@).contains(x)]
            common_parts(part_views2(inputs@)).contains(x) <==> set_part_views(r@).contains(
            x,
        ) by {
            if in_all(part_views2(inputs@), x) {
                assert(part_views2(inputs@)[0].contains(x));
                assert(set_part_views(inputs@[0]@).contains(x));
            }
        }
    }
    r
}

/// One version's parts without the given intersection, keeping order and
/// multiplicity.
pub fn unique_parts(input: &Vec<SetPart>, intersection: &Vec<SetPart>) -> (r: Vec<SetPart>)
    ensures
        set_part_views(r@) == unique_residue(
            set_part_views(input@),
            set_part_views(intersection@).to_set(),
        ),
{
    let ghost iset = set_part_views(intersection@).to_set();
    let mut r: Vec<SetPart> = Vec::new();
    let n = input.len();
    let mut i: usize = 0;
    proof {
        assert(set_part_views(input@).take(0int) =~= Seq::<SetPartV>::empty());
        assert(unique_residue(Seq::<SetPartV>::empty(), iset) =~= Seq::<SetPartV>::empty()) by {
            reveal_with_fuel(Seq::filter, 2);
        }
        assert(set_part_views(r@) =~= Seq::<SetPartV>::empty());
    }
    while i < n
        invariant
            n == input@.len(),
            i <= n,
            iset == set_part_views(intersection@).to_set(),
            set_part_views(r@) == unique_residue(set_part_views(input@).take(i as int), iset),
        decreases n - i,
    {
        let p = &input[i];
        let keep = !contains_part(intersection, p);
        let ghost rpre = r@;
        if keep {
            r.push(p.duplicate());
        }
        proof {
            assert(set_part_views(input@).take(i + 1 as int) =~= set_part_views(input@).take(
                i as int,
            ).push(input@[i as int]@));
            lemma_unique_residue_push(set_part_views(input@).take(i as int), input@[i as int]@, iset);
            assert(iset.contains(p@) == set_part_views(intersection@).contains(p@));
            if keep {
                assert(set_part_views(r@) =~= set_part_views(rpre).push(p@));
            }
        }
        i = i + 1;
    }
    proof {
        assert(set_part_views(input@).take(n as int) =~= set_part_views(input@));
    }
    r
}

/// The full version diff: one residue list per version, in version order,
/// followed by the intersection common to all versions.
pub fn process(inputs: Vec<Vec<SetPart>>) -> (r: Vec<Vec<SetPart>>)
    ensures
        r@.len() == inputs@.len() + 1,
        forall|i: int|
            0 <= i < inputs@.len() ==> set_part_views((#[trigger] r@[i])@) == unique_residue(
                part_views2(inputs@)[i],
                common_parts(part_views2(inputs@)),
            ),
        set_part_views(r@[inputs@.len() as int]@).no_duplicates(),
        forall|x: SetPartV|
            #![trigger common_parts(part_views2(inputs@)).contains(x)]
            common_parts(part_views2(inputs@)).contains(x) <==> set_part_views(
                r@[inputs@.len() as int]@,
            ).contains(x),
{
    let intersection = intersection_all(&inputs);
    proof {
        assert(set_part_views(intersection@).to_set() =~= common_parts(part_views2(inputs@)));
    }
    let mut r: Vec<Vec<SetPart>> = Vec::new();
    let n = inputs.len();
    let mut i: usize = 0;
    while i < n
        invariant
            n == inputs@.len(),
            i <= n,
            set_part_views(intersection@).to_set() == common_parts(part_views2(inputs@)),
            r@.len() == i,
            forall|j: int|
                0 <= j < i ==> set_part_views((#[trigger] r@[j])@) == unique_residue(
                    part_views2(inputs@)[j],
                    common_parts(part_views2(inputs@)),
                ),
            set_part_views(intersection@).no_duplicates(),
            forall|x: SetPartV|
                #![trigger common_parts(part_views2(inputs@)).contains(x)]
                common_parts(part_views2(inputs@)).contains(x) <==> set_part_views(
                    intersection@,
                ).contains(x),
        decreases n - i,
    {
        let u = unique_parts(&inputs[i], &intersection);
        proof {
            assert(part_views2(inputs@)[i as int] == set_part_views(inputs@[i as int]@));
        }
        r.push(u);
        i = i + 1;
    }
    r.push(intersection);
    r
}

/// Law: an empty family has an empty intersection.
pub proof fn lemma_diff_no_versions()
    ensures
        common_parts(Seq::<Seq<SetPartV>>::empty()) == Set::<SetPartV>::empty(),
{
}

/// Law: for a family of one version, every one of that version's parts is
/// common and its residue is empty.
pub proof fn lemma_diff_single_version(inputs: Seq<Seq<SetPartV>>, a: Seq<SetPartV>)
    requires
        inputs.len() == 1,
        inputs[0] == a,
    ensures
        forall|x: SetPartV| #[trigger] common_parts(inputs).contains(x) <==> a.contains(x),
        unique_residue(a, common_parts(inputs)) == Seq::<SetPartV>::empty(),
{
    assert forall|x: SetPartV| #[trigger] common_parts(inputs).contains(x) <==> a.contains(x) by {
        if a.contains(x) {
            assert forall|i: int| 0 <= i < inputs.len() implies (#[trigger] inputs[i]).contains(
                x,
            ) by {
                assert(inputs[i] == a);
            }
        }
    }
    lemma_unique_residue_all_common(a, common_parts(inputs));
}

/// Law: for a family of two identical versions, all their parts are common
/// and both residues are empty.
pub proof fn lemma_diff_identical_versions(inputs: Seq<Seq<SetPartV>>, a: Seq<SetPartV>)
    requires
        inputs.len() == 2,
        inputs[0] == a,
        inputs[1] == a,
    ensures
        forall|x: SetPartV| #[trigger] common_parts(inputs).contains(x) <==> a.contains(x),
        unique_residue(a, common_parts(inputs)) == Seq::<SetPartV>::empty(),
{
    assert forall|x: SetPartV| #[trigger] common_parts(inputs).contains(x) <==> a.contains(x) by {
        if a.contains(x) {
            assert forall|i: int| 0 <= i < inputs.len() implies (#[trigger] inputs[i]).contains(
                x,
            ) by {
                assert(inputs[i] == a);
            }
        }
    }
    lemma_unique_residue_all_common(a, common_parts(inputs));
}

} // verus!
