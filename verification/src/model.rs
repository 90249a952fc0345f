//! The normalization engine and its domain model: sets with their ordered
//! versions, each version carrying the minifigs and parts of one inventory
//! snapshot, with dangling part references dropped and reported.
use vstd::prelude::*;
use crate::classify::is_accessories;
use crate::classify::is_pack;
use crate::classify::is_unreleased;
use crate::classify::spec_is_accessories;
use crate::classify::spec_is_pack;
use crate::classify::spec_is_unreleased;
use crate::indices::invs_for;
use crate::indices::lemma_invs_for_absent;
use crate::indices::minifig_rows_for;
use crate::indices::part_exists;
use crate::indices::part_rows_for;
use crate::indices::InvRef;
use crate::indices::InventoryMinifigIndex;
use crate::indices::InventoryPartIndex;
use crate::indices::PartNumberSet;
use crate::indices::SetInventoryIndex;
use crate::strutil::str_eq;
use crate::tables::Data as TableData;
use crate::tables::InventoryMinifigRecord;
use crate::tables::InventoryPartRecord;
use crate::tables::InventoryRecord;
use crate::tables::MinifigRecord;
use crate::tables::PartRecord;
use crate::tables::SetRecord;
use crate::urls::convert_asset_url;
use crate::urls::rewrite_url;
use crate::urls::url_ok;

verus! {

broadcast use vstd::seq_lib::group_seq_lib_default;

/// The view of an optional URL: the characters, when one is present.
pub open spec fn url_view(u: Option<String>) -> Option<Seq<char>> {
    match u {
        Some(s) => Some(s@),
        None => None,
    }
}

/// A minifig of the model.
#[derive(Debug)]
pub struct Minifig {
    pub number: String,
    pub name: String,
    pub parts_count: u32,
    pub img_url: Option<String>,
}

/// The mathematical value of a [`Minifig`].
#[verifier::ext_equal]
pub struct MinifigV {
    pub number: Seq<char>,
    pub name: Seq<char>,
    pub parts_count: u32,
    pub img_url: Option<Seq<char>>,
}

impl View for Minifig {
    type V = MinifigV;

    open spec fn view(&self) -> MinifigV {
        MinifigV {
            number: self.number@,
            name: self.name@,
            parts_count: self.parts_count,
            img_url: url_view(self.img_url),
        }
    }
}

/// A part of the model.
#[derive(Debug)]
pub struct Part {
    pub number: String,
    pub name: String,
    pub part_category_id: u32,
    pub material: String,
}

/// The mathematical value of a [`Part`].
#[verifier::ext_equal]
pub struct PartV {
    pub number: Seq<char>,
    pub name: Seq<char>,
    pub part_category_id: u32,
    pub material: Seq<char>,
}

impl View for Part {
    type V = PartV;

    open spec fn view(&self) -> PartV {
        PartV {
            number: self.number@,
            name: self.name@,
            part_category_id: self.part_category_id,
            material: self.material@,
        }
    }
}

/// A minifig belonging to one set version.
#[derive(Debug)]
pub struct SetMinifig {
    pub number: String,
    pub quantity: u16,
}

/// The mathematical value of a [`SetMinifig`].
#[verifier::ext_equal]
pub struct SetMinifigV {
    pub number: Seq<char>,
    pub quantity: u16,
}

impl View for SetMinifig {
    type V = SetMinifigV;

    open spec fn view(&self) -> SetMinifigV {
        SetMinifigV { number: self.number@, quantity: self.quantity }
    }
}

/// A part belonging to one set version. Equality is structural over all
/// fields: the same part number with a different color or spare flag is a
/// distinct contribution. That equality is the comparison key of the
/// version-diff analyzer.
#[derive(Debug)]
pub struct SetPart {
    pub number: String,
    pub color_id: u32,
    pub quantity: u16,
    pub is_spare: bool,
    pub img_url: Option<String>,
}

/// The mathematical value of a [`SetPart`].
#[verifier::ext_equal]
pub struct SetPartV {
    pub number: Seq<char>,
    pub color_id: u32,
    pub quantity: u16,
    pub is_spare: bool,
    pub img_url: Option<Seq<char>>,
}

impl View for SetPart {
    type V = SetPartV;

    open spec fn view(&self) -> SetPartV {
        SetPartV {
            number: self.number@,
            color_id: self.color_id,
            quantity: self.quantity,
            is_spare: self.is_spare,
            img_url: url_view(self.img_url),
        }
    }
}

impl SetPart {
    /// A copy holding the same value.
    pub fn duplicate(&self) -> (r: SetPart)
        ensures
            r@ == self@,
    {
        let img = match &self.img_url {
            Some(u) => Some(u.clone()),
            None => None,
        };
        SetPart {
            number: self.number.clone(),
            color_id: self.color_id,
            quantity: self.quantity,
            is_spare: self.is_spare,
            img_url: img,
        }
    }
}

impl PartialEq for SetPart {
    /// Structural equality over every field.
    fn eq(&self, other: &SetPart) -> (r: bool) {
        let urls_eq = match (&self.img_url, &other.img_url) {
            (Some(a), Some(b)) => str_eq(a.as_str(), b.as_str()),
            (None, None) => true,
            _ => false,
        };
        urls_eq && self.color_id == other.color_id && self.quantity == other.quantity
            && self.is_spare == other.is_spare && str_eq(self.number.as_str(), other.number.as_str())
    }
}

impl vstd::std_specs::cmp::PartialEqSpecImpl for SetPart {
    open spec fn obeys_eq_spec() -> bool {
        true
    }

    open spec fn eq_spec(&self, other: &SetPart) -> bool {
        self@ == other@
    }
}

impl Eq for SetPart {

}

/// One version of a set: the materialization of one inventory snapshot.
#[derive(Debug)]
pub struct SetVersion {
    pub version: u16,
    pub minifigs: Vec<SetMinifig>,
    pub parts: Vec<SetPart>,
}

/// The mathematical value of a [`SetVersion`].
#[verifier::ext_equal]
pub struct SetVersionV {
    pub version: u16,
    pub minifigs: Seq<SetMinifigV>,
    pub parts: Seq<SetPartV>,
}

/// The values of a list of set minifigs.
pub open spec fn set_minifig_views(s: Seq<SetMinifig>) -> Seq<SetMinifigV> {
    s.map_values(|m: SetMinifig| m@)
}

/// The values of a list of set parts.
pub open spec fn set_part_views(s: Seq<SetPart>) -> Seq<SetPartV> {
    s.map_values(|p: SetPart| p@)
}

impl View for SetVersion {
    type V = SetVersionV;

    open spec fn view(&self) -> SetVersionV {
        SetVersionV {
            version: self.version,
            minifigs: set_minifig_views(self.minifigs@),
            parts: set_part_views(self.parts@),
        }
    }
}

/// A set of the model, carrying its versions in source inventory order.
#[derive(Debug)]
pub struct BrickSet {
    pub number: String,
    pub name: String,
    pub year: u16,
    pub theme_id: u32,
    pub parts_count: u32,
    pub img_url: Option<String>,
    pub is_pack: bool,
    pub is_unreleased: bool,
    pub is_accessories: bool,
    pub versions: Vec<SetVersion>,
}

/// The mathematical value of a [`BrickSet`].
#[verifier::ext_equal]
pub struct BrickSetV {
    pub number: Seq<char>,
    pub name: Seq<char>,
    pub year: u16,
    pub theme_id: u32,
    pub parts_count: u32,
    pub img_url: Option<Seq<char>>,
    pub is_pack: bool,
    pub is_unreleased: bool,
    pub is_accessories: bool,
    pub versions: Seq<SetVersionV>,
}

/// The values of a list of set versions.
pub open spec fn version_views(s: Seq<SetVersion>) -> Seq<SetVersionV> {
    s.map_values(|v: SetVersion| v@)
}

impl View for BrickSet {
    type V = BrickSetV;

    open spec fn view(&self) -> BrickSetV {
        BrickSetV {
            number: self.number@,
            name: self.name@,
            year: self.year,
            theme_id: self.theme_id,
            parts_count: self.parts_count,
            img_url: url_view(self.img_url),
            is_pack: self.is_pack,
            is_unreleased: self.is_unreleased,
            is_accessories: self.is_accessories,
            versions: version_views(self.versions@),
        }
    }
}

impl BrickSet {
    /// The minifigs of the newest materialized version.
    pub fn minifigs(&self) -> (r: &Vec<SetMinifig>)
        requires
            self.versions@.len() > 0,
        ensures
            set_minifig_views(r@) == self@.versions.last().minifigs,
    {
        let n = self.versions.len();
        let last = &self.versions[n - 1];
        &last.minifigs
    }

    /// The parts of the newest materialized version.
    pub fn parts(&self) -> (r: &Vec<SetPart>)
        requires
            self.versions@.len() > 0,
        ensures
            set_part_views(r@) == self@.versions.last().parts,
    {
        let n = self.versions.len();
        let last = &self.versions[n - 1];
        &last.parts
    }
}

/// The whole domain model of one run.
#[derive(Debug)]
pub struct Data {
    pub minifigs: Vec<Minifig>,
    pub parts: Vec<Part>,
    pub sets: Vec<BrickSet>,
}

/// The mathematical value of the whole model.
#[verifier::ext_equal]
pub struct DataV {
    pub minifigs: Seq<MinifigV>,
    pub parts: Seq<PartV>,
    pub sets: Seq<BrickSetV>,
}

/// The values of a list of model minifigs.
pub open spec fn minifig_model_views(s: Seq<Minifig>) -> Seq<MinifigV> {
    s.map_values(|m: Minifig| m@)
}

/// The values of a list of model parts.
pub open spec fn part_model_views(s: Seq<Part>) -> Seq<PartV> {
    s.map_values(|p: Part| p@)
}

/// The values of a list of model sets.
pub open spec fn brick_set_views(s: Seq<BrickSet>) -> Seq<BrickSetV> {
    s.map_values(|b: BrickSet| b@)
}

impl View for Data {
    type V = DataV;

    open spec fn view(&self) -> DataV {
        DataV {
            minifigs: minifig_model_views(self.minifigs@),
            parts: part_model_views(self.parts@),
            sets: brick_set_views(self.sets@),
        }
    }
}

/// One data-quality report: an inventory-part row whose part number has no
/// row in the part table, dropped from the named set version.
#[derive(Debug)]
pub struct Diagnostic {
    pub version: u16,
    pub part_number: String,
}

/// The mathematical value of a [`Diagnostic`].
#[verifier::ext_equal]
pub struct DiagnosticV {
    pub version: u16,
    pub part_number: Seq<char>,
}

impl View for Diagnostic {
    type V = DiagnosticV;

    open spec fn view(&self) -> DiagnosticV {
        DiagnosticV { version: self.version, part_number: self.part_number@ }
    }
}

/// The values of a list of diagnostics.
pub open spec fn diag_views(s: Seq<Diagnostic>) -> Seq<DiagnosticV> {
    s.map_values(|d: Diagnostic| d@)
}

/// The error that aborts a run: a required field coercion fails because an
/// inventory-part row carries a negative color id.
#[derive(Debug)]
pub struct ConvertError {
    pub part_number: String,
    pub color_id: i32,
}

/// What a part row becomes in the model.
pub open spec fn spec_part(p: PartRecord) -> PartV {
    PartV {
        number: p.part_num@,
        name: p.name@,
        part_category_id: p.part_cat_id,
        material: p.part_material@,
    }
}

/// What a minifig row becomes in the model.
pub open spec fn spec_minifig(m: MinifigRecord) -> MinifigV {
    MinifigV {
        number: m.fig_num@,
        name: m.name@,
        parts_count: m.num_parts,
        img_url: rewrite_url(m.img_url@),
    }
}

/// What an inventory-minifig row becomes inside a set version.
pub open spec fn spec_minifig_entry(r: InventoryMinifigRecord) -> SetMinifigV {
    SetMinifigV { number: r.fig_num@, quantity: r.quantity }
}

/// What an inventory-part row becomes inside a set version.
pub open spec fn spec_part_entry(r: InventoryPartRecord) -> SetPartV {
    SetPartV {
        number: r.part_num@,
        color_id: r.color_id as u32,
        quantity: r.quantity,
        is_spare: r.is_spare@ == "True"@,
        img_url: rewrite_url(r.img_url@),
    }
}

/// A version's minifig list: every row of the inventory, in row order.
pub open spec fn version_minifigs(rows: Seq<InventoryMinifigRecord>) -> Seq<SetMinifigV> {
    rows.map_values(|r: InventoryMinifigRecord| spec_minifig_entry(r))
}

/// A version's part list: exactly the rows whose part number exists in the
/// part table, in row order.
pub open spec fn version_parts(rows: Seq<InventoryPartRecord>, parts: Seq<PartRecord>) -> Seq<
    SetPartV,
>
    decreases rows.len(),
{
    if rows.len() == 0 {
        Seq::empty()
    } else {
        let rest = version_parts(rows.drop_last(), parts);
        if part_exists(parts, rows.last().part_num@) {
            rest.push(spec_part_entry(rows.last()))
        } else {
            rest
        }
    }
}

/// A version's diagnostics: one per dropped row, in row order.
pub open spec fn version_diags(
    ver: u16,
    rows: Seq<InventoryPartRecord>,
    parts: Seq<PartRecord>,
) -> Seq<DiagnosticV>
    decreases rows.len(),
{
    if rows.len() == 0 {
        Seq::empty()
    } else {
        let rest = version_diags(ver, rows.drop_last(), parts);
        if part_exists(parts, rows.last().part_num@) {
            rest
        } else {
            rest.push(DiagnosticV { version: ver, part_number: rows.last().part_num@ })
        }
    }
}

/// What one inventory reference becomes: a full set version.
pub open spec fn spec_version(
    ir: InvRef,
    mrows: Seq<InventoryMinifigRecord>,
    prows: Seq<InventoryPartRecord>,
    parts: Seq<PartRecord>,
) -> SetVersionV {
    SetVersionV {
        version: ir.version,
        minifigs: version_minifigs(minifig_rows_for(mrows, ir.id)),
        parts: version_parts(part_rows_for(prows, ir.id), parts),
    }
}

/// What a set row becomes: its fields, its classifications, and one version
/// per inventory of its set number, in source inventory order.
pub open spec fn spec_brick_set(
    s: SetRecord,
    invs: Seq<InventoryRecord>,
    mrows: Seq<InventoryMinifigRecord>,
    prows: Seq<InventoryPartRecord>,
    parts: Seq<PartRecord>,
) -> BrickSetV {
    BrickSetV {
        number: s.set_num@,
        name: s.name@,
        year: s.year,
        theme_id: s.theme_id,
        parts_count: s.num_parts,
        img_url: rewrite_url(s.img_url@),
        is_pack: spec_is_pack(s.set_num@),
        is_unreleased: spec_is_unreleased(s.set_num@),
        is_accessories: spec_is_accessories(s.set_num@),
        versions: invs_for(invs, s.set_num@).map_values(
            |ir: InvRef| spec_version(ir, mrows, prows, parts),
        ),
    }
}

/// What the whole table snapshot becomes: the domain model.
pub open spec fn spec_model(csv: TableData) -> DataV {
    DataV {
        minifigs: csv.minifigs@.map_values(|m: MinifigRecord| spec_minifig(m)),
        parts: csv.parts@.map_values(|p: PartRecord| spec_part(p)),
        sets: csv.sets@.map_values(
            |s: SetRecord|
                spec_brick_set(
                    s,
                    csv.inventories@,
                    csv.inventories_minifigs@,
                    csv.inventories_parts@,
                    csv.parts@,
                ),
        ),
    }
}

/// The diagnostics of one set's versions, in version order.
pub open spec fn diags_of_versions(
    vers: Seq<InvRef>,
    prows: Seq<InventoryPartRecord>,
    parts: Seq<PartRecord>,
) -> Seq<DiagnosticV>
    decreases vers.len(),
{
    if vers.len() == 0 {
        Seq::empty()
    } else {
        diags_of_versions(vers.drop_last(), prows, parts) + version_diags(
            vers.last().version,
            part_rows_for(prows, vers.last().id),
            parts,
        )
    }
}

/// The diagnostics of a list of sets, in set order.
pub open spec fn diags_of_sets(
    sets: Seq<SetRecord>,
    invs: Seq<InventoryRecord>,
    prows: Seq<InventoryPartRecord>,
    parts: Seq<PartRecord>,
) -> Seq<DiagnosticV>
    decreases sets.len(),
{
    if sets.len() == 0 {
        Seq::empty()
    } else {
        diags_of_sets(sets.drop_last(), invs, prows, parts) + diags_of_versions(
            invs_for(invs, sets.last().set_num@),
            prows,
            parts,
        )
    }
}

/// Every diagnostic of one whole run, in processing order.
pub open spec fn spec_diagnostics(csv: TableData) -> Seq<DiagnosticV> {
    diags_of_sets(csv.sets@, csv.inventories@, csv.inventories_parts@, csv.parts@)
}

/// The rows of a version whose part exists all carry a non-negative color.
pub open spec fn rows_colors_ok(rows: Seq<InventoryPartRecord>, parts: Seq<PartRecord>) -> bool {
    forall|k: int|
        0 <= k < rows.len() && part_exists(parts, (#[trigger] rows[k]).part_num@) ==> rows[k].color_id
            >= 0
}

/// The rows of a version whose part exists all carry a well-formed URL.
pub open spec fn rows_urls_ok(rows: Seq<InventoryPartRecord>, parts: Seq<PartRecord>) -> bool {
    forall|k: int|
        0 <= k < rows.len() && part_exists(parts, (#[trigger] rows[k]).part_num@) ==> url_ok(
            rows[k].img_url@,
        )
}

/// The inventory references of the set at a position of the set table.
pub open spec fn set_inv_refs(csv: TableData, si: int) -> Seq<InvRef> {
    invs_for(csv.inventories@, csv.sets@[si].set_num@)
}

/// The inventory-part rows of one version of one set.
pub open spec fn version_rows(csv: TableData, si: int, vi: int) -> Seq<InventoryPartRecord> {
    part_rows_for(csv.inventories_parts@, set_inv_refs(csv, si)[vi].id)
}

/// Every URL the conversion touches is well formed: on minifig rows, on set
/// rows, and on the inventory-part rows of every materialized version whose
/// part exists.
pub open spec fn convert_urls_ok(csv: TableData) -> bool {
    &&& forall|i: int|
        0 <= i < csv.minifigs@.len() ==> url_ok((#[trigger] csv.minifigs@[i]).img_url@)
    &&& forall|i: int| 0 <= i < csv.sets@.len() ==> url_ok((#[trigger] csv.sets@[i]).img_url@)
    &&& forall|si: int, vi: int|
        0 <= si < csv.sets@.len() && 0 <= vi < set_inv_refs(csv, si).len() ==> rows_urls_ok(
            #[trigger] version_rows(csv, si, vi),
            csv.parts@,
        )
}

/// No materialized row needs an impossible color coercion.
pub open spec fn convert_colors_ok(csv: TableData) -> bool {
    forall|si: int, vi: int|
        0 <= si < csv.sets@.len() && 0 <= vi < set_inv_refs(csv, si).len() ==> rows_colors_ok(
            #[trigger] version_rows(csv, si, vi),
            csv.parts@,
        )
}

/// A part row becomes a model part by field renames alone.
pub fn part_csv_to_model(part: PartRecord) -> (r: Part)
    ensures
        r@ == spec_part(part),
{
    Part {
        number: part.part_num,
        name: part.name,
        part_category_id: part.part_cat_id,
        material: part.part_material,
    }
}

/// A minifig row becomes a model minifig: field renames plus the URL rewrite.
pub fn minifig_csv_to_model(minifig: MinifigRecord) -> (r: Minifig)
    requires
        url_ok(minifig.img_url@),
    ensures
        r@ == spec_minifig(minifig),
{
    let img = convert_asset_url(minifig.img_url.as_str());
    Minifig {
        number: minifig.fig_num,
        name: minifig.name,
        parts_count: minifig.num_parts,
        img_url: img,
    }
}

/// A set row becomes a model set with no versions yet, carrying the given
/// classifications.
pub fn set_csv_to_model(
    set: SetRecord,
    is_pack: bool,
    is_unreleased: bool,
    is_accessories: bool,
) -> (r: BrickSet)
    requires
        url_ok(set.img_url@),
    ensures
        r@ == (BrickSetV {
            number: set.set_num@,
            name: set.name@,
            year: set.year,
            theme_id: set.theme_id,
            parts_count: set.num_parts,
            img_url: rewrite_url(set.img_url@),
            is_pack: is_pack,
            is_unreleased: is_unreleased,
            is_accessories: is_accessories,
            versions: Seq::empty(),
        }),
{
    let img = convert_asset_url(set.img_url.as_str());
    let r = BrickSet {
        number: set.set_num,
        name: set.name,
        year: set.year,
        theme_id: set.theme_id,
        parts_count: set.num_parts,
        img_url: img,
        is_pack,
        is_unreleased,
        is_accessories,
        versions: Vec::new(),
    };
    proof {
        assert(version_views(r.versions@) =~= Seq::<SetVersionV>::empty());
    }
    r
}

/// The returned error names an offending row of this list: a row whose part
/// exists and whose color id is negative.
pub open spec fn names_bad_row(
    rows: Seq<InventoryPartRecord>,
    parts: Seq<PartRecord>,
    e: ConvertError,
) -> bool {
    exists|k: int|
        0 <= k < rows.len() && part_exists(parts, (#[trigger] rows[k]).part_num@) && rows[k].color_id
            < 0 && e.part_number@ == rows[k].part_num@ && e.color_id == rows[k].color_id
}

/// Materializes one inventory as a set version: every minifig row of the
/// inventory, and every part row whose part number exists; a dropped part
/// row appends one diagnostic. Fails exactly when a kept row carries a
/// negative color id.
pub fn get_set_version(
    inv_ref: InvRef,
    minifig_inventories: &InventoryMinifigIndex,
    part_inventories: &InventoryPartIndex,
    all_parts_keys: &PartNumberSet,
    diags: &mut Vec<Diagnostic>,
) -> (r: Result<SetVersion, ConvertError>)
    requires
        minifig_inventories.wf(),
        part_inventories.wf(),
        all_parts_keys.wf(),
        rows_urls_ok(part_rows_for(part_inventories.src(), inv_ref.id), all_parts_keys.src()),
    ensures
        match r {
            Ok(v) => {
                &&& rows_colors_ok(
                    part_rows_for(part_inventories.src(), inv_ref.id),
                    all_parts_keys.src(),
                )
                &&& v@ == spec_version(
                    inv_ref,
                    minifig_inventories.src(),
                    part_inventories.src(),
                    all_parts_keys.src(),
                )
                &&& diag_views(final(diags)@) == diag_views(old(diags)@) + version_diags(
                    inv_ref.version,
                    part_rows_for(part_inventories.src(), inv_ref.id),
                    all_parts_keys.src(),
                )
            },
            Err(e) => {
                &&& !rows_colors_ok(
                    part_rows_for(part_inventories.src(), inv_ref.id),
                    all_parts_keys.src(),
                )
                &&& names_bad_row(
                    part_rows_for(part_inventories.src(), inv_ref.id),
                    all_parts_keys.src(),
                    e,
                )
            },
        },
{
    let ghost parts_tab = all_parts_keys.src();
    let ghost mrows = minifig_rows_for(minifig_inventories.src(), inv_ref.id);
    let ghost prows = part_rows_for(part_inventories.src(), inv_ref.id);
    let mut version = SetVersion { version: inv_ref.version, minifigs: Vec::new(), parts: Vec::new() };
    match minifig_inventories.get(inv_ref.id) {
        Some(rows) => {
            let n = rows.len();
            let mut i: usize = 0;
            while i < n
                invariant
                    rows@ == mrows,
                    n == rows@.len(),
                    i <= n,
                    version.version == inv_ref.version,
                    version.parts@.len() == 0,
                    set_minifig_views(version.minifigs@) == version_minifigs(mrows.take(i as int)),
                decreases n - i,
            {
                let m = &rows[i];
                version.minifigs.push(SetMinifig { number: m.fig_num.clone(), quantity: m.quantity });
                proof {
                    assert(mrows.take(i + 1 as int) =~= mrows.take(i as int).push(mrows[i as int]));
                    assert(version.minifigs@.last()@ == spec_minifig_entry(mrows[i as int]));
                    assert(version_minifigs(mrows.take(i + 1 as int)) =~= version_minifigs(
                        mrows.take(i as int),
                    ).push(spec_minifig_entry(mrows[i as int])));
                    assert(set_minifig_views(version.minifigs@) =~= set_minifig_views(
                        version.minifigs@.drop_last(),
                    ).push(version.minifigs@.last()@));
                    assert(set_minifig_views(version.minifigs@) =~= version_minifigs(
                        mrows.take(i + 1 as int),
                    ));
                }
                i = i + 1;
            }
            proof {
                assert(mrows.take(n as int) =~= mrows);
            }
        }
        None => {
            proof {
                assert(set_minifig_views(version.minifigs@) =~= version_minifigs(mrows));
            }
        }
    }
    match part_inventories.get(inv_ref.id) {
        Some(rows) => {
            let n = rows.len();
            let mut i: usize = 0;
            while i < n
                invariant
                    all_parts_keys.wf(),
                    parts_tab == all_parts_keys.src(),
                    prows == part_rows_for(part_inventories.src(), inv_ref.id),
                    rows@ == prows,
                    rows_urls_ok(prows, parts_tab),
                    n == rows@.len(),
                    i <= n,
                    version.version == inv_ref.version,
                    set_minifig_views(version.minifigs@) == version_minifigs(mrows),
                    set_part_views(version.parts@) == version_parts(prows.take(i as int), parts_tab),
                    diag_views(diags@) == diag_views(old(diags)@) + version_diags(
                        inv_ref.version,
                        prows.take(i as int),
                        parts_tab,
                    ),
                    rows_colors_ok(prows.take(i as int), parts_tab),
                decreases n - i,
            {
                proof {
                    assert(prows.take(i + 1 as int).drop_last() =~= prows.take(i as int));
                    assert(prows.take(i + 1 as int).last() == prows[i as int]);
                }
                let p = &rows[i];
                if all_parts_keys.contains(p.part_num.as_str()) {
                    if p.color_id < 0 {
                        let e = ConvertError { part_number: p.part_num.clone(), color_id: p.color_id };
                        proof {
                            assert(names_bad_row(prows, parts_tab, e)) by {
                                assert(part_exists(parts_tab, prows[i as int].part_num@));
                            }
                            assert(!rows_colors_ok(prows, parts_tab)) by {
                                if rows_colors_ok(prows, parts_tab) {
                                    assert(prows[i as int].color_id >= 0);
                                }
                            }
                        }
                        return Err(e);
                    }
                    proof {
                        assert(url_ok(prows[i as int].img_url@));
                    }
                    let img = convert_asset_url(p.img_url.as_str());
                    let sp = SetPart {
                        number: p.part_num.clone(),
                        color_id: p.color_id as u32,
                        quantity: p.quantity,
                        is_spare: str_eq(p.is_spare.as_str(), "True"),
                        img_url: img,
                    };
                    proof {
                        assert(sp@ == spec_part_entry(prows[i as int]));
                    }
                    version.parts.push(sp);
                    proof {
                        assert(set_part_views(version.parts@) =~= version_parts(
                            prows.take(i + 1 as int),
                            parts_tab,
                        ));
                        assert(version_diags(inv_ref.version, prows.take(i + 1 as int), parts_tab)
                            == version_diags(inv_ref.version, prows.take(i as int), parts_tab));
                    }
                } else {
                    let ghost dpre = diags@;
                    diags.push(Diagnostic { version: inv_ref.version, part_number: p.part_num.clone() });
                    proof {
                        let ghost dv = (DiagnosticV {
                            version: inv_ref.version,
                            part_number: prows[i as int].part_num@,
                        });
                        assert(diags@.last()@ == dv);
                        assert(diag_views(diags@) =~= diag_views(dpre).push(dv));
                        assert(version_diags(inv_ref.version, prows.take(i + 1 as int), parts_tab)
                            =~= version_diags(inv_ref.version, prows.take(i as int), parts_tab).push(
                            dv,
                        ));
                        assert(diag_views(diags@) =~= diag_views(old(diags)@) + version_diags(
                            inv_ref.version,
                            prows.take(i + 1 as int),
                            parts_tab,
                        ));
                        assert(version_parts(prows.take(i + 1 as int), parts_tab) == version_parts(
                            prows.take(i as int),
                            parts_tab,
                        ));
                    }
                }
                i = i + 1;
            }
            proof {
                assert(prows.take(n as int) =~= prows);
            }
        }
        None => {
            proof {
                assert(set_part_views(version.parts@) =~= version_parts(prows, parts_tab));
                assert(diag_views(diags@) =~= diag_views(old(diags)@) + version_diags(
                    inv_ref.version,
                    prows,
                    parts_tab,
                ));
            }
        }
    }
    Ok(version)
}

/// Builds the whole domain model from the table snapshot: parts and minifigs
/// by direct renames and URL rewrites, then one set per set row carrying one
/// materialized version per inventory of its set number, in source order.
/// The returned diagnostics name every dropped part row, in processing
/// order. Fails exactly when some materialized row needs an impossible color
/// coercion; no partial model is returned then.
pub fn convert(csv_data: TableData) -> (r: Result<(Data, Vec<Diagnostic>), ConvertError>)
    requires
        convert_urls_ok(csv_data),
    ensures
        match r {
            Ok(p) => {
                &&& convert_colors_ok(csv_data)
                &&& p.0@ == spec_model(csv_data)
                &&& diag_views(p.1@) == spec_diagnostics(csv_data)
            },
            Err(e) => !convert_colors_ok(csv_data),
        },
{
    let ghost g = csv_data;
    let TableData {
        colors: _colors,
        inventories,
        inventories_minifigs,
        inventories_parts,
        minifigs,
        parts,
        sets,
        themes: _themes,
    } = csv_data;
    let all_parts_keys = PartNumberSet::build(&parts);

    let mut parts_rem = parts;
    let total_parts = parts_rem.len();
    let mut model_parts: Vec<Part> = Vec::new();
    let mut k: usize = 0;
    while k < total_parts
        invariant
            total_parts == g.parts@.len(),
            k <= total_parts,
            parts_rem@ =~= g.parts@.skip(k as int),
            model_parts@.len() == k,
            forall|j: int| 0 <= j < k ==> (#[trigger] model_parts@[j])@ == spec_part(g.parts@[j]),
        decreases total_parts - k,
    {
        proof {
            assert(parts_rem@[0] == g.parts@[k as int]);
        }
        let p = parts_rem.remove(0);
        model_parts.push(part_csv_to_model(p));
        proof {
            assert(parts_rem@ =~= g.parts@.skip(k + 1 as int));
        }
        k = k + 1;
    }

    let mut minifigs_rem = minifigs;
    let total_minifigs = minifigs_rem.len();
    let mut model_minifigs: Vec<Minifig> = Vec::new();
    let mut k: usize = 0;
    while k < total_minifigs
        invariant
            convert_urls_ok(g),
            total_minifigs == g.minifigs@.len(),
            k <= total_minifigs,
            minifigs_rem@ =~= g.minifigs@.skip(k as int),
            model_minifigs@.len() == k,
            forall|j: int|
                0 <= j < k ==> (#[trigger] model_minifigs@[j])@ == spec_minifig(g.minifigs@[j]),
        decreases total_minifigs - k,
    {
        proof {
            assert(minifigs_rem@[0] == g.minifigs@[k as int]);
            assert(url_ok(g.minifigs@[k as int].img_url@));
        }
        let m = minifigs_rem.remove(0);
        model_minifigs.push(minifig_csv_to_model(m));
        proof {
            assert(minifigs_rem@ =~= g.minifigs@.skip(k + 1 as int));
        }
        k = k + 1;
    }

    let set_inventories = SetInventoryIndex::build(&inventories);
    let part_inventories = InventoryPartIndex::build(inventories_parts);
    let minifig_inventories = InventoryMinifigIndex::build(inventories_minifigs);

    let mut sets_rem = sets;
    let total_sets = sets_rem.len();
    let mut model_sets: Vec<BrickSet> = Vec::new();
    let mut diags: Vec<Diagnostic> = Vec::new();
    let mut si: usize = 0;
    while si < total_sets
        invariant
            g == csv_data,
            convert_urls_ok(g),
            set_inventories.wf(),
            set_inventories.src() == g.inventories@,
            part_inventories.wf(),
            part_inventories.src() == g.inventories_parts@,
            minifig_inventories.wf(),
            minifig_inventories.src() == g.inventories_minifigs@,
            all_parts_keys.wf(),
            all_parts_keys.src() == g.parts@,
            total_sets == g.sets@.len(),
            si <= total_sets,
            sets_rem@ =~= g.sets@.skip(si as int),
            model_sets@.len() == si,
            forall|j: int|
                0 <= j < si ==> (#[trigger] model_sets@[j])@ == spec_brick_set(
                    g.sets@[j],
                    g.inventories@,
                    g.inventories_minifigs@,
                    g.inventories_parts@,
                    g.parts@,
                ),
            diag_views(diags@) == diags_of_sets(
                g.sets@.take(si as int),
                g.inventories@,
                g.inventories_parts@,
                g.parts@,
            ),
            forall|a: int, b: int|
                0 <= a < si && 0 <= b < set_inv_refs(g, a).len() ==> rows_colors_ok(
                    #[trigger] version_rows(g, a, b),
                    g.parts@,
                ),
        decreases total_sets - si,
    {
        proof {
            assert(sets_rem@[0] == g.sets@[si as int]);
            assert(url_ok(g.sets@[si as int].img_url@));
        }
        let s = sets_rem.remove(0);
        let invrefs = set_inventories.lookup(s.set_num.as_str());
        proof {
            assert(invrefs@ == set_inv_refs(g, si as int));
        }
        let pack = is_pack(s.set_num.as_str());
        let unreleased = is_unreleased(s.set_num.as_str());
        let accessories = is_accessories(s.set_num.as_str());
        let ghost s_rec = s;
        let mut bs = set_csv_to_model(s, pack, unreleased, accessories);
        let ghost base = bs@;
        proof {
            assert(version_views(bs.versions@).len() == bs.versions@.len());
        }
        let vcount = invrefs.len();
        let mut vi: usize = 0;
        while vi < vcount
            invariant
                g == csv_data,
                convert_urls_ok(g),
                part_inventories.wf(),
                part_inventories.src() == g.inventories_parts@,
                minifig_inventories.wf(),
                minifig_inventories.src() == g.inventories_minifigs@,
                all_parts_keys.wf(),
                all_parts_keys.src() == g.parts@,
                0 <= si < g.sets@.len(),
                s_rec == g.sets@[si as int],
                invrefs@ == set_inv_refs(g, si as int),
                vcount == invrefs@.len(),
                vi <= vcount,
                bs@ == (BrickSetV { versions: version_views(bs.versions@), ..base }),
                base.versions.len() == 0,
                bs.versions@.len() == vi,
                forall|b: int|
                    0 <= b < vi ==> (#[trigger] bs.versions@[b])@ == spec_version(
                        invrefs@[b],
                        g.inventories_minifigs@,
                        g.inventories_parts@,
                        g.parts@,
                    ),
                diag_views(diags@) == diags_of_sets(
                    g.sets@.take(si as int),
                    g.inventories@,
                    g.inventories_parts@,
                    g.parts@,
                ) + diags_of_versions(invrefs@.take(vi as int), g.inventories_parts@, g.parts@),
                forall|b: int|
                    0 <= b < vi ==> rows_colors_ok(
                        #[trigger] version_rows(g, si as int, b),
                        g.parts@,
                    ),
            decreases vcount - vi,
        {
            let ir = invrefs[vi];
            proof {
                assert(ir == set_inv_refs(g, si as int)[vi as int]);
                assert(rows_urls_ok(version_rows(g, si as int, vi as int), g.parts@));
                assert(version_rows(g, si as int, vi as int) == part_rows_for(
                    part_inventories.src(),
                    ir.id,
                ));
            }
            let ghost dpre = diags@;
            match get_set_version(
                ir,
                &minifig_inventories,
                &part_inventories,
                &all_parts_keys,
                &mut diags,
            ) {
                Ok(v) => {
                    bs.versions.push(v);
                    proof {
                        assert(invrefs@.take(vi + 1 as int).drop_last() =~= invrefs@.take(
                            vi as int,
                        ));
                        assert(invrefs@.take(vi + 1 as int).last() == invrefs@[vi as int]);
                        assert(diags_of_versions(
                            invrefs@.take(vi + 1 as int),
                            g.inventories_parts@,
                            g.parts@,
                        ) == diags_of_versions(
                            invrefs@.take(vi as int),
                            g.inventories_parts@,
                            g.parts@,
                        ) + version_diags(
                            ir.version,
                            part_rows_for(g.inventories_parts@, ir.id),
                            g.parts@,
                        ));
                        assert(diag_views(diags@) =~= diags_of_sets(
                            g.sets@.take(si as int),
                            g.inventories@,
                            g.inventories_parts@,
                            g.parts@,
                        ) + diags_of_versions(
                            invrefs@.take(vi + 1 as int),
                            g.inventories_parts@,
                            g.parts@,
                        ));
                        assert(version_views(bs.versions@) =~= version_views(
                            bs.versions@.drop_last(),
                        ).push(bs.versions@.last()@));
                        assert(bs@ == (BrickSetV { versions: version_views(bs.versions@), ..base }));
                    }
                }
                Err(e) => {
                    proof {
                        assert(!rows_colors_ok(version_rows(g, si as int, vi as int), g.parts@));
                        assert(!convert_colors_ok(g)) by {
                            if convert_colors_ok(g) {
                                assert(rows_colors_ok(
                                    version_rows(g, si as int, vi as int),
                                    g.parts@,
                                ));
                            }
                        }
                    }
                    return Err(e);
                }
            }
            vi = vi + 1;
        }
        proof {
            assert(invrefs@.take(vcount as int) =~= invrefs@);
            assert(version_views(bs.versions@) =~= set_inv_refs(g, si as int).map_values(
                |ir: InvRef|
                    spec_version(ir, g.inventories_minifigs@, g.inventories_parts@, g.parts@),
            ));
            assert(bs@ =~= spec_brick_set(
                g.sets@[si as int],
                g.inventories@,
                g.inventories_minifigs@,
                g.inventories_parts@,
                g.parts@,
            ));
        }
        model_sets.push(bs);
        proof {
            assert(sets_rem@ =~= g.sets@.skip(si + 1 as int));
            assert(g.sets@.take(si + 1 as int).drop_last() =~= g.sets@.take(si as int));
            assert(g.sets@.take(si + 1 as int).last() == g.sets@[si as int]);
            assert(diag_views(diags@) =~= diags_of_sets(
                g.sets@.take(si + 1 as int),
                g.inventories@,
                g.inventories_parts@,
                g.parts@,
            ));
        }
        si = si + 1;
    }
    let d = Data { minifigs: model_minifigs, parts: model_parts, sets: model_sets };
    proof {
        assert(part_model_views(d.parts@) =~= spec_model(g).parts);
        assert(minifig_model_views(d.minifigs@) =~= spec_model(g).minifigs);
        assert(brick_set_views(d.sets@) =~= spec_model(g).sets);
        assert(d@ =~= spec_model(g));
        assert(g.sets@.take(total_sets as int) =~= g.sets@);
        assert(convert_colors_ok(g)) by {
            assert forall|a: int, b: int|
                0 <= a < g.sets@.len() && 0 <= b < set_inv_refs(g, a).len() implies rows_colors_ok(
                #[trigger] version_rows(g, a, b),
                g.parts@,
            ) by {}
        }
    }
    Ok((d, diags))
}

/// Law: a version's minifig list matches its inventory's rows one for one.
pub proof fn lemma_version_minifigs_exact(rows: Seq<InventoryMinifigRecord>)
    ensures
        version_minifigs(rows).len() == rows.len(),
        forall|k: int|
            0 <= k < rows.len() ==> version_minifigs(rows)[k] == spec_minifig_entry(
                #[trigger] rows[k],
            ),
{
}

/// Law: a version's part list is the subset of its inventory's rows that
/// reference existing parts: never longer than the rows, and of the same
/// length exactly when no reference dangles.
pub proof fn lemma_version_parts_bounded(rows: Seq<InventoryPartRecord>, parts: Seq<PartRecord>)
    ensures
        version_parts(rows, parts).len() <= rows.len(),
        version_parts(rows, parts).len() == rows.len() <==> (forall|k: int|
            0 <= k < rows.len() ==> part_exists(parts, (#[trigger] rows[k]).part_num@)),
    decreases rows.len(),
{
    if rows.len() > 0 {
        let d = rows.drop_last();
        lemma_version_parts_bounded(d, parts);
        assert(forall|k: int| 0 <= k < d.len() ==> #[trigger] d[k] == rows[k]);
        if version_parts(rows, parts).len() == rows.len() {
            assert(part_exists(parts, rows.last().part_num@));
            assert(version_parts(d, parts).len() == d.len());
            assert forall|k: int| 0 <= k < rows.len() implies part_exists(
                parts,
                (#[trigger] rows[k]).part_num@,
            ) by {
                if k < rows.len() - 1 {
                    assert(part_exists(parts, d[k].part_num@));
                }
            }
        }
        if forall|k: int| 0 <= k < rows.len() ==> part_exists(parts, (#[trigger] rows[k]).part_num@) {
            assert forall|k: int| 0 <= k < d.len() implies part_exists(
                parts,
                (#[trigger] d[k]).part_num@,
            ) by {
                assert(d[k] == rows[k]);
            }
            assert(version_parts(d, parts).len() == d.len());
        }
    }
}

/// Law: the model and its diagnostics are functions of the tables alone:
/// two builds from the same unmodified snapshot yield the same output.
pub proof fn lemma_convert_deterministic(
    csv: TableData,
    d1: DataV,
    d2: DataV,
    g1: Seq<DiagnosticV>,
    g2: Seq<DiagnosticV>,
)
    requires
        d1 == spec_model(csv),
        d2 == spec_model(csv),
        g1 == spec_diagnostics(csv),
        g2 == spec_diagnostics(csv),
    ensures
        d1 == d2,
        g1 == g2,
{
}

/// Law: a set whose number matches no inventory row carries an empty version
/// list, never an absent one.
pub proof fn lemma_no_inventories_empty_versions(
    s: SetRecord,
    invs: Seq<InventoryRecord>,
    mrows: Seq<InventoryMinifigRecord>,
    prows: Seq<InventoryPartRecord>,
    parts: Seq<PartRecord>,
)
    requires
        forall|i: int| 0 <= i < invs.len() ==> (#[trigger] invs[i]).set_num@ != s.set_num@,
    ensures
        spec_brick_set(s, invs, mrows, prows, parts).versions == Seq::<SetVersionV>::empty(),
{
    lemma_invs_for_absent(invs, s.set_num@);
    assert(spec_brick_set(s, invs, mrows, prows, parts).versions =~= Seq::<SetVersionV>::empty());
}

/// Law: a row whose part number is absent from the part table contributes
/// nothing to the version's part list — the list is the same without the row
/// — and a diagnostic naming the version and the part number is produced.
pub proof fn lemma_dangling_row_reported(
    ver: u16,
    rows: Seq<InventoryPartRecord>,
    parts: Seq<PartRecord>,
    i: int,
)
    requires
        0 <= i < rows.len(),
        !part_exists(parts, rows[i].part_num@),
    ensures
        version_diags(ver, rows, parts).contains(
            DiagnosticV { version: ver, part_number: rows[i].part_num@ },
        ),
        version_parts(rows, parts) == version_parts(rows.remove(i), parts),
    decreases rows.len(),
{
    let d = rows.drop_last();
    if i == rows.len() - 1 {
        assert(rows.remove(i) =~= d);
        let dv = (DiagnosticV { version: ver, part_number: rows[i].part_num@ });
        assert(version_diags(ver, rows, parts).last() == dv);
    } else {
        assert(d[i] == rows[i]);
        lemma_dangling_row_reported(ver, d, parts, i);
        assert(rows.remove(i).drop_last() =~= d.remove(i));
        assert(rows.remove(i).last() == rows.last());
        assert(rows.remove(i).len() > 0);
        let dv = (DiagnosticV { version: ver, part_number: rows[i].part_num@ });
        assert(version_diags(ver, d, parts).contains(dv));
        let w = choose|w: int|
            0 <= w < version_diags(ver, d, parts).len() && version_diags(ver, d, parts)[w] == dv;
        if part_exists(parts, rows.last().part_num@) {
            assert(version_diags(ver, rows, parts) == version_diags(ver, d, parts));
        } else {
            assert(version_diags(ver, rows, parts) == version_diags(ver, d, parts).push(
                (DiagnosticV { version: ver, part_number: rows.last().part_num@ }),
            ));
            assert(version_diags(ver, rows, parts)[w] == dv);
        }
    }
}

} // verus!
