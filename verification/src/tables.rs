//! The flat records of the source tables, one struct per table, and the
//! bundle of all tables that one run works from. Pure data: every field is a
//! plain value as read from its table.
use vstd::prelude::*;

verus! {

/// One row of the color table.
#[derive(Debug)]
pub struct ColorRecord {
    pub id: i32,
    pub name: String,
    pub rgb: String,
    pub is_trans: String,
    pub num_parts: u32,
    pub num_sets: u32,
    pub y1: Option<u16>,
    pub y2: Option<u16>,
}

/// One row of the inventory table: a snapshot of a set's bill of materials.
#[derive(Debug)]
pub struct InventoryRecord {
    pub id: u32,
    pub version: u16,
    pub set_num: String,
}

/// One row of the inventory-minifig table: a minifig belonging to an inventory.
#[derive(Debug)]
pub struct InventoryMinifigRecord {
    pub inventory_id: u32,
    pub fig_num: String,
    pub quantity: u16,
}

/// One row of the inventory-part table: a part belonging to an inventory.
#[derive(Debug)]
pub struct InventoryPartRecord {
    pub inventory_id: u32,
    pub part_num: String,
    pub color_id: i32,
    pub quantity: u16,
    pub is_spare: String,
    pub img_url: String,
}

/// One row of the minifig table.
#[derive(Debug)]
pub struct MinifigRecord {
    pub fig_num: String,
    pub name: String,
    pub num_parts: u32,
    pub img_url: String,
}

/// One row of the part table.
#[derive(Debug)]
pub struct PartRecord {
    pub part_num: String,
    pub name: String,
    pub part_cat_id: u32,
    pub part_material: String,
}

/// One row of the part-category table.
#[derive(Debug)]
pub struct PartCategoryRecord {
    pub id: u32,
    pub name: String,
}

/// One row of the set table.
#[derive(Debug)]
pub struct SetRecord {
    pub set_num: String,
    pub name: String,
    pub year: u16,
    pub theme_id: u32,
    pub num_parts: u32,
    pub img_url: String,
}

/// One row of the theme table; `parent_id` links the theme forest.
#[derive(Debug)]
pub struct ThemeRecord {
    pub id: u32,
    pub name: String,
    pub parent_id: Option<u32>,
}

/// The whole table snapshot a run is built from.
#[derive(Debug)]
pub struct Data {
    pub colors: Vec<ColorRecord>,
    pub inventories: Vec<InventoryRecord>,
    pub inventories_minifigs: Vec<InventoryMinifigRecord>,
    pub inventories_parts: Vec<InventoryPartRecord>,
    pub minifigs: Vec<MinifigRecord>,
    pub parts: Vec<PartRecord>,
    pub sets: Vec<SetRecord>,
    pub themes: Vec<ThemeRecord>,
}

} // verus!
