//! Items: things that lie in the world for the agents to find.

use crate::fixed::{Fixed, ONE};
use crate::game::{
    Game, GameStage, KdTrees, BOTTOM_LIMIT_X_MAX, BOTTOM_LIMIT_X_MIN, BOTTOM_STAGE_LIMIT,
    MID_STAGE_LIMIT, TOP_STAGE_LIMIT,
};
use crate::random::{random_id, random_in_range};
use crate::spatial::{finite_entries, IndexEntry, SpatialIndex};
use crate::vec2::Vec2;
use crate::worldgen::Span;
use vstd::prelude::*;

verus! {

#[derive(Clone, Copy, Debug, PartialEq, Eq, Structural)]
pub enum ItemType {
    Propeller,
    FoodVacuum,
    CreatureVacuum,
    Weapon,
    Sonar,
}

/// One item: what it is, where it lies as shares of the world, and what it
/// is worth.
#[derive(Clone, Copy, Debug, PartialEq, Eq, Structural)]
pub struct Item {
    pub id: u32,
    pub item_type: ItemType,
    pub position: Vec2,
    pub mass: Fixed,
    pub range: Fixed,
    pub damage: Fixed,
    pub hp: Fixed,
}

/// Where a stage puts its items and what it makes them worth.
#[derive(Clone, Copy, Debug, PartialEq, Eq, Structural)]
pub struct ItemRanges {
    pub x: Span,
    pub y: Span,
    pub mass: Span,
    /// The range of the range, of the damage and of the health.
    pub worth: Span,
}

/// What the index holds of `items`: each one's id and position.
pub open spec fn item_entries(items: Seq<Item>) -> Seq<IndexEntry> {
    items.map_values(|i: Item| IndexEntry { id: i.id, position: i.position })
}

impl ItemType {
    /// The kind of item with the number `pick`.
    pub open spec fn pick(pick: int) -> ItemType {
        if pick == 0 {
            ItemType::Propeller
        } else if pick == 1 {
            ItemType::FoodVacuum
        } else if pick == 2 {
            ItemType::CreatureVacuum
        } else if pick == 3 {
            ItemType::Weapon
        } else {
            ItemType::Sonar
        }
    }

    /// The kind of item with the number `pick`.
    pub fn from_pick(pick: i64) -> (r: ItemType)
        ensures
            r == ItemType::pick(pick as int),
    {
        if pick == 0 {
            ItemType::Propeller
        } else if pick == 1 {
            ItemType::FoodVacuum
        } else if pick == 2 {
            ItemType::CreatureVacuum
        } else if pick == 3 {
            ItemType::Weapon
        } else {
            ItemType::Sonar
        }
    }

    /// A kind of item, drawn from the five there are.
    pub fn random_item() -> (r: ItemType) {
        ItemType::from_pick(random_in_range(0, 5))
    }
}

impl GameStage {
    /// Where the stage puts its items and what it makes them worth.
    pub open spec fn item_ranges(self) -> ItemRanges {
        match self {
            GameStage::Bottom => ItemRanges {
                x: Span::of(BOTTOM_LIMIT_X_MIN as int, BOTTOM_LIMIT_X_MAX as int),
                y: Span::of(0, BOTTOM_STAGE_LIMIT as int),
                mass: Span::of(30_000, BOTTOM_STAGE_LIMIT as int),
                worth: Span::of(0, BOTTOM_STAGE_LIMIT as int),
            },
            GameStage::Mid => ItemRanges {
                x: Span::of(0, ONE as int),
                y: Span::of(BOTTOM_STAGE_LIMIT as int, MID_STAGE_LIMIT as int),
                mass: Span::of(BOTTOM_STAGE_LIMIT as int, MID_STAGE_LIMIT as int),
                worth: Span::of(BOTTOM_STAGE_LIMIT as int, MID_STAGE_LIMIT as int),
            },
            GameStage::Top => ItemRanges {
                x: Span::of(0, TOP_STAGE_LIMIT as int),
                y: Span::of(MID_STAGE_LIMIT as int, TOP_STAGE_LIMIT as int),
                mass: Span::of(MID_STAGE_LIMIT as int, TOP_STAGE_LIMIT as int),
                worth: Span::of(MID_STAGE_LIMIT as int, TOP_STAGE_LIMIT as int),
            },
        }
    }

    /// Where the stage puts its items and what it makes them worth.
    pub fn item_spawn_ranges(&self) -> (r: ItemRanges)
        ensures
            r == self.item_ranges(),
    {
        match self {
            GameStage::Bottom => ItemRanges {
                x: Span::new(BOTTOM_LIMIT_X_MIN, BOTTOM_LIMIT_X_MAX),
                y: Span::new(0, BOTTOM_STAGE_LIMIT),
                mass: Span::new(30_000, BOTTOM_STAGE_LIMIT),
                worth: Span::new(0, BOTTOM_STAGE_LIMIT),
            },
            GameStage::Mid => ItemRanges {
                x: Span::new(0, ONE),
                y: Span::new(BOTTOM_STAGE_LIMIT, MID_STAGE_LIMIT),
                mass: Span::new(BOTTOM_STAGE_LIMIT, MID_STAGE_LIMIT),
                worth: Span::new(BOTTOM_STAGE_LIMIT, MID_STAGE_LIMIT),
            },
            GameStage::Top => ItemRanges {
                x: Span::new(0, TOP_STAGE_LIMIT),
                y: Span::new(MID_STAGE_LIMIT, TOP_STAGE_LIMIT),
                mass: Span::new(MID_STAGE_LIMIT, TOP_STAGE_LIMIT),
                worth: Span::new(MID_STAGE_LIMIT, TOP_STAGE_LIMIT),
            },
        }
    }

    /// The stage with the number `pick`.
    pub open spec fn pick(pick: int) -> GameStage {
        if pick == 0 {
            GameStage::Bottom
        } else if pick == 1 {
            GameStage::Mid
        } else {
            GameStage::Top
        }
    }

    /// The stage with the number `pick`.
    pub fn from_pick(pick: i64) -> (r: GameStage)
        ensures
            r == GameStage::pick(pick as int),
    {
        if pick == 0 {
            GameStage::Bottom
        } else if pick == 1 {
            GameStage::Mid
        } else {
            GameStage::Top
        }
    }

    /// A stage, drawn from the three there are.
    pub fn random_stage() -> (r: GameStage) {
        GameStage::from_pick(random_in_range(0, 3))
    }
}

impl Item {
    /// An item of `stage` with the id `id`: of a kind drawn from all kinds,
    /// and with a place and a worth drawn from the ranges of the stage.
    pub fn random_item(stage: GameStage, id: u32) -> (r: Item)
        ensures
            r.id == id,
            stage.item_ranges().x.holds(r.position.x),
            stage.item_ranges().y.holds(r.position.y),
            stage.item_ranges().mass.holds(r.mass),
            stage.item_ranges().worth.holds(r.range),
            stage.item_ranges().worth.holds(r.damage),
            stage.item_ranges().worth.holds(r.hp),
    {
        let ranges: ItemRanges = stage.item_spawn_ranges();
        Item {
            id,
            item_type: ItemType::random_item(),
            position: Vec2::new(ranges.x.draw(), ranges.y.draw()),
            mass: ranges.mass.draw(),
            range: ranges.worth.draw(),
            damage: ranges.worth.draw(),
            hp: ranges.worth.draw(),
        }
    }
}

/// `item` lies where `stage` puts its items and is worth what it makes them
/// worth.
pub open spec fn is_of_stage(item: Item, stage: GameStage) -> bool {
    &&& stage.item_ranges().x.holds(item.position.x)
    &&& stage.item_ranges().y.holds(item.position.y)
    &&& stage.item_ranges().mass.holds(item.mass)
    &&& stage.item_ranges().worth.holds(item.range)
    &&& stage.item_ranges().worth.holds(item.damage)
    &&& stage.item_ranges().worth.holds(item.hp)
}

/// `item` is an item of one of the three stages.
pub open spec fn is_of_some_stage(item: Item) -> bool {
    is_of_stage(item, GameStage::Bottom) || is_of_stage(item, GameStage::Mid) || is_of_stage(
        item,
        GameStage::Top,
    )
}

impl Game {
    /// `num_items` items, each of a stage drawn by chance and under an id drawn
    /// by chance.
    pub fn gen_items(num_items: usize) -> (r: Vec<Item>)
        ensures
            r@.len() == num_items,
            forall|i: int| 0 <= i < r@.len() ==> is_of_some_stage(#[trigger] r@[i]),
    {
        let mut items: Vec<Item> = Vec::new();
        let mut i: usize = 0;
        while i < num_items
            invariant
                0 <= i <= num_items,
                items@.len() == i,
                forall|j: int| 0 <= j < i ==> is_of_some_stage(#[trigger] items@[j]),
            decreases num_items - i,
        {
            let stage: GameStage = GameStage::random_stage();
            let item: Item = Item::random_item(stage, random_id());
            proof {
                assert(is_of_stage(item, stage));
            }
            items.push(item);
            i = i + 1;
        }
        items
    }
}

impl KdTrees {
    /// Replaces the index of the items by one of `items`.
    pub fn gen_item_kdtree(&mut self, items: &Vec<Item>)
        ensures
            final(self).item_kdtree.entries@ == finite_entries(item_entries(items@)),
            final(self).item_kdtree.wf(),
            final(self).agent_kdtree == old(self).agent_kdtree,
            final(self).food_kdtree == old(self).food_kdtree,
    {
        let mut entries: Vec<IndexEntry> = Vec::new();
        let mut i: usize = 0;
        while i < items.len()
            invariant
                0 <= i <= items.len(),
                entries@.len() == i,
                forall|j: int|
                    0 <= j < i ==> #[trigger] entries@[j] == (IndexEntry {
                        id: items@[j].id,
                        position: items@[j].position,
                    }),
            decreases items.len() - i,
        {
            entries.push(IndexEntry { id: items[i].id, position: items[i].position });
            i = i + 1;
        }
        assert(entries@ =~= item_entries(items@));
        self.item_kdtree = SpatialIndex::build(&entries);
    }
}

} // verus!
