//! The shared data model: tiles, the tile grid, the polymorphic
//! entity (`Object`), its combat component, and the game state that
//! owns the map, the message log and the player's inventory.

use vstd::prelude::*;
use vstd::string::StringExecFns;

use crate::colors::{dark_red, light_green, light_yellow, orange, red, white, Color};
use crate::consts::{MAP_HEIGHT, MAP_WIDTH, MAX_INVENTORY};
use crate::text::decimal;

verus! {

/// One cell of the grid. `blocked` stops movement, `block_sight`
/// stops light; `explored` is written by the rendering collaborator.
#[derive(Clone, Copy, Debug, PartialEq, Eq, Structural)]
pub struct Tile {
    pub blocked: bool,
    pub block_sight: bool,
    pub explored: bool,
}

impl Tile {
    /// A walkable, transparent tile.
    pub fn empty() -> (t: Tile)
        ensures
            t == (Tile { blocked: false, block_sight: false, explored: false }),
    {
        Tile { blocked: false, block_sight: false, explored: false }
    }

    /// A tile that blocks both movement and light.
    pub fn wall() -> (t: Tile)
        ensures
            t == (Tile { blocked: true, block_sight: true, explored: false }),
    {
        Tile { blocked: true, block_sight: true, explored: false }
    }
}

/// The tile grid, indexed `[x][y]`.
pub type TileMap = Vec<Vec<Tile>>;

/// The ordered message log: `(text, color)` pairs, append-only.
pub type Messages = Vec<(String, Color)>;

/// A grid coordinate that can be indexed without going out of bounds.
pub open spec fn in_map(x: int, y: int) -> bool {
    &&& 0 <= x < MAP_WIDTH as int
    &&& 0 <= y < MAP_HEIGHT as int
}

/// A coordinate strictly inside the one-tile border of the grid, so
/// that every neighbouring coordinate is still on the grid.
pub open spec fn in_map_interior(x: int, y: int) -> bool {
    &&& 1 <= x < MAP_WIDTH as int - 1
    &&& 1 <= y < MAP_HEIGHT as int - 1
}

/// The grid has its fixed dimensions.
pub open spec fn map_wf(m: Seq<Vec<Tile>>) -> bool {
    &&& m.len() == MAP_WIDTH as int
    &&& forall|i: int| 0 <= i < m.len() ==> (#[trigger] m[i])@.len() == MAP_HEIGHT as int
}

/// Every tile on the border of the grid is a blocking tile, so an
/// entity standing on an unblocked tile has all eight neighbours on
/// the grid.
pub open spec fn map_closed(m: Seq<Vec<Tile>>) -> bool {
    forall|x: int, y: int|
        in_map(x, y) && !in_map_interior(x, y) ==> (#[trigger] m[x]@[y]).blocked
}

/// Which of the two death transitions applies to a fighter. Fixed at
/// creation time.
#[derive(Clone, Copy, Debug, PartialEq, Eq, Structural)]
pub enum DeathCallback {
    Player,
    Monster,
}

/// The combat component: its presence makes an entity combat-capable.
#[derive(Clone, Copy, Debug, PartialEq, Eq, Structural)]
pub struct Fighter {
    pub hp: i32,
    pub base_movement: i32,
    pub base_max_hp: i32,
    pub base_defense: i32,
    pub base_power: i32,
    pub on_death: DeathCallback,
    pub xp: i32,
}

/// The single polymorphic actor/item representation. Optional
/// components make it combat-capable (`fighter`), turn-driven (`ai`),
/// pickupable (`item`) or wearable (`equipment`).
pub struct Object {
    pub name: String,
    pub level: i32,
    pub x: i32,
    pub y: i32,
    pub glyph: char,
    pub color: Color,
    pub blocks: bool,
    pub alive: bool,
    pub fighter: Option<Fighter>,
    pub ai: Option<crate::ai::Ai>,
    pub item: Option<crate::items::Item>,
    pub always_visible: bool,
    pub equipment: Option<crate::items::Equipment>,
}

impl Object {
    /// A fresh entity at `(x, y)` with no components.
    pub fn new(x: i32, y: i32, glyph: char, color: Color, name: &str, blocks: bool) -> (o: Object)
        ensures
            o.name@ == name@,
            o.level == 1,
            o.x == x,
            o.y == y,
            o.glyph == glyph,
            o.color == color,
            o.blocks == blocks,
            !o.alive,
            o.fighter is None,
            o.ai is None,
            o.item is None,
            !o.always_visible,
            o.equipment is None,
    {
        Object {
            x: x,
            y: y,
            level: 1,
            glyph: glyph,
            color: color,
            name: name.to_owned(),
            blocks: blocks,
            alive: false,
            fighter: None,
            ai: None,
            item: None,
            always_visible: false,
            equipment: None,
        }
    }

    pub fn pos(&self) -> (p: (i32, i32))
        ensures
            p == (self.x, self.y),
    {
        (self.x, self.y)
    }

    pub fn set_pos(&mut self, x: i32, y: i32)
        ensures
            *final(self) == (Object { x: x, y: y, ..*old(self) }),
    {
        self.x = x;
        self.y = y;
    }

    /// Squared Euclidean distance to another entity. Distances are
    /// compared squared, which orders them exactly as their roots do.
    pub fn distance_to_sq(&self, other: &Object) -> (d: i64)
        requires
            in_map(self.x as int, self.y as int),
            in_map(other.x as int, other.y as int),
        ensures
            d == dist_sq(self.x as int, self.y as int, other.x as int, other.y as int),
    {
        let dx: i64 = other.x as i64 - self.x as i64;
        let dy: i64 = other.y as i64 - self.y as i64;
        proof {
            lemma_small_square_bound(dx as int);
            lemma_small_square_bound(dy as int);
        }
        dx * dx + dy * dy
    }

    /// Squared Euclidean distance to a coordinate.
    pub fn distance_sq(&self, x: i32, y: i32) -> (d: i64)
        requires
            in_map(self.x as int, self.y as int),
            in_map(x as int, y as int),
        ensures
            d == dist_sq(self.x as int, self.y as int, x as int, y as int),
    {
        let dx: i64 = x as i64 - self.x as i64;
        let dy: i64 = y as i64 - self.y as i64;
        proof {
            lemma_small_square_bound(dx as int);
            lemma_small_square_bound(dy as int);
        }
        dx * dx + dy * dy
    }
}

/// An entity that is currently worn by the player.
pub open spec fn is_equipped(o: Object) -> bool {
    o.equipment matches Some(e) && e.equipped
}

/// The entity the stat rules treat as the player.
pub open spec fn spec_is_player(o: Object) -> bool {
    o.name@ == "player"@
}

/// The equipment components of the currently worn inventory items, in
/// inventory order.
pub open spec fn equipped_components(inv: Seq<Object>) -> Seq<crate::items::Equipment>
    decreases inv.len(),
{
    if inv.len() == 0 {
        Seq::empty()
    } else {
        let rest = equipped_components(inv.drop_first());
        if is_equipped(inv.first()) {
            seq![inv.first().equipment->0] + rest
        } else {
            rest
        }
    }
}

/// Appending an entity to the inventory appends its component (when
/// worn) to the worn-component sequence.
pub proof fn lemma_equipped_components_push(inv: Seq<Object>, o: Object)
    ensures
        equipped_components(inv.push(o)) == if is_equipped(o) {
            equipped_components(inv).push(o.equipment->0)
        } else {
            equipped_components(inv)
        },
    decreases inv.len(),
{
    if inv.len() == 0 {
        assert(inv.push(o).drop_first() =~= Seq::<Object>::empty());
        assert(inv.push(o).first() == o);
        assert(inv =~= Seq::<Object>::empty());
        assert(equipped_components(Seq::<Object>::empty())
            =~= Seq::<crate::items::Equipment>::empty());
        if is_equipped(o) {
            assert(seq![o.equipment->0] + Seq::<crate::items::Equipment>::empty()
                =~= equipped_components(inv).push(o.equipment->0));
        }
    } else {
        assert(inv.push(o).drop_first() =~= inv.drop_first().push(o));
        assert(inv.push(o).first() == inv.first());
        lemma_equipped_components_push(inv.drop_first(), o);
        if is_equipped(o) {
            if is_equipped(inv.first()) {
                assert(seq![inv.first().equipment->0] + equipped_components(
                    inv.drop_first(),
                ).push(o.equipment->0) =~= (seq![inv.first().equipment->0]
                    + equipped_components(inv.drop_first())).push(o.equipment->0));
            }
        }
    }
}

/// The worn components are never more numerous than the inventory.
pub proof fn lemma_equipped_components_len(inv: Seq<Object>)
    ensures
        equipped_components(inv).len() <= inv.len(),
    decreases inv.len(),
{
    if inv.len() > 0 {
        lemma_equipped_components_len(inv.drop_first());
    }
}

/// Sum of the power bonuses of a sequence of equipment components.
pub open spec fn sum_power_bonus(eqs: Seq<crate::items::Equipment>) -> int
    decreases eqs.len(),
{
    if eqs.len() == 0 {
        0
    } else {
        eqs.first().power_bonus + sum_power_bonus(eqs.drop_first())
    }
}

/// Sum of the defense bonuses of a sequence of equipment components.
pub open spec fn sum_defense_bonus(eqs: Seq<crate::items::Equipment>) -> int
    decreases eqs.len(),
{
    if eqs.len() == 0 {
        0
    } else {
        eqs.first().defense_bonus + sum_defense_bonus(eqs.drop_first())
    }
}

/// Sum of the max-hp bonuses of a sequence of equipment components.
pub open spec fn sum_max_hp_bonus(eqs: Seq<crate::items::Equipment>) -> int
    decreases eqs.len(),
{
    if eqs.len() == 0 {
        0
    } else {
        eqs.first().max_hp_bonus + sum_max_hp_bonus(eqs.drop_first())
    }
}

/// Extending the component sequence by one extends each bonus sum by
/// that component's bonus.
pub proof fn lemma_bonus_sums_push(eqs: Seq<crate::items::Equipment>, e: crate::items::Equipment)
    ensures
        sum_power_bonus(eqs.push(e)) == sum_power_bonus(eqs) + e.power_bonus,
        sum_defense_bonus(eqs.push(e)) == sum_defense_bonus(eqs) + e.defense_bonus,
        sum_max_hp_bonus(eqs.push(e)) == sum_max_hp_bonus(eqs) + e.max_hp_bonus,
    decreases eqs.len(),
{
    if eqs.len() == 0 {
        assert(eqs.push(e).drop_first() =~= Seq::<crate::items::Equipment>::empty());
        assert(eqs.push(e).first() == e);
        assert(sum_power_bonus(Seq::<crate::items::Equipment>::empty()) == 0);
        assert(sum_defense_bonus(Seq::<crate::items::Equipment>::empty()) == 0);
        assert(sum_max_hp_bonus(Seq::<crate::items::Equipment>::empty()) == 0);
    } else {
        assert(eqs.push(e).drop_first() =~= eqs.drop_first().push(e));
        assert(eqs.push(e).first() == eqs.first());
        lemma_bonus_sums_push(eqs.drop_first(), e);
    }
}

/// The base stat an entity contributes itself: its fighter's, or 0
/// for a non-fighter.
pub open spec fn spec_base_power(o: Object) -> int {
    match o.fighter {
        Some(f) => f.base_power as int,
        None => 0,
    }
}

pub open spec fn spec_base_defense(o: Object) -> int {
    match o.fighter {
        Some(f) => f.base_defense as int,
        None => 0,
    }
}

pub open spec fn spec_base_max_hp(o: Object) -> int {
    match o.fighter {
        Some(f) => f.base_max_hp as int,
        None => 0,
    }
}

/// The bonus sequence an entity benefits from: the player's worn
/// items; a non-player entity has no inventory and no bonus.
pub open spec fn spec_bonus_source(o: Object, inv: Seq<Object>) -> Seq<crate::items::Equipment> {
    if spec_is_player(o) {
        equipped_components(inv)
    } else {
        Seq::empty()
    }
}

/// Effective power: base power plus worn power bonuses.
pub open spec fn spec_power(o: Object, inv: Seq<Object>) -> int {
    spec_base_power(o) + sum_power_bonus(spec_bonus_source(o, inv))
}

/// Effective defense: base defense plus worn defense bonuses.
pub open spec fn spec_defense(o: Object, inv: Seq<Object>) -> int {
    spec_base_defense(o) + sum_defense_bonus(spec_bonus_source(o, inv))
}

/// Effective maximum hp: base max hp plus worn max-hp bonuses.
pub open spec fn spec_max_hp(o: Object, inv: Seq<Object>) -> int {
    spec_base_max_hp(o) + sum_max_hp_bonus(spec_bonus_source(o, inv))
}

/// Squared Euclidean distance between two points.
pub open spec fn dist_sq(x1: int, y1: int, x2: int, y2: int) -> int {
    (x2 - x1) * (x2 - x1) + (y2 - y1) * (y2 - y1)
}

/// The square of a coordinate difference bounded by the grid size is
/// itself small and non-negative.
pub proof fn lemma_small_square_bound(d: int)
    requires
        -128 <= d <= 128,
    ensures
        0 <= d * d <= 16384,
{
    assert(0 <= d * d <= 16384) by (nonlinear_arith)
        requires
            -128 <= d <= 128,
    ;
}

/// Hit points after healing by `amount`: increased, but clamped to
/// the effective maximum.
pub open spec fn spec_healed_hp(hp: int, amount: int, max_hp: int) -> int {
    if hp + amount > max_hp {
        max_hp
    } else {
        hp + amount
    }
}

impl Object {
    /// Whether the stat rules treat this entity as the player.
    pub fn is_player(&self) -> (b: bool)
        ensures
            b == spec_is_player(*self),
    {
        let player_name: String = "player".to_owned();
        self.name == player_name
    }

    /// The equipment components this entity currently benefits from:
    /// the player's worn inventory items; empty for anyone else.
    pub fn get_all_equipped(&self, game: &Game) -> (r: Vec<crate::items::Equipment>)
        ensures
            r@ == spec_bonus_source(*self, game.inventory@),
    {
        if self.is_player() {
            let mut result: Vec<crate::items::Equipment> = Vec::new();
            let mut i: usize = 0;
            let n = game.inventory.len();
            proof {
                assert(game.inventory@.subrange(0, 0) =~= Seq::<Object>::empty());
            }
            while i < n
                invariant
                    i <= n,
                    n == game.inventory@.len(),
                    result@ == equipped_components(game.inventory@.subrange(0, i as int)),
                decreases n - i,
            {
                proof {
                    assert(game.inventory@.subrange(0, i + 1) =~= game.inventory@.subrange(
                        0,
                        i as int,
                    ).push(game.inventory@[i as int]));
                    lemma_equipped_components_push(
                        game.inventory@.subrange(0, i as int),
                        game.inventory@[i as int],
                    );
                }
                match &game.inventory[i].equipment {
                    Some(e) => {
                        if e.equipped {
                            result.push(*e);
                        }
                    },
                    None => {},
                }
                i = i + 1;
            }
            proof {
                assert(game.inventory@.subrange(0, n as int) =~= game.inventory@);
            }
            result
        } else {
            Vec::new()
        }
    }

    /// Effective power: base power plus worn power bonuses.
    pub fn power(&self, game: &Game) -> (p: i32)
        requires
            game_wf(game),
            i32::MIN as int <= spec_power(*self, game.inventory@) <= i32::MAX as int,
        ensures
            p == spec_power(*self, game.inventory@),
    {
        let base: i32 = match self.fighter {
            Some(f) => f.base_power,
            None => 0,
        };
        proof {
            lemma_equipped_components_len(game.inventory@);
        }
        let equipped = self.get_all_equipped(game);
        let bonus: i64 = power_bonus_total(&equipped);
        (base as i64 + bonus) as i32
    }

    /// Effective defense: base defense plus worn defense bonuses.
    pub fn defense(&self, game: &Game) -> (d: i32)
        requires
            game_wf(game),
            i32::MIN as int <= spec_defense(*self, game.inventory@) <= i32::MAX as int,
        ensures
            d == spec_defense(*self, game.inventory@),
    {
        let base: i32 = match self.fighter {
            Some(f) => f.base_defense,
            None => 0,
        };
        proof {
            lemma_equipped_components_len(game.inventory@);
        }
        let equipped = self.get_all_equipped(game);
        let bonus: i64 = defense_bonus_total(&equipped);
        (base as i64 + bonus) as i32
    }

    /// Effective maximum hp: base max hp plus worn max-hp bonuses.
    pub fn max_hp(&self, game: &Game) -> (m: i32)
        requires
            game_wf(game),
            i32::MIN as int <= spec_max_hp(*self, game.inventory@) <= i32::MAX as int,
        ensures
            m == spec_max_hp(*self, game.inventory@),
    {
        let base: i32 = match self.fighter {
            Some(f) => f.base_max_hp,
            None => 0,
        };
        proof {
            lemma_equipped_components_len(game.inventory@);
        }
        let equipped = self.get_all_equipped(game);
        let bonus: i64 = max_hp_bonus_total(&equipped);
        (base as i64 + bonus) as i32
    }

    /// Raise hit points by `amount`, clamped to the effective maximum:
    /// never overheals past the cap. A non-fighter is unchanged.
    pub fn heal(&mut self, amount: i32, game: &Game)
        requires
            game_wf(game),
            amount >= 0,
            i32::MIN as int <= spec_max_hp(*old(self), game.inventory@) <= i32::MAX as int,
        ensures
            old(self).fighter is None ==> *final(self) == *old(self),
            old(self).fighter matches Some(f) ==> *final(self) == (Object {
                fighter: Some(
                    Fighter {
                        hp: spec_healed_hp(
                            f.hp as int,
                            amount as int,
                            spec_max_hp(*old(self), game.inventory@),
                        ) as i32,
                        ..f
                    },
                ),
                ..*old(self)
            }),
    {
        let max_hp = self.max_hp(game);
        match &mut self.fighter {
            Some(f) => {
                let raised: i64 = f.hp as i64 + amount as i64;
                let clamped: i32 = if raised > max_hp as i64 {
                    max_hp
                } else {
                    raised as i32
                };
                f.hp = clamped;
            },
            None => {},
        }
    }
}

/// Sum the power bonuses of at most `u16::MAX` components without
/// overflowing the accumulator.
fn power_bonus_total(eqs: &Vec<crate::items::Equipment>) -> (total: i64)
    requires
        eqs@.len() <= u16::MAX as int,
    ensures
        total == sum_power_bonus(eqs@),
{
    let mut acc: i64 = 0;
    let mut i: usize = 0;
    let n = eqs.len();
    proof {
        assert(eqs@.subrange(0, 0) =~= Seq::<crate::items::Equipment>::empty());
    }
    while i < n
        invariant
            i <= n,
            n == eqs@.len() <= u16::MAX as int,
            acc == sum_power_bonus(eqs@.subrange(0, i as int)),
            -(i as int) * 0x8000_0000 <= acc <= (i as int) * 0x8000_0000,
        decreases n - i,
    {
        proof {
            assert(eqs@.subrange(0, i + 1) =~= eqs@.subrange(0, i as int).push(eqs@[i as int]));
            lemma_bonus_sums_push(eqs@.subrange(0, i as int), eqs@[i as int]);
        }
        acc = acc + eqs[i].power_bonus as i64;
        i = i + 1;
    }
    proof {
        assert(eqs@.subrange(0, n as int) =~= eqs@);
    }
    acc
}

/// Sum the defense bonuses, as `power_bonus_total` does.
fn defense_bonus_total(eqs: &Vec<crate::items::Equipment>) -> (total: i64)
    requires
        eqs@.len() <= u16::MAX as int,
    ensures
        total == sum_defense_bonus(eqs@),
{
    let mut acc: i64 = 0;
    let mut i: usize = 0;
    let n = eqs.len();
    proof {
        assert(eqs@.subrange(0, 0) =~= Seq::<crate::items::Equipment>::empty());
    }
    while i < n
        invariant
            i <= n,
            n == eqs@.len() <= u16::MAX as int,
            acc == sum_defense_bonus(eqs@.subrange(0, i as int)),
            -(i as int) * 0x8000_0000 <= acc <= (i as int) * 0x8000_0000,
        decreases n - i,
    {
        proof {
            assert(eqs@.subrange(0, i + 1) =~= eqs@.subrange(0, i as int).push(eqs@[i as int]));
            lemma_bonus_sums_push(eqs@.subrange(0, i as int), eqs@[i as int]);
        }
        acc = acc + eqs[i].defense_bonus as i64;
        i = i + 1;
    }
    proof {
        assert(eqs@.subrange(0, n as int) =~= eqs@);
    }
    acc
}

/// Sum the max-hp bonuses, as `power_bonus_total` does.
fn max_hp_bonus_total(eqs: &Vec<crate::items::Equipment>) -> (total: i64)
    requires
        eqs@.len() <= u16::MAX as int,
    ensures
        total == sum_max_hp_bonus(eqs@),
{
    let mut acc: i64 = 0;
    let mut i: usize = 0;
    let n = eqs.len();
    proof {
        assert(eqs@.subrange(0, 0) =~= Seq::<crate::items::Equipment>::empty());
    }
    while i < n
        invariant
            i <= n,
            n == eqs@.len() <= u16::MAX as int,
            acc == sum_max_hp_bonus(eqs@.subrange(0, i as int)),
            -(i as int) * 0x8000_0000 <= acc <= (i as int) * 0x8000_0000,
        decreases n - i,
    {
        proof {
            assert(eqs@.subrange(0, i + 1) =~= eqs@.subrange(0, i as int).push(eqs@[i as int]));
            lemma_bonus_sums_push(eqs@.subrange(0, i as int), eqs@[i as int]);
        }
        acc = acc + eqs[i].max_hp_bonus as i64;
        i = i + 1;
    }
    proof {
        assert(eqs@.subrange(0, n as int) =~= eqs@);
    }
    acc
}

/// The game state: the current map, the append-only message log, the
/// player's inventory and the current dungeon depth.
pub struct Game {
    pub map: TileMap,
    pub log: Messages,
    pub inventory: Vec<Object>,
    pub dungeon_level: u32,
}

/// Validity of a game state: the grid has its fixed dimensions and
/// the inventory respects its fixed capacity.
pub open spec fn game_wf(g: &Game) -> bool {
    &&& map_wf(g.map@)
    &&& g.inventory@.len() <= MAX_INVENTORY as int
}

/// What the player's command decoder reports to the game loop.
#[derive(Clone, Copy, Debug, PartialEq, Eq, Structural)]
pub enum PlayerAction {
    TookTurn,
    DidntTakeTurn,
    Exit,
}

/// A sink for player-facing messages. The core only appends; it never
/// reads the log back.
pub trait MessageLog {
    /// The log contents as a mathematical sequence.
    spec fn log_view(&self) -> Seq<(String, Color)>;

    /// Append one `(text, color)` pair.
    fn gutter_text(&mut self, message: String, color: Color)
        ensures
            final(self).log_view() == old(self).log_view().push((message, color)),
    ;
}

impl MessageLog for Messages {
    open spec fn log_view(&self) -> Seq<(String, Color)> {
        self@
    }

    fn gutter_text(&mut self, message: String, color: Color) {
        self.push((message, color));
    }
}

impl MessageLog for Game {
    open spec fn log_view(&self) -> Seq<(String, Color)> {
        self.log@
    }

    fn gutter_text(&mut self, message: String, color: Color) {
        self.log.push((message, color));
    }
}

/// The new log is the old log with exactly `n` entries appended.
pub open spec fn log_extended(before: Seq<(String, Color)>, after: Seq<(String, Color)>, n: int) -> bool {
    &&& after.len() == before.len() + n
    &&& after.subrange(0, before.len() as int) == before
}

/// The new log is the old log with zero or more entries appended.
pub open spec fn log_grew(before: Seq<(String, Color)>, after: Seq<(String, Color)>) -> bool {
    &&& after.len() >= before.len()
    &&& after.subrange(0, before.len() as int) == before
}

/// Everything of the game but its log is unchanged.
pub open spec fn game_same_but_log(a: &Game, b: &Game) -> bool {
    &&& a.map@ == b.map@
    &&& a.inventory@ == b.inventory@
    &&& a.dungeon_level == b.dungeon_level
}

/// The fighter after suffering `damage`: zero or negative damage
/// never reduces hit points.
pub open spec fn damaged_fighter(f: Fighter, damage: int) -> Fighter {
    if damage > 0 {
        Fighter { hp: (f.hp - damage) as i32, ..f }
    } else {
        f
    }
}

/// Whether suffering `damage` leaves the fighter at zero or fewer hit
/// points.
pub open spec fn fighter_dies(f: Fighter, damage: int) -> bool {
    damaged_fighter(f, damage).hp <= 0
}

/// The player's death transition: the glyph becomes a corpse marker
/// and is recolored; no further gameplay change.
pub open spec fn player_corpse(o: Object) -> Object {
    Object { glyph: '%', color: Color { r: 191, g: 0, b: 0 }, ..o }
}

/// The monster death transition relates the old entity to the new:
/// recolored, no longer blocking, stripped of its fighter and its ai,
/// renamed to its remains — an inert piece of scenery, not a removal.
pub open spec fn monster_corpse(o: Object, n: Object) -> bool {
    &&& n.glyph == '%'
    &&& n.color == (Color { r: 191, g: 0, b: 0 })
    &&& !n.blocks
    &&& n.fighter is None
    &&& n.ai is None
    &&& n.name@ == "remains of "@ + o.name@
    &&& n.alive == o.alive
    &&& n.x == o.x
    &&& n.y == o.y
    &&& n.level == o.level
    &&& n.item == o.item
    &&& n.always_visible == o.always_visible
    &&& n.equipment == o.equipment
}

/// Log a death notice and turn the player into a corpse.
pub fn player_death(player: &mut Object, game: &mut Game)
    ensures
        *final(player) == player_corpse(*old(player)),
        game_same_but_log(old(game), final(game)),
        log_extended(old(game).log@, final(game).log@, 1),
        final(game).log@.last().1 == (Color { r: 255, g: 0, b: 0 }),
        final(game).log@.last().0@ == "You died!"@,
{
    let msg: String = "You died!".to_owned();
    game.log.push((msg, red()));
    player.glyph = '%';
    player.color = dark_red();
    proof {
        assert(final(game).log@.subrange(0, old(game).log@.len() as int) =~= old(game).log@);
    }
}

/// Log the kill with the experience it grants and convert the
/// monster in place into an inert corpse.
pub fn monster_death(monster: &mut Object, game: &mut Game)
    requires
        old(monster).fighter is Some,
    ensures
        monster_corpse(*old(monster), *final(monster)),
        game_same_but_log(old(game), final(game)),
        log_extended(old(game).log@, final(game).log@, 1),
        final(game).log@.last().1 == (Color { r: 255, g: 127, b: 0 }),
{
    let f = match monster.fighter {
        Some(f) => f,
        None => {
            proof {
                assert(false);
            }
            Fighter {
                hp: 0,
                base_movement: 0,
                base_max_hp: 0,
                base_defense: 0,
                base_power: 0,
                on_death: DeathCallback::Monster,
                xp: 0,
            }
        },
    };
    let mut msg: String = monster.name.clone();
    msg.append(" is dead! You gain ");
    let xp_text = decimal(f.xp);
    msg.append(xp_text.as_str());
    msg.append(" experience points.");
    game.log.push((msg, orange()));

    monster.glyph = '%';
    monster.color = dark_red();
    monster.blocks = false;
    monster.fighter = None;
    monster.ai = None;
    let mut remains: String = "remains of ".to_owned();
    remains.append(monster.name.as_str());
    monster.name = remains;
    proof {
        assert(final(game).log@.subrange(0, old(game).log@.len() as int) =~= old(game).log@);
    }
}

impl DeathCallback {
    /// Apply the death transition selected at the fighter's creation.
    fn callback(self, object: &mut Object, game: &mut Game)
        requires
            self is Monster ==> old(object).fighter is Some,
        ensures
            self is Player ==> *final(object) == player_corpse(*old(object)),
            self is Monster ==> monster_corpse(*old(object), *final(object)),
            game_same_but_log(old(game), final(game)),
            log_extended(old(game).log@, final(game).log@, 1),
    {
        match self {
            DeathCallback::Player => player_death(object, game),
            DeathCallback::Monster => monster_death(object, game),
        }
    }
}

/// How one application of `damage` relates an entity before and
/// after: a non-fighter is untouched; a surviving fighter has its hit
/// points reduced; one that dies runs its death transition.
pub open spec fn damage_rel(o0: Object, o1: Object, damage: int) -> bool {
    &&& o0.fighter is None ==> o1 == o0
    &&& o0.fighter matches Some(f) ==> ({
        let dies = fighter_dies(f, damage);
        &&& !dies ==> o1 == (Object { fighter: Some(damaged_fighter(f, damage)), ..o0 })
        &&& (dies && f.on_death is Player) ==> o1 == player_corpse(
            (Object { alive: false, fighter: Some(damaged_fighter(f, damage)), ..o0 }),
        )
        &&& (dies && f.on_death is Monster) ==> monster_corpse(
            (Object { alive: false, ..o0 }),
            o1,
        )
    })
}

/// The attack's arithmetic stays within machine integers: the
/// effective stats, the damage, the defender's hit points after it,
/// and the experience transfer on a kill.
pub open spec fn attack_fits(a: Object, d: Object, inv: Seq<Object>) -> bool {
    let dmg = spec_power(a, inv) - spec_defense(d, inv);
    &&& a.fighter is Some
    &&& d.fighter is Some
    &&& i32::MIN as int <= spec_power(a, inv) <= i32::MAX as int
    &&& i32::MIN as int <= spec_defense(d, inv) <= i32::MAX as int
    &&& i32::MIN as int <= dmg <= i32::MAX as int
    &&& (dmg > 0 ==> d.fighter->0.hp - dmg >= i32::MIN as int)
    &&& (fighter_dies(d.fighter->0, dmg) ==> i32::MIN as int <= a.fighter->0.xp
        + d.fighter->0.xp <= i32::MAX as int)
}

/// How one resolved attack relates the attacker and defender before
/// (`a0`, `d0`) to after (`a1`, `d1`): damage is effective power
/// minus effective defense; non-positive damage changes nothing but
/// the log; positive damage is suffered by the defender; a defender
/// dying this call runs its death transition and its banked
/// experience is credited to the attacker, exactly once.
pub open spec fn attack_rel(
    a0: Object,
    d0: Object,
    a1: Object,
    d1: Object,
    inv: Seq<Object>,
    log0: Seq<(String, Color)>,
    log1: Seq<(String, Color)>,
) -> bool {
    let dmg = spec_power(a0, inv) - spec_defense(d0, inv);
    &&& dmg <= 0 ==> a1 == a0 && d1 == d0 && log_extended(log0, log1, 1)
    &&& (dmg > 0 && !fighter_dies(d0.fighter->0, dmg)) ==> a1 == a0 && d1 == (Object {
        fighter: Some(damaged_fighter(d0.fighter->0, dmg)),
        ..d0
    }) && log_extended(log0, log1, 1)
    &&& (dmg > 0 && fighter_dies(d0.fighter->0, dmg)) ==> a1 == (Object {
        fighter: Some(Fighter { xp: (a0.fighter->0.xp + d0.fighter->0.xp) as i32, ..a0.fighter->0 }),
        ..a0
    }) && log_extended(log0, log1, 2)
    &&& (dmg > 0 && fighter_dies(d0.fighter->0, dmg) && d0.fighter->0.on_death is Player) ==> d1
        == player_corpse(
        (Object { alive: false, fighter: Some(damaged_fighter(d0.fighter->0, dmg)), ..d0 }),
    )
    &&& (dmg > 0 && fighter_dies(d0.fighter->0, dmg) && d0.fighter->0.on_death is Monster)
        ==> monster_corpse((Object { alive: false, ..d0 }), d1)
}

impl Object {
    /// Subtract positive damage from hit points. If the fighter ends
    /// at zero or fewer hit points it is marked dead, its death
    /// transition runs, and its banked experience is returned to the
    /// caller; otherwise nothing is returned.
    pub fn take_damage(&mut self, damage: i32, game: &mut Game) -> (xp: Option<i32>)
        requires
            old(self).fighter matches Some(f) ==> (damage > 0 ==> f.hp - damage
                >= i32::MIN as int),
        ensures
            old(self).fighter is None ==> *final(self) == *old(self) && *final(game) == *old(game)
                && xp is None,
            old(self).fighter matches Some(f) ==> ({
                let dies = fighter_dies(f, damage as int);
                &&& !dies ==> *final(self) == (Object {
                    fighter: Some(damaged_fighter(f, damage as int)),
                    ..*old(self)
                }) && *final(game) == *old(game) && xp is None
                &&& dies ==> xp == Some(f.xp) && game_same_but_log(old(game), final(game))
                    && log_extended(old(game).log@, final(game).log@, 1)
                &&& (dies && f.on_death is Player) ==> *final(self) == player_corpse(
                    (Object {
                        alive: false,
                        fighter: Some(damaged_fighter(f, damage as int)),
                        ..*old(self)
                    }),
                )
                &&& (dies && f.on_death is Monster) ==> monster_corpse(
                    (Object { alive: false, ..*old(self) }),
                    *final(self),
                )
            }),
    {
        if damage > 0 {
            match &mut self.fighter {
                Some(f) => {
                    f.hp = f.hp - damage;
                },
                None => {},
            }
        }

        let status: Option<Fighter> = self.fighter;
        match status {
            Some(f) => {
                if f.hp <= 0 {
                    self.alive = false;
                    f.on_death.callback(self, game);
                    Some(f.xp)
                } else {
                    None
                }
            },
            None => None,
        }
    }


    /// Resolve one attack: damage is effective power minus effective
    /// defense; non-positive damage has no effect but a log entry;
    /// otherwise the defender suffers it, and if the defender dies
    /// this call its banked experience is credited to the attacker.
    pub fn attack(&mut self, target: &mut Object, game: &mut Game)
        requires
            game_wf(old(game)),
            attack_fits(*old(self), *old(target), old(game).inventory@),
        ensures
            game_same_but_log(old(game), final(game)),
            attack_rel(
                *old(self),
                *old(target),
                *final(self),
                *final(target),
                old(game).inventory@,
                old(game).log@,
                final(game).log@,
            ),
    {
        let power = self.power(game);
        let defense = target.defense(game);
        let damage = power - defense;

        if damage > 0 {
            let mut msg: String = self.name.clone();
            msg.append(" attacks ");
            msg.append(target.name.as_str());
            msg.append(" for ");
            let amount = decimal(damage);
            msg.append(amount.as_str());
            msg.append(" hit points.");
            game.log.push((msg, white()));
            let ghost mid_log: Seq<(String, Color)> = game.log@;
            proof {
                assert(mid_log.subrange(0, old(game).log@.len() as int) =~= old(game).log@);
            }
            let xp_gain = target.take_damage(damage, game);
            match xp_gain {
                Some(xp) => {
                    match &mut self.fighter {
                        Some(f) => {
                            f.xp = f.xp + xp;
                        },
                        None => {},
                    }
                    proof {
                        assert(final(game).log@.subrange(0, old(game).log@.len() as int)
                            =~= old(game).log@);
                    }
                },
                None => {},
            }
        } else {
            let mut msg: String = self.name.clone();
            msg.append(" attacks ");
            msg.append(target.name.as_str());
            msg.append(" but it has no effect!");
            game.log.push((msg, white()));
            proof {
                assert(final(game).log@.subrange(0, old(game).log@.len() as int)
                    =~= old(game).log@);
            }
        }
    }

    /// Set the worn flag of an unworn equipment item and log it.
    /// Equipping a non-item or non-equipment entity is a no-op that
    /// logs a diagnostic; an already worn item is left as it is.
    pub fn equip(&mut self, log: &mut Messages)
        ensures
            old(self).item is None ==> *final(self) == *old(self) && log_extended(
                old(log)@,
                final(log)@,
                1,
            ),
            (old(self).item is Some && old(self).equipment is None) ==> *final(self) == *old(self)
                && log_extended(old(log)@, final(log)@, 1),
            old(self).equipment matches Some(e) ==> ({
                &&& (old(self).item is Some && e.equipped) ==> *final(self) == *old(self)
                    && final(log)@ == old(log)@
                &&& (old(self).item is Some && !e.equipped) ==> *final(self) == (Object {
                    equipment: Some(crate::items::Equipment { equipped: true, ..e }),
                    ..*old(self)
                }) && log_extended(old(log)@, final(log)@, 1)
            }),
    {
        if self.item.is_none() {
            let mut msg: String = "Can't equip ".to_owned();
            msg.append(self.name.as_str());
            msg.append(" because it's not an Item.");
            log.push((msg, red()));
            proof {
                assert(final(log)@.subrange(0, old(log)@.len() as int) =~= old(log)@);
            }
            return ;
        }

        match &mut self.equipment {
            Some(equipment) => {
                if !equipment.equipped {
                    equipment.equipped = true;
                    let mut msg: String = "Equipped ".to_owned();
                    msg.append(self.name.as_str());
                    msg.append(" on ");
                    let where_text = match self.equipment {
                        Some(e) => e.slot.text(),
                        None => String::new(),
                    };
                    msg.append(where_text.as_str());
                    msg.append(".");
                    log.push((msg, light_green()));
                    proof {
                        assert(final(log)@.subrange(0, old(log)@.len() as int) =~= old(log)@);
                    }
                }
            },
            None => {
                let mut msg: String = "Can't equip ".to_owned();
                msg.append(self.name.as_str());
                msg.append(" because it's not an Equipment.");
                log.push((msg, red()));
                proof {
                    assert(final(log)@.subrange(0, old(log)@.len() as int) =~= old(log)@);
                }
            },
        }
    }

    /// Clear the worn flag of a worn equipment item and log it; the
    /// mirror of `equip`.
    pub fn dequip(&mut self, log: &mut Messages)
        ensures
            old(self).item is None ==> *final(self) == *old(self) && log_extended(
                old(log)@,
                final(log)@,
                1,
            ),
            (old(self).item is Some && old(self).equipment is None) ==> *final(self) == *old(self)
                && log_extended(old(log)@, final(log)@, 1),
            old(self).equipment matches Some(e) ==> ({
                &&& (old(self).item is Some && !e.equipped) ==> *final(self) == *old(self)
                    && final(log)@ == old(log)@
                &&& (old(self).item is Some && e.equipped) ==> *final(self) == (Object {
                    equipment: Some(crate::items::Equipment { equipped: false, ..e }),
                    ..*old(self)
                }) && log_extended(old(log)@, final(log)@, 1)
            }),
    {
        if self.item.is_none() {
            let mut msg: String = "Can't dequip ".to_owned();
            msg.append(self.name.as_str());
            msg.append(" because it's not an Item.");
            log.push((msg, red()));
            proof {
                assert(final(log)@.subrange(0, old(log)@.len() as int) =~= old(log)@);
            }
            return ;
        }

        match &mut self.equipment {
            Some(equipment) => {
                if equipment.equipped {
                    equipment.equipped = false;
                    let mut msg: String = "Dequipped ".to_owned();
                    msg.append(self.name.as_str());
                    msg.append(" from ");
                    let where_text = match self.equipment {
                        Some(e) => e.slot.text(),
                        None => String::new(),
                    };
                    msg.append(where_text.as_str());
                    log.push((msg, light_yellow()));
                    proof {
                        assert(final(log)@.subrange(0, old(log)@.len() as int) =~= old(log)@);
                    }
                }
            },
            None => {
                let mut msg: String = "Can't dequip ".to_owned();
                msg.append(self.name.as_str());
                msg.append(" because it's not an Equipment.");
                log.push((msg, red()));
                proof {
                    assert(final(log)@.subrange(0, old(log)@.len() as int) =~= old(log)@);
                }
            },
        }
    }
}

} // verus!
