use roguelike::components::{
    AreaOfEffect, CombatStats, Confusion, Consumable, Entity, EquipSlot, Equippable, Equipped, InBackpack, InflictsDamage, Item, Monster, Name, Player, Point, Position, ProvidesHealing, SerializeMe, SufferDamage, Viewshed, WantsToMelee, WantsToPickUpItem, WantsToUseItem,
};
use roguelike::components::Ranged;
use roguelike::damage_system::DamageSystem;
use roguelike::game::{ExternalInput, RunState, State, TickEffect};
use roguelike::map::{GameMap, TileType};
use roguelike::world::{Storage, World};
use roguelike::map_indexing_system::MapIndexingSystem;
use roguelike::player::get_item;
use roguelike::player::try_move_player;
use roguelike::saveload_system::{load_game, save_game};

fn floor_map(w: i32, h: i32) -> GameMap {
    let tiles = vec![TileType::Floor; (w * h) as usize];
    GameMap::new(w, h, tiles, Vec::new())
}

fn spawn(world: &mut World, x: i32, y: i32) -> Entity {
    let e = world.ents.create();
    world.positions.insert(e, Position { x, y });
    e
}

#[test]
fn damage_summation_sums_and_removes() {
    let mut ents = roguelike::world::EntityAllocator::new();
    let mut stats: Storage<CombatStats> = Storage::new();
    let mut dmg: Storage<SufferDamage> = Storage::new();
    let e = ents.create();
    stats.insert(e, CombatStats { max_hp: 30, hp: 30, defense: 1, power: 4 });
    SufferDamage::new_damage(&ents, &mut dmg, e, 3);
    SufferDamage::new_damage(&ents, &mut dmg, e, 4);
    SufferDamage::new_damage(&ents, &mut dmg, e, 5);
    DamageSystem::run(&mut stats, &mut dmg);
    assert_eq!(stats.get(e).unwrap().hp, 18);
    assert!(dmg.get(e).is_none());
}

#[test]
fn healing_clamps_to_max_hp() {
    let mut world = World::new(floor_map(10, 10));
    let player = spawn(&mut world, 2, 2);
    world.player_entity = player;
    world.player_pos = Point { x: 2, y: 2 };
    world.players.insert(player, Player {});
    world.combat_stats.insert(player, CombatStats { max_hp: 20, hp: 10, defense: 1, power: 4 });
    world.names.insert(player, Name { name: String::from("Adventurer") });
    let potion = world.ents.create();
    world.items.insert(potion, Item {});
    world.names.insert(potion, Name { name: String::from("Health Potion") });
    world.provides_healing.insert(potion, ProvidesHealing { heal_amount: 50 });
    world.backpacks.insert(potion, InBackpack { owner: player });
    world.use_intents.insert(player, WantsToUseItem { item: potion, target: None });
    world.run_state = RunState::PlayerTurn;
    let mut state = State::new(world);
    let effect = state.tick(ExternalInput::Nothing);
    assert_eq!(effect, TickEffect::Nothing);
    assert_eq!(state.ecs.combat_stats.get(player).unwrap().hp, 20);
}

#[test]
fn pipeline_clears_intents() {
    let mut world = World::new(floor_map(10, 10));
    let player = spawn(&mut world, 2, 2);
    world.player_entity = player;
    world.player_pos = Point { x: 2, y: 2 };
    world.players.insert(player, Player {});
    let rock = world.ents.create();
    world.items.insert(rock, Item {});
    world.positions.insert(rock, Position { x: 2, y: 2 });
    world.pickup_intents.insert(
        player,
        WantsToPickUpItem { collected_by: player, item: rock },
    );
    world.run_state = RunState::PlayerTurn;
    let mut state = State::new(world);
    state.tick(ExternalInput::Nothing);
    assert!(state.ecs.pickup_intents.get(player).is_none());
    assert!(state.ecs.use_intents.get(player).is_none());
    assert!(state.ecs.drop_intents.get(player).is_none());
    assert!(state.ecs.remove_intents.get(player).is_none());
    assert_eq!(state.ecs.backpacks.get(rock).unwrap().owner, player);
    assert!(state.ecs.positions.get(rock).is_none());
    assert_eq!(state.ecs.run_state, RunState::MonsterTurn);
}

#[test]
fn confused_monster_counts_down() {
    let mut world = World::new(floor_map(12, 12));
    let player = spawn(&mut world, 2, 2);
    world.player_entity = player;
    world.player_pos = Point { x: 2, y: 2 };
    world.players.insert(player, Player {});
    let monster = spawn(&mut world, 8, 8);
    world.monsters.insert(monster, Monster {});
    world.viewsheds.insert(
        monster,
        Viewshed { visible_tiles: Vec::new(), range: 6, dirty: true },
    );
    world.confusion.insert(monster, Confusion { turns: 2 });
    world.run_state = RunState::MonsterTurn;
    let mut state = State::new(world);
    state.tick(ExternalInput::Nothing);
    assert_eq!(state.ecs.confusion.get(monster).unwrap().turns, 1);
    assert_eq!(state.ecs.positions.get(monster).unwrap().x, 8);
    state.ecs.run_state = RunState::MonsterTurn;
    state.tick(ExternalInput::Nothing);
    assert!(state.ecs.confusion.get(monster).is_none());
    assert_eq!(state.ecs.positions.get(monster).unwrap().x, 8);
    assert!(state.ecs.melee_intents.get(monster).is_none());
}

#[test]
fn adjacent_monster_attacks_player() {
    let mut world = World::new(floor_map(12, 12));
    let player = spawn(&mut world, 2, 2);
    world.player_entity = player;
    world.player_pos = Point { x: 2, y: 2 };
    world.players.insert(player, Player {});
    world.combat_stats.insert(player, CombatStats { max_hp: 30, hp: 30, defense: 1, power: 5 });
    let monster = spawn(&mut world, 3, 2);
    world.monsters.insert(monster, Monster {});
    world.combat_stats.insert(monster, CombatStats { max_hp: 16, hp: 16, defense: 1, power: 4 });
    world.viewsheds.insert(
        monster,
        Viewshed { visible_tiles: Vec::new(), range: 6, dirty: true },
    );
    world.run_state = RunState::MonsterTurn;
    let mut state = State::new(world);
    state.tick(ExternalInput::Nothing);
    // power 4 minus defense 1: three points of damage, resolved this pass
    assert_eq!(state.ecs.combat_stats.get(player).unwrap().hp, 27);
}

#[test]
fn state_machine_menu_transitions() {
    let world = World::new(floor_map(4, 4));
    let mut state = State::new(world);
    assert_eq!(state.ecs.run_state, RunState::MainMenu);
    let eff = state.tick(ExternalInput::MenuLoadGame);
    assert_eq!(eff, TickEffect::LoadSave);
    assert_eq!(state.ecs.run_state, RunState::AwaitingInput);
    state.ecs.run_state = RunState::SaveGame;
    let eff = state.tick(ExternalInput::Nothing);
    assert_eq!(eff, TickEffect::WriteSave);
    assert_eq!(state.ecs.run_state, RunState::MainMenu);
}

#[test]
fn pathfinding_shortest_around_wall() {
    let mut tiles = vec![TileType::Floor; 25];
    // a vertical wall through the middle with a gap at the bottom
    tiles[2] = TileType::Wall;
    tiles[7] = TileType::Wall;
    tiles[12] = TileType::Wall;
    let mut map = GameMap::new(5, 5, tiles, Vec::new());
    for idx in 0..25 {
        map.blocked[idx] = matches!(map.tiles[idx], TileType::Wall);
    }
    let start = 10; // (0,2)
    let goal = 14; // (4,2)
    let path = map.find_path(start, goal);
    assert!(path.success);
    assert_eq!(path.steps[0], start);
    assert_eq!(*path.steps.last().unwrap(), goal);
    assert_eq!(path.steps.len(), 5);
    let blocked_path = {
        // close the whole column: no diagonal squeezes past
        map.blocked[17] = true;
        map.blocked[22] = true;
        map.find_path(start, goal)
    };
    assert!(!blocked_path.success);
    assert!(blocked_path.steps.is_empty());
}

#[test]
fn save_snapshot_records_tagged_entities() {
    let mut world = World::new(floor_map(6, 6));
    let player = spawn(&mut world, 1, 1);
    world.players.insert(player, Player {});
    world.names.insert(player, Name { name: String::from("Adventurer") });
    world.serialize_tags.insert(player, roguelike::components::SerializeMe {});
    let untagged = spawn(&mut world, 2, 2);
    world.monsters.insert(untagged, Monster {});
    let snap = roguelike::saveload_system::save_game(&world);
    assert_eq!(snap.entities.len(), 1);
    assert!(snap.entities[0].player);
    assert_eq!(snap.entities[0].position, Some(Position { x: 1, y: 1 }));
    assert_eq!(snap.entities[0].name.as_ref().unwrap().name, "Adventurer");
    assert_eq!(snap.width, 6);
    assert_eq!(snap.tiles.len(), 36);
    let there = Some(snap);
    assert!(roguelike::saveload_system::save_exists(&there));
    assert!(!roguelike::saveload_system::save_exists(&None));
}

#[test]
fn equip_swap_puts_old_item_back() {
    let mut world = World::new(floor_map(10, 10));
    let player = spawn(&mut world, 2, 2);
    world.player_entity = player;
    world.player_pos = Point { x: 2, y: 2 };
    world.players.insert(player, Player {});
    world.names.insert(player, Name { name: String::from("Adventurer") });
    let sword_a = world.ents.create();
    world.items.insert(sword_a, Item {});
    world.names.insert(sword_a, Name { name: String::from("Rusty Sword") });
    world.equippables.insert(sword_a, Equippable { slot: EquipSlot::Melee });
    world.equipped.insert(sword_a, Equipped { owner: player, slot: EquipSlot::Melee });
    let sword_b = world.ents.create();
    world.items.insert(sword_b, Item {});
    world.names.insert(sword_b, Name { name: String::from("Sharp Sword") });
    world.equippables.insert(sword_b, Equippable { slot: EquipSlot::Melee });
    world.backpacks.insert(sword_b, InBackpack { owner: player });
    world.use_intents.insert(player, WantsToUseItem { item: sword_b, target: None });
    world.run_state = RunState::PlayerTurn;
    let mut state = State::new(world);
    state.tick(ExternalInput::Nothing);
    // A is back in the owner's backpack, B is worn, B left the backpack
    let a_pack = state.ecs.backpacks.get(sword_a).expect("old sword back in backpack");
    assert_eq!(a_pack.owner, player);
    assert!(state.ecs.equipped.get(sword_a).is_none());
    let b_worn = state.ecs.equipped.get(sword_b).expect("new sword equipped");
    assert_eq!(b_worn.owner, player);
    assert_eq!(b_worn.slot, EquipSlot::Melee);
    assert!(state.ecs.backpacks.get(sword_b).is_none());
}

#[test]
fn aoe_hits_the_blast_not_the_bystander() {
    let mut world = World::new(floor_map(12, 12));
    let player = spawn(&mut world, 1, 1);
    world.player_entity = player;
    world.player_pos = Point { x: 1, y: 1 };
    world.players.insert(player, Player {});
    world.names.insert(player, Name { name: String::from("Adventurer") });
    let near_a = spawn(&mut world, 5, 5);
    world.monsters.insert(near_a, Monster {});
    world.combat_stats.insert(near_a, CombatStats { max_hp: 16, hp: 16, defense: 1, power: 4 });
    let near_b = spawn(&mut world, 5, 6);
    world.monsters.insert(near_b, Monster {});
    world.combat_stats.insert(near_b, CombatStats { max_hp: 16, hp: 16, defense: 1, power: 4 });
    let far_away = spawn(&mut world, 7, 5);
    world.monsters.insert(far_away, Monster {});
    world.combat_stats.insert(far_away, CombatStats { max_hp: 16, hp: 16, defense: 1, power: 4 });
    let scroll = world.ents.create();
    world.items.insert(scroll, Item {});
    world.names.insert(scroll, Name { name: String::from("Fireball Scroll") });
    world.inflicts_damage.insert(scroll, InflictsDamage { damage: 8 });
    world.aoe.insert(scroll, AreaOfEffect { radius: 1 });
    world.consumables.insert(scroll, Consumable {});
    world.backpacks.insert(scroll, InBackpack { owner: player });
    world
        .use_intents
        .insert(player, WantsToUseItem { item: scroll, target: Some(Point { x: 5, y: 5 }) });
    world.run_state = RunState::PlayerTurn;
    let mut state = State::new(world);
    state.tick(ExternalInput::Nothing);
    // both monsters in the blast take a pending hit; two tiles away takes none
    assert_eq!(state.ecs.suffer_damage.get(near_a).unwrap().amount, vec![8]);
    assert_eq!(state.ecs.suffer_damage.get(near_b).unwrap().amount, vec![8]);
    assert!(state.ecs.suffer_damage.get(far_away).is_none());
    // the consumable is gone after the pass
    assert!(state.ecs.items.get(scroll).is_none());
}

#[test]
fn map_indexing_tracks_a_moved_entity() {
    let mut world = World::new(floor_map(8, 8));
    let e = spawn(&mut world, 2, 2);
    MapIndexingSystem::run(&mut world.map, &world.positions, &world.blockers);
    let old_idx = world.map.xy_idx(2, 2);
    let new_idx = world.map.xy_idx(5, 3);
    assert_eq!(world.map.tile_content[old_idx], vec![e]);
    assert!(world.map.tile_content[new_idx].is_empty());
    world.positions.insert(e, Position { x: 5, y: 3 });
    MapIndexingSystem::run(&mut world.map, &world.positions, &world.blockers);
    assert!(world.map.tile_content[old_idx].is_empty());
    assert_eq!(world.map.tile_content[new_idx], vec![e]);
}

#[test]
fn save_then_load_rebuilds_the_population() {
    let mut world = World::new(floor_map(6, 6));
    let player = spawn(&mut world, 1, 1);
    world.player_entity = player;
    world.player_pos = Point { x: 1, y: 1 };
    world.players.insert(player, Player {});
    world.names.insert(player, Name { name: String::from("Adventurer") });
    world.combat_stats.insert(player, CombatStats { max_hp: 30, hp: 17, defense: 2, power: 5 });
    world.serialize_tags.insert(player, SerializeMe {});
    let monster = spawn(&mut world, 4, 4);
    world.monsters.insert(monster, Monster {});
    world.combat_stats.insert(monster, CombatStats { max_hp: 16, hp: 16, defense: 1, power: 4 });
    world.serialize_tags.insert(monster, SerializeMe {});
    let potion = world.ents.create();
    world.items.insert(potion, Item {});
    world.names.insert(potion, Name { name: String::from("Health Potion") });
    world.provides_healing.insert(potion, ProvidesHealing { heal_amount: 8 });
    world.backpacks.insert(potion, InBackpack { owner: player });
    world.serialize_tags.insert(potion, SerializeMe {});
    world.map.revealed_tiles[7] = true;
    let snap = save_game(&world);
    assert_eq!(snap.entities.len(), 3);
    let created = load_game(&mut world, &snap);
    assert_eq!(created.len(), 3);
    // rows keep ascending id order: player, monster, potion
    let (p2, m2, i2) = (created[0], created[1], created[2]);
    assert_eq!(world.player_entity, p2);
    assert_eq!(world.positions.get(p2), Some(&Position { x: 1, y: 1 }));
    assert_eq!(
        world.combat_stats.get(p2),
        Some(&CombatStats { max_hp: 30, hp: 17, defense: 2, power: 5 })
    );
    assert_eq!(world.names.get(p2).unwrap().name, "Adventurer");
    assert!(world.players.get(p2).is_some());
    assert!(world.monsters.get(m2).is_some());
    assert_eq!(world.positions.get(m2), Some(&Position { x: 4, y: 4 }));
    // the backpack reference was remapped onto the fresh player handle
    assert_eq!(world.backpacks.get(i2).unwrap().owner, p2);
    assert_eq!(world.provides_healing.get(i2).unwrap().heal_amount, 8);
    // the old handles are dead
    assert!(world.positions.get(player).is_none());
    assert!(!world.ents.alive[player.id] || world.ents.gens[player.id] != player.gen);
    // the map came back: tiles, revealed flags, an empty occupancy cache
    assert_eq!(world.map.width, 6);
    assert!(world.map.revealed_tiles[7]);
    assert_eq!(world.map.tile_content.len(), 36);
    assert!(world.map.tile_content.iter().all(|t| t.is_empty()));
}

#[test]
fn bump_moves_attacks_and_respects_walls() {
    let mut world = World::new(floor_map(8, 8));
    let wall_idx = world.map.xy_idx(3, 2);
    world.map.tiles[wall_idx] = TileType::Wall;
    let player = spawn(&mut world, 2, 2);
    world.player_entity = player;
    world.player_pos = Point { x: 2, y: 2 };
    world.players.insert(player, Player {});
    world.viewsheds.insert(
        player,
        Viewshed { visible_tiles: Vec::new(), range: 6, dirty: false },
    );
    let monster = spawn(&mut world, 2, 3);
    world.monsters.insert(monster, Monster {});
    world.combat_stats.insert(monster, CombatStats { max_hp: 16, hp: 16, defense: 1, power: 4 });
    MapIndexingSystem::run(&mut world.map, &world.positions, &world.blockers);
    // bump into the monster: a melee intent, no movement
    try_move_player(
        0,
        1,
        &world.map,
        &world.players,
        &mut world.positions,
        &mut world.viewsheds,
        &world.combat_stats,
        &mut world.melee_intents,
        &mut world.player_pos,
    );
    assert_eq!(world.melee_intents.get(player).unwrap().target, monster);
    assert_eq!(world.positions.get(player), Some(&Position { x: 2, y: 2 }));
    // bump into the wall: nothing happens
    try_move_player(
        1,
        0,
        &world.map,
        &world.players,
        &mut world.positions,
        &mut world.viewsheds,
        &world.combat_stats,
        &mut world.melee_intents,
        &mut world.player_pos,
    );
    assert_eq!(world.positions.get(player), Some(&Position { x: 2, y: 2 }));
    // walk onto a free tile: position, viewshed and resource follow
    try_move_player(
        0,
        -1,
        &world.map,
        &world.players,
        &mut world.positions,
        &mut world.viewsheds,
        &world.combat_stats,
        &mut world.melee_intents,
        &mut world.player_pos,
    );
    assert_eq!(world.positions.get(player), Some(&Position { x: 2, y: 1 }));
    assert!(world.viewsheds.get(player).unwrap().dirty);
    assert_eq!(world.player_pos, Point { x: 2, y: 1 });
}

#[test]
fn picking_up_from_an_empty_tile_only_logs() {
    let mut world = World::new(floor_map(8, 8));
    let player = spawn(&mut world, 2, 2);
    world.player_entity = player;
    world.player_pos = Point { x: 2, y: 2 };
    world.players.insert(player, Player {});
    get_item(
        player,
        world.player_pos,
        &mut world.log,
        &world.items,
        &world.positions,
        &mut world.pickup_intents,
    );
    assert!(world.pickup_intents.get(player).is_none());
    assert_eq!(world.log.entries.last().unwrap(), "There is nothing here to pick up.");
    let rock = spawn(&mut world, 2, 2);
    world.items.insert(rock, Item {});
    get_item(
        player,
        world.player_pos,
        &mut world.log,
        &world.items,
        &world.positions,
        &mut world.pickup_intents,
    );
    let intent = world.pickup_intents.get(player).unwrap();
    assert_eq!(intent.item, rock);
    assert_eq!(intent.collected_by, player);
}

#[test]
fn confusion_scroll_lands_on_the_tile_target() {
    let mut world = World::new(floor_map(12, 12));
    let player = spawn(&mut world, 1, 1);
    world.player_entity = player;
    world.player_pos = Point { x: 1, y: 1 };
    world.players.insert(player, Player {});
    world.names.insert(player, Name { name: String::from("Adventurer") });
    let monster = spawn(&mut world, 6, 6);
    world.monsters.insert(monster, Monster {});
    world.combat_stats.insert(monster, CombatStats { max_hp: 16, hp: 16, defense: 1, power: 4 });
    let scroll = world.ents.create();
    world.items.insert(scroll, Item {});
    world.names.insert(scroll, Name { name: String::from("Confusion Scroll") });
    world.confusion.insert(scroll, Confusion { turns: 4 });
    world.consumables.insert(scroll, Consumable {});
    world.backpacks.insert(scroll, InBackpack { owner: player });
    world
        .use_intents
        .insert(player, WantsToUseItem { item: scroll, target: Some(Point { x: 6, y: 6 }) });
    world.run_state = RunState::PlayerTurn;
    let mut state = State::new(world);
    state.tick(ExternalInput::Nothing);
    assert_eq!(state.ecs.confusion.get(monster).unwrap().turns, 4);
    assert!(state.ecs.items.get(scroll).is_none());
}

#[test]
fn ranged_item_chains_through_targeting() {
    let mut world = World::new(floor_map(10, 10));
    let player = spawn(&mut world, 2, 2);
    world.player_entity = player;
    world.player_pos = Point { x: 2, y: 2 };
    world.players.insert(player, Player {});
    let wand = world.ents.create();
    world.items.insert(wand, Item {});
    world.ranged.insert(wand, Ranged { range: 6 });
    world.backpacks.insert(wand, InBackpack { owner: player });
    world.run_state = RunState::ShowInventory;
    let mut state = State::new(world);
    // selecting a ranged item asks for a tile before producing the intent
    state.tick(ExternalInput::MenuSelected { item: wand });
    assert_eq!(state.ecs.run_state, RunState::ShowTargeting { range: 6, item: wand });
    assert!(state.ecs.use_intents.get(player).is_none());
    state.tick(ExternalInput::TargetSelected { x: 5, y: 4 });
    assert_eq!(state.ecs.run_state, RunState::PlayerTurn);
    let intent = state.ecs.use_intents.get(player).unwrap();
    assert_eq!(intent.item, wand);
    assert_eq!(intent.target, Some(Point { x: 5, y: 4 }));
}

#[test]
fn lethal_monster_turn_reports_game_over() {
    let mut world = World::new(floor_map(10, 10));
    let player = spawn(&mut world, 2, 2);
    world.player_entity = player;
    world.player_pos = Point { x: 2, y: 2 };
    world.players.insert(player, Player {});
    world.combat_stats.insert(player, CombatStats { max_hp: 30, hp: 2, defense: 0, power: 5 });
    let monster = spawn(&mut world, 3, 2);
    world.monsters.insert(monster, Monster {});
    world.combat_stats.insert(monster, CombatStats { max_hp: 16, hp: 16, defense: 1, power: 4 });
    world.viewsheds.insert(
        monster,
        Viewshed { visible_tiles: Vec::new(), range: 6, dirty: true },
    );
    world.run_state = RunState::MonsterTurn;
    let mut state = State::new(world);
    // the adjacent monster's intent becomes damage in the same pass,
    // the player drops to or below zero, and the pass reports it
    let effect = state.tick(ExternalInput::Nothing);
    assert_eq!(effect, TickEffect::GameOver);
    assert!(state.ecs.combat_stats.get(player).unwrap().hp <= 0);
    // a monster that dies the same way is gone instead
    assert_eq!(state.ecs.run_state, RunState::AwaitingInput);
}
