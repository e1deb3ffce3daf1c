use blobs::Command;
use blobs::RunState;
use blobs::State;
use blobs::new_game;
use blobs::spawn_blob;
use blobs::spawn_player;
use blobs::blob::BlobAi;
use blobs::components::Position;
use blobs::components::Color;
use blobs::components::SufferDamage;
use blobs::components::WantsToPickupItem;
use blobs::damage_system::DamageSystem;
use blobs::damage_system::delete_the_dead;
use blobs::damage_system::drop_item;
use blobs::gui::MenuResult;
use blobs::gui::show_menu;
use blobs::rect::Rect;
use blobs::inventory::ItemCollectionSystem;
use blobs::map::GameMap;
use blobs::map::TileType;
use blobs::map_index::MapIndexingSystem;
use blobs::melee::MeleeCombatSystem;
use blobs::pathing::find_path;
use blobs::player::get_item;
use blobs::player::try_move_player;
use blobs::rng::Rng;
use blobs::view::VisibilitySystem;
use blobs::world::World;

fn flat_map() -> GameMap {
    let count = 80usize * 43usize;
    GameMap {
        tiles: vec![TileType::Floor; count],
        rooms: Vec::new(),
        width: 80,
        height: 43,
        occupied: vec![false; count],
        tile_content: vec![Vec::new(); count],
    }
}

fn state_with(ecs: World, map: GameMap, player: usize, pos: Position, rs: RunState) -> State {
    State { ecs, map, player_entity: player, player_pos: pos, run_state: rs }
}

#[test]
fn index_maps_rows() {
    let map = flat_map();
    assert_eq!(map.index(0, 0), 0);
    assert_eq!(map.index(79, 0), 79);
    assert_eq!(map.index(0, 1), 80);
    assert_eq!(map.index(7, 3), 3 * 80 + 7);
}

#[test]
fn roll_dice_stays_in_range() {
    let mut rng = Rng::new(42);
    for _ in 0..200 {
        let r = rng.roll_dice(1, 6);
        assert!((1..=6).contains(&r));
        let r3 = rng.roll_dice(3, 4);
        assert!((3..=12).contains(&r3));
    }
}

#[test]
fn map_gen_places_disjoint_rooms() {
    let mut rng = Rng::new(7);
    let map = GameMap::map_gen(&mut rng);
    assert_eq!(map.width, 80);
    assert_eq!(map.height, 43);
    assert_eq!(map.tiles.len(), 80 * 43);
    assert_eq!(map.rooms.len(), 4);
    for i in 0..map.rooms.len() {
        let room = &map.rooms[i];
        assert_eq!(room.x2 - room.x1, 9);
        assert_eq!(room.y2 - room.y1, 7);
        for j in 0..map.rooms.len() {
            if i != j {
                assert!(!map.rooms[i].intersect(&map.rooms[j]));
            }
        }
    }
}

#[test]
fn occupancy_matches_walls_and_blockers() {
    // The occupancy indexer leaves a tile occupied exactly when it is
    // a wall or corner, or a blocking entity stands on it.
    let mut map = flat_map();
    let wall = map.index(10, 10);
    map.tiles[wall] = TileType::HWall;
    let mut ecs = World::new();
    let _p = spawn_player(&mut ecs, 2, 2);
    let b = spawn_blob(&mut ecs, 20, 20, 5);
    let mut idx = MapIndexingSystem {};
    idx.run(&ecs, &mut map);
    assert!(map.occupied[wall]);
    let blob_tile = map.index(20, 20);
    assert!(map.occupied[blob_tile]);
    // the player does not block its tile
    let player_tile = map.index(2, 2);
    assert!(!map.occupied[player_tile]);
    // plain floor stays free
    assert!(!map.occupied[map.index(40, 40)]);
    // content lists hold exactly the entities standing there
    assert_eq!(map.tile_content[blob_tile], vec![b]);
    assert_eq!(map.tile_content[player_tile], vec![0usize]);
    assert!(map.tile_content[map.index(40, 40)].is_empty());
}

#[test]
fn adjacent_hostile_attacks_and_stays() {
    // A hostile within Euclidean distance 1.5 queues a melee intent
    // and does not move.
    let mut map = flat_map();
    let mut ecs = World::new();
    let player = spawn_player(&mut ecs, 5, 5);
    let blob = spawn_blob(&mut ecs, 4, 4, 5);
    let mut idx = MapIndexingSystem {};
    idx.run(&ecs, &mut map);
    let mut vis = VisibilitySystem {};
    vis.run(&mut ecs, &map);
    let mut ai = BlobAi {};
    ai.run(&mut ecs, &mut map, player, Position { x: 5, y: 5 });
    let intent = ecs.wants_melee[blob].expect("intent queued");
    assert_eq!(intent.target, player);
    assert_eq!(ecs.positions[blob], Some(Position { x: 4, y: 4 }));
}

#[test]
fn visible_hostile_pursues_along_path() {
    // A hostile out of reach that sees the player steps onto the
    // path's first tile and moves its occupancy bit along.
    let mut map = flat_map();
    let mut ecs = World::new();
    let player = spawn_player(&mut ecs, 5, 5);
    let blob = spawn_blob(&mut ecs, 5, 2, 5);
    let mut idx = MapIndexingSystem {};
    idx.run(&ecs, &mut map);
    let mut vis = VisibilitySystem {};
    vis.run(&mut ecs, &map);
    let mut ai = BlobAi {};
    ai.run(&mut ecs, &mut map, player, Position { x: 5, y: 5 });
    assert_eq!(ecs.positions[blob], Some(Position { x: 5, y: 3 }));
    assert!(ecs.wants_melee[blob].is_none());
    assert!(!map.occupied[map.index(5, 2)]);
    assert!(map.occupied[map.index(5, 3)]);
}

#[test]
fn hostile_without_sight_stays_put() {
    // A wall between hostile and player blocks sight, so the hostile
    // idles.
    let mut map = flat_map();
    for x in 0..80 {
        let w = map.index(x, 4);
        map.tiles[w] = TileType::HWall;
    }
    let mut ecs = World::new();
    let player = spawn_player(&mut ecs, 5, 6);
    let blob = spawn_blob(&mut ecs, 5, 2, 5);
    let mut idx = MapIndexingSystem {};
    idx.run(&ecs, &mut map);
    let mut vis = VisibilitySystem {};
    vis.run(&mut ecs, &map);
    let mut ai = BlobAi {};
    ai.run(&mut ecs, &mut map, player, Position { x: 5, y: 6 });
    assert_eq!(ecs.positions[blob], Some(Position { x: 5, y: 2 }));
    assert!(ecs.wants_melee[blob].is_none());
}

#[test]
fn doors_do_not_block_sight() {
    // Sight passes through a door in an otherwise solid wall.
    let mut map = flat_map();
    for x in 0..80 {
        let w = map.index(x, 4);
        map.tiles[w] = TileType::HWall;
    }
    let door = map.index(5, 4);
    map.tiles[door] = TileType::HDoor;
    let mut ecs = World::new();
    let player = spawn_player(&mut ecs, 5, 6);
    let blob = spawn_blob(&mut ecs, 5, 2, 5);
    let mut idx = MapIndexingSystem {};
    idx.run(&ecs, &mut map);
    let mut vis = VisibilitySystem {};
    vis.run(&mut ecs, &map);
    let vs = ecs.viewsheds[blob].as_ref().expect("viewshed");
    assert!(vs.visible_tiles.contains(&Position { x: 5, y: 6 }));
    let mut ai = BlobAi {};
    ai.run(&mut ecs, &mut map, player, Position { x: 5, y: 6 });
    // the hostile moved towards the door
    assert_eq!(ecs.positions[blob], Some(Position { x: 5, y: 3 }));
}

#[test]
fn sight_is_symmetric() {
    let mut map = flat_map();
    // a few scattered walls
    for &(x, y) in &[(4, 4), (6, 5), (5, 7), (8, 3)] {
        let w = map.index(x, y);
        map.tiles[w] = TileType::VWall;
    }
    let mut ecs = World::new();
    let _player = spawn_player(&mut ecs, 3, 3);
    let blob = spawn_blob(&mut ecs, 9, 8, 5);
    let mut vis = VisibilitySystem {};
    vis.run(&mut ecs, &map);
    let sees_blob = ecs.viewsheds[0]
        .as_ref()
        .unwrap()
        .visible_tiles
        .contains(&Position { x: 9, y: 8 });
    let sees_player = ecs.viewsheds[blob]
        .as_ref()
        .unwrap()
        .visible_tiles
        .contains(&Position { x: 3, y: 3 });
    assert_eq!(sees_blob, sees_player);
}

#[test]
fn pathfinding_round_trip() {
    let mut map = flat_map();
    let start = map.index(2, 2);
    let goal = map.index(10, 7);
    let path = find_path(&map, start, goal).expect("open floor connects");
    assert_eq!(path[0], start);
    assert_eq!(*path.last().unwrap(), goal);
    // a shortest walk: eight steps east, five south, in some order
    assert_eq!(path.len(), 14);
    // consecutive steps are cardinal neighbours
    for w in path.windows(2) {
        let (a, b) = (w[0] as i64, w[1] as i64);
        let d = (a - b).abs();
        assert!(d == 1 || d == 80);
    }
    // a sealed box is unreachable
    for (dx, dy) in [(-1, 0), (1, 0), (0, -1), (0, 1)] {
        let wx = (20 + dx) as i32;
        let wy = (20 + dy) as i32;
        let w = map.index(wx, wy);
        map.tiles[w] = TileType::VWall;
        map.occupied[w] = true;
    }
    assert!(find_path(&map, start, map.index(20, 20)).is_none());
}

#[test]
fn melee_hits_append_single_points() {
    let mut map = flat_map();
    let mut ecs = World::new();
    let player = spawn_player(&mut ecs, 5, 5);
    let b1 = spawn_blob(&mut ecs, 4, 5, 1);
    let b2 = spawn_blob(&mut ecs, 6, 5, 2);
    let mut idx = MapIndexingSystem {};
    idx.run(&ecs, &mut map);
    let mut vis = VisibilitySystem {};
    vis.run(&mut ecs, &map);
    let mut ai = BlobAi {};
    ai.run(&mut ecs, &mut map, player, Position { x: 5, y: 5 });
    let mut melee = MeleeCombatSystem {};
    let log = melee.run(&mut ecs);
    assert_eq!(log.len(), 2);
    assert_eq!(log[0].attacker, b1);
    assert_eq!(log[1].attacker, b2);
    assert!(log.iter().all(|r| r.target == player && r.amount == 1));
    let dmg = ecs.suffer_damage[player].as_ref().expect("damage queued");
    assert_eq!(dmg.amount, vec![1, 1]);
    assert!(ecs.wants_melee.iter().all(|w| w.is_none()));
}

#[test]
fn damage_is_order_independent() {
    // Applying the same multiset of hits in any order drains the same
    // total.
    let mut hp_results = Vec::new();
    for amounts in [vec![1, 2, 3], vec![3, 1, 2], vec![2, 3, 1]] {
        let mut ecs = World::new();
        let victim = spawn_player(&mut ecs, 5, 5);
        ecs.suffer_damage[victim] = Some(SufferDamage { amount: amounts });
        let mut damage = DamageSystem {};
        damage.run(&mut ecs);
        hp_results.push(ecs.combat_stats[victim].unwrap().hp);
        assert!(ecs.suffer_damage[victim].is_none());
    }
    assert!(hp_results.iter().all(|&h| h == 10 - 6));
}

#[test]
fn accumulated_unit_hits_subtract_their_count() {
    let mut ecs = World::new();
    let victim = spawn_player(&mut ecs, 5, 5);
    let mut store = std::mem::take(&mut ecs.suffer_damage);
    for _ in 0..4 {
        SufferDamage::new_damage(&mut store, victim, 1);
    }
    ecs.suffer_damage = store;
    assert_eq!(ecs.suffer_damage[victim].as_ref().unwrap().amount, vec![1, 1, 1, 1]);
    let mut damage = DamageSystem {};
    damage.run(&mut ecs);
    assert_eq!(ecs.combat_stats[victim].unwrap().hp, 6);
}

#[test]
fn dead_hostile_leaves_one_loot_item() {
    // A hostile that drops to zero is removed and exactly one item
    // appears at its last position.
    let mut ecs = World::new();
    let _player = spawn_player(&mut ecs, 5, 5);
    let blob = spawn_blob(&mut ecs, 9, 9, 5);
    ecs.suffer_damage[blob] = Some(SufferDamage { amount: vec![1] });
    let mut damage = DamageSystem {};
    damage.run(&mut ecs);
    assert_eq!(ecs.combat_stats[blob].unwrap().hp, 0);
    let before = ecs.alive.iter().filter(|a| **a).count();
    let dropped = delete_the_dead(&mut ecs);
    let after = ecs.alive.iter().filter(|a| **a).count();
    // one entity died, one loot entity appeared
    assert_eq!(after, before);
    assert!(!ecs.alive[blob]);
    let item = dropped.expect("loot dropped");
    assert!(ecs.items[item]);
    assert_eq!(ecs.positions[item], Some(Position { x: 9, y: 9 }));
    // grey hostiles drop the healing item
    assert_eq!(ecs.names[item].as_ref().unwrap().name, "Health");
    assert_eq!(ecs.heals[item].unwrap().heal_amount, 4);
    // exactly one new entity was created
    assert_eq!(ecs.alive.len(), 3);
}

#[test]
fn colored_hostile_drops_matching_crystal() {
    let mut ecs = World::new();
    let _player = spawn_player(&mut ecs, 5, 5);
    let blob = spawn_blob(&mut ecs, 9, 9, 1);
    assert_eq!(ecs.names[blob].as_ref().unwrap().name, "RED");
    ecs.suffer_damage[blob] = Some(SufferDamage { amount: vec![1] });
    let mut damage = DamageSystem {};
    damage.run(&mut ecs);
    let dropped = delete_the_dead(&mut ecs).expect("loot dropped");
    assert_eq!(ecs.names[dropped].as_ref().unwrap().name, "RED");
    let r = ecs.renderables[dropped].unwrap();
    assert_eq!(r.fg, Color::Red);
    assert_eq!(r.glyph, '\u{2666}');
}

#[test]
fn drop_item_color_table() {
    let mut ecs = World::new();
    for (name, color, glyph) in [
        ("RED", Color::Red, '\u{2666}'),
        ("BLUE", Color::Blue, '\u{2666}'),
        ("PURPLE", Color::Purple, '\u{2666}'),
        ("YELLOW", Color::Yellow, '\u{2666}'),
        ("TEAL", Color::Grey, '\u{2666}'),
        ("GREY", Color::Red, '+'),
    ] {
        let e = drop_item(&mut ecs, 1, 2, name.to_string());
        let r = ecs.renderables[e].unwrap();
        assert_eq!(r.fg, color);
        assert_eq!(r.glyph, glyph);
        let stored = &ecs.names[e].as_ref().unwrap().name;
        if name == "GREY" {
            assert_eq!(stored, "Health");
        } else {
            assert_eq!(stored, name);
        }
    }
}

#[test]
fn pickup_moves_item_into_inventory() {
    // Round trip: a picked-up item loses its position and gains an
    // inventory record; it never holds both.
    let mut ecs = World::new();
    let player = spawn_player(&mut ecs, 5, 5);
    let item = drop_item(&mut ecs, 5, 5, "GREY".to_string());
    assert!(ecs.positions[item].is_some());
    assert!(ecs.inventories[item].is_none());
    ecs.wants_pickup[player] = Some(WantsToPickupItem { collected_by: player, item });
    let mut pickup = ItemCollectionSystem {};
    pickup.run(&mut ecs);
    assert!(ecs.positions[item].is_none());
    assert_eq!(ecs.inventories[item].unwrap().owner, player);
    assert!(ecs.wants_pickup.iter().all(|w| w.is_none()));
}

#[test]
fn get_item_requests_item_under_player() {
    let map = flat_map();
    let mut ecs = World::new();
    let player = spawn_player(&mut ecs, 5, 5);
    let item = drop_item(&mut ecs, 5, 5, "GREY".to_string());
    let mut gs = state_with(ecs, map, player, Position { x: 5, y: 5 }, RunState::AwaitingInput);
    get_item(&mut gs);
    let intent = gs.ecs.wants_pickup[player].expect("pickup queued");
    assert_eq!(intent.item, item);
    assert_eq!(intent.collected_by, player);
}

#[test]
fn try_move_player_respects_occupancy() {
    let mut map = flat_map();
    let wall = map.index(6, 5);
    map.tiles[wall] = TileType::VWall;
    let mut ecs = World::new();
    let player = spawn_player(&mut ecs, 5, 5);
    let mut idx = MapIndexingSystem {};
    idx.run(&ecs, &mut map);
    let mut gs = state_with(ecs, map, player, Position { x: 5, y: 5 }, RunState::AwaitingInput);
    // east is a wall: no move
    try_move_player(1, 0, &mut gs);
    assert_eq!(gs.player_pos, Position { x: 5, y: 5 });
    // north is free
    try_move_player(0, -1, &mut gs);
    assert_eq!(gs.player_pos, Position { x: 5, y: 4 });
    assert_eq!(gs.ecs.positions[player], Some(Position { x: 5, y: 4 }));
}

#[test]
fn scheduler_transitions_follow_the_contract() {
    let map = flat_map();
    let mut ecs = World::new();
    let player = spawn_player(&mut ecs, 5, 5);
    let mut gs = state_with(ecs, map, player, Position { x: 5, y: 5 }, RunState::PreRun);
    gs.tick(None);
    assert_eq!(gs.run_state, RunState::AwaitingInput);
    gs.tick(None);
    assert_eq!(gs.run_state, RunState::AwaitingInput);
    gs.tick(Some(Command::OpenMenu));
    assert_eq!(gs.run_state, RunState::Menu);
    gs.tick(Some(Command::MoveEast));
    assert_eq!(gs.run_state, RunState::Menu);
    gs.tick(Some(Command::OpenMenu));
    assert_eq!(gs.run_state, RunState::AwaitingInput);
    gs.tick(Some(Command::MoveEast));
    assert_eq!(gs.run_state, RunState::PlayerTurn);
    assert_eq!(gs.player_pos, Position { x: 6, y: 5 });
    gs.tick(None);
    assert_eq!(gs.run_state, RunState::BlobTurn);
    gs.tick(None);
    assert_eq!(gs.run_state, RunState::AwaitingInput);
}

#[test]
fn full_tick_adjacent_hostile_scenario() {
    // Player at full health, one adjacent one-point hostile: after a
    // full turn the hostile has attacked, the player lost one hit
    // point, and the hostile is unharmed and alive.
    let map = flat_map();
    let mut ecs = World::new();
    let player = spawn_player(&mut ecs, 5, 5);
    let blob = spawn_blob(&mut ecs, 4, 5, 5);
    let mut gs = state_with(ecs, map, player, Position { x: 5, y: 5 }, RunState::PlayerTurn);
    let log = gs.tick(None);
    assert_eq!(log.len(), 1);
    assert_eq!(log[0].attacker, blob);
    assert_eq!(log[0].target, player);
    assert_eq!(log[0].amount, 1);
    assert_eq!(gs.ecs.combat_stats[player].unwrap().hp, 9);
    assert_eq!(gs.ecs.combat_stats[blob].unwrap().hp, 1);
    assert!(gs.ecs.alive[blob]);
}

#[test]
fn dying_hostile_is_replaced_by_loot_in_a_tick() {
    // A hostile at one hit point that takes a point of damage this
    // tick disappears and exactly one item stands at its tile.
    let map = flat_map();
    let mut ecs = World::new();
    let player = spawn_player(&mut ecs, 5, 5);
    let blob = spawn_blob(&mut ecs, 30, 30, 5);
    ecs.suffer_damage[blob] = Some(SufferDamage { amount: vec![1] });
    let mut gs = state_with(ecs, map, player, Position { x: 5, y: 5 }, RunState::BlobTurn);
    let hostiles_before =
        gs.ecs.alive.iter().enumerate().filter(|(e, a)| **a && gs.ecs.blobs[*e]).count();
    gs.tick(None);
    let hostiles_after =
        gs.ecs.alive.iter().enumerate().filter(|(e, a)| **a && gs.ecs.blobs[*e]).count();
    assert_eq!(hostiles_after, hostiles_before - 1);
    let items_there: Vec<usize> = (0..gs.ecs.alive.len())
        .filter(|&e| {
            gs.ecs.alive[e]
                && gs.ecs.items[e]
                && gs.ecs.positions[e] == Some(Position { x: 30, y: 30 })
        })
        .collect();
    assert_eq!(items_there.len(), 1);
}

#[test]
fn contested_tile_is_claimed_by_one_hostile() {
    // Two hostiles pathing towards the player never end on the same
    // tile, and the bitmap shows no double occupancy.
    let mut map = flat_map();
    let mut ecs = World::new();
    let player = spawn_player(&mut ecs, 5, 6);
    let b1 = spawn_blob(&mut ecs, 4, 4, 5);
    let b2 = spawn_blob(&mut ecs, 6, 4, 5);
    let mut idx = MapIndexingSystem {};
    idx.run(&ecs, &mut map);
    let mut vis = VisibilitySystem {};
    vis.run(&mut ecs, &map);
    let mut ai = BlobAi {};
    ai.run(&mut ecs, &mut map, player, Position { x: 5, y: 6 });
    idx.run(&ecs, &mut map);
    let p1 = ecs.positions[b1].unwrap();
    let p2 = ecs.positions[b2].unwrap();
    assert_ne!((p1.x, p1.y), (p2.x, p2.y));
    // both tiles are marked, and no tile holds two blockers
    assert!(map.occupied[map.index(p1.x, p1.y)]);
    assert!(map.occupied[map.index(p2.x, p2.y)]);
    for content in &map.tile_content {
        let blockers = content.iter().filter(|e| ecs.blocks_tiles[**e]).count();
        assert!(blockers <= 1);
    }
}

#[test]
fn new_game_starts_ready() {
    let gs = new_game(123);
    assert_eq!(gs.run_state, RunState::PreRun);
    // the player starts at the centre of the first room
    let first = &gs.map.rooms[0];
    assert_eq!(gs.player_pos.x, (first.x1 + first.x2) / 2);
    assert_eq!(gs.player_pos.y, (first.y1 + first.y2) / 2);
    assert!(gs.ecs.alive[gs.player_entity]);
    assert!(gs.ecs.players[gs.player_entity]);
    assert!(gs.ecs.alive.len() <= 9);
    assert_eq!(gs.ecs.positions[gs.player_entity], Some(gs.player_pos));
    // deterministic for a fixed seed
    let gs2 = new_game(123);
    assert_eq!(gs2.player_pos, gs.player_pos);
    assert_eq!(gs2.ecs.alive.len(), gs.ecs.alive.len());
}

#[test]
fn player_input_dispatch() {
    let map = flat_map();
    let mut ecs = World::new();
    let player = spawn_player(&mut ecs, 5, 5);
    let mut gs = state_with(ecs, map, player, Position { x: 5, y: 5 }, RunState::AwaitingInput);
    let rs0 = blobs::player::player_input(&mut gs, None);
    assert_eq!(rs0, RunState::AwaitingInput);
    let rs = blobs::player::player_input(&mut gs, Some(Command::OpenMenu));
    assert_eq!(rs, RunState::Menu);
    let rs2 = blobs::player::player_input(&mut gs, Some(Command::MoveEast));
    assert_eq!(rs2, RunState::PlayerTurn);
    assert_eq!(gs.player_pos, Position { x: 6, y: 5 });
}

#[test]
fn map_query_helpers() {
    let mut map = flat_map();
    let wall = map.index(3, 3);
    map.tiles[wall] = TileType::Cul;
    let door = map.index(4, 3);
    map.tiles[door] = TileType::VDoor;
    assert!(map.is_opaque(wall));
    assert!(!map.is_opaque(door));
    assert!(!map.is_opaque(map.index(5, 5)));
    assert_eq!(map.dimensions(), (80, 43));
    // squared Euclidean distance between (0,0) and (3,4)
    let a = map.index(0, 0);
    let b = map.index(3, 4);
    assert_eq!(map.get_pathing_distance(a, b), 25);
    assert_eq!(map.get_pathing_distance(b, a), 25);
}

#[test]
fn menu_maps_only_the_menu_key_to_cancel() {
    assert_eq!(show_menu(Some(Command::OpenMenu)), MenuResult::Cancel);
    assert_eq!(show_menu(Some(Command::MoveWest)), MenuResult::NoResponse);
    assert_eq!(show_menu(None), MenuResult::NoResponse);
}

#[test]
fn rect_geometry() {
    let a = Rect::new(2, 3, 8, 6);
    assert_eq!((a.x1, a.y1, a.x2, a.y2), (2, 3, 10, 9));
    assert_eq!(a.center(), (6, 6));
    assert!(a.inside((5, 5)));
    assert!(!a.inside((2, 5)));
    let b = Rect::new(10, 9, 4, 4);
    assert!(a.intersect(&b));
    let c = Rect::new(30, 30, 3, 3);
    assert!(!a.intersect(&c));
}

#[test]
fn generated_rooms_have_midpoint_doors() {
    let mut rng = Rng::new(99);
    let map = GameMap::map_gen(&mut rng);
    assert!(!map.rooms.is_empty());
    for room in &map.rooms {
        // one door at the midpoint of the top and bottom wall rows
        let door_x = room.x1 + 1 + (room.x2 - room.x1) / 2;
        let top = map.index(door_x, room.y1 + 1);
        let bottom = map.index(door_x, room.y2);
        assert_eq!(map.tiles[top], TileType::HDoor);
        assert_eq!(map.tiles[bottom], TileType::HDoor);
        // corners are drawn as corners
        assert_eq!(map.tiles[map.index(room.x1 + 1, room.y1 + 1)], TileType::Cul);
        assert_eq!(map.tiles[map.index(room.x2, room.y2)], TileType::Clr);
    }
}

#[test]
fn hud_lists_carried_item_names() {
    let mut ecs = World::new();
    let player = spawn_player(&mut ecs, 5, 5);
    let red = drop_item(&mut ecs, 5, 5, "RED".to_string());
    let health = drop_item(&mut ecs, 5, 5, "GREY".to_string());
    let elsewhere = drop_item(&mut ecs, 7, 7, "BLUE".to_string());
    for item in [red, health] {
        ecs.wants_pickup[player] = Some(WantsToPickupItem { collected_by: player, item });
        let mut pickup = ItemCollectionSystem {};
        pickup.run(&mut ecs);
    }
    let names = blobs::gui::inventory_names(&ecs, player);
    assert_eq!(names, vec!["RED".to_string(), "Health".to_string()]);
    assert!(ecs.positions[elsewhere].is_some());
}
