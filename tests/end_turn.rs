use dungeon_gen::components::Health;
use dungeon_gen::map::{GridMap, Point, TileType};
use dungeon_gen::turn::{end_turn, TurnState};

fn run(state: TurnState, health: i32, amulet: Option<Point>, map: &GridMap) -> TurnState {
    let player_pos = Point::new(10, 10);
    let players = vec![(Health { current: health, max: 10 }, player_pos)];
    let mut turn_state = state;
    end_turn(&mut turn_state, &players, amulet, map);
    assert_eq!(players.len(), 1);
    turn_state
}

#[test]
fn awaiting_input_stays() {
    let map = GridMap::new();
    assert_eq!(run(TurnState::AwaitingInput, 10, None, &map), TurnState::AwaitingInput);
}

#[test]
fn monster_turn_after_player_turn() {
    let map = GridMap::new();
    assert_eq!(run(TurnState::PlayerTurn, 10, None, &map), TurnState::MonsterTurn);
}

#[test]
fn awaiting_input_after_monster_turn() {
    let map = GridMap::new();
    assert_eq!(run(TurnState::MonsterTurn, 10, None, &map), TurnState::AwaitingInput);
}

#[test]
fn game_over_if_player_zero_health() {
    let map = GridMap::new();
    assert_eq!(run(TurnState::PlayerTurn, 0, None, &map), TurnState::GameOver);
}

#[test]
fn game_win_if_player_found_amulet() {
    let map = GridMap::new();
    let amulet = Some(Point::new(10, 10));
    assert_eq!(run(TurnState::PlayerTurn, 10, amulet, &map), TurnState::Victory);
}

#[test]
fn next_level_if_player_found_stairs() {
    let mut map = GridMap::new();
    let player_pos = Point::new(10, 10);
    let idx = map.point2d_to_index(player_pos);
    map.tiles[idx] = TileType::Exit;
    assert_eq!(run(TurnState::PlayerTurn, 10, None, &map), TurnState::NextLevel);
}

#[test]
fn finished_games_stay_finished() {
    let map = GridMap::new();
    assert_eq!(run(TurnState::GameOver, 10, None, &map), TurnState::GameOver);
    assert_eq!(run(TurnState::Victory, 10, None, &map), TurnState::Victory);
}

#[test]
fn amulet_elsewhere_does_not_win() {
    let map = GridMap::new();
    let amulet = Some(Point::new(11, 10));
    assert_eq!(run(TurnState::PlayerTurn, 10, amulet, &map), TurnState::MonsterTurn);
}
