use crate::components::Health;
use crate::map::{idx_spec, in_bounds_spec, GridMap, Point, TileType};
use vstd::prelude::*;

verus! {

/// The states of the game's turn loop.
#[derive(Clone, Copy, Debug, PartialEq, Eq, Structural)]
pub enum TurnState {
    AwaitingInput,
    PlayerTurn,
    MonsterTurn,
    GameOver,
    Victory,
    NextLevel,
}

/// The state that follows a finished turn, before the player checks.
pub open spec fn next_state(s: TurnState) -> TurnState {
    match s {
        TurnState::PlayerTurn => TurnState::MonsterTurn,
        TurnState::MonsterTurn => TurnState::AwaitingInput,
        _ => s,
    }
}

/// One player's checks, in order: dead, on the amulet, on an exit tile; a
/// later check that holds overrides an earlier one.
pub open spec fn player_check(
    s: TurnState,
    hp: Health,
    pos: Point,
    amulet: Option<Point>,
    tiles: Seq<TileType>,
) -> TurnState {
    let s1 = if hp.current < 1 {
        TurnState::GameOver
    } else {
        s
    };
    let s2 = if amulet == Some(pos) {
        TurnState::Victory
    } else {
        s1
    };
    if tiles[idx_spec(pos)] == TileType::Exit {
        TurnState::NextLevel
    } else {
        s2
    }
}

/// The checks of every player applied in order.
pub open spec fn check_players(
    s: TurnState,
    players: Seq<(Health, Point)>,
    amulet: Option<Point>,
    tiles: Seq<TileType>,
) -> TurnState
    decreases players.len(),
{
    if players.len() == 0 {
        s
    } else {
        player_check(
            check_players(s, players.drop_last(), amulet, tiles),
            players.last().0,
            players.last().1,
            amulet,
            tiles,
        )
    }
}

/// Moves the turn loop on at the end of a turn. While the game awaits input
/// nothing changes; otherwise the turn passes (player to monsters, monsters
/// to input) and then each player (hit points and position) is checked: a
/// dead player ends the game, one standing on the amulet (if there is one)
/// wins it, and one on an exit tile goes down a level.
pub fn end_turn(
    turn_state: &mut TurnState,
    players: &Vec<(Health, Point)>,
    amulet: Option<Point>,
    map: &GridMap,
)
    requires
        map.wf(),
        forall|k: int| 0 <= k < players@.len() ==> in_bounds_spec(#[trigger] players@[k].1),
    ensures
        *old(turn_state) == TurnState::AwaitingInput ==> *final(turn_state)
            == TurnState::AwaitingInput,
        *old(turn_state) != TurnState::AwaitingInput ==> *final(turn_state) == check_players(
            next_state(*old(turn_state)),
            players@,
            amulet,
            map.tiles@,
        ),
{
    let current_state = *turn_state;
    let mut new_state = match current_state {
        TurnState::AwaitingInput => {
            return ;
        },
        TurnState::PlayerTurn => TurnState::MonsterTurn,
        TurnState::MonsterTurn => TurnState::AwaitingInput,
        _ => current_state,
    };
    let mut i: usize = 0;
    while i < players.len()
        invariant
            map.wf(),
            i <= players@.len(),
            forall|k: int| 0 <= k < players@.len() ==> in_bounds_spec(#[trigger] players@[k].1),
            new_state == check_players(
                next_state(current_state),
                players@.subrange(0, i as int),
                amulet,
                map.tiles@,
            ),
        decreases players@.len() - i,
    {
        let (hp, pos) = players[i];
        proof {
            assert(players@.subrange(0, i as int + 1).drop_last() =~= players@.subrange(
                0,
                i as int,
            ));
        }
        if hp.current < 1 {
            new_state = TurnState::GameOver;
        }
        if amulet == Some(pos) {
            new_state = TurnState::Victory;
        }
        let idx = map.point2d_to_index(pos);
        if map.tiles[idx] == TileType::Exit {
            new_state = TurnState::NextLevel;
        }
        i = i + 1;
    }
    assert(players@.subrange(0, players@.len() as int) =~= players@);
    *turn_state = new_state;
}

} // verus!
