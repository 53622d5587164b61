use dungeon_gen::components::{
    AmuletOfYala, Damage, FieldOfView, Health, Item, Name, Player, Render,
};
use dungeon_gen::map::Point;
use dungeon_gen::spawner::{spawn_amulet_of_yala, spawn_player};
use legion::{Entity, IntoQuery, World};

#[test]
fn test_spawn_player() {
    let mut ecs = World::default();
    let pos = Point::new(10, 10);

    ecs.push(spawn_player(pos));
    assert_eq!(ecs.len(), 1);

    let player_entity = <Entity>::query().iter(&ecs).next().unwrap();
    let player_entry = ecs.entry(*player_entity).unwrap();
    assert!(player_entry.get_component::<Player>().is_ok());
    assert!(player_entry.get_component::<Point>().is_ok());
    assert_eq!(*player_entry.get_component::<Point>().unwrap(), pos);
    assert!(player_entry.get_component::<Render>().is_ok());
    assert!(player_entry.get_component::<Health>().is_ok());
    assert!(player_entry.get_component::<FieldOfView>().is_ok());
    assert!(player_entry.get_component::<Damage>().is_ok());
}

#[test]
fn test_spawn_amulet_of_yala() {
    let mut ecs = World::default();
    let pos = Point::new(10, 10);

    ecs.push(spawn_amulet_of_yala(pos));
    assert_eq!(ecs.len(), 1);

    let amulet_entity = <Entity>::query().iter(&ecs).next().unwrap();
    let amulet_entry = ecs.entry(*amulet_entity).unwrap();
    assert!(amulet_entry.get_component::<Item>().is_ok());
    assert!(amulet_entry.get_component::<Point>().is_ok());
    assert_eq!(*amulet_entry.get_component::<Point>().unwrap(), pos);
    assert!(amulet_entry.get_component::<Render>().is_ok());
    assert!(amulet_entry.get_component::<AmuletOfYala>().is_ok());
    assert!(amulet_entry.get_component::<Name>().is_ok());
}

#[test]
fn spawned_player_stats() {
    let (player, pos, render, health, fov, damage) = spawn_player(Point::new(3, 4));
    assert_eq!(player.map_level, 0);
    assert_eq!(pos, Point::new(3, 4));
    assert_eq!(render.glyph, '@' as u16);
    assert_eq!((render.color.fg.r, render.color.bg.r), (255, 0));
    assert_eq!((health.current, health.max), (10, 10));
    assert_eq!((fov.radius, fov.is_dirty, fov.visible_tiles.len()), (8, true, 0));
    assert_eq!(damage.0, 1);
    let (_, _, _, render, name) = spawn_amulet_of_yala(Point::new(1, 1));
    assert_eq!(render.glyph, '|' as u16);
    assert_eq!(name.0, "Amulet of Yala");
}
