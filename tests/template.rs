use bracket_random::prelude::RandomNumberGenerator;
use dungeon_gen::map::Point;
use dungeon_gen::template::{EntityType, Template, Templates};
use std::collections::HashSet;

fn build_test_item(frequency: i32) -> Template {
    let mut levels = HashSet::new();
    levels.insert(2 as usize);
    levels.insert(3 as usize);

    Template {
        entity_type: EntityType::Item,
        levels,
        frequency,
        name: "Test Item".to_string(),
        glyph: '!',
        provides: None,
        hp: None,
        base_damage: None,
    }
}

fn build_test_enemy(frequency: i32) -> Template {
    let mut levels = HashSet::new();
    levels.insert(2 as usize);
    levels.insert(3 as usize);

    Template {
        entity_type: EntityType::Enemy,
        levels,
        frequency,
        name: "Test Enemy".to_string(),
        glyph: 'O',
        provides: None,
        hp: Some(5),
        base_damage: Some(2),
    }
}

#[test]
fn spawn_nothing() {
    let mut rng = RandomNumberGenerator::new();

    let templates = Templates {
        entities: vec![build_test_item(1)],
    };
    let spawn = vec![];

    let spawned = templates.spawn_entities(&mut rng, 2 as usize, &spawn);
    assert_eq!(spawned.len(), 0);
}

#[test]
fn spawn_one_entity_wrong_level() {
    let mut rng = RandomNumberGenerator::new();

    let templates = Templates {
        entities: vec![build_test_item(1)],
    };
    let spawn = vec![Point::new(10, 10)];

    let spawned = templates.spawn_entities(&mut rng, 1 as usize, &spawn);
    assert_eq!(spawned.len(), 0);
}

#[test]
fn spawn_one_entity_no_frequency() {
    let mut rng = RandomNumberGenerator::new();

    let templates = Templates {
        entities: vec![build_test_item(0)],
    };
    let spawn = vec![Point::new(10, 10)];

    let spawned = templates.spawn_entities(&mut rng, 2 as usize, &spawn);
    assert_eq!(spawned.len(), 0);
}

#[test]
fn spawn_one_consumable() {
    let mut rng = RandomNumberGenerator::new();

    let templates = Templates {
        entities: vec![build_test_item(1)],
    };
    let spawn = vec![Point::new(10, 10)];

    let spawned = templates.spawn_entities(&mut rng, 2 as usize, &spawn);
    assert_eq!(spawned.len(), 1);
}

#[test]
fn spawn_one_enemy() {
    let mut rng = RandomNumberGenerator::new();

    let templates = Templates {
        entities: vec![build_test_enemy(1)],
    };
    let spawn = vec![Point::new(10, 10)];

    let spawned = templates.spawn_entities(&mut rng, 2 as usize, &spawn);
    assert_eq!(spawned.len(), 1);
}

#[test]
fn pool_weights_by_frequency() {
    let mut rng = RandomNumberGenerator::seeded(4);
    let templates = Templates {
        entities: vec![build_test_item(2), build_test_enemy(0), build_test_enemy(3)],
    };
    assert_eq!(templates.available_entities(3), vec![0, 0, 2, 2, 2]);
    assert!(templates.available_entities(7).is_empty());
    let spawn = vec![Point::new(1, 1), Point::new(2, 2)];
    let spawned = templates.spawn_entities(&mut rng, 2, &spawn);
    assert_eq!(spawned.len(), 2);
    assert_eq!(spawned[0].0, Point::new(1, 1));
    assert_eq!(spawned[1].0, Point::new(2, 2));
    assert!(spawned.iter().all(|(_, t)| *t == 0 || *t == 2));
}
