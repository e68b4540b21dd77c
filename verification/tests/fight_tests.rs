use dungeon::Entity;
use dungeon::EntityType;
use dungeon::Fight;

fn roster() -> Vec<Entity> {
    vec![
        Entity {
            name: "Hero".to_string(),
            type_: EntityType::Player,
            hp: 30,
            meele_weapon: None,
            ranged_weapon: None,
            at: None,
            aw: None,
        },
        Entity {
            name: "Wolf".to_string(),
            type_: EntityType::Enemy,
            hp: 8,
            meele_weapon: None,
            ranged_weapon: None,
            at: Some(6),
            aw: Some(4),
        },
    ]
}

#[test]
fn test_fight_new_starts_empty() {
    let f = Fight::new(roster());
    assert_eq!(f.entities.len(), 2);
    assert_eq!(f.iniative.len(), 0);
    assert_eq!(f.round, 0);
}

#[test]
fn test_fight_ini_rolls_one_value_per_entity() {
    let mut f = Fight::new(roster());
    f.ini();
    assert_eq!(f.iniative.len(), 2);
    for v in &f.iniative {
        assert!(0 <= *v && *v < 12);
    }
    // rolling again replaces the values, one per entity as before
    f.ini();
    assert_eq!(f.iniative.len(), 2);
}

#[test]
fn test_fight_start_counts_rounds() {
    let mut f = Fight::new(roster());
    f.start();
    assert_eq!(f.round, 1);
    f.start();
    assert_eq!(f.round, 2);
}
