use basis::{Component, ComponentStorage, EntityManager, Resource, ResourcesManager, Schedule,
    System, World};

#[derive(Debug, PartialEq, Clone, Copy)]
struct Position {
    x: i32,
}

#[derive(Debug, PartialEq, Clone, Copy)]
struct Velocity {
    v: i32,
}

#[derive(Debug, PartialEq, Clone, Copy)]
enum GameComponent {
    Position(Position),
    Velocity(Velocity),
}

impl Component for GameComponent {}

const POSITION: usize = 0;
const VELOCITY: usize = 1;

#[derive(Debug, PartialEq, Clone, Copy)]
struct Health(u64);

impl Component for Health {}

#[derive(Debug, PartialEq, Clone, Copy)]
enum GameResource {
    Deltatime(u32),
    Score(u64),
}

impl Resource for GameResource {}

const DELTATIME: usize = 0;
const SCORE: usize = 1;

#[test]
fn active_ids_are_unique_after_many_creates_and_destroys() {
    let mut manager = EntityManager::default();
    let mut issued = Vec::new();
    for _ in 0..10 {
        issued.push(manager.create());
    }
    manager.destroy(3);
    manager.destroy(7);
    manager.create();
    let active = manager.active_entities();
    for i in 0..active.len() {
        for j in (i + 1)..active.len() {
            assert_ne!(active[i], active[j]);
        }
    }
    assert_eq!(issued.len(), 10);
}

#[test]
fn destroyed_id_is_excluded_until_recreated() {
    let mut manager = EntityManager::default();
    let a = manager.create();
    let b = manager.create();
    manager.destroy(a);
    let active = manager.active_entities();
    assert!(!active.contains(&a));
    assert!(active.contains(&b));
    let again = manager.create();
    assert_eq!(again, a);
    assert!(manager.active_entities().contains(&a));
}

#[test]
fn scenario_create_three_destroy_one_create_returns_it() {
    let mut manager = EntityManager::default();
    assert_eq!(manager.create(), 0);
    assert_eq!(manager.create(), 1);
    assert_eq!(manager.create(), 2);
    manager.destroy(1);
    assert_eq!(manager.active_entities(), vec![0, 2]);
    assert_eq!(manager.create(), 1);
}

#[test]
fn storage_insert_grows_without_disturbing_lower_slots() {
    let mut storage: ComponentStorage<Health> = ComponentStorage::new();
    storage.insert(0, Health(10));
    storage.insert(1, Health(11));
    storage.insert(5, Health(15));
    assert_eq!(storage.get(0), Some(&Health(10)));
    assert_eq!(storage.get(1), Some(&Health(11)));
    assert_eq!(storage.get(2), None);
    assert_eq!(storage.get(5), Some(&Health(15)));
}

#[test]
fn storage_is_empty_by_default() {
    let storage: ComponentStorage<Health> = ComponentStorage::new();
    assert_eq!(storage.get(0), None);
    assert_eq!(storage.get(100), None);
}

#[test]
fn storage_insert_twice_keeps_only_the_second_value() {
    let mut storage: ComponentStorage<Health> = ComponentStorage::new();
    storage.insert(4, Health(1));
    storage.insert(4, Health(2));
    assert_eq!(storage.get(4), Some(&Health(2)));
}

#[test]
fn storage_get_mut_writes_through_and_remove_clears() {
    let mut storage: ComponentStorage<Health> = ComponentStorage::new();
    storage.insert(2, Health(5));
    if let Some(slot) = storage.get_mut(2) {
        *slot = Health(9);
    }
    assert_eq!(storage.get(2), Some(&Health(9)));
    assert_eq!(storage.get_mut(3), None);
    storage.remove(2);
    assert_eq!(storage.get(2), None);
    storage.remove(99);
}

#[test]
fn scenario_component_on_one_entity_only() {
    let mut world: World<GameComponent> = World::default();
    world.add_entity_component(POSITION, 5, GameComponent::Position(Position { x: 1 }));
    assert_eq!(
        world.with_components_1(POSITION, 5),
        Some(&GameComponent::Position(Position { x: 1 }))
    );
    assert_eq!(world.with_components_1(POSITION, 6), None);
}

#[test]
fn scenario_two_component_join() {
    let mut world: World<GameComponent> = World::default();
    world.add_entity_component(POSITION, 3, GameComponent::Position(Position { x: 7 }));
    world.add_entity_component(VELOCITY, 3, GameComponent::Velocity(Velocity { v: 2 }));
    world.add_entity_component(POSITION, 4, GameComponent::Position(Position { x: 8 }));

    let (p, v) = world.with_components_mut_2(POSITION, VELOCITY, 3);
    assert_eq!(p, Some(&mut GameComponent::Position(Position { x: 7 })));
    assert_eq!(v, Some(&mut GameComponent::Velocity(Velocity { v: 2 })));

    let (p, v) = world.with_components_mut_2(POSITION, VELOCITY, 4);
    assert_eq!(p, Some(&mut GameComponent::Position(Position { x: 8 })));
    assert_eq!(v, None);
}

#[test]
fn world_reads_on_unregistered_kinds_yield_absence() {
    let mut world: World<GameComponent> = World::default();
    let entity = world.spawn();
    assert_eq!(world.with_components_1(POSITION, entity), None);
    let (a, b, c) = world.with_components_3(POSITION, VELOCITY, 7, entity);
    assert_eq!(a, None);
    assert_eq!(b, None);
    assert_eq!(c, None);
}

#[test]
fn world_mutable_access_writes_through() {
    let mut world: World<GameComponent> = World::default();
    let entity = world.spawn();
    world.add_entity_component(POSITION, entity, GameComponent::Position(Position { x: 1 }));
    if let Some(c) = world.with_components_mut_1(POSITION, entity) {
        *c = GameComponent::Position(Position { x: 42 });
    }
    assert_eq!(
        world.with_components_1(POSITION, entity),
        Some(&GameComponent::Position(Position { x: 42 }))
    );
}

#[test]
fn world_remove_component_clears_only_that_slot() {
    let mut world: World<GameComponent> = World::default();
    world.add_entity_component(POSITION, 0, GameComponent::Position(Position { x: 1 }));
    world.add_entity_component(POSITION, 1, GameComponent::Position(Position { x: 2 }));
    world.remove_component(POSITION, 0);
    assert_eq!(world.with_components_1(POSITION, 0), None);
    assert_eq!(
        world.with_components_1(POSITION, 1),
        Some(&GameComponent::Position(Position { x: 2 }))
    );
    world.remove_component(VELOCITY, 0);
}

#[test]
fn world_add_component_spawns_and_attaches() {
    let mut world: World<GameComponent> = World::default();
    world.add_component(POSITION, GameComponent::Position(Position { x: 3 }));
    assert_eq!(
        world.with_components_1(POSITION, 0),
        Some(&GameComponent::Position(Position { x: 3 }))
    );
    assert!(world.entity_manager.active_entities().contains(&0));
}

#[test]
fn world_destroy_entity_keeps_components() {
    let mut world: World<GameComponent> = World::default();
    let entity = world.spawn();
    world.add_entity_component(POSITION, entity, GameComponent::Position(Position { x: 5 }));
    world.destroy_entity(entity);
    assert!(!world.entity_manager.active_entities().contains(&entity));
    // the documented gap: destroying an entity clears no storage
    assert_eq!(
        world.with_components_1(POSITION, entity),
        Some(&GameComponent::Position(Position { x: 5 }))
    );
}

#[test]
fn resources_first_writer_wins() {
    let mut resources: ResourcesManager<GameResource> = ResourcesManager::default();
    resources.add(DELTATIME, GameResource::Deltatime(16));
    resources.add(DELTATIME, GameResource::Deltatime(99));
    assert_eq!(resources.get(DELTATIME), &GameResource::Deltatime(16));
}

#[test]
fn resources_hold_one_instance_per_kind() {
    let mut resources: ResourcesManager<GameResource> = ResourcesManager::default();
    resources.add(SCORE, GameResource::Score(0));
    resources.add(DELTATIME, GameResource::Deltatime(16));
    if let GameResource::Score(points) = resources.get_mut(SCORE) {
        *points = 100;
    }
    assert_eq!(resources.get(SCORE), &GameResource::Score(100));
    assert_eq!(resources.get(DELTATIME), &GameResource::Deltatime(16));
}

struct MoveRight;

impl System<GameComponent, GameResource> for MoveRight {
    fn run(&mut self, world: &mut World<GameComponent>, resources: &mut ResourcesManager<GameResource>) {
        let step = match resources.get(DELTATIME) {
            GameResource::Deltatime(ms) => *ms as i32,
            _ => 0,
        };
        for entity in world.entity_manager.active_entities() {
            if let Some(GameComponent::Position(p)) = world.with_components_mut_1(POSITION, entity)
            {
                p.x += step;
            }
        }
    }
}

struct SpawnOne;

impl System<GameComponent, GameResource> for SpawnOne {
    fn get_schedule(&self) -> Schedule {
        Schedule::Setup
    }

    fn run(&mut self, world: &mut World<GameComponent>, _resources: &mut ResourcesManager<GameResource>) {
        world.add_component(POSITION, GameComponent::Position(Position { x: 0 }));
    }
}

#[test]
fn systems_run_against_world_and_resources() {
    let mut world: World<GameComponent> = World::default();
    let mut resources: ResourcesManager<GameResource> = ResourcesManager::default();
    resources.add(DELTATIME, GameResource::Deltatime(4));

    let mut setup = SpawnOne;
    let mut mover = MoveRight;
    assert_eq!(setup.get_schedule(), Schedule::Setup);
    assert_eq!(mover.get_schedule(), Schedule::Loop);

    setup.run(&mut world, &mut resources);
    mover.run(&mut world, &mut resources);
    mover.run(&mut world, &mut resources);

    assert_eq!(
        world.with_components_1(POSITION, 0),
        Some(&GameComponent::Position(Position { x: 8 }))
    );
}
