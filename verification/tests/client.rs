use ralph_island::client::{BoundedQueue, InputHistoryEntry, InputLog, MAX_INPUT_HISTORY};
use ralph_island::inventory::{InventoryState, ResourceKind, ResourceStack};
use ralph_island::movement::InputState;
use ralph_island::protocol::InputCommand;
use ralph_island::room::build_cell_taken;
use ralph_island::crafting::RecipeKind;
use ralph_island::simulation::{simulate_step, GameplayState, SimulationCommand, SimulationStepInput};
use ralph_island::snapshot::{
    newest_first, oldest_index, preview_fresh, preview_retained, snapshot_due, snapshot_sections,
    SnapshotSections,
};

const STILL: InputState = InputState { up: false, down: false, left: false, right: false };

#[test]
fn bounded_queue_keeps_newest() {
    let mut queue = BoundedQueue::new(3);
    assert!(queue.is_empty());
    for item in 1..=5 {
        queue.push(item);
    }
    assert_eq!(queue.len(), 3);
    assert_eq!(queue.capacity(), 3);
    assert_eq!(queue.drain(), vec![3, 4, 5]);
    assert!(queue.is_empty());
    queue.push(9);
    queue.clear();
    assert_eq!(queue.drain(), Vec::<i32>::new());
}

#[test]
fn bounded_queue_of_zero_keeps_nothing() {
    let mut queue = BoundedQueue::new(0);
    queue.push("x");
    assert!(queue.is_empty());
}

#[test]
fn input_log_numbers_and_keeps_inputs() {
    let mut log = InputLog::new();
    assert_eq!(log.next_seq(), 1);
    let up = InputState { up: true, ..STILL };
    assert_eq!(
        log.record(up),
        InputCommand { seq: 1, up: true, down: false, left: false, right: false }
    );
    log.record(STILL);
    log.record(up);
    assert_eq!(log.next_seq(), 4);
    assert_eq!(
        log.pending(),
        vec![
            InputHistoryEntry { seq: 1, state: up },
            InputHistoryEntry { seq: 2, state: STILL },
            InputHistoryEntry { seq: 3, state: up },
        ]
    );
}

#[test]
fn acknowledged_inputs_are_dropped() {
    let mut log = InputLog::new();
    for _ in 0..5 {
        log.record(STILL);
    }
    log.acknowledge(3);
    let seqs: Vec<u32> = log.pending().iter().map(|entry| entry.seq).collect();
    assert_eq!(seqs, vec![4, 5]);
    log.acknowledge(0);
    assert_eq!(log.pending().len(), 2);
    log.acknowledge(99);
    assert!(log.pending().is_empty());
    assert_eq!(log.next_seq(), 6);
}

#[test]
fn input_log_keeps_at_most_its_bound() {
    let mut log = InputLog::new();
    for _ in 0..(MAX_INPUT_HISTORY + 10) {
        log.record(STILL);
    }
    let pending = log.pending();
    assert_eq!(pending.len(), MAX_INPUT_HISTORY);
    assert_eq!(pending[0].seq, 11);
    log.reset();
    assert_eq!(log.next_seq(), 1);
    assert!(log.pending().is_empty());
}

#[test]
fn snapshots_are_due_every_third_tick_or_when_dirty() {
    assert!(snapshot_due(0, false));
    assert!(!snapshot_due(1, false));
    assert!(!snapshot_due(2, false));
    assert!(snapshot_due(3, false));
    assert!(snapshot_due(4, true));
}

#[test]
fn snapshot_sections_follow_what_changed() {
    let all = SnapshotSections {
        presence: true,
        build: true,
        projectiles: true,
        inventory: true,
        mining: true,
        crafting: true,
        combat: true,
        character: true,
    };
    assert_eq!(snapshot_sections(true, false, false, false), all);
    assert_eq!(
        snapshot_sections(false, true, false, true),
        SnapshotSections {
            presence: true,
            build: false,
            projectiles: true,
            inventory: false,
            mining: false,
            crafting: false,
            combat: false,
            character: true,
        }
    );
}

#[test]
fn preview_age_limits() {
    assert!(preview_retained(16000, 16000));
    assert!(preview_retained(1000, 16000));
    assert!(!preview_retained(999, 16000));
    assert!(!preview_fresh(1000, 16000));
    assert!(preview_fresh(1001, 16000));
    assert!(preview_retained(i64::MIN, i64::MIN));
}

#[test]
fn rows_are_listed_newest_first() {
    let stamps = [5, 9, 5, 1, 9];
    let all = [true; 5];
    assert_eq!(newest_first(&stamps, &all, 10), vec![1, 4, 0, 2, 3]);
    assert_eq!(newest_first(&stamps, &all, 2), vec![1, 4]);
    let some = [true, false, true, true, false];
    assert_eq!(newest_first(&stamps, &some, 10), vec![0, 2, 3]);
    assert_eq!(newest_first(&stamps, &some, 0), Vec::<usize>::new());
    assert_eq!(newest_first(&[], &[], 3), Vec::<usize>::new());
}

#[test]
fn oldest_row_is_the_first_smallest() {
    assert_eq!(oldest_index(&[]), None);
    assert_eq!(oldest_index(&[4, 2, 7, 2]), Some(1));
    assert_eq!(oldest_index(&[3]), Some(0));
}

#[test]
fn build_cells() {
    let cells = [(0, 0), (3, -2)];
    assert!(build_cell_taken(&cells, 3, -2));
    assert!(!build_cell_taken(&cells, -2, 3));
    assert!(!build_cell_taken(&[], 0, 0));
}

#[test]
fn split_stacks_are_stepped() {
    let mut state = GameplayState::default();
    state.inventories.ensure_entry(
        &"a".to_string(),
        InventoryState {
            max_slots: 24,
            stacks: vec![
                ResourceStack::new(ResourceKind::IronOre, 2),
                ResourceStack::new(ResourceKind::Coal, 1),
                ResourceStack::new(ResourceKind::IronOre, 3),
            ],
        },
    );
    simulate_step(
        &mut state,
        SimulationStepInput {
            tick: 1,
            commands: vec![
                SimulationCommand::GrantResource {
                    actor_id: "a".to_string(),
                    resource: ResourceKind::IronOre,
                    amount: 4,
                },
                SimulationCommand::QueueCraft {
                    actor_id: "a".to_string(),
                    recipe: RecipeKind::SmeltIronPlate,
                    count: 1,
                },
            ],
            ..SimulationStepInput::default()
        },
    );
    let inventory = state.inventories.get("a").unwrap();
    assert_eq!(inventory.count(ResourceKind::IronOre), 8);
    assert_eq!(
        inventory.stacks,
        vec![
            ResourceStack::new(ResourceKind::IronOre, 5),
            ResourceStack::new(ResourceKind::Coal, 1),
            ResourceStack::new(ResourceKind::IronOre, 3),
        ]
    );
}

#[test]
fn totals_beyond_u32_are_removed_from() {
    let mut inv = InventoryState {
        max_slots: 4,
        stacks: vec![
            ResourceStack::new(ResourceKind::Gear, u32::MAX),
            ResourceStack::new(ResourceKind::Gear, 10),
        ],
    };
    assert!(inv.can_afford(&[ResourceStack::new(ResourceKind::Gear, u32::MAX)]));
    assert_eq!(inv.remove_resource(ResourceKind::Gear, u32::MAX), Ok(()));
    assert_eq!(inv.stacks, vec![ResourceStack::new(ResourceKind::Gear, 10)]);
}
