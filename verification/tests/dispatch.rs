use plugin_runtime::events::{EventPriority, HandlerRegistry};
use plugin_runtime::manager::{PluginManager, ServerRef};

#[test]
fn blocking_partition_is_scheduled_before_non_blocking() {
    let mut reg = HandlerRegistry::new();
    reg.subscribe("player_join".to_string(), 1, EventPriority::Normal, true);
    reg.subscribe("player_join".to_string(), 2, EventPriority::High, false);
    reg.subscribe("player_join".to_string(), 3, EventPriority::Lowest, true);
    reg.subscribe("player_join".to_string(), 4, EventPriority::Highest, false);

    let plan = reg.dispatch_plan("player_join");
    let blocking: Vec<u64> = plan.blocking.iter().map(|h| h.handler).collect();
    let non_blocking: Vec<u64> = plan.non_blocking.iter().map(|h| h.handler).collect();
    // Within each partition: priority tier first (Highest runs earliest),
    // then registration order.
    assert_eq!(blocking, vec![1, 3]);
    assert_eq!(non_blocking, vec![4, 2]);
    assert!(plan.blocking.iter().all(|h| h.blocking));
    assert!(plan.non_blocking.iter().all(|h| !h.blocking));
}

#[test]
fn priority_tiers_order_the_schedule_and_ties_keep_registration_order() {
    let mut reg = HandlerRegistry::new();
    reg.subscribe("tick".to_string(), 1, EventPriority::Low, true);
    reg.subscribe("tick".to_string(), 2, EventPriority::Highest, true);
    reg.subscribe("tick".to_string(), 3, EventPriority::Low, true);
    reg.subscribe("tick".to_string(), 4, EventPriority::Normal, true);
    reg.subscribe("tick".to_string(), 5, EventPriority::Highest, true);

    let plan = reg.dispatch_plan("tick");
    let order: Vec<u64> = plan.blocking.iter().map(|h| h.handler).collect();
    assert_eq!(order, vec![2, 5, 4, 1, 3]);
}

#[test]
fn handler_of_other_type_is_never_scheduled() {
    let mut reg = HandlerRegistry::new();
    reg.subscribe("block_break".to_string(), 10, EventPriority::Normal, true);
    reg.subscribe("chat_message".to_string(), 20, EventPriority::Normal, true);
    reg.subscribe("block_break".to_string(), 30, EventPriority::Normal, false);

    let plan = reg.dispatch_plan("chat_message");
    assert_eq!(plan.blocking.len(), 1);
    assert_eq!(plan.blocking[0].handler, 20);
    assert_eq!(plan.non_blocking.len(), 0);

    let plan = reg.dispatch_plan("block_break");
    assert_eq!(plan.blocking.len(), 1);
    assert_eq!(plan.blocking[0].handler, 10);
    assert_eq!(plan.non_blocking.len(), 1);
    assert_eq!(plan.non_blocking[0].handler, 30);

    let plan = reg.dispatch_plan("world_save");
    assert_eq!(plan.blocking.len(), 0);
    assert_eq!(plan.non_blocking.len(), 0);
}

#[test]
fn interleaved_subscribers_lose_no_registration() {
    // Three subscribers register two handlers each for the same type; their
    // calls interleave. Every interleaving appends, so exactly 3 * 2 entries
    // come out and each token appears exactly once.
    let interleavings: [[usize; 6]; 3] = [
        [0, 0, 1, 1, 2, 2],
        [0, 1, 2, 0, 1, 2],
        [2, 1, 0, 2, 1, 0],
    ];
    for order in interleavings.iter() {
        let mut reg = HandlerRegistry::new();
        let mut next: [u64; 3] = [1, 3, 5];
        for &task in order.iter() {
            reg.subscribe("tick".to_string(), next[task], EventPriority::Normal, task == 0);
            next[task] += 1;
        }
        let plan = reg.dispatch_plan("tick");
        assert_eq!(plan.blocking.len() + plan.non_blocking.len(), 6);
        let mut seen: Vec<u64> = plan
            .blocking
            .iter()
            .chain(plan.non_blocking.iter())
            .map(|h| h.handler)
            .collect();
        seen.sort();
        assert_eq!(seen, vec![1, 2, 3, 4, 5, 6]);
    }
}

#[test]
fn repeated_publishes_keep_a_stable_order() {
    let mut reg = HandlerRegistry::new();
    reg.subscribe("tick".to_string(), 7, EventPriority::Normal, false);
    reg.subscribe("tick".to_string(), 8, EventPriority::Normal, false);
    let first = reg.dispatch_plan("tick");
    let second = reg.dispatch_plan("tick");
    assert_eq!(first.non_blocking, second.non_blocking);
    assert_eq!(first.blocking, second.blocking);
}

#[test]
fn fire_without_server_schedules_nothing() {
    let mut m = PluginManager::new();
    m.register("tick".to_string(), 1, EventPriority::Normal, true);
    let plan = m.fire("tick");
    assert_eq!(plan.blocking.len(), 0);
    assert_eq!(plan.non_blocking.len(), 0);

    m.set_server(ServerRef { id: 1 });
    let plan = m.fire("tick");
    assert_eq!(plan.blocking.len(), 1);
    assert_eq!(plan.blocking[0].handler, 1);
}
