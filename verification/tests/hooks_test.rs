use chronographer::hooks::{
    TaskHookContainer, TaskHookContext, TaskHookInstances, TaskHookTable, TaskHooksPromotion,
};
use chronographer::task::{Task, TaskInstanceCounter};
use std::sync::Arc;

fn ids(p: &TaskHooksPromotion<u32>) -> Vec<u64> {
    match p {
        TaskHooksPromotion::Empty => vec![],
        TaskHooksPromotion::Single(a, _) => vec![*a],
        TaskHooksPromotion::Double((a, _), (b, _)) => vec![*a, *b],
        TaskHooksPromotion::Triplet((a, _), (b, _), (c, _)) => vec![*a, *b, *c],
        TaskHooksPromotion::Multiple(m) => {
            let mut k: Vec<u64> = m.keys().copied().collect();
            k.sort();
            k
        }
    }
}

#[test]
fn instances_are_a_stack() {
    let mut i = TaskHookInstances::Empty;
    assert_eq!(i.pop(), None);
    i.push(1u32);
    assert!(matches!(i, TaskHookInstances::Single(1)));
    i.push(2);
    i.push(3);
    assert_eq!(i.get(), 3);
    assert_eq!(i.pop(), Some(3));
    assert_eq!(i.pop(), Some(2));
    assert!(matches!(i, TaskHookInstances::Single(1)));
    assert_eq!(i.pop(), Some(1));
    assert!(matches!(i, TaskHookInstances::Empty));
    let mut j = TaskHookInstances::Empty;
    j.push(7u32);
    j.push(8);
    assert_eq!(j.free(), vec![7, 8]);
}

#[test]
fn promotion_moves_through_its_shapes() {
    let mut p: TaskHooksPromotion<u32> = TaskHooksPromotion::Empty;
    p.promote(10, 1);
    p.promote(10, 2);
    assert!(matches!(p, TaskHooksPromotion::Single(10, _)));
    assert_eq!(p.fetch(10), Some(2));
    assert_eq!(p.fetch(11), None);
    p.promote(11, 3);
    assert!(matches!(p, TaskHooksPromotion::Double(..)));
    p.promote(12, 4);
    assert!(matches!(p, TaskHooksPromotion::Triplet(..)));
    assert_eq!(ids(&p), vec![10, 11, 12]);
    p.promote(13, 5);
    assert!(matches!(p, TaskHooksPromotion::Multiple(_)));
    assert_eq!(ids(&p), vec![10, 11, 12, 13]);
    assert_eq!(p.fetch(13), Some(5));
    assert_eq!(p.remove(13), Some(5));
    assert!(matches!(p, TaskHooksPromotion::Triplet(..)));
    // The remaining hook types leave the map in the order it walks them.
    let mut left = ids(&p);
    left.sort();
    assert_eq!(left, vec![10, 11, 12]);
    assert_eq!(p.fetch(10), Some(2));
    assert_eq!(p.fetch(11), Some(3));
    assert_eq!(p.fetch(12), Some(4));
    assert_eq!(p.fetch(13), None);
}

#[test]
fn removing_from_two_hook_types() {
    let mut p: TaskHooksPromotion<u32> = TaskHooksPromotion::Empty;
    p.promote(1, 100);
    p.promote(2, 200);
    p.promote(1, 101);
    assert_eq!(p.remove(1), Some(101));
    assert_eq!(p.remove(1), Some(100));
    assert!(matches!(p, TaskHooksPromotion::Double(..)));
    assert_eq!(p.remove(1), None);
    assert!(matches!(p, TaskHooksPromotion::Single(2, _)));
    assert_eq!(p.remove(9), None);
    assert!(matches!(p, TaskHooksPromotion::Empty));
}

#[test]
fn removing_a_hook_type_from_the_map_drops_all_its_instances() {
    let mut p: TaskHooksPromotion<u32> = TaskHooksPromotion::Empty;
    for (id, h) in [(1u64, 10u32), (2, 20), (3, 30), (4, 40), (5, 50), (5, 51)] {
        p.promote(id, h);
    }
    assert_eq!(p.remove(5), Some(51));
    assert!(matches!(p, TaskHooksPromotion::Multiple(_)));
    assert_eq!(p.fetch(5), None);
    assert_eq!(p.remove(4), Some(40));
    assert!(matches!(p, TaskHooksPromotion::Triplet(..)));
}

#[test]
fn free_gives_instances_type_after_type() {
    let mut p: TaskHooksPromotion<u32> = TaskHooksPromotion::Empty;
    p.promote(1, 10);
    p.promote(1, 11);
    p.promote(2, 20);
    p.promote(3, 30);
    assert_eq!(p.free(), vec![10, 11, 20, 30]);
    let mut q: TaskHooksPromotion<u32> = TaskHooksPromotion::Empty;
    for (id, h) in [(1u64, 10u32), (2, 20), (3, 30), (4, 40)] {
        q.promote(id, h);
    }
    let mut all = q.free();
    all.sort();
    assert_eq!(all, vec![10, 20, 30, 40]);
}

#[test]
fn table_attach_get_emit_detach() {
    let mut t: TaskHookTable<u32> = TaskHookTable::new();
    t.attach(1, 10, 100);
    t.attach(1, 11, 110);
    t.attach(2, 10, 200);
    assert_eq!(t.get(1, 10), Some(100));
    assert_eq!(t.get(2, 10), Some(200));
    assert_eq!(t.get(3, 10), None);
    assert!(t.can_emit(1));
    assert_eq!(t.emit(1), vec![100, 110]);
    assert_eq!(t.emit(3), Vec::<u32>::new());
    assert_eq!(t.detach(1, 10), Some(100));
    assert!(!t.can_fetch(1, 10));
    assert!(!t.can_emit(1));
    assert!(t.can_fetch(1, 11));
    let mut released = t.free();
    released.sort();
    assert_eq!(released, vec![110, 200]);
}

#[test]
fn container_keeps_instances_apart() {
    let mut c: TaskHookContainer<u32> = TaskHookContainer::new();
    c.attach(7, 1, 10, 100);
    c.attach(7, 1, 11, 110);
    c.attach(8, 1, 10, 800);
    assert_eq!(c.get(7, 1, 10), Some(100));
    assert_eq!(c.get(8, 1, 10), Some(800));
    assert_eq!(c.get(9, 1, 10), None);
    assert_eq!(c.emit(7, 1), vec![100, 110]);
    assert_eq!(c.detach(7, 1, 11), Some(110));
    // A lone hook type is dropped without being handed back.
    assert_eq!(c.detach(8, 1, 10), None);
    assert_eq!(c.get(8, 1, 10), None);
    assert_eq!(c.remove_instance(7), vec![100]);
    assert_eq!(c.get(7, 1, 10), None);
    assert_eq!(c.remove_instance(7), Vec::<u32>::new());
}

#[test]
fn task_and_context_reach_the_registry() {
    let mut c: TaskHookContainer<u32> = TaskHookContainer::new();
    let mut counter = TaskInstanceCounter::new();
    for expected in 0..3 {
        assert_eq!(counter.issue(), expected);
    }
    let task = Task::new("every minute", 5u8, &mut counter);
    assert_eq!(task.instance_id(), 3);
    assert_eq!(**task.frame(), 5);
    assert_eq!(**task.trigger(), "every minute");
    let erased = task.as_erased();
    assert!(Arc::ptr_eq(task.frame(), erased.frame()));
    assert!(Arc::ptr_eq(task.instance(), erased.instance()));
    assert_eq!(erased.instance_id(), 3);
    c.attach(3, 1, 10, 42);
    assert_eq!(task.get_hook(&c, 1, 10), Some(42));
    assert_eq!(erased.get_hook(&c, 1, 11), None);
    let frame = 9u8;
    let ctx = TaskHookContext::new(2, 3, &frame);
    assert_eq!(ctx.depth(), 2);
    assert_eq!(ctx.instance_id(), 3);
    assert_eq!(*ctx.frame(), 9);
    assert_eq!(ctx.get_hook(&c, 1, 10), Some(42));
}

#[test]
fn default_task_has_default_parts() {
    let mut counter = TaskInstanceCounter::new();
    for _ in 0..4 {
        counter.issue();
    }
    let task: Task<u8, String> = Task::default_for(&mut counter);
    assert_eq!(task.instance_id(), 4);
    assert_eq!(**task.frame(), 0);
    assert_eq!(task.trigger().as_str(), "");
}

#[test]
fn hook_types_in_place_keep_their_order() {
    let mut t: TaskHookTable<u32> = TaskHookTable::new();
    t.attach(1, 10, 100);
    t.attach(1, 20, 200);
    t.attach(1, 30, 300);
    assert_eq!(t.emit(1), vec![100, 200, 300]);
    assert_eq!(t.detach(1, 20), Some(200));
    // The emptied hook type is dropped by the next detach of it.
    assert_eq!(t.detach(1, 20), None);
    assert_eq!(t.emit(1), vec![100, 300]);
    t.attach(1, 40, 400);
    assert_eq!(t.emit(1), vec![100, 300, 400]);
}

#[test]
fn tasks_are_numbered_in_order() {
    let mut counter = TaskInstanceCounter::new();
    let first: Task<u8, u8> = Task::new(1, 2, &mut counter);
    let second: Task<u8, u8> = Task::new(1, 2, &mut counter);
    let third: Task<u8, u8> = Task::default_for(&mut counter);
    assert_eq!(first.instance_id(), 0);
    assert_eq!(second.instance_id(), 1);
    assert_eq!(third.instance_id(), 2);
    assert_eq!(counter.issue(), 3);
}

#[test]
fn attaching_is_scoped_to_the_instance_and_hook_type() {
    let mut c: TaskHookContainer<u32> = TaskHookContainer::new();
    c.attach(1, 5, 10, 42);
    assert_eq!(c.get(1, 5, 10), Some(42));
    assert_eq!(c.get(2, 5, 10), None);
    assert_eq!(c.get(1, 5, 11), None);
    assert_eq!(c.get(1, 6, 10), None);
}
