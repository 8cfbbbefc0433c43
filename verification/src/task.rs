use vstd::prelude::*;

use std::sync::Arc;

use crate::hooks::{event_hooks, fetched, instance_hooks, TaskHookContainer, TaskHookContext};

verus! {

/// The instance number that follows `id` when numbering task instances (after the largest one,
/// numbering starts again at zero, as an atomic counter's increment does).
pub open spec fn following_id(id: usize) -> usize {
    if id == usize::MAX {
        0
    } else {
        (id + 1) as usize
    }
}

/// The number handed to the `k`-th task made after the one numbered `first` (`k` = 0 is that
/// one).
pub open spec fn nth_id(first: usize, k: nat) -> usize
    decreases k,
{
    if k == 0 {
        first
    } else {
        following_id(nth_id(first, (k - 1) as nat))
    }
}

/// Numbers task instances in the order tasks are made.
pub struct TaskInstanceCounter {
    next: usize,
}

impl TaskInstanceCounter {
    /// The number the next task will get.
    pub closed spec fn next_id(self) -> usize {
        self.next
    }

    /// A counter whose first task gets number zero.
    pub fn new() -> (r: Self)
        ensures
            r.next_id() == 0,
    {
        TaskInstanceCounter { next: 0 }
    }

    /// Hands out the next number.
    pub fn issue(&mut self) -> (r: usize)
        ensures
            r == old(self).next_id(),
            final(self).next_id() == following_id(old(self).next_id()),
    {
        let r = self.next;
        self.next = if self.next == usize::MAX {
            0
        } else {
            self.next + 1
        };
        r
    }
}

/// The `k`-th number after `first` is `first + k`, taken modulo the number of `usize` values.
proof fn lemma_nth_id(first: usize, k: nat)
    ensures
        nth_id(first, k) as int == (first + k) % (usize::MAX as int + 1),
    decreases k,
{
    let m = usize::MAX as int + 1;
    if k == 0 {
        vstd::arithmetic::div_mod::lemma_small_mod(first as nat, m as nat);
    } else {
        lemma_nth_id(first, (k - 1) as nat);
        let p = nth_id(first, (k - 1) as nat) as int;
        vstd::arithmetic::div_mod::lemma_add_mod_noop(first + k - 1, 1, m);
        vstd::arithmetic::div_mod::lemma_small_mod(1, m as nat);
        if p < usize::MAX {
            vstd::arithmetic::div_mod::lemma_small_mod((p + 1) as nat, m as nat);
        } else {
            vstd::arithmetic::div_mod::lemma_mod_self_0(m);
        }
    }
}

/// Tasks made one after the other from the same counter get pairwise distinct numbers, as long
/// as no more of them are made than there are `usize` values.
pub proof fn law_task_numbers_are_distinct(first: usize, i: nat, j: nat)
    requires
        i < j <= usize::MAX,
    ensures
        nth_id(first, i) != nth_id(first, j),
{
    let m = usize::MAX as int + 1;
    lemma_nth_id(first, i);
    lemma_nth_id(first, j);
    if nth_id(first, i) == nth_id(first, j) {
        vstd::arithmetic::div_mod::lemma_mod_equivalence(first + j, first + i, m);
        vstd::arithmetic::div_mod::lemma_small_mod((j - i) as nat, m as nat);
        assert((first + j) - (first + i) == j - i);
    }
}

/// A registry that holds hooks only for the `n` tasks numbered from `first` holds none for the
/// task numbered next: a new task starts with no hooks.
pub proof fn law_new_task_has_no_hooks<H>(
    registry: Map<usize, Map<u64, Map<u64, Seq<H>>>>,
    first: usize,
    n: nat,
    event_id: u64,
    hook_id: u64,
)
    requires
        n <= usize::MAX,
        forall|k: usize|
            #[trigger] registry.contains_key(k) ==> exists|i: nat| i < n && nth_id(first, i) == k,
    ensures
        !registry.contains_key(nth_id(first, n)),
        fetched(event_hooks(instance_hooks(registry, nth_id(first, n)), event_id), hook_id)
            is None,
{
    if registry.contains_key(nth_id(first, n)) {
        let i = choose|i: nat| i < n && nth_id(first, i) == nth_id(first, n);
        law_task_numbers_are_distinct(first, i, n);
    }
}

/// The identity of a task instance, shared by a task and its type-erased copies.
pub struct TaskInstanceTracker {
    pub instance_id: usize,
}

/// A task: what it runs (its frame), when it runs (its trigger), and the identity of its
/// instance. Copies made by `as_erased` share all three.
pub struct Task<T1: ?Sized, T2: ?Sized> {
    frame: Arc<T1>,
    trigger: Arc<T2>,
    instance: Arc<TaskInstanceTracker>,
}

impl<T1: ?Sized, T2: ?Sized> Task<T1, T2> {
    pub closed spec fn frame_ref(self) -> Arc<T1> {
        self.frame
    }

    pub closed spec fn trigger_ref(self) -> Arc<T2> {
        self.trigger
    }

    pub closed spec fn instance_ref(self) -> Arc<TaskInstanceTracker> {
        self.instance
    }

    /// The identifier of the task's instance.
    pub open spec fn instance_key(self) -> usize {
        self.instance_ref().instance_id
    }

    /// A task made of shared parts (for instance, a frame and a trigger behind trait objects).
    pub fn from_shared(frame: Arc<T1>, trigger: Arc<T2>, instance: Arc<TaskInstanceTracker>) -> (r:
        Self)
        ensures
            r.frame_ref() == frame,
            r.trigger_ref() == trigger,
            r.instance_ref() == instance,
    {
        Task { frame, trigger, instance }
    }

    /// A copy of the task that shares its frame, its trigger and its instance.
    pub fn as_erased(&self) -> (r: Task<T1, T2>)
        ensures
            r.frame_ref() == self.frame_ref(),
            r.trigger_ref() == self.trigger_ref(),
            r.instance_ref() == self.instance_ref(),
    {
        Task {
            frame: self.frame.clone(),
            trigger: self.trigger.clone(),
            instance: self.instance.clone(),
        }
    }

    /// The identifier of the task's instance.
    pub fn instance_id(&self) -> (r: usize)
        ensures
            r == self.instance_key(),
    {
        self.instance.instance_id
    }

    /// What the task runs.
    pub fn frame(&self) -> (r: &Arc<T1>)
        ensures
            *r == self.frame_ref(),
    {
        &self.frame
    }

    /// When the task runs.
    pub fn trigger(&self) -> (r: &Arc<T2>)
        ensures
            *r == self.trigger_ref(),
    {
        &self.trigger
    }

    /// The identity of the task's instance.
    pub fn instance(&self) -> (r: &Arc<TaskInstanceTracker>)
        ensures
            *r == self.instance_ref(),
    {
        &self.instance
    }

    /// The newest instance of the hook type `hook_id` attached to the event `event_id` of this
    /// task, in `registry`.
    pub fn get_hook<H: Copy>(&self, registry: &TaskHookContainer<H>, event_id: u64, hook_id: u64) -> (r:
        Option<H>)
        requires
            registry.wf(),
            registry.instances@.contains_key(self.instance_key()) ==> registry.table(
                self.instance_key(),
            ).fetchable(event_id, hook_id),
        ensures
            r == fetched(
                event_hooks(instance_hooks(registry@, self.instance_key()), event_id),
                hook_id,
            ),
    {
        registry.get(self.instance.instance_id, event_id, hook_id)
    }
}

impl<T1, T2> Task<T1, T2> {
    /// A task with its trigger and its frame, numbered by `counter`.
    pub fn new(trigger: T2, frame: T1, counter: &mut TaskInstanceCounter) -> (r: Self)
        ensures
            *r.frame_ref() == frame,
            *r.trigger_ref() == trigger,
            r.instance_key() == old(counter).next_id(),
            final(counter).next_id() == following_id(old(counter).next_id()),
    {
        let instance_id = counter.issue();
        Task {
            frame: Arc::new(frame),
            trigger: Arc::new(trigger),
            instance: Arc::new(TaskInstanceTracker { instance_id }),
        }
    }
}

impl<T1: Default, T2: Default> Task<T1, T2> {
    /// A task with the default trigger and the default frame, numbered by `counter`.
    pub fn default_for(counter: &mut TaskInstanceCounter) -> (r: Self)
        ensures
            call_ensures(T1::default, (), *r.frame_ref()),
            call_ensures(T2::default, (), *r.trigger_ref()),
            r.instance_key() == old(counter).next_id(),
            final(counter).next_id() == following_id(old(counter).next_id()),
    {
        let instance_id = counter.issue();
        Task {
            frame: Arc::new(T1::default()),
            trigger: Arc::new(T2::default()),
            instance: Arc::new(TaskInstanceTracker { instance_id }),
        }
    }
}

/// A hook context built for a task's instance looks hooks up where the task does: both give the
/// newest instance of the hook type attached to the event of that instance.
pub proof fn law_context_looks_up_as_its_task<'a, H, T1: ?Sized, T2: ?Sized, F: ?Sized>(
    task: Task<T1, T2>,
    ctx: TaskHookContext<'a, F>,
    registry: Map<usize, Map<u64, Map<u64, Seq<H>>>>,
    event_id: u64,
    hook_id: u64,
)
    requires
        ctx.instance_spec() == task.instance_key(),
    ensures
        fetched(event_hooks(instance_hooks(registry, ctx.instance_spec()), event_id), hook_id)
            == fetched(
            event_hooks(instance_hooks(registry, task.instance_key()), event_id),
            hook_id,
        ),
{
}

} // verus!
