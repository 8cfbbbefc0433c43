use vstd::prelude::*;

use std::collections::HashMap;
use vstd::std_specs::hash::spec_keys_iter;
use vstd::std_specs::iter::IteratorSpec;

verus! {

broadcast use vstd::std_specs::hash::group_hash_axioms;

/// The keys of a map, in the order in which the map yields them.
fn map_keys<V>(m: &HashMap<u64, V>) -> (ks: Vec<u64>)
    ensures
        ks@.no_duplicates(),
        ks@.to_set() == m@.dom(),
        ks@.len() == m@.dom().len(),
{
    let ghost all = spec_keys_iter(m).remaining().unref();
    let mut ks: Vec<u64> = Vec::new();
    for k in it: m.keys()
        invariant
            it.seq() == spec_keys_iter(m).remaining(),
            all == it.seq().unref(),
            ks@.len() == it.index(),
            forall|j: int| 0 <= j < ks@.len() ==> ks@[j] == all[j],
    {
        ks.push(*k);
    }
    proof {
        assert(ks@ =~= all);
    }
    ks
}


/// The instances of one hook type attached to one event, oldest first (a history kept as a
/// stack: the newest one is the one in use).
pub enum TaskHookInstances<H> {
    Empty,
    Single(H),
    Multiple(Vec<H>),
}

impl<H> View for TaskHookInstances<H> {
    type V = Seq<H>;

    open spec fn view(&self) -> Seq<H> {
        match self {
            TaskHookInstances::Empty => seq![],
            TaskHookInstances::Single(h) => seq![*h],
            TaskHookInstances::Multiple(hooks) => hooks@,
        }
    }
}

impl<H: Copy> TaskHookInstances<H> {
    /// A list holds two instances or more.
    pub open spec fn wf(&self) -> bool {
        self matches TaskHookInstances::Multiple(hooks) ==> hooks.len() >= 2
    }

    /// Adds the newest instance.
    pub fn push(&mut self, hook: H)
        requires
            old(self).wf(),
        ensures
            final(self).wf(),
            final(self)@ == old(self)@.push(hook),
    {
        let mut cur = TaskHookInstances::Empty;
        std::mem::swap(&mut cur, self);
        *self = match cur {
            TaskHookInstances::Empty => TaskHookInstances::Single(hook),
            TaskHookInstances::Single(prev) => TaskHookInstances::Multiple(vec![prev, hook]),
            TaskHookInstances::Multiple(mut hooks) => {
                hooks.push(hook);
                TaskHookInstances::Multiple(hooks)
            },
        };
    }

    /// The newest instance.
    pub fn get(&self) -> (r: H)
        requires
            self@.len() > 0,
        ensures
            r == self@.last(),
    {
        match self {
            TaskHookInstances::Single(h) => *h,
            TaskHookInstances::Multiple(hooks) => hooks[hooks.len() - 1],
            TaskHookInstances::Empty => vstd::pervasive::unreached(),
        }
    }

    /// Takes the newest instance out, if there is one.
    pub fn pop(&mut self) -> (r: Option<H>)
        requires
            old(self).wf(),
        ensures
            final(self).wf(),
            old(self)@.len() == 0 ==> r is None && final(self)@ == old(self)@,
            old(self)@.len() > 0 ==> r == Some(old(self)@.last()) && final(self)@ == old(
                self,
            )@.drop_last(),
    {
        let mut cur = TaskHookInstances::Empty;
        std::mem::swap(&mut cur, self);
        match cur {
            TaskHookInstances::Empty => None,
            TaskHookInstances::Single(h) => Some(h),
            TaskHookInstances::Multiple(mut hooks) => {
                let ghost before = hooks@;
                let val = hooks.pop().unwrap();
                if hooks.len() == 1 {
                    let only = hooks.pop().unwrap();
                    *self = TaskHookInstances::Single(only);
                    proof {
                        assert(self@ =~= before.drop_last());
                    }
                } else {
                    *self = TaskHookInstances::Multiple(hooks);
                }
                Some(val)
            },
        }
    }

    /// Gives up all the instances, oldest first, for their release.
    pub fn free(self) -> (r: Vec<H>)
        ensures
            r@ == self@,
    {
        match self {
            TaskHookInstances::Empty => Vec::new(),
            TaskHookInstances::Single(h) => vec![h],
            TaskHookInstances::Multiple(hooks) => hooks,
        }
    }
}

/// `m` after a new instance `h` of the hook type `id` joins the others of its type.
pub open spec fn promoted<H>(m: Map<u64, Seq<H>>, id: u64, h: H) -> Map<u64, Seq<H>> {
    m.insert(id, (if m.contains_key(id) { m[id] } else { seq![] }).push(h))
}

/// The newest instance of the hook type `id`, if that type is there.
pub open spec fn fetched<H>(m: Map<u64, Seq<H>>, id: u64) -> Option<H> {
    if m.contains_key(id) {
        Some(m[id].last())
    } else {
        None
    }
}

/// What asking to remove an instance of the hook type `id` gives and leaves. With at most one
/// hook type: nothing, and no hook type is left. With two or three: the newest instance of
/// `id` taken out, or, when `id` has none, the type itself dropped. With more: the type dropped
/// with all its instances, and its newest one given.
pub open spec fn removed<H>(m: Map<u64, Seq<H>>, id: u64) -> (Option<H>, Map<u64, Seq<H>>) {
    if m.len() <= 1 {
        (None, Map::empty())
    } else if !m.contains_key(id) {
        (None, m)
    } else if m.len() <= 3 {
        if m[id].len() > 0 {
            (Some(m[id].last()), m.insert(id, m[id].drop_last()))
        } else {
            (None, m.remove(id))
        }
    } else {
        (if m[id].len() > 0 { Some(m[id].last()) } else { None }, m.remove(id))
    }
}

/// The instances of the hook types `ks`, type after type.
pub open spec fn instances_in_order<H>(m: Map<u64, Seq<H>>, ks: Seq<u64>) -> Seq<H>
    decreases ks.len(),
{
    if ks.len() == 0 {
        seq![]
    } else {
        instances_in_order(m, ks.drop_last()) + m[ks.last()]
    }
}

/// The hooks attached to one event, by hook type. Up to three hook types are held in place,
/// in the order they came; more go to a map.
pub enum TaskHooksPromotion<H> {
    Empty,
    Single(u64, TaskHookInstances<H>),
    Double((u64, TaskHookInstances<H>), (u64, TaskHookInstances<H>)),
    Triplet(
        (u64, TaskHookInstances<H>),
        (u64, TaskHookInstances<H>),
        (u64, TaskHookInstances<H>),
    ),
    Multiple(HashMap<u64, TaskHookInstances<H>>),
}

impl<H> View for TaskHooksPromotion<H> {
    type V = Map<u64, Seq<H>>;

    open spec fn view(&self) -> Map<u64, Seq<H>> {
        match self {
            TaskHooksPromotion::Empty => Map::empty(),
            TaskHooksPromotion::Single(a, i) => map![*a => i@],
            TaskHooksPromotion::Double((a, i), (b, j)) => map![*a => i@, *b => j@],
            TaskHooksPromotion::Triplet((a, i), (b, j), (c, k)) => map![*a => i@, *b => j@, *c => k@],
            TaskHooksPromotion::Multiple(m) => Map::new(
                |id: u64| m@.contains_key(id),
                |id: u64| m@[id]@,
            ),
        }
    }
}

impl<H: Copy> TaskHooksPromotion<H> {
    /// Hook types held in place are distinct, a map holds four of them or more, and every
    /// list of instances is well formed.
    pub open spec fn wf(&self) -> bool {
        match self {
            TaskHooksPromotion::Empty => true,
            TaskHooksPromotion::Single(_, i) => i.wf(),
            TaskHooksPromotion::Double((a, i), (b, j)) => *a != *b && i.wf() && j.wf(),
            TaskHooksPromotion::Triplet((a, i), (b, j), (c, k)) => *a != *b && *a != *c && *b
                != *c && i.wf() && j.wf() && k.wf(),
            TaskHooksPromotion::Multiple(m) => m@.len() >= 4 && forall|id: u64|
                m@.contains_key(id) ==> (#[trigger] m@[id]).wf(),
        }
    }

    /// The order of the hook types held in place.
    pub open spec fn slot_order(&self) -> Seq<u64> {
        match self {
            TaskHooksPromotion::Single(a, _) => seq![*a],
            TaskHooksPromotion::Double((a, _), (b, _)) => seq![*a, *b],
            TaskHooksPromotion::Triplet((a, _), (b, _), (c, _)) => seq![*a, *b, *c],
            _ => seq![],
        }
    }

    /// `ks` is an order in which the hook types can be walked: the slot order when they are
    /// held in place, any order of the map's keys otherwise.
    pub open spec fn walk_order(&self, ks: Seq<u64>) -> bool {
        &&& ks.no_duplicates()
        &&& ks.to_set() == self@.dom()
        &&& ks.len() == self@.len()
        &&& !(self is Multiple) ==> ks == self.slot_order()
    }
}

/// Under `wf`, the number of hook types tells where they are held: none, one, two or three
/// in place, four or more in a map.
pub proof fn lemma_promotion_shape<H: Copy>(p: &TaskHooksPromotion<H>)
    requires
        p.wf(),
    ensures
        p@.dom().finite(),
        (p is Empty) == (p@.len() == 0),
        (p is Single) == (p@.len() == 1),
        (p is Double) == (p@.len() == 2),
        (p is Triplet) == (p@.len() == 3),
        (p is Multiple) == (p@.len() >= 4),
{
    match p {
        TaskHooksPromotion::Empty => {
            assert(p@.dom() =~= Set::<u64>::empty());
        },
        TaskHooksPromotion::Single(a, _) => {
            assert(p@.dom() =~= set![*a]);
        },
        TaskHooksPromotion::Double((a, _), (b, _)) => {
            assert(p@.dom() =~= set![*a, *b]);
        },
        TaskHooksPromotion::Triplet((a, _), (b, _), (c, _)) => {
            assert(p@.dom() =~= set![*a, *b, *c]);
        },
        TaskHooksPromotion::Multiple(m) => {
            assert(p@.dom() =~= m@.dom());
        },
    }
}

impl<H: Copy> TaskHooksPromotion<H> {
    /// Adds a new instance `hook` of the hook type `hook_id`, moving the hook types to the next
    /// shape when a new type joins.
    pub fn promote(&mut self, hook_id: u64, hook: H)
        requires
            old(self).wf(),
        ensures
            final(self).wf(),
            final(self)@ == promoted(old(self)@, hook_id, hook),
            final(self)@.len() <= 3 ==> final(self).slot_order() == if old(self)@.contains_key(
                hook_id,
            ) {
                old(self).slot_order()
            } else {
                old(self).slot_order().push(hook_id)
            },
    {
        let ghost before = self@;
        let mut cur = TaskHooksPromotion::Empty;
        std::mem::swap(&mut cur, self);
        match cur {
            TaskHooksPromotion::Empty => {
                *self = TaskHooksPromotion::Single(hook_id, TaskHookInstances::Single(hook));
                assert(self@ =~= promoted(before, hook_id, hook));
            },
            TaskHooksPromotion::Single(id, mut inst) => {
                if id == hook_id {
                    inst.push(hook);
                    *self = TaskHooksPromotion::Single(id, inst);
                } else {
                    *self = TaskHooksPromotion::Double(
                        (id, inst),
                        (hook_id, TaskHookInstances::Single(hook)),
                    );
                    assert(seq![id, hook_id] =~= seq![id].push(hook_id));
                }
                assert(self@ =~= promoted(before, hook_id, hook));
            },
            TaskHooksPromotion::Double((id1, mut inst1), (id2, mut inst2)) => {
                if id1 == hook_id {
                    inst1.push(hook);
                    *self = TaskHooksPromotion::Double((id1, inst1), (id2, inst2));
                } else if id2 == hook_id {
                    inst2.push(hook);
                    *self = TaskHooksPromotion::Double((id1, inst1), (id2, inst2));
                } else {
                    *self = TaskHooksPromotion::Triplet(
                        (id1, inst1),
                        (id2, inst2),
                        (hook_id, TaskHookInstances::Single(hook)),
                    );
                    assert(seq![id1, id2, hook_id] =~= seq![id1, id2].push(hook_id));
                }
                assert(self@ =~= promoted(before, hook_id, hook));
            },
            TaskHooksPromotion::Triplet((id1, mut inst1), (id2, mut inst2), (id3, mut inst3)) => {
                if id1 == hook_id {
                    inst1.push(hook);
                    *self = TaskHooksPromotion::Triplet((id1, inst1), (id2, inst2), (id3, inst3));
                    assert(self@ =~= promoted(before, hook_id, hook));
                } else if id2 == hook_id {
                    inst2.push(hook);
                    *self = TaskHooksPromotion::Triplet((id1, inst1), (id2, inst2), (id3, inst3));
                    assert(self@ =~= promoted(before, hook_id, hook));
                } else if id3 == hook_id {
                    inst3.push(hook);
                    *self = TaskHooksPromotion::Triplet((id1, inst1), (id2, inst2), (id3, inst3));
                    assert(self@ =~= promoted(before, hook_id, hook));
                } else {
                    let ghost (v1, v2, v3) = (inst1@, inst2@, inst3@);
                    let ghost (w1, w2, w3) = (inst1.wf(), inst2.wf(), inst3.wf());
                    let mut map: HashMap<u64, TaskHookInstances<H>> = HashMap::with_capacity(4);
                    map.insert(id1, inst1);
                    map.insert(id2, inst2);
                    map.insert(id3, inst3);
                    map.insert(hook_id, TaskHookInstances::Single(hook));
                    proof {
                        assert(map@.dom() =~= set![id1, id2, id3, hook_id]);
                        assert(map@.len() == 4);
                    }
                    *self = TaskHooksPromotion::Multiple(map);
                    assert(self@ =~= promoted(before, hook_id, hook));
                }
            },
            TaskHooksPromotion::Multiple(mut map) => {
                let ghost m0 = map@;
                match map.remove(&hook_id) {
                    Some(mut inst) => {
                        inst.push(hook);
                        map.insert(hook_id, inst);
                        proof {
                            assert(map@.dom() =~= m0.dom());
                        }
                    },
                    None => {
                        map.insert(hook_id, TaskHookInstances::Single(hook));
                        proof {
                            assert(map@.dom() =~= m0.dom().insert(hook_id));
                        }
                    },
                }
                *self = TaskHooksPromotion::Multiple(map);
                assert(self@ =~= promoted(before, hook_id, hook));
            },
        }
        proof {
            lemma_promotion_shape(&*self);
            assert(seq![hook_id] =~= Seq::<u64>::empty().push(hook_id));
        }
    }
}

/// Keeping the hook types of `m` among up to three slots, slot after slot.
proof fn lemma_keep_slots<H>(a: u64, b: u64, c: u64, m: Map<u64, Seq<H>>)
    ensures
        Seq::<u64>::empty().filter(|k: u64| m.contains_key(k)) == Seq::<u64>::empty(),
        seq![a].filter(|k: u64| m.contains_key(k)) == if m.contains_key(a) {
            seq![a]
        } else {
            Seq::<u64>::empty()
        },
        seq![a, b].filter(|k: u64| m.contains_key(k)) == if m.contains_key(b) {
            seq![a].filter(|k: u64| m.contains_key(k)).push(b)
        } else {
            seq![a].filter(|k: u64| m.contains_key(k))
        },
        seq![a, b, c].filter(|k: u64| m.contains_key(k)) == if m.contains_key(c) {
            seq![a, b].filter(|k: u64| m.contains_key(k)).push(c)
        } else {
            seq![a, b].filter(|k: u64| m.contains_key(k))
        },
{
    reveal(Seq::filter);
    assert(seq![a].drop_last() =~= Seq::<u64>::empty());
    assert(seq![a, b].drop_last() =~= seq![a]);
    assert(seq![a, b, c].drop_last() =~= seq![a, b]);
    assert(Seq::<u64>::empty().push(a) =~= seq![a]);
}

impl<H: Copy> TaskHooksPromotion<H> {
    /// The newest instance of the hook type `hook_id`, if that type is attached (a type whose
    /// instances have all been taken out must not be asked for).
    pub fn fetch(&self, hook_id: u64) -> (r: Option<H>)
        requires
            self.wf(),
            self@.contains_key(hook_id) ==> self@[hook_id].len() > 0,
        ensures
            r == fetched(self@, hook_id),
    {
        match self {
            TaskHooksPromotion::Single(id, inst) => {
                if *id == hook_id {
                    return Some(inst.get());
                }
            },
            TaskHooksPromotion::Double((id1, inst1), (id2, inst2)) => {
                if *id1 == hook_id {
                    return Some(inst1.get());
                }
                if *id2 == hook_id {
                    return Some(inst2.get());
                }
            },
            TaskHooksPromotion::Triplet((id1, inst1), (id2, inst2), (id3, inst3)) => {
                if *id1 == hook_id {
                    return Some(inst1.get());
                }
                if *id2 == hook_id {
                    return Some(inst2.get());
                }
                if *id3 == hook_id {
                    return Some(inst3.get());
                }
            },
            TaskHooksPromotion::Multiple(map) => {
                return match map.get(&hook_id) {
                    Some(inst) => Some(inst.get()),
                    None => None,
                };
            },
            TaskHooksPromotion::Empty => {},
        }
        None
    }

    /// Takes out an instance of the hook type `hook_id` (see `removed`), moving the hook types
    /// back to the previous shape when one of them leaves.
    pub fn remove(&mut self, hook_id: u64) -> (r: Option<H>)
        requires
            old(self).wf(),
        ensures
            final(self).wf(),
            (r, final(self)@) == removed(old(self)@, hook_id),
            old(self)@.len() <= 3 ==> final(self).slot_order() == old(self).slot_order().filter(
                |k: u64| final(self)@.contains_key(k),
            ),
    {
        proof {
            lemma_promotion_shape(&*self);
        }
        let ghost before = self@;
        let mut cur = TaskHooksPromotion::Empty;
        std::mem::swap(&mut cur, self);
        match cur {
            TaskHooksPromotion::Double((id1, mut inst1), (id2, mut inst2)) => {
                if id1 == hook_id {
                    match inst1.pop() {
                        Some(instance) => {
                            *self = TaskHooksPromotion::Double((id1, inst1), (id2, inst2));
                            assert(self@ =~= before.insert(hook_id, before[hook_id].drop_last()));
                            proof {
                                lemma_keep_slots(id1, id2, 0, self@);
                            }
                            return Some(instance);
                        },
                        None => {
                            *self = TaskHooksPromotion::Single(id2, inst2);
                            assert(self@ =~= before.remove(hook_id));
                            proof {
                                lemma_keep_slots(id1, id2, 0, self@);
                            }
                            return None;
                        },
                    }
                } else if id2 == hook_id {
                    match inst2.pop() {
                        Some(instance) => {
                            *self = TaskHooksPromotion::Double((id1, inst1), (id2, inst2));
                            assert(self@ =~= before.insert(hook_id, before[hook_id].drop_last()));
                            proof {
                                lemma_keep_slots(id1, id2, 0, self@);
                            }
                            return Some(instance);
                        },
                        None => {
                            *self = TaskHooksPromotion::Single(id1, inst1);
                            assert(self@ =~= before.remove(hook_id));
                            proof {
                                lemma_keep_slots(id1, id2, 0, self@);
                            }
                            return None;
                        },
                    }
                }
                *self = TaskHooksPromotion::Double((id1, inst1), (id2, inst2));
                proof {
                    lemma_keep_slots(id1, id2, 0, self@);
                }
                None
            },
            TaskHooksPromotion::Triplet((id1, mut inst1), (id2, mut inst2), (id3, mut inst3)) => {
                if id1 == hook_id {
                    match inst1.pop() {
                        Some(instance) => {
                            *self = TaskHooksPromotion::Triplet(
                                (id1, inst1),
                                (id2, inst2),
                                (id3, inst3),
                            );
                            assert(self@ =~= before.insert(hook_id, before[hook_id].drop_last()));
                            proof {
                                lemma_keep_slots(id1, id2, id3, self@);
                            }
                            return Some(instance);
                        },
                        None => {
                            *self = TaskHooksPromotion::Double((id2, inst2), (id3, inst3));
                            assert(self@ =~= before.remove(hook_id));
                            proof {
                                lemma_keep_slots(id1, id2, id3, self@);
                            }
                            return None;
                        },
                    }
                } else if id2 == hook_id {
                    match inst2.pop() {
                        Some(instance) => {
                            *self = TaskHooksPromotion::Triplet(
                                (id1, inst1),
                                (id2, inst2),
                                (id3, inst3),
                            );
                            assert(self@ =~= before.insert(hook_id, before[hook_id].drop_last()));
                            proof {
                                lemma_keep_slots(id1, id2, id3, self@);
                            }
                            return Some(instance);
                        },
                        None => {
                            *self = TaskHooksPromotion::Double((id1, inst1), (id3, inst3));
                            assert(self@ =~= before.remove(hook_id));
                            proof {
                                lemma_keep_slots(id1, id2, id3, self@);
                            }
                            return None;
                        },
                    }
                } else if id3 == hook_id {
                    match inst3.pop() {
                        Some(instance) => {
                            *self = TaskHooksPromotion::Triplet(
                                (id1, inst1),
                                (id2, inst2),
                                (id3, inst3),
                            );
                            assert(self@ =~= before.insert(hook_id, before[hook_id].drop_last()));
                            proof {
                                lemma_keep_slots(id1, id2, id3, self@);
                            }
                            return Some(instance);
                        },
                        None => {
                            *self = TaskHooksPromotion::Double((id1, inst1), (id2, inst2));
                            assert(self@ =~= before.remove(hook_id));
                            proof {
                                lemma_keep_slots(id1, id2, id3, self@);
                            }
                            return None;
                        },
                    }
                }
                *self = TaskHooksPromotion::Triplet((id1, inst1), (id2, inst2), (id3, inst3));
                proof {
                    lemma_keep_slots(id1, id2, id3, self@);
                }
                None
            },
            TaskHooksPromotion::Multiple(mut map) => {
                let ghost m0 = map@;
                let mut taken = match map.remove(&hook_id) {
                    Some(inst) => inst,
                    None => {
                        *self = TaskHooksPromotion::Multiple(map);
                        assert(self@ =~= before);
                        return None;
                    },
                };
                let instance = taken.pop();
                proof {
                    assert(map@.dom() =~= m0.dom().remove(hook_id));
                }
                if map.len() == 3 {
                    let ks = map_keys(&map);
                    let ghost m1 = map@;
                    proof {
                        assert(ks@.contains(ks@[0]));
                        assert(ks@.contains(ks@[1]));
                        assert(ks@.contains(ks@[2]));
                    }
                    let k0 = ks[0];
                    let k1 = ks[1];
                    let k2 = ks[2];
                    let inst0 = map.remove(&k0).unwrap();
                    let inst1 = map.remove(&k1).unwrap();
                    let inst2 = map.remove(&k2).unwrap();
                    proof {
                        assert(m1.dom() =~= set![k0, k1, k2]) by {
                            assert forall|x: u64| m1.dom().contains(x) implies set![
                                k0,
                                k1,
                                k2,
                            ].contains(x) by {
                                assert(ks@.to_set().contains(x));
                                let j = choose|j: int| 0 <= j < ks@.len() && ks@[j] == x;
                            }
                        }
                    }
                    *self = TaskHooksPromotion::Triplet((k0, inst0), (k1, inst1), (k2, inst2));
                    assert(self@ =~= before.remove(hook_id));
                } else {
                    *self = TaskHooksPromotion::Multiple(map);
                    assert(self@ =~= before.remove(hook_id));
                }
                instance
            },
            TaskHooksPromotion::Single(id, _) => {
                assert(self@ =~= Map::<u64, Seq<H>>::empty());
                proof {
                    lemma_keep_slots(id, 0, 0, self@);
                }
                None
            },
            TaskHooksPromotion::Empty => {
                assert(self@ =~= Map::<u64, Seq<H>>::empty());
                proof {
                    lemma_keep_slots(0, 0, 0, self@);
                }
                None
            },
        }
    }

    /// Gives up all the instances of all the hook types, type after type, for their release.
    pub fn free(self) -> (r: Vec<H>)
        requires
            self.wf(),
        ensures
            exists|ks: Seq<u64>| self.walk_order(ks) && r@ == instances_in_order(self@, ks),
    {
        proof {
            lemma_promotion_shape(&self);
        }
        let ghost whole = self@;
        let ghost order = self.slot_order();
        let ghost this = self;
        match self {
            TaskHooksPromotion::Empty => {
                let r = Vec::new();
                proof {
                    assert(order.to_set() =~= whole.dom());
                    assert(r@ =~= instances_in_order(whole, order));
                    assert(this.walk_order(order) && r@ == instances_in_order(this@, order));
                }
                r
            },
            TaskHooksPromotion::Single(a, inst) => {
                let r = inst.free();
                proof {
                    assert(order[0] == a);
                    assert(order.to_set() =~= whole.dom());
                    assert(order.drop_last() =~= seq![]);
                    assert(instances_in_order(whole, order.drop_last()) =~= seq![]);
                    assert(r@ =~= instances_in_order(whole, order));
                    assert(this.walk_order(order) && r@ == instances_in_order(this@, order));
                }
                r
            },
            TaskHooksPromotion::Double((a, inst1), (b, inst2)) => {
                let mut r = inst1.free();
                let mut more = inst2.free();
                r.append(&mut more);
                proof {
                    assert(order[0] == a && order[1] == b);
                    assert(order.to_set() =~= whole.dom());
                    assert(order.drop_last() =~= seq![a]);
                    assert(order.drop_last().drop_last() =~= seq![]);
                    assert(instances_in_order(whole, order.drop_last().drop_last()) =~= seq![]);
                    assert(instances_in_order(whole, order.drop_last()) =~= whole[a]);
                    assert(r@ =~= instances_in_order(whole, order));
                    assert(this.walk_order(order) && r@ == instances_in_order(this@, order));
                }
                r
            },
            TaskHooksPromotion::Triplet((a, inst1), (b, inst2), (c, inst3)) => {
                let mut r = inst1.free();
                let mut more = inst2.free();
                r.append(&mut more);
                let mut last = inst3.free();
                r.append(&mut last);
                proof {
                    assert(order[0] == a && order[1] == b && order[2] == c);
                    assert(order.to_set() =~= whole.dom());
                    assert(order.drop_last() =~= seq![a, b]);
                    assert(order.drop_last().drop_last() =~= seq![a]);
                    assert(order.drop_last().drop_last().drop_last() =~= seq![]);
                    assert(instances_in_order(whole, order.drop_last().drop_last().drop_last())
                        =~= seq![]);
                    assert(instances_in_order(whole, order.drop_last().drop_last()) =~= whole[a]);
                    assert(instances_in_order(whole, order.drop_last()) =~= whole[a] + whole[b]);
                    assert(r@ =~= instances_in_order(whole, order));
                    assert(this.walk_order(order) && r@ == instances_in_order(this@, order));
                }
                r
            },
            TaskHooksPromotion::Multiple(mut map) => {
                let ks = map_keys(&map);
                let ghost m0 = map@;
                let mut r: Vec<H> = Vec::new();
                let mut i: usize = 0;
                while i < ks.len()
                    invariant
                        ks@.no_duplicates(),
                        ks@.to_set() == m0.dom(),
                        i <= ks@.len(),
                        forall|j: int|
                            i <= j < ks@.len() ==> map@.contains_key(#[trigger] ks@[j]) && map@[ks@[j]]
                                == m0[ks@[j]],
                        whole == Map::new(|id: u64| m0.contains_key(id), |id: u64| m0[id]@),
                        r@ == instances_in_order(whole, ks@.take(i as int)),
                    decreases ks.len() - i,
                {
                    let k = ks[i];
                    proof {
                        assert(ks@.contains(k));
                    }
                    let inst = map.remove(&k).unwrap();
                    let mut more = inst.free();
                    r.append(&mut more);
                    proof {
                        assert(ks@.take(i as int + 1).drop_last() =~= ks@.take(i as int));
                        assert forall|j: int| i + 1 <= j < ks@.len() implies map@.contains_key(
                            #[trigger] ks@[j],
                        ) && map@[ks@[j]] == m0[ks@[j]] by {
                            assert(ks@[j] != ks@[i as int]);
                        }
                    }
                    i += 1;
                }
                proof {
                    assert(ks@.take(ks@.len() as int) =~= ks@);
                    assert(whole.dom() =~= m0.dom());
                    assert(this.walk_order(ks@) && r@ == instances_in_order(this@, ks@));
                }
                r
            },
        }
    }
}

/// Asking for the hook type `id` right after one of its instances joined gives that instance.
pub proof fn law_fetch_after_promote<H>(m: Map<u64, Seq<H>>, id: u64, h: H)
    ensures
        fetched(promoted(m, id, h), id) == Some(h),
{
}

/// Removing an instance of the hook type `id` right after one of its instances joined gives
/// that instance back, provided at least two hook types are attached then; and, when the type
/// was there already and two or three types are attached, it leaves the hooks as they were.
pub proof fn law_remove_after_promote<H>(m: Map<u64, Seq<H>>, id: u64, h: H)
    requires
        m.dom().finite(),
        promoted(m, id, h).len() >= 2,
    ensures
        removed(promoted(m, id, h), id).0 == Some(h),
        m.contains_key(id) && m.len() <= 3 ==> removed(promoted(m, id, h), id).1 == m,
{
    let p = promoted(m, id, h);
    if m.contains_key(id) {
        assert(p.dom() =~= m.dom());
        if m.len() <= 3 {
            assert(p[id].drop_last() =~= m[id]);
            assert(p.insert(id, p[id].drop_last()) =~= m);
        }
    }
}

/// The newest instance is the one taken out: after `push(h)`, `pop` gives `h` and leaves the
/// instances as they were.
pub proof fn law_pop_after_push<H>(s: Seq<H>, h: H)
    ensures
        s.push(h).len() > 0,
        s.push(h).last() == h,
        s.push(h).drop_last() == s,
{
    assert(s.push(h).drop_last() =~= s);
}

/// The hooks attached to one task instance: for each event type, its hook types and their
/// instances.
pub struct TaskHookTable<H> {
    pub events: HashMap<u64, TaskHooksPromotion<H>>,
}

impl<H> View for TaskHookTable<H> {
    type V = Map<u64, Map<u64, Seq<H>>>;

    open spec fn view(&self) -> Map<u64, Map<u64, Seq<H>>> {
        Map::new(|e: u64| self.events@.contains_key(e), |e: u64| self.events@[e]@)
    }
}

/// The hook types of an event in `t`, or none.
pub open spec fn event_hooks<H>(t: Map<u64, Map<u64, Seq<H>>>, event_id: u64) -> Map<u64, Seq<H>> {
    if t.contains_key(event_id) {
        t[event_id]
    } else {
        Map::empty()
    }
}

/// The newest instances of the hook types `ks`, type after type.
pub open spec fn newest_in_order<H>(m: Map<u64, Seq<H>>, ks: Seq<u64>) -> Seq<H> {
    Seq::new(ks.len(), |j: int| m[ks[j]].last())
}

impl<H: Copy> TaskHookTable<H> {
    /// Every event's hooks are well formed.
    pub open spec fn wf(&self) -> bool {
        forall|e: u64| self.events@.contains_key(e) ==> (#[trigger] self.events@[e]).wf()
    }

    /// The hooks of an event, as they are held.
    pub open spec fn promotion(&self, event_id: u64) -> TaskHooksPromotion<H> {
        self.events@[event_id]
    }

    /// The hook types of an event held in place, in their order (none for an event without
    /// hooks, and none when they are held in a map).
    pub open spec fn slots(&self, event_id: u64) -> Seq<u64> {
        if self.events@.contains_key(event_id) {
            self.promotion(event_id).slot_order()
        } else {
            Seq::empty()
        }
    }

    /// Asking for the hook type `hook_id` of the event does not reach a type whose instances
    /// have all been taken out.
    pub open spec fn fetchable(&self, event_id: u64, hook_id: u64) -> bool {
        event_hooks(self@, event_id).contains_key(hook_id) ==> event_hooks(self@, event_id)[hook_id].len() > 0
    }

    /// Every hook type of the event still has an instance.
    pub open spec fn emittable(&self, event_id: u64) -> bool {
        forall|k: u64| #[trigger] event_hooks(self@, event_id).contains_key(k) ==> event_hooks(self@, event_id)[k].len() > 0
    }

    /// A table with no hooks.
    pub fn new() -> (r: Self)
        ensures
            r.wf(),
            r@ == Map::<u64, Map<u64, Seq<H>>>::empty(),
    {
        let r = TaskHookTable { events: HashMap::new() };
        assert(r@ =~= Map::<u64, Map<u64, Seq<H>>>::empty());
        r
    }

    /// Attaches `hook`, an instance of the hook type `hook_id`, to the event `event_id`.
    pub fn attach(&mut self, event_id: u64, hook_id: u64, hook: H)
        requires
            old(self).wf(),
        ensures
            final(self).wf(),
            final(self)@ == old(self)@.insert(
                event_id,
                promoted(event_hooks(old(self)@, event_id), hook_id, hook),
            ),
            final(self)@[event_id].len() <= 3 ==> final(self).slots(event_id) == if event_hooks(
                old(self)@,
                event_id,
            ).contains_key(hook_id) {
                old(self).slots(event_id)
            } else {
                old(self).slots(event_id).push(hook_id)
            },
            forall|e: u64| e != event_id ==> #[trigger] final(self).slots(e) == old(self).slots(e),
    {
        let ghost before = self@;
        let mut promotion = match self.events.remove(&event_id) {
            Some(p) => p,
            None => TaskHooksPromotion::Empty,
        };
        proof {
            assert(promotion@ =~= event_hooks(before, event_id));
        }
        promotion.promote(hook_id, hook);
        self.events.insert(event_id, promotion);
        assert(self@ =~= before.insert(
            event_id,
            promoted(event_hooks(before, event_id), hook_id, hook),
        ));
    }

    /// The newest instance of the hook type `hook_id` attached to the event `event_id`.
    pub fn get(&self, event_id: u64, hook_id: u64) -> (r: Option<H>)
        requires
            self.wf(),
            self.fetchable(event_id, hook_id),
        ensures
            r == fetched(event_hooks(self@, event_id), hook_id),
    {
        match self.events.get(&event_id) {
            Some(p) => p.fetch(hook_id),
            None => None,
        }
    }

    /// Takes out an instance of the hook type `hook_id` attached to the event `event_id` (see
    /// `removed`); an event left with no hook types at all after giving an instance is
    /// dropped.
    pub fn detach(&mut self, event_id: u64, hook_id: u64) -> (r: Option<H>)
        requires
            old(self).wf(),
        ensures
            final(self).wf(),
            !old(self)@.contains_key(event_id) ==> r is None && final(self)@ == old(self)@,
            old(self)@.contains_key(event_id) ==> ({
                let (x, rest) = removed(old(self)@[event_id], hook_id);
                &&& r == x
                &&& final(self)@ == if x is Some && rest.len() == 0 {
                    old(self)@.remove(event_id)
                } else {
                    old(self)@.insert(event_id, rest)
                }
            }),
            old(self)@.contains_key(event_id) && old(self)@[event_id].len() <= 3
                && final(self)@.contains_key(event_id) ==> final(self).slots(event_id)
                == old(self).slots(event_id).filter(
                |k: u64| final(self)@[event_id].contains_key(k),
            ),
            forall|e: u64| e != event_id ==> #[trigger] final(self).slots(e) == old(self).slots(e),
    {
        let ghost before = self@;
        let mut promotion = match self.events.remove(&event_id) {
            Some(p) => p,
            None => {
                assert(self@ =~= before);
                return None;
            },
        };
        let hook = promotion.remove(hook_id);
        proof {
            lemma_promotion_shape(&promotion);
        }
        let now_empty = match promotion {
            TaskHooksPromotion::Empty => true,
            _ => false,
        };
        if hook.is_some() && now_empty {
            assert(self@ =~= before.remove(event_id));
        } else {
            self.events.insert(event_id, promotion);
            assert(self@ =~= before.insert(event_id, removed(before[event_id], hook_id).1));
        }
        hook
    }

    /// Whether asking for the hook type `hook_id` of the event is answered (see `fetchable`).
    pub fn can_fetch(&self, event_id: u64, hook_id: u64) -> (r: bool)
        requires
            self.wf(),
        ensures
            r == self.fetchable(event_id, hook_id),
    {
        match self.events.get(&event_id) {
            Some(p) => {
                proof {
                    lemma_promotion_shape(p);
                }
                match p {
                    TaskHooksPromotion::Empty => true,
                    TaskHooksPromotion::Single(id, inst) => *id != hook_id || !is_empty(inst),
                    TaskHooksPromotion::Double((id1, inst1), (id2, inst2)) => (*id1 != hook_id
                        || !is_empty(inst1)) && (*id2 != hook_id || !is_empty(inst2)),
                    TaskHooksPromotion::Triplet((id1, inst1), (id2, inst2), (id3, inst3)) => (*id1
                        != hook_id || !is_empty(inst1)) && (*id2 != hook_id || !is_empty(inst2))
                        && (*id3 != hook_id || !is_empty(inst3)),
                    TaskHooksPromotion::Multiple(map) => match map.get(&hook_id) {
                        Some(inst) => !is_empty(inst),
                        None => true,
                    },
                }
            },
            None => true,
        }
    }
}

/// Whether a list of instances holds none.
fn is_empty<H>(inst: &TaskHookInstances<H>) -> (r: bool)
    ensures
        r == (inst@.len() == 0),
{
    match inst {
        TaskHookInstances::Empty => true,
        TaskHookInstances::Single(_) => false,
        TaskHookInstances::Multiple(hooks) => hooks.len() == 0,
    }
}

/// The instances of the events `es`, event after event, each event's hook types taken in the
/// order given for it in `orders`.
pub open spec fn released_in_order<H>(
    t: Map<u64, Map<u64, Seq<H>>>,
    es: Seq<u64>,
    orders: Seq<Seq<u64>>,
) -> Seq<H>
    decreases es.len(),
{
    if es.len() == 0 || orders.len() != es.len() {
        seq![]
    } else {
        released_in_order(t, es.drop_last(), orders.drop_last()) + instances_in_order(
            t[es.last()],
            orders.last(),
        )
    }
}

impl<H: Copy> TaskHookTable<H> {
    /// The hooks to notify of the event `event_id`: the newest instance of each hook type
    /// attached to it, type after type.
    pub fn emit(&self, event_id: u64) -> (r: Vec<H>)
        requires
            self.wf(),
            self.emittable(event_id),
        ensures
            !self@.contains_key(event_id) ==> r@ == Seq::<H>::empty(),
            self@.contains_key(event_id) ==> exists|ks: Seq<u64>|
                self.promotion(event_id).walk_order(ks) && r@ == newest_in_order(
                    self@[event_id],
                    ks,
                ),
    {
        let p = match self.events.get(&event_id) {
            Some(p) => p,
            None => {
                return Vec::new();
            },
        };
        let ghost view = p@;
        let ghost order = p.slot_order();
        proof {
            lemma_promotion_shape(p);
            assert(view == self@[event_id]);
            assert(view == event_hooks(self@, event_id));
            assert forall|k: u64| #[trigger] view.contains_key(k) implies view[k].len() > 0 by {
                assert(event_hooks(self@, event_id).contains_key(k));
            }
        }
        match p {
            TaskHooksPromotion::Empty => {
                let r = Vec::new();
                proof {
                    assert(order.to_set() =~= view.dom());
                    assert(r@ =~= newest_in_order(view, order));
                    assert(p.walk_order(order));
                }
                r
            },
            TaskHooksPromotion::Single(a, inst) => {
                proof {
                    assert(view.contains_key(*a));
                }
                let r = vec![inst.get()];
                proof {
                    assert(order[0] == *a);
                    assert(order.to_set() =~= view.dom());
                    assert(r@ =~= newest_in_order(view, order));
                    assert(p.walk_order(order));
                }
                r
            },
            TaskHooksPromotion::Double((a, inst1), (b, inst2)) => {
                proof {
                    assert(view.contains_key(*a) && view.contains_key(*b));
                }
                let r = vec![inst1.get(), inst2.get()];
                proof {
                    assert(order[0] == *a && order[1] == *b);
                    assert(order.to_set() =~= view.dom());
                    assert(r@ =~= newest_in_order(view, order));
                    assert(p.walk_order(order));
                }
                r
            },
            TaskHooksPromotion::Triplet((a, inst1), (b, inst2), (c, inst3)) => {
                proof {
                    assert(view.contains_key(*a) && view.contains_key(*b) && view.contains_key(*c));
                }
                let r = vec![inst1.get(), inst2.get(), inst3.get()];
                proof {
                    assert(order[0] == *a && order[1] == *b && order[2] == *c);
                    assert(order.to_set() =~= view.dom());
                    assert(r@ =~= newest_in_order(view, order));
                    assert(p.walk_order(order));
                }
                r
            },
            TaskHooksPromotion::Multiple(map) => {
                let ks = map_keys(map);
                let mut r: Vec<H> = Vec::new();
                let mut i: usize = 0;
                while i < ks.len()
                    invariant
                        ks@.to_set() == map@.dom(),
                        view == Map::new(|id: u64| map@.contains_key(id), |id: u64| map@[id]@),
                        forall|k: u64| #[trigger] view.contains_key(k) ==> view[k].len() > 0,
                        i <= ks@.len(),
                        r@.len() == i,
                        forall|j: int| 0 <= j < i ==> #[trigger] r@[j] == view[ks@[j]].last(),
                    decreases ks.len() - i,
                {
                    let k = ks[i];
                    proof {
                        assert(ks@.contains(k));
                        assert(view.contains_key(k));
                    }
                    let h = match map.get(&k) {
                        Some(inst) => inst.get(),
                        None => vstd::pervasive::unreached(),
                    };
                    r.push(h);
                    i += 1;
                }
                proof {
                    assert(view.dom() =~= map@.dom());
                    assert(r@ =~= newest_in_order(view, ks@));
                    assert(p.walk_order(ks@));
                }
                r
            },
        }
    }

    /// Whether every hook type of the event still has an instance (see `emittable`).
    pub fn can_emit(&self, event_id: u64) -> (r: bool)
        requires
            self.wf(),
        ensures
            r == self.emittable(event_id),
    {
        let p = match self.events.get(&event_id) {
            Some(p) => p,
            None => {
                return true;
            },
        };
        let ghost view = p@;
        proof {
            assert(view == event_hooks(self@, event_id));
        }
        match p {
            TaskHooksPromotion::Empty => true,
            TaskHooksPromotion::Single(a, inst) => {
                proof {
                    assert(view.contains_key(*a));
                }
                !is_empty(inst)
            },
            TaskHooksPromotion::Double((a, inst1), (b, inst2)) => {
                proof {
                    assert(view.contains_key(*a) && view.contains_key(*b));
                }
                !is_empty(inst1) && !is_empty(inst2)
            },
            TaskHooksPromotion::Triplet((a, inst1), (b, inst2), (c, inst3)) => {
                proof {
                    assert(view.contains_key(*a) && view.contains_key(*b) && view.contains_key(*c));
                }
                !is_empty(inst1) && !is_empty(inst2) && !is_empty(inst3)
            },
            TaskHooksPromotion::Multiple(map) => {
                let ks = map_keys(map);
                let mut i: usize = 0;
                while i < ks.len()
                    invariant
                        ks@.to_set() == map@.dom(),
                        view == Map::new(|id: u64| map@.contains_key(id), |id: u64| map@[id]@),
                        view == event_hooks(self@, event_id),
                        i <= ks@.len(),
                        forall|j: int| 0 <= j < i ==> view[#[trigger] ks@[j]].len() > 0,
                    decreases ks.len() - i,
                {
                    let k = ks[i];
                    proof {
                        assert(ks@.contains(k));
                    }
                    let empty = match map.get(&k) {
                        Some(inst) => is_empty(inst),
                        None => vstd::pervasive::unreached(),
                    };
                    if empty {
                        proof {
                            assert(view.contains_key(k));
                            assert(event_hooks(self@, event_id).contains_key(k));
                        }
                        return false;
                    }
                    i += 1;
                }
                proof {
                    assert forall|k: u64| #[trigger] view.contains_key(k) implies view[k].len()
                        > 0 by {
                        assert(ks@.to_set().contains(k));
                        let j = choose|j: int| 0 <= j < ks@.len() && ks@[j] == k;
                        assert(view[ks@[j]].len() > 0);
                    }
                }
                true
            },
        }
    }

    /// Gives up all the hook instances of all the events, event after event, for their
    /// release.
    pub fn free(self) -> (r: Vec<H>)
        requires
            self.wf(),
        ensures
            exists|es: Seq<u64>, orders: Seq<Seq<u64>>|
                {
                    &&& es.no_duplicates()
                    &&& es.to_set() == self@.dom()
                    &&& orders.len() == es.len()
                    &&& forall|i: int|
                        0 <= i < es.len() ==> self.promotion(#[trigger] es[i]).walk_order(
                            orders[i],
                        )
                    &&& r@ == released_in_order(self@, es, orders)
                },
    {
        let ghost whole = self@;
        let ghost this = self;
        let mut events = self.events;
        let es = map_keys(&events);
        let ghost m0 = events@;
        let ghost mut orders: Seq<Seq<u64>> = seq![];
        let mut r: Vec<H> = Vec::new();
        let mut i: usize = 0;
        while i < es.len()
            invariant
                es@.no_duplicates(),
                es@.to_set() == m0.dom(),
                m0 == this.events@,
                whole == this@,
                this.wf(),
                i <= es@.len(),
                orders.len() == i,
                forall|j: int|
                    i <= j < es@.len() ==> events@.contains_key(#[trigger] es@[j]) && events@[es@[j]]
                        == m0[es@[j]],
                forall|j: int|
                    0 <= j < i ==> this.promotion(#[trigger] es@[j]).walk_order(orders[j]),
                r@ == released_in_order(whole, es@.take(i as int), orders),
            decreases es.len() - i,
        {
            let e = es[i];
            proof {
                assert(es@.contains(e));
            }
            let p = events.remove(&e).unwrap();
            let ghost pv = p;
            let mut sub = p.free();
            let ghost ks = choose|ks: Seq<u64>| pv.walk_order(ks) && sub@ == instances_in_order(pv@, ks);
            r.append(&mut sub);
            proof {
                let es2 = es@.take(i as int + 1);
                let orders2 = orders.push(ks);
                assert(es2.drop_last() =~= es@.take(i as int));
                assert(orders2.drop_last() =~= orders);
                assert(whole[e] == pv@);
                orders = orders2;
                assert forall|j: int| i + 1 <= j < es@.len() implies events@.contains_key(
                    #[trigger] es@[j],
                ) && events@[es@[j]] == m0[es@[j]] by {
                    assert(es@[j] != es@[i as int]);
                }
            }
            i += 1;
        }
        proof {
            assert(es@.take(es@.len() as int) =~= es@);
            assert(whole.dom() =~= m0.dom());
        }
        r
    }
}

/// The hook tables of all task instances.
pub struct TaskHookContainer<H> {
    pub instances: HashMap<usize, TaskHookTable<H>>,
}

impl<H> View for TaskHookContainer<H> {
    type V = Map<usize, Map<u64, Map<u64, Seq<H>>>>;

    open spec fn view(&self) -> Map<usize, Map<u64, Map<u64, Seq<H>>>> {
        Map::new(|i: usize| self.instances@.contains_key(i), |i: usize| self.instances@[i]@)
    }
}

/// The hook table of a task instance in `c`, or an empty one.
pub open spec fn instance_hooks<H>(
    c: Map<usize, Map<u64, Map<u64, Seq<H>>>>,
    instance_id: usize,
) -> Map<u64, Map<u64, Seq<H>>> {
    if c.contains_key(instance_id) {
        c[instance_id]
    } else {
        Map::empty()
    }
}

/// The hooks of all task instances after `h`, an instance of the hook type `id`, is attached to
/// the event `e` of the task instance `i`.
pub open spec fn attached<H>(
    c: Map<usize, Map<u64, Map<u64, Seq<H>>>>,
    i: usize,
    e: u64,
    id: u64,
    h: H,
) -> Map<usize, Map<u64, Map<u64, Seq<H>>>> {
    c.insert(i, instance_hooks(c, i).insert(e, promoted(event_hooks(instance_hooks(c, i), e), id, h)))
}

/// What detaching an instance of the hook type `id` from the event `e` of the task instance
/// `i` gives and leaves (see `removed`); an event left with no hook types at all after giving
/// an instance is dropped.
pub open spec fn detached<H>(
    c: Map<usize, Map<u64, Map<u64, Seq<H>>>>,
    i: usize,
    e: u64,
    id: u64,
) -> (Option<H>, Map<usize, Map<u64, Map<u64, Seq<H>>>>) {
    if !c.contains_key(i) || !c[i].contains_key(e) {
        (None, c)
    } else {
        let (x, rest) = removed(c[i][e], id);
        (
            x,
            c.insert(
                i,
                if x is Some && rest.len() == 0 {
                    c[i].remove(e)
                } else {
                    c[i].insert(e, rest)
                },
            ),
        )
    }
}

/// A hook attached to an event of a task instance is the one then found for its hook type.
pub proof fn law_get_after_attach<H>(
    c: Map<usize, Map<u64, Map<u64, Seq<H>>>>,
    i: usize,
    e: u64,
    id: u64,
    h: H,
)
    ensures
        fetched(event_hooks(instance_hooks(attached(c, i, e, id, h), i), e), id) == Some(h),
{
}

/// Attaching a hook is scoped to its task instance, its event and its hook type: every other
/// lookup gives what it gave before.
pub proof fn law_attach_leaves_other_lookups<H>(
    c: Map<usize, Map<u64, Map<u64, Seq<H>>>>,
    i: usize,
    e: u64,
    id: u64,
    h: H,
    j: usize,
    e2: u64,
    id2: u64,
)
    requires
        j != i || e2 != e || id2 != id,
    ensures
        fetched(event_hooks(instance_hooks(attached(c, i, e, id, h), j), e2), id2) == fetched(
            event_hooks(instance_hooks(c, j), e2),
            id2,
        ),
{
    if j == i && e2 == e {
        assert(event_hooks(instance_hooks(attached(c, i, e, id, h), j), e2) == promoted(
            event_hooks(instance_hooks(c, i), e),
            id,
            h,
        ));
    } else if j == i {
        assert(event_hooks(instance_hooks(attached(c, i, e, id, h), j), e2) == event_hooks(
            instance_hooks(c, j),
            e2,
        ));
    }
}

/// Detaching a hook type right after attaching an instance of it gives that instance back,
/// provided the event then holds at least two hook types.
pub proof fn law_detach_after_attach<H>(
    c: Map<usize, Map<u64, Map<u64, Seq<H>>>>,
    i: usize,
    e: u64,
    id: u64,
    h: H,
)
    requires
        event_hooks(instance_hooks(c, i), e).dom().finite(),
        promoted(event_hooks(instance_hooks(c, i), e), id, h).len() >= 2,
    ensures
        detached(attached(c, i, e, id, h), i, e, id).0 == Some(h),
{
    law_remove_after_promote(event_hooks(instance_hooks(c, i), e), id, h);
}

impl<H: Copy> TaskHookContainer<H> {
    /// Every instance's table is well formed.
    pub open spec fn wf(&self) -> bool {
        forall|i: usize| self.instances@.contains_key(i) ==> (#[trigger] self.instances@[i]).wf()
    }

    /// The hook table of a task instance, as it is held.
    pub open spec fn table(&self, instance_id: usize) -> TaskHookTable<H> {
        self.instances@[instance_id]
    }

    /// The hook types of an event of a task instance held in place, in their order.
    pub open spec fn slots(&self, instance_id: usize, event_id: u64) -> Seq<u64> {
        if self.instances@.contains_key(instance_id) {
            self.table(instance_id).slots(event_id)
        } else {
            Seq::empty()
        }
    }

    /// A container with no hooks.
    pub fn new() -> (r: Self)
        ensures
            r.wf(),
            r@ == Map::<usize, Map<u64, Map<u64, Seq<H>>>>::empty(),
    {
        let r = TaskHookContainer { instances: HashMap::new() };
        assert(r@ =~= Map::<usize, Map<u64, Map<u64, Seq<H>>>>::empty());
        r
    }

    /// Attaches `hook`, an instance of the hook type `hook_id`, to the event `event_id` of the
    /// task instance `instance_id`.
    pub fn attach(&mut self, instance_id: usize, event_id: u64, hook_id: u64, hook: H)
        requires
            old(self).wf(),
        ensures
            final(self).wf(),
            final(self)@ == attached(old(self)@, instance_id, event_id, hook_id, hook),
            final(self)@[instance_id][event_id].len() <= 3 ==> final(self).slots(
                instance_id,
                event_id,
            ) == if event_hooks(instance_hooks(old(self)@, instance_id), event_id).contains_key(
                hook_id,
            ) {
                old(self).slots(instance_id, event_id)
            } else {
                old(self).slots(instance_id, event_id).push(hook_id)
            },
            forall|i: usize, e: u64|
                i != instance_id || e != event_id ==> #[trigger] final(self).slots(i, e) == old(
                    self,
                ).slots(i, e),
    {
        let ghost before = self@;
        let mut table = match self.instances.remove(&instance_id) {
            Some(t) => t,
            None => TaskHookTable::new(),
        };
        proof {
            assert(table@ =~= instance_hooks(before, instance_id));
            assert forall|e: u64| #[trigger] table.slots(e) == old(self).slots(instance_id, e) by {
                if !old(self).instances@.contains_key(instance_id) {
                    assert(!table@.contains_key(e));
                    assert(!table.events@.contains_key(e));
                }
            }
        }
        let ghost old_table = table;
        table.attach(event_id, hook_id, hook);
        self.instances.insert(instance_id, table);
        assert(self@ =~= attached(before, instance_id, event_id, hook_id, hook));
        proof {
            assert forall|i: usize, e: u64|
                i != instance_id || e != event_id implies #[trigger] self.slots(i, e) == old(
                    self,
                ).slots(i, e) by {
                if i == instance_id {
                    assert(table.slots(e) == old_table.slots(e));
                }
            }
        }
    }

    /// The newest instance of the hook type `hook_id` attached to the event `event_id` of the
    /// task instance `instance_id`.
    pub fn get(&self, instance_id: usize, event_id: u64, hook_id: u64) -> (r: Option<H>)
        requires
            self.wf(),
            self.instances@.contains_key(instance_id) ==> self.table(instance_id).fetchable(
                event_id,
                hook_id,
            ),
        ensures
            r == fetched(event_hooks(instance_hooks(self@, instance_id), event_id), hook_id),
    {
        match self.instances.get(&instance_id) {
            Some(t) => t.get(event_id, hook_id),
            None => None,
        }
    }

    /// Takes out an instance of the hook type `hook_id` attached to the event `event_id` of the
    /// task instance `instance_id` (see `TaskHookTable::detach`).
    pub fn detach(&mut self, instance_id: usize, event_id: u64, hook_id: u64) -> (r: Option<H>)
        requires
            old(self).wf(),
        ensures
            final(self).wf(),
            (r, final(self)@) == detached(old(self)@, instance_id, event_id, hook_id),
            event_hooks(instance_hooks(old(self)@, instance_id), event_id).len() <= 3
                && event_hooks(instance_hooks(final(self)@, instance_id), event_id).len() > 0
                ==> final(self).slots(instance_id, event_id) == old(self).slots(
                instance_id,
                event_id,
            ).filter(|k: u64| final(self)@[instance_id][event_id].contains_key(k)),
            forall|i: usize, e: u64|
                i != instance_id || e != event_id ==> #[trigger] final(self).slots(i, e) == old(
                    self,
                ).slots(i, e),
    {
        let ghost before = self@;
        let mut table = match self.instances.remove(&instance_id) {
            Some(t) => t,
            None => {
                assert(self@ =~= before);
                return None;
            },
        };
        let hook = table.detach(event_id, hook_id);
        self.instances.insert(instance_id, table);
        proof {
            if !before[instance_id].contains_key(event_id) {
                assert(self@ =~= before);
            } else {
                assert(self@ =~= before.insert(instance_id, self@[instance_id]));
            }
        }
        hook
    }

    /// The hooks to notify of the event `event_id` of the task instance `instance_id` (see
    /// `TaskHookTable::emit`).
    pub fn emit(&self, instance_id: usize, event_id: u64) -> (r: Vec<H>)
        requires
            self.wf(),
            self.instances@.contains_key(instance_id) ==> self.table(instance_id).emittable(
                event_id,
            ),
        ensures
            !instance_hooks(self@, instance_id).contains_key(event_id) ==> r@ == Seq::<H>::empty(),
            instance_hooks(self@, instance_id).contains_key(event_id) ==> exists|ks: Seq<u64>|
                self.table(instance_id).promotion(event_id).walk_order(ks) && r@
                    == newest_in_order(self@[instance_id][event_id], ks),
    {
        match self.instances.get(&instance_id) {
            Some(t) => {
                proof {
                    if t@.contains_key(event_id) {
                        lemma_promotion_shape(&t.events@[event_id]);
                    }
                }
                t.emit(event_id)
            },
            None => Vec::new(),
        }
    }

    /// Drops the hook table of the task instance `instance_id`, giving up all its hook
    /// instances for their release (see `TaskHookTable::free`).
    pub fn remove_instance(&mut self, instance_id: usize) -> (r: Vec<H>)
        requires
            old(self).wf(),
        ensures
            final(self).wf(),
            final(self)@ == old(self)@.remove(instance_id),
            !old(self)@.contains_key(instance_id) ==> r@ == Seq::<H>::empty(),
            old(self)@.contains_key(instance_id) ==> exists|es: Seq<u64>, orders: Seq<Seq<u64>>|
                {
                    &&& es.no_duplicates()
                    &&& es.to_set() == old(self)@[instance_id].dom()
                    &&& orders.len() == es.len()
                    &&& forall|i: int|
                        0 <= i < es.len() ==> old(self).table(instance_id).promotion(
                            #[trigger] es[i],
                        ).walk_order(orders[i])
                    &&& r@ == released_in_order(old(self)@[instance_id], es, orders)
                },
    {
        let ghost before = self@;
        let r = match self.instances.remove(&instance_id) {
            Some(t) => {
                proof {
                    assert(before[instance_id] == t@);
                    assert(old(self).table(instance_id) == t);
                }
                t.free()
            },
            None => Vec::new(),
        };
        assert(self@ =~= before.remove(instance_id));
        r
    }
}

/// A hook that observes no event: it is attached for what it holds, not for what it hears.
pub trait NonObserverTaskHook: Send + Sync + 'static {}

/// Where a hook runs: the nesting depth of the frame, the task instance, and the frame.
pub struct TaskHookContext<'a, F: ?Sized> {
    depth: u64,
    instance_id: usize,
    frame: &'a F,
}

impl<'a, F: ?Sized> TaskHookContext<'a, F> {
    pub closed spec fn depth_spec(self) -> u64 {
        self.depth
    }

    pub closed spec fn instance_spec(self) -> usize {
        self.instance_id
    }

    pub closed spec fn frame_spec(self) -> &'a F {
        self.frame
    }

    /// A context at the given depth, for the task instance `instance_id` and its frame.
    pub fn new(depth: u64, instance_id: usize, frame: &'a F) -> (r: Self)
        ensures
            r.depth_spec() == depth,
            r.instance_spec() == instance_id,
            r.frame_spec() == frame,
    {
        TaskHookContext { depth, instance_id, frame }
    }

    /// How deep in nested frames the hook runs (0 at the task's own frame).
    pub fn depth(&self) -> (r: u64)
        ensures
            r == self.depth_spec(),
    {
        self.depth
    }

    /// The task instance the hook runs for.
    pub fn instance_id(&self) -> (r: usize)
        ensures
            r == self.instance_spec(),
    {
        self.instance_id
    }

    /// The frame the hook runs in.
    pub fn frame(&self) -> (r: &'a F)
        ensures
            r == self.frame_spec(),
    {
        self.frame
    }

    /// The newest instance of the hook type `hook_id` attached to the event `event_id` of the
    /// context's task instance, in `registry`.
    pub fn get_hook<H: Copy>(&self, registry: &TaskHookContainer<H>, event_id: u64, hook_id: u64) -> (r:
        Option<H>)
        requires
            registry.wf(),
            registry.instances@.contains_key(self.instance_spec()) ==> registry.table(
                self.instance_spec(),
            ).fetchable(event_id, hook_id),
        ensures
            r == fetched(
                event_hooks(instance_hooks(registry@, self.instance_spec()), event_id),
                hook_id,
            ),
    {
        registry.get(self.instance_id, event_id, hook_id)
    }
}

} // verus!
