//! Arena of live instances with stable identities and ordered iteration.
//!
//! The store exclusively owns all instances.  A handle is the slot index an
//! instance was created in; it stays valid for the instance's lifetime.  The
//! stable numeric id is assigned monotonically at allocation and permanently
//! retired at destruction: a destroyed id is never seen again, which the
//! well-formedness invariant (ids strictly increase with creation order and
//! stay below the allocation counter) makes provable.

use crate::field::Field;
use crate::field::FieldV;
use crate::field::array_read;
use crate::field::array_write;
use crate::instance::Instance;
use crate::instance::InstanceV;
use crate::instance::SpriteDesc;
use crate::instance::new_instance_v;
use crate::instance::sprites_wf;
use crate::instance::with_bbox;
use vstd::prelude::*;

verus! {

/// The id handed to the first instance ever allocated.
pub const FIRST_INSTANCE_ID: i32 = 100001;

/// Mathematical model of an [`InstanceStore`]: the slot sequence (absence
/// marks a destroyed or never-used slot) and the next unused stable id.
#[verifier::ext_equal]
pub struct StoreV {
    pub slots: Seq<Option<InstanceV>>,
    pub next_id: i32,
}

/// The model of one slot.
pub open spec fn slot_view(o: Option<Instance>) -> Option<InstanceV> {
    match o {
        Option::None => Option::None,
        Option::Some(i) => Option::Some(i@),
    }
}

/// Handle `h` refers to a live instance of `s`.
pub open spec fn store_live(s: StoreV, h: int) -> bool {
    0 <= h < s.slots.len() && s.slots[h] is Some
}

/// The instance behind a live handle.
pub open spec fn store_inst(s: StoreV, h: int) -> InstanceV {
    s.slots[h]->Some_0
}

/// Stable-identity invariant: ids strictly increase with creation order
/// (slot order), and every live id lies below the allocation counter.
pub open spec fn store_ids_ok(s: StoreV) -> bool {
    &&& forall|h: int| #[trigger] store_live(s, h) ==> store_inst(s, h).id < s.next_id
    &&& forall|h1: int, h2: int|
        store_live(s, h1) && store_live(s, h2) && h1 < h2 ==> store_inst(s, h1).id < store_inst(
            s,
            h2,
        ).id
}

/// Some live instance of `s` carries `id`.
pub open spec fn id_live(s: StoreV, id: int) -> bool {
    exists|h: int| #[trigger] store_live(s, h) && store_inst(s, h).id == id
}

/// The store after allocating one instance of `object_index`: a fresh live
/// slot at the end, under the next unused id.
pub open spec fn alloc_spec(s: StoreV, object_index: i32) -> StoreV {
    StoreV {
        slots: s.slots.push(Option::Some(new_instance_v(s.next_id, object_index))),
        next_id: (s.next_id + 1) as i32,
    }
}

/// The store after destroying the instance behind `h`.
pub open spec fn destroy_spec(s: StoreV, h: int) -> StoreV {
    StoreV { slots: s.slots.update(h, Option::None), next_id: s.next_id }
}

/// Drawing order: `a` is drawn (and iterated) strictly before `b` —
/// ascending depth, ties broken by creation order, which slot order mirrors.
pub open spec fn draw_before(s: StoreV, a: int, b: int) -> bool {
    ||| store_inst(s, a).depth < store_inst(s, b).depth
    ||| (store_inst(s, a).depth == store_inst(s, b).depth && a < b)
}

/// `o` lists exactly the live handles of `s`, in drawing order.
pub open spec fn drawing_order_ok(s: StoreV, o: Seq<usize>) -> bool {
    &&& forall|k: int| 0 <= k < o.len() ==> store_live(s, #[trigger] o[k] as int)
    &&& forall|k1: int, k2: int|
        0 <= k1 < k2 < o.len() ==> draw_before(s, #[trigger] o[k1] as int, #[trigger] o[k2] as int)
    &&& forall|h: int|
        #[trigger] store_live(s, h) ==> exists|k: int|
            0 <= k < o.len() && (#[trigger] o[k]) as int == h
}

/// Exclusive owner of all live instances.
pub struct InstanceStore {
    slots: Vec<Option<Instance>>,
    next_id: i32,
}

impl View for InstanceStore {
    type V = StoreV;

    closed spec fn view(&self) -> StoreV {
        StoreV {
            slots: self.slots@.map_values(|o: Option<Instance>| slot_view(o)),
            next_id: self.next_id,
        }
    }
}

impl InstanceStore {
    /// The identity invariant holds and every live instance is well formed.
    pub closed spec fn wf(&self) -> bool {
        &&& store_ids_ok(self@)
        &&& forall|h: int|
            0 <= h < self.slots@.len() && self.slots@[h] is Some ==> (
            #[trigger] self.slots@[h]->Some_0).wf()
    }

    /// An empty store; ids start at [`FIRST_INSTANCE_ID`].
    pub fn new() -> (r: InstanceStore)
        ensures
            r.wf(),
            r@ == (StoreV { slots: Seq::<Option<InstanceV>>::empty(), next_id: FIRST_INSTANCE_ID }),
    {
        let r = InstanceStore { slots: Vec::new(), next_id: FIRST_INSTANCE_ID };
        proof {
            assert(r@ =~= StoreV {
                slots: Seq::<Option<InstanceV>>::empty(),
                next_id: FIRST_INSTANCE_ID,
            });
        }
        r
    }

    /// How many slots exist (live or retired); handles lie below this.
    pub fn slot_count(&self) -> (r: usize)
        ensures
            r == self@.slots.len(),
    {
        self.slots.len()
    }

    /// Whether `h` refers to a live instance.
    pub fn is_live(&self, h: usize) -> (r: bool)
        ensures
            r == store_live(self@, h as int),
    {
        if h < self.slots.len() {
            match &self.slots[h] {
                Option::Some(_) => true,
                Option::None => false,
            }
        } else {
            false
        }
    }

    /// The next unused stable id.
    pub fn next_id(&self) -> (r: i32)
        ensures
            r == self@.next_id,
    {
        self.next_id
    }

    /// Creates an instance of `object_index` under the next unused stable id
    /// and returns its handle.
    pub fn allocate(&mut self, object_index: i32) -> (h: usize)
        requires
            old(self).wf(),
            old(self)@.next_id < i32::MAX,
        ensures
            final(self).wf(),
            final(self)@ == alloc_spec(old(self)@, object_index),
            h == old(self)@.slots.len(),
            store_live(final(self)@, h as int),
            store_inst(final(self)@, h as int) == new_instance_v(old(self)@.next_id, object_index),
    {
        let h = self.slots.len();
        let inst = Instance::new(self.next_id, object_index);
        self.slots.push(Option::Some(inst));
        self.next_id = self.next_id + 1;
        proof {
            assert(self@.slots =~= old(self)@.slots.push(
                Option::Some(new_instance_v(old(self)@.next_id, object_index)),
            ));
            assert(self@ =~= alloc_spec(old(self)@, object_index));
            let s = self@;
            assert forall|h1: int, h2: int|
                store_live(s, h1) && store_live(s, h2) && h1 < h2 implies store_inst(s, h1).id
                < store_inst(s, h2).id by {
                if h2 < h as int {
                    assert(store_live(old(self)@, h1));
                    assert(store_live(old(self)@, h2));
                } else {
                    assert(store_live(old(self)@, h1));
                }
            }
            assert forall|j: int| #[trigger] store_live(s, j) implies store_inst(s, j).id
                < s.next_id by {
                if j < h as int {
                    assert(store_live(old(self)@, j));
                }
            }
        }
        h
    }

    /// Direct access to a live instance; the handle being live is the
    /// caller's contract, not guarded here.
    pub fn get(&self, h: usize) -> (r: &Instance)
        requires
            self.wf(),
            store_live(self@, h as int),
        ensures
            r@ == store_inst(self@, h as int),
            r.wf(),
    {
        match &self.slots[h] {
            Option::Some(inst) => inst,
            Option::None => unreached(),
        }
    }

    /// Removes the instance behind `h`; its stable id is permanently
    /// retired, and the handle goes dead.
    pub fn destroy(&mut self, h: usize)
        requires
            old(self).wf(),
            store_live(old(self)@, h as int),
        ensures
            final(self).wf(),
            final(self)@ == destroy_spec(old(self)@, h as int),
    {
        self.slots.set(h, Option::None);
        proof {
            assert(self@.slots =~= old(self)@.slots.update(h as int, Option::None));
            assert(self@ =~= destroy_spec(old(self)@, h as int));
            let s = self@;
            assert forall|j: int| #[trigger] store_live(s, j) implies store_inst(s, j).id
                < s.next_id by {
                assert(store_live(old(self)@, j));
            }
            assert forall|h1: int, h2: int|
                store_live(s, h1) && store_live(s, h2) && h1 < h2 implies store_inst(s, h1).id
                < store_inst(s, h2).id by {
                assert(store_live(old(self)@, h1));
                assert(store_live(old(self)@, h2));
            }
        }
    }

    /// The handle of the live instance carrying `id`, or absence.
    pub fn get_by_id(&self, id: i32) -> (r: Option<usize>)
        requires
            self.wf(),
        ensures
            match r {
                Option::Some(h) => store_live(self@, h as int) && store_inst(self@, h as int).id
                    == id,
                Option::None => !id_live(self@, id as int),
            },
    {
        let n = self.slots.len();
        for h in 0..n
            invariant
                n == self@.slots.len(),
                self.wf(),
                forall|j: int|
                    0 <= j < h && #[trigger] store_live(self@, j) ==> store_inst(self@, j).id
                        != id,
        {
            match &self.slots[h] {
                Option::Some(inst) => {
                    if inst.id == id {
                        return Option::Some(h);
                    }
                },
                Option::None => {},
            }
        }
        Option::None
    }

    /// Takes the live instance out of its slot, leaving the slot empty.
    fn take_slot(&mut self, h: usize) -> (r: Instance)
        requires
            old(self).wf(),
            store_live(old(self)@, h as int),
        ensures
            r@ == store_inst(old(self)@, h as int),
            r.wf(),
            final(self).slots@ == old(self).slots@.update(h as int, Option::<Instance>::None),
            final(self)@.slots == old(self)@.slots.update(h as int, Option::None),
            final(self)@.next_id == old(self)@.next_id,
            final(self).next_id == old(self).next_id,
    {
        let mut slot: Option<Instance> = Option::None;
        let elem = &mut self.slots[h];
        std::mem::swap(&mut slot, elem);
        proof {
            assert(self@.slots =~= old(self)@.slots.update(h as int, Option::None));
        }
        match slot {
            Option::Some(inst) => inst,
            Option::None => unreached(),
        }
    }

    /// Puts an instance back into slot `h`.
    fn put_slot(&mut self, h: usize, inst: Instance)
        requires
            h < old(self)@.slots.len(),
            inst.wf(),
        ensures
            final(self).slots@ == old(self).slots@.update(h as int, Option::Some(inst)),
            final(self)@.slots == old(self)@.slots.update(h as int, Option::Some(inst@)),
            final(self)@.next_id == old(self)@.next_id,
            final(self).next_id == old(self).next_id,
    {
        self.slots.set(h, Option::Some(inst));
        proof {
            assert(self@.slots =~= old(self)@.slots.update(h as int, Option::Some(inst@)));
        }
    }

    /// Replacing a live slot's instance by a well-formed one with the same
    /// id keeps the whole store well formed.
    proof fn lemma_wf_after_put(pre: &InstanceStore, post: &InstanceStore, h: int, inst: Instance)
        requires
            pre.wf(),
            store_live(pre@, h),
            inst.wf(),
            inst@.id == store_inst(pre@, h).id,
            post.slots@ == pre.slots@.update(h, Option::Some(inst)),
            post.next_id == pre.next_id,
        ensures
            post.wf(),
            post@.slots == pre@.slots.update(h, Option::Some(inst@)),
            post@.next_id == pre@.next_id,
    {
        assert(post@.slots =~= pre@.slots.update(h, Option::Some(inst@)));
        Self::lemma_wf_same_id_update(pre@, post@, h, inst@);
        assert forall|j: int|
            0 <= j < post.slots@.len() && post.slots@[j] is Some implies (
        #[trigger] post.slots@[j]->Some_0).wf() by {
            if j != h {
                assert(post.slots@[j] == pre.slots@[j]);
            }
        }
    }

    /// Replaces the instance behind `h` wholesale.  Identity is stable: the
    /// replacement carries the instance's own id (caller contract), and the
    /// cached bounding box goes stale until the next explicit recompute.
    pub fn put(&mut self, h: usize, inst: Instance)
        requires
            old(self).wf(),
            store_live(old(self)@, h as int),
            inst.wf(),
            inst@.id == store_inst(old(self)@, h as int).id,
        ensures
            final(self).wf(),
            final(self)@.slots == old(self)@.slots.update(
                h as int,
                Option::Some(InstanceV { bbox_updated: false, ..inst@ }),
            ),
            final(self)@.next_id == old(self)@.next_id,
    {
        let mut inst = inst;
        inst.bbox_updated = false;
        self.put_slot(h, inst);
        proof {
            Self::lemma_wf_after_put(old(self), self, h as int, inst);
        }
    }

    /// Moves the instance to `(x, y)`; the cached box goes stale.
    pub fn set_position(&mut self, h: usize, x: i64, y: i64)
        requires
            old(self).wf(),
            store_live(old(self)@, h as int),
        ensures
            final(self).wf(),
            final(self)@.slots == old(self)@.slots.update(
                h as int,
                Option::Some(
                    InstanceV {
                        x: x,
                        y: y,
                        bbox_updated: false,
                        ..store_inst(old(self)@, h as int)
                    },
                ),
            ),
            final(self)@.next_id == old(self)@.next_id,
    {
        let mut inst = self.take_slot(h);
        inst.x = x;
        inst.y = y;
        inst.bbox_updated = false;
        proof {
            assert(self.slots@.update(h as int, Option::Some(inst)) =~= old(
                self,
            ).slots@.update(h as int, Option::Some(inst)));
        }
        self.put_slot(h, inst);
        proof {
            Self::lemma_wf_after_put(old(self), self, h as int, inst);
        }
    }

    /// Places a freshly spawned instance: position, start position and
    /// previous position all become `(x, y)`; the cached box goes stale.
    pub fn place(&mut self, h: usize, x: i64, y: i64)
        requires
            old(self).wf(),
            store_live(old(self)@, h as int),
        ensures
            final(self).wf(),
            final(self)@.slots == old(self)@.slots.update(
                h as int,
                Option::Some(
                    InstanceV {
                        x: x,
                        y: y,
                        xprevious: x,
                        yprevious: y,
                        xstart: x,
                        ystart: y,
                        bbox_updated: false,
                        ..store_inst(old(self)@, h as int)
                    },
                ),
            ),
            final(self)@.next_id == old(self)@.next_id,
    {
        let mut inst = self.take_slot(h);
        inst.x = x;
        inst.y = y;
        inst.xprevious = x;
        inst.yprevious = y;
        inst.xstart = x;
        inst.ystart = y;
        inst.bbox_updated = false;
        proof {
            assert(self.slots@.update(h as int, Option::Some(inst)) =~= old(
                self,
            ).slots@.update(h as int, Option::Some(inst)));
        }
        self.put_slot(h, inst);
        proof {
            Self::lemma_wf_after_put(old(self), self, h as int, inst);
        }
    }

    /// Sets the drawing depth; the cached box does not depend on it.
    pub fn set_depth(&mut self, h: usize, depth: i32)
        requires
            old(self).wf(),
            store_live(old(self)@, h as int),
        ensures
            final(self).wf(),
            final(self)@.slots == old(self)@.slots.update(
                h as int,
                Option::Some(InstanceV { depth: depth, ..store_inst(old(self)@, h as int) }),
            ),
            final(self)@.next_id == old(self)@.next_id,
    {
        let mut inst = self.take_slot(h);
        inst.depth = depth;
        proof {
            assert(self.slots@.update(h as int, Option::Some(inst)) =~= old(
                self,
            ).slots@.update(h as int, Option::Some(inst)));
        }
        self.put_slot(h, inst);
        proof {
            Self::lemma_wf_after_put(old(self), self, h as int, inst);
        }
    }

    /// Sets the countdown of one alarm; no other alarm is affected.
    pub fn set_alarm(&mut self, h: usize, alarm_id: i32, time: i64)
        requires
            old(self).wf(),
            store_live(old(self)@, h as int),
        ensures
            final(self).wf(),
            final(self)@.slots == old(self)@.slots.update(
                h as int,
                Option::Some(
                    InstanceV {
                        alarms: store_inst(old(self)@, h as int).alarms.insert(
                            alarm_id as int,
                            time,
                        ),
                        ..store_inst(old(self)@, h as int)
                    },
                ),
            ),
            final(self)@.next_id == old(self)@.next_id,
    {
        let mut inst = self.take_slot(h);
        inst.alarms.set(alarm_id, time);
        proof {
            assert(self.slots@.update(h as int, Option::Some(inst)) =~= old(
                self,
            ).slots@.update(h as int, Option::Some(inst)));
        }
        self.put_slot(h, inst);
        proof {
            Self::lemma_wf_after_put(old(self), self, h as int, inst);
            assert(inst@ =~= InstanceV {
                alarms: store_inst(old(self)@, h as int).alarms.insert(alarm_id as int, time),
                ..store_inst(old(self)@, h as int)
            });
        }
    }

    /// The countdown of one alarm, or absence.
    pub fn get_alarm(&self, h: usize, alarm_id: i32) -> (r: Option<i64>)
        requires
            self.wf(),
            store_live(self@, h as int),
        ensures
            match r {
                Option::Some(t) => store_inst(self@, h as int).alarms.contains_key(alarm_id as int)
                    && t == store_inst(self@, h as int).alarms[alarm_id as int],
                Option::None => !store_inst(self@, h as int).alarms.contains_key(alarm_id as int),
            },
    {
        self.get(h).alarms.get(alarm_id)
    }

    /// Stores a whole field under `field_id`; no other field is affected.
    pub fn set_field(&mut self, h: usize, field_id: i32, field: Field)
        requires
            old(self).wf(),
            store_live(old(self)@, h as int),
            field.wf(),
        ensures
            final(self).wf(),
            final(self)@.slots == old(self)@.slots.update(
                h as int,
                Option::Some(
                    InstanceV {
                        fields: store_inst(old(self)@, h as int).fields.insert(
                            field_id as int,
                            field@,
                        ),
                        ..store_inst(old(self)@, h as int)
                    },
                ),
            ),
            final(self)@.next_id == old(self)@.next_id,
    {
        let ghost fv = field@;
        let mut inst = self.take_slot(h);
        inst.fields.set(field_id, field);
        proof {
            assert(self.slots@.update(h as int, Option::Some(inst)) =~= old(
                self,
            ).slots@.update(h as int, Option::Some(inst)));
        }
        self.put_slot(h, inst);
        proof {
            Self::lemma_wf_after_put(old(self), self, h as int, inst);
            assert(inst@ =~= InstanceV {
                fields: store_inst(old(self)@, h as int).fields.insert(field_id as int, fv),
                ..store_inst(old(self)@, h as int)
            });
        }
    }

    /// The field stored under `field_id`, or absence.
    pub fn get_field(&self, h: usize, field_id: i32) -> (r: Option<&Field>)
        requires
            self.wf(),
            store_live(self@, h as int),
        ensures
            match r {
                Option::Some(f) => store_inst(self@, h as int).fields.contains_key(field_id as int)
                    && f@ == store_inst(self@, h as int).fields[field_id as int] && f.wf(),
                Option::None => !store_inst(self@, h as int).fields.contains_key(field_id as int),
            },
    {
        self.get(h).fields.get(field_id)
    }

    /// Writes one index of the array variant under `field_id`; no other
    /// index, field or instance is affected.
    pub fn set_field_array(&mut self, h: usize, field_id: i32, index: i32, value: i64)
        requires
            old(self).wf(),
            store_live(old(self)@, h as int),
        ensures
            final(self).wf(),
            final(self)@.slots == old(self)@.slots.update(
                h as int,
                Option::Some(
                    InstanceV {
                        fields: store_inst(old(self)@, h as int).fields.insert(
                            field_id as int,
                            array_write(
                                if store_inst(old(self)@, h as int).fields.contains_key(
                                    field_id as int,
                                ) {
                                    Option::Some(
                                        store_inst(old(self)@, h as int).fields[field_id as int],
                                    )
                                } else {
                                    Option::None
                                },
                                index as int,
                                value,
                            ),
                        ),
                        ..store_inst(old(self)@, h as int)
                    },
                ),
            ),
            final(self)@.next_id == old(self)@.next_id,
    {
        let mut inst = self.take_slot(h);
        inst.fields.set_array_entry(field_id, index, value);
        proof {
            assert(self.slots@.update(h as int, Option::Some(inst)) =~= old(
                self,
            ).slots@.update(h as int, Option::Some(inst)));
        }
        self.put_slot(h, inst);
        proof {
            Self::lemma_wf_after_put(old(self), self, h as int, inst);
            assert(inst@ =~= InstanceV {
                fields: store_inst(old(self)@, h as int).fields.insert(
                    field_id as int,
                    array_write(
                        if store_inst(old(self)@, h as int).fields.contains_key(field_id as int) {
                            Option::Some(store_inst(old(self)@, h as int).fields[field_id as int])
                        } else {
                            Option::None
                        },
                        index as int,
                        value,
                    ),
                ),
                ..store_inst(old(self)@, h as int)
            });
        }
    }

    /// Reads one index of the array variant under `field_id`: absence is the
    /// defined unset indicator, distinct from any stored value.
    pub fn get_field_array(&self, h: usize, field_id: i32, index: i32) -> (r: Option<i64>)
        requires
            self.wf(),
            store_live(self@, h as int),
        ensures
            r == array_read(
                if store_inst(self@, h as int).fields.contains_key(field_id as int) {
                    Option::Some(store_inst(self@, h as int).fields[field_id as int])
                } else {
                    Option::None
                },
                index as int,
            ),
    {
        self.get(h).fields.get_array_entry(field_id, index)
    }

    /// Recomputes the cached bounding box of the instance behind `h` from
    /// its current sprite or mask, scale, angle and position.
    pub fn update_bbox(&mut self, h: usize, sprites: &Vec<SpriteDesc>)
        requires
            old(self).wf(),
            store_live(old(self)@, h as int),
            sprites_wf(sprites@),
        ensures
            final(self).wf(),
            final(self)@.slots == old(self)@.slots.update(
                h as int,
                Option::Some(with_bbox(store_inst(old(self)@, h as int), sprites@)),
            ),
            final(self)@.next_id == old(self)@.next_id,
    {
        let mut inst = self.take_slot(h);
        inst.update_bbox(sprites);
        proof {
            assert(self.slots@.update(h as int, Option::Some(inst)) =~= old(
                self,
            ).slots@.update(h as int, Option::Some(inst)));
        }
        self.put_slot(h, inst);
        proof {
            Self::lemma_wf_after_put(old(self), self, h as int, inst);
        }
    }

    /// Discards every instance; handles go dead, but the allocation counter
    /// is kept, so retired ids stay retired.
    pub fn clear(&mut self)
        requires
            old(self).wf(),
        ensures
            final(self).wf(),
            final(self)@ == (StoreV {
                slots: Seq::<Option<InstanceV>>::empty(),
                next_id: old(self)@.next_id,
            }),
    {
        self.slots = Vec::new();
        proof {
            assert(self@ =~= StoreV {
                slots: Seq::<Option<InstanceV>>::empty(),
                next_id: old(self)@.next_id,
            });
        }
    }

    /// A deep, independently owned copy: every instance and its field maps
    /// are copied by value, with no shared mutable ownership.
    pub fn duplicate(&self) -> (r: InstanceStore)
        requires
            self.wf(),
        ensures
            r.wf(),
            r@ == self@,
    {
        let mut slots: Vec<Option<Instance>> = Vec::new();
        let n = self.slots.len();
        for h in 0..n
            invariant
                n == self.slots@.len(),
                self.wf(),
                slots@.len() == h,
                forall|j: int|
                    0 <= j < h ==> slot_view(#[trigger] slots@[j]) == slot_view(self.slots@[j]),
                forall|j: int|
                    0 <= j < h ==> (slots@[j] is Some ==> (#[trigger] slots@[j]->Some_0).wf()),
        {
            let copy = match &self.slots[h] {
                Option::Some(inst) => Option::Some(inst.duplicate()),
                Option::None => Option::None,
            };
            slots.push(copy);
        }
        let r = InstanceStore { slots: slots, next_id: self.next_id };
        proof {
            assert(r@.slots =~= self@.slots);
            assert(r@ =~= self@);
        }
        r
    }

    /// Starts a lazy, finite, non-restartable pass over a point-in-time
    /// membership snapshot, in drawing order: ascending depth, ties broken
    /// by creation order.  Mutating the store afterwards neither corrupts
    /// the store nor is reflected in this pass.
    pub fn iter_drawing_order(&self) -> (r: DrawingOrderIter)
        requires
            self.wf(),
        ensures
            r.wf(),
            r.snapshot() == self@,
            r.position() == 0,
            drawing_order_ok(self@, r.order()),
    {
        let mut order: Vec<usize> = Vec::new();
        let n = self.slots.len();
        for h in 0..n
            invariant
                n == self@.slots.len(),
                self.wf(),
                forall|k: int|
                    0 <= k < order@.len() ==> store_live(self@, #[trigger] order@[k] as int) && (
                    order@[k] as int) < h,
                forall|k1: int, k2: int|
                    0 <= k1 < k2 < order@.len() ==> draw_before(
                        self@,
                        #[trigger] order@[k1] as int,
                        #[trigger] order@[k2] as int,
                    ),
                forall|j: int|
                    0 <= j < h && #[trigger] store_live(self@, j) ==> exists|k: int|
                        0 <= k < order@.len() && (#[trigger] order@[k]) as int == j,
        {
            let live_here = match &self.slots[h] {
                Option::Some(_) => true,
                Option::None => false,
            };
            if live_here {
                proof {
                    assert(store_live(self@, h as int));
                }
                let d = self.get(h).depth;
                let m = order.len();
                let mut p: usize = 0;
                for k in 0..m
                    invariant
                        m == order@.len(),
                        self.wf(),
                        store_live(self@, h as int),
                        d == store_inst(self@, h as int).depth,
                        forall|k0: int|
                            0 <= k0 < order@.len() ==> store_live(
                                self@,
                                #[trigger] order@[k0] as int,
                            ) && (order@[k0] as int) < h,
                        forall|k1: int, k2: int|
                            0 <= k1 < k2 < order@.len() ==> draw_before(
                                self@,
                                #[trigger] order@[k1] as int,
                                #[trigger] order@[k2] as int,
                            ),
                        p <= k,
                        forall|j: int|
                            0 <= j < p ==> store_inst(self@, #[trigger] order@[j] as int).depth
                                <= d,
                        forall|j: int|
                            p <= j < k ==> store_inst(self@, #[trigger] order@[j] as int).depth
                                > d,
                {
                    let hk = order[k];
                    if self.get(hk).depth <= d {
                        proof {
                            if p < k {
                                assert(draw_before(self@, order@[p as int] as int, order@[k as int] as int));
                                assert(false);
                            }
                        }
                        p = k + 1;
                    }
                }
                proof {
                    order@.insert_ensures(p as int, h);
                }
                let ghost pre = order@;
                order.insert(p, h);
                proof {
                    let o = order@;
                    assert(o == pre.insert(p as int, h));
                    assert forall|k1: int, k2: int| 0 <= k1 < k2 < o.len() implies draw_before(
                        self@,
                        #[trigger] o[k1] as int,
                        #[trigger] o[k2] as int,
                    ) by {
                        let a = if k1 < p { pre[k1] } else if k1 == p { h } else { pre[k1 - 1] };
                        let b = if k2 < p { pre[k2] } else if k2 == p { h } else { pre[k2 - 1] };
                        assert(o[k1] == a);
                        assert(o[k2] == b);
                        if k2 < p {
                        } else if k2 == p {
                            assert(store_inst(self@, pre[k1] as int).depth <= d);
                            assert((pre[k1] as int) < (h as int));
                        } else if k1 == p {
                            assert(store_inst(self@, pre[k2 - 1] as int).depth > d);
                        } else if k1 < p {
                            assert(k2 - 1 >= p);
                            assert(k1 < k2 - 1 || k1 == k2 - 1);
                            if k1 == k2 - 1 {
                                assert(k1 < p && k2 - 1 >= p);
                                assert(false);
                            }
                        } else {
                        }
                    }
                    assert forall|j: int|
                        0 <= j < h + 1 && #[trigger] store_live(self@, j) implies exists|k: int|
                        0 <= k < o.len() && (#[trigger] o[k]) as int == j by {
                        if j == h as int {
                            assert(o[p as int] as int == j);
                        } else {
                            let k0 = choose|k0: int|
                                0 <= k0 < pre.len() && (#[trigger] pre[k0]) as int == j;
                            if k0 < p {
                                assert(o[k0] as int == j);
                            } else {
                                assert(o[k0 + 1] as int == j);
                            }
                        }
                    }
                }
            }
        }
        let r = DrawingOrderIter { order: order, pos: 0, snapshot: Ghost(self@) };
        r
    }

    /// Well-formedness survives replacing a live slot's instance by one
    /// carrying the same id.
    proof fn lemma_wf_same_id_update(s: StoreV, t: StoreV, h: int, iv: InstanceV)
        requires
            store_ids_ok(s),
            store_live(s, h),
            t.slots == s.slots.update(h, Option::Some(iv)),
            t.next_id == s.next_id,
            iv.id == store_inst(s, h).id,
        ensures
            store_ids_ok(t),
    {
        assert forall|j: int| #[trigger] store_live(t, j) implies store_inst(t, j).id
            < t.next_id by {
            if j != h {
                assert(store_live(s, j));
            } else {
                assert(store_live(s, h));
            }
        }
        assert forall|h1: int, h2: int|
            store_live(t, h1) && store_live(t, h2) && h1 < h2 implies store_inst(t, h1).id
            < store_inst(t, h2).id by {
            assert(store_live(s, h1) || h1 == h);
            assert(store_live(s, h2) || h2 == h);
            assert(store_live(s, h1));
            assert(store_live(s, h2));
        }
    }
}

/// One non-restartable pass over a snapshot of store membership, yielding
/// handles in drawing order.  A handle destroyed before the pass began is
/// never yielded; mutations made after it began are not reflected.
pub struct DrawingOrderIter {
    order: Vec<usize>,
    pos: usize,
    snapshot: Ghost<StoreV>,
}

impl DrawingOrderIter {
    /// The membership snapshot this pass was started from.
    pub closed spec fn snapshot(&self) -> StoreV {
        self.snapshot@
    }

    /// The full sequence of handles this pass yields.
    pub closed spec fn order(&self) -> Seq<usize> {
        self.order@
    }

    /// How many handles have been yielded so far.
    pub closed spec fn position(&self) -> int {
        self.pos as int
    }

    /// The pass is consistent with its snapshot.
    pub closed spec fn wf(&self) -> bool {
        self.pos <= self.order@.len() && drawing_order_ok(self.snapshot@, self.order@)
    }

    /// The next handle in drawing order, or absence when the pass is done.
    /// Every yielded handle was live in the snapshot.
    pub fn next(&mut self) -> (r: Option<usize>)
        requires
            old(self).wf(),
        ensures
            final(self).wf(),
            final(self).snapshot() == old(self).snapshot(),
            final(self).order() == old(self).order(),
            match r {
                Option::Some(h) => {
                    &&& old(self).position() < old(self).order().len()
                    &&& h == old(self).order()[old(self).position()]
                    &&& final(self).position() == old(self).position() + 1
                    &&& store_live(old(self).snapshot(), h as int)
                },
                Option::None => {
                    &&& old(self).position() == old(self).order().len()
                    &&& final(self).position() == old(self).position()
                },
            },
    {
        if self.pos < self.order.len() {
            let h = self.order[self.pos];
            self.pos = self.pos + 1;
            Option::Some(h)
        } else {
            Option::None
        }
    }
}

/// Id retirement: once an instance is destroyed, no live instance carries
/// its id any more — looking the id up yields absence.
pub proof fn lemma_id_retirement(s: StoreV, h: int)
    requires
        store_ids_ok(s),
        store_live(s, h),
    ensures
        !id_live(destroy_spec(s, h), store_inst(s, h).id as int),
{
    let id = store_inst(s, h).id as int;
    let t = destroy_spec(s, h);
    if id_live(t, id) {
        let h2 = choose|h2: int| #[trigger] store_live(t, h2) && store_inst(t, h2).id == id;
        assert(h2 != h);
        assert(store_live(s, h2));
        if h2 < h {
            assert(store_inst(s, h2).id < store_inst(s, h).id);
        } else {
            assert(store_inst(s, h).id < store_inst(s, h2).id);
        }
        assert(false);
    }
}

/// A retired id is never reused: ids once handed out lie strictly below the
/// allocation counter, the counter never decreases under any store
/// operation, and a later allocation hands out the counter itself.
pub proof fn lemma_no_id_reuse(s: StoreV, t: StoreV, object_index: i32, id: int)
    requires
        store_ids_ok(s),
        id < s.next_id,
        t.next_id >= s.next_id,
        t.next_id < i32::MAX,
    ensures
        store_inst(alloc_spec(t, object_index), t.slots.len() as int).id != id,
{
    let u = alloc_spec(t, object_index);
    assert(u.slots[t.slots.len() as int] == Option::Some(
        new_instance_v(t.next_id, object_index),
    ));
}

/// There is exactly one drawing order for a given membership snapshot: any
/// two sequences that each list exactly the live handles in drawing order
/// are the same sequence.
pub proof fn lemma_drawing_order_unique(s: StoreV, o1: Seq<usize>, o2: Seq<usize>)
    requires
        drawing_order_ok(s, o1),
        drawing_order_ok(s, o2),
    ensures
        o1 == o2,
    decreases o1.len(),
{
    if o1.len() == 0 {
        if o2.len() > 0 {
            assert(store_live(s, o2[0] as int));
            assert(false);
        }
        assert(o1 =~= o2);
    } else {
        assert(store_live(s, o1[0] as int));
        if o2.len() == 0 {
            assert(false);
        }
        // the two heads are each the unique minimum, so they coincide
        let k = choose|k: int| 0 <= k < o2.len() && (#[trigger] o2[k]) as int == o1[0] as int;
        let j = choose|j: int| 0 <= j < o1.len() && (#[trigger] o1[j]) as int == o2[0] as int;
        if o1[0] != o2[0] {
            assert(k != 0 && j != 0);
            assert(draw_before(s, o2[0] as int, o2[k] as int));
            assert(draw_before(s, o1[0] as int, o1[j] as int));
            assert(false);
        }
        // the tails are the drawing orders of the snapshot less the head
        let h0 = o1[0] as int;
        let t = destroy_spec(s, h0);
        let t1 = o1.drop_first();
        let t2 = o2.drop_first();
        assert forall|m: int| 0 <= m < t1.len() implies store_live(t, #[trigger] t1[m] as int) by {
            assert(t1[m] == o1[m + 1]);
            assert(draw_before(s, o1[0] as int, o1[m + 1] as int));
            assert(store_live(s, o1[m + 1] as int));
        }
        assert forall|m1: int, m2: int| 0 <= m1 < m2 < t1.len() implies draw_before(
            t,
            #[trigger] t1[m1] as int,
            #[trigger] t1[m2] as int,
        ) by {
            assert(t1[m1] == o1[m1 + 1] && t1[m2] == o1[m2 + 1]);
            assert(draw_before(s, o1[m1 + 1] as int, o1[m2 + 1] as int));
        }
        assert forall|h: int| #[trigger] store_live(t, h) implies exists|m: int|
            0 <= m < t1.len() && (#[trigger] t1[m]) as int == h by {
            assert(store_live(s, h));
            let m0 = choose|m0: int| 0 <= m0 < o1.len() && (#[trigger] o1[m0]) as int == h;
            assert(m0 != 0);
            assert(t1[m0 - 1] as int == h);
        }
        assert forall|m: int| 0 <= m < t2.len() implies store_live(t, #[trigger] t2[m] as int) by {
            assert(t2[m] == o2[m + 1]);
            assert(draw_before(s, o2[0] as int, o2[m + 1] as int));
            assert(store_live(s, o2[m + 1] as int));
        }
        assert forall|m1: int, m2: int| 0 <= m1 < m2 < t2.len() implies draw_before(
            t,
            #[trigger] t2[m1] as int,
            #[trigger] t2[m2] as int,
        ) by {
            assert(t2[m1] == o2[m1 + 1] && t2[m2] == o2[m2 + 1]);
            assert(draw_before(s, o2[m1 + 1] as int, o2[m2 + 1] as int));
        }
        assert forall|h: int| #[trigger] store_live(t, h) implies exists|m: int|
            0 <= m < t2.len() && (#[trigger] t2[m]) as int == h by {
            assert(store_live(s, h));
            let m0 = choose|m0: int| 0 <= m0 < o2.len() && (#[trigger] o2[m0]) as int == h;
            assert(m0 != 0);
            assert(t2[m0 - 1] as int == h);
        }
        lemma_drawing_order_unique(t, t1, t2);
        assert(o1.len() == o2.len());
        assert forall|i: int| 0 <= i < o1.len() implies o1[i] == o2[i] by {
            if i > 0 {
                assert(t1[i - 1] == o1[i]);
                assert(t2[i - 1] == o2[i]);
            }
        }
        assert(o1 =~= o2);
    }
}

/// A pass never yields a destroyed handle, and yields handles whose depths
/// never decrease: with depths `{0, -1}` the `-1` instance comes first.
pub proof fn lemma_drawing_order_correct(s: StoreV, o: Seq<usize>, k1: int, k2: int)
    requires
        drawing_order_ok(s, o),
        0 <= k1 < o.len(),
        0 <= k2 < o.len(),
        k1 < k2,
    ensures
        store_live(s, o[k1] as int),
        store_live(s, o[k2] as int),
        store_inst(s, o[k1] as int).depth <= store_inst(s, o[k2] as int).depth,
        o[k1] != o[k2],
{
    assert(draw_before(s, o[k1] as int, o[k2] as int));
}

} // verus!
