//! Read-only instance inspection for the debugging front end.
//!
//! The interactive shell shows per-instance watcher windows and a context
//! menu of the instances under the cursor.  Everything those displays
//! decide or compute lives here: building a value snapshot of one instance
//! for display, and picking the instances whose bounding box contains a
//! room point, in drawing order.  Turning the values into text and pixels
//! stays with the shell.

use crate::instance::Instance;
use crate::instance::InstanceV;
use crate::instance::SpriteDesc;
use crate::instance::sprites_wf;
use crate::instance::with_bbox;
use crate::store::DrawingOrderIter;
use crate::store::InstanceStore;
use crate::store::StoreV;
use crate::store::drawing_order_ok;
use crate::store::id_live;
use crate::store::store_inst;
use crate::store::store_live;
use vstd::prelude::*;

verus! {

/// A value snapshot of one live instance, taken for display: the stable id
/// it was looked up under, and a deep copy of the instance with its
/// bounding box freshly recomputed.
pub struct InstanceReport {
    pub id: i32,
    pub instance: Instance,
}

impl InstanceReport {
    /// Builds the report for the live instance carrying `id`, recomputing
    /// its cached bounding box first (and leaving that recompute in the
    /// store, as a spatial query would).  Absence when no live instance
    /// carries `id`.
    pub fn new(store: &mut InstanceStore, sprites: &Vec<SpriteDesc>, id: i32) -> (r: Option<
        InstanceReport,
    >)
        requires
            old(store).wf(),
            sprites_wf(sprites@),
        ensures
            final(store).wf(),
            final(store)@.next_id == old(store)@.next_id,
            match r {
                Option::Some(rep) => {
                    &&& id_live(old(store)@, id as int)
                    &&& rep.id == id
                    &&& rep.instance.wf()
                    &&& exists|h: int|
                        #[trigger] store_live(old(store)@, h) && store_inst(old(store)@, h).id
                            == id && rep.instance@ == with_bbox(
                            store_inst(old(store)@, h),
                            sprites@,
                        ) && final(store)@.slots == old(store)@.slots.update(
                            h,
                            Option::Some(with_bbox(store_inst(old(store)@, h), sprites@)),
                        )
                },
                Option::None => {
                    &&& !id_live(old(store)@, id as int)
                    &&& final(store)@ == old(store)@
                },
            },
    {
        match store.get_by_id(id) {
            Option::Some(h) => {
                store.update_bbox(h, sprites);
                let rep = InstanceReport { id: id, instance: store.get(h).duplicate() };
                proof {
                    let hh = h as int;
                    assert(store_live(old(store)@, hh) && store_inst(old(store)@, hh).id == id
                        && rep.instance@ == with_bbox(store_inst(old(store)@, hh), sprites@)
                        && final(store)@.slots == old(store)@.slots.update(
                        hh,
                        Option::Some(with_bbox(store_inst(old(store)@, hh), sprites@)),
                    ));
                }
                Option::Some(rep)
            },
            Option::None => Option::None,
        }
    }
}

/// The instance's freshly recomputed box contains the room point `(x, y)`.
pub open spec fn bbox_contains(i: InstanceV, sprites: Seq<SpriteDesc>, x: i64, y: i64) -> bool {
    let b = with_bbox(i, sprites);
    b.bbox_left <= x <= b.bbox_right && b.bbox_top <= y <= b.bbox_bottom
}

/// The context-menu options a pass over `o` produces: for each handle in
/// order whose box contains the point, the instance's object type and id.
pub open spec fn picks_spec(
    s: StoreV,
    sprites: Seq<SpriteDesc>,
    o: Seq<usize>,
    x: i64,
    y: i64,
) -> Seq<(i32, i32)>
    decreases o.len(),
{
    if o.len() == 0 {
        Seq::empty()
    } else {
        let rest = picks_spec(s, sprites, o.drop_last(), x, y);
        let i = store_inst(s, o.last() as int);
        if bbox_contains(i, sprites, x, y) {
            rest.push((i.object_index, i.id))
        } else {
            rest
        }
    }
}

/// One slot after a pass that recomputed every live instance's box.
pub open spec fn refreshed_slot(
    o: Option<InstanceV>,
    sprites: Seq<SpriteDesc>,
) -> Option<InstanceV> {
    match o {
        Option::None => Option::None,
        Option::Some(i) => Option::Some(with_bbox(i, sprites)),
    }
}

/// The game-view window of the shell: where the running room is blitted,
/// as an explicitly scoped value — position and extent of the view
/// rectangle — rather than a pointer into the live renderer.
pub struct GameWindow {
    pub x: i32,
    pub y: i32,
    pub w: u32,
    pub h: u32,
}

impl GameWindow {
    /// A not-yet-laid-out game view.
    pub fn new() -> (r: GameWindow)
        ensures
            r.x == 0,
            r.y == 0,
            r.w == 0,
            r.h == 0,
    {
        GameWindow { x: 0, y: 0, w: 0, h: 0 }
    }

    /// Records where the shell laid the game view out this frame.
    pub fn set_view(&mut self, x: i32, y: i32, w: u32, h: u32)
        ensures
            final(self).x == x,
            final(self).y == y,
            final(self).w == w,
            final(self).h == h,
    {
        self.x = x;
        self.y = y;
        self.w = w;
        self.h = h;
    }

    /// Gets all the instances the room point `(x, y)` hovers over, as
    /// context-menu options `(object type, id)` in drawing order, updating
    /// each live instance's bounding box on the way, as any spatial query
    /// against the cached boxes demands.
    pub fn context_menu_instances(
        &self,
        store: &mut InstanceStore,
        sprites: &Vec<SpriteDesc>,
        x: i64,
        y: i64,
    ) -> (r: Vec<(i32, i32)>)
        requires
            old(store).wf(),
            sprites_wf(sprites@),
        ensures
            final(store).wf(),
            final(store)@.next_id == old(store)@.next_id,
            final(store)@.slots == old(store)@.slots.map_values(
                |o: Option<InstanceV>| refreshed_slot(o, sprites@),
            ),
            exists|o: Seq<usize>|
                #[trigger] drawing_order_ok(old(store)@, o) && r@ == picks_spec(
                    old(store)@,
                    sprites@,
                    o,
                    x,
                    y,
                ),
    {
        let ghost s0 = store@;
        let mut iter: DrawingOrderIter = store.iter_drawing_order();
        let ghost o = iter.order();
        let mut r: Vec<(i32, i32)> = Vec::new();
        loop
            invariant
                store.wf(),
                sprites_wf(sprites@),
                iter.wf(),
                iter.snapshot() == s0,
                iter.order() == o,
                drawing_order_ok(s0, o),
                0 <= iter.position() <= o.len(),
                store@.next_id == s0.next_id,
                store@.slots.len() == s0.slots.len(),
                forall|j: int|
                    0 <= j < s0.slots.len() ==> #[trigger] store@.slots[j] == (
                    if exists|k: int| 0 <= k < iter.position() && (#[trigger] o[k]) as int == j {
                        refreshed_slot(s0.slots[j], sprites@)
                    } else {
                        s0.slots[j]
                    }),
                r@ == picks_spec(s0, sprites@, o.take(iter.position()), x, y),
            ensures
                store.wf(),
                store@.next_id == s0.next_id,
                store@.slots.len() == s0.slots.len(),
                forall|j: int|
                    0 <= j < s0.slots.len() ==> #[trigger] store@.slots[j] == (
                    if exists|k: int| 0 <= k < o.len() && (#[trigger] o[k]) as int == j {
                        refreshed_slot(s0.slots[j], sprites@)
                    } else {
                        s0.slots[j]
                    }),
                r@ == picks_spec(s0, sprites@, o, x, y),
            decreases o.len() - iter.position(),
        {
            let ghost pos = iter.position();
            match iter.next() {
                Option::None => {
                    proof {
                        assert(o.take(pos) =~= o);
                    }
                    break ;
                },
                Option::Some(h) => {
                    proof {
                        assert(store_live(s0, h as int));
                        // this handle was not visited yet: the order is
                        // strictly sorted, so it holds no duplicates
                        if exists|k: int|
                            0 <= k < pos && (#[trigger] o[k]) as int == h as int {
                            let k = choose|k: int|
                                0 <= k < pos && (#[trigger] o[k]) as int == h as int;
                            crate::store::lemma_drawing_order_correct(s0, o, k, pos);
                            assert(false);
                        }
                        assert(store@.slots[h as int] == s0.slots[h as int]);
                        assert(store_live(store@, h as int));
                    }
                    let inst = store.get(h);
                    let ghost iv = store_inst(s0, h as int);
                    let obj = inst.object_index;
                    let iid = inst.id;
                    store.update_bbox(h, sprites);
                    let b = store.get(h);
                    if b.bbox_left <= x && x <= b.bbox_right && b.bbox_top <= y && y
                        <= b.bbox_bottom {
                        r.push((obj, iid));
                        proof {
                            assert(bbox_contains(iv, sprites@, x, y));
                        }
                    } else {
                        proof {
                            assert(!bbox_contains(iv, sprites@, x, y));
                        }
                    }
                    proof {
                        assert(o.take(pos + 1).drop_last() =~= o.take(pos));
                        assert(o.take(pos + 1).last() == o[pos]);
                        assert(r@ == picks_spec(s0, sprites@, o.take(pos + 1), x, y));
                        assert forall|j: int| 0 <= j < s0.slots.len() implies #[trigger] store@.slots[j]
                            == (if exists|k: int|
                                0 <= k < pos + 1 && (#[trigger] o[k]) as int == j {
                                refreshed_slot(s0.slots[j], sprites@)
                            } else {
                                s0.slots[j]
                            }) by {
                            if j == h as int {
                                assert(o[pos] as int == j);
                            } else {
                                if exists|k: int| 0 <= k < pos + 1 && (#[trigger] o[k]) as int == j {
                                    let k = choose|k: int|
                                        0 <= k < pos + 1 && (#[trigger] o[k]) as int == j;
                                    assert(k < pos);
                                    assert(exists|k2: int|
                                        0 <= k2 < pos && (#[trigger] o[k2]) as int == j);
                                }
                            }
                        }
                    }
                },
            }
        }
        proof {
            assert forall|j: int| 0 <= j < s0.slots.len() implies #[trigger] store@.slots[j]
                == refreshed_slot(s0.slots[j], sprites@) by {
                if s0.slots[j] is Some {
                    assert(store_live(s0, j));
                } else {
                    if exists|k: int| 0 <= k < o.len() && (#[trigger] o[k]) as int == j {
                        let k = choose|k: int| 0 <= k < o.len() && (#[trigger] o[k]) as int == j;
                        assert(store_live(s0, o[k] as int));
                        assert(false);
                    }
                }
            }
            assert(store@.slots =~= s0.slots.map_values(
                |ov: Option<InstanceV>| refreshed_slot(ov, sprites@),
            ));
            assert(drawing_order_ok(s0, o) && r@ == picks_spec(s0, sprites@, o, x, y));
        }
        r
    }
}

/// Largest sprite extent the watcher window inlines as a thumbnail.
pub const THUMBNAIL_MAX_EXTENT: i64 = 48;

/// One instance-watcher pass of the shell: remembers which sprite images
/// the open watcher windows want drawn this pass.
pub struct InstanceReportWindow {
    pub instance_images: Vec<i32>,
}

impl InstanceReportWindow {
    /// A watcher layer with no images queued.
    pub fn new() -> (r: InstanceReportWindow)
        ensures
            r.instance_images@ == Seq::<i32>::empty(),
    {
        let r = InstanceReportWindow { instance_images: Vec::new() };
        proof {
            assert(r.instance_images@ =~= Seq::<i32>::empty());
        }
        r
    }

    /// Starts a fresh pass: drops the images the previous pass queued.
    pub fn clear_images(&mut self)
        ensures
            final(self).instance_images@ == Seq::<i32>::empty(),
    {
        self.instance_images = Vec::new();
        proof {
            assert(self.instance_images@ =~= Seq::<i32>::empty());
        }
    }

    /// Decides one instance's watcher window for this pass: the window
    /// stays open unless its close was requested, and when a report is
    /// present and its sprite resolves to thumbnail-sized geometry, the
    /// sprite is queued for drawing.
    pub fn instance_window(
        &mut self,
        report: Option<&InstanceReport>,
        sprite: Option<&SpriteDesc>,
        close_requested: bool,
    ) -> (open: bool)
        ensures
            open == !close_requested,
            final(self).instance_images@ == (if report is Some && sprite is Some
                && sprite->Some_0.width <= THUMBNAIL_MAX_EXTENT && sprite->Some_0.height
                <= THUMBNAIL_MAX_EXTENT {
                old(self).instance_images@.push(report->Some_0.instance.sprite_index)
            } else {
                old(self).instance_images@
            }),
    {
        match report {
            Option::Some(rep) => {
                match sprite {
                    Option::Some(sp) => {
                        if sp.width <= THUMBNAIL_MAX_EXTENT && sp.height <= THUMBNAIL_MAX_EXTENT {
                            self.instance_images.push(rep.instance.sprite_index);
                        }
                    },
                    Option::None => {},
                }
            },
            Option::None => {},
        }
        !close_requested
    }
}

} // verus!
