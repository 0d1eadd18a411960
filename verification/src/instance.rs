//! A live entity, distinct from its static object-type definition.
//!
//! An instance carries a stable numeric id, motion and transform scalars,
//! rendering scalars, a cached axis-aligned bounding box that is valid only
//! after an explicit recompute, a sparse alarm table, and the dynamic field
//! storage of [`crate::field`].  Scalars are the runtime's fixed-point raw
//! values, held as 64-bit integers.

use crate::field::FieldMap;
use crate::field::FieldV;
use crate::field::ScalarMap;
use vstd::prelude::*;

verus! {

/// Immutable sprite frame geometry, as the read-only asset store hands it
/// out: extent and origin in room units.
#[derive(Clone, Copy, PartialEq, Eq, Structural)]
pub struct SpriteDesc {
    pub width: i64,
    pub height: i64,
    pub origin_x: i64,
    pub origin_y: i64,
}

/// Largest extent or origin magnitude a sprite descriptor may carry.
pub const MAX_SPRITE_EXTENT: i64 = 1_000_000;

impl SpriteDesc {
    /// Sane asset geometry: non-negative extents and bounded magnitudes.
    pub open spec fn wf(&self) -> bool {
        &&& 0 <= self.width <= MAX_SPRITE_EXTENT
        &&& 0 <= self.height <= MAX_SPRITE_EXTENT
        &&& -MAX_SPRITE_EXTENT <= self.origin_x <= MAX_SPRITE_EXTENT
        &&& -MAX_SPRITE_EXTENT <= self.origin_y <= MAX_SPRITE_EXTENT
    }
}

/// Every descriptor in the sprite table is well formed.
pub open spec fn sprites_wf(sprites: Seq<SpriteDesc>) -> bool {
    forall|k: int| 0 <= k < sprites.len() ==> (#[trigger] sprites[k]).wf()
}

/// Mathematical model of an [`Instance`].
#[verifier::ext_equal]
pub struct InstanceV {
    pub id: i32,
    pub object_index: i32,
    pub x: i64,
    pub y: i64,
    pub xprevious: i64,
    pub yprevious: i64,
    pub xstart: i64,
    pub ystart: i64,
    pub speed: i64,
    pub direction: i64,
    pub hspeed: i64,
    pub vspeed: i64,
    pub gravity: i64,
    pub gravity_direction: i64,
    pub friction: i64,
    pub solid: bool,
    pub persistent: bool,
    pub sprite_index: i32,
    pub mask_index: i32,
    pub image_index: i64,
    pub image_speed: i64,
    pub visible: bool,
    pub depth: i32,
    pub image_xscale: i64,
    pub image_yscale: i64,
    pub image_angle: i64,
    pub image_blend: i32,
    pub image_alpha: i64,
    pub bbox_left: i64,
    pub bbox_right: i64,
    pub bbox_top: i64,
    pub bbox_bottom: i64,
    pub bbox_updated: bool,
    pub alarms: Map<int, i64>,
    pub fields: Map<int, FieldV>,
}

/// A live entity of the simulated world.
pub struct Instance {
    pub id: i32,
    pub object_index: i32,
    pub x: i64,
    pub y: i64,
    pub xprevious: i64,
    pub yprevious: i64,
    pub xstart: i64,
    pub ystart: i64,
    pub speed: i64,
    pub direction: i64,
    pub hspeed: i64,
    pub vspeed: i64,
    pub gravity: i64,
    pub gravity_direction: i64,
    pub friction: i64,
    pub solid: bool,
    pub persistent: bool,
    pub sprite_index: i32,
    pub mask_index: i32,
    pub image_index: i64,
    pub image_speed: i64,
    pub visible: bool,
    pub depth: i32,
    pub image_xscale: i64,
    pub image_yscale: i64,
    pub image_angle: i64,
    pub image_blend: i32,
    pub image_alpha: i64,
    pub bbox_left: i64,
    pub bbox_right: i64,
    pub bbox_top: i64,
    pub bbox_bottom: i64,
    pub bbox_updated: bool,
    pub alarms: ScalarMap,
    pub fields: FieldMap,
}

impl View for Instance {
    type V = InstanceV;

    open spec fn view(&self) -> InstanceV {
        InstanceV {
            id: self.id,
            object_index: self.object_index,
            x: self.x,
            y: self.y,
            xprevious: self.xprevious,
            yprevious: self.yprevious,
            xstart: self.xstart,
            ystart: self.ystart,
            speed: self.speed,
            direction: self.direction,
            hspeed: self.hspeed,
            vspeed: self.vspeed,
            gravity: self.gravity,
            gravity_direction: self.gravity_direction,
            friction: self.friction,
            solid: self.solid,
            persistent: self.persistent,
            sprite_index: self.sprite_index,
            mask_index: self.mask_index,
            image_index: self.image_index,
            image_speed: self.image_speed,
            visible: self.visible,
            depth: self.depth,
            image_xscale: self.image_xscale,
            image_yscale: self.image_yscale,
            image_angle: self.image_angle,
            image_blend: self.image_blend,
            image_alpha: self.image_alpha,
            bbox_left: self.bbox_left,
            bbox_right: self.bbox_right,
            bbox_top: self.bbox_top,
            bbox_bottom: self.bbox_bottom,
            bbox_updated: self.bbox_updated,
            alarms: self.alarms@,
            fields: self.fields@,
        }
    }
}

/// The model of a freshly allocated instance of `object_index` under `id`:
/// at the origin, unscaled, visible, with no sprite, alarms or fields.
pub open spec fn new_instance_v(id: i32, object_index: i32) -> InstanceV {
    InstanceV {
        id: id,
        object_index: object_index,
        x: 0,
        y: 0,
        xprevious: 0,
        yprevious: 0,
        xstart: 0,
        ystart: 0,
        speed: 0,
        direction: 0,
        hspeed: 0,
        vspeed: 0,
        gravity: 0,
        gravity_direction: 270,
        friction: 0,
        solid: false,
        persistent: false,
        sprite_index: -1i32,
        mask_index: -1i32,
        image_index: 0,
        image_speed: 1,
        visible: true,
        depth: 0,
        image_xscale: 1,
        image_yscale: 1,
        image_angle: 0,
        image_blend: 0xFFFFFF,
        image_alpha: 1,
        bbox_left: 0,
        bbox_right: 0,
        bbox_top: 0,
        bbox_bottom: 0,
        bbox_updated: false,
        alarms: Map::empty(),
        fields: Map::empty(),
    }
}

/// `v` clamped into the 64-bit signed range.
pub open spec fn sat_i64(v: int) -> i64 {
    if v > i64::MAX {
        i64::MAX
    } else if v < i64::MIN {
        i64::MIN
    } else {
        v as i64
    }
}

/// The rotation angle folded into `[0, 360)` degrees.
pub open spec fn norm_angle(angle: i64) -> int {
    angle as int % 360
}

/// The sprite the bounding box is computed from: the mask when one is set,
/// the sprite otherwise; absence when the index resolves to no asset.
pub open spec fn bbox_sprite(i: InstanceV, sprites: Seq<SpriteDesc>) -> Option<SpriteDesc> {
    let idx = if i.mask_index >= 0 {
        i.mask_index
    } else {
        i.sprite_index
    };
    if 0 <= idx < sprites.len() {
        Some(sprites[idx as int])
    } else {
        None
    }
}

/// The axis-aligned box `(left, right, top, bottom)` of an instance, a pure
/// function of position, sprite geometry, scale and angle.  Rotation is
/// honoured at quarter-turn granularity: in the second and fourth quadrant
/// the sprite's extents and origins trade axes.  A missing asset degrades to
/// a point box at the instance's position, never an error.
pub open spec fn bbox_of(i: InstanceV, sprites: Seq<SpriteDesc>) -> (i64, i64, i64, i64) {
    match bbox_sprite(i, sprites) {
        None => (i.x, i.x, i.y, i.y),
        Some(sp) => {
            let q = norm_angle(i.image_angle) / 90;
            let ew: int = if q == 1 || q == 3 {
                sp.height as int
            } else {
                sp.width as int
            };
            let eh: int = if q == 1 || q == 3 {
                sp.width as int
            } else {
                sp.height as int
            };
            let eox: int = if q == 1 || q == 3 {
                sp.origin_y as int
            } else {
                sp.origin_x as int
            };
            let eoy: int = if q == 1 || q == 3 {
                sp.origin_x as int
            } else {
                sp.origin_y as int
            };
            let x0 = i.x - eox * i.image_xscale;
            let x1 = i.x + ew * i.image_xscale - eox * i.image_xscale;
            let y0 = i.y - eoy * i.image_yscale;
            let y1 = i.y + eh * i.image_yscale - eoy * i.image_yscale;
            (
                sat_i64(if x0 <= x1 { x0 } else { x1 }),
                sat_i64(if x0 <= x1 { x1 } else { x0 }),
                sat_i64(if y0 <= y1 { y0 } else { y1 }),
                sat_i64(if y0 <= y1 { y1 } else { y0 }),
            )
        },
    }
}

/// `i` with its cached box recomputed and marked valid; no other field moves.
pub open spec fn with_bbox(i: InstanceV, sprites: Seq<SpriteDesc>) -> InstanceV {
    let (l, r, t, b) = bbox_of(i, sprites);
    InstanceV {
        bbox_left: l,
        bbox_right: r,
        bbox_top: t,
        bbox_bottom: b,
        bbox_updated: true,
        ..i
    }
}

/// Recomputing the box reads nothing the recompute writes, so a second
/// recompute with unchanged fields yields the same box.
pub proof fn lemma_update_bbox_idempotent(i: InstanceV, sprites: Seq<SpriteDesc>)
    ensures
        with_bbox(with_bbox(i, sprites), sprites) == with_bbox(i, sprites),
{
    assert(bbox_of(with_bbox(i, sprites), sprites) == bbox_of(i, sprites));
}

/// The product of two 64-bit values, exact in 128 bits.
fn mul_i64(a: i64, b: i64) -> (r: i128)
    requires
        -2_000_000 <= a <= 2_000_000,
    ensures
        r == a as int * b as int,
        -2_000_000 * 0x8000_0000_0000_0000 <= r <= 2_000_000 * 0x8000_0000_0000_0000,
{
    proof {
        assert((a as int) * (b as int) <= 2_000_000 * 0x8000_0000_0000_0000 && (a as int) * (
        b as int) >= -2_000_000 * 0x8000_0000_0000_0000) by (nonlinear_arith)
            requires
                -2_000_000 <= a as int <= 2_000_000,
                -0x8000_0000_0000_0000 <= b as int <= 0x7FFF_FFFF_FFFF_FFFF,
        ;
    }
    (a as i128) * (b as i128)
}

/// `v` clamped into the 64-bit signed range.
fn sat_i64_exec(v: i128) -> (r: i64)
    ensures
        r == sat_i64(v as int),
{
    if v > i64::MAX as i128 {
        i64::MAX
    } else if v < i64::MIN as i128 {
        i64::MIN
    } else {
        v as i64
    }
}

impl Instance {
    /// Alarm and field tables are well formed.
    pub open spec fn wf(&self) -> bool {
        self.alarms.wf() && self.fields.wf()
    }

    /// A freshly allocated instance of `object_index` under `id`.
    pub fn new(id: i32, object_index: i32) -> (r: Instance)
        ensures
            r.wf(),
            r@ == new_instance_v(id, object_index),
    {
        let r = Instance {
            id: id,
            object_index: object_index,
            x: 0,
            y: 0,
            xprevious: 0,
            yprevious: 0,
            xstart: 0,
            ystart: 0,
            speed: 0,
            direction: 0,
            hspeed: 0,
            vspeed: 0,
            gravity: 0,
            gravity_direction: 270,
            friction: 0,
            solid: false,
            persistent: false,
            sprite_index: -1,
            mask_index: -1,
            image_index: 0,
            image_speed: 1,
            visible: true,
            depth: 0,
            image_xscale: 1,
            image_yscale: 1,
            image_angle: 0,
            image_blend: 0xFFFFFF,
            image_alpha: 1,
            bbox_left: 0,
            bbox_right: 0,
            bbox_top: 0,
            bbox_bottom: 0,
            bbox_updated: false,
            alarms: ScalarMap::new(),
            fields: FieldMap::new(),
        };
        proof {
            assert(r@ =~= new_instance_v(id, object_index));
        }
        r
    }

    /// Recomputes the cached bounding box from the current sprite or mask,
    /// scale, angle and position, and marks it valid.  Deterministic and
    /// idempotent given unchanged inputs.
    pub fn update_bbox(&mut self, sprites: &Vec<SpriteDesc>)
        requires
            old(self).wf(),
            sprites_wf(sprites@),
        ensures
            final(self).wf(),
            final(self)@ == with_bbox(old(self)@, sprites@),
    {
        let idx = if self.mask_index >= 0 {
            self.mask_index
        } else {
            self.sprite_index
        };
        if idx >= 0 && (idx as usize) < sprites.len() {
            let sp = sprites[idx as usize];
            let m = self.image_angle % 360;
            let n = if m < 0 {
                m + 360
            } else {
                m
            };
            proof {
                assert(n == norm_angle(self.image_angle));
            }
            let q = n / 90;
            let (ew, eh, eox, eoy) = if q == 1 || q == 3 {
                (sp.height, sp.width, sp.origin_y, sp.origin_x)
            } else {
                (sp.width, sp.height, sp.origin_x, sp.origin_y)
            };
            let x0: i128 = self.x as i128 - mul_i64(eox, self.image_xscale);
            let x1: i128 = self.x as i128 + mul_i64(ew, self.image_xscale) - mul_i64(
                eox,
                self.image_xscale,
            );
            let y0: i128 = self.y as i128 - mul_i64(eoy, self.image_yscale);
            let y1: i128 = self.y as i128 + mul_i64(eh, self.image_yscale) - mul_i64(
                eoy,
                self.image_yscale,
            );
            self.bbox_left = sat_i64_exec(if x0 <= x1 { x0 } else { x1 });
            self.bbox_right = sat_i64_exec(if x0 <= x1 { x1 } else { x0 });
            self.bbox_top = sat_i64_exec(if y0 <= y1 { y0 } else { y1 });
            self.bbox_bottom = sat_i64_exec(if y0 <= y1 { y1 } else { y0 });
            self.bbox_updated = true;
            proof {
                assert(self@ =~= with_bbox(old(self)@, sprites@));
            }
        } else {
            self.bbox_left = self.x;
            self.bbox_right = self.x;
            self.bbox_top = self.y;
            self.bbox_bottom = self.y;
            self.bbox_updated = true;
            proof {
                assert(self@ =~= with_bbox(old(self)@, sprites@));
            }
        }
    }

    /// An exact copy, owned independently of `self`.
    pub fn duplicate(&self) -> (r: Instance)
        requires
            self.wf(),
        ensures
            r.wf(),
            r@ == self@,
    {
        let r = Instance {
            id: self.id,
            object_index: self.object_index,
            x: self.x,
            y: self.y,
            xprevious: self.xprevious,
            yprevious: self.yprevious,
            xstart: self.xstart,
            ystart: self.ystart,
            speed: self.speed,
            direction: self.direction,
            hspeed: self.hspeed,
            vspeed: self.vspeed,
            gravity: self.gravity,
            gravity_direction: self.gravity_direction,
            friction: self.friction,
            solid: self.solid,
            persistent: self.persistent,
            sprite_index: self.sprite_index,
            mask_index: self.mask_index,
            image_index: self.image_index,
            image_speed: self.image_speed,
            visible: self.visible,
            depth: self.depth,
            image_xscale: self.image_xscale,
            image_yscale: self.image_yscale,
            image_angle: self.image_angle,
            image_blend: self.image_blend,
            image_alpha: self.image_alpha,
            bbox_left: self.bbox_left,
            bbox_right: self.bbox_right,
            bbox_top: self.bbox_top,
            bbox_bottom: self.bbox_bottom,
            bbox_updated: self.bbox_updated,
            alarms: self.alarms.duplicate(),
            fields: self.fields.duplicate(),
        };
        proof {
            assert(r@ =~= self@);
        }
        r
    }
}

} // verus!
