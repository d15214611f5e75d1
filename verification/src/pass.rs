//! Passes: a list of placed frames drawn one after the other into the same
//! buffers. A pass is the fold of one blit over the list, first stamp first.

use crate::atlas::{Atlas, AtlasImage, Frame};
use crate::blit::{
    blit_opaque, blit_unit, blit_unit_shadow, blit_world_shadow, opaque_blit, unit_blit,
    unit_shadow_image, unit_shadow_mask, world_shadow_image, world_shadow_map, SCREEN_LIMIT,
    SHADOW_CAP,
};
use vstd::prelude::*;

verus! {

/// A frame and the position of its top-left corner in the target buffer.
pub struct Stamp {
    /// The frame to draw.
    pub frame: Frame,
    /// Column of the frame's left edge.
    pub sx: i128,
    /// Row of the frame's top edge.
    pub sy: i128,
}

/// Every stamp lies within the range of positions that the blits take.
pub open spec fn stamps_fit(stamps: Seq<Stamp>) -> bool {
    forall|i: int|
        0 <= i < stamps.len() ==> -SCREEN_LIMIT <= (#[trigger] stamps[i]).sx <= SCREEN_LIMIT
            && -SCREEN_LIMIT <= stamps[i].sy <= SCREEN_LIMIT
}

/// The buffer after the first `n` stamps were copied into it, alpha-tested.
pub open spec fn opaque_pass(
    buf: Seq<u32>,
    w: int,
    image: AtlasImage,
    stamps: Seq<Stamp>,
    n: nat,
) -> Seq<u32>
    decreases n,
{
    if n == 0 {
        buf
    } else {
        let s = stamps[n - 1];
        opaque_blit(
            opaque_pass(buf, w, image, stamps, (n - 1) as nat),
            w,
            image,
            s.frame,
            s.sx as int,
            s.sy as int,
        )
    }
}

/// World image and shadow map after the first `n` stamps cast their shadows.
pub open spec fn world_shadow_pass(
    world: Seq<u32>,
    shadow: Seq<u8>,
    w: int,
    image: AtlasImage,
    stamps: Seq<Stamp>,
    n: nat,
) -> (Seq<u32>, Seq<u8>)
    decreases n,
{
    if n == 0 {
        (world, shadow)
    } else {
        let s = stamps[n - 1];
        let prev = world_shadow_pass(world, shadow, w, image, stamps, (n - 1) as nat);
        (
            world_shadow_image(prev.0, prev.1, w, image, s.frame, s.sx as int, s.sy as int),
            world_shadow_map(prev.1, w, image, s.frame, s.sx as int, s.sy as int),
        )
    }
}

/// Viewport and mask after the first `n` stamps cast their unit shadows.
pub open spec fn unit_shadow_pass(
    buf: Seq<u32>,
    mask: Seq<u8>,
    vw: int,
    vh: int,
    shadow: Seq<u8>,
    w: int,
    h: int,
    image: AtlasImage,
    stamps: Seq<Stamp>,
    ox: int,
    oy: int,
    n: nat,
) -> (Seq<u32>, Seq<u8>)
    decreases n,
{
    if n == 0 {
        (buf, mask)
    } else {
        let s = stamps[n - 1];
        let prev = unit_shadow_pass(
            buf,
            mask,
            vw,
            vh,
            shadow,
            w,
            h,
            image,
            stamps,
            ox,
            oy,
            (n - 1) as nat,
        );
        (
            unit_shadow_image(
                prev.0,
                vw,
                prev.1,
                shadow,
                w,
                h,
                image,
                s.frame,
                s.sx as int,
                s.sy as int,
                ox,
                oy,
            ),
            unit_shadow_mask(prev.1, w, vw, vh, image, s.frame, s.sx as int, s.sy as int, ox, oy),
        )
    }
}

/// The viewport after the first `n` stamps were blended into it as units.
pub open spec fn unit_pass(
    buf: Seq<u32>,
    vw: int,
    shadow: Seq<u8>,
    w: int,
    h: int,
    image: AtlasImage,
    stamps: Seq<Stamp>,
    ox: int,
    oy: int,
    n: nat,
) -> Seq<u32>
    decreases n,
{
    if n == 0 {
        buf
    } else {
        let s = stamps[n - 1];
        unit_blit(
            unit_pass(buf, vw, shadow, w, h, image, stamps, ox, oy, (n - 1) as nat),
            vw,
            image,
            s.frame,
            s.sx as int,
            s.sy as int,
            shadow,
            w,
            h,
            ox,
            oy,
        )
    }
}

/// A pass of shadow casts keeps the sizes of both buffers, and keeps the
/// shadow map at or below the cap if it was so before.
pub proof fn lemma_world_shadow_pass(
    world: Seq<u32>,
    shadow: Seq<u8>,
    w: int,
    image: AtlasImage,
    stamps: Seq<Stamp>,
    n: nat,
)
    ensures
        world_shadow_pass(world, shadow, w, image, stamps, n).0.len() == world.len(),
        world_shadow_pass(world, shadow, w, image, stamps, n).1.len() == shadow.len(),
        (forall|k: int| 0 <= k < shadow.len() ==> #[trigger] shadow[k] <= SHADOW_CAP) ==> (forall|
            k: int,
        |
            0 <= k < shadow.len() ==> #[trigger] world_shadow_pass(
                world,
                shadow,
                w,
                image,
                stamps,
                n,
            ).1[k] <= SHADOW_CAP),
    decreases n,
{
    if n > 0 {
        lemma_world_shadow_pass(world, shadow, w, image, stamps, (n - 1) as nat);
        let prev = world_shadow_pass(world, shadow, w, image, stamps, (n - 1) as nat);
        if forall|k: int| 0 <= k < shadow.len() ==> #[trigger] shadow[k] <= SHADOW_CAP {
            assert forall|k: int| 0 <= k < shadow.len() implies #[trigger] world_shadow_pass(
                world,
                shadow,
                w,
                image,
                stamps,
                n,
            ).1[k] <= SHADOW_CAP by {
                assert(prev.1[k] <= SHADOW_CAP);
            }
        }
    }
}

/// Copies every stamp into `buf`, alpha-tested, first stamp first.
pub(crate) fn run_opaque_pass(
    buf: &mut Vec<u32>,
    w: usize,
    h: usize,
    atlas: &Atlas,
    stamps: &Vec<Stamp>,
)
    requires
        w * h == old(buf)@.len(),
        stamps_fit(stamps@),
    ensures
        final(buf)@ == opaque_pass(old(buf)@, w as int, atlas.image, stamps@, stamps@.len()),
        final(buf)@.len() == old(buf)@.len(),
{
    let ghost before = buf@;
    let mut i: usize = 0;
    while i < stamps.len()
        invariant
            i <= stamps@.len(),
            stamps_fit(stamps@),
            w * h == before.len(),
            buf@.len() == before.len(),
            buf@ == opaque_pass(before, w as int, atlas.image, stamps@, i as nat),
        decreases stamps@.len() - i,
    {
        let s = &stamps[i];
        blit_opaque(buf, w, h, atlas, &s.frame, s.sx, s.sy);
        i += 1;
    }
}

/// Lets every stamp cast its shadow on the world, first stamp first.
pub(crate) fn run_world_shadow_pass(
    world: &mut Vec<u32>,
    shadow: &mut Vec<u8>,
    w: usize,
    h: usize,
    atlas: &Atlas,
    stamps: &Vec<Stamp>,
)
    requires
        w * h == old(world)@.len(),
        w * h == old(shadow)@.len(),
        stamps_fit(stamps@),
    ensures
        (final(world)@, final(shadow)@) == world_shadow_pass(
            old(world)@,
            old(shadow)@,
            w as int,
            atlas.image,
            stamps@,
            stamps@.len(),
        ),
        final(world)@.len() == old(world)@.len(),
        final(shadow)@.len() == old(shadow)@.len(),
{
    let ghost world0 = world@;
    let ghost shadow0 = shadow@;
    let mut i: usize = 0;
    while i < stamps.len()
        invariant
            i <= stamps@.len(),
            stamps_fit(stamps@),
            w * h == world0.len(),
            w * h == shadow0.len(),
            world@.len() == world0.len(),
            shadow@.len() == shadow0.len(),
            (world@, shadow@) == world_shadow_pass(
                world0,
                shadow0,
                w as int,
                atlas.image,
                stamps@,
                i as nat,
            ),
        decreases stamps@.len() - i,
    {
        let s = &stamps[i];
        blit_world_shadow(world, shadow, w, h, atlas, &s.frame, s.sx, s.sy);
        i += 1;
    }
}

/// Lets every stamp cast its unit shadow on the viewport, first stamp first.
pub(crate) fn run_unit_shadow_pass(
    buf: &mut Vec<u32>,
    mask: &mut Vec<u8>,
    vw: usize,
    vh: usize,
    atlas: &Atlas,
    stamps: &Vec<Stamp>,
    shadow: &Vec<u8>,
    w: usize,
    h: usize,
    ox: i32,
    oy: i32,
)
    requires
        vw * vh == old(buf)@.len(),
        w * h == shadow@.len(),
        w * h == old(mask)@.len(),
        stamps_fit(stamps@),
    ensures
        (final(buf)@, final(mask)@) == unit_shadow_pass(
            old(buf)@,
            old(mask)@,
            vw as int,
            vh as int,
            shadow@,
            w as int,
            h as int,
            atlas.image,
            stamps@,
            ox as int,
            oy as int,
            stamps@.len(),
        ),
        final(buf)@.len() == old(buf)@.len(),
        final(mask)@.len() == old(mask)@.len(),
{
    let ghost buf0 = buf@;
    let ghost mask0 = mask@;
    let mut i: usize = 0;
    while i < stamps.len()
        invariant
            i <= stamps@.len(),
            stamps_fit(stamps@),
            vw * vh == buf0.len(),
            w * h == shadow@.len(),
            w * h == mask0.len(),
            buf@.len() == buf0.len(),
            mask@.len() == mask0.len(),
            (buf@, mask@) == unit_shadow_pass(
                buf0,
                mask0,
                vw as int,
                vh as int,
                shadow@,
                w as int,
                h as int,
                atlas.image,
                stamps@,
                ox as int,
                oy as int,
                i as nat,
            ),
        decreases stamps@.len() - i,
    {
        let s = &stamps[i];
        blit_unit_shadow(buf, mask, vw, vh, atlas, &s.frame, s.sx, s.sy, shadow, w, h, ox, oy);
        i += 1;
    }
}

/// Blends every stamp into the viewport as a unit, first stamp first.
pub(crate) fn run_unit_pass(
    buf: &mut Vec<u32>,
    vw: usize,
    vh: usize,
    atlas: &Atlas,
    stamps: &Vec<Stamp>,
    shadow: &Vec<u8>,
    w: usize,
    h: usize,
    ox: i32,
    oy: i32,
)
    requires
        vw * vh == old(buf)@.len(),
        w * h == shadow@.len(),
        stamps_fit(stamps@),
    ensures
        final(buf)@ == unit_pass(
            old(buf)@,
            vw as int,
            shadow@,
            w as int,
            h as int,
            atlas.image,
            stamps@,
            ox as int,
            oy as int,
            stamps@.len(),
        ),
        final(buf)@.len() == old(buf)@.len(),
{
    let ghost before = buf@;
    let mut i: usize = 0;
    while i < stamps.len()
        invariant
            i <= stamps@.len(),
            stamps_fit(stamps@),
            vw * vh == before.len(),
            w * h == shadow@.len(),
            buf@.len() == before.len(),
            buf@ == unit_pass(
                before,
                vw as int,
                shadow@,
                w as int,
                h as int,
                atlas.image,
                stamps@,
                ox as int,
                oy as int,
                i as nat,
            ),
        decreases stamps@.len() - i,
    {
        let s = &stamps[i];
        blit_unit(buf, vw, vh, atlas, &s.frame, s.sx, s.sy, shadow, w, h, ox, oy);
        i += 1;
    }
}

} // verus!
