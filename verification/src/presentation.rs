//! The choices the renderer makes when it sets up presentation: surface
//! format, present mode, swapchain size and image count, queue families,
//! image layout barriers, and the frame ring.
use vstd::prelude::*;

verus! {

/// `VK_FORMAT_B8G8R8A8_SRGB`.
pub const FORMAT_B8G8R8A8_SRGB: i32 = 50;

/// `VK_COLOR_SPACE_SRGB_NONLINEAR_KHR`.
pub const COLOR_SPACE_SRGB_NONLINEAR: i32 = 0;

/// `VK_PRESENT_MODE_MAILBOX_KHR`.
pub const PRESENT_MODE_MAILBOX: i32 = 1;

/// `VK_PRESENT_MODE_FIFO_KHR`, which every device supports.
pub const PRESENT_MODE_FIFO: i32 = 2;

/// The number of frames recorded ahead of the GPU.
pub const FRAMES_IN_FLIGHT: usize = 2;

/// A surface format: pixel format and colour space, by their Vulkan codes.
#[derive(Clone, Copy, PartialEq, Eq, Debug, Structural)]
pub struct SurfaceFormat {
    pub format: i32,
    pub color_space: i32,
}

/// Whether a surface format is 8-bit BGRA in the sRGB colour space.
pub open spec fn is_preferred_format(f: SurfaceFormat) -> bool {
    f.format == FORMAT_B8G8R8A8_SRGB && f.color_space == COLOR_SPACE_SRGB_NONLINEAR
}

/// The surface format to use: the first sRGB BGRA8 format offered, else
/// the first format offered.
pub fn choose_surface_format(formats: &[SurfaceFormat]) -> (f: SurfaceFormat)
    requires
        formats@.len() > 0,
    ensures
        (exists|i: int| 0 <= i < formats@.len() && is_preferred_format(formats@[i])) ==> {
            &&& is_preferred_format(f)
            &&& exists|i: int|
                0 <= i < formats@.len() && formats@[i] == f && forall|j: int|
                    0 <= j < i ==> !is_preferred_format(#[trigger] formats@[j])
        },
        (forall|i: int| 0 <= i < formats@.len() ==> !is_preferred_format(formats@[i])) ==> f
            == formats@[0],
{
    let mut i: usize = 0;
    while i < formats.len()
        invariant
            i <= formats@.len(),
            forall|j: int| 0 <= j < i ==> !is_preferred_format(#[trigger] formats@[j]),
        decreases formats.len() - i,
    {
        let f = formats[i];
        if f.format == FORMAT_B8G8R8A8_SRGB && f.color_space == COLOR_SPACE_SRGB_NONLINEAR {
            return f;
        }
        i += 1;
    }
    formats[0]
}

/// The present mode to use: mailbox when offered, else FIFO.
pub fn choose_present_mode(modes: &[i32]) -> (m: i32)
    ensures
        m == (if modes@.contains(PRESENT_MODE_MAILBOX) {
            PRESENT_MODE_MAILBOX
        } else {
            PRESENT_MODE_FIFO
        }),
{
    let mut i: usize = 0;
    while i < modes.len()
        invariant
            i <= modes@.len(),
            forall|j: int| 0 <= j < i ==> modes@[j] != PRESENT_MODE_MAILBOX,
        decreases modes.len() - i,
    {
        if modes[i] == PRESENT_MODE_MAILBOX {
            return PRESENT_MODE_MAILBOX;
        }
        i += 1;
    }
    PRESENT_MODE_FIFO
}

/// A width and height in pixels.
#[derive(Clone, Copy, PartialEq, Eq, Debug, Structural)]
pub struct Extent {
    pub width: u32,
    pub height: u32,
}

/// `v` clamped to `[lo, hi]`.
pub open spec fn clamp(v: int, lo: int, hi: int) -> int {
    if v < lo {
        lo
    } else if v > hi {
        hi
    } else {
        v
    }
}

/// Clamping keeps a value inside the bounds and changes it only when it
/// lies outside them, to the nearer bound.
pub proof fn lemma_clamp_in_bounds(v: int, lo: int, hi: int)
    requires
        lo <= hi,
    ensures
        lo <= clamp(v, lo, hi) <= hi,
        lo <= v <= hi ==> clamp(v, lo, hi) == v,
        v < lo ==> clamp(v, lo, hi) == lo,
        v > hi ==> clamp(v, lo, hi) == hi,
{
}

/// The swapchain size: the surface's current extent when it has one (its
/// width is not the `u32::MAX` marker), else the window size clamped to the
/// extents the surface allows.
pub fn choose_extent(current: Extent, window: Extent, min: Extent, max: Extent) -> (e: Extent)
    requires
        current.width == u32::MAX ==> min.width <= max.width && min.height <= max.height,
    ensures
        current.width != u32::MAX ==> e == current,
        current.width == u32::MAX ==> e.width == clamp(
            window.width as int,
            min.width as int,
            max.width as int,
        ) && e.height == clamp(window.height as int, min.height as int, max.height as int),
{
    if current.width != u32::MAX {
        current
    } else {
        Extent {
            width: clamp_u32(window.width, min.width, max.width),
            height: clamp_u32(window.height, min.height, max.height),
        }
    }
}

fn clamp_u32(v: u32, lo: u32, hi: u32) -> (r: u32)
    requires
        lo <= hi,
    ensures
        r == clamp(v as int, lo as int, hi as int),
{
    if v < lo {
        lo
    } else if v > hi {
        hi
    } else {
        v
    }
}

/// The number of swapchain images to ask for: one more than the minimum,
/// but no more than the maximum when the surface has one (a maximum of 0
/// means no limit).
pub fn choose_image_count(min_count: u32, max_count: u32) -> (n: u32)
    requires
        min_count < u32::MAX,
    ensures
        n == (if max_count > 0 && max_count < min_count + 1 {
            max_count as int
        } else {
            min_count + 1
        }),
{
    let limit: u32 = if max_count > 0 {
        max_count
    } else {
        u32::MAX
    };
    let want: u32 = min_count + 1;
    if want < limit {
        want
    } else {
        limit
    }
}

/// The last index before `n` at which `flags` holds, if any.
pub open spec fn last_true(flags: Seq<bool>, n: int) -> Option<int>
    decreases n,
{
    if n <= 0 {
        None
    } else if flags[n - 1] {
        Some(n - 1)
    } else {
        last_true(flags, n - 1)
    }
}

/// `last_true` finds the last flag that holds: it names an index below `n`
/// whose flag holds and after which (below `n`) none does, and it is
/// `None` exactly when no flag below `n` holds.
pub proof fn lemma_last_true_is_last(flags: Seq<bool>, n: int)
    requires
        0 <= n <= flags.len(),
    ensures
        last_true(flags, n) matches Some(k) ==> 0 <= k < n && flags[k] && forall|j: int|
            k < j < n ==> !flags[j],
        last_true(flags, n) is None <==> forall|j: int| 0 <= j < n ==> !flags[j],
    decreases n,
{
    if n > 0 && !flags[n - 1] {
        lemma_last_true_is_last(flags, n - 1);
    }
}

/// The queue families of a device: the last family that supports graphics
/// and the last that can present to the surface, when both exist and the
/// device supports swapchains; `None` rules the device out.
pub fn choose_queue_families(graphics: &[bool], present: &[bool], has_swapchain: bool) -> (r:
    Option<(u32, u32)>)
    requires
        graphics@.len() == present@.len(),
        graphics@.len() <= u32::MAX,
    ensures
        r matches Some((g, p)) ==> last_true(graphics@, graphics@.len() as int) == Some(g as int)
            && last_true(present@, present@.len() as int) == Some(p as int) && has_swapchain,
        r is None <==> (last_true(graphics@, graphics@.len() as int) is None || last_true(
            present@,
            present@.len() as int,
        ) is None || !has_swapchain),
{
    let n: usize = graphics.len();
    let mut gfx: Option<u32> = None;
    let mut prs: Option<u32> = None;
    let mut i: usize = 0;
    while i < n
        invariant
            i <= n,
            n == graphics@.len(),
            n == present@.len(),
            n <= u32::MAX,
            match gfx {
                Some(g) => last_true(graphics@, i as int) == Some(g as int),
                None => last_true(graphics@, i as int) is None,
            },
            match prs {
                Some(p) => last_true(present@, i as int) == Some(p as int),
                None => last_true(present@, i as int) is None,
            },
        decreases n - i,
    {
        if graphics[i] {
            gfx = Some(i as u32);
        }
        if present[i] {
            prs = Some(i as u32);
        }
        i += 1;
    }
    match (gfx, prs) {
        (Some(g), Some(p)) => if has_swapchain {
            Some((g, p))
        } else {
            None
        },
        _ => None,
    }
}

/// The families to create one queue each for: the graphics family, and
/// the present family when it differs.
pub fn queue_families_to_create(graphics: u32, present: u32) -> (v: Vec<u32>)
    ensures
        v@ == (if graphics == present {
            seq![graphics]
        } else {
            seq![graphics, present]
        }),
{
    let mut v: Vec<u32> = Vec::new();
    v.push(graphics);
    if present != graphics {
        v.push(present);
    }
    v
}

/// How the swapchain images are shared: concurrently between the two
/// families when they differ (the families listed), else exclusively (no
/// families listed).
pub fn swapchain_sharing(graphics: u32, present: u32) -> (r: (bool, Vec<u32>))
    ensures
        r.0 == (graphics != present),
        r.1@ == (if graphics != present {
            seq![graphics, present]
        } else {
            Seq::<u32>::empty()
        }),
{
    let mut v: Vec<u32> = Vec::new();
    if graphics != present {
        v.push(graphics);
        v.push(present);
        (true, v)
    } else {
        (false, v)
    }
}

/// The frame slot after `f` in the ring of frames in flight.
pub fn next_frame(f: usize) -> (n: usize)
    requires
        f < FRAMES_IN_FLIGHT,
    ensures
        n == (f + 1) % (FRAMES_IN_FLIGHT as int),
        n < FRAMES_IN_FLIGHT,
{
    (f + 1) % FRAMES_IN_FLIGHT
}

/// Image layouts that a texture upload moves through.
#[derive(Clone, Copy, PartialEq, Eq, Debug, Structural)]
pub enum ImageLayout {
    Undefined,
    TransferDst,
    ShaderReadOnly,
}

/// Memory accesses named in a barrier.
#[derive(Clone, Copy, PartialEq, Eq, Debug, Structural)]
pub enum Access {
    Nothing,
    TransferWrite,
    ShaderRead,
}

/// Pipeline stages named in a barrier.
#[derive(Clone, Copy, PartialEq, Eq, Debug, Structural)]
pub enum Stage {
    TopOfPipe,
    Transfer,
    FragmentShader,
}

/// The access masks and stages of an image layout barrier.
#[derive(Clone, Copy, PartialEq, Eq, Debug, Structural)]
pub struct Barrier {
    pub src_access: Access,
    pub dst_access: Access,
    pub src_stage: Stage,
    pub dst_stage: Stage,
}

/// Whether the texture upload knows a barrier for this change of layout.
pub open spec fn supported_transition(old: ImageLayout, new: ImageLayout) -> bool {
    ||| (old == ImageLayout::Undefined && new == ImageLayout::TransferDst)
    ||| (old == ImageLayout::TransferDst && new == ImageLayout::ShaderReadOnly)
}

/// The barrier for a layout change: before the copy, nothing to wait for
/// and transfer writes to make ready; after it, transfer writes to finish
/// before fragment shaders read.
pub fn layout_barrier(old: ImageLayout, new: ImageLayout) -> (b: Barrier)
    requires
        supported_transition(old, new),
    ensures
        old == ImageLayout::Undefined ==> b == (Barrier {
            src_access: Access::Nothing,
            dst_access: Access::TransferWrite,
            src_stage: Stage::TopOfPipe,
            dst_stage: Stage::Transfer,
        }),
        old == ImageLayout::TransferDst ==> b == (Barrier {
            src_access: Access::TransferWrite,
            dst_access: Access::ShaderRead,
            src_stage: Stage::Transfer,
            dst_stage: Stage::FragmentShader,
        }),
{
    match old {
        ImageLayout::Undefined => Barrier {
            src_access: Access::Nothing,
            dst_access: Access::TransferWrite,
            src_stage: Stage::TopOfPipe,
            dst_stage: Stage::Transfer,
        },
        _ => Barrier {
            src_access: Access::TransferWrite,
            dst_access: Access::ShaderRead,
            src_stage: Stage::Transfer,
            dst_stage: Stage::FragmentShader,
        },
    }
}

} // verus!
