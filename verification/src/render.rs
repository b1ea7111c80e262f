use vstd::prelude::*;

verus! {

/// Frames the renderer records ahead of the GPU.
pub const FRAMES_IN_FLIGHT: usize = 2;

/// The frame slot after `frame`, cycling through the frames in flight.
pub fn next_frame(frame: usize) -> (r: usize)
    requires
        frame < FRAMES_IN_FLIGHT,
    ensures
        r == (frame + 1) % (FRAMES_IN_FLIGHT as int),
        r < FRAMES_IN_FLIGHT,
{
    (frame + 1) % FRAMES_IN_FLIGHT
}

/// How finished frames are handed to the display.
#[derive(Debug, Clone, Copy, PartialEq, Eq, Structural)]
pub enum PresentMode {
    Immediate,
    Mailbox,
    Fifo,
    FifoRelaxed,
    FifoLatestReady,
    Other(i32),
}

impl PresentMode {
    /// The mode's name as the debug overlay shows it; `Error` for a mode it does not name.
    pub fn name(self) -> (r: &'static str)
        ensures
            r@ == present_mode_name(self)@,
    {
        match self {
            PresentMode::Fifo => "FIFO",
            PresentMode::FifoLatestReady => "FIFO_LATEST_READY",
            PresentMode::Mailbox => "MAILBOX",
            PresentMode::Immediate => "IMMEDIATE",
            _ => "Error",
        }
    }
}

pub open spec fn present_mode_name(m: PresentMode) -> &'static str {
    match m {
        PresentMode::Fifo => "FIFO",
        PresentMode::FifoLatestReady => "FIFO_LATEST_READY",
        PresentMode::Mailbox => "MAILBOX",
        PresentMode::Immediate => "IMMEDIATE",
        _ => "Error",
    }
}

/// Mailbox where the surface offers it, else FIFO, which every surface offers.
pub fn choose_present_mode(available: &Vec<PresentMode>) -> (r: PresentMode)
    ensures
        r == (if available@.contains(PresentMode::Mailbox) {
            PresentMode::Mailbox
        } else {
            PresentMode::Fifo
        }),
{
    let mut i: usize = 0;
    while i < available.len()
        invariant
            0 <= i <= available.len(),
            forall|j: int| 0 <= j < i ==> available@[j] != PresentMode::Mailbox,
        decreases available.len() - i,
    {
        if available[i] == PresentMode::Mailbox {
            proof {
                assert(available@[i as int] == PresentMode::Mailbox);
            }
            return PresentMode::Mailbox;
        }
        i += 1;
    }
    PresentMode::Fifo
}

/// A surface format: the image format and colour space, by their Vulkan codes.
#[derive(Debug, Clone, Copy, PartialEq, Eq, Structural)]
pub struct SurfaceFormat {
    pub format: i32,
    pub color_space: i32,
}

/// Vulkan code of the 8-bit BGRA sRGB image format.
pub const FORMAT_B8G8R8A8_SRGB: i32 = 50;

/// Vulkan code of the non-linear sRGB colour space.
pub const COLOR_SPACE_SRGB_NONLINEAR: i32 = 0;

/// Index of the first 8-bit BGRA sRGB format in `formats`, if any.
pub open spec fn is_preferred_format(f: SurfaceFormat) -> bool {
    f.format == FORMAT_B8G8R8A8_SRGB && f.color_space == COLOR_SPACE_SRGB_NONLINEAR
}

/// The first 8-bit BGRA sRGB format the surface offers, else its first format.
pub fn choose_surface_format(formats: &Vec<SurfaceFormat>) -> (r: SurfaceFormat)
    requires
        formats.len() > 0,
    ensures
        (exists|i: int| 0 <= i < formats.len() && is_preferred_format(#[trigger] formats@[i])) ==> is_preferred_format(r),
        (exists|i: int|
            0 <= i < formats.len() && is_preferred_format(#[trigger] formats@[i]) && (forall|j: int|
                0 <= j < i ==> !is_preferred_format(formats@[j])) && r == formats@[i])
            || ((forall|i: int| 0 <= i < formats.len() ==> !is_preferred_format(#[trigger] formats@[i])) && r
                == formats@[0]),
{
    let mut i: usize = 0;
    while i < formats.len()
        invariant
            0 <= i <= formats.len(),
            forall|j: int| 0 <= j < i ==> !is_preferred_format(#[trigger] formats@[j]),
        decreases formats.len() - i,
    {
        let f = formats[i];
        if f.format == FORMAT_B8G8R8A8_SRGB && f.color_space == COLOR_SPACE_SRGB_NONLINEAR {
            return f;
        }
        i += 1;
    }
    formats[0]
}

/// `v` limited to `[lo, hi]`.
pub open spec fn clamp_u32(v: u32, lo: u32, hi: u32) -> u32 {
    if v < lo {
        lo
    } else if v > hi {
        hi
    } else {
        v
    }
}

/// The swapchain's image size: the surface's current size where it fixes
/// one, else the window's size clamped to the sizes the surface allows.
pub fn choose_extent(current: (u32, u32), min: (u32, u32), max: (u32, u32), window: (u32, u32)) -> (r: (u32, u32))
    requires
        current.0 == u32::MAX ==> min.0 <= max.0 && min.1 <= max.1,
    ensures
        r == (if current.0 != u32::MAX {
            current
        } else {
            (clamp_u32(window.0, min.0, max.0), clamp_u32(window.1, min.1, max.1))
        }),
{
    if current.0 != u32::MAX {
        current
    } else {
        let w = if window.0 < min.0 {
            min.0
        } else if window.0 > max.0 {
            max.0
        } else {
            window.0
        };
        let h = if window.1 < min.1 {
            min.1
        } else if window.1 > max.1 {
            max.1
        } else {
            window.1
        };
        (w, h)
    }
}

/// Images to ask the swapchain for: one more than the surface's minimum,
/// within its maximum where it has one (a maximum of 0 means none).
pub fn swapchain_image_count(min_image_count: u32, max_image_count: u32) -> (r: u32)
    requires
        min_image_count < u32::MAX,
    ensures
        r == (if max_image_count != 0 && min_image_count + 1 > max_image_count {
            max_image_count as int
        } else {
            min_image_count + 1
        }),
{
    let mut count = min_image_count + 1;
    if max_image_count != 0 && count > max_image_count {
        count = max_image_count;
    }
    count
}

/// The queue families that share the swapchain's images: both families when
/// graphics and presentation differ (concurrent sharing), none when one
/// family does both (exclusive use).
pub fn sharing_families(graphics: u32, present: u32) -> (r: Vec<u32>)
    ensures
        r@ == (if graphics != present {
            seq![graphics, present]
        } else {
            Seq::<u32>::empty()
        }),
{
    let mut families: Vec<u32> = Vec::new();
    if graphics != present {
        families.push(graphics);
        families.push(present);
    }
    proof {
        if graphics != present {
            assert(families@ =~= seq![graphics, present]);
        } else {
            assert(families@ =~= Seq::<u32>::empty());
        }
    }
    families
}

/// What a queue family can do.
#[derive(Debug, Clone, Copy, PartialEq, Eq, Structural)]
pub struct QueueFamily {
    pub graphics: bool,
    pub transfer: bool,
    pub present: bool,
}

/// The queue families the renderer uses.
#[derive(Debug, Clone, Copy, PartialEq, Eq, Structural)]
pub struct QueueFamilyIndices {
    pub graphics: u32,
    pub transfer: u32,
    pub present: u32,
}

fn find_family(fs: &Vec<QueueFamily>, want: u8) -> (r: Option<u32>)
    requires
        fs.len() <= u32::MAX,
        want < 3,
    ensures
        match r {
            Some(i) => i < fs.len() && family_wanted(fs@[i as int], want) && forall|j: int|
                0 <= j < i ==> !family_wanted(#[trigger] fs@[j], want),
            None => forall|j: int| 0 <= j < fs.len() ==> !family_wanted(#[trigger] fs@[j], want),
        },
{
    let mut i: usize = 0;
    while i < fs.len()
        invariant
            fs.len() <= u32::MAX,
            0 <= i <= fs.len(),
            forall|j: int| 0 <= j < i ==> !family_wanted(#[trigger] fs@[j], want),
        decreases fs.len() - i,
    {
        let f = fs[i];
        let ok = if want == 0 {
            f.graphics
        } else if want == 1 {
            f.transfer && !f.graphics
        } else {
            f.present
        };
        if ok {
            return Some(i as u32);
        }
        i += 1;
    }
    None
}

/// Family `f` serves role `want`: 0 graphics, 1 a transfer-only queue, 2 presentation.
pub open spec fn family_wanted(f: QueueFamily, want: u8) -> bool {
    if want == 0 {
        f.graphics
    } else if want == 1 {
        f.transfer && !f.graphics
    } else {
        f.present
    }
}

/// No family of `fs` serves role `want`.
pub open spec fn no_family(fs: Seq<QueueFamily>, want: u8) -> bool {
    forall|j: int| 0 <= j < fs.len() ==> !family_wanted(#[trigger] fs[j], want)
}

/// Some role has no family in `fs`.
pub open spec fn family_missing(fs: Seq<QueueFamily>) -> bool {
    no_family(fs, 0) || no_family(fs, 1) || no_family(fs, 2)
}

/// The first family of `fs` serving role `want` is at `i`.
pub open spec fn first_family(fs: Seq<QueueFamily>, want: u8, i: int) -> bool {
    0 <= i < fs.len() && family_wanted(fs[i], want) && forall|j: int| 0 <= j < i ==> !family_wanted(fs[j], want)
}

/// Picks the first family with graphics, the first transfer family
/// without graphics, and the first that can present; `None` if one is missing.
pub fn queue_family_indices(families: &Vec<QueueFamily>) -> (r: Option<QueueFamilyIndices>)
    requires
        families.len() <= u32::MAX,
    ensures
        match r {
            Some(q) => first_family(families@, 0, q.graphics as int) && first_family(families@, 1, q.transfer as int)
                && first_family(families@, 2, q.present as int),
            None => family_missing(families@),
        },
{
    let graphics = find_family(families, 0);
    let transfer = find_family(families, 1);
    let present = find_family(families, 2);
    match (graphics, transfer, present) {
        (Some(g), Some(t), Some(p)) => Some(QueueFamilyIndices { graphics: g, transfer: t, present: p }),
        _ => None,
    }
}

/// Why a GPU cannot be used.
#[derive(Debug, Clone, Copy, PartialEq, Eq, Structural)]
pub enum SuitabilityError {
    NotDiscrete,
    NoGeometryShader,
    MissingExtensions,
    MissingQueueFamilies,
    InsufficientSwapchainSupport,
}

impl SuitabilityError {
    /// The message the renderer reports.
    pub fn message(self) -> (r: &'static str)
        ensures
            r@ == suitability_message(self)@,
    {
        match self {
            SuitabilityError::NotDiscrete => "Only discrete GPUs are supported.",
            SuitabilityError::NoGeometryShader => "Missing geometry shader support.",
            SuitabilityError::MissingExtensions => "Missing required device extensions.",
            SuitabilityError::MissingQueueFamilies => "Missing required queue families.",
            SuitabilityError::InsufficientSwapchainSupport => "Insufficient swapchain support.",
        }
    }
}

pub open spec fn suitability_message(e: SuitabilityError) -> &'static str {
    match e {
        SuitabilityError::NotDiscrete => "Only discrete GPUs are supported.",
        SuitabilityError::NoGeometryShader => "Missing geometry shader support.",
        SuitabilityError::MissingExtensions => "Missing required device extensions.",
        SuitabilityError::MissingQueueFamilies => "Missing required queue families.",
        SuitabilityError::InsufficientSwapchainSupport => "Insufficient swapchain support.",
    }
}

/// Some string of `available` reads `name`.
pub open spec fn lists(available: Seq<String>, name: Seq<char>) -> bool {
    exists|j: int| 0 <= j < available.len() && (#[trigger] available[j])@ == name
}

/// Every extension of `required` is among `available`.
pub fn extensions_supported(required: &Vec<String>, available: &Vec<String>) -> (r: bool)
    ensures
        r == forall|i: int| 0 <= i < required.len() ==> lists(available@, (#[trigger] required@[i])@),
{
    let mut i: usize = 0;
    while i < required.len()
        invariant
            0 <= i <= required.len(),
            forall|k: int| 0 <= k < i ==> lists(available@, (#[trigger] required@[k])@),
        decreases required.len() - i,
    {
        let mut j: usize = 0;
        let mut found = false;
        while j < available.len() && !found
            invariant
                0 <= i < required.len(),
                0 <= j <= available.len(),
                found ==> j < available.len() && available@[j as int]@ == required@[i as int]@,
                forall|jj: int| 0 <= jj < j ==> (#[trigger] available@[jj])@ != required@[i as int]@,
            decreases available.len() - j + (if found { 0int } else { 1int }),
        {
            if available[j] == required[i] {
                found = true;
            } else {
                j += 1;
            }
        }
        if !found {
            proof {
                assert(!lists(available@, required@[i as int]@));
            }
            return false;
        }
        proof {
            assert(available@[j as int]@ == required@[i as int]@);
            assert(lists(available@, required@[i as int]@));
        }
        i += 1;
    }
    true
}

/// Whether a GPU can be used, checked in order: discrete, geometry shaders,
/// device extensions, queue families, then swapchain formats and present
/// modes; returns the queue families to use.
pub fn check_physical_device(
    discrete: bool,
    geometry_shader: bool,
    extensions_ok: bool,
    families: &Vec<QueueFamily>,
    format_count: usize,
    present_mode_count: usize,
) -> (r: Result<QueueFamilyIndices, SuitabilityError>)
    requires
        families.len() <= u32::MAX,
    ensures
        !discrete ==> r == Err::<QueueFamilyIndices, SuitabilityError>(SuitabilityError::NotDiscrete),
        discrete && !geometry_shader ==> r == Err::<QueueFamilyIndices, SuitabilityError>(
            SuitabilityError::NoGeometryShader,
        ),
        discrete && geometry_shader && !extensions_ok ==> r == Err::<QueueFamilyIndices, SuitabilityError>(
            SuitabilityError::MissingExtensions,
        ),
        discrete && geometry_shader && extensions_ok ==> match r {
            Ok(q) => first_family(families@, 0, q.graphics as int) && first_family(families@, 1, q.transfer as int)
                && first_family(families@, 2, q.present as int) && format_count > 0 && present_mode_count > 0,
            Err(SuitabilityError::MissingQueueFamilies) => family_missing(families@),
            Err(SuitabilityError::InsufficientSwapchainSupport) => (format_count == 0 || present_mode_count == 0)
                && !family_missing(families@),
            _ => false,
        },
{
    if !discrete {
        return Err(SuitabilityError::NotDiscrete);
    }
    if !geometry_shader {
        return Err(SuitabilityError::NoGeometryShader);
    }
    if !extensions_ok {
        return Err(SuitabilityError::MissingExtensions);
    }
    let indices = match queue_family_indices(families) {
        Some(q) => q,
        None => {
            return Err(SuitabilityError::MissingQueueFamilies);
        },
    };
    if format_count == 0 || present_mode_count == 0 {
        proof {
            assert(family_wanted(families@[indices.graphics as int], 0));
            assert(family_wanted(families@[indices.transfer as int], 1));
            assert(family_wanted(families@[indices.present as int], 2));
        }
        return Err(SuitabilityError::InsufficientSwapchainSupport);
    }
    Ok(indices)
}

/// A software frame-rate cap.
#[derive(Debug, Clone, Copy, PartialEq, Eq, Structural)]
pub enum FrameCap {
    /// One frame per refresh of the monitor.
    RefreshRate,
    /// At most this many frames a second.
    PerSecond(u32),
}

/// The renderer's presentation settings: V-sync, the frame-rate cap, and
/// whether the swapchain must be rebuilt before the next frame.
#[derive(Debug, Clone, Copy, PartialEq, Eq, Structural)]
pub struct RenderSettings {
    pub vsync: bool,
    pub vsync_dirty: bool,
    pub resize_dirty: bool,
    pub fps_limit: Option<FrameCap>,
}

impl RenderSettings {
    /// V-sync as given, nothing to rebuild, no cap.
    pub fn new(vsync: bool) -> (r: Self)
        ensures
            r == (RenderSettings { vsync, vsync_dirty: false, resize_dirty: false, fps_limit: None }),
    {
        RenderSettings { vsync, vsync_dirty: false, resize_dirty: false, fps_limit: None }
    }

    /// Turns V-sync on or off; a change asks for a rebuild, and V-sync lifts the cap.
    pub fn set_vsync(&mut self, vsync: bool)
        ensures
            final(self).vsync == vsync,
            final(self).vsync_dirty == (old(self).vsync_dirty || old(self).vsync != vsync),
            final(self).resize_dirty == old(self).resize_dirty,
            final(self).fps_limit == (if vsync {
                None
            } else {
                old(self).fps_limit
            }),
    {
        if self.vsync != vsync {
            self.vsync = vsync;
            self.vsync_dirty = true;
        }
        if vsync {
            self.fps_limit = None;
        }
    }

    /// The window was resized: the swapchain is rebuilt before the next frame.
    pub fn request_resize(&mut self)
        ensures
            *final(self) == (RenderSettings { resize_dirty: true, ..*old(self) }),
    {
        self.resize_dirty = true;
    }

    /// Sets a software cap for present mode `mode`; returns `false` if the
    /// cap was ignored. FIFO already waits for the display, so nothing
    /// changes; FIFO-latest-ready is pinned to the refresh rate; any other
    /// mode takes the cap, clamped to 1..=999 frames a second, or no cap.
    pub fn set_fps_limit(&mut self, mode: PresentMode, fps: Option<u32>) -> (r: bool)
        ensures
            final(self).vsync == old(self).vsync,
            final(self).vsync_dirty == old(self).vsync_dirty,
            final(self).resize_dirty == old(self).resize_dirty,
            mode == PresentMode::Fifo ==> !r && final(self).fps_limit == old(self).fps_limit,
            mode == PresentMode::FifoLatestReady ==> !r && final(self).fps_limit == Some(FrameCap::RefreshRate),
            mode != PresentMode::Fifo && mode != PresentMode::FifoLatestReady ==> r && final(self).fps_limit == match fps {
                Some(f) => Some(FrameCap::PerSecond(clamp_u32(f, 1, 999))),
                None => None,
            },
    {
        match mode {
            PresentMode::Fifo => false,
            PresentMode::FifoLatestReady => {
                self.fps_limit = Some(FrameCap::RefreshRate);
                false
            },
            _ => {
                self.fps_limit = match fps {
                    Some(f) => Some(
                        FrameCap::PerSecond(
                            if f < 1 {
                                1
                            } else if f > 999 {
                                999
                            } else {
                                f
                            },
                        ),
                    ),
                    None => None,
                };
                true
            },
        }
    }

    /// Whether the swapchain must be rebuilt before this frame; the request is consumed.
    pub fn take_rebuild(&mut self) -> (r: bool)
        ensures
            r == (old(self).vsync_dirty || old(self).resize_dirty),
            !final(self).vsync_dirty && !final(self).resize_dirty,
            final(self).vsync == old(self).vsync,
            final(self).fps_limit == old(self).fps_limit,
    {
        let rebuild = self.vsync_dirty || self.resize_dirty;
        self.vsync_dirty = false;
        self.resize_dirty = false;
        rebuild
    }
}

/// Vulkan codes of the depth formats the renderer can draw with, most
/// preferred first: 32-bit float depth, the same with 8-bit stencil, and
/// 24-bit depth with 8-bit stencil.
pub fn depth_format_candidates() -> (r: Vec<i32>)
    ensures
        r@ == seq![126i32, 130i32, 129i32],
{
    let mut v: Vec<i32> = Vec::new();
    v.push(126);
    v.push(130);
    v.push(129);
    v
}

/// The first candidate format whose optimal-tiling features allow a depth
/// attachment, given each candidate with that verdict; `None` when none does.
pub fn choose_depth_format(candidates: &Vec<(i32, bool)>) -> (r: Option<i32>)
    ensures
        match r {
            Some(f) => exists|i: int|
                0 <= i < candidates.len() && (#[trigger] candidates@[i]).1 && candidates@[i].0 == f && forall|j: int|
                    0 <= j < i ==> !(#[trigger] candidates@[j]).1,
            None => forall|i: int| 0 <= i < candidates.len() ==> !(#[trigger] candidates@[i]).1,
        },
{
    let mut i: usize = 0;
    while i < candidates.len()
        invariant
            0 <= i <= candidates.len(),
            forall|j: int| 0 <= j < i ==> !(#[trigger] candidates@[j]).1,
        decreases candidates.len() - i,
    {
        let (format, usable) = candidates[i];
        if usable {
            assert(candidates@[i as int].1);
            return Some(format);
        }
        i += 1;
    }
    None
}

} // verus!
