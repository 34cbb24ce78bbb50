//! What a camera renders to, and when its projection has to be computed anew.

use vstd::prelude::*;

verus! {

/// How the depth of an object seen by a camera is computed.
#[derive(Clone, Copy, Debug, PartialEq, Eq, Structural)]
pub enum DepthCalculation {
    /// The distance from the camera: right everywhere, and more work.
    Distance,
    /// The difference on the z axis: enough for a camera that looks along that axis.
    ZDifference,
}

impl Default for DepthCalculation {
    fn default() -> (d: DepthCalculation)
        ensures
            d == DepthCalculation::Distance,
    {
        DepthCalculation::Distance
    }
}

/// The number of the primary window.
pub const PRIMARY_WINDOW: u128 = 0;

/// What a camera renders to.
#[derive(Clone, Copy, Debug, PartialEq, Eq, Structural)]
pub enum CameraTarget {
    /// The window with this number.
    Window(u128),
    /// The image with this number.
    Texture(u64),
}

impl Default for CameraTarget {
    fn default() -> (t: CameraTarget)
        ensures
            t == CameraTarget::Window(PRIMARY_WINDOW),
    {
        CameraTarget::Window(PRIMARY_WINDOW)
    }
}

/// A window, as far as a camera needs it.
#[derive(Clone, Copy, Debug, PartialEq, Eq, Structural)]
pub struct WindowSize {
    pub id: u128,
    pub physical_width: u32,
    pub physical_height: u32,
}

/// An image, as far as a camera needs it.
#[derive(Clone, Copy, Debug, PartialEq, Eq, Structural)]
pub struct ImageSize {
    pub handle: u64,
    pub width: u32,
    pub height: u32,
}

/// The size of the first window in `windows` with number `id`.
pub open spec fn window_size(windows: Seq<WindowSize>, id: u128) -> Option<(u32, u32)>
    decreases windows.len(),
{
    if windows.len() == 0 {
        None
    } else if windows[0].id == id {
        Some((windows[0].physical_width, windows[0].physical_height))
    } else {
        window_size(windows.drop_first(), id)
    }
}

/// The size of the first image in `images` with number `handle`.
pub open spec fn image_size(images: Seq<ImageSize>, handle: u64) -> Option<(u32, u32)>
    decreases images.len(),
{
    if images.len() == 0 {
        None
    } else if images[0].handle == handle {
        Some((images[0].width, images[0].height))
    } else {
        image_size(images.drop_first(), handle)
    }
}

impl CameraTarget {
    /// The size in physical pixels of what the camera renders to: that of the first
    /// window, or image, with the number of the target; none where there is no such
    /// window or image.
    pub fn physical_size(&self, windows: &[WindowSize], images: &[ImageSize]) -> (r: Option<
        (u32, u32),
    >)
        ensures
            r == (match *self {
                CameraTarget::Window(id) => window_size(windows@, id),
                CameraTarget::Texture(handle) => image_size(images@, handle),
            }),
    {
        match *self {
            CameraTarget::Window(id) => {
                let mut i: usize = 0;
                proof {
                    assert(windows@.skip(0) =~= windows@);
                }
                while i < windows.len()
                    invariant
                        i <= windows@.len(),
                        *self == CameraTarget::Window(id),
                        window_size(windows@, id) == window_size(windows@.skip(i as int), id),
                    decreases windows@.len() - i,
                {
                    proof {
                        assert(windows@.skip(i as int).drop_first() =~= windows@.skip(i + 1));
                        assert(windows@.skip(i as int)[0] == windows@[i as int]);
                    }
                    if windows[i].id == id {
                        assert(window_size(windows@.skip(i as int), id) == Some(
                            (windows@[i as int].physical_width, windows@[i as int].physical_height),
                        ));
                        return Some((windows[i].physical_width, windows[i].physical_height));
                    }
                    i = i + 1;
                }
                None
            },
            CameraTarget::Texture(handle) => {
                let mut i: usize = 0;
                proof {
                    assert(images@.skip(0) =~= images@);
                }
                while i < images.len()
                    invariant
                        i <= images@.len(),
                        *self == CameraTarget::Texture(handle),
                        image_size(images@, handle) == image_size(images@.skip(i as int), handle),
                    decreases images@.len() - i,
                {
                    proof {
                        assert(images@.skip(i as int).drop_first() =~= images@.skip(i + 1));
                        assert(images@.skip(i as int)[0] == images@[i as int]);
                    }
                    if images[i].handle == handle {
                        assert(image_size(images@.skip(i as int), handle) == Some(
                            (images@[i as int].width, images@[i as int].height),
                        ));
                        return Some((images[i].width, images[i].height));
                    }
                    i = i + 1;
                }
                None
            },
        }
    }
}

/// The elements of `ids` from the last to the first, each once: an element that was seen
/// already is left out.
pub open spec fn latest_first(ids: Seq<u128>, seen: Seq<u128>) -> Seq<u128>
    decreases ids.len(),
{
    if ids.len() == 0 {
        seen
    } else if seen.contains(ids.last()) {
        latest_first(ids.drop_last(), seen)
    } else {
        latest_first(ids.drop_last(), seen.push(ids.last()))
    }
}

/// Whether no element of `s` occurs twice.
pub open spec fn distinct(s: Seq<u128>) -> bool {
    forall|i: int, j: int| 0 <= i < j < s.len() ==> s[i] != s[j]
}

/// Whether `s` holds `x`.
fn holds(s: &Vec<u128>, x: u128) -> (r: bool)
    ensures
        r == s@.contains(x),
{
    let mut i: usize = 0;
    while i < s.len()
        invariant
            i <= s@.len(),
            forall|j: int| 0 <= j < i ==> s@[j] != x,
        decreases s@.len() - i,
    {
        if s[i] == x {
            return true;
        }
        i = i + 1;
    }
    false
}

/// What [`latest_first`] holds: the elements of both sequences, and none twice if none
/// was seen twice.
pub proof fn lemma_latest_first(ids: Seq<u128>, seen: Seq<u128>)
    ensures
        distinct(seen) ==> distinct(latest_first(ids, seen)),
        forall|x: u128|
            latest_first(ids, seen).contains(x) <==> seen.contains(x) || ids.contains(x),
    decreases ids.len(),
{
    if ids.len() > 0 {
        let id = ids.last();
        let rest = ids.drop_last();
        assert(ids[ids.len() - 1] == id);
        assert forall|x: u128| ids.contains(x) <==> x == id || rest.contains(x) by {
            if ids.contains(x) {
                let k = ids.index_of(x);
                if k < rest.len() {
                    assert(rest[k] == x);
                }
            }
            if rest.contains(x) {
                let k = rest.index_of(x);
                assert(ids[k] == x);
            }
        }
        if seen.contains(id) {
            lemma_latest_first(rest, seen);
        } else {
            let more = seen.push(id);
            assert forall|x: u128| more.contains(x) <==> x == id || seen.contains(x) by {
                if more.contains(x) {
                    let k = more.index_of(x);
                    if k < seen.len() {
                        assert(seen[k] == x);
                    }
                }
                if seen.contains(x) {
                    let k = seen.index_of(x);
                    assert(more[k] == x);
                }
                if x == id {
                    assert(more[seen.len() as int] == x);
                }
            }
            assert(distinct(seen) ==> distinct(more)) by {
                if distinct(seen) {
                    assert forall|i: int, j: int| 0 <= i < j < more.len() implies more[i]
                        != more[j] by {
                        if j == seen.len() {
                            assert(seen[i] == more[i]);
                            assert(seen.contains(more[i]));
                        }
                    }
                }
            }
            lemma_latest_first(rest, more);
        }
    }
}

/// Adds the elements of `ids` to `seen`, the last first, each once.
fn add_latest_first(ids: &[u128], seen: &mut Vec<u128>)
    ensures
        final(seen)@ == latest_first(ids@, old(seen)@),
{
    let mut i: usize = ids.len();
    proof {
        assert(ids@.take(i as int) =~= ids@);
    }
    while i > 0
        invariant
            i <= ids@.len(),
            latest_first(ids@.take(i as int), seen@) == latest_first(ids@, old(seen)@),
        decreases i,
    {
        let id = ids[i - 1];
        proof {
            assert(ids@.take(i as int).last() == id);
            assert(ids@.take(i as int).drop_last() =~= ids@.take(i - 1));
        }
        if !holds(seen, id) {
            seen.push(id);
        }
        i = i - 1;
    }
}

/// The windows whose size may have changed: those that were resized, the one resized
/// last first, and then those that were created, the one created last first; each window
/// once.
pub fn changed_window_ids(resized: &[u128], created: &[u128]) -> (changed: Vec<u128>)
    ensures
        changed@ == latest_first(created@, latest_first(resized@, Seq::empty())),
        distinct(changed@),
        forall|x: u128| changed@.contains(x) <==> resized@.contains(x) || created@.contains(x),
{
    let mut changed: Vec<u128> = Vec::new();
    add_latest_first(resized, &mut changed);
    add_latest_first(created, &mut changed);
    proof {
        let first = latest_first(resized@, Seq::empty());
        lemma_latest_first(resized@, Seq::empty());
        lemma_latest_first(created@, first);
        assert forall|x: u128| changed@.contains(x) <==> resized@.contains(x)
            || created@.contains(x) by {
            assert(!Seq::<u128>::empty().contains(x));
        }
    }
    changed
}

/// Whether a camera has to compute its projection anew: what it renders to has changed,
/// or the camera was added, or its projection was changed.
pub fn camera_needs_update(
    target: &CameraTarget,
    changed_windows: &Vec<u128>,
    changed_textures: &[u64],
    added: bool,
    projection_changed: bool,
) -> (r: bool)
    ensures
        r == (added || projection_changed || match *target {
            CameraTarget::Window(id) => changed_windows@.contains(id),
            CameraTarget::Texture(handle) => changed_textures@.contains(handle),
        }),
{
    let render_target_changed = match *target {
        CameraTarget::Window(id) => holds(changed_windows, id),
        CameraTarget::Texture(handle) => {
            let mut found = false;
            let mut i: usize = 0;
            while i < changed_textures.len() && !found
                invariant
                    i <= changed_textures@.len(),
                    found ==> changed_textures@.contains(handle),
                    !found ==> forall|j: int| 0 <= j < i ==> changed_textures@[j] != handle,
                decreases changed_textures@.len() - i,
            {
                if changed_textures[i] == handle {
                    found = true;
                }
                i = i + 1;
            }
            found
        },
    };
    render_target_changed || added || projection_changed
}

/// What the camera system knows of one camera.
#[derive(Clone, Copy, Debug, PartialEq, Eq, Structural)]
pub struct CameraState {
    /// What the camera renders to.
    pub target: CameraTarget,
    /// Whether the camera was added since the system ran last.
    pub added: bool,
    /// Whether the projection of the camera was changed since then.
    pub projection_changed: bool,
}

/// Whether the camera system updates the projection of `camera`: what the camera
/// renders to exists, and the camera has to compute its projection anew.
pub open spec fn updates(
    camera: CameraState,
    changed_windows: Seq<u128>,
    changed_textures: Seq<u64>,
    windows: Seq<WindowSize>,
    images: Seq<ImageSize>,
) -> bool {
    &&& (match camera.target {
        CameraTarget::Window(id) => window_size(windows, id),
        CameraTarget::Texture(handle) => image_size(images, handle),
    }) is Some
    &&& (camera.added || camera.projection_changed || match camera.target {
        CameraTarget::Window(id) => changed_windows.contains(id),
        CameraTarget::Texture(handle) => changed_textures.contains(handle),
    })
}

/// Decides for each camera whether its projection is updated in this frame, given the
/// windows resized and created and the images changed since the last.
pub fn camera_system(
    resized: &[u128],
    created: &[u128],
    changed_textures: &[u64],
    windows: &[WindowSize],
    images: &[ImageSize],
    cameras: &[CameraState],
) -> (out: Vec<bool>)
    ensures
        out@.len() == cameras@.len(),
        forall|i: int|
            0 <= i < cameras@.len() ==> out@[i] == updates(
                cameras@[i],
                latest_first(created@, latest_first(resized@, Seq::empty())),
                changed_textures@,
                windows@,
                images@,
            ),
{
    let changed_windows = changed_window_ids(resized, created);
    let mut out: Vec<bool> = Vec::new();
    let mut i: usize = 0;
    while i < cameras.len()
        invariant
            i <= cameras@.len(),
            out@.len() == i,
            changed_windows@ == latest_first(created@, latest_first(resized@, Seq::empty())),
            forall|k: int|
                0 <= k < i ==> out@[k] == updates(
                    cameras@[k],
                    changed_windows@,
                    changed_textures@,
                    windows@,
                    images@,
                ),
        decreases cameras@.len() - i,
    {
        let camera = &cameras[i];
        let update = match camera.target.physical_size(windows, images) {
            Some(_) => camera_needs_update(
                &camera.target,
                &changed_windows,
                changed_textures,
                camera.added,
                camera.projection_changed,
            ),
            None => false,
        };
        out.push(update);
        i = i + 1;
    }
    out
}

} // verus!
