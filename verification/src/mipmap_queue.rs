//! The queue of textures that wait for their mipmaps, and the plan of the passes that
//! make them.
//!
//! Mip level `n` of a texture is made by drawing level `n - 1` into it. The library
//! decides which passes to run and which pipelines they need; the renderer runs them.

use std::collections::VecDeque;
use vstd::prelude::*;

verus! {

/// The device that renders, as far as the library knows it: by a number.
#[derive(Clone, Copy, Debug, PartialEq, Eq, Structural)]
pub struct RenderDevice {
    pub id: u64,
}

/// What a texture may be used for, as a set of bits.
#[derive(Clone, Copy, Debug, PartialEq, Eq, Structural)]
pub struct TextureUsages {
    pub bits: u32,
}

/// The bit of the usage as the output attachment of a render pass.
pub const RENDER_ATTACHMENT: u32 = 16;

/// `wgpu::TextureUsages::RENDER_ATTACHMENT` is the flag `1 << 4`, and `bits` returns the
/// bits of a set of flags.
#[verifier::external_body]
fn render_attachment_bits() -> (bits: u32)
    ensures
        bits == RENDER_ATTACHMENT,
{
    wgpu::TextureUsages::RENDER_ATTACHMENT.bits()
}

/// How mipmaps are made.
#[derive(Clone, Copy, Debug, PartialEq, Eq, Structural)]
pub enum MipmapGenerationMode {
    /// By render passes that draw each level from the one before.
    Render,
}

impl MipmapGenerationMode {
    /// The mode preferred on `device`.
    pub fn preferred(_device: &RenderDevice) -> (mode: MipmapGenerationMode)
        ensures
            mode == MipmapGenerationMode::Render,
    {
        MipmapGenerationMode::Render
    }

    /// The usages that a texture needs for its mipmaps to be made in this mode.
    pub fn required_texture_usages(&self) -> (usages: TextureUsages)
        ensures
            usages.bits == RENDER_ATTACHMENT,
    {
        match self {
            MipmapGenerationMode::Render => TextureUsages { bits: render_attachment_bits() },
        }
    }
}

/// A texture that waits for its mipmaps.
#[derive(Clone, Copy, Debug, PartialEq, Eq, Structural)]
pub struct MipmapQueueRequest {
    pub mipmap_mode: MipmapGenerationMode,
    /// The number of the texture.
    pub texture: u64,
    /// The number of mip levels of the texture, the full-size level included.
    pub mip_count: u32,
    /// The number of the format of the texture.
    pub texture_format: u32,
}

/// The textures that wait for their mipmaps, in the order they were queued.
pub struct MipmapQueue {
    queue: VecDeque<MipmapQueueRequest>,
}

impl View for MipmapQueue {
    type V = Seq<MipmapQueueRequest>;

    closed spec fn view(&self) -> Seq<MipmapQueueRequest> {
        self.queue@
    }
}

impl Default for MipmapQueue {
    fn default() -> (q: MipmapQueue)
        ensures
            q@ == Seq::<MipmapQueueRequest>::empty(),
    {
        MipmapQueue::new()
    }
}

impl MipmapQueue {
    /// An empty queue.
    pub fn new() -> (q: MipmapQueue)
        ensures
            q@ == Seq::<MipmapQueueRequest>::empty(),
    {
        MipmapQueue { queue: VecDeque::new() }
    }

    /// The number of waiting textures.
    pub fn len(&self) -> (n: usize)
        ensures
            n == self@.len(),
    {
        self.queue.len()
    }

    /// Queues a texture behind those that wait already.
    pub fn enqueue(
        &mut self,
        mipmap_mode: MipmapGenerationMode,
        texture: u64,
        mip_count: u32,
        texture_format: u32,
    )
        ensures
            final(self)@ == old(self)@.push(
                MipmapQueueRequest { mipmap_mode, texture, mip_count, texture_format },
            ),
    {
        self.queue.push_back(MipmapQueueRequest { mipmap_mode, texture, mip_count, texture_format })
    }

    /// Takes the texture that has waited longest.
    pub fn dequeue(&mut self) -> (r: Option<MipmapQueueRequest>)
        ensures
            old(self)@.len() == 0 ==> r is None && final(self)@ == old(self)@,
            old(self)@.len() > 0 ==> r == Some(old(self)@[0]) && final(self)@ == old(
                self,
            )@.drop_first(),
    {
        let r = self.queue.pop_front();
        proof {
            if old(self)@.len() > 0 {
                assert(self@ =~= old(self)@.drop_first());
            }
        }
        r
    }
}

/// One render pass: level `source_mip` of a texture is drawn into level `target_mip`.
#[derive(Clone, Copy, Debug, PartialEq, Eq, Structural)]
pub struct MipPass {
    pub texture: u64,
    pub texture_format: u32,
    pub source_mip: u32,
    pub target_mip: u32,
}

/// The passes that make the mipmaps of one texture: each level from the one before, the
/// first level first. A texture of one level or none needs no pass.
pub open spec fn mip_passes(request: MipmapQueueRequest) -> Seq<MipPass> {
    Seq::new(
        if request.mip_count > 0 {
            (request.mip_count - 1) as nat
        } else {
            0
        },
        |i: int|
            MipPass {
                texture: request.texture,
                texture_format: request.texture_format,
                source_mip: i as u32,
                target_mip: (i + 1) as u32,
            },
    )
}

/// The passes for all of `requests`, in their order.
pub open spec fn all_passes(requests: Seq<MipmapQueueRequest>) -> Seq<MipPass>
    decreases requests.len(),
{
    if requests.len() == 0 {
        Seq::empty()
    } else {
        all_passes(requests.drop_last()) + mip_passes(requests.last())
    }
}

/// The formats among those of `requests` for which `pipelines` holds no pipeline, each
/// once, in the order in which they first occur.
pub open spec fn missing_formats(pipelines: Seq<u32>, requests: Seq<MipmapQueueRequest>) -> Seq<u32>
    decreases requests.len(),
{
    if requests.len() == 0 {
        Seq::empty()
    } else {
        let before = missing_formats(pipelines, requests.drop_last());
        let format = requests.last().texture_format;
        if pipelines.contains(format) || before.contains(format) {
            before
        } else {
            before.push(format)
        }
    }
}

/// The node of the render graph that makes mipmaps, as far as it decides: which
/// textures are due, which formats have a pipeline, and which passes to run.
pub struct MipmapGenerationNode {
    queue: Vec<MipmapQueueRequest>,
    pipelines: Vec<u32>,
}

impl MipmapGenerationNode {
    /// The textures due in this frame.
    pub closed spec fn due(&self) -> Seq<MipmapQueueRequest> {
        self.queue@
    }

    /// The formats for which a pipeline exists.
    pub closed spec fn pipelines(&self) -> Seq<u32> {
        self.pipelines@
    }

    /// A node with nothing due and no pipeline.
    pub fn new() -> (node: MipmapGenerationNode)
        ensures
            node.due() == Seq::<MipmapQueueRequest>::empty(),
            node.pipelines() == Seq::<u32>::empty(),
    {
        MipmapGenerationNode { queue: Vec::new(), pipelines: Vec::new() }
    }

    /// Whether a pipeline exists for `texture_format`.
    pub fn has_pipeline(&self, texture_format: u32) -> (r: bool)
        ensures
            r == self.pipelines().contains(texture_format),
    {
        let mut i: usize = 0;
        while i < self.pipelines.len()
            invariant
                i <= self.pipelines@.len(),
                forall|j: int| 0 <= j < i ==> self.pipelines@[j] != texture_format,
            decreases self.pipelines@.len() - i,
        {
            if self.pipelines[i] == texture_format {
                return true;
            }
            i = i + 1;
        }
        false
    }

    /// Notes that `texture_format` has a pipeline. Returns whether the pipeline has to
    /// be made, which is so when the format had none.
    pub fn init_pipeline(&mut self, texture_format: u32) -> (made: bool)
        ensures
            made == !old(self).pipelines().contains(texture_format),
            final(self).due() == old(self).due(),
            final(self).pipelines() == (if made {
                old(self).pipelines().push(texture_format)
            } else {
                old(self).pipelines()
            }),
    {
        if self.has_pipeline(texture_format) {
            false
        } else {
            self.pipelines.push(texture_format);
            true
        }
    }

    /// Takes over all textures that wait in `queue` as the textures due in this frame,
    /// and returns the formats for which a pipeline has to be made.
    pub fn update(&mut self, queue: &mut MipmapQueue) -> (made: Vec<u32>)
        ensures
            final(queue)@ == Seq::<MipmapQueueRequest>::empty(),
            final(self).due() == old(queue)@,
            made@ == missing_formats(old(self).pipelines(), old(queue)@),
            final(self).pipelines() == old(self).pipelines() + made@,
    {
        let ghost requests = queue@;
        let ghost had = self.pipelines@;
        self.queue.clear();
        let mut made: Vec<u32> = Vec::new();
        loop
            invariant
                self.queue@.len() + queue@.len() == requests.len(),
                self.queue@ == requests.take(self.queue@.len() as int),
                queue@ == requests.skip(self.queue@.len() as int),
                made@ == missing_formats(had, self.queue@),
                self.pipelines@ == had + made@,
            ensures
                queue@.len() == 0,
                self.queue@ == requests,
                made@ == missing_formats(had, requests),
                self.pipelines@ == had + made@,
            decreases queue@.len(),
        {
            let ghost done = self.queue@;
            let ghost made_before = made@;
            match queue.dequeue() {
                Some(request) => {
                    if self.init_pipeline(request.texture_format) {
                        made.push(request.texture_format);
                    }
                    self.queue.push(request);
                    proof {
                        assert(request == requests[done.len() as int]);
                        assert(self.queue@ =~= requests.take(self.queue@.len() as int));
                        assert(queue@ =~= requests.skip(self.queue@.len() as int));
                        assert(self.queue@.drop_last() =~= done);
                        assert(had.contains(request.texture_format) || made_before.contains(
                            request.texture_format,
                        ) <==> (had + made_before).contains(request.texture_format)) by {
                            let f = request.texture_format;
                            if (had + made_before).contains(f) {
                                let i = (had + made_before).index_of(f);
                                if i < had.len() {
                                    assert(had[i] == f);
                                } else {
                                    assert(made_before[i - had.len()] == f);
                                }
                            }
                            if had.contains(f) {
                                let i = had.index_of(f);
                                assert((had + made_before)[i] == f);
                            }
                            if made_before.contains(f) {
                                let i = made_before.index_of(f);
                                assert((had + made_before)[had.len() + i] == f);
                            }
                        }
                        assert(self.pipelines@ =~= had + made@);
                    }
                },
                None => {
                    proof {
                        assert(self.queue@ =~= requests);
                    }
                    break ;
                },
            }
        }
        made
    }

    /// The passes that make the mipmaps of `request`.
    pub fn generate_mipmaps_render(request: &MipmapQueueRequest) -> (passes: Vec<MipPass>)
        ensures
            passes@ == mip_passes(*request),
    {
        let mut passes: Vec<MipPass> = Vec::new();
        let mut target: u32 = 1;
        while target < request.mip_count
            invariant
                1 <= target,
                target <= request.mip_count || target == 1,
                passes@.len() == target - 1,
                forall|i: int|
                    0 <= i < passes@.len() ==> passes@[i] == mip_passes(*request)[i],
            decreases request.mip_count - target,
        {
            passes.push(
                MipPass {
                    texture: request.texture,
                    texture_format: request.texture_format,
                    source_mip: target - 1,
                    target_mip: target,
                },
            );
            target = target + 1;
        }
        assert(passes@ =~= mip_passes(*request));
        passes
    }

    /// The passes of this frame: those of each texture due, in the order the textures
    /// were queued.
    pub fn run(&self) -> (passes: Vec<MipPass>)
        ensures
            passes@ == all_passes(self.due()),
    {
        let mut passes: Vec<MipPass> = Vec::new();
        let mut i: usize = 0;
        while i < self.queue.len()
            invariant
                i <= self.queue@.len(),
                passes@ == all_passes(self.queue@.take(i as int)),
            decreases self.queue@.len() - i,
        {
            let mut next = match self.queue[i].mipmap_mode {
                MipmapGenerationMode::Render => MipmapGenerationNode::generate_mipmaps_render(
                    &self.queue[i],
                ),
            };
            passes.append(&mut next);
            proof {
                assert(self.queue@.take(i + 1).drop_last() =~= self.queue@.take(i as int));
            }
            i = i + 1;
        }
        assert(self.queue@.take(i as int) =~= self.queue@);
        passes
    }
}

} // verus!
