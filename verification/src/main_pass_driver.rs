//! The node that drives the main passes: one sub graph for the camera of each kind.
//!
//! The library plans the runs and decides after each what follows. The renderer runs
//! the sub graphs.

use crate::entity::Entity;
use vstd::prelude::*;

verus! {

/// A sub graph of the render graph.
#[derive(Clone, Copy, Debug, PartialEq, Eq, Structural)]
pub enum SubGraph {
    /// The passes of the camera in two dimensions.
    Draw2d,
    /// The passes of the camera in three dimensions.
    Draw3d,
}

/// The camera in two dimensions, with the number of the texture view of its window.
#[derive(Clone, Copy, Debug, PartialEq, Eq, Structural)]
pub struct Camera2d {
    pub entity: Entity,
    pub swap_chain_texture: u64,
}

/// The camera in three dimensions, with the numbers of the texture view of its window
/// and of its depth texture.
#[derive(Clone, Copy, Debug, PartialEq, Eq, Structural)]
pub struct Camera3d {
    pub entity: Entity,
    pub swap_chain_texture: u64,
    pub depth_texture: u64,
}

/// One run of a sub graph: the graph, and what is handed to it, the camera, the texture
/// view drawn to and, in three dimensions, the depth texture.
#[derive(Clone, Copy, Debug, PartialEq, Eq, Structural)]
pub struct SubGraphRun {
    pub graph: SubGraph,
    pub camera: Entity,
    pub color: u64,
    pub depth: Option<u64>,
}

/// The runs for the cameras that exist: the camera in two dimensions first.
pub open spec fn runs(camera_2d: Option<Camera2d>, camera_3d: Option<Camera3d>) -> Seq<
    SubGraphRun,
> {
    (match camera_2d {
        Some(c) => seq![
            SubGraphRun {
                graph: SubGraph::Draw2d,
                camera: c.entity,
                color: c.swap_chain_texture,
                depth: None,
            },
        ],
        None => Seq::empty(),
    }) + (match camera_3d {
        Some(c) => seq![
            SubGraphRun {
                graph: SubGraph::Draw3d,
                camera: c.entity,
                color: c.swap_chain_texture,
                depth: Some(c.depth_texture),
            },
        ],
        None => Seq::empty(),
    })
}

/// What the driver does next.
pub enum DriverStep<E> {
    /// This sub graph is run.
    Run(SubGraphRun),
    /// Nothing more is run, and this is the outcome of the node.
    Done(Result<(), E>),
}

/// What follows when the first `ran` runs of `plan` were made and the last of them, if
/// there was one, ended as `last`: after a failure nothing more is run and the error is
/// the outcome; otherwise the next run of the plan follows, or success when none is
/// left.
pub open spec fn next_of<E>(plan: Seq<SubGraphRun>, ran: int, last: Result<(), E>) -> DriverStep<
    E,
> {
    match last {
        Err(e) => DriverStep::Done(Err(e)),
        Ok(_) => if 0 <= ran < plan.len() {
            DriverStep::Run(plan[ran])
        } else {
            DriverStep::Done(Ok(()))
        },
    }
}

/// The node that drives the main passes.
#[derive(Clone, Copy, Debug, Default)]
pub struct MainPassDriverNode;

impl MainPassDriverNode {
    /// The node.
    pub fn new() -> MainPassDriverNode {
        MainPassDriverNode
    }

    /// The sub graphs to run in this frame, given the camera of each kind if there is
    /// one.
    pub fn run(&self, camera_2d: Option<Camera2d>, camera_3d: Option<Camera3d>) -> (out: Vec<
        SubGraphRun,
    >)
        ensures
            out@ == runs(camera_2d, camera_3d),
    {
        let mut out: Vec<SubGraphRun> = Vec::new();
        match camera_2d {
            Some(c) => {
                out.push(
                    SubGraphRun {
                        graph: SubGraph::Draw2d,
                        camera: c.entity,
                        color: c.swap_chain_texture,
                        depth: None,
                    },
                );
            },
            None => {},
        }
        match camera_3d {
            Some(c) => {
                out.push(
                    SubGraphRun {
                        graph: SubGraph::Draw3d,
                        camera: c.entity,
                        color: c.swap_chain_texture,
                        depth: Some(c.depth_texture),
                    },
                );
            },
            None => {},
        }
        assert(out@ =~= runs(camera_2d, camera_3d));
        out
    }

    /// What the driver does after the first `ran` runs of `plan`, the last of which, if
    /// there was one, ended as `last`. Before the first run `ran` is zero and `last` is
    /// a success.
    pub fn next<E>(&self, plan: &Vec<SubGraphRun>, ran: usize, last: Result<(), E>) -> (step:
        DriverStep<E>)
        ensures
            step == next_of(plan@, ran as int, last),
    {
        match last {
            Err(e) => DriverStep::Done(Err(e)),
            Ok(_) => {
                if ran < plan.len() {
                    DriverStep::Run(plan[ran])
                } else {
                    DriverStep::Done(Ok(()))
                }
            },
        }
    }
}

/// When the run of the first sub graph fails, the second is not run and the error is the
/// outcome of the node.
pub proof fn lemma_failure_ends_the_node<E>(camera_2d: Camera2d, camera_3d: Camera3d, e: E)
    ensures
        next_of::<E>(runs(Some(camera_2d), Some(camera_3d)), 0, Ok(())) is Run,
        next_of(runs(Some(camera_2d), Some(camera_3d)), 1, Err(e)) == DriverStep::Done(Err(e)),
        next_of::<E>(runs(Some(camera_2d), Some(camera_3d)), 1, Ok(())) is Run,
        next_of::<E>(runs(Some(camera_2d), Some(camera_3d)), 2, Ok(())) == DriverStep::<
            E,
        >::Done(Ok(())),
{
}

} // verus!
