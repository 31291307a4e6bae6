//! The two ways of rendering a view, behind one interface.
//!
//! The shader backend hands the positions of the lattice to a shading stage
//! that evaluates each of them itself, from four parameters of the frame.
//! The host backend evaluates each sample here and hands out positions with
//! their colours.

use vstd::prelude::*;
use crate::escape::TerminalPolicy;
use crate::fixed::ONE;
use crate::grid::{Sample, colored, generate, generate_colored, lattice};
use crate::stepped::Stepped;
use crate::view::ViewState;

verus! {

/// A way of rendering.
#[derive(Clone, Copy, Debug, PartialEq, Eq, Structural)]
pub enum Backend {
    /// The shading stage evaluates the points.
    ShaderUniform,
    /// The host evaluates the points.
    HostComputed,
}

/// The parameters that the shading stage of the shader backend gets with
/// each frame.
#[derive(Clone, Copy, Debug, PartialEq, Eq, Structural)]
pub struct Uniforms {
    pub max: i64,
    pub scale: Stepped,
    pub center_re: i64,
    pub center_im: i64,
}

/// What a frame draws.
#[derive(Debug)]
pub enum Geometry {
    /// Positions alone.
    Positions(Vec<(i64, i64)>),
    /// Positions with their colours.
    Colored(Vec<Sample>),
}

/// What a frame draws, as sequences.
pub enum GeometryView {
    Positions(Seq<(i64, i64)>),
    Colored(Seq<Sample>),
}

impl View for Geometry {
    type V = GeometryView;

    open spec fn view(&self) -> GeometryView {
        match self {
            Geometry::Positions(points) => GeometryView::Positions(points@),
            Geometry::Colored(samples) => GeometryView::Colored(samples@),
        }
    }
}

impl Backend {
    /// What the backend is used to report for a point that did not escape:
    /// the shading stage reports one, the host zero.
    pub fn usual_policy(self) -> (r: TerminalPolicy)
        ensures
            r == match self {
                Backend::ShaderUniform => TerminalPolicy::Full,
                Backend::HostComputed => TerminalPolicy::Zero,
            },
    {
        match self {
            Backend::ShaderUniform => TerminalPolicy::Full,
            Backend::HostComputed => TerminalPolicy::Zero,
        }
    }
}

/// A backend with what it needs to know between frames.
#[derive(Clone, Copy, Debug, PartialEq, Eq, Structural)]
pub struct Renderer {
    pub backend: Backend,
    /// What to report for a point that did not escape.
    pub policy: TerminalPolicy,
    /// Half the side of the square of samples.
    pub extent: i64,
    /// The density of the geometry that was built last, if any was.
    pub built_density: Option<Stepped>,
}

impl Renderer {
    /// A renderer over the square from -1 to 1 that has built nothing yet.
    pub fn new(backend: Backend, policy: TerminalPolicy) -> (r: Renderer)
        ensures
            r == (Renderer { backend, policy, extent: ONE, built_density: None }),
    {
        Renderer { backend, policy, extent: ONE, built_density: None }
    }

    /// Whether a frame of `view` needs new geometry: on the host always, for
    /// the shader when none was built at the density of the view.
    pub open spec fn must_rebuild(self, view: ViewState) -> bool {
        match self.backend {
            Backend::ShaderUniform => self.built_density != Some(view.density),
            Backend::HostComputed => true,
        }
    }

    /// The geometry of a frame of `view`.
    pub open spec fn geometry_for(self, view: ViewState) -> GeometryView {
        match self.backend {
            Backend::ShaderUniform => GeometryView::Positions(
                lattice(self.extent as int, view.density.units()),
            ),
            Backend::HostComputed => GeometryView::Colored(
                lattice(self.extent as int, view.density.units()).map_values(
                    |p: (i64, i64)| colored(view, self.policy, p.0, p.1),
                ),
            ),
        }
    }

    /// The parameters of the shading stage for a frame of `view`: those of
    /// the view for the shader, none on the host.
    pub open spec fn uniforms_for(self, view: ViewState) -> Option<Uniforms> {
        match self.backend {
            Backend::ShaderUniform => Some(
                Uniforms {
                    max: view.max_iterations,
                    scale: view.scale,
                    center_re: view.center_re,
                    center_im: view.center_im,
                },
            ),
            Backend::HostComputed => None,
        }
    }

    /// Whether a frame of `view` needs new geometry.
    pub fn needs_geometry(&self, view: &ViewState) -> (r: bool)
        ensures
            r == self.must_rebuild(*view),
    {
        match self.backend {
            Backend::ShaderUniform => match self.built_density {
                Some(d) => d.start != view.density.start || d.steps != view.density.steps,
                None => true,
            },
            Backend::HostComputed => true,
        }
    }

    /// Builds the geometry of a frame of `view`, and remembers its density.
    pub fn prepare_frame(&mut self, view: &ViewState) -> (r: Geometry)
        requires
            view.density.units() > 0,
        ensures
            r@ == old(self).geometry_for(*view),
            *final(self) == (Renderer { built_density: Some(view.density), ..*old(self) }),
    {
        self.built_density = Some(view.density);
        match self.backend {
            Backend::ShaderUniform => Geometry::Positions(
                generate(self.extent, view.density),
            ),
            Backend::HostComputed => Geometry::Colored(
                generate_colored(view, self.extent, self.policy),
            ),
        }
    }

    /// The parameters of the shading stage for a frame of `view`.
    pub fn uniforms(&self, view: &ViewState) -> (r: Option<Uniforms>)
        ensures
            r == self.uniforms_for(*view),
    {
        match self.backend {
            Backend::ShaderUniform => Some(
                Uniforms {
                    max: view.max_iterations,
                    scale: view.scale,
                    center_re: view.center_re,
                    center_im: view.center_im,
                },
            ),
            Backend::HostComputed => None,
        }
    }
}

/// The place of a sample.
pub open spec fn position(sample: Sample) -> (i64, i64) {
    (sample.x, sample.y)
}

/// Both backends draw the same places: for one view, the samples of the host
/// lie where the positions of the shader lie, in the same order.
pub proof fn lemma_backends_share_positions(shader: Renderer, host: Renderer, view: ViewState)
    requires
        shader.backend == Backend::ShaderUniform,
        host.backend == Backend::HostComputed,
        shader.extent == host.extent,
    ensures
        shader.geometry_for(view) matches GeometryView::Positions(points) && host.geometry_for(
            view,
        ) matches GeometryView::Colored(samples) && samples.map_values(
            |s: Sample| position(s),
        ) == points,
{
    let points = lattice(shader.extent as int, view.density.units());
    let samples = points.map_values(|p: (i64, i64)| colored(view, host.policy, p.0, p.1));
    assert(samples.map_values(|s: Sample| position(s)) =~= points);
}

} // verus!
