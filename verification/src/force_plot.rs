//! The plot: a graph, its distance table and the per-vertex arrays, kept in
//! step, together with the pointer gesture in progress.

use crate::distance::{distance, DistanceMatrix};
use crate::graph::{row_has, settle, Graph, GraphError, GraphView, MAX_ORDER};
use crate::mouse::{Key, MouseButton, MouseEvent};
use vstd::prelude::*;

verus! {

/// What the pointer is doing with the vertex it holds.
#[derive(Clone, Copy, Debug, PartialEq, Eq, Structural)]
pub enum InteractAction {
    /// The vertex follows the pointer; it keeps its edges.
    Drag,
    /// The vertex was just created on an edge to an existing vertex and
    /// follows the pointer until the button is released.
    New,
}

/// Why the plot refused something. A refusal leaves the plot as it was.
#[derive(Clone, Copy, Debug, PartialEq, Eq, Structural)]
pub enum PlotError {
    /// A vertex id was not below the vertex count.
    InvalidIndex,
    /// The per-vertex arrays did not have one entry per vertex.
    LengthMismatch,
    /// The graph already holds `MAX_ORDER` vertices.
    Full,
    /// There is no vertex to delete.
    Empty,
    /// A gesture is in progress; the command is only taken when idle.
    Busy,
    /// The vertex being placed does not have exactly one neighbour.
    NotPendant,
}

/// An event for the plot. Where the pointer pressed or released a button,
/// `hit` is the vertex the picker found under it. Where the event may create
/// a vertex, it brings the values that vertex is to carry.
pub enum PlotEvent<P, C, S> {
    /// The pause command.
    PauseToggled,
    /// The command that deletes the vertex with the highest id.
    DeleteLast,
    /// The command that starts over with the one given vertex.
    Reset { particle: P, color: C, size: S },
    /// The primary button went down.
    PrimaryPressed { hit: Option<usize> },
    /// The secondary button went down.
    SecondaryPressed { hit: Option<usize>, particle: P, color: C, size: S },
    /// A button came up.
    Released { hit: Option<usize> },
    /// The cursor moved with a button held; `primary` tells whether it is
    /// the primary button.
    Dragged { primary: bool },
    /// The wheel turned.
    WheelScrolled,
}

impl<P, C, S> PlotEvent<P, C, S> {
    /// The plot event that a mouse event stands for. The left button is the
    /// primary one, the right button the secondary one; the middle button
    /// deletes the last vertex. Plain cursor movement and the other buttons
    /// going down mean nothing to the plot.
    pub open spec fn of_mouse(
        event: MouseEvent,
        hit: Option<usize>,
        particle: P,
        color: C,
        size: S,
    ) -> Option<Self> {
        match event {
            MouseEvent::ButtonPressed(MouseButton::Left) => Some(PlotEvent::PrimaryPressed { hit }),
            MouseEvent::ButtonPressed(MouseButton::Right) => Some(
                PlotEvent::SecondaryPressed { hit, particle, color, size },
            ),
            MouseEvent::ButtonPressed(MouseButton::Middle) => Some(PlotEvent::DeleteLast),
            MouseEvent::ButtonPressed(_) => None,
            MouseEvent::ButtonReleased(_) => Some(PlotEvent::Released { hit }),
            MouseEvent::CursorDragged(button) => Some(
                PlotEvent::Dragged { primary: button == MouseButton::Left },
            ),
            MouseEvent::WheelScrolled => Some(PlotEvent::WheelScrolled),
            MouseEvent::CursorMoved => None,
            MouseEvent::CursorEntered => None,
            MouseEvent::CursorExited => None,
        }
    }

    /// The plot event that a key stands for: space pauses, Z deletes the
    /// last vertex, C starts over.
    pub open spec fn of_key(key: Key, particle: P, color: C, size: S) -> Option<Self> {
        match key {
            Key::Space => Some(PlotEvent::PauseToggled),
            Key::KeyZ => Some(PlotEvent::DeleteLast),
            Key::KeyC => Some(PlotEvent::Reset { particle, color, size }),
            Key::Other => None,
        }
    }

    /// Turns a mouse event into a plot event. `hit` is what the picker found
    /// under the pointer; `particle`, `color` and `size` are for the vertex
    /// that the event may create.
    pub fn from_mouse(event: MouseEvent, hit: Option<usize>, particle: P, color: C, size: S) -> (r:
        Option<Self>)
        ensures
            r == Self::of_mouse(event, hit, particle, color, size),
    {
        match event {
            MouseEvent::ButtonPressed(button) => match button {
                MouseButton::Left => Some(PlotEvent::PrimaryPressed { hit }),
                MouseButton::Right => Some(
                    PlotEvent::SecondaryPressed { hit, particle, color, size },
                ),
                MouseButton::Middle => Some(PlotEvent::DeleteLast),
                _ => None,
            },
            MouseEvent::ButtonReleased(_) => Some(PlotEvent::Released { hit }),
            MouseEvent::CursorDragged(button) => match button {
                MouseButton::Left => Some(PlotEvent::Dragged { primary: true }),
                _ => Some(PlotEvent::Dragged { primary: false }),
            },
            MouseEvent::WheelScrolled => Some(PlotEvent::WheelScrolled),
            MouseEvent::CursorMoved => None,
            MouseEvent::CursorEntered => None,
            MouseEvent::CursorExited => None,
        }
    }

    /// Turns a pressed key into a plot event. `particle`, `color` and `size`
    /// are for the vertex that starting over creates.
    pub fn from_key(key: Key, particle: P, color: C, size: S) -> (r: Option<Self>)
        ensures
            r == Self::of_key(key, particle, color, size),
    {
        match key {
            Key::Space => Some(PlotEvent::PauseToggled),
            Key::KeyZ => Some(PlotEvent::DeleteLast),
            Key::KeyC => Some(PlotEvent::Reset { particle, color, size }),
            Key::Other => None,
        }
    }
}

/// What the plot did with an event, and what is left for the caller to do
/// with the values the plot does not look into.
#[derive(Clone, Copy, Debug, PartialEq, Eq, Structural)]
pub enum Reaction {
    /// Nothing happened that the caller has to act on.
    Nothing,
    /// The pointer took hold of this vertex.
    Grabbed(usize),
    /// The press was on empty space: the caller starts to pan the camera.
    PanBegan,
    /// A vertex was created on an edge to `anchor`; the pointer holds it.
    Spawned { vertex: usize, anchor: usize },
    /// The caller moves this vertex to where the pointer is.
    Place(usize),
    /// The caller pans the camera by the pointer's movement.
    Pan,
    /// The caller zooms the camera by the wheel's movement.
    Zoom,
    /// The pointer let go of the vertex it dragged.
    Dropped(usize),
    /// The created vertex stays where it was released.
    Kept(usize),
    /// The created vertex was taken back and the edge `{from, to}` added in
    /// its place; both ids are those after the removal.
    Merged { from: usize, to: usize },
    /// The created vertex and the vertex it hung on were both removed.
    Cancelled,
}

/// The plot as a mathematical value.
pub struct PlotView<P, C, S> {
    pub graph: GraphView,
    pub particles: Seq<P>,
    pub colors: Seq<C>,
    pub sizes: Seq<S>,
    pub interacted: Option<(usize, InteractAction)>,
    pub pause: bool,
}

impl<P, C, S> PlotView<P, C, S> {
    /// There is one particle, one colour and one size per vertex, and the
    /// vertex held by the pointer, if any, is a vertex of the graph.
    pub open spec fn wf(self) -> bool {
        &&& self.graph.wf()
        &&& self.graph.order <= MAX_ORDER
        &&& self.particles.len() == self.graph.order
        &&& self.colors.len() == self.graph.order
        &&& self.sizes.len() == self.graph.order
        &&& (self.interacted matches Some((i, _)) ==> i < self.graph.order)
    }

    /// No gesture is in progress.
    pub open spec fn idle(self) -> bool {
        self.interacted is None
    }

    /// The plot with one more vertex, carrying the given values.
    pub open spec fn add_vertex(self, particle: P, color: C, size: S) -> Self {
        PlotView {
            graph: self.graph.add_vertex(),
            particles: self.particles.push(particle),
            colors: self.colors.push(color),
            sizes: self.sizes.push(size),
            ..self
        }
    }

    /// The plot with the edge `{u, v}` added.
    pub open spec fn add_edge(self, u: int, v: int) -> Self {
        PlotView { graph: self.graph.add_edge(u, v), ..self }
    }

    /// The plot without vertex `id`: the vertex leaves the graph and every
    /// array, larger ids move down by one, and the pointer lets go of `id`
    /// or keeps hold of the vertex it held under that vertex's new id.
    pub open spec fn remove_vertex(self, id: int) -> Self {
        PlotView {
            graph: self.graph.remove_vertex(id),
            particles: self.particles.remove(id),
            colors: self.colors.remove(id),
            sizes: self.sizes.remove(id),
            interacted: match self.interacted {
                Some((i, action)) => if i == id {
                    None
                } else {
                    Some((settle(id, i as int) as usize, action))
                },
                None => None,
            },
            pause: self.pause,
        }
    }

    /// A hit counts only on a vertex other than the one the pointer holds.
    pub open spec fn effective_hit(self, hit: Option<usize>) -> Option<usize> {
        match hit {
            Some(h) => if self.interacted matches Some((i, _)) && i == h {
                None
            } else {
                Some(h)
            },
            None => None,
        }
    }

    /// The hit, if there is one, names a vertex.
    pub open spec fn hit_in_range(self, hit: Option<usize>) -> bool {
        hit matches Some(h) ==> h < self.graph.order
    }

    /// `w` is the one neighbour of `v`.
    pub open spec fn sole_neighbor(self, v: int, w: int) -> bool {
        self.graph.adjacent(v, w) && forall|x: int| #[trigger] self.graph.adjacent(v, x) ==> x == w
    }

    /// `v` has exactly one neighbour.
    pub open spec fn pendant(self, v: int) -> bool {
        exists|w: int| self.sole_neighbor(v, w)
    }

    /// The one neighbour of a pendant vertex `v`.
    pub open spec fn anchor(self, v: int) -> int {
        choose|w: int| self.sole_neighbor(v, w)
    }

    /// The plot after the pause command.
    pub open spec fn toggle_pause(self) -> Self {
        PlotView { pause: !self.pause, ..self }
    }

    /// The plot started over: one vertex with the given values, no edge, no
    /// gesture; the pause flag stays.
    pub open spec fn reset(self, particle: P, color: C, size: S) -> Self {
        PlotView {
            graph: GraphView::empty().add_vertex(),
            particles: Seq::empty().push(particle),
            colors: Seq::empty().push(color),
            sizes: Seq::empty().push(size),
            interacted: None,
            pause: self.pause,
        }
    }

    /// The plot after the primary button went down: the pointer holds the
    /// vertex it hit, or nothing.
    pub open spec fn press_primary(self, hit: Option<usize>) -> Self {
        PlotView {
            interacted: match self.effective_hit(hit) {
                Some(i) => Some((i, InteractAction::Drag)),
                None => None,
            },
            ..self
        }
    }

    /// The plot after the secondary button went down: over a vertex, a new
    /// vertex with the given values hangs on that vertex and the pointer
    /// holds it; over empty space nothing changes.
    pub open spec fn press_secondary(
        self,
        hit: Option<usize>,
        particle: P,
        color: C,
        size: S,
    ) -> Self {
        match self.effective_hit(hit) {
            Some(i) => PlotView {
                interacted: Some((self.graph.order as usize, InteractAction::New)),
                ..self.add_vertex(particle, color, size).add_edge(i as int, self.graph.order as int)
            },
            None => self,
        }
    }

    /// The plot after a button came up. A dragged vertex is let go. A vertex
    /// being placed stays if it is released over empty space; released over
    /// the vertex it hangs on, both are removed; released over another
    /// vertex, it is removed and that vertex is joined to the one it hung
    /// on. No gesture is in progress afterwards.
    pub open spec fn release(self, hit: Option<usize>) -> Self {
        match self.interacted {
            None => self,
            Some((_, InteractAction::Drag)) => PlotView { interacted: None, ..self },
            Some((v, InteractAction::New)) => match self.effective_hit(hit) {
                None => PlotView { interacted: None, ..self },
                Some(m) => {
                    let w = self.anchor(v as int);
                    if w != m {
                        self.remove_vertex(v as int).add_edge(
                            settle(v as int, w),
                            settle(v as int, m as int),
                        )
                    } else {
                        self.remove_vertex(v as int).remove_vertex(settle(v as int, w))
                    }
                },
            },
        }
    }

    /// Vertex `i` can be picked: it is a vertex of the plot other than the
    /// one the pointer holds, and `within` says the pointer is inside it.
    pub open spec fn pickable(self, within: Seq<bool>, i: int) -> bool {
        &&& 0 <= i < self.graph.order
        &&& i < within.len()
        &&& within[i]
        &&& !(self.interacted matches Some((h, _)) && h == i)
    }

    /// Vertex `u` takes part in the forces of a tick: the plot is running
    /// and `u` is not a vertex that is being placed.
    pub open spec fn feels_forces(self, u: int) -> bool {
        &&& !self.pause
        &&& 0 <= u < self.graph.order
        &&& !(self.interacted matches Some((i, InteractAction::New)) && i == u)
    }

    /// The pair `{u, v}` is visited by a tick, as `(u, v)` with `v < u`.
    pub open spec fn interacts(self, u: int, v: int) -> bool {
        v < u && self.feels_forces(u) && self.feels_forces(v)
    }

    /// Vertex `u` is moved by a tick: the plot is running and the pointer
    /// does not hold `u`.
    pub open spec fn integrates(self, u: int) -> bool {
        &&& !self.pause
        &&& 0 <= u < self.graph.order
        &&& !(self.interacted matches Some((i, _)) && i == u)
    }

    /// The number of edges that the spring between `u` and `v` rests at:
    /// their hop distance, or `None` where no walk joins them.
    pub open spec fn spring_hops(self, u: int, v: int) -> Option<int> {
        if 0 <= u < self.graph.order && 0 <= v < self.graph.order && distance(self.graph, u, v)
            >= 0 {
            Some(distance(self.graph, u, v))
        } else {
            None
        }
    }

    /// A paused plot gives a tick nothing to do: no vertex takes part in
    /// forces, no pair is visited and no vertex is moved.
    pub proof fn lemma_pause_stops_tick(self)
        requires
            self.pause,
        ensures
            forall|u: int| !self.feels_forces(u) && !self.integrates(u),
            forall|u: int, v: int| !self.interacts(u, v),
    {
    }

    /// Removing a vertex of a well-formed plot leaves the plot well-formed.
    pub proof fn lemma_remove_vertex_wf(self, id: int)
        requires
            self.wf(),
            0 <= id < self.graph.order,
        ensures
            self.remove_vertex(id).wf(),
    {
        self.graph.lemma_remove_vertex_wf(id);
    }

    /// The one neighbour of a pendant vertex is another vertex of the graph.
    pub proof fn lemma_anchor(self, v: int)
        requires
            self.wf(),
            self.pendant(v),
        ensures
            0 <= self.anchor(v) < self.graph.order,
            self.anchor(v) != v,
            self.sole_neighbor(v, self.anchor(v)),
    {
        let w = self.anchor(v);
        assert(self.graph.edges.contains((v, w)));
    }

    /// Whatever event a well-formed plot takes, it stays well-formed: there
    /// is one particle, one colour and one size per vertex, and the vertex
    /// the pointer holds is a vertex of the graph.
    pub proof fn lemma_input_keeps_wf(self, event: PlotEvent<P, C, S>)
        requires
            self.wf(),
            self.input_error(event) is None,
        ensures
            self.after_input(event).wf(),
    {
        let n = self.graph.order as int;
        match event {
            PlotEvent::DeleteLast => {
                self.lemma_remove_vertex_wf(n - 1);
            },
            PlotEvent::SecondaryPressed { hit, particle, color, size } => {
                if let Some(i) = self.effective_hit(hit) {
                    self.graph.lemma_add_vertex_wf();
                    self.graph.add_vertex().lemma_add_edge_wf(i as int, n);
                }
            },
            PlotEvent::Released { hit } => {
                if let Some((v, InteractAction::New)) = self.interacted {
                    if let Some(m) = self.effective_hit(hit) {
                        self.lemma_anchor(v as int);
                        let w = self.anchor(v as int);
                        let mid = self.remove_vertex(v as int);
                        self.lemma_remove_vertex_wf(v as int);
                        if w != m {
                            mid.graph.lemma_add_edge_wf(
                                settle(v as int, w),
                                settle(v as int, m as int),
                            );
                        } else {
                            mid.lemma_remove_vertex_wf(settle(v as int, w));
                        }
                    }
                }
            },
            _ => {},
        }
    }

    /// Why the plot refuses `event`, if it does.
    pub open spec fn input_error(self, event: PlotEvent<P, C, S>) -> Option<PlotError> {
        match event {
            PlotEvent::PauseToggled => None,
            PlotEvent::DeleteLast => if !self.idle() {
                Some(PlotError::Busy)
            } else if self.graph.order == 0 {
                Some(PlotError::Empty)
            } else {
                None
            },
            PlotEvent::Reset { .. } => if !self.idle() {
                Some(PlotError::Busy)
            } else {
                None
            },
            PlotEvent::PrimaryPressed { hit } => if !self.hit_in_range(hit) {
                Some(PlotError::InvalidIndex)
            } else {
                None
            },
            PlotEvent::SecondaryPressed { hit, .. } => if !self.hit_in_range(hit) {
                Some(PlotError::InvalidIndex)
            } else if self.effective_hit(hit) is Some && self.graph.order >= MAX_ORDER {
                Some(PlotError::Full)
            } else {
                None
            },
            PlotEvent::Released { hit } => if !self.hit_in_range(hit) {
                Some(PlotError::InvalidIndex)
            } else if self.interacted matches Some((v, InteractAction::New)) && self.effective_hit(
                hit,
            ) is Some && !self.pendant(v as int) {
                Some(PlotError::NotPendant)
            } else {
                None
            },
            PlotEvent::Dragged { .. } => None,
            PlotEvent::WheelScrolled => None,
        }
    }

    /// The plot after `event`, where the event is not refused.
    pub open spec fn after_input(self, event: PlotEvent<P, C, S>) -> Self {
        match event {
            PlotEvent::PauseToggled => self.toggle_pause(),
            PlotEvent::DeleteLast => self.remove_vertex(self.graph.order - 1),
            PlotEvent::Reset { particle, color, size } => self.reset(particle, color, size),
            PlotEvent::PrimaryPressed { hit } => self.press_primary(hit),
            PlotEvent::SecondaryPressed { hit, particle, color, size } => self.press_secondary(
                hit,
                particle,
                color,
                size,
            ),
            PlotEvent::Released { hit } => self.release(hit),
            PlotEvent::Dragged { .. } => self,
            PlotEvent::WheelScrolled => self,
        }
    }

    /// What the plot answers to `event`, where the event is not refused.
    pub open spec fn reaction(self, event: PlotEvent<P, C, S>) -> Reaction {
        match event {
            PlotEvent::PauseToggled => Reaction::Nothing,
            PlotEvent::DeleteLast => Reaction::Nothing,
            PlotEvent::Reset { .. } => Reaction::Nothing,
            PlotEvent::PrimaryPressed { hit } => match self.effective_hit(hit) {
                Some(i) => Reaction::Grabbed(i),
                None => Reaction::PanBegan,
            },
            PlotEvent::SecondaryPressed { hit, .. } => match self.effective_hit(hit) {
                Some(i) => Reaction::Spawned { vertex: self.graph.order as usize, anchor: i },
                None => Reaction::Nothing,
            },
            PlotEvent::Released { hit } => match self.interacted {
                None => Reaction::Nothing,
                Some((i, InteractAction::Drag)) => Reaction::Dropped(i),
                Some((v, InteractAction::New)) => match self.effective_hit(hit) {
                    None => Reaction::Kept(v),
                    Some(m) => {
                        let w = self.anchor(v as int);
                        if w != m {
                            Reaction::Merged {
                                from: settle(v as int, w) as usize,
                                to: settle(v as int, m as int) as usize,
                            }
                        } else {
                            Reaction::Cancelled
                        }
                    },
                },
            },
            PlotEvent::Dragged { primary } => match self.interacted {
                Some((i, _)) => Reaction::Place(i),
                None => if primary {
                    Reaction::Pan
                } else {
                    Reaction::Nothing
                },
            },
            PlotEvent::WheelScrolled => Reaction::Zoom,
        }
    }
}

/// A force-directed plot of a graph. `P` is what the integrator keeps per
/// vertex, `C` and `S` are the vertex's colour and size.
pub struct ForcePlot<P, C, S> {
    graph: Graph,
    graph_distances: DistanceMatrix,
    particles: Vec<P>,
    colors: Vec<C>,
    sizes: Vec<S>,
    interacted_particle: Option<(usize, InteractAction)>,
    pause: bool,
}

impl<P, C, S> View for ForcePlot<P, C, S> {
    type V = PlotView<P, C, S>;

    closed spec fn view(&self) -> PlotView<P, C, S> {
        PlotView {
            graph: self.graph@,
            particles: self.particles@,
            colors: self.colors@,
            sizes: self.sizes@,
            interacted: self.interacted_particle,
            pause: self.pause,
        }
    }
}

impl<P, C, S> ForcePlot<P, C, S> {
    /// The stored graph is well-formed and the distance table is that of the
    /// stored graph.
    pub closed spec fn fresh(&self) -> bool {
        &&& self.graph.wf()
        &&& self.graph_distances.describes(self.graph@)
    }

    /// The invariant of the plot.
    pub open spec fn wf(&self) -> bool {
        self.fresh() && self@.wf()
    }

    /// A plot of `graph` with the given per-vertex arrays, idle and running.
    /// Refused unless each array has one entry per vertex.
    pub fn new(graph: Graph, particles: Vec<P>, colors: Vec<C>, sizes: Vec<S>) -> (r: Result<
        Self,
        PlotError,
    >)
        requires
            graph.wf(),
        ensures
            r is Ok <==> particles@.len() == graph@.order && colors@.len() == graph@.order
                && sizes@.len() == graph@.order,
            r matches Ok(plot) ==> plot.wf() && plot@ == (PlotView {
                graph: graph@,
                particles: particles@,
                colors: colors@,
                sizes: sizes@,
                interacted: None,
                pause: false,
            }),
            r matches Err(e) ==> e == PlotError::LengthMismatch,
    {
        let n = graph.vertex_ct();
        if particles.len() != n || colors.len() != n || sizes.len() != n {
            return Err(PlotError::LengthMismatch);
        }
        proof {
            graph.lemma_view_wf();
        }
        let graph_distances = graph.unweighted_all_pairs_distance();
        Ok(
            ForcePlot {
                graph,
                graph_distances,
                particles,
                colors,
                sizes,
                interacted_particle: None,
                pause: false,
            },
        )
    }

    /// The number of vertices.
    pub fn vertex_ct(&self) -> (n: usize)
        ensures
            n == self@.graph.order,
    {
        self.graph.vertex_ct()
    }

    /// Appends a vertex with the given values and returns its id. Refused
    /// when the graph is full.
    pub fn add_vertex(&mut self, particle: P, color: C, size: S) -> (r: Result<usize, PlotError>)
        requires
            old(self).wf(),
        ensures
            final(self).wf(),
            old(self)@.graph.order < MAX_ORDER ==> r == Ok::<usize, PlotError>(
                old(self)@.graph.order as usize,
            ) && final(self)@ == old(self)@.add_vertex(particle, color, size),
            old(self)@.graph.order >= MAX_ORDER ==> r == Err::<usize, PlotError>(PlotError::Full)
                && final(self)@ == old(self)@,
    {
        if self.graph.vertex_ct() >= MAX_ORDER {
            return Err(PlotError::Full);
        }
        let id = self.graph.add_vertex();
        self.particles.push(particle);
        self.colors.push(color);
        self.sizes.push(size);
        self.graph_distances = self.graph.unweighted_all_pairs_distance();
        proof {
            self.graph.lemma_view_wf();
        }
        Ok(id)
    }

    /// Adds the edge `{u, v}`, as the graph does.
    pub fn add_edge(&mut self, u: usize, v: usize) -> (r: Result<(), GraphError>)
        requires
            old(self).wf(),
        ensures
            final(self).wf(),
            r == old(self)@.graph.add_edge_outcome(u as int, v as int),
            r is Ok ==> final(self)@ == old(self)@.add_edge(u as int, v as int),
            r is Err ==> final(self)@ == old(self)@,
    {
        let r = self.graph.add_edge(u, v);
        if r.is_ok() {
            self.graph_distances = self.graph.unweighted_all_pairs_distance();
        }
        proof {
            self.graph.lemma_view_wf();
        }
        r
    }

    /// Removes vertex `id` from the graph and from every array, in one step.
    /// Refused when there is no such vertex.
    pub fn remove_vertex(&mut self, id: usize) -> (r: Result<(), GraphError>)
        requires
            old(self).wf(),
        ensures
            final(self).wf(),
            r == old(self)@.graph.remove_vertex_outcome(id as int),
            r is Ok ==> final(self)@ == old(self)@.remove_vertex(id as int),
            r is Err ==> final(self)@ == old(self)@,
    {
        let r = self.graph.remove_vertex(id);
        if r.is_ok() {
            self.particles.remove(id);
            self.colors.remove(id);
            self.sizes.remove(id);
            self.interacted_particle = match self.interacted_particle {
                Some((i, action)) => if i == id {
                    None
                } else if i > id {
                    Some((i - 1, action))
                } else {
                    Some((i, action))
                },
                None => None,
            };
            self.graph_distances = self.graph.unweighted_all_pairs_distance();
        }
        proof {
            self.graph.lemma_view_wf();
        }
        r
    }

    /// Checks a hit and discounts one on the vertex the pointer holds.
    fn effective_hit(&self, hit: Option<usize>) -> (r: Result<Option<usize>, PlotError>)
        requires
            self.wf(),
        ensures
            self@.hit_in_range(hit) ==> r == Ok::<Option<usize>, PlotError>(
                self@.effective_hit(hit),
            ),
            !self@.hit_in_range(hit) ==> r == Err::<Option<usize>, PlotError>(
                PlotError::InvalidIndex,
            ),
            r matches Ok(Some(h)) ==> h < self@.graph.order,
    {
        match hit {
            Some(h) => {
                if h >= self.graph.vertex_ct() {
                    return Err(PlotError::InvalidIndex);
                }
                match self.interacted_particle {
                    Some((i, _)) => if i == h {
                        Ok(None)
                    } else {
                        Ok(Some(h))
                    },
                    None => Ok(Some(h)),
                }
            },
            None => Ok(None),
        }
    }

    /// Flips the pause flag.
    pub fn toggle_pause(&mut self)
        requires
            old(self).wf(),
        ensures
            final(self).wf(),
            final(self)@ == old(self)@.toggle_pause(),
    {
        self.pause = !self.pause;
    }

    /// Deletes the vertex with the highest id. Refused while a gesture is in
    /// progress and when there is no vertex.
    pub fn delete_last(&mut self) -> (r: Result<(), PlotError>)
        requires
            old(self).wf(),
        ensures
            final(self).wf(),
            match old(self)@.input_error(PlotEvent::DeleteLast) {
                Some(e) => r == Err::<(), PlotError>(e) && final(self)@ == old(self)@,
                None => r == Ok::<(), PlotError>(()) && final(self)@ == old(self)@.remove_vertex(
                    old(self)@.graph.order - 1,
                ),
            },
    {
        if self.interacted_particle.is_some() {
            return Err(PlotError::Busy);
        }
        let n = self.graph.vertex_ct();
        if n == 0 {
            return Err(PlotError::Empty);
        }
        let _ = self.remove_vertex(n - 1);
        Ok(())
    }

    /// Starts over with one vertex that carries the given values. Refused
    /// while a gesture is in progress.
    pub fn reset(&mut self, particle: P, color: C, size: S) -> (r: Result<(), PlotError>)
        requires
            old(self).wf(),
        ensures
            final(self).wf(),
            old(self)@.idle() ==> r == Ok::<(), PlotError>(()) && final(self)@ == old(self)@.reset(
                particle,
                color,
                size,
            ),
            !old(self)@.idle() ==> r == Err::<(), PlotError>(PlotError::Busy) && final(self)@
                == old(self)@,
    {
        if self.interacted_particle.is_some() {
            return Err(PlotError::Busy);
        }
        let mut graph = Graph::new();
        graph.add_vertex();
        self.graph = graph;
        self.particles.clear();
        self.colors.clear();
        self.sizes.clear();
        self.particles.push(particle);
        self.colors.push(color);
        self.sizes.push(size);
        self.graph_distances = self.graph.unweighted_all_pairs_distance();
        proof {
            self.graph.lemma_view_wf();
        }
        Ok(())
    }

    /// The primary button went down over `hit`: the pointer takes hold of
    /// that vertex, or of nothing where there is none.
    pub fn press_primary(&mut self, hit: Option<usize>) -> (r: Result<Reaction, PlotError>)
        requires
            old(self).wf(),
        ensures
            final(self).wf(),
            match old(self)@.input_error(PlotEvent::PrimaryPressed { hit }) {
                Some(e) => r == Err::<Reaction, PlotError>(e) && final(self)@ == old(self)@,
                None => r == Ok::<Reaction, PlotError>(
                    old(self)@.reaction(PlotEvent::PrimaryPressed { hit }),
                ) && final(self)@ == old(self)@.press_primary(hit),
            },
    {
        match self.effective_hit(hit) {
            Err(e) => Err(e),
            Ok(Some(i)) => {
                self.interacted_particle = Some((i, InteractAction::Drag));
                Ok(Reaction::Grabbed(i))
            },
            Ok(None) => {
                self.interacted_particle = None;
                Ok(Reaction::PanBegan)
            },
        }
    }

    /// The secondary button went down over `hit`: a new vertex with the
    /// given values is hung on that vertex and the pointer holds it. Over
    /// empty space nothing happens. Refused when the graph is full.
    pub fn press_secondary(&mut self, hit: Option<usize>, particle: P, color: C, size: S) -> (r:
        Result<Reaction, PlotError>)
        requires
            old(self).wf(),
        ensures
            final(self).wf(),
            match old(self)@.input_error(
                PlotEvent::SecondaryPressed { hit, particle, color, size },
            ) {
                Some(e) => r == Err::<Reaction, PlotError>(e) && final(self)@ == old(self)@,
                None => r == Ok::<Reaction, PlotError>(
                    old(self)@.reaction(PlotEvent::SecondaryPressed { hit, particle, color, size }),
                ) && final(self)@ == old(self)@.press_secondary(hit, particle, color, size),
            },
    {
        match self.effective_hit(hit) {
            Err(e) => Err(e),
            Ok(Some(i)) => {
                if self.graph.vertex_ct() >= MAX_ORDER {
                    return Err(PlotError::Full);
                }
                let v = self.graph.add_vertex();
                let _ = self.graph.add_edge(i, v);
                self.graph_distances = self.graph.unweighted_all_pairs_distance();
                self.particles.push(particle);
                self.colors.push(color);
                self.sizes.push(size);
                self.interacted_particle = Some((v, InteractAction::New));
                proof {
                    self.graph.lemma_view_wf();
                }
                Ok(Reaction::Spawned { vertex: v, anchor: i })
            },
            Ok(None) => Ok(Reaction::Nothing),
        }
    }

    /// A button came up over `hit`: the gesture in progress is resolved.
    /// Refused, with the gesture still in progress, when a vertex being
    /// placed is released over another vertex and does not have exactly one
    /// neighbour.
    pub fn release(&mut self, hit: Option<usize>) -> (r: Result<Reaction, PlotError>)
        requires
            old(self).wf(),
        ensures
            final(self).wf(),
            match old(self)@.input_error(PlotEvent::Released { hit }) {
                Some(e) => r == Err::<Reaction, PlotError>(e) && final(self)@ == old(self)@,
                None => r == Ok::<Reaction, PlotError>(
                    old(self)@.reaction(PlotEvent::Released { hit }),
                ) && final(self)@ == old(self)@.release(hit),
            },
            r is Ok ==> final(self)@.idle(),
    {
        let target = match self.effective_hit(hit) {
            Err(e) => {
                return Err(e);
            },
            Ok(t) => t,
        };
        match self.interacted_particle {
            None => Ok(Reaction::Nothing),
            Some((i, InteractAction::Drag)) => {
                self.interacted_particle = None;
                Ok(Reaction::Dropped(i))
            },
            Some((v, InteractAction::New)) => {
                match target {
                    None => {
                        self.interacted_particle = None;
                        Ok(Reaction::Kept(v))
                    },
                    Some(m) => {
                        let incident = match self.graph.neighbors(v) {
                            Ok(row) => {
                                if row.len() != 1 {
                                    proof {
                                        self.lemma_not_pendant(v, row@);
                                    }
                                    return Err(PlotError::NotPendant);
                                }
                                proof {
                                    self.lemma_pendant(v, row@);
                                }
                                row[0]
                            },
                            Err(_) => {
                                return Err(PlotError::InvalidIndex);
                            },
                        };
                        proof {
                            self.graph.lemma_view_wf();
                            assert(self@.graph.adjacent(v as int, incident as int));
                        }
                        if incident != m {
                            let from = if incident > v {
                                incident - 1
                            } else {
                                incident
                            };
                            let to = if m > v {
                                m - 1
                            } else {
                                m
                            };
                            let _ = self.remove_vertex(v);
                            let _ = self.add_edge(from, to);
                            Ok(Reaction::Merged { from, to })
                        } else {
                            let other = if incident > v {
                                incident - 1
                            } else {
                                incident
                            };
                            let _ = self.remove_vertex(v);
                            let _ = self.remove_vertex(other);
                            Ok(Reaction::Cancelled)
                        }
                    },
                }
            },
        }
    }

    /// A neighbour row of one entry makes `v` pendant on that entry.
    proof fn lemma_pendant(&self, v: usize, row: Seq<usize>)
        requires
            row.len() == 1,
            forall|x: int| row_has(row, x) <==> self@.graph.adjacent(v as int, x),
        ensures
            self@.pendant(v as int),
            self@.anchor(v as int) == row[0],
    {
        let w = row[0] as int;
        assert(row_has(row, w));
        assert forall|x: int| #[trigger] self@.graph.adjacent(v as int, x) implies x == w by {
            assert(row_has(row, x));
        }
        assert(self@.sole_neighbor(v as int, w));
        let c = self@.anchor(v as int);
        assert(self@.sole_neighbor(v as int, c));
    }

    /// A neighbour row of no entry, or of several different ones, shows
    /// that `v` is not pendant.
    proof fn lemma_not_pendant(&self, v: usize, row: Seq<usize>)
        requires
            row.len() != 1,
            row.no_duplicates(),
            forall|x: int| row_has(row, x) <==> self@.graph.adjacent(v as int, x),
        ensures
            !self@.pendant(v as int),
    {
        if self@.pendant(v as int) {
            let w = choose|w: int| self@.sole_neighbor(v as int, w);
            assert(row_has(row, w));
            assert(row.len() >= 2);
            assert(row_has(row, row[0] as int));
            assert(row_has(row, row[1] as int));
            assert(self@.graph.adjacent(v as int, row[0] as int));
            assert(self@.graph.adjacent(v as int, row[1] as int));
        }
    }

    /// The cursor moved with a button held: the caller moves the held
    /// vertex, or pans where the primary button holds none.
    pub fn drag(&self, primary: bool) -> (r: Reaction)
        requires
            self.wf(),
        ensures
            r == self@.reaction(PlotEvent::Dragged { primary }),
            r matches Reaction::Place(i) ==> i < self@.graph.order,
    {
        match self.interacted_particle {
            Some((i, _)) => Reaction::Place(i),
            None => if primary {
                Reaction::Pan
            } else {
                Reaction::Nothing
            },
        }
    }

    /// Takes one event. A refused event leaves the plot as it was; any
    /// other changes it as `after_input` says and is answered as `reaction`
    /// says.
    pub fn input(&mut self, event: PlotEvent<P, C, S>) -> (r: Result<Reaction, PlotError>)
        requires
            old(self).wf(),
        ensures
            final(self).wf(),
            match old(self)@.input_error(event) {
                Some(e) => r == Err::<Reaction, PlotError>(e) && final(self)@ == old(self)@,
                None => r == Ok::<Reaction, PlotError>(old(self)@.reaction(event)) && final(self)@
                    == old(self)@.after_input(event),
            },
    {
        match event {
            PlotEvent::PauseToggled => {
                self.toggle_pause();
                Ok(Reaction::Nothing)
            },
            PlotEvent::DeleteLast => match self.delete_last() {
                Ok(()) => Ok(Reaction::Nothing),
                Err(e) => Err(e),
            },
            PlotEvent::Reset { particle, color, size } => match self.reset(particle, color, size) {
                Ok(()) => Ok(Reaction::Nothing),
                Err(e) => Err(e),
            },
            PlotEvent::PrimaryPressed { hit } => self.press_primary(hit),
            PlotEvent::SecondaryPressed { hit, particle, color, size } => self.press_secondary(
                hit,
                particle,
                color,
                size,
            ),
            PlotEvent::Released { hit } => self.release(hit),
            PlotEvent::Dragged { primary } => Ok(self.drag(primary)),
            PlotEvent::WheelScrolled => Ok(Reaction::Zoom),
        }
    }

    /// The first vertex that the pointer is inside, by ascending id, among
    /// those it does not hold. `within[i]` says whether the pointer is
    /// closer to vertex `i` than that vertex's size.
    pub fn get_particle_by_position(&self, within: &Vec<bool>) -> (r: Option<usize>)
        requires
            self.wf(),
        ensures
            match r {
                Some(i) => self@.pickable(within@, i as int) && forall|j: int|
                    0 <= j < i ==> !self@.pickable(within@, j),
                None => forall|j: int| !self@.pickable(within@, j),
            },
    {
        let n = self.graph.vertex_ct();
        let mut i: usize = 0;
        while i < n && i < within.len()
            invariant
                self.wf(),
                n == self@.graph.order,
                forall|j: int| 0 <= j < i ==> !self@.pickable(within@, j),
            decreases n - i,
        {
            let held = match self.interacted_particle {
                Some((h, _)) => h == i,
                None => false,
            };
            if within[i] && !held {
                return Some(i);
            }
            i += 1;
        }
        None
    }

    /// The vertex nearest to the viewer among those the pointer is inside.
    /// `depths[i]` is `None` where the pointer is not inside vertex `i`, and
    /// else a number that grows with the vertex's depth. Of several vertices
    /// at the least depth the one with the lowest id is taken.
    pub fn get_particle_index_by_clip_position(&self, depths: &Vec<Option<i32>>) -> (r: Option<
        usize,
    >)
        requires
            self.wf(),
        ensures
            match r {
                Some(i) => {
                    &&& i < self@.graph.order
                    &&& i < depths@.len()
                    &&& depths@[i as int] matches Some(d)
                    &&& forall|j: int|
                        0 <= j < self@.graph.order && j < depths@.len() ==> (
                        #[trigger] depths@[j] matches Some(e) ==> d < e || (d == e && i <= j))
                },
                None => forall|j: int|
                    0 <= j < self@.graph.order && j < depths@.len() ==> #[trigger] depths@[j]
                        is None,
            },
    {
        let n = self.graph.vertex_ct();
        let mut best: Option<usize> = None;
        let mut i: usize = 0;
        while i < n && i < depths.len()
            invariant
                self.wf(),
                n == self@.graph.order,
                i <= n,
                i <= depths@.len(),
                match best {
                    Some(b) => {
                        &&& b < i
                        &&& depths@[b as int] matches Some(d)
                        &&& forall|j: int|
                            0 <= j < i ==> (#[trigger] depths@[j] matches Some(e) ==> d < e || (d
                                == e && b <= j))
                    },
                    None => forall|j: int| 0 <= j < i ==> #[trigger] depths@[j] is None,
                },
            decreases n - i,
        {
            match depths[i] {
                Some(e) => {
                    let closer = match best {
                        Some(b) => match depths[b] {
                            Some(d) => e < d,
                            None => true,
                        },
                        None => true,
                    };
                    if closer {
                        best = Some(i);
                    }
                },
                None => {},
            }
            i += 1;
        }
        best
    }

    /// Whether vertex `u` takes part in the forces of a tick.
    pub fn feels_forces(&self, u: usize) -> (b: bool)
        requires
            self.wf(),
        ensures
            b == self@.feels_forces(u as int),
    {
        if self.pause || u >= self.graph.vertex_ct() {
            return false;
        }
        match self.interacted_particle {
            Some((i, InteractAction::New)) => i != u,
            _ => true,
        }
    }

    /// Whether a tick visits the pair `(u, v)`.
    pub fn interacts(&self, u: usize, v: usize) -> (b: bool)
        requires
            self.wf(),
        ensures
            b == self@.interacts(u as int, v as int),
    {
        v < u && self.feels_forces(u) && self.feels_forces(v)
    }

    /// Whether a tick moves vertex `u`.
    pub fn integrates(&self, u: usize) -> (b: bool)
        requires
            self.wf(),
        ensures
            b == self@.integrates(u as int),
    {
        if self.pause || u >= self.graph.vertex_ct() {
            return false;
        }
        match self.interacted_particle {
            Some((i, _)) => i != u,
            None => true,
        }
    }

    /// The hop distance at which the spring between `u` and `v` rests, or
    /// `None` where no walk joins them.
    pub fn spring_hops(&self, u: usize, v: usize) -> (r: Option<i32>)
        requires
            self.wf(),
        ensures
            match r {
                Some(d) => self@.spring_hops(u as int, v as int) == Some(d as int),
                None => self@.spring_hops(u as int, v as int) is None,
            },
    {
        match self.graph_distances.get(u, v) {
            Some(d) => if d >= 0 {
                Some(d)
            } else {
                None
            },
            None => None,
        }
    }

    /// The graph.
    pub fn graph(&self) -> (g: &Graph)
        requires
            self.wf(),
        ensures
            g.wf(),
            g@ == self@.graph,
    {
        &self.graph
    }

    /// The distance table of the graph as it is now.
    pub fn graph_distances(&self) -> (m: &DistanceMatrix)
        requires
            self.wf(),
        ensures
            m.describes(self@.graph),
    {
        &self.graph_distances
    }

    /// The particles, one per vertex.
    pub fn particles(&self) -> (r: &Vec<P>)
        requires
            self.wf(),
        ensures
            r@ == self@.particles,
            r@.len() == self@.graph.order,
    {
        &self.particles
    }

    /// The colours, one per vertex.
    pub fn colors(&self) -> (r: &Vec<C>)
        requires
            self.wf(),
        ensures
            r@ == self@.colors,
            r@.len() == self@.graph.order,
    {
        &self.colors
    }

    /// The sizes, one per vertex.
    pub fn sizes(&self) -> (r: &Vec<S>)
        requires
            self.wf(),
        ensures
            r@ == self@.sizes,
            r@.len() == self@.graph.order,
    {
        &self.sizes
    }

    /// The particle of vertex `u`, to be changed in place. Nothing else of
    /// the plot can change through it.
    pub fn particle_mut(&mut self, u: usize) -> (r: Option<&mut P>)
        requires
            old(self).wf(),
        ensures
            r is Some <==> u < old(self)@.graph.order,
            r is None ==> final(self)@ == old(self)@ && final(self).wf(),
            r matches Some(p) ==> {
                &&& *p == old(self)@.particles[u as int]
                &&& final(self).wf()
                &&& final(self)@ == (PlotView {
                    particles: old(self)@.particles.update(u as int, *final(p)),
                    ..old(self)@
                })
            },
    {
        if u < self.particles.len() {
            Some(&mut self.particles[u])
        } else {
            None
        }
    }

    /// The vertex the pointer holds, and what it is doing with it.
    pub fn interacted_particle(&self) -> (r: Option<(usize, InteractAction)>)
        ensures
            r == self@.interacted,
    {
        self.interacted_particle
    }

    /// Whether the plot is paused.
    pub fn is_paused(&self) -> (b: bool)
        ensures
            b == self@.pause,
    {
        self.pause
    }
}

} // verus!
