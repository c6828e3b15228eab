//! The contract of a renderable element and the collection that owns the
//! elements of a scene.
//!
//! Elements are written by the host. What an element answers when it is asked
//! for its layer or its bounds is not known to the collection, so every
//! contract here speaks of the answers that the element gave.

use crate::backing::{
    arrange_owned, arrange_refs, borrow_all, lemma_select_all, lemma_selected_was_kept,
    push_back, refers_in_order, retain_marked, select, stays, reversed,
};
use crate::geometry::{
    clip_vertices, to_clip_vertices, ClipCoord, ConfigurationError, Rectangle, Viewport,
};
use crate::order::{
    is_layer_order, layer_order, lemma_layer_order_is_distinct, lemma_layer_order_is_unique,
    lemma_lower_layer_is_read_first, place_of, precedes,
};
use std::sync::Arc;
use vstd::prelude::*;

verus! {

/// The render pass of the backend. Only passed through to the elements.
#[verifier::external_type_specification]
#[verifier::external_body]
pub struct ExRenderPass<'encoder>(wgpu::RenderPass<'encoder>);

/// The command queue of the backend. Only passed through to the elements.
#[verifier::external_type_specification]
#[verifier::external_body]
pub struct ExQueue(wgpu::Queue);

/// A shared view of an element as `std::any::Any`, from which the host can
/// recover the element's own type with `downcast_ref`. The verifier has no
/// model of `dyn Any`, so it does not look inside: what it knows of a view is
/// what `recovers` says.
#[verifier::external_body]
pub struct AnyRef<'a> {
    pub target: &'a dyn std::any::Any,
}

/// An exclusive view of an element as `std::any::Any`, from which the host
/// can recover the element's own type with `downcast_mut`. The verifier has
/// no model of `dyn Any`, so it does not look inside: what it knows of a view
/// is what `recovers_mut` says.
#[verifier::external_body]
pub struct AnyMut<'a> {
    pub target: &'a mut dyn std::any::Any,
}

/// `<dyn Any>::downcast_ref` of std on the target of the view: the target as
/// a `T`, if that is its type. Which type the target has is not known to the
/// verifier, so nothing is claimed here; what holds of a view that the
/// library made itself is claimed where the view is made.
#[verifier::external_body]
fn any_downcast_ref<'a, T: 'static>(any: AnyRef<'a>) -> (found: Option<&'a T>) {
    any.target.downcast_ref::<T>()
}

/// `<dyn Any>::downcast_mut` of std on the target of the view: the target as
/// a `T`, if that is its type. Nothing is claimed here, as for the shared
/// view.
#[verifier::external_body]
fn any_downcast_mut<'a, T: 'static>(any: AnyMut<'a>) -> (found: Option<&'a mut T>) {
    any.target.downcast_mut::<T>()
}

/// Looking in the view for a `T` can give `found`.
pub closed spec fn recovers<'a, T: 'static>(any: AnyRef<'a>, found: Option<&'a T>) -> bool {
    call_ensures(any_downcast_ref::<T>, (any,), found)
}

/// Looking in the exclusive view for a `T` can give `found`.
pub closed spec fn recovers_mut<'a, T: 'static>(any: AnyMut<'a>, found: Option<&'a mut T>) -> bool {
    call_ensures(any_downcast_mut::<T>, (any,), found)
}

impl<'a> AnyRef<'a> {
    /// The target of the view as a `T`, if that is its type.
    pub fn downcast_ref<T: 'static>(self) -> (found: Option<&'a T>)
        ensures
            recovers(self, found),
    {
        any_downcast_ref::<T>(self)
    }
}

impl<'a> AnyMut<'a> {
    /// The target of the view as a `T`, if that is its type.
    pub fn downcast_mut<T: 'static>(self) -> (found: Option<&'a mut T>)
        ensures
            recovers_mut(self, found),
    {
        any_downcast_mut::<T>(self)
    }
}

/// The unsizing coercion of std from `&T` to `&dyn Any`. The target of the
/// result is `value`: `downcast_ref` to `T` finds it.
#[verifier::external_body]
fn any_ref<T: 'static>(value: &T) -> (any: AnyRef<'_>)
    ensures
        forall|found: Option<&T>| #[trigger] recovers(any, found) ==> found == Some(value),
{
    AnyRef { target: value }
}

/// The unsizing coercion of std from `&mut T` to `&mut dyn Any`. The target
/// of the result is `value`: `downcast_mut` to `T` finds it, and what is
/// written through the reference that was found is written to `value`.
#[verifier::external_body]
fn any_mut<T: 'static>(value: &mut T) -> (any: AnyMut<'_>)
    ensures
        forall|found: Option<&mut T>| #[trigger]
            recovers_mut(any, found) ==> {
                &&& found is Some
                &&& *found->Some_0 == *old(value)
                &&& *final(found->Some_0) == *final(value)
            },
{
    AnyMut { target: value }
}

/// Recovery of the concrete type of a value that is held behind a trait
/// object.
pub trait AsAny {
    fn as_any(&self) -> (any: AnyRef<'_>);

    fn as_any_mut(&mut self) -> (any: AnyMut<'_>);
}

impl<T: 'static> AsAny for T {
    /// A view of `self`: looking in it for a `T` finds `self`.
    fn as_any(&self) -> (any: AnyRef<'_>)
        ensures
            forall|found: Option<&T>| #[trigger] recovers(any, found) ==> found == Some(self),
    {
        any_ref(self)
    }

    /// An exclusive view of `self`: looking in it for a `T` finds `self`, and
    /// what is written through the reference that was found is written to
    /// `self`.
    fn as_any_mut(&mut self) -> (any: AnyMut<'_>)
        ensures
            forall|found: Option<&mut T>| #[trigger]
                recovers_mut(any, found) ==> {
                    &&& found is Some
                    &&& *found->Some_0 == *old(self)
                    &&& *final(found->Some_0) == *final(self)
                },
    {
        any_mut(self)
    }
}

/// A refresh step of one element that could not be completed.
#[derive(Clone, Copy, Debug, PartialEq, Eq, Structural)]
pub enum PrerenderFailure {
    /// The backend refused a write to a resource of the element.
    WriteRejected,
    /// The raw buffer does not hold what the element needs.
    BufferMismatch,
}

/// A failed refresh step together with the position, in the order of
/// insertion, of the element that reported it.
#[derive(Clone, Copy, Debug, PartialEq, Eq, Structural)]
pub struct PrerenderDiagnostic {
    pub position: usize,
    pub failure: PrerenderFailure,
}

/// The diagnostics that a sweep leaves when the elements at the positions
/// `0, 1, ...` answer with `outcomes`: one for each failure, in the order of
/// the positions.
pub open spec fn diagnostics_of(outcomes: Seq<Result<(), PrerenderFailure>>) -> Seq<
    PrerenderDiagnostic,
>
    decreases outcomes.len(),
{
    if outcomes.len() == 0 {
        Seq::empty()
    } else {
        let earlier = diagnostics_of(outcomes.drop_last());
        match outcomes.last() {
            Ok(_) => earlier,
            Err(failure) => earlier.push(
                PrerenderDiagnostic { position: (outcomes.len() - 1) as usize, failure },
            ),
        }
    }
}

/// Takes note of the outcome of one refresh step: a failure is added to the
/// diagnostics, a success leaves them as they are.
pub fn record_outcome(
    diagnostics: &mut Vec<PrerenderDiagnostic>,
    position: usize,
    outcome: Result<(), PrerenderFailure>,
)
    ensures
        outcome is Ok ==> final(diagnostics)@ == old(diagnostics)@,
        outcome matches Err(failure) ==> final(diagnostics)@ == old(diagnostics)@.push(
            PrerenderDiagnostic { position, failure },
        ),
{
    match outcome {
        Ok(_) => {},
        Err(failure) => {
            diagnostics.push(PrerenderDiagnostic { position, failure });
        },
    }
}

/// `Arc::clone` of std: another handle to the same shared value.
#[verifier::external_body]
fn share<P>(params: &Arc<P>) -> (shared: Arc<P>)
    ensures
        shared == *params,
{
    Arc::clone(params)
}

/// Refreshes one element with the parameters and the raw buffer of the
/// frame, and hands back what the element answers. The answer is the
/// element's own: nothing is known of it here.
fn refresh_one<P>(
    element: &mut Box<dyn UiElement<P>>,
    queue: &wgpu::Queue,
    params: Arc<P>,
    buffer: &[u32],
) -> (outcome: Result<(), PrerenderFailure>) {
    element.prerender(queue, params, buffer)
}

/// `outcome` is what the element behind `handle` can answer when its
/// `prerender` is called with this queue, these parameters and this buffer;
/// what the element holds afterwards is the final value of `handle`.
pub closed spec fn refreshed<P>(
    handle: &mut Box<dyn UiElement<P>>,
    queue: &wgpu::Queue,
    params: &Arc<P>,
    buffer: &[u32],
    outcome: Result<(), PrerenderFailure>,
) -> bool {
    call_ensures(refresh_one::<P>, (handle, queue, *params, buffer), outcome)
}

/// What every member of a scene can do. `P` is the type of the parameters
/// that all elements share during one refresh of a frame.
pub trait UiElement<P>: AsAny {
    /// Emits the element's draw commands into the render pass.
    fn render(&self, render_pass: &mut wgpu::RenderPass);

    /// Refreshes what the backend holds for the element, once per frame and
    /// before rendering. Each word of `buffer` is the bit pattern of one
    /// 32-bit float; what the floats mean is up to the element. A failure is
    /// returned, never raised.
    fn prerender(&mut self, queue: &wgpu::Queue, params: Arc<P>, buffer: &[u32]) -> (outcome:
        Result<(), PrerenderFailure>)
        default_ensures
            outcome is Ok,
    {
        Ok(())
    }

    /// The key of the draw order: lower layers are drawn first.
    fn z_layer(&self) -> (z: i32)
        default_ensures
            z == 0,
    {
        0
    }
}

/// `z` is a layer that the element reports.
pub open spec fn reports_layer<P, E: UiElement<P> + ?Sized>(element: &E, z: i32) -> bool {
    call_ensures(E::z_layer, (element,), z)
}

/// Asks the element for its layer, once.
pub fn read_layer<P, E: UiElement<P> + ?Sized>(element: &E) -> (z: i32)
    ensures
        reports_layer::<P, E>(element, z),
{
    element.z_layer()
}

/// `keys` holds, for each element, a layer that the element reports.
pub open spec fn reported_layers<P>(elements: Seq<Box<dyn UiElement<P>>>, keys: Seq<i32>) -> bool {
    &&& keys.len() == elements.len()
    &&& forall|i: int|
        0 <= i < elements.len() ==> reports_layer::<P, dyn UiElement<P>>(
            &*(#[trigger] elements[i]),
            keys[i],
        )
}

/// `order` is the order in which `elements` are read when they report the
/// layers `keys`.
pub open spec fn read_order<P>(
    elements: Seq<Box<dyn UiElement<P>>>,
    keys: Seq<i32>,
    order: Seq<usize>,
) -> bool {
    reported_layers(elements, keys) && is_layer_order(keys, order)
}

/// `keep` holds, for each element, a verdict that the predicate gives on it.
pub open spec fn judged<P, F: FnMut(&Box<dyn UiElement<P>>) -> bool>(
    f: F,
    elements: Seq<Box<dyn UiElement<P>>>,
    keep: Seq<bool>,
) -> bool {
    &&& keep.len() == elements.len()
    &&& forall|i: int|
        0 <= i < elements.len() ==> call_ensures(f, (&(#[trigger] elements[i]),), keep[i])
}

/// Something with a position and a size in pixel space. A size that cannot be
/// had, such as that between corners out of order, is an error and never a
/// wrapped or clamped number.
pub trait UiBox {
    fn width(&self) -> (w: Result<u16, ConfigurationError>);

    fn height(&self) -> (h: Result<u16, ConfigurationError>);

    fn position(&self) -> (at: (u16, u16));

    /// The six vertices of the two triangles that cover the box, in
    /// normalized device coordinates of the given viewport. A viewport
    /// without width or height is refused before the box is asked; after
    /// that, a width or a height that cannot be had.
    fn get_vertices(&self, viewport: Viewport) -> (out: Result<[ClipCoord; 12], ConfigurationError>)
        default_ensures
            !viewport.usable() ==> out == Err::<[ClipCoord; 12], ConfigurationError>(
                ConfigurationError::ZeroViewport,
            ),
            viewport.usable() ==> exists|
                at: (u16, u16),
                w: Result<u16, ConfigurationError>,
                h: Result<u16, ConfigurationError>,
            |
                #![trigger
                    call_ensures(Self::position, (self,), at),
                    call_ensures(Self::width, (self,), w),
                    call_ensures(Self::height, (self,), h),
                ]
                {
                    &&& call_ensures(Self::position, (self,), at)
                    &&& call_ensures(Self::width, (self,), w)
                    &&& call_ensures(Self::height, (self,), h)
                    &&& match Rectangle::spec_from_bounds(at, w, h) {
                        Ok(rect) => out is Ok && out->Ok_0@ == clip_vertices(rect, viewport),
                        Err(error) => out == Err::<[ClipCoord; 12], ConfigurationError>(error),
                    }
                },
    {
        if viewport.width == 0 || viewport.height == 0 {
            return Err(ConfigurationError::ZeroViewport);
        }
        let at = self.position();
        let width = self.width();
        let height = self.height();
        match Rectangle::from_bounds(at, width, height) {
            Ok(rect) => to_clip_vertices(rect, viewport),
            Err(error) => Err(error),
        }
    }
}

/// `at`, `width` and `height` are a position, a width and a height that the
/// box reports.
pub open spec fn reports_bounds<B: UiBox + ?Sized>(
    bounds: &B,
    at: (u16, u16),
    width: Result<u16, ConfigurationError>,
    height: Result<u16, ConfigurationError>,
) -> bool {
    &&& call_ensures(B::position, (bounds,), at)
    &&& call_ensures(B::width, (bounds,), width)
    &&& call_ensures(B::height, (bounds,), height)
}

/// Asks the box for its position, its width and its height, each once, and
/// puts them together.
pub fn read_bounds<B: UiBox + ?Sized>(bounds: &B) -> (out: Result<Rectangle, ConfigurationError>)
    ensures
        exists|
            at: (u16, u16),
            width: Result<u16, ConfigurationError>,
            height: Result<u16, ConfigurationError>,
        | #[trigger]
            reports_bounds(bounds, at, width, height) && out == Rectangle::spec_from_bounds(
                at,
                width,
                height,
            ),
{
    let at = bounds.position();
    let width = bounds.width();
    let height = bounds.height();
    assert(reports_bounds(bounds, at, width, height));
    Rectangle::from_bounds(at, width, height)
}

/// The corners `[x0, y0, x1, y1]` of a rectangle. Each axis is measured on
/// its own: the width can be had where `x0 <= x1`, the height where
/// `y0 <= y1`.
impl UiBox for [u16; 4] {
    fn width(&self) -> (w: Result<u16, ConfigurationError>)
        ensures
            w == Rectangle::spec_span(self[0], self[2]),
    {
        Rectangle::span(self[0], self[2])
    }

    fn height(&self) -> (h: Result<u16, ConfigurationError>)
        ensures
            h == Rectangle::spec_span(self[1], self[3]),
    {
        Rectangle::span(self[1], self[3])
    }

    fn position(&self) -> (at: (u16, u16))
        ensures
            at == (self[0], self[1]),
    {
        (self[0], self[1])
    }
}

impl UiBox for Rectangle {
    fn width(&self) -> (w: Result<u16, ConfigurationError>)
        ensures
            w == Ok::<u16, ConfigurationError>(self.width),
    {
        Ok(self.width)
    }

    fn height(&self) -> (h: Result<u16, ConfigurationError>)
        ensures
            h == Ok::<u16, ConfigurationError>(self.height),
    {
        Ok(self.height)
    }

    fn position(&self) -> (at: (u16, u16))
        ensures
            at == (self.x, self.y),
    {
        (self.x, self.y)
    }
}

/// An element with bounds that reacts to the pointer.
pub trait UiInteractive<P>: UiElement<P> + UiBox {
    /// Whether the pointer is over the element. The left and top edges count
    /// as inside, the right and bottom edges do not, and a negative
    /// coordinate is outside. Where the width or the height of the element
    /// cannot be had, that is the answer.
    fn is_mouse_over(&self, mouse_pos: (i16, i16)) -> (over: Result<bool, ConfigurationError>)
        default_ensures
            exists|
                at: (u16, u16),
                width: Result<u16, ConfigurationError>,
                height: Result<u16, ConfigurationError>,
            | #[trigger]
                reports_bounds(self, at, width, height) && over == match Rectangle::spec_from_bounds(
                    at,
                    width,
                    height,
                ) {
                    Ok(rect) => Ok::<bool, ConfigurationError>(
                        rect.spec_contains(mouse_pos.0 as int, mouse_pos.1 as int),
                    ),
                    Err(error) => Err::<bool, ConfigurationError>(error),
                },
    {
        match read_bounds(self) {
            Ok(rect) => Ok(rect.contains(mouse_pos)),
            Err(error) => Err(error),
        }
    }
}

/// The elements of a scene. The collection owns them, keeps them in the order
/// of insertion, and hands them out sorted by layer.
#[verifier::reject_recursive_types(P)]
pub struct UiCollection<P> {
    scene_elements: Vec<Box<dyn UiElement<P>>>,
}

impl<P> UiCollection<P> {
    /// The elements in the order of insertion.
    pub closed spec fn view(&self) -> Seq<Box<dyn UiElement<P>>> {
        self.scene_elements@
    }

    /// A collection without elements.
    pub fn new() -> (collection: Self)
        ensures
            collection@ == Seq::<Box<dyn UiElement<P>>>::empty(),
            collection@.len() == 0,
    {
        UiCollection { scene_elements: Vec::new() }
    }

    /// Takes ownership of `element` and puts it behind all the others.
    pub fn append<E>(&mut self, element: E) where E: UiElement<P> + 'static
        ensures
            final(self)@.len() == old(self)@.len() + 1,
            final(self)@.drop_last() == old(self)@,
            final(self)@.last() == ({
                let boxed: Box<dyn UiElement<P>> = Box::new(element);
                boxed
            }),
    {
        let boxed: Box<dyn UiElement<P>> = Box::new(element);
        push_back(&mut self.scene_elements, boxed);
    }

    /// Puts the given elements behind all the others, in their order.
    pub fn batch_append(&mut self, elements: Vec<Box<dyn UiElement<P>>>)
        ensures
            final(self)@ == old(self)@ + elements@,
    {
        let mut elements = elements;
        self.scene_elements.append(&mut elements);
    }

    /// Asks every element for its layer, once and in the order of insertion.
    fn read_layers(&self) -> (keys: Vec<i32>)
        ensures
            reported_layers(self@, keys@),
    {
        let mut keys: Vec<i32> = Vec::new();
        let mut i: usize = 0;
        while i < self.scene_elements.len()
            invariant
                i <= self.scene_elements@.len(),
                keys@.len() == i,
                forall|j: int|
                    0 <= j < i ==> reports_layer::<P, dyn UiElement<P>>(
                        &*(#[trigger] self.scene_elements@[j]),
                        keys@[j],
                    ),
            decreases self.scene_elements@.len() - i,
        {
            let z = read_layer::<P, dyn UiElement<P>>(&*self.scene_elements[i]);
            keys.push(z);
            i = i + 1;
        }
        keys
    }

    /// The elements sorted by layer, lowest first; elements on the same layer
    /// stay in the order of insertion. The order is computed anew by every
    /// call, from the layers that the elements report during the call.
    pub fn iter(&self) -> (refs: Vec<&Box<dyn UiElement<P>>>)
        ensures
            exists|keys: Seq<i32>, order: Seq<usize>| #[trigger]
                read_order(self@, keys, order) && refers_in_order(refs@, self@, order),
    {
        let keys = self.read_layers();
        let order = layer_order(&keys);
        let refs = arrange_refs(&self.scene_elements, &order);
        assert(read_order(self@, keys@, order@));
        refs
    }

    /// The elements sorted as by `iter`, each borrowed exclusively. What the
    /// host writes through a borrow ends up in the element's place in the
    /// collection; no element is added, removed or moved.
    pub fn iter_mut(&mut self) -> (refs: Vec<&mut Box<dyn UiElement<P>>>)
        ensures
            final(self)@.len() == old(self)@.len(),
            exists|keys: Seq<i32>, order: Seq<usize>|
                {
                    &&& #[trigger] read_order(old(self)@, keys, order)
                    &&& refs@.len() == order.len()
                    &&& forall|i: int|
                        0 <= i < refs@.len() ==> *(#[trigger] refs@[i]) == old(self)@[order[i] as int]
                    &&& forall|i: int|
                        0 <= i < refs@.len() ==> final(self)@[order[i] as int] == *final(#[trigger] refs@[i])
                },
    {
        let keys = self.read_layers();
        let order = layer_order(&keys);
        proof {
            lemma_layer_order_is_distinct(keys@, order@);
        }
        let all = borrow_all(&mut self.scene_elements);
        let refs = arrange_owned(all, &order);
        assert(read_order(old(self)@, keys@, order@));
        refs
    }

    /// Runs `step` on every element once, in the order of insertion, and
    /// reports the steps that failed. A failure does not end the sweep. What a
    /// step writes to its element ends up in the element's place in the
    /// collection.
    pub fn refresh_each<F>(&mut self, step: F) -> (diagnostics: Vec<PrerenderDiagnostic>) where
        F: FnMut(&mut Box<dyn UiElement<P>>) -> Result<(), PrerenderFailure>,
        requires
            forall|element: &mut Box<dyn UiElement<P>>| #[trigger] call_requires(step, (element,)),
        ensures
            final(self)@.len() == old(self)@.len(),
            exists|outcomes: Seq<Result<(), PrerenderFailure>>|
                {
                    &&& outcomes.len() == old(self)@.len()
                    &&& diagnostics@ == #[trigger] diagnostics_of(outcomes)
                    &&& forall|i: int|
                        #![trigger outcomes[i]]
                        0 <= i < outcomes.len() ==> exists|
                            handle: &mut Box<dyn UiElement<P>>,
                            outcome: Result<(), PrerenderFailure>,
                        |
                            {
                                &&& #[trigger] call_ensures(step, (handle,), outcome)
                                &&& outcome == outcomes[i]
                                &&& *handle == old(self)@[i]
                                &&& *final(handle) == final(self)@[i]
                            }
                },
    {
        let mut step = step;
        let ghost asked = step;
        let total = self.scene_elements.len();
        let waiting = borrow_all(&mut self.scene_elements);
        let ghost borrowed = waiting@;
        let mut stack = reversed(waiting);
        let mut diagnostics: Vec<PrerenderDiagnostic> = Vec::new();
        let ghost mut outcomes: Seq<Result<(), PrerenderFailure>> = Seq::empty();
        let mut position: usize = 0;
        while stack.len() > 0
            invariant
                step == asked,
                position + stack@.len() == total,
                borrowed.len() == total,
                forall|j: int| 0 <= j < stack@.len() ==> stack@[j] == borrowed[total - 1 - j],
                outcomes.len() == position,
                forall|j: int|
                    #![trigger outcomes[j]]
                    0 <= j < position ==> exists|
                        handle: &mut Box<dyn UiElement<P>>,
                        outcome: Result<(), PrerenderFailure>,
                    |
                        {
                            &&& #[trigger] call_ensures(step, (handle,), outcome)
                            &&& outcome == outcomes[j]
                            &&& *handle == *borrowed[j]
                            &&& *final(handle) == *final(borrowed[j])
                        },
                diagnostics@ == diagnostics_of(outcomes),
                forall|element: &mut Box<dyn UiElement<P>>| #[trigger]
                    call_requires(step, (element,)),
            decreases stack@.len(),
        {
            let element = stack.pop().unwrap();
            assert(element == borrowed[position as int]);
            let ghost was = *element;
            let ghost will = *final(element);
            let outcome = step(element);
            proof {
                assert(exists|handle: &mut Box<dyn UiElement<P>>|
                    {
                        &&& #[trigger] call_ensures(step, (handle,), outcome)
                        &&& *handle == was
                        &&& *final(handle) == will
                    });
                let ghost earlier = outcomes;
                assert(earlier.push(outcome).drop_last() =~= earlier);
                outcomes = earlier.push(outcome);
                assert forall|j: int| 0 <= j < position implies outcomes[j] == #[trigger] earlier[j] by {}
            }
            record_outcome(&mut diagnostics, position, outcome);
            position = position + 1;
        }
        diagnostics
    }

    /// Refreshes every element once, in the order of insertion, with the
    /// parameters and the raw buffer of the frame, and reports the steps that
    /// failed. A failure does not end the sweep. What an element writes to
    /// itself ends up in its place in the collection.
    pub fn prerender_all(&mut self, queue: &wgpu::Queue, params: Arc<P>, buffer: &[u32]) -> (diagnostics:
        Vec<PrerenderDiagnostic>)
        ensures
            final(self)@.len() == old(self)@.len(),
            exists|outcomes: Seq<Result<(), PrerenderFailure>>|
                {
                    &&& outcomes.len() == old(self)@.len()
                    &&& diagnostics@ == #[trigger] diagnostics_of(outcomes)
                    &&& forall|i: int|
                        #![trigger outcomes[i]]
                        0 <= i < outcomes.len() ==> exists|
                            handle: &mut Box<dyn UiElement<P>>,
                            outcome: Result<(), PrerenderFailure>,
                        |
                            {
                                &&& #[trigger] refreshed(handle, queue, &params, buffer, outcome)
                                &&& outcome == outcomes[i]
                                &&& *handle == old(self)@[i]
                                &&& *final(handle) == final(self)@[i]
                            }
                },
    {
        let step = |element: &mut Box<dyn UiElement<P>>| -> (outcome: Result<(), PrerenderFailure>)
            ensures
                exists|handle: &mut Box<dyn UiElement<P>>|
                    {
                        &&& #[trigger] refreshed(handle, queue, &params, buffer, outcome)
                        &&& *handle == *old(element)
                        &&& *final(handle) == *final(element)
                    }
            {
                let ghost was = *element;
                let ghost will = *final(element);
                let shared = share(&params);
                let outcome = refresh_one(element, queue, shared, buffer);
                proof {
                    let handle = choose|handle: &mut Box<dyn UiElement<P>>|
                        {
                            &&& #[trigger] call_ensures(
                                refresh_one::<P>,
                                (handle, queue, shared, buffer),
                                outcome,
                            )
                            &&& *handle == was
                            &&& *final(handle) == will
                        };
                    assert(refreshed(handle, queue, &params, buffer, outcome));
                }
                outcome
            };
        let diagnostics = self.refresh_each(step);
        diagnostics
    }

    /// Removes the elements that are marked `false` and keeps the others in
    /// their order. An element without a mark stays.
    pub fn retain_marked(&mut self, keep: &Vec<bool>)
        ensures
            final(self)@ == select(old(self)@, keep@),
            (forall|i: int| 0 <= i < old(self)@.len() ==> stays(keep@, i)) ==> final(self)@ == old(
                self,
            )@,
    {
        proof {
            if forall|i: int| 0 <= i < self@.len() ==> stays(keep@, i) {
                lemma_select_all(self@, keep@);
            }
        }
        retain_marked(&mut self.scene_elements, keep);
    }

    /// Removes the elements on which the predicate returns `false` and keeps
    /// the others in their order. The predicate is asked once for every
    /// element.
    pub fn retain<F>(&mut self, f: F) where F: FnMut(&Box<dyn UiElement<P>>) -> bool
        requires
            forall|i: int|
                0 <= i < old(self)@.len() ==> call_requires(f, (&(#[trigger] old(self)@[i]),)),
        ensures
            exists|keep: Seq<bool>| #[trigger]
                judged(f, old(self)@, keep) && final(self)@ == select(old(self)@, keep),
            (forall|element: &Box<dyn UiElement<P>>, verdict: bool| #[trigger]
                call_ensures(f, (element,), verdict) ==> verdict) ==> final(self)@ == old(self)@,
    {
        let mut f = f;
        let ghost asked = f;
        let mut keep: Vec<bool> = Vec::new();
        let mut i: usize = 0;
        while i < self.scene_elements.len()
            invariant
                f == asked,
                i <= self.scene_elements@.len(),
                keep@.len() == i,
                self.scene_elements@ == old(self)@,
                forall|j: int|
                    0 <= j < old(self)@.len() ==> call_requires(
                        f,
                        (&(#[trigger] old(self)@[j]),),
                    ),
                forall|j: int|
                    0 <= j < i ==> call_ensures(
                        f,
                        (&(#[trigger] self.scene_elements@[j]),),
                        keep@[j],
                    ),
            decreases self.scene_elements@.len() - i,
        {
            let verdict = f(&self.scene_elements[i]);
            keep.push(verdict);
            i = i + 1;
        }
        assert(judged(f, old(self)@, keep@));
        proof {
            if forall|element: &Box<dyn UiElement<P>>, verdict: bool| #[trigger]
                call_ensures(f, (element,), verdict) ==> verdict {
                assert forall|j: int| 0 <= j < self@.len() implies stays(keep@, j) by {
                    assert(call_ensures(f, (&self.scene_elements@[j],), keep@[j]));
                }
                lemma_select_all(self@, keep@);
            }
        }
        retain_marked(&mut self.scene_elements, &keep);
    }
}

/// Whatever the order of insertion, reading in z-order meets an element
/// before every element that it precedes: before those on a higher layer,
/// and before those on its own layer that were inserted later.
pub proof fn lemma_lower_layer_is_met_first<P>(
    elements: Seq<Box<dyn UiElement<P>>>,
    keys: Seq<i32>,
    order: Seq<usize>,
    refs: Seq<&Box<dyn UiElement<P>>>,
    a: int,
    b: int,
)
    requires
        read_order(elements, keys, order),
        refers_in_order(refs, elements, order),
        0 <= a < elements.len(),
        0 <= b < elements.len(),
        precedes(keys, a, b),
    ensures
        0 <= place_of(order, a) < place_of(order, b) < refs.len(),
        *refs[place_of(order, a)] == elements[a],
        *refs[place_of(order, b)] == elements[b],
{
    lemma_lower_layer_is_read_first(keys, order, a, b);
}

/// The layers decide what is read: two readings of the same elements that
/// report the same layers meet the same elements in the same order.
pub proof fn lemma_layers_decide_the_reading<P>(
    elements: Seq<Box<dyn UiElement<P>>>,
    keys: Seq<i32>,
    first_order: Seq<usize>,
    first: Seq<&Box<dyn UiElement<P>>>,
    second_order: Seq<usize>,
    second: Seq<&Box<dyn UiElement<P>>>,
)
    requires
        read_order(elements, keys, first_order),
        refers_in_order(first, elements, first_order),
        read_order(elements, keys, second_order),
        refers_in_order(second, elements, second_order),
    ensures
        first_order == second_order,
        first.len() == second.len(),
        forall|i: int| 0 <= i < first.len() ==> *(#[trigger] first[i]) == *second[i],
{
    lemma_layer_order_is_unique(keys, first_order, second_order);
}

/// Retaining twice by the same predicate removes nothing the second time.
/// "The same predicate" is one that gives one verdict on an element, whenever
/// it is asked.
pub proof fn lemma_retain_twice_removes_nothing<P, F: FnMut(&Box<dyn UiElement<P>>) -> bool>(
    f: F,
    elements: Seq<Box<dyn UiElement<P>>>,
    first: Seq<bool>,
    second: Seq<bool>,
)
    requires
        forall|e: &Box<dyn UiElement<P>>, one: bool, other: bool|
            #![trigger call_ensures(f, (e,), one), call_ensures(f, (e,), other)]
            call_ensures(f, (e,), one) && call_ensures(f, (e,), other) ==> one == other,
        judged(f, elements, first),
        judged(f, select(elements, first), second),
    ensures
        select(select(elements, first), second) == select(elements, first),
{
    let once = select(elements, first);
    assert forall|j: int| 0 <= j < once.len() implies stays(second, j) by {
        let k = lemma_selected_was_kept(elements, first, j);
        assert(call_ensures(f, (&elements[k],), first[k]));
        assert(call_ensures(f, (&once[j],), second[j]));
    }
    lemma_select_all(once, second);
}

} // verus!
