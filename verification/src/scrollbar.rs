//! The scrollbar of a virtualized list: what each pointer event does to it.
//!
//! A scrollbar is a track with a thumb on it. The thumb can be grabbed and
//! dragged, the track can be clicked to jump, and the wheel scrolls while the
//! pointer is over either. This module decides what an event does: whether a
//! drag begins, goes on or ends, where the list must scroll, and whether the
//! host must repaint, keep the event from what lies below, or may hide the
//! scrollbar. Measuring is the host's part. It tells where the pointer
//! landed, and it turns a pointer position into a scroll offset; so the types
//! here are generic in the host's positions (`P`) and in the fraction of the
//! track by which a grabbed thumb is held (`A`).

use vstd::prelude::*;

verus! {

/// The axis along which a scrollbar scrolls.
#[derive(Debug, Clone, Copy, PartialEq, Eq)]
pub enum ScrollbarKind {
    Horizontal,
    Vertical,
}

impl ScrollbarKind {
    /// Of a horizontal and a vertical measure, the one along the scrollbar.
    pub fn along<T>(self, horizontal: T, vertical: T) -> (picked: T)
        ensures
            picked == match self {
                ScrollbarKind::Horizontal => horizontal,
                ScrollbarKind::Vertical => vertical,
            },
    {
        match self {
            ScrollbarKind::Horizontal => horizontal,
            ScrollbarKind::Vertical => vertical,
        }
    }

    /// Of a horizontal and a vertical measure, the one across the scrollbar.
    pub fn across<T>(self, horizontal: T, vertical: T) -> (picked: T)
        ensures
            picked == match self {
                ScrollbarKind::Horizontal => vertical,
                ScrollbarKind::Vertical => horizontal,
            },
    {
        match self {
            ScrollbarKind::Horizontal => vertical,
            ScrollbarKind::Vertical => horizontal,
        }
    }

    /// The pair of a horizontal and a vertical measure in which `along` lies
    /// along the scrollbar and `across` across it.
    pub fn place<T>(self, along: T, across: T) -> (placed: (T, T))
        ensures
            placed == match self {
                ScrollbarKind::Horizontal => (along, across),
                ScrollbarKind::Vertical => (across, along),
            },
    {
        match self {
            ScrollbarKind::Horizontal => (along, across),
            ScrollbarKind::Vertical => (across, along),
        }
    }
}

/// Whether the thumb is being dragged.
#[derive(Debug, PartialEq)]
pub enum DragState<A> {
    /// No drag is going on.
    Idle,
    /// The thumb is held. The anchor is the distance from the thumb's near
    /// edge to the point at which it was grabbed, as a fraction of the track.
    Dragging(A),
}

impl<A: Copy> DragState<A> {
    /// The drag state that holds the thumb by `anchor`, or no drag where
    /// there is no anchor.
    pub fn from_anchor(anchor: Option<A>) -> (drag: Self)
        ensures
            drag == match anchor {
                Some(anchor) => DragState::Dragging(anchor),
                None => DragState::Idle,
            },
    {
        match anchor {
            Some(anchor) => DragState::Dragging(anchor),
            None => DragState::Idle,
        }
    }

    /// The anchor by which the thumb is held, or `None` where no drag is
    /// going on.
    pub fn anchor(&self) -> (anchor: Option<A>)
        ensures
            anchor == match *self {
                DragState::Dragging(anchor) => Some(anchor),
                DragState::Idle => None,
            },
    {
        match self {
            DragState::Dragging(anchor) => Some(*anchor),
            DragState::Idle => None,
        }
    }
}

/// Where on the scrollbar a button was pressed.
#[derive(Debug, PartialEq)]
pub enum Hit<A> {
    /// Not on the scrollbar.
    Outside,
    /// On the track, beside the thumb.
    Track,
    /// On the thumb, `grab` of the track's length behind its near edge.
    Thumb { grab: A },
}

/// A pointer event as the scrollbar needs to know it.
#[derive(Debug, PartialEq)]
pub enum PointerEvent<P, A> {
    /// A button was pressed with the pointer at `pointer`.
    MouseDown { hit: Hit<A>, pointer: P },
    /// The pointer moved to `pointer`. `over` says whether that is on the
    /// scrollbar, `dragging` whether the device still reports a drag.
    MouseMove { over: bool, dragging: bool, pointer: P },
    /// A button was released. `left` says whether it was the left one, `over`
    /// whether the pointer is on the scrollbar, `focused` whether the list it
    /// belongs to holds the focus.
    MouseUp { left: bool, over: bool, focused: bool },
    /// The wheel turned by `delta`. `over` says whether the pointer is on the
    /// scrollbar.
    ScrollWheel { over: bool, delta: P },
}

/// Where the list must scroll.
#[derive(Debug, PartialEq)]
pub enum Scroll<P, A> {
    /// Nowhere: the offset stays.
    Stay,
    /// To the offset at which the thumb's near edge lies under `pointer`,
    /// moved back by `anchor` where there is one, and no further than the
    /// thumb's far edge can go.
    To { pointer: P, anchor: Option<A> },
    /// By `delta` from the present offset.
    By { delta: P },
}

/// What the host must do after an event.
#[derive(Debug, PartialEq)]
pub struct Reaction<P, A> {
    /// Where to scroll.
    pub scroll: Scroll<P, A>,
    /// Whether to request a repaint.
    pub repaint: bool,
    /// Whether to keep the event from what lies below the scrollbar.
    pub stop_propagation: bool,
    /// Whether the scrollbar may now be hidden.
    pub hide: bool,
}

/// The drag state after `event` has met the drag state `drag`.
///
/// A press on the thumb begins a drag. A move keeps a drag going while the
/// device reports one, and ends it otherwise. A release ends it. Nothing else
/// changes the state.
pub open spec fn drag_after<P, A>(drag: DragState<A>, event: PointerEvent<P, A>) -> DragState<A> {
    match event {
        PointerEvent::MouseDown { hit: Hit::Thumb { grab }, .. } => DragState::Dragging(grab),
        PointerEvent::MouseDown { .. } => drag,
        PointerEvent::MouseMove { dragging, .. } => if dragging {
            drag
        } else {
            DragState::Idle
        },
        PointerEvent::MouseUp { .. } => DragState::Idle,
        PointerEvent::ScrollWheel { .. } => drag,
    }
}

/// Where the list must scroll when `event` meets the drag state `drag`.
///
/// A press on the track beside the thumb jumps to the pointer. A move during
/// a drag follows the pointer, held back by the anchor. The wheel over the
/// scrollbar scrolls by its delta.
pub open spec fn scroll_on<P, A>(drag: DragState<A>, event: PointerEvent<P, A>) -> Scroll<P, A> {
    match event {
        PointerEvent::MouseDown { hit: Hit::Track, pointer } => Scroll::To {
            pointer,
            anchor: None,
        },
        PointerEvent::MouseMove { dragging: true, pointer, .. } => match drag {
            DragState::Dragging(anchor) => Scroll::To { pointer, anchor: Some(anchor) },
            DragState::Idle => Scroll::Stay,
        },
        PointerEvent::ScrollWheel { over: true, delta } => Scroll::By { delta },
        _ => Scroll::Stay,
    }
}

/// Whether `event` landed on the scrollbar.
pub open spec fn lands_on_scrollbar<P, A>(event: PointerEvent<P, A>) -> bool {
    match event {
        PointerEvent::MouseDown { hit, .. } => hit != Hit::<A>::Outside,
        PointerEvent::MouseMove { over, .. } => over,
        PointerEvent::MouseUp { over, .. } => over,
        PointerEvent::ScrollWheel { over, .. } => over,
    }
}

/// Whether the scrollbar may be hidden when `event` meets the drag state
/// `drag`: after a release of the left button on it that ends no drag, while
/// the list does not hold the focus.
pub open spec fn may_hide_on<P, A>(drag: DragState<A>, event: PointerEvent<P, A>) -> bool {
    match event {
        PointerEvent::MouseUp { left, over, focused } => left && over && !focused && drag
            == DragState::<A>::Idle,
        _ => false,
    }
}

/// Whether `event` begins a drag or ends the one that `drag` holds.
pub open spec fn begins_or_ends_drag<P, A>(drag: DragState<A>, event: PointerEvent<P, A>) -> bool {
    match event {
        PointerEvent::MouseDown { hit: Hit::Thumb { .. }, .. } => true,
        _ => drag != DragState::<A>::Idle && drag_after(drag, event) == DragState::<A>::Idle,
    }
}

/// Whether `event` asks for a repaint when it meets the drag state `drag`.
///
/// Every release does, and every move over the scrollbar. Any other event
/// does when the list scrolls or a drag begins or ends.
pub open spec fn repaints_on<P, A>(drag: DragState<A>, event: PointerEvent<P, A>) -> bool {
    ||| event is MouseUp
    ||| event matches PointerEvent::MouseMove { over: true, .. }
    ||| scroll_on(drag, event) != Scroll::<P, A>::Stay
    ||| begins_or_ends_drag(drag, event)
}

/// What the host must do when `event` meets the drag state `drag`: where to
/// scroll, whether to repaint (see [`repaints_on`]), whether the scrollbar
/// may be hidden, and that it keeps from what lies below every event that
/// landed on the scrollbar.
pub open spec fn reaction_to<P, A>(drag: DragState<A>, event: PointerEvent<P, A>) -> Reaction<
    P,
    A,
> {
    Reaction {
        scroll: scroll_on(drag, event),
        repaint: repaints_on(drag, event),
        stop_propagation: lands_on_scrollbar(event),
        hide: may_hide_on(drag, event),
    }
}

/// The scrollbar of one list: its axis and whether its thumb is held.
#[derive(Debug, PartialEq)]
pub struct Scrollbar<A> {
    pub kind: ScrollbarKind,
    pub drag: DragState<A>,
}

impl<A: Copy> Scrollbar<A> {
    /// A scrollbar that scrolls up and down, in the drag state `drag`.
    pub fn vertical(drag: DragState<A>) -> (scrollbar: Self)
        ensures
            scrollbar == (Scrollbar { kind: ScrollbarKind::Vertical, drag }),
    {
        Scrollbar { kind: ScrollbarKind::Vertical, drag }
    }

    /// A scrollbar that scrolls left and right, in the drag state `drag`.
    pub fn horizontal(drag: DragState<A>) -> (scrollbar: Self)
        ensures
            scrollbar == (Scrollbar { kind: ScrollbarKind::Horizontal, drag }),
    {
        Scrollbar { kind: ScrollbarKind::Horizontal, drag }
    }

    /// Whether the thumb is held.
    pub fn is_dragging(&self) -> (dragging: bool)
        ensures
            dragging == (self.drag != DragState::<A>::Idle),
    {
        match self.drag {
            DragState::Idle => false,
            DragState::Dragging(_) => true,
        }
    }

    /// Takes one pointer event: moves to the drag state that follows, and
    /// tells the host what to do.
    pub fn handle<P>(&mut self, event: PointerEvent<P, A>) -> (reaction: Reaction<P, A>)
        ensures
            final(self).kind == old(self).kind,
            final(self).drag == drag_after(old(self).drag, event),
            reaction == reaction_to(old(self).drag, event),
    {
        let was_dragging = self.is_dragging();
        match event {
            PointerEvent::MouseDown { hit, pointer } => match hit {
                Hit::Outside => Reaction {
                    scroll: Scroll::Stay,
                    repaint: false,
                    stop_propagation: false,
                    hide: false,
                },
                Hit::Track => Reaction {
                    scroll: Scroll::To { pointer, anchor: None },
                    repaint: true,
                    stop_propagation: true,
                    hide: false,
                },
                Hit::Thumb { grab } => {
                    self.drag = DragState::Dragging(grab);
                    Reaction {
                        scroll: Scroll::Stay,
                        repaint: true,
                        stop_propagation: true,
                        hide: false,
                    }
                },
            },
            PointerEvent::MouseMove { over, dragging, pointer } => {
                if dragging {
                    match self.drag {
                        DragState::Dragging(anchor) => Reaction {
                            scroll: Scroll::To { pointer, anchor: Some(anchor) },
                            repaint: true,
                            stop_propagation: over,
                            hide: false,
                        },
                        DragState::Idle => Reaction {
                            scroll: Scroll::Stay,
                            repaint: over,
                            stop_propagation: over,
                            hide: false,
                        },
                    }
                } else {
                    self.drag = DragState::Idle;
                    Reaction {
                        scroll: Scroll::Stay,
                        repaint: over || was_dragging,
                        stop_propagation: over,
                        hide: false,
                    }
                }
            },
            PointerEvent::MouseUp { left, over, focused } => {
                self.drag = DragState::Idle;
                Reaction {
                    scroll: Scroll::Stay,
                    repaint: true,
                    stop_propagation: over,
                    hide: left && over && !focused && !was_dragging,
                }
            },
            PointerEvent::ScrollWheel { over, delta } => {
                if over {
                    Reaction {
                        scroll: Scroll::By { delta },
                        repaint: true,
                        stop_propagation: true,
                        hide: false,
                    }
                } else {
                    Reaction {
                        scroll: Scroll::Stay,
                        repaint: false,
                        stop_propagation: false,
                        hide: false,
                    }
                }
            },
        }
    }
}

/// A release ends every drag for good. Whatever the state was and wherever
/// the pointer is, the release scrolls nowhere, leaves the scrollbar idle and
/// asks for a repaint; and a move that follows scrolls nowhere and leaves it
/// idle.
pub proof fn lemma_release_leaves_no_drag<P, A>(
    drag: DragState<A>,
    release: PointerEvent<P, A>,
    later_move: PointerEvent<P, A>,
)
    requires
        release is MouseUp,
        later_move is MouseMove,
    ensures
        drag_after(drag, release) == DragState::<A>::Idle,
        scroll_on(drag, release) == Scroll::<P, A>::Stay,
        reaction_to(drag, release).repaint,
        scroll_on(drag_after(drag, release), later_move) == Scroll::<P, A>::Stay,
        drag_after(drag_after(drag, release), later_move) == DragState::<A>::Idle,
{
}

/// A move that no press went before finds the scrollbar idle and leaves it
/// so, and scrolls nowhere.
pub proof fn lemma_move_without_press_stays_idle<P, A>(moved: PointerEvent<P, A>)
    requires
        moved is MouseMove,
    ensures
        drag_after(DragState::<A>::Idle, moved) == DragState::<A>::Idle,
        scroll_on(DragState::<A>::Idle, moved) == Scroll::<P, A>::Stay,
{
}

/// A drag begins with a press on the thumb and with nothing else.
pub proof fn lemma_only_a_press_on_the_thumb_begins_a_drag<P, A>(event: PointerEvent<P, A>)
    ensures
        drag_after(DragState::<A>::Idle, event) != DragState::<A>::Idle <==> (event matches
            PointerEvent::MouseDown { hit: Hit::Thumb { .. }, .. }),
{
}

/// A press on the track beside the thumb scrolls at once and begins no drag.
pub proof fn lemma_press_on_track_jumps<P, A>(drag: DragState<A>, pointer: P)
    ensures
        scroll_on(drag, PointerEvent::<P, A>::MouseDown { hit: Hit::Track, pointer }) == (Scroll::<
            P,
            A,
        >::To { pointer, anchor: None }),
        drag_after(drag, PointerEvent::<P, A>::MouseDown { hit: Hit::Track, pointer }) == drag,
{
}

/// While the thumb is dragged, a move scrolls to where a jump to the same
/// pointer would, held back by the anchor, and the drag goes on with the
/// same anchor. It does so whether or not the pointer is still over the
/// scrollbar.
pub proof fn lemma_drag_follows_pointer<P, A>(anchor: A, over: bool, pointer: P)
    ensures
        scroll_on(
            DragState::Dragging(anchor),
            PointerEvent::<P, A>::MouseMove { over, dragging: true, pointer },
        ) == (Scroll::<P, A>::To { pointer, anchor: Some(anchor) }),
        drag_after(
            DragState::Dragging(anchor),
            PointerEvent::<P, A>::MouseMove { over, dragging: true, pointer },
        ) == DragState::Dragging(anchor),
{
}

/// The wheel never changes the drag state.
pub proof fn lemma_wheel_keeps_drag<P, A>(drag: DragState<A>, wheel: PointerEvent<P, A>)
    requires
        wheel is ScrollWheel,
    ensures
        drag_after(drag, wheel) == drag,
{
}

/// Whatever changes the offset or the drag state, or lets the scrollbar be
/// hidden, is followed by a repaint.
pub proof fn lemma_every_change_is_repainted<P, A>(drag: DragState<A>, event: PointerEvent<P, A>)
    requires
        scroll_on(drag, event) != Scroll::<P, A>::Stay || drag_after(drag, event) != drag
            || may_hide_on(drag, event),
    ensures
        reaction_to(drag, event).repaint,
{
}

/// An event is kept from what lies below exactly when it landed on the
/// scrollbar.
pub proof fn lemma_events_on_the_scrollbar_stop<P, A>(drag: DragState<A>, event: PointerEvent<P, A>)
    ensures
        reaction_to(drag, event).stop_propagation == lands_on_scrollbar(event),
{
}

} // verus!
