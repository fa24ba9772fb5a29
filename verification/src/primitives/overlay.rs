//! Overlay composition: how a viewport-anchored overlay lowers to a
//! portal. The element tree is modelled by `Node`, whose handlers are
//! values of the caller's handler type.
use vstd::prelude::*;

verus! {

/// What sits behind an overlay's content.
#[derive(Clone, Copy, Debug, PartialEq, Eq, Structural)]
pub enum BackdropMode {
    /// A scrim whose clicks fire the overlay's `on_dismiss`.
    Dismiss,
    /// A scrim that swallows clicks without dismissing.
    Opaque,
    /// No scrim: the viewport behind stays interactive.
    Off,
}

/// An element of the lowered tree.
pub enum Node<H> {
    /// A plain container.
    View { children: Vec<Node<H>> },
    /// A clickable layer.
    Pressable { children: Vec<Node<H>>, on_click: H },
    /// A portal: a layer mounted outside the normal tree.
    Portal { children: Vec<Node<H>>, on_dismiss: Option<H>, trap_focus: bool, pointer_events_none: bool },
}

/// The click handler of the backdrop layer: the overlay's `on_dismiss`
/// (or `noop` when there is none) for `Dismiss`, `noop` for `Opaque`.
pub open spec fn backdrop_handler<H>(backdrop: BackdropMode, on_dismiss: Option<H>, noop: H) -> H {
    match backdrop {
        BackdropMode::Dismiss => match on_dismiss {
            Some(d) => d,
            None => noop,
        },
        _ => noop,
    }
}

/// Lower an overlay to its portal. Without a backdrop the portal holds
/// one layer, a view of `children`; otherwise a pressable scrim comes
/// first (behind the content), wired as `backdrop_handler` says. The
/// portal keeps `on_dismiss` and `trap_focus`, and its root ignores
/// pointer events exactly when the overlay is click-through.
pub fn build_overlay_portal<H: Clone>(children: Vec<Node<H>>, backdrop: BackdropMode, on_dismiss: Option<H>, noop: H,
    trap_focus: bool, click_through: bool) -> (e: Node<H>)
    ensures
        e matches Node::Portal { children: layers, on_dismiss: d, trap_focus: t, pointer_events_none: p } && {
            &&& d == on_dismiss
            &&& t == trap_focus
            &&& p == click_through
            &&& backdrop == BackdropMode::Off ==> layers@.len() == 1
                && layers@[0] == Node::View { children }
            &&& backdrop != BackdropMode::Off ==> layers@.len() == 2
                && layers@[1] == Node::View { children }
                && (layers@[0] matches Node::Pressable { children: c, on_click }
                    && c@.len() == 0
                    && (match (backdrop, on_dismiss) {
                        (BackdropMode::Dismiss, Some(x)) => cloned(x, on_click),
                        _ => on_click == backdrop_handler(backdrop, on_dismiss, noop),
                    }))
        },
{
    let mut layers: Vec<Node<H>> = Vec::new();
    match backdrop {
        BackdropMode::Off => {},
        _ => {
            let on_click = match (backdrop, &on_dismiss) {
                (BackdropMode::Dismiss, Some(x)) => x.clone(),
                _ => noop,
            };
            layers.push(Node::Pressable { children: Vec::new(), on_click });
        },
    }
    layers.push(Node::View { children });
    Node::Portal { children: layers, on_dismiss, trap_focus, pointer_events_none: click_through }
}

/// An overlay being described; `build` lowers it.
pub struct OverlayBuilder<H> {
    pub children: Vec<Node<H>>,
    pub backdrop: BackdropMode,
    pub on_dismiss: Option<H>,
    pub trap_focus: bool,
    pub click_through: bool,
}

/// A viewport-anchored overlay of `children`: a `Dismiss` backdrop, no
/// dismiss handler, focus trapped, not click-through.
pub fn overlay<H>(children: Vec<Node<H>>) -> (b: OverlayBuilder<H>)
    ensures
        b.children == children,
        b.backdrop == BackdropMode::Dismiss,
        b.on_dismiss is None,
        b.trap_focus,
        !b.click_through,
{
    OverlayBuilder { children, backdrop: BackdropMode::Dismiss, on_dismiss: None, trap_focus: true, click_through: false }
}

impl<H: Clone> OverlayBuilder<H> {
    /// Choose the backdrop.
    pub fn backdrop(self, b: BackdropMode) -> (r: Self)
        ensures
            r == (OverlayBuilder { backdrop: b, ..self }),
    {
        OverlayBuilder { backdrop: b, ..self }
    }

    /// Set the dismiss handler.
    pub fn on_dismiss(self, f: H) -> (r: Self)
        ensures
            r == (OverlayBuilder { on_dismiss: Some(f), ..self }),
    {
        OverlayBuilder { on_dismiss: Some(f), ..self }
    }

    /// Trap focus inside the overlay, or not.
    pub fn trap_focus(self, t: bool) -> (r: Self)
        ensures
            r == (OverlayBuilder { trap_focus: t, ..self }),
    {
        OverlayBuilder { trap_focus: t, ..self }
    }

    /// Let clicks in the overlay's empty area pass through to the page.
    pub fn click_through(self, t: bool) -> (r: Self)
        ensures
            r == (OverlayBuilder { click_through: t, ..self }),
    {
        OverlayBuilder { click_through: t, ..self }
    }

    /// Lower to the portal; `noop` is the handler of a scrim that does
    /// not dismiss.
    pub fn build(self, noop: H) -> (e: Node<H>)
        ensures
            e matches Node::Portal { children: layers, on_dismiss, trap_focus, pointer_events_none }
                && on_dismiss == self.on_dismiss && trap_focus == self.trap_focus
                && pointer_events_none == self.click_through
                && (self.backdrop == BackdropMode::Off ==> layers@.len() == 1
                    && layers@[0] == (Node::View { children: self.children }))
                && (self.backdrop != BackdropMode::Off ==> layers@.len() == 2
                    && layers@[1] == (Node::View { children: self.children })
                    && (layers@[0] matches Node::Pressable { children: c, on_click }
                        && c@.len() == 0
                        && (match (self.backdrop, self.on_dismiss) {
                            (BackdropMode::Dismiss, Some(x)) => cloned(x, on_click),
                            _ => on_click == noop,
                        }))),
    {
        build_overlay_portal(self.children, self.backdrop, self.on_dismiss, noop, self.trap_focus, self.click_through)
    }
}

/// Tapping the backdrop of an overlay with a `Dismiss` backdrop and a
/// dismiss handler `h` fires (a clone of) `h`: the built portal's first
/// layer is an empty pressable scrim wired to `h`, with the content
/// behind it in the second and last layer.
pub proof fn law_dismiss_backdrop_tap_fires_on_dismiss<H: Clone>(b: OverlayBuilder<H>, noop: H, h: H, e: Node<H>)
    requires
        call_ensures(OverlayBuilder::<H>::build, (b, noop), e),
        b.backdrop == BackdropMode::Dismiss,
        b.on_dismiss == Some(h),
    ensures
        e matches Node::Portal { children: layers, .. } && layers@.len() == 2
            && (layers@[0] matches Node::Pressable { children: c, on_click } && c@.len() == 0 && cloned(h, on_click))
            && layers@[1] == (Node::View { children: b.children }),
{
}

/// An `Opaque` backdrop swallows taps: its scrim is wired to `noop`,
/// whatever dismiss handler the overlay has; with the backdrop `Off`
/// there is no scrim at all, only the content.
pub proof fn law_other_backdrops_do_not_dismiss<H: Clone>(b: OverlayBuilder<H>, noop: H, e: Node<H>)
    requires
        call_ensures(OverlayBuilder::<H>::build, (b, noop), e),
        b.backdrop != BackdropMode::Dismiss,
    ensures
        e matches Node::Portal { children: layers, .. } && {
            &&& b.backdrop == BackdropMode::Opaque ==> layers@.len() == 2
                && (layers@[0] matches Node::Pressable { on_click, .. } && on_click == noop)
            &&& b.backdrop == BackdropMode::Off ==> layers@.len() == 1 && layers@[0] == (Node::View { children: b.children })
        },
{
}

} // verus!
