//! Colours, as the painter stores them.

use egui::Color32;
use vstd::prelude::*;

verus! {

/// A colour whose red, green and blue are already scaled by its opacity `a`.
#[derive(Clone, Copy, PartialEq, Eq, Structural, Debug)]
pub struct Rgba {
    pub r: u8,
    pub g: u8,
    pub b: u8,
    pub a: u8,
}

impl Rgba {
    /// The opaque colour of three channels.
    pub open spec fn opaque(r: u8, g: u8, b: u8) -> Rgba {
        Rgba { r, g, b, a: 255 }
    }
}

/// The colour is one that `egui::Color32::from_rgba_unmultiplied` may give for the four
/// channels. It need not be the only one: the function goes through floating-point powers,
/// whose last digits the platform decides.
pub uninterp spec fn may_blend_to(r: u8, g: u8, b: u8, a: u8, color: Rgba) -> bool;

/// An opaque colour, by `egui::Color32::from_rgb`: it keeps the three channels as they
/// are and sets the opacity to 255.
#[verifier::external_body]
pub(crate) fn from_rgb(r: u8, g: u8, b: u8) -> (color: Rgba)
    ensures
        color == Rgba::opaque(r, g, b),
{
    let (r, g, b, a) = Color32::from_rgb(r, g, b).to_tuple();
    Rgba { r, g, b, a }
}

/// An opaque gray, by `egui::Color32::from_gray`: all three channels are the given level.
#[verifier::external_body]
pub(crate) fn from_gray(level: u8) -> (color: Rgba)
    ensures
        color == Rgba::opaque(level, level, level),
{
    let (r, g, b, a) = Color32::from_gray(level).to_tuple();
    Rgba { r, g, b, a }
}

/// A colour of the given opacity, by `egui::Color32::from_rgba_unmultiplied`: it keeps the
/// opacity, keeps the channels of an opaque colour, blackens those of an invisible one,
/// and leaves a channel that is zero at zero. What else becomes of a channel is left
/// unsaid, but for its being what the function may give for these arguments.
#[verifier::external_body]
pub(crate) fn from_rgba_unmultiplied(r: u8, g: u8, b: u8, a: u8) -> (color: Rgba)
    ensures
        may_blend_to(r, g, b, a, color),
        color.a == a,
        a == 255 ==> color == Rgba::opaque(r, g, b),
        a == 0 || r == 0 ==> color.r == 0,
        a == 0 || g == 0 ==> color.g == 0,
        a == 0 || b == 0 ==> color.b == 0,
{
    let (r, g, b, a) = Color32::from_rgba_unmultiplied(r, g, b, a).to_tuple();
    Rgba { r, g, b, a }
}

/// The colours that do not depend on what is shown.
#[derive(Clone, Copy, PartialEq, Eq, Structural, Debug)]
pub struct Palette {
    /// Text that has no colour of its own.
    pub text: Rgba,
    /// The panel behind the widgets.
    pub panel: Rgba,
    pub graph_fill: Rgba,
    pub graph_outline: Rgba,
    /// The glow behind the throttle under traction control.
    pub glow: Rgba,
    pub gear_fill: Rgba,
    pub gear_outline: Rgba,
    /// The resize grip.
    pub grip: Rgba,
}

impl Palette {
    /// The colours are those of the overlay.
    pub open spec fn genuine(self) -> bool {
        &&& self.text == Rgba::opaque(220, 225, 232)
        &&& may_blend_to(22, 26, 35, 230, self.panel) && self.panel.a == 230
        &&& may_blend_to(12, 14, 20, 240, self.graph_fill) && self.graph_fill.a == 240
        &&& may_blend_to(60, 70, 100, 80, self.graph_outline) && self.graph_outline.a == 80
        &&& may_blend_to(255, 200, 40, 50, self.glow) && self.glow.a == 50
        &&& may_blend_to(18, 22, 30, 230, self.gear_fill) && self.gear_fill.a == 230
        &&& may_blend_to(80, 90, 110, 80, self.gear_outline) && self.gear_outline.a == 80
        &&& may_blend_to(180, 180, 200, 160, self.grip) && self.grip.a == 160
    }
}

/// The colours of the overlay.
pub fn palette() -> (colors: Palette)
    ensures
        colors.genuine(),
{
    Palette {
        text: from_rgb(220, 225, 232),
        panel: from_rgba_unmultiplied(22, 26, 35, 230),
        graph_fill: from_rgba_unmultiplied(12, 14, 20, 240),
        graph_outline: from_rgba_unmultiplied(60, 70, 100, 80),
        glow: from_rgba_unmultiplied(255, 200, 40, 50),
        gear_fill: from_rgba_unmultiplied(18, 22, 30, 230),
        gear_outline: from_rgba_unmultiplied(80, 90, 110, 80),
        grip: from_rgba_unmultiplied(180, 180, 200, 160),
    }
}

} // verus!
