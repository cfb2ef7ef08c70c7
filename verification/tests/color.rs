use egui::Color32;
use racing_pedal_overlay::color::palette;
use racing_pedal_overlay::color::Rgba;

fn rgba(color: Color32) -> Rgba {
    let (r, g, b, a) = color.to_tuple();
    Rgba { r, g, b, a }
}

#[test]
fn palette_holds_the_painters_colors() {
    let colors = palette();
    assert_eq!(colors.text, rgba(Color32::from_rgb(220, 225, 232)));
    assert_eq!(colors.panel, rgba(Color32::from_rgba_unmultiplied(22, 26, 35, 230)));
    assert_eq!(colors.graph_fill, rgba(Color32::from_rgba_unmultiplied(12, 14, 20, 240)));
    assert_eq!(colors.graph_outline, rgba(Color32::from_rgba_unmultiplied(60, 70, 100, 80)));
    assert_eq!(colors.glow, rgba(Color32::from_rgba_unmultiplied(255, 200, 40, 50)));
    assert_eq!(colors.gear_fill, rgba(Color32::from_rgba_unmultiplied(18, 22, 30, 230)));
    assert_eq!(colors.gear_outline, rgba(Color32::from_rgba_unmultiplied(80, 90, 110, 80)));
    assert_eq!(colors.grip, rgba(Color32::from_rgba_unmultiplied(180, 180, 200, 160)));
}

#[test]
fn translucent_colors_are_scaled_by_their_opacity() {
    let glow = palette().glow;
    assert_eq!(glow.a, 50);
    assert_ne!((glow.r, glow.g, glow.b), (255, 200, 40));
    assert!(glow.r < 255 && glow.g < 200 && glow.b < 40);
}
