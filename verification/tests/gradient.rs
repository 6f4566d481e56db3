use blockmodel::gradient::{Gradient, GradientStop, Rgb};
use blockmodel::render::pack_rgba;

fn stop(position: i64, r: u8, g: u8, b: u8) -> GradientStop {
    GradientStop { position, color: Rgb { r, g, b } }
}

#[test]
fn gradient_rejects_malformed_stops() {
    assert!(Gradient::new(vec![]).is_none());
    assert!(Gradient::new(vec![stop(10, 0, 0, 0), stop(10, 1, 1, 1)]).is_none());
    assert!(Gradient::new(vec![stop(10, 0, 0, 0), stop(5, 1, 1, 1)]).is_none());
    assert!(Gradient::new(vec![stop(2_000_000_000_000_000, 0, 0, 0)]).is_none());
    assert!(Gradient::new(vec![stop(0, 0, 0, 0)]).is_some());
}

#[test]
fn gradient_reports_its_domain() {
    let g = Gradient::new(vec![stop(-50, 0, 0, 0), stop(0, 9, 9, 9), stop(150, 1, 1, 1)]).unwrap();
    assert_eq!(g.domain(), (-50, 150));
}

#[test]
fn sampling_interpolates_midpoints_exactly() {
    let g = Gradient::new(vec![stop(0, 0, 0, 0), stop(10, 100, 60, 20)]).unwrap();
    assert_eq!(g.sample(0), Rgb { r: 0, g: 0, b: 0 });
    assert_eq!(g.sample(5), Rgb { r: 50, g: 30, b: 10 });
    assert_eq!(g.sample(10), Rgb { r: 100, g: 60, b: 20 });
    assert_eq!(g.sample(3), Rgb { r: 30, g: 18, b: 6 });
}

#[test]
fn sampling_handles_descending_channels() {
    let g = Gradient::new(vec![stop(0, 100, 0, 200), stop(10, 0, 50, 100)]).unwrap();
    assert_eq!(g.sample(5), Rgb { r: 50, g: 25, b: 150 });
}

#[test]
fn sampling_clamps_outside_the_domain() {
    let g = Gradient::new(vec![stop(0, 10, 10, 10), stop(10, 90, 90, 90)]).unwrap();
    assert_eq!(g.sample(-100), Rgb { r: 10, g: 10, b: 10 });
    assert_eq!(g.sample(100), Rgb { r: 90, g: 90, b: 90 });
}

#[test]
fn sampling_picks_the_right_segment() {
    let g = Gradient::new(vec![
        stop(0, 0, 0, 0),
        stop(10, 100, 100, 100),
        stop(30, 200, 200, 200),
    ])
    .unwrap();
    assert_eq!(g.sample(5), Rgb { r: 50, g: 50, b: 50 });
    assert_eq!(g.sample(10), Rgb { r: 100, g: 100, b: 100 });
    assert_eq!(g.sample(20), Rgb { r: 150, g: 150, b: 150 });
}

#[test]
fn color_for_maps_the_attribute_domain_onto_the_gradient() {
    let g = Gradient::new(vec![stop(0, 0, 0, 0), stop(100, 200, 100, 50)]).unwrap();
    assert_eq!(g.color_for(5, 5, 15), g.sample(0));
    assert_eq!(g.color_for(15, 5, 15), g.sample(100));
    assert_eq!(g.color_for(10, 5, 15), g.sample(50));
}

#[test]
fn color_for_collapsed_domain_uses_the_domain_minimum() {
    let g = Gradient::new(vec![stop(-20, 3, 2, 1), stop(100, 200, 100, 50)]).unwrap();
    assert_eq!(g.color_for(7, 7, 7), Rgb { r: 3, g: 2, b: 1 });
}

#[test]
fn color_for_remaps_into_shifted_domains() {
    let g = Gradient::new(vec![stop(100, 0, 0, 0), stop(200, 80, 80, 80)]).unwrap();
    assert_eq!(g.color_for(0, 0, 10), g.sample(100));
    assert_eq!(g.color_for(10, 0, 10), g.sample(200));
    assert_eq!(g.color_for(5, 0, 10), g.sample(150));
}

#[test]
fn packed_colors_have_full_alpha() {
    assert_eq!(pack_rgba(Rgb { r: 0, g: 0, b: 0 }), 0xFF00_0000);
    assert_eq!(pack_rgba(Rgb { r: 1, g: 2, b: 3 }), 1 + 2 * 256 + 3 * 65536 + 0xFF00_0000);
    assert_eq!(pack_rgba(Rgb { r: 255, g: 255, b: 255 }), u32::MAX);
}
