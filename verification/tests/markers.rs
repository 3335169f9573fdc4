use segment_display::color::Rgb565;
use segment_display::geometry::Point;
use segment_display::geometry::Rect;
use segment_display::geometry::Size;
use segment_display::markers::corner_markers;
use segment_display::markers::MARKER_SIDE;
use segment_display::surface::Fill;

fn marker(x: i32, y: i32, color: Rgb565) -> Fill {
    Fill { area: Rect::new(Point::new(x, y), Size::new(20, 20)), color }
}

#[test]
fn corner_markers_of_a_landscape_panel() {
    assert_eq!(MARKER_SIDE, 20);
    assert_eq!(
        corner_markers(Size::new(320, 172)),
        [
            marker(0, 0, Rgb565::new(0, 63, 0)),
            marker(300, 0, Rgb565::new(0, 0, 31)),
            marker(0, 152, Rgb565::new(31, 63, 0)),
            marker(300, 152, Rgb565::new(31, 0, 31)),
        ]
    );
}

#[test]
fn corner_markers_of_a_panel_smaller_than_a_marker() {
    let markers = corner_markers(Size::new(8, 0));
    assert_eq!(markers[0].area.top_left, Point::new(0, 0));
    assert_eq!(markers[1].area.top_left, Point::new(-12, 0));
    assert_eq!(markers[2].area.top_left, Point::new(0, -20));
    assert_eq!(markers[3].area.top_left, Point::new(-12, -20));
}

#[test]
fn corner_markers_of_the_largest_panel() {
    let markers = corner_markers(Size::new(i32::MAX as u32, i32::MAX as u32));
    assert_eq!(markers[3].area.top_left, Point::new(i32::MAX - 20, i32::MAX - 20));
}
