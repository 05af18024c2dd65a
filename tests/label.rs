use toast::label::{format_label, wrap_label};
use toast::{PreferredEdge, RectEdge};

const HEAD: &str = "<html><head><meta charset=\"utf-8\"/><style>body { font: caption; font-size: ";
const MID: &str = "px; text-align: center} p { display: inline-block }</style></head><body>";
const TAIL: &str = "</body></html>";

#[test]
fn label_wraps_fragment_with_font_size() {
    assert_eq!(wrap_label("<b>x</b>", 16), format!("{}16{}<b>x</b>{}", HEAD, MID, TAIL));
    assert_eq!(wrap_label("", 0), format!("{}0{}{}", HEAD, MID, TAIL));
    assert_eq!(wrap_label("y", 1234567), format!("{}1234567{}y{}", HEAD, MID, TAIL));
    assert_eq!(wrap_label("y", 10), format!("{}10{}y{}", HEAD, MID, TAIL));
}

#[test]
fn label_renders_markdown() {
    assert_eq!(format_label("hi", 16), format!("{}16{}<p>hi</p>{}", HEAD, MID, TAIL));
    assert_eq!(
        format_label("**bold** text", 12),
        format!("{}12{}<p><strong>bold</strong> text</p>{}", HEAD, MID, TAIL)
    );
}

#[test]
fn preferred_edges_map_to_rect_edges() {
    assert_eq!(PreferredEdge::TopLeft.to_rect_edge(), RectEdge::MinX);
    assert_eq!(PreferredEdge::TopRight.to_rect_edge(), RectEdge::MaxX);
    assert_eq!(PreferredEdge::BottomLeft.to_rect_edge(), RectEdge::MinY);
    assert_eq!(PreferredEdge::BottomRight.to_rect_edge(), RectEdge::MaxY);
}

