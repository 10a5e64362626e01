use timers::format_decimal;
use timers::Renderer;

#[test]
fn test_format_decimal() {
    assert_eq!(format_decimal(0), "0");
    assert_eq!(format_decimal(7), "7");
    assert_eq!(format_decimal(10), "10");
    assert_eq!(format_decimal(3600), "3600");
    assert_eq!(format_decimal(usize::MAX), usize::MAX.to_string());
}

#[test]
fn test_renderer_draws_large_glyphs() {
    let renderer = Renderer::standard().unwrap();
    let glyphs = renderer.render_seconds(5).unwrap();
    // large glyph text, not the plain digit handed to the font
    assert_ne!(glyphs, "5");
    assert!(glyphs.contains('\n'));
    assert!(glyphs.len() > 1);
}

#[test]
fn test_renderer_output_depends_on_count() {
    let renderer = Renderer::standard().unwrap();
    let five = renderer.render_seconds(5).unwrap();
    let four = renderer.render_seconds(4).unwrap();
    assert_ne!(five, four);
    let five_again = renderer.render_seconds(5).unwrap();
    assert_eq!(five, five_again);
}
