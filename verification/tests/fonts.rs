use naglfar::font::{is_breakable, Font, FontSlant, FontWeight};

fn font(size: i64) -> Font {
    Font::new(size, FontWeight::Normal, FontSlant::Normal)
}

fn chars(s: &str) -> Vec<char> {
    s.chars().collect()
}

#[test]
fn breakable_units() {
    assert!(is_breakable(' '));
    assert!(is_breakable('\t'));
    assert!(is_breakable('\n'));
    assert!(is_breakable('.'));
    assert!(is_breakable(','));
    assert!(is_breakable('-'));
    assert!(is_breakable('!'));
    assert!(!is_breakable('a'));
    assert!(!is_breakable('Z'));
    assert!(!is_breakable('0'));
}

#[test]
fn text_width_is_advance_times_units() {
    let f = font(20);
    let t = chars("hello");
    // One unit advances half the font size.
    assert_eq!(f.char_advance(), 10);
    assert_eq!(f.text_width(&t, 0, 5), 50);
    assert_eq!(f.text_width(&t, 1, 4), 30);
    assert_eq!(f.text_width(&t, 2, 2), 0);
}

#[test]
fn ascent_and_descent() {
    let f = font(20);
    let (ascent, descent) = f.get_ascent_descent();
    assert_eq!(descent, 4);
    assert_eq!(ascent, 16);
}

#[test]
fn line_metrics_model() {
    let f = font(20);
    // line height = size * 1.2, split by the half-leading rule.
    assert_eq!(f.line_height(), 24);
    assert_eq!(f.half_leading(), 2);
    assert_eq!(f.above_baseline(), 22);
}

#[test]
fn split_prefers_breakable_unit() {
    let f = font(20);
    // "aaaa aaaa": ten units fit 65 units of width only up to unit 6, and
    // the last breakable unit inside that prefix is the space at index 4.
    let t = chars("aaaa aaaa");
    assert_eq!(f.compute_max_chars(&t, 0, 9, 65), 5);
}

#[test]
fn split_without_breakable_takes_longest_fit() {
    let f = font(20);
    let t = chars("aaaaaaaa");
    assert_eq!(f.compute_max_chars(&t, 0, 8, 65), 6);
}

#[test]
fn split_always_advances_on_nonempty_runs() {
    let f = font(20);
    let t = chars("ab");
    // Even when not one unit fits, one is taken.
    assert_eq!(f.compute_max_chars(&t, 0, 2, 5), 1);
    // A negative budget takes nothing.
    assert_eq!(f.compute_max_chars(&t, 0, 2, -1), 0);
    // An empty run takes nothing.
    assert_eq!(f.compute_max_chars(&t, 1, 1, 100), 0);
}

#[test]
fn whole_run_fits() {
    let f = font(20);
    let t = chars("abcd");
    assert_eq!(f.compute_max_chars(&t, 0, 4, 40), 4);
}

#[test]
fn degenerate_font_has_no_extent() {
    // A negative size clamps every metric: neither ascent nor descent may
    // be negative.
    let f = font(-8);
    assert_eq!(f.get_ascent_descent(), (0, 0));
    assert_eq!(f.char_advance(), 0);
}

#[test]
fn unicode_whitespace_is_breakable() {
    assert!(is_breakable('\u{0b}'));
    assert!(is_breakable('\u{0c}'));
    assert!(is_breakable('\u{85}'));
    assert!(is_breakable('\u{a0}'));
    assert!(is_breakable('\u{2003}'));
    assert!(is_breakable('\u{202f}'));
    assert!(is_breakable('\u{3000}'));
    assert!(!is_breakable('\u{e9}'));
    assert!(!is_breakable('\u{3042}'));
}
