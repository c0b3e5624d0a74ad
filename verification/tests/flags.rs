use nyx::flags::{has_flag, iso_to_code, regional_letter, segments, segments_with, Seg};

fn codes(name: &str) -> Vec<String> {
    segments(name)
        .into_iter()
        .filter_map(|s| match s {
            Seg::Flag(c) => Some(c),
            Seg::Text(_) => None,
        })
        .collect()
}

#[test]
fn extracts_flags() {
    assert_eq!(codes("🇸🇪 Stockholm 01"), vec!["se"]);
    assert_eq!(codes("🇺🇸 US · 🇯🇵 JP"), vec!["us", "jp"]);
    assert!(codes("Direct").is_empty());
    assert!(has_flag("🇩🇪 Frankfurt"));
    assert!(!has_flag("auto-fallback"));
}

#[test]
fn text_pieces_around_flags() {
    let segs = segments("a🇸🇪b");
    assert_eq!(segs.len(), 3);
    assert!(matches!(&segs[0], Seg::Text(t) if t == "a"));
    assert!(matches!(&segs[1], Seg::Flag(c) if c == "se"));
    assert!(matches!(&segs[2], Seg::Text(t) if t == "b"));
}

#[test]
fn regional_letters_map_to_ascii() {
    assert_eq!(regional_letter('🇸'), Some('S'));
    assert_eq!(regional_letter('🇦'), Some('A'));
    assert_eq!(regional_letter('🇿'), Some('Z'));
    assert_eq!(regional_letter('S'), None);
}

#[test]
fn unshipped_code_is_empty() {
    assert_eq!(iso_to_code('S', 'E'), "se");
    assert_eq!(iso_to_code('Q', 'Q'), "");
}

#[test]
fn lone_indicator_stays_text() {
    assert!(codes("🇸 alone").is_empty());
    assert!(!has_flag("🇸 alone"));
}

#[test]
fn segments_follow_the_emoji_answers() {
    let segs = segments_with("🇸🇪x🇺🇸", &vec![false, false, false, true, false]);
    assert_eq!(segs.len(), 2);
    assert!(matches!(&segs[0], Seg::Text(t) if t == "🇸🇪x"));
    assert!(matches!(&segs[1], Seg::Flag(c) if c == "us"));
    let none = segments_with("🇸🇪", &vec![]);
    assert_eq!(none.len(), 1);
    assert!(matches!(&none[0], Seg::Text(t) if t == "🇸🇪"));
}
