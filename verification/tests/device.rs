use pdf_link::device::{
    device_info, get_device_info, get_device_name, get_or_create_device_id, read_device_id, settle_device_id,
};

fn looks_like_a_random_uuid(id: &str) -> bool {
    let hyphens = [8, 13, 18, 23];
    id.len() == 36
        && id.chars().enumerate().all(|(i, c)| {
            if hyphens.contains(&i) {
                c == '-'
            } else {
                c.is_ascii_digit() || ('a'..='f').contains(&c)
            }
        })
        && &id[14..15] == "4"
        && ["8", "9", "a", "b"].contains(&&id[19..20])
}

#[test]
fn a_kept_id_is_trimmed_and_kept() {
    let id = get_or_create_device_id(Some("  tablet-7\r\n"));
    assert_eq!(id.id, "tablet-7");
    assert!(!id.fresh);
}

#[test]
fn a_missing_or_blank_id_is_replaced() {
    for file in [None, Some(""), Some(" \t\n"), Some("\u{3000}\u{a0}")] {
        let id = get_or_create_device_id(file);
        assert!(id.fresh);
        assert!(looks_like_a_random_uuid(&id.id), "{}", id.id);
    }
}

#[test]
fn new_ids_differ() {
    assert_ne!(get_or_create_device_id(None).id, get_or_create_device_id(None).id);
}

#[test]
fn a_new_id_is_found_again() {
    let first = get_or_create_device_id(None);
    let second = get_or_create_device_id(Some(&first.id));
    assert_eq!(second.id, first.id);
    assert!(!second.fresh);
}

#[test]
fn ids_are_read_and_settled() {
    assert_eq!(read_device_id(None), None);
    assert_eq!(read_device_id(Some(" \n")), None);
    assert_eq!(read_device_id(Some(" a b ")), Some("a b".to_string()));
    let kept = settle_device_id(Some("a".to_string()), "b".to_string());
    assert_eq!((kept.id.as_str(), kept.fresh), ("a", false));
    let new = settle_device_id(None, "b".to_string());
    assert_eq!((new.id.as_str(), new.fresh), ("b", true));
}

#[test]
fn names_are_trimmed() {
    assert_eq!(get_device_name(None), "");
    assert_eq!(get_device_name(Some("")), "");
    assert_eq!(get_device_name(Some("\n 会议室 2 \n")), "会议室 2");
    assert_eq!(get_device_name(Some("\u{3000}a\u{2028}")), "a");
}

#[test]
fn a_saved_name_is_found_and_stays() {
    let once = get_device_name(Some("  Room 5\t"));
    assert_eq!(once, "Room 5");
    assert_eq!(get_device_name(Some(&once)), once);
}

#[test]
fn white_space_is_what_unicode_says() {
    let white_space = [
        '\u{9}', '\u{a}', '\u{b}', '\u{c}', '\u{d}', '\u{20}', '\u{85}', '\u{a0}', '\u{1680}', '\u{2000}', '\u{2001}',
        '\u{2002}', '\u{2003}', '\u{2004}', '\u{2005}', '\u{2006}', '\u{2007}', '\u{2008}', '\u{2009}', '\u{200a}',
        '\u{2028}', '\u{2029}', '\u{202f}', '\u{205f}', '\u{3000}',
    ];
    for c in '\u{0}'..='\u{10ffff}' {
        let text = format!("{}x{}", c, c);
        let expected = if white_space.contains(&c) { "x" } else { text.as_str() };
        assert_eq!(get_device_name(Some(&text)), expected);
    }
}

#[test]
fn the_device_is_described() {
    let (info, fresh) = get_device_info(Some("id-1\n"), Some(" Room 5 "));
    assert_eq!(info.device_id, "id-1");
    assert_eq!(info.device_name, "Room 5");
    assert_eq!(info.attachment_info, "PDF联动演示附件-001");
    assert!(!fresh);
    let (info, fresh) = get_device_info(None, None);
    assert!(looks_like_a_random_uuid(&info.device_id));
    assert_eq!(info.device_name, "");
    assert!(fresh);
    let info = device_info("x".to_string(), Some("y"));
    assert_eq!((info.device_id.as_str(), info.device_name.as_str()), ("x", "y"));
}
