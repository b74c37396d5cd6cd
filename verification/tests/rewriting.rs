use rust_macros_analyzer::clear_cfg::Range;
use rust_macros_analyzer::rewrite::{
    check_ranges, remove_file_ranges, remove_ranges, strip_blank_lines, try_remove_ranges,
    RewriteError,
};

#[test]
fn ranges_are_deleted_from_the_last_to_the_first() {
    let text = "AAxxxBBBByyyyCC";
    let ranges = [Range(2, 5), Range(9, 13)];
    let out = remove_ranges(text.as_bytes(), &ranges);
    assert_eq!(out, b"AABBBBCC".to_vec());
    // Deleting front to back on the offsets of the unedited text would cut
    // the second range three bytes too far to the right.
    let mut stale = text.as_bytes().to_vec();
    stale.drain(2..5);
    stale.drain(9..12.min(stale.len()));
    assert_ne!(out, stale);
}

#[test]
fn half_open_ranges_keep_their_end() {
    let text = "AA[xxx]BBBB[yyyy]CC";
    let out = remove_ranges(text.as_bytes(), &[Range(2, 5), Range(10, 14)]);
    assert_eq!(out, b"AAx]BBByy]CC".to_vec());
    let out = remove_ranges(text.as_bytes(), &[Range(2, 7), Range(11, 17)]);
    assert_eq!(out, b"AABBBBCC".to_vec());
}

#[test]
fn edge_ranges() {
    assert_eq!(remove_ranges(b"hello", &[]), b"hello".to_vec());
    assert_eq!(remove_ranges(b"hello", &[Range(0, 5)]), Vec::<u8>::new());
    assert_eq!(remove_ranges(b"hello", &[Range(0, 1), Range(4, 5)]), b"ell".to_vec());
    assert_eq!(remove_ranges(b"hello", &[Range(2, 2)]), b"hello".to_vec());
    assert_eq!(remove_ranges(b"hello", &[Range(1, 2), Range(2, 3)]), b"hlo".to_vec());
    assert_eq!(remove_ranges(b"", &[]), Vec::<u8>::new());
}

#[test]
fn ranges_must_be_ordered_and_inside_the_text() {
    assert!(check_ranges(&[], 0));
    assert!(check_ranges(&[Range(0, 2), Range(2, 4)], 4));
    assert!(!check_ranges(&[Range(0, 5)], 4));
    assert!(!check_ranges(&[Range(3, 2)], 4));
    assert!(!check_ranges(&[Range(0, 3), Range(2, 4)], 4));
    assert!(!check_ranges(&[Range(2, 4), Range(0, 1)], 4));
    assert_eq!(try_remove_ranges(b"abcd", &[Range(2, 4), Range(0, 1)]), Some(b"b".to_vec()));
    assert_eq!(try_remove_ranges(b"abcd", &[Range(0, 1), Range(2, 4)]), Some(b"b".to_vec()));
    assert_eq!(try_remove_ranges(b"abcd", &[Range(0, 3), Range(2, 4)]), None);
    assert_eq!(try_remove_ranges(b"abcd", &[Range(2, 4), Range(0, 3)]), None);
    assert_eq!(try_remove_ranges(b"abcd", &[Range(1, 2), Range(1, 2)]), None);
    assert_eq!(try_remove_ranges(b"abcd", &[Range(0, 5)]), None);
    assert_eq!(try_remove_ranges(b"abcd", &[Range(3, 2)]), None);
    assert_eq!(try_remove_ranges(b"abcd", &[Range(2, 2), Range(2, 4), Range(2, 2)]), Some(b"ab".to_vec()));
}

#[test]
fn blank_lines_are_dropped() {
    assert_eq!(strip_blank_lines("a\n\nb\n"), "a\nb");
    assert_eq!(strip_blank_lines("a\n   \n\t\nb"), "a\nb");
    assert_eq!(strip_blank_lines("  a  \n b"), "  a  \n b");
    assert_eq!(strip_blank_lines(""), "");
    assert_eq!(strip_blank_lines("\n\n\n"), "");
    assert_eq!(strip_blank_lines("only"), "only");
    assert_eq!(strip_blank_lines("\nx"), "x");
    assert_eq!(strip_blank_lines("a\r\n\r\nb"), "a\r\nb");
}

#[test]
fn unicode_white_space_makes_a_line_blank() {
    assert_eq!(strip_blank_lines("a\n\u{a0}\u{3000}\nb"), "a\nb");
    assert_eq!(strip_blank_lines("é\n\u{2003}\nü"), "é\nü");
    assert_eq!(strip_blank_lines("a\n\u{200b}\nb"), "a\n\u{200b}\nb");
}

#[test]
fn white_space_is_the_unicode_property() {
    let white = |c: char| {
        let code = c as u32;
        (0x09..=0x0d).contains(&code)
            || [0x20, 0x85, 0xa0, 0x1680, 0x2028, 0x2029, 0x202f, 0x205f, 0x3000].contains(&code)
            || (0x2000..=0x200a).contains(&code)
    };
    let mut line = String::new();
    for code in 0..=0x10ffffu32 {
        if let Some(c) = char::from_u32(code) {
            line.clear();
            line.push('a');
            line.push('\n');
            line.push(c);
            let expected = if white(c) { "a".to_string() } else { line.clone() };
            assert_eq!(strip_blank_lines(&line), expected, "at {:#x}", code);
        }
    }
}

#[test]
fn stripping_agrees_with_split_trim_and_join() {
    let samples = ["", "a", "a\n", "\na", " \n \n", "x\n\ny\n \nz", "fn f() {\n\n    1\n}\n"];
    for text in samples {
        let mut lines: Vec<&str> = text.split('\n').collect();
        lines.retain(|line| !line.trim().is_empty());
        assert_eq!(strip_blank_lines(text), lines.join("\n"));
    }
}

#[test]
fn a_file_is_rewritten() {
    let text = "#[cfg(x)]\nfn a() {}\n\nfn b() {}\n";
    let out = remove_file_ranges(text, &[Range(0, 9), Range(10, 19)]);
    assert_eq!(out, Ok("fn b() {}".to_string()));
}

#[test]
fn ranges_are_deleted_whatever_the_order_of_the_list() {
    let text = "AAxxxBBBBByyyyCC";
    let descending = [Range(10, 14), Range(2, 5)];
    let ascending = [Range(2, 5), Range(10, 14)];
    assert_eq!(remove_file_ranges(text, &descending), Ok("AABBBBBCC".to_string()));
    assert_eq!(remove_file_ranges(text, &ascending), Ok("AABBBBBCC".to_string()));
    assert_eq!(remove_ranges(text.as_bytes(), &descending), b"AABBBBBCC".to_vec());
    let mixed = [Range(5, 6), Range(14, 16), Range(0, 2), Range(10, 14)];
    assert_eq!(remove_file_ranges(text, &mixed), Ok("xxxBBBB".to_string()));
    assert_eq!(remove_file_ranges("abc", &[Range(1, 2), Range(0, 1)]), Ok("c".to_string()));
}

#[test]
fn rewriting_reports_bad_ranges() {
    assert_eq!(remove_file_ranges("abc", &[Range(0, 4)]), Err(RewriteError::InvalidRanges));
    assert_eq!(remove_file_ranges("abc", &[Range(2, 1)]), Err(RewriteError::InvalidRanges));
    assert_eq!(
        remove_file_ranges("abc", &[Range(1, 3), Range(0, 2)]),
        Err(RewriteError::InvalidRanges)
    );
    assert_eq!(
        remove_file_ranges("abc", &[Range(0, 1), Range(0, 1)]),
        Err(RewriteError::InvalidRanges)
    );
}

#[test]
fn rewriting_reports_a_character_cut_in_two() {
    // "é" is two bytes long.
    assert_eq!(remove_file_ranges("aéb", &[Range(1, 2)]), Err(RewriteError::NotUtf8));
    assert_eq!(remove_file_ranges("aéb", &[Range(1, 3)]), Ok("ab".to_string()));
}
