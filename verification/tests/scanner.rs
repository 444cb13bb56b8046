use warn_marker::contains_warn;
use warn_marker::Scanner;

#[test]
fn test_no_warn() {
    assert!(!contains_warn("abcdefg"));
}

#[test]
fn has_warn() {
    assert!(contains_warn("awarng"));
}

#[test]
fn differnt_case_warn() {
    assert!(contains_warn("awARng"));
}

#[test]
fn suffix_warn() {
    assert!(contains_warn("awARn"));
}

#[test]
fn split_warn() {
    assert!(!contains_warn("wa#rn"));
}

#[test]
fn empty_text_has_no_marker() {
    assert!(!contains_warn(""));
}

#[test]
fn marker_alone_is_found() {
    assert!(contains_warn("warn"));
    assert!(contains_warn("WARN"));
}

#[test]
fn unfinished_marker_is_not_found() {
    assert!(!contains_warn("abcdwar"));
    assert!(!contains_warn("war"));
}

#[test]
fn letters_apart_are_no_occurrence() {
    assert!(!contains_warn("warbn"));
    assert!(!contains_warn("w a r n"));
}

#[test]
fn marker_after_its_own_first_letter_is_found() {
    assert!(contains_warn("wwarn"));
    assert!(contains_warn("wawarn"));
    assert!(contains_warn("warwarn"));
    assert!(contains_warn("WwArN"));
}

#[test]
fn only_ascii_case_is_folded() {
    assert!(!contains_warn("wa\u{1D5CB}n"));
    assert!(!contains_warn("\u{FF57}arn"));
}

#[test]
fn scanning_twice_gives_the_same_answer() {
    for text in ["", "warn", "aWarNa", "abcdwar", "wwarn", "warbn"] {
        assert_eq!(contains_warn(text), contains_warn(text));
    }
}

#[test]
fn scanner_finds_a_marker_across_fragments() {
    let mut scan = Scanner::new();
    scan.write_fragment("awa");
    assert!(!scan.found());
    scan.write_fragment("rna");
    assert!(scan.found());
    scan.write_fragment("more");
    assert!(scan.found());
}

#[test]
fn scanner_one_character_at_a_time() {
    let mut scan = Scanner::new();
    for piece in ["x", "W", "w", "a", "R", "n"] {
        assert!(!scan.found());
        scan.write_fragment(piece);
    }
    assert!(scan.found());
}

#[test]
fn scanner_without_input_finds_nothing() {
    let mut scan = Scanner::new();
    assert!(!scan.found());
    scan.write_fragment("");
    assert!(!scan.found());
}

#[test]
fn scanner_agrees_with_contains_warn_on_every_split() {
    for text in ["awarna", "wwarn", "abcdwar", "warbnwarn", "xxWARNxx"] {
        for cut in 0..=text.len() {
            let (left, right) = text.split_at(cut);
            let mut scan = Scanner::new();
            scan.write_fragment(left);
            scan.write_fragment(right);
            assert_eq!(scan.found(), contains_warn(text));
        }
    }
}
