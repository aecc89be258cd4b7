use regex::{Regex, RegexBuilder};
use tinytools::cat::cat_annotate;
use tinytools::comm::{comm, str_cmp};
use tinytools::find::{entry_matches, EntryType};
use tinytools::fortune::{pick_fortune, split_fortunes, Fortune};
use tinytools::grep::find_lines;
use tinytools::head::{head_bytes, head_lines};
use tinytools::ls::{format_mode, is_hidden};
use tinytools::text::join_with;
use tinytools::uniq::uniq_counts;
use tinytools::wc::{count, FileInfo};

#[test]
fn test_count() {
    let text = "I don't want the world. I just want your haln.\n";
    let info = count(text);
    let expected = FileInfo {
        num_lines: 1,
        num_words: 10,
        num_chars: 47,
        num_bytes: 47,
    };
    assert_eq!(info, expected);
}

#[test]
fn test_count_edges() {
    let empty = count("");
    assert_eq!(
        empty,
        FileInfo { num_lines: 0, num_words: 0, num_bytes: 0, num_chars: 0 }
    );
    // A final line without a newline still counts; bytes differ from chars
    // on multi-byte characters.
    let info = count("á b\ncd");
    assert_eq!(
        info,
        FileInfo { num_lines: 2, num_words: 3, num_bytes: 7, num_chars: 6 }
    );
}

#[test]
fn test_find_lines() {
    let lines = vec![
        "Lorem\n".to_string(),
        "Ipsum\r\n".to_string(),
        "DOLOR".to_string(),
    ];
    // The pattern _or_ should match the one line, "Lorem"
    let re1 = Regex::new("or").unwrap();
    let matches = find_lines(&lines, &re1, false);
    assert_eq!(matches.len(), 1);
    // When inverted, the function should match the other two lines
    let matches = find_lines(&lines, &re1, true);
    assert_eq!(matches.len(), 2);
    // This regex will be case-insensitive
    let re2 = RegexBuilder::new("or").case_insensitive(true).build().unwrap();
    // The two lines "Lorem" and "DOLOR" should match
    let matches = find_lines(&lines, &re2, false);
    assert_eq!(matches.len(), 2);
    // When inverted, the one remaining line should match
    let matches = find_lines(&lines, &re2, true);
    assert_eq!(matches.len(), 1);
}

#[test]
fn test_find_lines_content() {
    let lines = vec!["Lorem\n".to_string(), "DOLOR".to_string()];
    let re = Regex::new("or").unwrap();
    assert_eq!(find_lines(&lines, &re, false), vec!["Lorem\n".to_string()]);
    assert_eq!(find_lines(&lines, &re, true), vec!["DOLOR".to_string()]);
}

#[test]
fn test_pick_fortune() {
    // Create a slice of fortunes
    let fortunes = &[
        Fortune {
            source: "fortunes".to_string(),
            text: "You cannot achieve the impossible without \
attempting the absurd."
                .to_string(),
        },
        Fortune {
            source: "fortunes".to_string(),
            text: "Assumption is the mother of all screw-ups.".to_string(),
        },
        Fortune {
            source: "fortunes".to_string(),
            text: "Neckties strangle clear thinking.".to_string(),
        },
    ];
    // Pick a fortune with a seed
    assert_eq!(
        pick_fortune(fortunes, Some(1)).unwrap(),
        "Neckties strangle clear thinking.".to_string()
    );
}

#[test]
fn test_pick_fortune_empty() {
    let fortunes: Vec<Fortune> = Vec::new();
    assert_eq!(pick_fortune(&fortunes, Some(1)), None);
}

#[test]
fn test_split_fortunes() {
    // The final "%\n" leaves a segment of one newline, which is dropped.
    let contents = "Q. One?\nA. Yes.\n%\nQ. Two?\nA. No.\n%\n";
    let fortunes = split_fortunes("jokes", contents);
    assert_eq!(fortunes.len(), 2);
    assert_eq!(fortunes[0].text, "Q. One?\nA. Yes.");
    assert_eq!(fortunes[0].source, "jokes");
    assert_eq!(fortunes[1].text, "Q. Two?\nA. No.");
}

#[test]
fn test_format_mode() {
    assert_eq!(format_mode(0o755), "rwxr-xr-x");
    assert_eq!(format_mode(0o421), "r---w---x");
}

#[test]
fn test_format_mode_edges() {
    assert_eq!(format_mode(0), "---------");
    assert_eq!(format_mode(0o777), "rwxrwxrwx");
}

#[test]
fn test_is_hidden() {
    assert!(is_hidden(".hidden"));
    assert!(!is_hidden("plain.txt"));
    assert!(!is_hidden(""));
}

#[test]
fn test_uniq_counts() {
    let lines = vec!["a\n".to_string(), "a\n".to_string(), "b\n".to_string()];
    assert_eq!(
        uniq_counts(&lines),
        vec![(2, "a\n".to_string()), (1, "b\n".to_string())]
    );
    // Lines match once trailing white space is ignored, and the first line
    // of each group is the one kept.
    let lines = vec!["a \n".to_string(), "a\n".to_string(), "a".to_string()];
    assert_eq!(uniq_counts(&lines), vec![(3, "a \n".to_string())]);
    let none: Vec<(usize, String)> = Vec::new();
    let empty: Vec<String> = Vec::new();
    assert_eq!(uniq_counts(&empty), none);
}

#[test]
fn test_comm() {
    let a = vec!["a".to_string(), "c".to_string()];
    let b = vec!["b".to_string(), "c".to_string()];
    assert_eq!(
        comm(&a, &b),
        vec![
            (1, "a".to_string()),
            (2, "b".to_string()),
            (3, "c".to_string()),
        ]
    );
    let empty: Vec<String> = Vec::new();
    assert_eq!(comm(&a, &empty), vec![(1, "a".to_string()), (1, "c".to_string())]);
}

#[test]
fn test_str_cmp() {
    assert_eq!(str_cmp("a", "b"), -1);
    assert_eq!(str_cmp("b", "a"), 1);
    assert_eq!(str_cmp("a", "a"), 0);
    assert_eq!(str_cmp("a", "ab"), -1);
    assert_eq!(str_cmp("ab", "a"), 1);
    assert_eq!(str_cmp("", ""), 0);
}

#[test]
fn test_cat_annotate() {
    let lines = vec!["hello".to_string(), "".to_string(), "world".to_string()];
    assert_eq!(
        cat_annotate(&lines, true, false),
        vec![
            "     1\thello".to_string(),
            "     2\t".to_string(),
            "     3\tworld".to_string(),
        ]
    );
    assert_eq!(
        cat_annotate(&lines, false, true),
        vec![
            "     1\thello".to_string(),
            "".to_string(),
            "     2\tworld".to_string(),
        ]
    );
    assert_eq!(cat_annotate(&lines, false, false), lines);
}

#[test]
fn test_head_lines() {
    assert_eq!(head_lines("a\nb\nc\n", 2), "a\nb\n");
    assert_eq!(head_lines("a\nb\nc\n", 10), "a\nb\nc\n");
    assert_eq!(head_lines("abc", 1), "abc");
    assert_eq!(head_lines("abc", 0), "");
    assert_eq!(head_lines("", 3), "");
}

#[test]
fn test_head_bytes() {
    let bytes = "ábc".as_bytes().to_vec();
    assert_eq!(head_bytes(&bytes, 1), "�");
    assert_eq!(head_bytes(&bytes, 2), "á");
    assert_eq!(head_bytes(&bytes, 10), "ábc");
    assert_eq!(head_bytes(&bytes, 0), "");
}

#[test]
fn test_entry_matches() {
    let no_filter: Vec<EntryType> = Vec::new();
    assert!(entry_matches(&no_filter, false, false, false));
    let files_only = vec![EntryType::F];
    assert!(entry_matches(&files_only, true, false, false));
    assert!(!entry_matches(&files_only, true, false, true));
    assert!(!entry_matches(&files_only, false, true, false));
    let dirs_or_links = vec![EntryType::D, EntryType::L];
    assert!(entry_matches(&dirs_or_links, false, true, false));
    assert!(entry_matches(&dirs_or_links, false, false, true));
    assert!(!entry_matches(&dirs_or_links, true, false, false));
}

#[test]
fn test_join_with() {
    let parts = vec!["a".to_string(), "b".to_string(), "c".to_string()];
    assert_eq!(join_with(&parts, ", "), "a, b, c");
    assert_eq!(join_with(&parts, ""), "abc");
    let one = vec!["a".to_string()];
    assert_eq!(join_with(&one, ","), "a");
    let none: Vec<String> = Vec::new();
    assert_eq!(join_with(&none, ","), "");
}
