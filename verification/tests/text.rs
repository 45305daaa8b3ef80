use agenda_generator::escape;
use agenda_generator::order::{comes_before, insert_sorted, sort_distinct};
use agenda_generator::text::{
    append_chars, append_int, append_joined, append_joined_texts, append_nat, append_trimmed,
    chars_of, contains_text, has_prefix, same_text, strip_prefix, trim_bounds,
};

fn strings(items: &[&str]) -> Vec<String> {
    items.iter().map(|s| s.to_string()).collect()
}

/// Takes out each backslash that is followed by a character, and keeps that
/// character.
fn strip_escapes(text: &str) -> String {
    let mut out = String::new();
    let mut chars = text.chars();
    while let Some(c) = chars.next() {
        if c == '\\' {
            match chars.next() {
                Some(next) => out.push(next),
                None => out.push(c),
            }
        } else {
            out.push(c);
        }
    }
    out
}

#[test]
fn escape_puts_a_backslash_before_each_markup_character() {
    assert_eq!(escape("_*\\[]-<>`"), "\\_\\*\\\\\\[\\]\\-\\<\\>\\`");
    assert_eq!(escape("Add `foo_bar` [WIP]"), "Add \\`foo\\_bar\\` \\[WIP\\]");
}

#[test]
fn escape_leaves_other_text_alone() {
    assert_eq!(escape(""), "");
    assert_eq!(escape("plain text, with (brackets) and #42!"), "plain text, with (brackets) and #42!");
    assert_eq!(escape("héllo wörld ✓"), "héllo wörld ✓");
}

#[test]
fn escape_round_trips() {
    let inputs = [
        "_ * \\ [ ] - < > `",
        "_*\\[]-<>`",
        "\\\\",
        "a\\_b",
        "Tracking Issue for `Vec::<T>::drain_filter` - [part 2]",
        "",
        "no markup at all",
    ];
    for input in inputs {
        assert_eq!(strip_escapes(&escape(input)), input);
    }
}

#[test]
fn escaped_text_grows_by_one_for_each_markup_character() {
    let input = "a_b*c-d";
    assert_eq!(escape(input).chars().count(), input.chars().count() + 3);
}

#[test]
fn decimal_of_naturals() {
    let mut out = String::from("n=");
    append_nat(&mut out, 0);
    assert_eq!(out, "n=0");
    let mut out = String::new();
    append_nat(&mut out, 7);
    append_nat(&mut out, 10);
    append_nat(&mut out, 90210);
    assert_eq!(out, "71090210");
    let mut out = String::new();
    append_nat(&mut out, u64::MAX);
    assert_eq!(out, "18446744073709551615");
}

#[test]
fn decimal_of_integers() {
    let mut out = String::new();
    append_int(&mut out, -1);
    assert_eq!(out, "-1");
    let mut out = String::new();
    append_int(&mut out, 0);
    assert_eq!(out, "0");
    let mut out = String::new();
    append_int(&mut out, 12345);
    assert_eq!(out, "12345");
    let mut out = String::new();
    append_int(&mut out, i64::MIN);
    assert_eq!(out, "-9223372036854775808");
    let mut out = String::new();
    append_int(&mut out, i32::MIN as i64);
    assert_eq!(out, "-2147483648");
}

#[test]
fn chars_and_ranges() {
    let v = chars_of("héllo");
    assert_eq!(v, vec!['h', 'é', 'l', 'l', 'o']);
    let mut out = String::from(">");
    append_chars(&mut out, &v, 1, 4);
    assert_eq!(out, ">éll");
    append_chars(&mut out, &v, 2, 2);
    assert_eq!(out, ">éll");
}

#[test]
fn trimming_takes_white_space_from_both_ends_only() {
    let mut out = String::from("[");
    append_trimmed(&mut out, "  \t two words \n");
    out.push(']');
    assert_eq!(out, "[two words]");
    let mut out = String::new();
    append_trimmed(&mut out, " \n\t ");
    assert_eq!(out, "");
    let mut out = String::new();
    append_trimmed(&mut out, "");
    assert_eq!(out, "");
    let mut out = String::new();
    append_trimmed(&mut out, "\u{a0}\u{3000}x y\u{2003}");
    assert_eq!(out, "x y");
    let mut out = String::new();
    append_trimmed(&mut out, "untouched");
    assert_eq!(out, "untouched");
}

#[test]
fn trimming_agrees_with_std() {
    for input in ["  a  ", "\u{85}b\u{85}", " \u{200b} ", "c\r\n", "\u{1680}d e\u{205f}"] {
        let mut out = String::new();
        append_trimmed(&mut out, input);
        assert_eq!(out, input.trim());
    }
}

#[test]
fn same_text_compares_by_characters() {
    assert!(same_text("", ""));
    assert!(same_text("abc", "abc"));
    assert!(!same_text("abc", "abd"));
    assert!(!same_text("abc", "ab"));
    assert!(!same_text("ab", "abc"));
}

#[test]
fn prefixes() {
    assert!(has_prefix("P-high", "P-"));
    assert!(has_prefix("P-", "P-"));
    assert!(has_prefix("anything", ""));
    assert!(!has_prefix("p-high", "P-"));
    assert!(!has_prefix("P", "P-"));
    assert!(!has_prefix("", "P-"));
    assert_eq!(strip_prefix("disposition-merge", "disposition-"), Some("merge".to_string()));
    assert_eq!(strip_prefix("disposition-", "disposition-"), Some(String::new()));
    assert_eq!(strip_prefix("dispositionmerge", "disposition-"), None);
    assert_eq!(strip_prefix("x", "disposition-"), None);
}

#[test]
fn contains_text_finds_whole_items_only() {
    let labels = strings(&["T-libs", "I-nominated"]);
    assert!(contains_text(&labels, "T-libs"));
    assert!(contains_text(&labels, "I-nominated"));
    assert!(!contains_text(&labels, "T-libs-api"));
    assert!(!contains_text(&labels, "T-lib"));
    assert!(!contains_text(&Vec::new(), "T-libs"));
}

#[test]
fn joining_puts_the_separator_between_neighbours() {
    let mut out = String::from("labels=");
    append_joined(&mut out, &["a", "b", "c"], ",");
    assert_eq!(out, "labels=a,b,c");
    let mut out = String::new();
    append_joined(&mut out, &["only"], "` `");
    assert_eq!(out, "only");
    let mut out = String::new();
    append_joined(&mut out, &[], ",");
    assert_eq!(out, "");
    let mut out = String::new();
    append_joined(&mut out, &["", "", ""], "+");
    assert_eq!(out, "++");
    let mut out = String::new();
    append_joined_texts(&mut out, &strings(&["x", "y"]), ", ");
    assert_eq!(out, "x, y");
    let mut out = String::new();
    append_joined_texts(&mut out, &Vec::new(), ", ");
    assert_eq!(out, "");
}

#[test]
fn order_of_texts() {
    assert!(comes_before("", "a"));
    assert!(!comes_before("", ""));
    assert!(!comes_before("a", ""));
    assert!(comes_before("a", "b"));
    assert!(!comes_before("b", "a"));
    assert!(comes_before("ab", "abc"));
    assert!(!comes_before("abc", "ab"));
    assert!(comes_before("Zed", "alice"));
    assert!(comes_before("rust-lang/rfcs", "rust-lang/rust"));
    assert!(!comes_before("same", "same"));
}

#[test]
fn order_of_texts_agrees_with_std() {
    let items = ["", "a", "A", "ab", "b", "é", "z", "rust-lang/rust", "rust-lang/rfcs", "\u{10000}", "\u{ffff}"];
    for a in items {
        for b in items {
            assert_eq!(comes_before(a, b), a < b);
        }
    }
}

#[test]
fn sorting_orders_and_drops_repeats() {
    let sorted = sort_distinct(&strings(&["carol", "alice", "bob", "alice", "carol", "Bob"]));
    assert_eq!(sorted, strings(&["Bob", "alice", "bob", "carol"]));
    assert_eq!(sort_distinct(&Vec::new()), Vec::<String>::new());
    assert_eq!(sort_distinct(&strings(&["x", "x", "x"])), strings(&["x"]));
}

#[test]
fn sorting_does_not_depend_on_the_order_given() {
    let a = sort_distinct(&strings(&["r2", "r1", "r3", "r1"]));
    let b = sort_distinct(&strings(&["r3", "r3", "r2", "r1"]));
    assert_eq!(a, b);
    assert_eq!(a, strings(&["r1", "r2", "r3"]));
}

#[test]
fn insert_sorted_keeps_the_order() {
    let mut list = strings(&["b", "d"]);
    insert_sorted(&mut list, "c");
    assert_eq!(list, strings(&["b", "c", "d"]));
    insert_sorted(&mut list, "a");
    assert_eq!(list, strings(&["a", "b", "c", "d"]));
    insert_sorted(&mut list, "e");
    assert_eq!(list, strings(&["a", "b", "c", "d", "e"]));
    insert_sorted(&mut list, "c");
    assert_eq!(list, strings(&["a", "b", "c", "d", "e"]));
}

#[test]
fn trim_bounds_go_by_the_flags() {
    assert_eq!(trim_bounds(&vec![true, false, true]), (1, 2));
    assert_eq!(trim_bounds(&vec![false, true, true, false]), (0, 4));
    assert_eq!(trim_bounds(&vec![true, true, false, true, false, true, true]), (2, 5));
    assert_eq!(trim_bounds(&vec![false]), (0, 1));
    assert_eq!(trim_bounds(&vec![true, true, true]), (3, 3));
    assert_eq!(trim_bounds(&Vec::new()), (0, 0));
}

#[test]
fn white_space_is_the_unicode_property() {
    let listed = |c: char| {
        matches!(
            c,
            '\u{9}'..='\u{d}'
                | ' '
                | '\u{85}'
                | '\u{a0}'
                | '\u{1680}'
                | '\u{2000}'..='\u{200a}'
                | '\u{2028}'
                | '\u{2029}'
                | '\u{202f}'
                | '\u{205f}'
                | '\u{3000}'
        )
    };
    let mut count = 0;
    for code in 0..=0x10ffffu32 {
        if let Some(c) = char::from_u32(code) {
            let mut text = String::new();
            text.push(c);
            let mut out = String::new();
            append_trimmed(&mut out, &text);
            assert_eq!(out.is_empty(), listed(c), "U+{:04X}", code);
            if listed(c) {
                count += 1;
            }
        }
    }
    assert_eq!(count, 25);
}

#[test]
fn a_title_without_white_space_at_its_ends_stays() {
    for title in ["t", "Tracking issue", "a\tb", "x \u{a0} y", "é"] {
        let mut out = String::new();
        append_trimmed(&mut out, title);
        assert_eq!(out, title);
    }
}
