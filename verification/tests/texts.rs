use code_highlight::markup::has_span_balance;
use code_highlight::text::{count_of, without};

#[test]
fn every_occurrence_is_cut_out() {
    assert_eq!(without("a-b-c", "-"), "abc");
    assert_eq!(without("<span style=\"x\">t</span>", " style=\"x\""), "<span>t</span>");
    assert_eq!(without("xyxyxy", "xy"), "");
    assert_eq!(without("xy", "xyz"), "xy");
    assert_eq!(without("", "x"), "");
    assert_eq!(without("héllo wörld", "ö"), "héllo wrld");
    assert_eq!(without("héllo", "é"), "hllo");
}

#[test]
fn occurrences_are_found_from_the_left_without_overlap() {
    assert_eq!(without("aaa", "aa"), "a");
    assert_eq!(without("aaaa", "aa"), "");
    assert_eq!(without("ababa", "aba"), "ba");
}

#[test]
fn cutting_can_leave_a_new_occurrence() {
    assert_eq!(without("aabb", "ab"), "ab");
    assert_eq!(without(" sty style=\"color:#000000;\"le=\"color:#000000;\"", " style=\"color:#000000;\""), " style=\"color:#000000;\"");
}

#[test]
fn empty_pattern_cuts_nothing() {
    assert_eq!(without("abc", ""), "abc");
    assert_eq!(without("", ""), "");
}

#[test]
fn cutting_agrees_with_replace() {
    let texts = ["", "a", "ab", "aab", "abab", "aabbaabb", "bbbaaabbb", "abcabcabc", "ééaéé", "a\nb\n"];
    let pats = ["a", "b", "ab", "ba", "aa", "bb", "abc", "é", "éa", "\n", "abcd"];
    for text in texts {
        for pat in pats {
            assert_eq!(without(text, pat), text.replace(pat, ""));
        }
    }
}

#[test]
fn occurrences_are_counted_where_they_start() {
    assert_eq!(count_of("", "a"), 0);
    assert_eq!(count_of("banana", "an"), 2);
    assert_eq!(count_of("aaaa", "aa"), 3);
    assert_eq!(count_of("ab", "abc"), 0);
    assert_eq!(count_of("é<span>é</span>", "<span"), 1);
    assert_eq!(count_of("é<span>é</span>", "</span>"), 1);
}

#[test]
fn span_balance_is_opened_less_closed() {
    assert!(has_span_balance("", 0));
    assert!(has_span_balance("<span class=\"a\">x", 1));
    assert!(has_span_balance("x</span></span>", -2));
    assert!(has_span_balance("<span class=\"a<span\">x", 2));
    assert!(!has_span_balance("<span class=\"a<span\">x", 1));
    assert!(has_span_balance("<span><span></span>&lt;span", 1));
}
