use knowledge_scanner::tags::{reconcile_tags, split_tags};
use knowledge_scanner::text::{
    char_fold, char_is_space, chars_of, eq_chars, eq_folded, find_char, split_chars, string_of,
    sub_chars, trim_bounds,
};

fn chars(s: &str) -> Vec<char> {
    s.chars().collect()
}

fn strings(items: &[&str]) -> Vec<String> {
    items.iter().map(|s| s.to_string()).collect()
}

fn lower(tags: &[String]) -> Vec<String> {
    let mut keys: Vec<String> = tags.iter().map(|t| t.to_ascii_lowercase()).collect();
    keys.sort();
    keys
}

#[test]
fn white_space_agrees_with_std_on_every_char() {
    let mut n: u32 = 0;
    while n <= 0x10FFFF {
        if let Some(c) = char::from_u32(n) {
            assert_eq!(char_is_space(c), c.is_whitespace(), "U+{:04X}", n);
        }
        n += 1;
    }
}

#[test]
fn white_space_samples() {
    assert!(char_is_space(' '));
    assert!(char_is_space('\t'));
    assert!(char_is_space('\n'));
    assert!(char_is_space('\r'));
    assert!(char_is_space('\u{00A0}'));
    assert!(char_is_space('\u{3000}'));
    assert!(!char_is_space('a'));
    assert!(!char_is_space('\u{200B}'));
}

#[test]
fn folding_agrees_with_ascii_lowercase_on_every_char() {
    let mut n: u32 = 0;
    while n <= 0x10FFFF {
        if let Some(c) = char::from_u32(n) {
            assert_eq!(char_fold(c), c.to_ascii_lowercase());
        }
        n += 1;
    }
}

#[test]
fn folding_leaves_non_ascii_letters() {
    assert_eq!(char_fold('A'), 'a');
    assert_eq!(char_fold('Z'), 'z');
    assert_eq!(char_fold('q'), 'q');
    assert_eq!(char_fold('É'), 'É');
    assert_eq!(char_fold('@'), '@');
    assert_eq!(char_fold('['), '[');
}

#[test]
fn chars_round_trip() {
    let v = chars_of("héllo, wörld");
    assert_eq!(v, chars("héllo, wörld"));
    assert_eq!(string_of(&v, 0, v.len()), "héllo, wörld");
    assert_eq!(string_of(&v, 7, 12), "wörld");
    assert_eq!(string_of(&v, 3, 3), "");
    assert_eq!(sub_chars(&v, 1, 4), chars("éll"));
    assert!(chars_of("").is_empty());
}

#[test]
fn trim_bounds_agree_with_std_trim() {
    let samples = [
        "", " ", "   ", "a", " a", "a ", "  a b  ", "\t\r\n x \u{3000}", "\u{00A0}tag\u{2003}",
        "no-space", " inner  space ",
    ];
    for s in samples.iter() {
        let v = chars(s);
        let (a, b) = trim_bounds(&v, 0, v.len());
        assert!(a <= b && b <= v.len());
        assert_eq!(string_of(&v, a, b), s.trim(), "{:?}", s);
    }
}

#[test]
fn trim_bounds_within_a_range() {
    let v = chars("[  text  ](x)");
    assert_eq!(trim_bounds(&v, 1, 9), (3, 7));
    assert_eq!(trim_bounds(&v, 4, 4), (4, 4));
    let blank = chars("a    b");
    let (a, b) = trim_bounds(&blank, 1, 5);
    assert_eq!(a, b);
}

#[test]
fn split_agrees_with_std_split() {
    let samples = ["", ",", "a", "a,b", "a,,b", ",a,", "x, y", ",,,", "no comma"];
    for s in samples.iter() {
        let got: Vec<String> =
            split_chars(&chars(s), ',').iter().map(|p| p.iter().collect()).collect();
        let want: Vec<String> = s.split(',').map(|p| p.to_string()).collect();
        assert_eq!(got, want, "{:?}", s);
    }
}

#[test]
fn find_char_gives_first_position_or_length() {
    let v = chars("a]b]c");
    assert_eq!(find_char(&v, ']', 0), 1);
    assert_eq!(find_char(&v, ']', 1), 1);
    assert_eq!(find_char(&v, ']', 2), 3);
    assert_eq!(find_char(&v, ']', 4), 5);
    assert_eq!(find_char(&v, ']', 5), 5);
    assert_eq!(find_char(&v, 'z', 0), 5);
}

#[test]
fn comparing_characters() {
    assert!(eq_chars(&chars("abc"), &chars("abc")));
    assert!(!eq_chars(&chars("abc"), &chars("abC")));
    assert!(!eq_chars(&chars("abc"), &chars("ab")));
    assert!(eq_folded(&chars("Notes"), &chars("nOTES")));
    assert!(!eq_folded(&chars("notes"), &chars("note")));
    assert!(!eq_folded(&chars("é"), &chars("É")));
    assert!(eq_folded(&chars(""), &chars("")));
}

#[test]
fn split_tags_trims_and_drops_empty_pieces() {
    assert_eq!(split_tags("x, y"), strings(&["x", "y"]));
    assert_eq!(split_tags(""), Vec::<String>::new());
    assert_eq!(split_tags(" , ,"), Vec::<String>::new());
    assert_eq!(split_tags(" a ,, b ,"), strings(&["a", "b"]));
    assert_eq!(split_tags("one"), strings(&["one"]));
    assert_eq!(split_tags("two words , x"), strings(&["two words", "x"]));
}

#[test]
fn split_tags_keeps_duplicates_and_case() {
    assert_eq!(split_tags("a,A,a"), strings(&["a", "A", "a"]));
}

#[test]
fn split_tags_agrees_with_std() {
    let samples = ["x, y", " a ,, b ,", "", ",", "\ta\t,\u{3000}b\u{00A0}", "a,b,c,,,d"];
    for s in samples.iter() {
        let want: Vec<String> =
            s.split(',').map(|t| t.trim()).filter(|t| !t.is_empty()).map(|t| t.to_string()).collect();
        assert_eq!(split_tags(s), want, "{:?}", s);
    }
}

#[test]
fn reconcile_folds_case_whatever_the_order() {
    let orders: [[&str; 3]; 6] = [
        ["a", "A", "b"],
        ["a", "b", "A"],
        ["A", "a", "b"],
        ["A", "b", "a"],
        ["b", "a", "A"],
        ["b", "A", "a"],
    ];
    for order in orders.iter() {
        let tags = reconcile_tags(&Vec::new(), &strings(order));
        assert_eq!(tags.len(), 2, "{:?}", order);
        assert_eq!(lower(&tags), strings(&["a", "b"]));
    }
}

#[test]
fn reconcile_keeps_first_seen_casing() {
    assert_eq!(reconcile_tags(&Vec::new(), &strings(&["a", "A", "b"])), strings(&["a", "b"]));
    assert_eq!(reconcile_tags(&Vec::new(), &strings(&["A", "a", "b"])), strings(&["A", "b"]));
    assert_eq!(
        reconcile_tags(&strings(&["Notes"]), &strings(&["notes", "X"])),
        strings(&["Notes", "X"])
    );
}

#[test]
fn reconcile_puts_declared_tags_first() {
    assert_eq!(
        reconcile_tags(&strings(&["notes"]), &strings(&["x", "y"])),
        strings(&["notes", "x", "y"])
    );
    assert_eq!(reconcile_tags(&Vec::new(), &strings(&["x", "y"])), strings(&["x", "y"]));
}

#[test]
fn reconcile_trims_and_drops_empty_tags() {
    assert_eq!(
        reconcile_tags(&strings(&["  a  ", "", "   "]), &strings(&[" b", "a "])),
        strings(&["a", "b"])
    );
}

#[test]
fn reconcile_of_nothing_is_nothing() {
    assert_eq!(reconcile_tags(&Vec::new(), &Vec::new()), Vec::<String>::new());
}

#[test]
fn reconcile_is_idempotent() {
    let declared = strings(&["Notes", "todo"]);
    let caller = strings(&["x", "NOTES", " y "]);
    let once = reconcile_tags(&declared, &caller);
    assert_eq!(once, strings(&["Notes", "todo", "x", "y"]));
    assert_eq!(reconcile_tags(&once, &caller), once);
    assert_eq!(reconcile_tags(&once, &Vec::new()), once);
}

#[test]
fn reconcile_is_commutative_up_to_casing() {
    let declared = strings(&["Notes", "b"]);
    let caller = strings(&["notes", "c", "B"]);
    let one = reconcile_tags(&declared, &caller);
    let other = reconcile_tags(&caller, &declared);
    assert_eq!(one.len(), other.len());
    assert_eq!(lower(&one), lower(&other));
    assert_eq!(one, strings(&["Notes", "b", "c"]));
    assert_eq!(other, strings(&["notes", "c", "B"]));
}

#[test]
fn reconcile_ignores_repeated_caller_tags() {
    let declared = strings(&["k"]);
    let once = reconcile_tags(&declared, &strings(&["x", "y"]));
    let twice = reconcile_tags(&declared, &strings(&["y", "x", "x", "y"]));
    assert_eq!(once.len(), twice.len());
    assert_eq!(lower(&once), lower(&twice));
}

#[test]
fn reconcile_folds_only_ascii_case() {
    assert_eq!(reconcile_tags(&Vec::new(), &strings(&["é", "É"])), strings(&["é", "É"]));
}
