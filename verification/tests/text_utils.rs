use draw_guess::text::{mask_word, stars, u64_to_dec};

#[test]
fn decimal_rendering() {
    assert_eq!(u64_to_dec(0), "0");
    assert_eq!(u64_to_dec(7), "7");
    assert_eq!(u64_to_dec(42), "42");
    assert_eq!(u64_to_dec(1005), "1005");
}

#[test]
fn star_strings() {
    assert_eq!(stars(0), "");
    assert_eq!(stars(4), "****");
}

#[test]
fn masking_replaces_leftmost_occurrences() {
    assert_eq!(mask_word("abab", "ab"), "****");
    assert_eq!(mask_word("aab", "ab"), "a**");
    assert_eq!(mask_word("no hit here", "ab"), "no hit here");
    assert_eq!(mask_word("say ab twice: ab.", "ab"), "say ** twice: **.");
}
