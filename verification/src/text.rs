//! Text helpers for chat handling: masking the secret word with asterisks
//! and rendering small numbers for system chat messages.
use vstd::prelude::*;

verus! {

/// How many extended grapheme clusters a character sequence has.
/// Left without a definition: the segmentation rules live in the
/// `unicode_segmentation` crate, and the count depends on the characters
/// alone.
pub uninterp spec fn grapheme_count_of(s: Seq<char>) -> int;

/// Relies on `unicode_segmentation::UnicodeSegmentation::graphemes`:
/// the extended grapheme clusters of a string are a function of its
/// characters alone, and an empty string has none.
#[verifier::external_body]
pub fn grapheme_count(s: &str) -> (r: usize)
    ensures
        r as int == grapheme_count_of(s@),
        s@.len() == 0 ==> r == 0,
{
    unicode_segmentation::UnicodeSegmentation::graphemes(s, true).count()
}

/// A sequence of `n` asterisks.
pub open spec fn star_seq(n: nat) -> Seq<char> {
    Seq::new(n, |i: int| '*')
}

/// A string of `n` asterisks.
pub fn stars(n: usize) -> (r: String)
    ensures
        r@ == star_seq(n as nat),
{
    let mut r = String::new();
    let mut i: usize = 0;
    while i < n
        invariant
            i <= n,
            r@ == star_seq(i as nat),
        decreases n - i,
    {
        r.append("*");
        proof {
            reveal_strlit("*");
            assert(r@ =~= star_seq((i + 1) as nat));
        }
        i = i + 1;
    }
    r
}

/// `content` with every leftmost, non-overlapping occurrence of `word`
/// replaced by one asterisk per character of `word`.
pub open spec fn mask_matches(content: Seq<char>, word: Seq<char>) -> Seq<char>
    recommends
        word.len() > 0,
    decreases content.len(),
{
    if content.len() == 0 {
        Seq::<char>::empty()
    } else if word.len() > 0 && content.len() >= word.len() && content.subrange(
        0,
        word.len() as int,
    ) == word {
        star_seq(word.len()) + mask_matches(content.skip(word.len() as int), word)
    } else {
        seq![content[0]] + mask_matches(content.skip(1), word)
    }
}

/// Whether `word` occurs in `content` starting at position `at`.
pub open spec fn word_at(content: Seq<char>, word: Seq<char>, at: int) -> bool {
    &&& 0 <= at
    &&& at + word.len() <= content.len()
    &&& content.subrange(at, at + word.len()) == word
}

/// Checks whether `word` occurs in `content` starting at position `at`.
fn has_word_at(content: &str, n: usize, word: &str, w: usize, at: usize) -> (r: bool)
    requires
        n == content@.len(),
        w == word@.len(),
        at + w <= n,
    ensures
        r == word_at(content@, word@, at as int),
{
    let mut k: usize = 0;
    while k < w
        invariant
            k <= w,
            at + w <= n,
            n == content@.len(),
            w == word@.len(),
            forall|j: int| 0 <= j < k ==> content@[at + j] == word@[j],
        decreases w - k,
    {
        if content.get_char(at + k) != word.get_char(k) {
            proof {
                assert(content@.subrange(at as int, at + w) != word@) by {
                    assert(content@.subrange(at as int, at + w)[k as int] == content@[at + k]);
                }
            }
            return false;
        }
        k = k + 1;
    }
    proof {
        assert(content@.subrange(at as int, at + w) =~= word@);
    }
    true
}

/// Replaces every leftmost, non-overlapping occurrence of `word` inside
/// `content` with asterisks, one per character of `word`.
pub fn mask_word(content: &str, word: &str) -> (r: String)
    requires
        word@.len() > 0,
    ensures
        r@ == mask_matches(content@, word@),
{
    let n = content.unicode_len();
    let w = word.unicode_len();
    let star_block = stars(w);
    let mut r = String::new();
    let mut i: usize = 0;
    proof {
        assert(content@.skip(0) =~= content@);
        assert(r@ + mask_matches(content@, word@) =~= mask_matches(content@, word@));
    }
    while i < n
        invariant
            i <= n,
            n == content@.len(),
            w == word@.len(),
            w > 0,
            star_block@ == star_seq(w as nat),
            mask_matches(content@, word@) == r@ + mask_matches(content@.skip(i as int), word@),
        decreases n - i,
    {
        let ghost tail = content@.skip(i as int);
        if w <= n - i && has_word_at(content, n, word, w, i) {
            r.append(star_block.as_str());
            proof {
                assert(tail.len() >= word@.len());
                assert(tail.subrange(0, word@.len() as int) =~= content@.subrange(
                    i as int,
                    i + word@.len(),
                ));
                assert(tail.skip(word@.len() as int) =~= content@.skip(i + word@.len()));
                assert(mask_matches(tail, word@) == star_seq(word@.len()) + mask_matches(
                    content@.skip(i + word@.len()),
                    word@,
                ));
            }
            i = i + w;
        } else {
            let piece = content.substring_char(i, i + 1);
            r.append(piece);
            proof {
                assert(tail.len() > 0);
                if word@.len() <= tail.len() && tail.subrange(0, word@.len() as int) == word@ {
                    assert(word_at(content@, word@, i as int)) by {
                        assert(content@.subrange(i as int, i + word@.len()) =~= tail.subrange(
                            0,
                            word@.len() as int,
                        ));
                    }
                    assert(false);
                }
                assert(seq![tail[0]] =~= content@.subrange(i as int, i + 1));
                assert(tail.skip(1) =~= content@.skip(i + 1));
                assert(mask_matches(tail, word@) == seq![tail[0]] + mask_matches(
                    content@.skip(i + 1),
                    word@,
                ));
            }
            i = i + 1;
        }
    }
    proof {
        assert(content@.skip(n as int) =~= Seq::<char>::empty());
        assert(mask_matches(Seq::<char>::empty(), word@) == Seq::<char>::empty());
        assert(mask_matches(content@, word@) =~= r@);
    }
    r
}

/// The decimal digit character for `d`.
pub open spec fn dec_digit(d: int) -> char {
    if d == 0 {
        '0'
    } else if d == 1 {
        '1'
    } else if d == 2 {
        '2'
    } else if d == 3 {
        '3'
    } else if d == 4 {
        '4'
    } else if d == 5 {
        '5'
    } else if d == 6 {
        '6'
    } else if d == 7 {
        '7'
    } else if d == 8 {
        '8'
    } else {
        '9'
    }
}

/// The decimal rendering of `n`, most significant digit first.
pub open spec fn dec_seq(n: nat) -> Seq<char>
    decreases n,
{
    if n < 10 {
        seq![dec_digit(n as int)]
    } else {
        dec_seq(n / 10) + seq![dec_digit((n % 10) as int)]
    }
}

/// The one-character string for digit `d`.
fn digit_str(d: u64) -> (r: &'static str)
    requires
        d < 10,
    ensures
        r@ == seq![dec_digit(d as int)],
{
    proof {
        reveal_strlit("0");
        reveal_strlit("1");
        reveal_strlit("2");
        reveal_strlit("3");
        reveal_strlit("4");
        reveal_strlit("5");
        reveal_strlit("6");
        reveal_strlit("7");
        reveal_strlit("8");
        reveal_strlit("9");
    }
    let r = match d {
        0 => "0",
        1 => "1",
        2 => "2",
        3 => "3",
        4 => "4",
        5 => "5",
        6 => "6",
        7 => "7",
        8 => "8",
        _ => "9",
    };
    proof {
        assert(r@ =~= seq![dec_digit(d as int)]);
    }
    r
}

/// Renders `n` in decimal.
pub fn u64_to_dec(n: u64) -> (r: String)
    ensures
        r@ == dec_seq(n as nat),
    decreases n,
{
    if n < 10 {
        let mut r = String::new();
        r.append(digit_str(n));
        proof {
            assert(r@ =~= dec_seq(n as nat));
        }
        r
    } else {
        let mut r = u64_to_dec(n / 10);
        r.append(digit_str(n % 10));
        proof {
            assert(r@ =~= dec_seq(n as nat));
        }
        r
    }
}

} // verus!
