//! Characters, decimal numerals and whitespace tokenization: the textual
//! ground the instruction grammar is built on.

use vstd::prelude::*;
use vstd::string::*;

verus! {

// ---------------------------------------------------------------------------
// Character classes
// ---------------------------------------------------------------------------

/// The characters that separate tokens: ASCII whitespace.
pub open spec fn is_ascii_ws(c: char) -> bool {
    c == ' ' || c == '\t' || c == '\n' || c == '\u{0c}' || c == '\r'
}

pub fn char_is_ascii_ws(c: char) -> (r: bool)
    ensures
        r == is_ascii_ws(c),
{
    c == ' ' || c == '\t' || c == '\n' || c == '\u{0c}' || c == '\r'
}

pub open spec fn is_dec_digit(c: char) -> bool {
    '0' <= c && c <= '9'
}

pub fn char_is_dec_digit(c: char) -> (r: bool)
    ensures
        r == is_dec_digit(c),
{
    '0' <= c && c <= '9'
}

/// What `char::is_alphabetic` returns for a character; the Unicode
/// `Alphabetic` property takes pages to state, so it only carries a name here.
pub uninterp spec fn is_alpha(c: char) -> bool;

/// Relies on `char::is_alphabetic`: true exactly for characters with the
/// Unicode `Alphabetic` property. That property holds only of letters, so it
/// excludes whitespace, the ASCII digits and the minus sign.
#[verifier::external_body]
pub fn char_is_alphabetic(c: char) -> (r: bool)
    ensures
        r == is_alpha(c),
        is_ascii_ws(c) ==> !r,
        is_dec_digit(c) ==> !r,
        c == '-' ==> !r,
{
    c.is_alphabetic()
}

/// Relies on `char::from_u32`: `Some` exactly for Unicode scalar values,
/// that is all values up to 0x10FFFF except the surrogate range
/// 0xD800..=0xDFFF, and the character is that code point.
#[verifier::external_body]
pub fn char_from_u32(v: u32) -> (r: Option<char>)
    ensures
        r matches Some(c) ==> c as u32 == v,
        r is Some <==> (v < 0xD800 || (0xE000 <= v && v <= 0x10FFFF)),
{
    char::from_u32(v)
}

/// Relies on `char::to_string` (through `Display` for `char`): a string
/// holding exactly the one character.
#[verifier::external_body]
pub fn char_to_string(c: char) -> (r: String)
    ensures
        r@ == seq![c],
{
    c.to_string()
}

// ---------------------------------------------------------------------------
// Decimal numerals
// ---------------------------------------------------------------------------

pub open spec fn digit_char(d: int) -> char
    recommends
        0 <= d < 10,
{
    if d == 0 {
        '0'
    } else if d == 1 {
        '1'
    } else if d == 2 {
        '2'
    } else if d == 3 {
        '3'
    } else if d == 4 {
        '4'
    } else if d == 5 {
        '5'
    } else if d == 6 {
        '6'
    } else if d == 7 {
        '7'
    } else if d == 8 {
        '8'
    } else {
        '9'
    }
}

pub open spec fn digit_val(c: char) -> int {
    c as int - '0' as int
}

/// The canonical decimal numeral of a natural number: no sign, no leading
/// zero except for zero itself.
pub open spec fn dec_digits(n: nat) -> Seq<char>
    decreases n,
{
    if n < 10 {
        seq![digit_char(n as int)]
    } else {
        dec_digits(n / 10) + seq![digit_char((n % 10) as int)]
    }
}

pub open spec fn all_dec_digits(s: Seq<char>) -> bool {
    forall|i: int| 0 <= i < s.len() ==> is_dec_digit(s[i])
}

/// The value of a digit string, most significant digit first.
pub open spec fn digits_val(s: Seq<char>) -> int
    decreases s.len(),
{
    if s.len() == 0 {
        0
    } else {
        digits_val(s.drop_last()) * 10 + digit_val(s.last())
    }
}

pub proof fn lemma_digits_val_nonneg(s: Seq<char>)
    requires
        all_dec_digits(s),
    ensures
        digits_val(s) >= 0,
    decreases s.len(),
{
    if s.len() > 0 {
        assert(all_dec_digits(s.drop_last()));
        lemma_digits_val_nonneg(s.drop_last());
    }
}

/// A longer digit string never has a smaller value: its prefixes bound it
/// from below.
pub proof fn lemma_digits_val_prefix(s: Seq<char>, i: int)
    requires
        all_dec_digits(s),
        0 <= i <= s.len(),
    ensures
        digits_val(s.take(i)) <= digits_val(s),
    decreases s.len() - i,
{
    if i < s.len() {
        lemma_digits_val_prefix(s, i + 1);
        let t = s.take(i + 1);
        assert(t.drop_last() =~= s.take(i));
        assert(all_dec_digits(s.take(i)));
        lemma_digits_val_nonneg(s.take(i));
        assert(digits_val(t) == digits_val(s.take(i)) * 10 + digit_val(s[i]));
        assert(digit_val(s[i]) >= 0);
    } else {
        assert(s.take(i) =~= s);
    }
}

pub proof fn lemma_dec_digits_shape(n: nat)
    ensures
        dec_digits(n).len() >= 1,
        all_dec_digits(dec_digits(n)),
    decreases n,
{
    if n >= 10 {
        lemma_dec_digits_shape(n / 10);
        let s = dec_digits(n);
        assert forall|i: int| 0 <= i < s.len() implies is_dec_digit(s[i]) by {
            if i < dec_digits(n / 10).len() {
                assert(s[i] == dec_digits(n / 10)[i]);
            }
        }
    }
}

/// Serializing a natural number and reading the digits back gives the same
/// number.
pub proof fn lemma_dec_digits_val(n: nat)
    ensures
        digits_val(dec_digits(n)) == n,
    decreases n,
{
    if n < 10 {
        let s = dec_digits(n);
        assert(s == seq![digit_char(n as int)]);
        assert(s.len() == 1);
        assert(s.drop_last() =~= Seq::<char>::empty());
        assert(digits_val(s) == digits_val(s.drop_last()) * 10 + digit_val(s.last()));
        assert(digits_val(s.drop_last()) == 0);
        assert(s.last() == digit_char(n as int));
        assert(digit_val(digit_char(n as int)) == n);
    } else {
        lemma_dec_digits_val(n / 10);
        let s = dec_digits(n);
        assert(s.drop_last() =~= dec_digits(n / 10));
        assert(s.last() == digit_char((n % 10) as int));
        assert(digit_val(digit_char((n % 10) as int)) == n % 10);
    }
}

// ---------------------------------------------------------------------------
// Signed 32-bit integer literals
// ---------------------------------------------------------------------------

/// The integer-literal grammar: an optional leading minus sign, then ASCII
/// digits, and a value that fits in a signed 32-bit integer.
pub open spec fn int_lit_ok(s: Seq<char>) -> bool {
    if s.len() > 0 && s[0] == '-' {
        s.len() >= 2 && all_dec_digits(s.skip(1)) && digits_val(s.skip(1)) <= 0x8000_0000
    } else {
        s.len() >= 1 && all_dec_digits(s) && digits_val(s) <= 0x7fff_ffff
    }
}

pub open spec fn int_lit_val(s: Seq<char>) -> int {
    if s.len() > 0 && s[0] == '-' {
        -digits_val(s.skip(1))
    } else {
        digits_val(s)
    }
}

/// Reads a signed 32-bit integer literal; `None` exactly when the token does
/// not satisfy the grammar or does not fit.
pub fn parse_i32_str(s: &str) -> (r: Option<i32>)
    ensures
        int_lit_ok(s@) ==> (r matches Some(v) && v as int == int_lit_val(s@)),
        !int_lit_ok(s@) ==> r is None,
{
    let n = s.unicode_len();
    if n == 0 {
        return None;
    }
    let neg = s.get_char(0) == '-';
    let start: usize = if neg {
        1
    } else {
        0
    };
    if n == start {
        // a lone minus sign
        return None;
    }
    let ghost digits = if neg {
        s@.skip(1)
    } else {
        s@
    };
    let mut acc: u64 = 0;
    let mut i: usize = start;
    while i < n
        invariant
            start <= i <= n,
            n == s@.len(),
            start as int == (if neg { 1int } else { 0int }),
            neg ==> s@[0] == '-',
            !neg ==> s@[0] != '-',
            digits == s@.skip(start as int),
            all_dec_digits(digits.take(i - start)),
            acc == digits_val(digits.take(i - start)),
            acc <= 0x8000_0000,
        decreases n - i,
    {
        let c = s.get_char(i);
        proof {
            assert(digits.take(i + 1 - start).drop_last() =~= digits.take(i - start));
            assert(digits.take(i + 1 - start).last() == s@[i as int]);
        }
        if !char_is_dec_digit(c) {
            proof {
                assert(digits[i - start] == c);
                assert(!all_dec_digits(digits));
            }
            return None;
        }
        let d: u64 = (c as u32 - '0' as u32) as u64;
        acc = acc * 10 + d;
        i = i + 1;
        proof {
            assert(all_dec_digits(digits.take(i - start)));
            assert(acc == digits_val(digits.take(i - start)));
        }
        if acc > 0x8000_0000 {
            // Out of the 32-bit range; any continuation only grows the value.
            proof {
                if all_dec_digits(digits) {
                    lemma_digits_val_prefix(digits, i - start);
                    assert(digits_val(digits) > 0x8000_0000);
                }
                if neg {
                    assert(digits == s@.skip(1));
                    assert(s@.len() > 0 && s@[0] == '-');
                    assert(!int_lit_ok(s@));
                } else {
                    assert(digits == s@);
                    assert(s@[0] != '-');
                    assert(!int_lit_ok(s@));
                }
            }
            return None;
        }
    }
    proof {
        assert(digits.take(n - start) =~= digits);
    }
    if neg {
        if acc == 0x8000_0000 {
            Some(i32::MIN)
        } else {
            Some(-(acc as i32))
        }
    } else {
        if acc > 0x7fff_ffff {
            None
        } else {
            Some(acc as i32)
        }
    }
}

fn dec_digit_to_string(d: u64) -> (r: String)
    requires
        d < 10,
    ensures
        r@ == seq![digit_char(d as int)],
{
    proof {
        reveal_strlit("0");
        reveal_strlit("1");
        reveal_strlit("2");
        reveal_strlit("3");
        reveal_strlit("4");
        reveal_strlit("5");
        reveal_strlit("6");
        reveal_strlit("7");
        reveal_strlit("8");
        reveal_strlit("9");
    }
    let r = if d == 0 {
        "0".to_owned()
    } else if d == 1 {
        "1".to_owned()
    } else if d == 2 {
        "2".to_owned()
    } else if d == 3 {
        "3".to_owned()
    } else if d == 4 {
        "4".to_owned()
    } else if d == 5 {
        "5".to_owned()
    } else if d == 6 {
        "6".to_owned()
    } else if d == 7 {
        "7".to_owned()
    } else if d == 8 {
        "8".to_owned()
    } else {
        "9".to_owned()
    };
    proof {
        assert(r@ =~= seq![digit_char(d as int)]);
    }
    r
}

/// Writes a natural number as its canonical decimal numeral.
pub fn u64_to_dec(n: u64) -> (r: String)
    ensures
        r@ == dec_digits(n as nat),
    decreases n,
{
    if n < 10 {
        dec_digit_to_string(n)
    } else {
        let mut s = u64_to_dec(n / 10);
        let last = dec_digit_to_string(n % 10);
        s.append(last.as_str());
        s
    }
}

/// The canonical text of a signed integer: a minus sign for negative values,
/// then the decimal numeral of the magnitude.
pub open spec fn canon_int(v: int) -> Seq<char> {
    if v < 0 {
        seq!['-'] + dec_digits((-v) as nat)
    } else {
        dec_digits(v as nat)
    }
}

/// Writes a signed 32-bit integer as its canonical text.
pub fn i32_to_dec(v: i32) -> (r: String)
    ensures
        r@ == canon_int(v as int),
{
    if v >= 0 {
        u64_to_dec(v as u64)
    } else {
        let mag: u64 = (-(v as i64)) as u64;
        let mut s = "-".to_owned();
        let digs = u64_to_dec(mag);
        s.append(digs.as_str());
        proof {
            reveal_strlit("-");
            assert(s@ =~= canon_int(v as int));
        }
        s
    }
}

/// The canonical text of an integer in the 32-bit range satisfies the
/// integer-literal grammar and reads back as the same value; its characters
/// are the minus sign and decimal digits, so none is whitespace.
pub proof fn lemma_canon_int_round_trip(v: int)
    requires
        -0x8000_0000 <= v <= 0x7fff_ffff,
    ensures
        int_lit_ok(canon_int(v)),
        int_lit_val(canon_int(v)) == v,
        canon_int(v).len() > 0,
        no_ws(canon_int(v)),
{
    let s = canon_int(v);
    if v >= 0 {
        lemma_dec_digits_shape(v as nat);
        lemma_dec_digits_val(v as nat);
        assert(is_dec_digit(s[0]));
        assert(s[0] != '-');
        assert forall|i: int| 0 <= i < s.len() implies !is_ascii_ws(s[i]) by {
            assert(is_dec_digit(s[i]));
        }
    } else {
        let mag = (-v) as nat;
        lemma_dec_digits_shape(mag);
        lemma_dec_digits_val(mag);
        assert(s[0] == '-');
        assert(s.skip(1) =~= dec_digits(mag));
        assert(digits_val(s.skip(1)) == mag);
        assert forall|i: int| 0 <= i < s.len() implies !is_ascii_ws(s[i]) by {
            if i > 0 {
                assert(is_dec_digit(dec_digits(mag)[i - 1]));
                assert(s[i] == dec_digits(mag)[i - 1]);
            }
        }
    }
}

// ---------------------------------------------------------------------------
// Whitespace tokenization
// ---------------------------------------------------------------------------

/// The tokens of `s` when the token under construction so far is `cur`:
/// whitespace closes `cur`, any other character extends it.
pub open spec fn tok_rec(s: Seq<char>, cur: Seq<char>) -> Seq<Seq<char>>
    decreases s.len(),
{
    if s.len() == 0 {
        if cur.len() == 0 {
            Seq::empty()
        } else {
            seq![cur]
        }
    } else if is_ascii_ws(s[0]) {
        if cur.len() == 0 {
            tok_rec(s.drop_first(), Seq::empty())
        } else {
            seq![cur] + tok_rec(s.drop_first(), Seq::empty())
        }
    } else {
        tok_rec(s.drop_first(), cur.push(s[0]))
    }
}

/// The maximal whitespace-free tokens of a line, in order.
pub open spec fn tokens_of(s: Seq<char>) -> Seq<Seq<char>> {
    tok_rec(s, Seq::empty())
}

pub open spec fn no_ws(s: Seq<char>) -> bool {
    forall|i: int| 0 <= i < s.len() ==> !is_ascii_ws(s[i])
}

/// A run of non-whitespace characters only extends the token under
/// construction.
pub proof fn lemma_tok_word(word: Seq<char>, rest: Seq<char>, cur: Seq<char>)
    requires
        no_ws(word),
    ensures
        tok_rec(word + rest, cur) == tok_rec(rest, cur + word),
    decreases word.len(),
{
    if word.len() == 0 {
        assert(word + rest =~= rest);
        assert(cur + word =~= cur);
    } else {
        let s = word + rest;
        assert(s[0] == word[0]);
        assert(!is_ascii_ws(s[0]));
        assert(s.drop_first() =~= word.drop_first() + rest);
        assert(no_ws(word.drop_first()));
        lemma_tok_word(word.drop_first(), rest, cur.push(word[0]));
        assert(cur.push(word[0]) + word.drop_first() =~= cur + word);
    }
}

/// A whitespace character closes the token under construction.
pub proof fn lemma_tok_ws(c: char, rest: Seq<char>, cur: Seq<char>)
    requires
        is_ascii_ws(c),
        cur.len() > 0,
    ensures
        tok_rec(seq![c] + rest, cur) == seq![cur] + tok_rec(rest, Seq::empty()),
{
    let s = seq![c] + rest;
    assert(s[0] == c);
    assert(s.drop_first() =~= rest);
}

/// Two words separated by one space tokenize to exactly those two tokens.
pub proof fn lemma_tokens_two(w0: Seq<char>, w1: Seq<char>)
    requires
        no_ws(w0),
        w0.len() > 0,
        no_ws(w1),
        w1.len() > 0,
    ensures
        tokens_of(w0 + seq![' '] + w1) == seq![w0, w1],
{
    let line = w0 + seq![' '] + w1;
    assert(line =~= w0 + (seq![' '] + w1));
    lemma_tok_word(w0, seq![' '] + w1, Seq::empty());
    assert(Seq::<char>::empty() + w0 =~= w0);
    lemma_tok_ws(' ', w1, w0);
    lemma_tok_word(w1, Seq::empty(), Seq::empty());
    assert(Seq::<char>::empty() + w1 =~= w1);
    assert(w1 + Seq::<char>::empty() =~= w1);
    assert(tok_rec(w1, Seq::empty()) == seq![w1]);
    assert(seq![w0] + seq![w1] =~= seq![w0, w1]);
}

/// Three words separated by single spaces tokenize to exactly those three
/// tokens.
pub proof fn lemma_tokens_three(w0: Seq<char>, w1: Seq<char>, w2: Seq<char>)
    requires
        no_ws(w0),
        w0.len() > 0,
        no_ws(w1),
        w1.len() > 0,
        no_ws(w2),
        w2.len() > 0,
    ensures
        tokens_of(w0 + seq![' '] + w1 + seq![' '] + w2) == seq![w0, w1, w2],
{
    let line = w0 + seq![' '] + w1 + seq![' '] + w2;
    assert(line =~= w0 + (seq![' '] + (w1 + (seq![' '] + w2))));
    lemma_tok_word(w0, seq![' '] + (w1 + (seq![' '] + w2)), Seq::empty());
    assert(Seq::<char>::empty() + w0 =~= w0);
    lemma_tok_ws(' ', w1 + (seq![' '] + w2), w0);
    lemma_tok_word(w1, seq![' '] + w2, Seq::empty());
    assert(Seq::<char>::empty() + w1 =~= w1);
    lemma_tok_ws(' ', w2, w1);
    lemma_tok_word(w2, Seq::empty(), Seq::empty());
    assert(Seq::<char>::empty() + w2 =~= w2);
    assert(w2 + Seq::<char>::empty() =~= w2);
    assert(tok_rec(w2, Seq::empty()) == seq![w2]);
    assert(seq![w0] + (seq![w1] + seq![w2]) =~= seq![w0, w1, w2]);
}

/// The views of a vector of strings.
pub open spec fn strings_view(toks: Seq<String>) -> Seq<Seq<char>> {
    toks.map_values(|t: String| t@)
}

/// Splits a line into its whitespace-separated tokens.
pub fn tokenize(line: &str) -> (toks: Vec<String>)
    ensures
        strings_view(toks@) == tokens_of(line@),
{
    let n = line.unicode_len();
    let mut toks: Vec<String> = Vec::new();
    let mut cur = String::new();
    let mut i: usize = 0;
    proof {
        assert(line@.skip(0) =~= line@);
        assert(strings_view(toks@) =~= Seq::<Seq<char>>::empty());
        assert(Seq::<Seq<char>>::empty() + tok_rec(line@, Seq::<char>::empty()) =~= tok_rec(
            line@,
            Seq::<char>::empty(),
        ));
    }
    while i < n
        invariant
            i <= n,
            n == line@.len(),
            tokens_of(line@) == strings_view(toks@) + tok_rec(line@.skip(i as int), cur@),
        decreases n - i,
    {
        let ghost rem = line@.skip(i as int);
        let ghost prev = cur@;
        let ghost old_toks = toks@;
        let c = line.get_char(i);
        proof {
            assert(rem[0] == c);
            assert(rem.drop_first() =~= line@.skip(i + 1));
        }
        if char_is_ascii_ws(c) {
            if !cur.as_str().is_empty() {
                toks.push(cur);
                cur = String::new();
                proof {
                    assert(tok_rec(rem, prev) == seq![prev] + tok_rec(
                        line@.skip(i + 1),
                        Seq::<char>::empty(),
                    ));
                    assert(strings_view(toks@) =~= strings_view(old_toks) + seq![prev]);
                    assert(strings_view(old_toks) + (seq![prev] + tok_rec(
                        line@.skip(i + 1),
                        Seq::<char>::empty(),
                    )) =~= strings_view(toks@) + tok_rec(line@.skip(i + 1), Seq::<char>::empty()));
                }
            } else {
                proof {
                    assert(prev =~= Seq::<char>::empty());
                    assert(tok_rec(rem, prev) == tok_rec(line@.skip(i + 1), prev));
                }
            }
        } else {
            let one = char_to_string(c);
            cur.append(one.as_str());
            proof {
                assert(cur@ =~= prev.push(c));
                assert(tok_rec(rem, prev) == tok_rec(line@.skip(i + 1), cur@));
            }
        }
        i = i + 1;
    }
    proof {
        assert(line@.skip(n as int) =~= Seq::<char>::empty());
    }
    if !cur.as_str().is_empty() {
        let ghost old_toks = toks@;
        toks.push(cur);
        proof {
            assert(strings_view(toks@) =~= strings_view(old_toks) + seq![toks@.last()@]);
            assert(strings_view(toks@) =~= strings_view(old_toks) + tok_rec(
                Seq::empty(),
                toks@.last()@,
            ));
        }
    } else {
        proof {
            assert(strings_view(toks@) + Seq::<Seq<char>>::empty() =~= strings_view(toks@));
        }
    }
    toks
}

} // verus!
