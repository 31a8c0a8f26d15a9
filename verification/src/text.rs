//! Text helpers: characters of strings, decimal numerals, and words
//! separated by whitespace.

use vstd::prelude::*;
use vstd::string::StringExecFns;

verus! {

/// `String::push`: appends one character.
#[verifier::external_body]
pub(crate) fn push_char(s: &mut String, c: char)
    ensures
        final(s)@ == old(s)@.push(c),
{
    s.push(c);
}

/// Appends a string slice.
pub(crate) fn push_str(s: &mut String, t: &str)
    ensures
        final(s)@ == old(s)@ + t@,
{
    s.append(t);
}

/// The characters of a string.
pub fn chars_of(s: &str) -> (v: Vec<char>)
    ensures
        v@ == s@,
{
    let mut v: Vec<char> = Vec::new();
    for c in it: s.chars()
        invariant
            v@ == it.seq().take(it.index() as int),
    {
        v.push(c);
    }
    assert(v@ =~= s@);
    v
}

/// Whether two strings hold the same characters.
pub fn same_text(a: &str, b: &str) -> (r: bool)
    ensures
        r == (a@ == b@),
{
    let x = chars_of(a);
    let y = chars_of(b);
    if x.len() != y.len() {
        return false;
    }
    let mut i: usize = 0;
    while i < x.len()
        invariant
            i <= x@.len(),
            x@ == a@,
            y@ == b@,
            x@.len() == y@.len(),
            forall|j: int| 0 <= j < i ==> x@[j] == y@[j],
        decreases x@.len() - i,
    {
        if x[i] != y[i] {
            assert(x@[i as int] != y@[i as int]);
            assert(x@ != y@);
            return false;
        }
        i = i + 1;
    }
    assert(x@ =~= y@);
    true
}

/// Whether `c` has the Unicode White_Space property, as `char::is_whitespace`
/// documents it.
pub open spec fn is_white_space(c: char) -> bool {
    let u = c as u32;
    ||| 0x9 <= u <= 0xD
    ||| u == 0x20
    ||| u == 0x85
    ||| u == 0xA0
    ||| u == 0x1680
    ||| 0x2000 <= u <= 0x200A
    ||| u == 0x2028
    ||| u == 0x2029
    ||| u == 0x202F
    ||| u == 0x205F
    ||| u == 0x3000
}

/// Whether `c` is whitespace.
pub fn white_space(c: char) -> (r: bool)
    ensures
        r == is_white_space(c),
{
    let u = c as u32;
    (0x9 <= u && u <= 0xD) || u == 0x20 || u == 0x85 || u == 0xA0 || u == 0x1680 || (0x2000 <= u
        && u <= 0x200A) || u == 0x2028 || u == 0x2029 || u == 0x202F || u == 0x205F || u == 0x3000
}

/// The words of `s`: its maximal runs of characters that are not
/// whitespace, in order.
pub open spec fn words(s: Seq<char>) -> Seq<Seq<char>>
    decreases s.len(),
{
    if s.len() == 0 {
        seq![]
    } else {
        let w = words(s.drop_last());
        let c = s.last();
        if is_white_space(c) {
            w
        } else if s.len() >= 2 && !is_white_space(s[s.len() - 2]) {
            w.update(w.len() - 1, w.last().push(c))
        } else {
            w.push(seq![c])
        }
    }
}

/// The characters of each string of a list.
pub open spec fn texts(v: Seq<String>) -> Seq<Seq<char>> {
    v.map_values(|w: String| w@)
}

/// Splits `s` into its words, as `str::split_whitespace` does.
pub fn split_words(s: &str) -> (r: Vec<String>)
    ensures
        texts(r@) == words(s@),
        joined(texts(r@)) == non_white_space(s@),
        forall|i: int| 0 <= i < r@.len() ==> (#[trigger] r@[i])@.len() > 0,
        forall|i: int, j: int|
            0 <= i < r@.len() && 0 <= j < r@[i]@.len() ==> !is_white_space(#[trigger] r@[i]@[j]),
{
    proof {
        words_law(s@);
    }
    let chars = chars_of(s);
    let mut done: Vec<String> = Vec::new();
    let mut cur = String::new();
    let mut in_word = false;
    let mut i: usize = 0;
    while i < chars.len()
        invariant
            i <= chars@.len(),
            chars@ == s@,
            in_word == (cur@.len() > 0),
            !in_word ==> texts(done@) == words(chars@.take(i as int)),
            in_word ==> texts(done@).push(cur@) == words(chars@.take(i as int)),
            in_word ==> i > 0 && !is_white_space(chars@[i - 1]),
            !in_word && i > 0 ==> is_white_space(chars@[i - 1]),
        decreases chars@.len() - i,
    {
        let c = chars[i];
        let ghost prefix = chars@.take(i + 1);
        assert(prefix.drop_last() =~= chars@.take(i as int));
        assert(prefix.last() == c);
        if white_space(c) {
            if in_word {
                let ghost before = done@;
                done.push(cur);
                assert(texts(done@) =~= texts(before).push(cur@));
                cur = String::new();
                in_word = false;
            }
        } else {
            let ghost before = cur@;
            push_char(&mut cur, c);
            if in_word {
                let ghost w = words(chars@.take(i as int));
                assert(prefix[i - 1] == chars@[i - 1]);
                assert(prefix.len() >= 2 && prefix[prefix.len() - 2] == chars@[i - 1]);
                assert(words(prefix) == w.update(w.len() - 1, w.last().push(c)));
                assert(w.last() == before);
                assert(texts(done@).push(cur@) =~= w.update(w.len() - 1, w.last().push(c)));
            } else {
                if i > 0 {
                    assert(prefix[i - 1] == chars@[i - 1]);
                }
                assert(before =~= Seq::<char>::empty());
                assert(cur@ =~= seq![c]);
            }
            in_word = true;
        }
        i = i + 1;
    }
    assert(chars@.take(chars@.len() as int) =~= chars@);
    if in_word {
        let ghost before = done@;
        done.push(cur);
        assert(texts(done@) =~= texts(before).push(cur@));
    }
    proof {
        assert forall|k: int| 0 <= k < done@.len() implies (#[trigger] done@[k])@ == words(s@)[k] by {
            assert(texts(done@)[k] == done@[k]@);
        }
    }
    done
}

/// The character of a decimal digit.
pub open spec fn digit_char(d: int) -> char {
    if d == 0 {
        '0'
    } else if d == 1 {
        '1'
    } else if d == 2 {
        '2'
    } else if d == 3 {
        '3'
    } else if d == 4 {
        '4'
    } else if d == 5 {
        '5'
    } else if d == 6 {
        '6'
    } else if d == 7 {
        '7'
    } else if d == 8 {
        '8'
    } else {
        '9'
    }
}

/// The decimal numeral of `n`, without leading zeros.
pub open spec fn decimal(n: nat) -> Seq<char>
    decreases n,
{
    if n < 10 {
        seq![digit_char(n as int)]
    } else {
        decimal(n / 10).push(digit_char((n % 10) as int))
    }
}

/// The decimal numeral of `n`, with a minus sign when negative.
pub open spec fn signed_decimal(n: int) -> Seq<char> {
    if n < 0 {
        seq!['-'] + decimal((-n) as nat)
    } else {
        decimal(n as nat)
    }
}

fn digit(d: u64) -> (c: char)
    requires
        d < 10,
    ensures
        c == digit_char(d as int),
{
    if d == 0 {
        '0'
    } else if d == 1 {
        '1'
    } else if d == 2 {
        '2'
    } else if d == 3 {
        '3'
    } else if d == 4 {
        '4'
    } else if d == 5 {
        '5'
    } else if d == 6 {
        '6'
    } else if d == 7 {
        '7'
    } else if d == 8 {
        '8'
    } else {
        '9'
    }
}

/// Appends the decimal numeral of `n`.
pub(crate) fn push_decimal(s: &mut String, n: u64)
    ensures
        final(s)@ == old(s)@ + decimal(n as nat),
    decreases n,
{
    if n >= 10 {
        push_decimal(s, n / 10);
    }
    push_char(s, digit(n % 10));
    proof {
        if n >= 10 {
            assert(old(s)@ + decimal(n as nat) =~= old(s)@ + decimal((n / 10) as nat) + seq![
                digit_char((n % 10) as int),
            ]);
        } else {
            assert(old(s)@ + decimal(n as nat) =~= old(s)@.push(digit_char(n as int)));
        }
    }
}

/// The decimal numeral of `n`.
pub fn decimal_string(n: u64) -> (r: String)
    ensures
        r@ == decimal(n as nat),
        r@.len() > 0,
        forall|i: int| 0 <= i < r@.len() ==> 0 <= #[trigger] digit_value(r@[i]) <= 9,
        numeral_value(r@) == n,
        n > 0 ==> r@[0] != '0',
{
    let mut s = String::new();
    push_decimal(&mut s, n);
    assert(s@ =~= decimal(n as nat));
    proof {
        decimal_law(n as nat);
    }
    s
}

/// The characters of a list of texts, one text after the other.
pub open spec fn joined(ws: Seq<Seq<char>>) -> Seq<char>
    decreases ws.len(),
{
    if ws.len() == 0 {
        seq![]
    } else {
        joined(ws.drop_last()) + ws.last()
    }
}

/// The characters of `s` that are not whitespace, in order.
pub open spec fn non_white_space(s: Seq<char>) -> Seq<char> {
    s.filter(|c: char| !is_white_space(c))
}

/// The number of places in `s` where a word begins: a character that is not
/// whitespace, at the start or just after whitespace.
pub open spec fn word_starts(s: Seq<char>) -> nat
    decreases s.len(),
{
    if s.len() == 0 {
        0
    } else {
        word_starts(s.drop_last()) + if !is_white_space(s.last()) && (s.len() == 1 || is_white_space(
            s[s.len() - 2],
        )) {
            1nat
        } else {
            0nat
        }
    }
}

/// What splitting into words does: the words, joined, are exactly the
/// characters of `s` that are not whitespace, in order (none is dropped or
/// added); every word is non-empty and holds no whitespace; and there is one
/// word for each place where a word begins.
pub proof fn words_law(s: Seq<char>)
    ensures
        joined(words(s)) == non_white_space(s),
        words(s).len() == word_starts(s),
        forall|i: int| 0 <= i < words(s).len() ==> (#[trigger] words(s)[i]).len() > 0,
        forall|i: int, j: int|
            0 <= i < words(s).len() && 0 <= j < words(s)[i].len() ==> !is_white_space(
                #[trigger] words(s)[i][j],
            ),
    decreases s.len(),
{
    if s.len() > 0 {
        let d = s.drop_last();
        let c = s.last();
        let w = words(d);
        words_law(d);
        assert(s =~= d.push(c));
        d.lemma_filter_push(c, |x: char| !is_white_space(x));
        assert(non_white_space(s) == if !is_white_space(c) {
            non_white_space(d).push(c)
        } else {
            non_white_space(d)
        });
        if is_white_space(c) {
        } else if s.len() >= 2 && !is_white_space(s[s.len() - 2]) {
            assert(d.last() == s[s.len() - 2]);
            d.drop_last().lemma_filter_push(d.last(), |x: char| !is_white_space(x));
            assert(d =~= d.drop_last().push(d.last()));
            assert(non_white_space(d).len() > 0);
            assert(w.len() > 0);
            let x = w.update(w.len() - 1, w.last().push(c));
            assert(x.drop_last() =~= w.drop_last());
            assert(joined(x) =~= joined(w).push(c));
            assert forall|i: int, j: int|
                0 <= i < x.len() && 0 <= j < x[i].len() implies !is_white_space(
                #[trigger] x[i][j],
            ) by {
                if i < w.len() - 1 {
                    assert(x[i] == w[i]);
                } else if j < w.last().len() {
                    assert(x[i][j] == w[w.len() - 1][j]);
                }
            }
            assert forall|i: int| 0 <= i < x.len() implies (#[trigger] x[i]).len() > 0 by {
                if i < w.len() - 1 {
                    assert(x[i] == w[i]);
                }
            }
        } else {
            let x = w.push(seq![c]);
            assert(x.drop_last() =~= w);
            assert(joined(x) =~= joined(w).push(c));
            assert forall|i: int, j: int|
                0 <= i < x.len() && 0 <= j < x[i].len() implies !is_white_space(
                #[trigger] x[i][j],
            ) by {
                if i < w.len() {
                    assert(x[i] == w[i]);
                }
            }
            assert forall|i: int| 0 <= i < x.len() implies (#[trigger] x[i]).len() > 0 by {
                if i < w.len() {
                    assert(x[i] == w[i]);
                }
            }
        }
    } else {
        reveal(Seq::filter);
    }
}

/// The value of a digit character.
pub open spec fn digit_value(c: char) -> int {
    (c as u32) - 48
}

/// The number that a string of decimal digits reads as.
pub open spec fn numeral_value(s: Seq<char>) -> int
    decreases s.len(),
{
    if s.len() == 0 {
        0
    } else {
        numeral_value(s.drop_last()) * 10 + digit_value(s.last())
    }
}

/// What `decimal` writes: standard decimal notation. Its characters are
/// digits that read back as `n`, and it has no leading zero (but for 0
/// itself).
pub proof fn decimal_law(n: nat)
    ensures
        decimal(n).len() > 0,
        forall|i: int| 0 <= i < decimal(n).len() ==> 0 <= #[trigger] digit_value(decimal(n)[i]) <= 9,
        numeral_value(decimal(n)) == n,
        n > 0 ==> decimal(n)[0] != '0',
    decreases n,
{
    assert(digit_char(0) as u32 == 48);
    assert(digit_char(1) as u32 == 49);
    assert(digit_char(2) as u32 == 50);
    assert(digit_char(3) as u32 == 51);
    assert(digit_char(4) as u32 == 52);
    assert(digit_char(5) as u32 == 53);
    assert(digit_char(6) as u32 == 54);
    assert(digit_char(7) as u32 == 55);
    assert(digit_char(8) as u32 == 56);
    assert(digit_char(9) as u32 == 57);
    if n >= 10 {
        decimal_law(n / 10);
        let d = decimal(n / 10);
        assert(decimal(n).drop_last() =~= d);
        let r = (n % 10) as int;
        assert(0 <= r < 10);
        assert(digit_value(digit_char(r)) == r) by {
            if r == 0 {} else if r == 1 {} else if r == 2 {} else if r == 3 {} else if r == 4 {}
            else if r == 5 {} else if r == 6 {} else if r == 7 {} else if r == 8 {} else {}
        }
        assert(decimal(n).last() == digit_char(r));
        assert(numeral_value(decimal(n)) == numeral_value(d) * 10 + r);
        assert(n == (n / 10) * 10 + r);
        assert(decimal(n)[0] == d[0]);
    } else {
        assert(digit_value(digit_char(n as int)) == n) by {
            if n == 0 {} else if n == 1 {} else if n == 2 {} else if n == 3 {} else if n == 4 {}
            else if n == 5 {} else if n == 6 {} else if n == 7 {} else if n == 8 {} else {}
        }
        assert(decimal(n).drop_last() =~= Seq::<char>::empty());
        assert(numeral_value(Seq::<char>::empty()) == 0);
    }
}

} // verus!
