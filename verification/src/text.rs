//! Character and string groundwork for the textual codecs: whitespace
//! classification, token splitting, decimal numerals, and case-insensitive
//! head matching, each with a spec-level model and a verified executable
//! counterpart.

use vstd::prelude::*;
use vstd::string::*;

verus! {

/// Appends one character to a string.
///
/// Relies on `String::push` of std: the character is appended at the end.
pub assume_specification[ String::push ](s: &mut String, ch: char)
    ensures
        final(s)@ == old(s)@.push(ch),
;

/// Whether a character counts as whitespace for command-line splitting: the
/// unicode white-space characters.
pub open spec fn is_blank(c: char) -> bool {
    ||| c == '\u{9}'
    ||| c == '\u{a}'
    ||| c == '\u{b}'
    ||| c == '\u{c}'
    ||| c == '\u{d}'
    ||| c == ' '
    ||| c == '\u{85}'
    ||| c == '\u{a0}'
    ||| c == '\u{1680}'
    ||| c == '\u{2000}'
    ||| c == '\u{2001}'
    ||| c == '\u{2002}'
    ||| c == '\u{2003}'
    ||| c == '\u{2004}'
    ||| c == '\u{2005}'
    ||| c == '\u{2006}'
    ||| c == '\u{2007}'
    ||| c == '\u{2008}'
    ||| c == '\u{2009}'
    ||| c == '\u{200a}'
    ||| c == '\u{2028}'
    ||| c == '\u{2029}'
    ||| c == '\u{202f}'
    ||| c == '\u{205f}'
    ||| c == '\u{3000}'
}

/// Exec check for [`is_blank`].
pub fn blank(c: char) -> (r: bool)
    ensures
        r == is_blank(c),
{
    c == '\u{9}' || c == '\u{a}' || c == '\u{b}' || c == '\u{c}' || c == '\u{d}' || c == ' '
        || c == '\u{85}' || c == '\u{a0}' || c == '\u{1680}' || c == '\u{2000}' || c ==
        '\u{2001}' || c == '\u{2002}' || c == '\u{2003}' || c == '\u{2004}' || c ==
        '\u{2005}' || c == '\u{2006}' || c == '\u{2007}' || c == '\u{2008}' || c ==
        '\u{2009}' || c == '\u{200a}' || c == '\u{2028}' || c == '\u{2029}' || c ==
        '\u{202f}' || c == '\u{205f}' || c == '\u{3000}'
}

/// Whether every character of `s` is whitespace.
pub open spec fn all_blank(s: Seq<char>) -> bool {
    forall|i: int| 0 <= i < s.len() ==> is_blank(s[i])
}

/// Exec check for [`all_blank`].
pub fn is_all_blank(v: &Vec<char>) -> (r: bool)
    ensures
        r == all_blank(v@),
{
    let mut i: usize = 0;
    while i < v.len()
        invariant
            0 <= i <= v@.len(),
            forall|k: int| 0 <= k < i ==> is_blank(v@[k]),
        decreases v@.len() - i,
    {
        if !blank(v[i]) {
            return false;
        }
        i = i + 1;
    }
    true
}

/// Index of the first whitespace character of `s`, or `s.len()` if none.
pub open spec fn first_blank(s: Seq<char>) -> int
    decreases s.len(),
{
    if s.len() == 0 {
        0
    } else if is_blank(s[0]) {
        0
    } else {
        1 + first_blank(s.skip(1))
    }
}

/// The defining properties of [`first_blank`].
pub proof fn lemma_first_blank(s: Seq<char>)
    ensures
        0 <= first_blank(s) <= s.len(),
        forall|i: int| 0 <= i < first_blank(s) ==> !is_blank(s[i]),
        first_blank(s) < s.len() ==> is_blank(s[first_blank(s)]),
    decreases s.len(),
{
    if s.len() == 0 {
    } else if is_blank(s[0]) {
    } else {
        lemma_first_blank(s.skip(1));
        assert forall|i: int| 0 <= i < first_blank(s) implies !is_blank(s[i]) by {
            if i >= 1 {
                assert(s.skip(1)[i - 1] == s[i]);
            }
        }
        if first_blank(s) < s.len() {
            assert(s.skip(1)[first_blank(s) - 1] == s[first_blank(s)]);
        }
    }
}

/// A position that is whitespace-free up to a whitespace (or the end) is
/// exactly [`first_blank`].
pub proof fn lemma_first_blank_at(s: Seq<char>, k: int)
    requires
        0 <= k <= s.len(),
        forall|i: int| 0 <= i < k ==> !is_blank(s[i]),
        k < s.len() ==> is_blank(s[k]),
    ensures
        first_blank(s) == k,
    decreases s.len(),
{
    if s.len() == 0 {
    } else if k == 0 {
    } else {
        assert(!is_blank(s[0]));
        assert forall|i: int| 0 <= i < k - 1 implies !is_blank(s.skip(1)[i]) by {
            assert(s.skip(1)[i] == s[i + 1]);
        }
        if k - 1 < s.skip(1).len() {
            assert(s.skip(1)[k - 1] == s[k]);
        }
        lemma_first_blank_at(s.skip(1), k - 1);
    }
}

/// Exec scan for [`first_blank`].
pub fn find_blank(v: &Vec<char>) -> (r: usize)
    ensures
        r == first_blank(v@),
{
    let mut i: usize = 0;
    while i < v.len()
        invariant
            0 <= i <= v@.len(),
            forall|k: int| 0 <= k < i ==> !is_blank(v@[k]),
        decreases v@.len() - i,
    {
        if blank(v[i]) {
            proof {
                lemma_first_blank_at(v@, i as int);
            }
            return i;
        }
        i = i + 1;
    }
    proof {
        lemma_first_blank_at(v@, v@.len() as int);
    }
    i
}

/// The whitespace-separated tokens of `s`, in order.
pub open spec fn tokens_of(s: Seq<char>) -> Seq<Seq<char>>
    decreases s.len(),
        via tokens_of_decreases
{
    if s.len() == 0 {
        Seq::empty()
    } else if is_blank(s[0]) {
        tokens_of(s.skip(1))
    } else {
        Seq::empty().push(s.take(first_blank(s))) + tokens_of(s.skip(first_blank(s)))
    }
}

#[via_fn]
proof fn tokens_of_decreases(s: Seq<char>) {
    if s.len() != 0 && !is_blank(s[0]) {
        lemma_first_blank(s);
        if first_blank(s) == 0 {
            assert(is_blank(s[0]));
        }
    }
}

/// A whitespace-free nonempty prefix, followed by nothing or by whitespace,
/// is the first token.
pub proof fn lemma_tokens_prefix(a: Seq<char>, b: Seq<char>)
    requires
        a.len() > 0,
        forall|i: int| 0 <= i < a.len() ==> !is_blank(a[i]),
        b.len() > 0 ==> is_blank(b[0]),
    ensures
        tokens_of(a + b) =~= Seq::empty().push(a) + tokens_of(b),
{
    let s = a + b;
    assert(!is_blank(s[0]));
    assert forall|i: int| 0 <= i < a.len() implies !is_blank(s[i]) by {
        assert(s[i] == a[i]);
    }
    if a.len() < s.len() {
        assert(s[a.len() as int] == b[0]);
    }
    lemma_first_blank_at(s, a.len() as int);
    assert(s.take(a.len() as int) =~= a);
    assert(s.skip(a.len() as int) =~= b);
}

/// A single whitespace-free nonempty text is one token.
pub proof fn lemma_tokens_single(t: Seq<char>)
    requires
        t.len() > 0,
        forall|i: int| 0 <= i < t.len() ==> !is_blank(t[i]),
    ensures
        tokens_of(t) =~= Seq::<Seq<char>>::empty().push(t),
{
    lemma_tokens_prefix(t, Seq::empty());
    assert(t + Seq::<char>::empty() =~= t);
    assert(tokens_of(Seq::<char>::empty()) =~= Seq::<Seq<char>>::empty());
}

/// Collects the characters of a string slice.
pub fn str_to_chars(s: &str) -> (r: Vec<char>)
    ensures
        r@ == s@,
{
    let n = s.unicode_len();
    let mut r: Vec<char> = Vec::new();
    let mut i: usize = 0;
    while i < n
        invariant
            n == s@.len(),
            0 <= i <= n,
            r@ =~= s@.take(i as int),
        decreases n - i,
    {
        r.push(s.get_char(i));
        assert(r@ =~= s@.take(i + 1));
        i = i + 1;
    }
    assert(s@.take(n as int) =~= s@);
    r
}

/// Builds a string from a range of a character vector.
pub fn chars_to_string(v: &Vec<char>, from: usize, to: usize) -> (r: String)
    requires
        from <= to <= v@.len(),
    ensures
        r@ == v@.subrange(from as int, to as int),
{
    let mut r = String::new();
    let mut i: usize = from;
    while i < to
        invariant
            from <= i <= to <= v@.len(),
            r@ =~= v@.subrange(from as int, i as int),
        decreases to - i,
    {
        r.push(v[i]);
        assert(r@ =~= v@.subrange(from as int, i + 1));
        i = i + 1;
    }
    r
}

/// Whether a character is a decimal digit.
pub open spec fn is_digit(c: char) -> bool {
    '0' <= c && c <= '9'
}

/// The numeric value of a decimal digit character.
pub open spec fn digit_val(c: char) -> int {
    c as int - '0' as int
}

/// Whether `s` is a nonempty run of decimal digits.
pub open spec fn is_dec(s: Seq<char>) -> bool {
    s.len() > 0 && forall|i: int| 0 <= i < s.len() ==> is_digit(s[i])
}

/// The number denoted by a run of decimal digits, most significant first.
pub open spec fn dec_val(s: Seq<char>) -> int
    decreases s.len(),
{
    if s.len() == 0 {
        0
    } else {
        dec_val(s.drop_last()) * 10 + digit_val(s.last())
    }
}

/// The digit character for a value below ten.
pub open spec fn digit_char(d: int) -> char {
    if d == 0 {
        '0'
    } else if d == 1 {
        '1'
    } else if d == 2 {
        '2'
    } else if d == 3 {
        '3'
    } else if d == 4 {
        '4'
    } else if d == 5 {
        '5'
    } else if d == 6 {
        '6'
    } else if d == 7 {
        '7'
    } else if d == 8 {
        '8'
    } else {
        '9'
    }
}

/// The decimal numeral of a nonnegative number, without sign or padding.
pub open spec fn dec_str(n: int) -> Seq<char>
    decreases n,
{
    if n < 10 {
        seq![digit_char(n)]
    } else {
        dec_str(n / 10) + seq![digit_char(n % 10)]
    }
}

/// A numeral denotes its number, and is made of digits.
pub proof fn lemma_dec_str(n: int)
    requires
        n >= 0,
    ensures
        is_dec(dec_str(n)),
        dec_val(dec_str(n)) == n,
    decreases n,
{
    if n < 10 {
        assert(dec_str(n) =~= Seq::<char>::empty().push(digit_char(n)));
        assert(dec_str(n).drop_last() =~= Seq::<char>::empty());
        assert(dec_str(n).last() == digit_char(n));
        assert(dec_val(Seq::<char>::empty()) == 0);
        assert(digit_val(digit_char(n)) == n);
    } else {
        lemma_dec_str(n / 10);
        let s = dec_str(n);
        let a = dec_str(n / 10);
        assert(s.drop_last() =~= a);
        assert(s.last() == digit_char(n % 10));
        assert(0 <= n % 10 < 10);
        assert(digit_val(digit_char(n % 10)) == n % 10);
        assert(dec_val(s) == (n / 10) * 10 + n % 10);
        assert forall|i: int| 0 <= i < s.len() implies is_digit(s[i]) by {
            if i < a.len() {
                assert(s[i] == a[i]);
            }
        }
    }
}

/// Reading one more digit multiplies by ten and adds it.
pub proof fn lemma_dec_val_take(s: Seq<char>, i: int)
    requires
        0 <= i < s.len(),
    ensures
        dec_val(s.take(i + 1)) == dec_val(s.take(i)) * 10 + digit_val(s[i]),
{
    assert(s.take(i + 1).drop_last() =~= s.take(i));
    assert(s.take(i + 1).last() == s[i]);
}

/// A digit run denotes a nonnegative number.
pub proof fn lemma_dec_val_nonneg(s: Seq<char>)
    requires
        forall|i: int| 0 <= i < s.len() ==> is_digit(s[i]),
    ensures
        dec_val(s) >= 0,
    decreases s.len(),
{
    if s.len() > 0 {
        assert forall|i: int| 0 <= i < s.drop_last().len() implies is_digit(s.drop_last()[i]) by {
            assert(s.drop_last()[i] == s[i]);
        }
        lemma_dec_val_nonneg(s.drop_last());
        assert(is_digit(s.last()));
    }
}

/// A digit run denotes at least what any prefix of it denotes.
pub proof fn lemma_dec_val_mono(s: Seq<char>, i: int)
    requires
        forall|k: int| 0 <= k < s.len() ==> is_digit(s[k]),
        0 <= i <= s.len(),
    ensures
        dec_val(s) >= dec_val(s.take(i)),
    decreases s.len() - i,
{
    if i == s.len() {
        assert(s.take(i) =~= s);
    } else {
        lemma_dec_val_take(s, i);
        assert forall|k: int| 0 <= k < s.take(i).len() implies is_digit(s.take(i)[k]) by {
            assert(s.take(i)[k] == s[k]);
        }
        lemma_dec_val_nonneg(s.take(i));
        assert(dec_val(s.take(i + 1)) >= dec_val(s.take(i)));
        lemma_dec_val_mono(s, i + 1);
    }
}

/// The digit character for a value below ten, in exec code.
pub fn digit_to_char(d: usize) -> (r: char)
    requires
        d < 10,
    ensures
        r == digit_char(d as int),
{
    if d == 0 {
        '0'
    } else if d == 1 {
        '1'
    } else if d == 2 {
        '2'
    } else if d == 3 {
        '3'
    } else if d == 4 {
        '4'
    } else if d == 5 {
        '5'
    } else if d == 6 {
        '6'
    } else if d == 7 {
        '7'
    } else if d == 8 {
        '8'
    } else {
        '9'
    }
}

/// Writes a number as its decimal numeral.
pub fn fmt_usize(n: usize) -> (r: Vec<char>)
    ensures
        r@ == dec_str(n as int),
    decreases n,
{
    if n < 10 {
        let mut r: Vec<char> = Vec::new();
        r.push(digit_to_char(n));
        assert(r@ =~= seq![digit_char(n as int)]);
        r
    } else {
        let mut r = fmt_usize(n / 10);
        r.push(digit_to_char(n % 10));
        assert(r@ =~= dec_str(n as int / 10) + seq![digit_char(n as int % 10)]);
        r
    }
}

/// Reads a decimal numeral from a range of a character vector; `None` when
/// the range is not a digit run or its value does not fit in `usize`.
pub fn parse_usize(v: &Vec<char>, from: usize, to: usize) -> (r: Option<usize>)
    requires
        from <= to <= v@.len(),
    ensures
        r is Some <==> is_dec(v@.subrange(from as int, to as int)) && dec_val(
            v@.subrange(from as int, to as int),
        ) <= usize::MAX,
        r matches Some(u) ==> u == dec_val(v@.subrange(from as int, to as int)),
{
    let ghost s = v@.subrange(from as int, to as int);
    if from == to {
        return None;
    }
    let mut acc: usize = 0;
    let mut i: usize = from;
    while i < to
        invariant
            from <= i <= to <= v@.len(),
            s == v@.subrange(from as int, to as int),
            forall|k: int| 0 <= k < i - from ==> is_digit(s[k]),
            acc == dec_val(s.take(i - from)),
        decreases to - i,
    {
        let c = v[i];
        assert(s[i - from] == c);
        if !('0' <= c && c <= '9') {
            return None;
        }
        let d = (c as u32 - 48) as usize;
        assert(d == digit_val(c)) by {
            assert(c as u32 >= 48 && c as u32 <= 57);
        }
        proof {
            lemma_dec_val_take(s, i - from);
        }
        if acc > (usize::MAX - d) / 10 {
            proof {
                let q = (usize::MAX - d) / 10;
                assert(usize::MAX - d == 10 * q + (usize::MAX - d) % 10);
                assert(acc * 10 + d > usize::MAX);
                assert(dec_val(s.take(i - from + 1)) > usize::MAX);
                if is_dec(s) {
                    lemma_dec_val_mono(s, i - from + 1);
                }
            }
            return None;
        }
        proof {
            let q = (usize::MAX - d) / 10;
            assert(usize::MAX - d == 10 * q + (usize::MAX - d) % 10);
            assert(acc * 10 + d <= usize::MAX);
        }
        acc = acc * 10 + d;
        i = i + 1;
    }
    proof {
        assert(s.take(to - from) =~= s);
    }
    Some(acc)
}

/// The whitespace-separated tokens of a character vector, as strings.
pub fn tokenize(v: &Vec<char>) -> (r: Vec<String>)
    ensures
        r.deep_view() == tokens_of(v@),
{
    let mut r: Vec<String> = Vec::new();
    let mut i: usize = 0;
    proof {
        assert(v@.skip(0) =~= v@);
    }
    while i < v.len()
        invariant
            0 <= i <= v@.len(),
            tokens_of(v@) == r.deep_view() + tokens_of(v@.skip(i as int)),
        decreases v@.len() - i,
    {
        if blank(v[i]) {
            proof {
                assert(v@.skip(i as int)[0] == v@[i as int]);
                assert(v@.skip(i as int).skip(1) =~= v@.skip(i + 1));
            }
            i = i + 1;
        } else {
            let mut j: usize = i + 1;
            while j < v.len() && !blank(v[j])
                invariant
                    i < j <= v@.len(),
                    forall|k: int| i <= k < j ==> !is_blank(v@[k]),
                decreases v@.len() - j,
            {
                j = j + 1;
            }
            let t = chars_to_string(v, i, j);
            proof {
                let tok = v@.subrange(i as int, j as int);
                let rest = v@.skip(j as int);
                assert(v@.skip(i as int) =~= tok + rest);
                assert forall|k: int| 0 <= k < tok.len() implies !is_blank(tok[k]) by {
                    assert(tok[k] == v@[i + k]);
                }
                if rest.len() > 0 {
                    assert(rest[0] == v@[j as int]);
                }
                lemma_tokens_prefix(tok, rest);
            }
            let ghost old_r = r.deep_view();
            r.push(t);
            proof {
                assert(r.deep_view() =~= old_r.push(t@));
                assert(r.deep_view() + tokens_of(v@.skip(j as int)) =~= tokens_of(v@));
            }
            i = j;
        }
    }
    proof {
        assert(v@.skip(v@.len() as int) =~= Seq::<char>::empty());
        assert(r.deep_view() + Seq::<Seq<char>>::empty() =~= r.deep_view());
    }
    r
}

/// The character's code point, tied to its spec-level integer value.
pub fn char_code(c: char) -> (r: u32)
    ensures
        r == c as int,
{
    c as u32
}

/// The character's code with an ASCII lowercase letter folded to uppercase.
pub open spec fn fold_up(c: char) -> int {
    if 'a' <= c && c <= 'z' {
        c as int - 32
    } else {
        c as int
    }
}

/// Whether `h` equals `tag` once ASCII lowercase letters of `h` are folded
/// to uppercase.
pub open spec fn matches_nocase(h: Seq<char>, tag: Seq<char>) -> bool {
    h.len() == tag.len() && forall|i: int| 0 <= i < h.len() ==> fold_up(h[i]) == tag[i] as int
}

/// Exec check for [`matches_nocase`] on a prefix of a character vector.
pub fn eq_nocase(v: &Vec<char>, upto: usize, tag: &str) -> (r: bool)
    requires
        upto <= v@.len(),
    ensures
        r == matches_nocase(v@.take(upto as int), tag@),
{
    let n = tag.unicode_len();
    if upto != n {
        return false;
    }
    let mut i: usize = 0;
    while i < upto
        invariant
            upto <= v@.len(),
            upto == tag@.len(),
            0 <= i <= upto,
            forall|k: int| 0 <= k < i ==> fold_up(v@[k]) == tag@[k] as int,
        decreases upto - i,
    {
        let hc = v[i];
        let tc = tag.get_char(i);
        let hv: u32 = if 'a' <= hc && hc <= 'z' {
            char_code(hc) - 32
        } else {
            char_code(hc)
        };
        proof {
            assert(hv == fold_up(hc));
        }
        if hv != char_code(tc) {
            return false;
        }
        i = i + 1;
    }
    proof {
        assert forall|k: int| 0 <= k < upto implies fold_up(v@.take(upto as int)[k]) == tag@[k] as int by {
            assert(v@.take(upto as int)[k] == v@[k]);
        }
    }
    true
}

/// Whether two string slices hold the same characters.
pub fn str_eq(a: &str, b: &str) -> (r: bool)
    ensures
        r == (a@ == b@),
{
    let na = a.unicode_len();
    let nb = b.unicode_len();
    if na != nb {
        return false;
    }
    let mut i: usize = 0;
    while i < na
        invariant
            na == a@.len(),
            na == b@.len(),
            0 <= i <= na,
            forall|k: int| 0 <= k < i ==> a@[k] == b@[k],
        decreases na - i,
    {
        if a.get_char(i) != b.get_char(i) {
            return false;
        }
        i = i + 1;
    }
    proof {
        assert(a@ =~= b@);
    }
    true
}

} // verus!
