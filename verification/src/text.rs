//! Character-level text handling: whitespace-separated words, substring
//! search, and decimal rendering and parsing of unsigned integers.
use vstd::prelude::*;

verus! {

/// The Unicode `White_Space` property, the set of characters that
/// separates words.
pub open spec fn is_white_space(c: char) -> bool {
    let u = c as u32;
    ||| 0x9 <= u <= 0xd
    ||| u == 0x20
    ||| u == 0x85
    ||| u == 0xa0
    ||| u == 0x1680
    ||| 0x2000 <= u <= 0x200a
    ||| u == 0x2028
    ||| u == 0x2029
    ||| u == 0x202f
    ||| u == 0x205f
    ||| u == 0x3000
}

/// Whether `c` is a Unicode whitespace character.
pub fn white_space(c: char) -> (b: bool)
    ensures
        b == is_white_space(c),
{
    let u = c as u32;
    (0x9 <= u && u <= 0xd) || u == 0x20 || u == 0x85 || u == 0xa0 || u == 0x1680 || (0x2000 <= u
        && u <= 0x200a) || u == 0x2028 || u == 0x2029 || u == 0x202f || u == 0x205f || u == 0x3000
}

/// The characters of a string, one element each.
pub fn chars_of(s: &str) -> (v: Vec<char>)
    ensures
        v@ == s@,
{
    let n = s.unicode_len();
    let mut v: Vec<char> = Vec::new();
    let mut i: usize = 0;
    while i < n
        invariant
            n == s@.len(),
            i <= n,
            v@ == s@.take(i as int),
        decreases n - i,
    {
        v.push(s.get_char(i));
        i = i + 1;
    }
    v
}

/// The words of `s`: its maximal runs of characters that are not
/// whitespace, in order.
pub open spec fn words(s: Seq<char>) -> Seq<Seq<char>>
    decreases s.len(),
{
    if s.len() == 0 {
        Seq::empty()
    } else {
        let w = words(s.drop_last());
        let c = s.last();
        if is_white_space(c) {
            w
        } else if s.len() >= 2 && !is_white_space(s[s.len() - 2]) && w.len() > 0 {
            w.update(w.len() - 1, w.last().push(c))
        } else {
            w.push(seq![c])
        }
    }
}

proof fn lemma_words_take(s: Seq<char>, i: int)
    requires
        0 < i <= s.len(),
    ensures
        words(s.take(i)) == ({
            let w = words(s.take(i - 1));
            let c = s[i - 1];
            if is_white_space(c) {
                w
            } else if i >= 2 && !is_white_space(s[i - 2]) && w.len() > 0 {
                w.update(w.len() - 1, w.last().push(c))
            } else {
                w.push(seq![c])
            }
        }),
{
    assert(s.take(i).drop_last() =~= s.take(i - 1));
}

/// The whitespace-separated words of `s`, as `str::split_whitespace`
/// yields them.
pub fn split_words(s: &str) -> (v: Vec<String>)
    ensures
        v.deep_view() == words(s@),
{
    let n = s.unicode_len();
    let mut v: Vec<String> = Vec::new();
    let mut start: usize = 0;
    let mut in_word = false;
    let mut i: usize = 0;
    assert(s@.take(0) =~= Seq::<char>::empty());
    while i < n
        invariant
            n == s@.len(),
            i <= n,
            start <= i,
            in_word ==> start < i && !is_white_space(s@[i - 1]),
            !in_word ==> (i == 0 || is_white_space(s@[i - 1])),
            in_word ==> words(s@.take(i as int)) == v.deep_view().push(s@.subrange(start as int, i as int)),
            !in_word ==> words(s@.take(i as int)) == v.deep_view(),
        decreases n - i,
    {
        let c = s.get_char(i);
        proof {
            lemma_words_take(s@, i + 1);
        }
        if white_space(c) {
            if in_word {
                let w = s.substring_char(start, i).to_owned();
                let ghost old_v = v.deep_view();
                v.push(w);
                assert(v.deep_view() =~= old_v.push(s@.subrange(start as int, i as int)));
                in_word = false;
            }
        } else {
            if !in_word {
                start = i;
                in_word = true;
                assert(s@.subrange(start as int, i + 1) =~= seq![c]);
            } else {
                assert(s@.subrange(start as int, i + 1) =~= s@.subrange(start as int, i as int).push(c));
            }
        }
        i = i + 1;
    }
    if in_word {
        let w = s.substring_char(start, n).to_owned();
        let ghost old_v = v.deep_view();
        v.push(w);
        assert(v.deep_view() =~= old_v.push(s@.subrange(start as int, n as int)));
    }
    assert(s@.take(n as int) =~= s@);
    v
}

/// `needle` occurs in `hay` as a contiguous run of characters.
pub open spec fn occurs_in(hay: Seq<char>, needle: Seq<char>) -> bool {
    exists|i: int|
        0 <= i && i + needle.len() <= hay.len() && #[trigger] hay.subrange(i, i + needle.len())
            == needle
}

/// Whether `needle` occurs in `hay`, as `str::contains` answers it.
pub fn contains(hay: &str, needle: &str) -> (b: bool)
    ensures
        b == occurs_in(hay@, needle@),
{
    let h = chars_of(hay);
    let n = chars_of(needle);
    if n.len() > h.len() {
        return false;
    }
    let last = h.len() - n.len();
    let mut i: usize = 0;
    while i <= last
        invariant
            h@ == hay@,
            n@ == needle@,
            n.len() <= h.len(),
            last == h.len() - n.len(),
            i <= last + 1,
            forall|k: int| 0 <= k < i ==> #[trigger] hay@.subrange(k, k + needle@.len()) != needle@,
        decreases last + 1 - i,
    {
        let mut j: usize = 0;
        let mut same = true;
        while j < n.len()
            invariant
                h@ == hay@,
                n@ == needle@,
                i <= last,
                last == h.len() - n.len(),
                j <= n.len(),
                same == (forall|k: int| 0 <= k < j ==> h@[i + k] == n@[k]),
            decreases n.len() - j,
        {
            if h[i + j] != n[j] {
                same = false;
            }
            j = j + 1;
        }
        if same {
            assert(hay@.subrange(i as int, i + needle@.len()) =~= needle@);
            return true;
        }
        assert(hay@.subrange(i as int, i + needle@.len()) != needle@) by {
            let k = choose|k: int| 0 <= k < n.len() && h@[i + k] != n@[k];
            assert(hay@.subrange(i as int, i + needle@.len())[k] != needle@[k]);
        }
        i = i + 1;
    }
    assert forall|k: int|
        0 <= k && k + needle@.len() <= hay@.len() implies #[trigger] hay@.subrange(
        k,
        k + needle@.len(),
    ) != needle@ by {
        assert(k < i);
    }
    false
}

/// The decimal digit character for `d` (`0 <= d < 10`).
pub open spec fn digit_char(d: int) -> char {
    (48 + d) as char
}

/// Whether `c` is one of the ASCII digits `0` to `9`.
pub open spec fn is_digit(c: char) -> bool {
    48 <= (c as u32) <= 57
}

/// The value a digit character stands for.
pub open spec fn digit_value(c: char) -> nat {
    ((c as u32) - 48) as nat
}

/// The decimal representation of `n`, without leading zeros.
pub open spec fn decimal(n: nat) -> Seq<char>
    decreases n,
{
    if n < 10 {
        seq![digit_char(n as int)]
    } else {
        decimal(n / 10).push(digit_char((n % 10) as int))
    }
}

/// The number a sequence of digits denotes.
pub open spec fn digits_value(d: Seq<char>) -> nat
    decreases d.len(),
{
    if d.len() == 0 {
        0
    } else {
        digits_value(d.drop_last()) * 10 + digit_value(d.last())
    }
}

/// Every character of `d` is a digit.
pub open spec fn all_digits(d: Seq<char>) -> bool {
    forall|i: int| 0 <= i < d.len() ==> is_digit(#[trigger] d[i])
}

/// The digits of `s` once one leading `+` is taken off.
pub open spec fn unsigned_digits(s: Seq<char>) -> Seq<char> {
    if s.len() > 0 && s[0] == '+' {
        s.drop_first()
    } else {
        s
    }
}

/// What `str::parse::<u32>` gives for `s`: an optional `+`, then one or
/// more digits denoting a value that fits in a `u32`.
pub open spec fn parse_u32_spec(s: Seq<char>) -> Option<u32> {
    let d = unsigned_digits(s);
    if d.len() > 0 && all_digits(d) && digits_value(d) <= u32::MAX {
        Some(digits_value(d) as u32)
    } else {
        None
    }
}

/// The text of `n` in decimal, as `format!("{}", n)` writes it.
pub fn render_u32(n: u32) -> (s: String)
    ensures
        s@ == decimal(n as nat),
{
    let ghost digits_spec = "0123456789"@;
    proof {
        reveal_strlit("0123456789");
    }
    let digits = "0123456789";
    // the digits of n, least significant first
    let mut rev: Vec<usize> = Vec::new();
    let mut m: u32 = n;
    while m >= 10
        invariant
            forall|k: int| 0 <= k < rev.len() ==> rev@[k] < 10,
            decimal(n as nat) == decimal(m as nat) + Seq::new(
                rev.len() as nat,
                |k: int| digit_char(rev@[rev.len() - 1 - k] as int),
            ),
        decreases m,
    {
        let ghost old_rev = rev@;
        let d = (m % 10) as usize;
        proof {
            assert(decimal(m as nat) == decimal((m / 10) as nat).push(digit_char(d as int)));
        }
        rev.push(d);
        let ghost m0 = m;
        m = m / 10;
        assert(decimal(m0 as nat) + Seq::new(
            old_rev.len() as nat,
            |k: int| digit_char(old_rev[old_rev.len() - 1 - k] as int),
        ) =~= decimal(m as nat) + Seq::new(
            rev.len() as nat,
            |k: int| digit_char(rev@[rev.len() - 1 - k] as int),
        ));
    }
    rev.push(m as usize);
    let ghost tail = Seq::new(
        rev.len() as nat,
        |k: int| digit_char(rev@[rev.len() - 1 - k] as int),
    );
    assert(decimal(n as nat) =~= tail);
    let mut out = String::new();
    let mut i: usize = rev.len();
    while i > 0
        invariant
            i <= rev.len(),
            forall|k: int| 0 <= k < rev.len() ==> rev@[k] < 10,
            digits@ == digits_spec,
            digits_spec =~= seq!['0', '1', '2', '3', '4', '5', '6', '7', '8', '9'],
            tail == Seq::new(rev.len() as nat, |k: int| digit_char(rev@[rev.len() - 1 - k] as int)),
            out@ == tail.take(rev.len() - i),
        decreases i,
    {
        i = i - 1;
        let d = rev[i];
        let one = digits.substring_char(d, d + 1);
        let ghost before = out@;
        out.append(one);
        assert(one@ =~= seq![digit_char(d as int)]);
        assert(tail.take(rev.len() - i) =~= before.push(digit_char(d as int)));
    }
    assert(tail.take(rev.len() as int) =~= tail);
    out
}

proof fn lemma_digits_value_take(d: Seq<char>, i: int)
    requires
        0 < i <= d.len(),
    ensures
        digits_value(d.take(i)) == digits_value(d.take(i - 1)) * 10 + digit_value(d[i - 1]),
{
    assert(d.take(i).drop_last() =~= d.take(i - 1));
}

proof fn lemma_digits_value_monotone(d: Seq<char>, i: int)
    requires
        0 <= i <= d.len(),
    ensures
        digits_value(d.take(i)) <= digits_value(d),
    decreases d.len() - i,
{
    if i < d.len() {
        lemma_digits_value_take(d, i + 1);
        lemma_digits_value_monotone(d, i + 1);
    } else {
        assert(d.take(i) =~= d);
    }
}

/// The `u32` written in `s`, as `str::parse::<u32>` reads it: `None`
/// exactly where that parse fails.
pub fn parse_u32(s: &str) -> (r: Option<u32>)
    ensures
        r == parse_u32_spec(s@),
{
    let c = chars_of(s);
    let mut i: usize = 0;
    if c.len() > 0 && c[0] == '+' {
        i = 1;
    }
    let ghost d = unsigned_digits(s@);
    assert(d =~= s@.skip(i as int));
    if i == c.len() {
        return None;
    }
    let start = i;
    let mut acc: u64 = 0;
    while i < c.len()
        invariant
            c@ == s@,
            d == s@.skip(start as int),
            d == unsigned_digits(s@),
            start <= i <= c.len(),
            start < c.len(),
            all_digits(d.take(i - start)),
            acc == digits_value(d.take(i - start)),
            acc <= u32::MAX,
        decreases c.len() - i,
    {
        let ch = c[i];
        let u = ch as u32;
        proof {
            lemma_digits_value_take(d, i - start + 1);
            assert(d[i - start] == ch);
        }
        if u < 48 || u > 57 {
            assert(!all_digits(d));
            return None;
        }
        acc = acc * 10 + (u - 48) as u64;
        assert(all_digits(d.take(i - start + 1))) by {
            assert forall|k: int| 0 <= k < i - start + 1 implies is_digit(
                #[trigger] d.take(i - start + 1)[k],
            ) by {
                if k < i - start {
                    assert(d.take(i - start + 1)[k] == d.take(i - start)[k]);
                }
            }
        }
        if acc > 0xffff_ffff {
            proof {
                lemma_digits_value_monotone(d, i - start + 1);
            }
            return None;
        }
        i = i + 1;
    }
    assert(d.take(i - start) =~= d);
    Some(acc as u32)
}

proof fn lemma_decimal_digits(n: nat)
    ensures
        decimal(n).len() > 0,
        all_digits(decimal(n)),
        digits_value(decimal(n)) == n,
    decreases n,
{
    if n < 10 {
        assert(digit_value(digit_char(n as int)) == n);
        assert(decimal(n).drop_last() =~= Seq::<char>::empty());
        assert(digits_value(decimal(n)) == digits_value(Seq::<char>::empty()) * 10 + digit_value(
            digit_char(n as int),
        ));
    } else {
        lemma_decimal_digits(n / 10);
        let d = (n % 10) as int;
        assert(digit_value(digit_char(d)) == d);
        assert(decimal(n).drop_last() =~= decimal(n / 10));
        assert(digits_value(decimal(n)) == digits_value(decimal(n / 10)) * 10 + d);
        assert(n == (n / 10) * 10 + d);
    }
}

/// Reading back the decimal text of a number gives the number: what
/// `render_u32` writes, `parse_u32` reads as the same value.
pub proof fn law_parse_renders(n: u32)
    ensures
        parse_u32_spec(decimal(n as nat)) == Some(n),
{
    lemma_decimal_digits(n as nat);
    let s = decimal(n as nat);
    assert(is_digit(s[0]));
    assert(unsigned_digits(s) == s);
}


/// The decimal text of `n` is its base-10 expansion in the ASCII digits
/// `'0'` (code 48) to `'9'` (code 57): one digit below ten, and otherwise
/// the text of `n / 10` followed by the digit whose code is `48 + n % 10`.
pub proof fn law_decimal_is_base_ten(n: nat)
    ensures
        forall|i: int| 0 <= i < decimal(n).len() ==> 48 <= #[trigger] (decimal(n)[i] as u32) <= 57,
        decimal(n).len() >= 1,
        decimal(n).last() as u32 == 48 + n % 10,
        n < 10 ==> decimal(n).len() == 1,
        n >= 10 ==> decimal(n).drop_last() == decimal(n / 10),
    decreases n,
{
    if n >= 10 {
        law_decimal_is_base_ten(n / 10);
        assert(decimal(n).drop_last() =~= decimal(n / 10));
        assert forall|i: int| 0 <= i < decimal(n).len() implies 48 <= #[trigger] (
        decimal(n)[i] as u32) <= 57 by {
            if i < decimal(n).len() - 1 {
                assert(decimal(n)[i] == decimal(n / 10)[i]);
            }
        }
    }
}

/// The empty text is no number.
pub proof fn law_parse_empty()
    ensures
        parse_u32_spec(Seq::empty()) == None::<u32>,
{
}

/// One ASCII digit reads as its code less 48.
pub proof fn law_parse_one_digit(c: char)
    requires
        48 <= c as u32 <= 57,
    ensures
        parse_u32_spec(seq![c]) == Some(((c as u32) - 48) as u32),
{
    let s = seq![c];
    assert(('+' as u32) == 43);
    assert(s[0] == c);
    assert(unsigned_digits(s) == s);
    assert(s.drop_last() =~= Seq::<char>::empty());
    assert(s.last() == c);
    assert(all_digits(s));
    assert(digits_value(s) == digits_value(Seq::<char>::empty()) * 10 + digit_value(c));
}

/// Appending an ASCII digit to a digit string multiplies its value by ten
/// and adds the digit's code less 48, while that fits in a `u32`; once the
/// value no longer fits, no number is read.
pub proof fn law_parse_append_digit(d: Seq<char>, c: char)
    requires
        d.len() > 0,
        forall|i: int| 0 <= i < d.len() ==> 48 <= #[trigger] (d[i] as u32) <= 57,
        48 <= c as u32 <= 57,
    ensures
        parse_u32_spec(d.push(c)) == (match parse_u32_spec(d) {
            Some(v) => if v * 10 + ((c as u32) - 48) <= u32::MAX {
                Some((v * 10 + ((c as u32) - 48)) as u32)
            } else {
                None
            },
            None => None,
        }),
{
    let e = d.push(c);
    assert(('+' as u32) == 43);
    assert(48 <= d[0] as u32);
    assert(e[0] == d[0]);
    assert(unsigned_digits(d) == d);
    assert(unsigned_digits(e) == e);
    assert(e.drop_last() =~= d);
    assert(all_digits(d));
    assert(all_digits(e)) by {
        assert forall|i: int| 0 <= i < e.len() implies is_digit(#[trigger] e[i]) by {
            if i < d.len() {
                assert(e[i] == d[i]);
            }
        }
    }
    assert(digits_value(e) == digits_value(d) * 10 + ((c as u32) - 48));
}

/// A character other than an ASCII digit, anywhere but as a single leading
/// `+`, means no number is read.
pub proof fn law_parse_rejects_non_digit(s: Seq<char>, i: int)
    requires
        0 <= i < s.len(),
        !(48 <= s[i] as u32 <= 57),
        !(i == 0 && s[0] == '+'),
    ensures
        parse_u32_spec(s) == None::<u32>,
{
    let d = unsigned_digits(s);
    if s.len() > 0 && s[0] == '+' {
        assert(d[i - 1] == s[i]);
        assert(!is_digit(d[i - 1]));
    } else {
        assert(d[i] == s[i]);
        assert(!is_digit(d[i]));
    }
}

/// One leading `+` is skipped: it reads as the text after it, when that
/// text does not itself start with `+`.
pub proof fn law_parse_plus(d: Seq<char>)
    requires
        !(d.len() > 0 && d[0] == '+'),
    ensures
        parse_u32_spec(seq!['+'] + d) == parse_u32_spec(d),
{
    let s = seq!['+'] + d;
    assert(s[0] == '+');
    assert(s.drop_first() =~= d);
    assert(unsigned_digits(d) == d);
}

} // verus!
