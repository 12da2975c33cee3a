//! Plain text: the characters of a string, numbers in decimal, alignment,
//! splitting and joining.
use vstd::prelude::*;

verus! {

/// `String::push` appends one character at the end.
pub assume_specification[ String::push ](s: &mut String, c: char)
    ensures
        final(s)@ == old(s)@.push(c),
;

/// `n` copies of the character `c`.
pub open spec fn fill(c: char, n: nat) -> Seq<char> {
    Seq::new(n, |i: int| c)
}

/// `s` moved to the right end of a field of `width` characters.
pub open spec fn right_aligned(s: Seq<char>, width: nat) -> Seq<char> {
    if s.len() < width {
        fill(' ', (width - s.len()) as nat) + s
    } else {
        s
    }
}

/// `s` at the left end of a field of `width` characters.
pub open spec fn left_aligned(s: Seq<char>, width: nat) -> Seq<char> {
    if s.len() < width {
        s + fill(' ', (width - s.len()) as nat)
    } else {
        s
    }
}

/// The decimal digit `d`.
pub open spec fn digit(d: int) -> char {
    (48 + d) as char
}

/// The decimal digits of `n`, most significant first, with no leading zero.
pub open spec fn decimal(n: nat) -> Seq<char>
    decreases n,
{
    if n < 10 {
        seq![digit(n as int)]
    } else {
        decimal(n / 10).push(digit((n % 10) as int))
    }
}

/// `i` in decimal, with a minus sign where it is negative.
pub open spec fn signed(i: int) -> Seq<char> {
    if i < 0 {
        "-"@ + decimal((-i) as nat)
    } else {
        decimal(i as nat)
    }
}

/// `i` in decimal, filled up with zeros behind the sign to `width` characters.
pub open spec fn zero_filled(i: int, width: nat) -> Seq<char> {
    let sign = if i < 0 {
        "-"@
    } else {
        ""@
    };
    let digits = decimal(if i < 0 {
        (-i) as nat
    } else {
        i as nat
    });
    let used = sign.len() + digits.len();
    sign + fill('0', if used < width {
        (width - used) as nat
    } else {
        0
    }) + digits
}

/// Whether `c` has the Unicode property White_Space.
pub open spec fn is_white_space(c: char) -> bool {
    let u = c as u32;
    ||| 0x9 <= u <= 0xd
    ||| u == 0x20
    ||| u == 0x85
    ||| u == 0xa0
    ||| u == 0x1680
    ||| 0x2000 <= u <= 0x200a
    ||| 0x2028 <= u <= 0x2029
    ||| u == 0x202f
    ||| u == 0x205f
    ||| u == 0x3000
}

/// Whether `s` holds nothing but white space.
pub open spec fn is_blank(s: Seq<char>) -> bool {
    forall|i: int| 0 <= i < s.len() ==> is_white_space(#[trigger] s[i])
}

/// `s` from its first character that is not white space on.
pub open spec fn trimmed_start(s: Seq<char>) -> Seq<char>
    decreases s.len(),
{
    if s.len() > 0 && is_white_space(s[0]) {
        trimmed_start(s.drop_first())
    } else {
        s
    }
}

/// `s` up to its last character that is not white space.
pub open spec fn trimmed_end(s: Seq<char>) -> Seq<char>
    decreases s.len(),
{
    if s.len() > 0 && is_white_space(s.last()) {
        trimmed_end(s.drop_last())
    } else {
        s
    }
}

/// `s` without the white space at its two ends.
pub open spec fn trimmed(s: Seq<char>) -> Seq<char> {
    trimmed_end(trimmed_start(s))
}

/// The number of characters in front of the first white space of `s`.
pub open spec fn word_len(s: Seq<char>) -> nat
    decreases s.len(),
{
    if s.len() == 0 || is_white_space(s[0]) {
        0
    } else {
        1 + word_len(s.drop_first())
    }
}

/// A word is no longer than the text that it starts.
pub proof fn lemma_word_len(s: Seq<char>)
    ensures
        word_len(s) <= s.len(),
    decreases s.len(),
{
    if s.len() > 0 && !is_white_space(s[0]) {
        lemma_word_len(s.drop_first());
    }
}

/// The longest stretches of `s` that hold no white space, in order.
pub open spec fn words_of(s: Seq<char>) -> Seq<Seq<char>>
    decreases s.len(),
{
    if s.len() == 0 {
        Seq::empty()
    } else if is_white_space(s[0]) {
        words_of(s.drop_first())
    } else {
        proof {
            lemma_word_len(s);
        }
        seq![s.take(word_len(s) as int)] + words_of(s.skip(word_len(s) as int))
    }
}

/// The position of the first `c` in `s`, or the length of `s` if it has none.
pub open spec fn first_at(s: Seq<char>, c: char) -> nat
    decreases s.len(),
{
    if s.len() == 0 || s[0] == c {
        0
    } else {
        1 + first_at(s.drop_first(), c)
    }
}

/// What stands in front of the first `c` of `s`, and what stands behind it.
pub open spec fn parted(s: Seq<char>, c: char) -> Option<(Seq<char>, Seq<char>)> {
    let k = first_at(s, c) as int;
    if k < s.len() {
        Some((s.take(k), s.skip(k + 1)))
    } else {
        None
    }
}

/// Whether `s` is one decimal digit or more and nothing else.
pub open spec fn all_digits(s: Seq<char>) -> bool {
    s.len() > 0 && forall|i: int| 0 <= i < s.len() ==> '0' <= #[trigger] s[i] <= '9'
}

/// The number that the decimal digits `s` stand for.
pub open spec fn digits_value(s: Seq<char>) -> nat
    decreases s.len(),
{
    if s.len() == 0 {
        0
    } else {
        digits_value(s.drop_last()) * 10 + (s.last() as nat - 48) as nat
    }
}

/// The integer that `s` stands for: digits, with at most one sign in front.
pub open spec fn int_value(s: Seq<char>) -> Option<int> {
    if s.len() > 0 && (s[0] == '-' || s[0] == '+') {
        if !all_digits(s.drop_first()) {
            None
        } else if s[0] == '-' {
            Some(-digits_value(s.drop_first()))
        } else {
            Some(digits_value(s.drop_first()) as int)
        }
    } else if all_digits(s) {
        Some(digits_value(s) as int)
    } else {
        None
    }
}

/// The strings `parts` in a row, with `sep` between each two.
pub open spec fn joined(parts: Seq<Seq<char>>, sep: Seq<char>) -> Seq<char>
    decreases parts.len(),
{
    if parts.len() == 0 {
        Seq::empty()
    } else if parts.len() == 1 {
        parts[0]
    } else {
        joined(parts.drop_last(), sep) + sep + parts.last()
    }
}

/// The characters of `s`.
pub fn chars_of(s: &str) -> (v: Vec<char>)
    ensures
        v@ == s@,
{
    let mut v: Vec<char> = Vec::new();
    for c in it: s.chars()
        invariant
            v@ == it.seq().take(it.index() as int),
            it.seq() == s@,
    {
        v.push(c);
    }
    assert(s@.take(s@.len() as int) == s@);
    v
}

/// The string that the characters `v` make.
pub fn string_of(v: &[char]) -> (s: String)
    ensures
        s@ == v@,
{
    let mut s = String::new();
    for i in 0..v.len()
        invariant
            s@ == v@.take(i as int),
    {
        s.push(v[i]);
        assert(v@.take(i as int).push(v@[i as int]) == v@.take(i + 1));
    }
    assert(v@.take(v@.len() as int) == v@);
    s
}

/// A string of `n` copies of `c`.
pub fn filled(c: char, n: usize) -> (s: String)
    ensures
        s@ == fill(c, n as nat),
{
    let mut s = String::new();
    for i in 0..n
        invariant
            s@ == fill(c, i as nat),
    {
        s.push(c);
        assert(fill(c, i as nat).push(c) == fill(c, (i + 1) as nat));
    }
    s
}

/// `s` at the right end of a field of `width` characters; a longer `s` is
/// left whole.
pub fn align_right(s: &str, width: usize) -> (r: String)
    ensures
        r@ == right_aligned(s@, width as nat),
{
    let len: usize = s.unicode_len();
    if len < width {
        filled(' ', width - len).concat(s)
    } else {
        s.to_owned()
    }
}

/// `s` at the left end of a field of `width` characters; a longer `s` is
/// left whole.
pub fn align_left(s: &str, width: usize) -> (r: String)
    ensures
        r@ == left_aligned(s@, width as nat),
{
    let len: usize = s.unicode_len();
    if len < width {
        s.to_owned().concat(filled(' ', width - len).as_str())
    } else {
        s.to_owned()
    }
}

/// `n` in decimal.
pub fn decimal_of(n: u64) -> (s: String)
    ensures
        s@ == decimal(n as nat),
    decreases n,
{
    let d: u8 = (n % 10) as u8;
    if n < 10 {
        let mut s = String::new();
        s.push((48 + d) as char);
        assert(s@ == decimal(n as nat));
        s
    } else {
        let mut s = decimal_of(n / 10);
        s.push((48 + d) as char);
        s
    }
}

/// `i` in decimal, with a minus sign where it is negative.
pub fn signed_of(i: i32) -> (s: String)
    ensures
        s@ == signed(i as int),
{
    if i < 0 {
        "-".to_owned().concat(decimal_of((-(i as i64)) as u64).as_str())
    } else {
        decimal_of(i as u64)
    }
}

/// `i` in decimal, filled up with zeros behind the sign to `width` characters.
pub fn zero_filled_of(i: i32, width: usize) -> (s: String)
    ensures
        s@ == zero_filled(i as int, width as nat),
{
    proof {
        reveal_strlit("-");
        reveal_strlit("");
    }
    let negative = i < 0;
    let digits = if negative {
        decimal_of((-(i as i64)) as u64)
    } else {
        decimal_of(i as u64)
    };
    let sign = if negative {
        "-"
    } else {
        ""
    };
    let len: usize = digits.as_str().unicode_len();
    let room: usize = if !negative {
        width
    } else if width > 0 {
        width - 1
    } else {
        0
    };
    let zeros = if len < room {
        filled('0', room - len)
    } else {
        filled('0', 0)
    };
    sign.to_owned().concat(zeros.as_str()).concat(digits.as_str())
}

/// Whether `c` is white space.
pub fn white_space(c: char) -> (b: bool)
    ensures
        b == is_white_space(c),
{
    let u: u32 = c as u32;
    (0x9 <= u && u <= 0xd) || u == 0x20 || u == 0x85 || u == 0xa0 || u == 0x1680 || (0x2000 <= u
        && u <= 0x200a) || (0x2028 <= u && u <= 0x2029) || u == 0x202f || u == 0x205f || u == 0x3000
}

/// Whether `s` holds nothing but white space.
pub fn blank(s: &str) -> (b: bool)
    ensures
        b == is_blank(s@),
        b == forall|i: int| 0 <= i < s@.len() ==> is_white_space(#[trigger] s@[i]),
{
    let v = chars_of(s);
    for i in 0..v.len()
        invariant
            v@ == s@,
            forall|j: int| 0 <= j < i ==> is_white_space(#[trigger] s@[j]),
    {
        if !white_space(v[i]) {
            assert(!is_white_space(s@[i as int]));
            return false;
        }
    }
    true
}

/// `s` from its first character that is not white space on.
pub fn trim_start(s: &str) -> (r: String)
    ensures
        r@ == trimmed_start(s@),
{
    let v = chars_of(s);
    let mut lo: usize = 0;
    assert(v@.skip(0) == v@);
    while lo < v.len() && white_space(v[lo])
        invariant
            lo <= v.len(),
            v@ == s@,
            trimmed_start(v@) == trimmed_start(v@.skip(lo as int)),
        decreases v.len() - lo,
    {
        assert(v@.skip(lo as int).drop_first() == v@.skip(lo + 1));
        lo += 1;
    }
    let mut r = String::new();
    for i in lo..v.len()
        invariant
            lo <= v.len(),
            r@ == v@.subrange(lo as int, i as int),
    {
        r.push(v[i]);
        assert(v@.subrange(lo as int, i as int).push(v@[i as int]) == v@.subrange(
            lo as int,
            i + 1,
        ));
    }
    assert(v@.subrange(lo as int, v@.len() as int) == v@.skip(lo as int));
    r
}

/// `s` up to its last character that is not white space.
pub fn trim_end(s: &str) -> (r: String)
    ensures
        r@ == trimmed_end(s@),
{
    let v = chars_of(s);
    let mut hi: usize = v.len();
    assert(v@.take(hi as int) == v@);
    while hi > 0 && white_space(v[hi - 1])
        invariant
            hi <= v.len(),
            v@ == s@,
            trimmed_end(v@) == trimmed_end(v@.take(hi as int)),
        decreases hi,
    {
        assert(v@.take(hi as int).drop_last() == v@.take(hi - 1));
        hi -= 1;
    }
    let mut r = String::new();
    for i in 0..hi
        invariant
            hi <= v.len(),
            r@ == v@.take(i as int),
    {
        r.push(v[i]);
        assert(v@.take(i as int).push(v@[i as int]) == v@.take(i + 1));
    }
    r
}

/// `s` without the white space at its two ends.
pub fn trim(s: &str) -> (r: String)
    ensures
        r@ == trimmed(s@),
{
    trim_end(trim_start(s).as_str())
}

/// The longest stretches of `s` that hold no white space, in order.
pub fn split_white_space(s: &str) -> (words: Vec<String>)
    ensures
        words@.map_values(|w: String| w@) == words_of(s@),
{
    let v = chars_of(s);
    let mut words: Vec<String> = Vec::new();
    let mut i: usize = 0;
    assert(v@.skip(0) == v@);
    assert(words@.map_values(|w: String| w@) == Seq::<Seq<char>>::empty());
    assert(Seq::<Seq<char>>::empty() + words_of(v@) == words_of(v@));
    while i < v.len()
        invariant
            i <= v.len(),
            v@ == s@,
            words@.map_values(|w: String| w@) + words_of(v@.skip(i as int)) == words_of(s@),
        decreases v.len() - i,
    {
        let ghost rest = v@.skip(i as int);
        let ghost done = words@.map_values(|w: String| w@);
        if white_space(v[i]) {
            assert(rest.drop_first() == v@.skip(i + 1));
            i += 1;
        } else {
            let start: usize = i;
            let mut w = String::new();
            while i < v.len() && !white_space(v[i])
                invariant
                    start <= i <= v.len(),
                    w@ == v@.subrange(start as int, i as int),
                    word_len(v@.skip(start as int)) == i - start + word_len(v@.skip(i as int)),
                decreases v.len() - i,
            {
                assert(v@.skip(i as int).drop_first() == v@.skip(i + 1));
                assert(v@.subrange(start as int, i as int).push(v@[i as int]) == v@.subrange(
                    start as int,
                    i + 1,
                ));
                w.push(v[i]);
                i += 1;
            }
            assert(word_len(v@.skip(i as int)) == 0);
            let ghost k = word_len(rest) as int;
            assert(rest.take(k) == w@);
            assert(rest.skip(k) == v@.skip(i as int));
            assert(words_of(rest) == seq![w@] + words_of(v@.skip(i as int)));
            words.push(w);
            assert(words@.map_values(|w: String| w@) == done.push(w@));
            assert(done.push(w@) + words_of(v@.skip(i as int)) == done + (seq![w@] + words_of(
                v@.skip(i as int),
            )));
        }
    }
    assert(words_of(v@.skip(i as int)) == Seq::<Seq<char>>::empty());
    assert(words@.map_values(|w: String| w@) + Seq::<Seq<char>>::empty() == words@.map_values(
        |w: String| w@,
    ));
    words
}

/// What stands in front of the first `c` of `s`, and what stands behind it.
pub fn split_once(s: &str, c: char) -> (r: Option<(String, String)>)
    ensures
        match r {
            Some((a, b)) => parted(s@, c) == Some((a@, b@)),
            None => parted(s@, c) is None,
        },
{
    let v = chars_of(s);
    let mut i: usize = 0;
    let mut a = String::new();
    assert(v@.skip(0) == v@);
    while i < v.len() && v[i] != c
        invariant
            i <= v.len(),
            a@ == v@.take(i as int),
            first_at(v@, c) == i + first_at(v@.skip(i as int), c),
        decreases v.len() - i,
    {
        assert(v@.skip(i as int).drop_first() == v@.skip(i + 1));
        assert(v@.take(i as int).push(v@[i as int]) == v@.take(i + 1));
        a.push(v[i]);
        i += 1;
    }
    assert(first_at(v@.skip(i as int), c) == 0);
    if i == v.len() {
        return None;
    }
    let mut b = String::new();
    let from: usize = i + 1;
    for j in from..v.len()
        invariant
            from <= v.len(),
            b@ == v@.subrange(from as int, j as int),
    {
        b.push(v[j]);
        assert(v@.subrange(from as int, j as int).push(v@[j as int]) == v@.subrange(
            from as int,
            j + 1,
        ));
    }
    assert(v@.subrange(from as int, v@.len() as int) == v@.skip(from as int));
    Some((a, b))
}

/// The value of the digits `v`, or 10,000,000,000 if it is that or more;
/// `None` if `v` is not one digit or more.
fn digits_capped(v: &[char]) -> (r: Option<u64>)
    ensures
        match r {
            Some(n) => all_digits(v@) && n == (if digits_value(v@) < 10_000_000_000 {
                digits_value(v@)
            } else {
                10_000_000_000
            }),
            None => !all_digits(v@),
        },
{
    if v.len() == 0 {
        return None;
    }
    let mut n: u64 = 0;
    for i in 0..v.len()
        invariant
            forall|j: int| 0 <= j < i ==> '0' <= #[trigger] v@[j] <= '9',
            n == (if digits_value(v@.take(i as int)) < 10_000_000_000 {
                digits_value(v@.take(i as int))
            } else {
                10_000_000_000
            }),
    {
        let c: char = v[i];
        if c < '0' || c > '9' {
            assert(!('0' <= v@[i as int] <= '9'));
            return None;
        }
        let d: u64 = (c as u32 - 48) as u64;
        assert(v@.take(i + 1).drop_last() == v@.take(i as int));
        if n * 10 + d < 10_000_000_000 {
            n = n * 10 + d;
        } else {
            n = 10_000_000_000;
        }
    }
    assert(v@.take(v@.len() as int) == v@);
    Some(n)
}

/// The integer that `s` stands for, if it is one and lies in the range of
/// `i32`.
pub fn parse_i32(s: &str) -> (r: Option<i32>)
    ensures
        match r {
            Some(i) => int_value(s@) == Some(i as int),
            None => match int_value(s@) {
                Some(i) => i < i32::MIN || i > i32::MAX,
                None => true,
            },
        },
{
    let v = chars_of(s);
    if v.len() > 0 && (v[0] == '-' || v[0] == '+') {
        let negative = v[0] == '-';
        let mut rest: Vec<char> = Vec::new();
        for i in 1..v.len()
            invariant
                v.len() > 0,
                rest@ == v@.subrange(1, i as int),
        {
            rest.push(v[i]);
            assert(v@.subrange(1, i as int).push(v@[i as int]) == v@.subrange(1, i + 1));
        }
        assert(rest@ == s@.drop_first());
        match digits_capped(rest.as_slice()) {
            None => None,
            Some(n) => {
                if negative {
                    if n <= 2_147_483_648 {
                        Some((-(n as i64)) as i32)
                    } else {
                        None
                    }
                } else if n <= 2_147_483_647 {
                    Some(n as i32)
                } else {
                    None
                }
            },
        }
    } else {
        match digits_capped(v.as_slice()) {
            None => None,
            Some(n) => {
                if n <= 2_147_483_647 {
                    Some(n as i32)
                } else {
                    None
                }
            },
        }
    }
}

/// A text is blank exactly if nothing is left of it once it is trimmed.
pub proof fn law_blank_trims_to_nothing(s: Seq<char>)
    ensures
        is_blank(s) <==> trimmed(s).len() == 0,
{
    law_trimmed_start(s);
    law_trimmed_end(trimmed_start(s));
    let t = trimmed_start(s);
    if trimmed(s).len() == 0 {
        if t.len() > 0 {
            assert(is_white_space(t[0]));
        }
        assert(t =~= Seq::empty());
    }
    if is_blank(s) && t.len() > 0 {
        assert(t[0] == s[s.len() - t.len()]);
    }
}

/// Trimming the start takes away white space only, and leaves a character that
/// is not white space in front.
pub proof fn law_trimmed_start(s: Seq<char>)
    ensures
        trimmed_start(s).len() <= s.len(),
        trimmed_start(s) == s.skip(s.len() - trimmed_start(s).len()),
        forall|i: int|
            0 <= i < s.len() - trimmed_start(s).len() ==> is_white_space(#[trigger] s[i]),
        trimmed_start(s).len() > 0 ==> !is_white_space(trimmed_start(s)[0]),
    decreases s.len(),
{
    if s.len() > 0 && is_white_space(s[0]) {
        let tail = s.drop_first();
        law_trimmed_start(tail);
        let n = s.len() - trimmed_start(s).len();
        assert(trimmed_start(s) =~= s.skip(n));
        assert forall|i: int| 0 <= i < n implies is_white_space(#[trigger] s[i]) by {
            if i > 0 {
                assert(s[i] == tail[i - 1]);
            }
        }
    } else {
        assert(s.skip(0) =~= s);
    }
}

/// Trimming the end takes away white space only, and leaves a character that is
/// not white space at the end.
pub proof fn law_trimmed_end(s: Seq<char>)
    ensures
        trimmed_end(s).len() <= s.len(),
        trimmed_end(s) == s.take(trimmed_end(s).len() as int),
        forall|i: int| trimmed_end(s).len() <= i < s.len() ==> is_white_space(#[trigger] s[i]),
        trimmed_end(s).len() > 0 ==> !is_white_space(trimmed_end(s).last()),
    decreases s.len(),
{
    if s.len() > 0 && is_white_space(s.last()) {
        let init = s.drop_last();
        law_trimmed_end(init);
        let n = trimmed_end(s).len() as int;
        assert(trimmed_end(s) =~= s.take(n));
        assert forall|i: int| n <= i < s.len() implies is_white_space(#[trigger] s[i]) by {
            if i < s.len() - 1 {
                assert(s[i] == init[i]);
            }
        }
    } else {
        assert(s.take(s.len() as int) =~= s);
    }
}

/// A word is not empty and holds no white space.
pub proof fn law_words_hold_no_white_space(s: Seq<char>, k: int, i: int)
    requires
        0 <= k < words_of(s).len(),
    ensures
        words_of(s)[k].len() > 0,
        0 <= i < words_of(s)[k].len() ==> !is_white_space(words_of(s)[k][i]),
    decreases s.len(),
{
    if is_white_space(s[0]) {
        law_words_hold_no_white_space(s.drop_first(), k, i);
    } else {
        let n = word_len(s);
        lemma_word_len(s);
        if k == 0 {
            if 0 <= i < n {
                lemma_word_chars(s, i);
            }
        } else {
            assert(words_of(s)[k] == words_of(s.skip(n as int))[k - 1]);
            law_words_hold_no_white_space(s.skip(n as int), k - 1, i);
        }
    }
}

proof fn lemma_word_chars(s: Seq<char>, i: int)
    requires
        0 <= i < word_len(s),
    ensures
        i < s.len(),
        !is_white_space(s[i]),
    decreases s.len(),
{
    if i > 0 {
        lemma_word_chars(s.drop_first(), i - 1);
        assert(s[i] == s.drop_first()[i - 1]);
    }
}

/// The sequences `parts` in a row.
pub open spec fn flat(parts: Seq<Seq<char>>) -> Seq<char>
    decreases parts.len(),
{
    if parts.len() == 0 {
        Seq::empty()
    } else {
        parts[0] + flat(parts.drop_first())
    }
}

/// `s` without its white space.
pub open spec fn squeezed(s: Seq<char>) -> Seq<char>
    decreases s.len(),
{
    if s.len() == 0 {
        Seq::empty()
    } else if is_white_space(s[0]) {
        squeezed(s.drop_first())
    } else {
        seq![s[0]] + squeezed(s.drop_first())
    }
}

/// Splitting into words loses white space and nothing else.
pub proof fn law_words_lose_nothing(s: Seq<char>)
    ensures
        flat(words_of(s)) == squeezed(s),
    decreases s.len(),
{
    if s.len() > 0 {
        if is_white_space(s[0]) {
            law_words_lose_nothing(s.drop_first());
        } else {
            let n = word_len(s) as int;
            lemma_word_len(s);
            law_words_lose_nothing(s.skip(n));
            lemma_squeezed_word(s, n);
            assert(words_of(s).drop_first() =~= words_of(s.skip(n)));
        }
    }
}

proof fn lemma_squeezed_word(s: Seq<char>, n: int)
    requires
        0 <= n <= word_len(s),
        word_len(s) <= s.len(),
    ensures
        squeezed(s) == s.take(n) + squeezed(s.skip(n)),
    decreases n,
{
    if n > 0 {
        let tail = s.drop_first();
        lemma_word_len(tail);
        lemma_squeezed_word(tail, n - 1);
        assert(tail.skip(n - 1) =~= s.skip(n));
        assert(seq![s[0]] + (tail.take(n - 1) + squeezed(s.skip(n))) =~= s.take(n) + squeezed(
            s.skip(n),
        ));
    } else {
        assert(s.skip(0) =~= s);
        assert(s.take(0) + squeezed(s) =~= squeezed(s));
    }
}

/// Parting at a separator gives back two texts that it was put between, if the
/// first does not hold it.
pub proof fn law_parted_gives_back(a: Seq<char>, c: char, b: Seq<char>)
    requires
        !a.contains(c),
    ensures
        parted(a.push(c) + b, c) == Some((a, b)),
{
    let s = a.push(c) + b;
    lemma_first_at(a, c, b);
    assert(s.take(a.len() as int) =~= a);
    assert(s.skip(a.len() as int + 1) =~= b);
}

proof fn lemma_first_at(a: Seq<char>, c: char, b: Seq<char>)
    requires
        !a.contains(c),
    ensures
        first_at(a.push(c) + b, c) == a.len(),
    decreases a.len(),
{
    let s = a.push(c) + b;
    if a.len() > 0 {
        let tail = a.drop_first();
        assert(a.contains(a[0]));
        assert(!tail.contains(c)) by {
            if tail.contains(c) {
                let i = choose|i: int| 0 <= i < tail.len() && tail[i] == c;
                assert(a[i + 1] == c);
            }
        }
        lemma_first_at(tail, c, b);
        assert(s.drop_first() =~= tail.push(c) + b);
    }
}

/// A number in decimal is read back.
pub proof fn law_decimal_reads_back(n: nat)
    ensures
        all_digits(decimal(n)),
        digits_value(decimal(n)) == n,
    decreases n,
{
    if n < 10 {
        assert(decimal(n).drop_last() =~= Seq::empty());
        assert(digits_value(decimal(n).drop_last()) == 0);
    } else {
        law_decimal_reads_back(n / 10);
        let init = decimal(n / 10);
        assert(decimal(n).drop_last() =~= init);
        assert forall|i: int| 0 <= i < decimal(n).len() implies '0' <= #[trigger] decimal(n)[i]
            <= '9' by {
            if i < init.len() {
                assert(decimal(n)[i] == init[i]);
            }
        }
    }
}

/// An integer in decimal is read back, sign and all.
pub proof fn law_signed_reads_back(i: int)
    ensures
        int_value(signed(i)) == Some(i),
{
    reveal_strlit("-");
    if i < 0 {
        law_decimal_reads_back((-i) as nat);
        assert(signed(i).drop_first() =~= decimal((-i) as nat));
    } else {
        law_decimal_reads_back(i as nat);
        assert('0' <= signed(i)[0] <= '9');
    }
}

/// What is neither a digit nor a minus sign does not occur in an integer.
pub proof fn lemma_signed_chars(i: int, c: char)
    requires
        c != '-',
        c < '0' || c > '9',
    ensures
        !signed(i).contains(c),
{
    reveal_strlit("-");
    let digits = decimal(if i < 0 {
        (-i) as nat
    } else {
        i as nat
    });
    law_decimal_reads_back(if i < 0 {
        (-i) as nat
    } else {
        i as nat
    });
    if signed(i).contains(c) {
        let k = choose|k: int| 0 <= k < signed(i).len() && signed(i)[k] == c;
        if i < 0 {
            assert(k > 0);
            assert(signed(i)[k] == digits[k - 1]);
        }
    }
}

/// A field is as wide as asked for, or as wide as what does not fit in it; it
/// holds its text at the end it is aligned to, and spaces besides.
pub proof fn law_field_width(s: Seq<char>, width: nat)
    ensures
        right_aligned(s, width).len() == if s.len() < width {
            width
        } else {
            s.len()
        },
        left_aligned(s, width).len() == right_aligned(s, width).len(),
        right_aligned(s, width).skip(right_aligned(s, width).len() - s.len()) == s,
        left_aligned(s, width).take(s.len() as int) == s,
        forall|i: int|
            0 <= i < right_aligned(s, width).len() - s.len() ==> #[trigger] right_aligned(
                s,
                width,
            )[i] == ' ',
        forall|i: int|
            s.len() <= i < left_aligned(s, width).len() ==> #[trigger] left_aligned(s, width)[i]
                == ' ',
{
    assert(right_aligned(s, width).skip(right_aligned(s, width).len() - s.len()) =~= s);
    assert(left_aligned(s, width).take(s.len() as int) =~= s);
}

/// A filling is as long as asked for and holds nothing else.
pub proof fn law_fill(c: char, n: nat)
    ensures
        fill(c, n).len() == n,
        forall|i: int| 0 <= i < n ==> #[trigger] fill(c, n)[i] == c,
{
}

/// A text is blank if it is empty; one more character keeps it blank if that is
/// white space.
pub proof fn law_blank_by_characters(s: Seq<char>, c: char)
    ensures
        is_blank(Seq::<char>::empty()),
        is_blank(s.push(c)) <==> is_blank(s) && is_white_space(c),
{
    if is_blank(s.push(c)) {
        assert forall|i: int| 0 <= i < s.len() implies is_white_space(#[trigger] s[i]) by {
            assert(s.push(c)[i] == s[i]);
        }
        assert(s.push(c)[s.len() as int] == c);
    }
}

/// Digits are read from the left: one more digit multiplies by ten and adds
/// itself.
pub proof fn law_digits_by_place(s: Seq<char>, c: char)
    requires
        '0' <= c <= '9',
    ensures
        digits_value(Seq::<char>::empty()) == 0,
        digits_value(s.push(c)) == 10 * digits_value(s) + (c as nat - '0' as nat),
        all_digits(s.push(c)) <==> s.len() == 0 || all_digits(s),
        !all_digits(Seq::<char>::empty()),
{
    assert(s.push(c).drop_last() =~= s);
    if all_digits(s.push(c)) {
        assert forall|i: int| 0 <= i < s.len() implies '0' <= #[trigger] s[i] <= '9' by {
            assert(s.push(c)[i] == s[i]);
        }
    }
}

/// Only digits are all digits.
pub proof fn law_all_digits(s: Seq<char>, i: int)
    requires
        all_digits(s),
        0 <= i < s.len(),
    ensures
        '0' <= s[i] <= '9',
{
}

/// A number in decimal has no leading zero, but for zero itself.
pub proof fn law_decimal_has_no_leading_zero(n: nat)
    ensures
        decimal(n).len() > 0,
        n > 0 ==> decimal(n)[0] != '0',
        n == 0 ==> decimal(n) == seq!['0'],
    decreases n,
{
    if n >= 10 {
        law_decimal_has_no_leading_zero(n / 10);
        assert(decimal(n)[0] == decimal(n / 10)[0]);
    } else {
        assert(decimal(n)[0] == digit(n as int));
        assert(n == 0 ==> decimal(n) =~= seq!['0']);
    }
}

/// An integer is its digits, behind a minus sign where it is negative.
pub proof fn law_signed_form(i: int)
    ensures
        i >= 0 ==> signed(i) == decimal(i as nat),
        i < 0 ==> signed(i) == seq!['-'] + decimal((-i) as nat),
{
    reveal_strlit("-");
    assert("-"@ =~= seq!['-']);
}

/// What digits with a sign in front of them stand for.
pub proof fn law_int_value_by_sign(s: Seq<char>)
    requires
        all_digits(s),
    ensures
        int_value(s) == Some(digits_value(s) as int),
        int_value(seq!['+'] + s) == Some(digits_value(s) as int),
        int_value(seq!['-'] + s) == Some(-digits_value(s)),
{
    assert('0' <= s[0] <= '9');
    assert((seq!['+'] + s).drop_first() =~= s);
    assert((seq!['-'] + s).drop_first() =~= s);
}

/// What stands for an integer is digits, with at most one sign in front.
pub proof fn law_integers_are_digits(s: Seq<char>)
    requires
        int_value(s) is Some,
    ensures
        s.len() > 0,
        s[0] == '+' || s[0] == '-' || '0' <= s[0] <= '9',
        forall|i: int| 1 <= i < s.len() ==> '0' <= #[trigger] s[i] <= '9',
        s.len() == 1 ==> '0' <= s[0] <= '9',
{
    if s[0] == '+' || s[0] == '-' {
        let tail = s.drop_first();
        assert forall|i: int| 1 <= i < s.len() implies '0' <= #[trigger] s[i] <= '9' by {
            assert(s[i] == tail[i - 1]);
        }
    }
}

proof fn lemma_leading_zeros(k: nat, d: Seq<char>)
    ensures
        digits_value(fill('0', k) + d) == digits_value(d),
    decreases d.len(), k,
{
    let s = fill('0', k) + d;
    if d.len() > 0 {
        lemma_leading_zeros(k, d.drop_last());
        assert(s.drop_last() =~= fill('0', k) + d.drop_last());
    } else if k > 0 {
        lemma_leading_zeros((k - 1) as nat, d);
        assert(s.drop_last() =~= fill('0', (k - 1) as nat) + d);
    } else {
        assert(s =~= d);
    }
}

/// An integer filled up with zeros still stands for itself, keeps its sign in
/// front, and is as wide as asked for if it fits.
pub proof fn law_zero_filled_reads_back(i: int, width: nat)
    ensures
        int_value(zero_filled(i, width)) == Some(i),
        zero_filled(i, width).len() == if signed(i).len() < width {
            width
        } else {
            signed(i).len()
        },
        zero_filled(i, width)[0] == '-' <==> i < 0,
        i >= 0 ==> all_digits(zero_filled(i, width)),
{
    reveal_strlit("-");
    reveal_strlit("");
    let n = if i < 0 {
        (-i) as nat
    } else {
        i as nat
    };
    let digits = decimal(n);
    let used = (if i < 0 {
        1nat
    } else {
        0nat
    }) + digits.len();
    let k = if used < width {
        (width - used) as nat
    } else {
        0
    };
    let body = fill('0', k) + digits;
    law_decimal_reads_back(n);
    lemma_leading_zeros(k, digits);
    assert(all_digits(body));
    law_int_value_by_sign(body);
    if i < 0 {
        assert(zero_filled(i, width) =~= seq!['-'] + body);
    } else {
        assert(zero_filled(i, width) =~= body);
        assert('0' <= body[0] <= '9');
    }
}

/// Without the separator there is nothing to part.
pub proof fn law_parted_needs_separator(s: Seq<char>, c: char)
    ensures
        parted(s, c) is Some <==> s.contains(c),
    decreases s.len(),
{
    lemma_first_at_is_first(s, c);
    let k = first_at(s, c) as int;
    if k < s.len() {
        assert(s[k] == c);
    }
}

proof fn lemma_first_at_is_first(s: Seq<char>, c: char)
    ensures
        first_at(s, c) <= s.len(),
        first_at(s, c) < s.len() ==> s[first_at(s, c) as int] == c,
        forall|i: int| 0 <= i < first_at(s, c) ==> #[trigger] s[i] != c,
    decreases s.len(),
{
    if s.len() > 0 && s[0] != c {
        let tail = s.drop_first();
        lemma_first_at_is_first(tail, c);
        assert forall|i: int| 0 <= i < first_at(s, c) implies #[trigger] s[i] != c by {
            if i > 0 {
                assert(s[i] == tail[i - 1]);
            }
        }
    }
}

/// A text without white space is one word; white space between two texts parts
/// their words, and stands in none of them.
pub proof fn law_words_are_separated(a: Seq<char>, c: char, b: Seq<char>)
    requires
        is_white_space(c),
    ensures
        words_of(a.push(c) + b) == words_of(a) + words_of(b),
    decreases a.len(),
{
    let s = a.push(c) + b;
    if a.len() == 0 {
        assert(s[0] == c);
        assert(s.drop_first() =~= b);
        assert(words_of(a) + words_of(b) =~= words_of(b));
    } else if is_white_space(a[0]) {
        law_words_are_separated(a.drop_first(), c, b);
        assert(s[0] == a[0]);
        assert(s.drop_first() =~= a.drop_first().push(c) + b);
    } else {
        let n = word_len(a) as int;
        lemma_word_len(a);
        lemma_word_ends(a, c, b);
        assert(s[0] == a[0]);
        assert(word_len(s) == n);
        assert(s.take(n) =~= a.take(n));
        assert(s.skip(n) =~= a.skip(n).push(c) + b);
        law_words_are_separated(a.skip(n), c, b);
        let w = seq![a.take(n)];
        assert(words_of(s) == w + words_of(s.skip(n)));
        assert(words_of(a) == w + words_of(a.skip(n)));
        assert((w + words_of(a.skip(n))) + words_of(b) =~= w + (words_of(a.skip(n)) + words_of(b)));
    }
}

/// A word goes on up to the first white space.
proof fn lemma_word_ends(a: Seq<char>, c: char, b: Seq<char>)
    requires
        is_white_space(c),
    ensures
        word_len(a.push(c) + b) == word_len(a),
    decreases a.len(),
{
    let s = a.push(c) + b;
    if a.len() == 0 {
        assert(s[0] == c);
    } else if !is_white_space(a[0]) {
        assert(s[0] == a[0]);
        lemma_word_ends(a.drop_first(), c, b);
        assert(s.drop_first() =~= a.drop_first().push(c) + b);
    }
}

/// Whether `s` is a single word: not empty, and without white space.
pub open spec fn is_word(s: Seq<char>) -> bool {
    s.len() > 0 && forall|i: int| 0 <= i < s.len() ==> !is_white_space(#[trigger] s[i])
}

/// A single word is its only word, and an empty text has none.
pub proof fn law_one_word(s: Seq<char>)
    ensures
        is_word(s) ==> words_of(s) == seq![s],
        words_of(Seq::<char>::empty()) == Seq::<Seq<char>>::empty(),
{
    if is_word(s) {
        lemma_whole_word(s);
        assert(s.take(s.len() as int) =~= s);
        assert(s.skip(s.len() as int) =~= Seq::empty());
        assert(words_of(s.skip(s.len() as int)) =~= Seq::empty());
        assert(words_of(s) =~= seq![s]);
    }
}

proof fn lemma_whole_word(s: Seq<char>)
    requires
        forall|i: int| 0 <= i < s.len() ==> !is_white_space(#[trigger] s[i]),
    ensures
        word_len(s) == s.len(),
    decreases s.len(),
{
    if s.len() > 0 {
        let tail = s.drop_first();
        assert forall|i: int| 0 <= i < tail.len() implies !is_white_space(#[trigger] tail[i]) by {
            assert(tail[i] == s[i + 1]);
        }
        assert(!is_white_space(s[0]));
        lemma_whole_word(tail);
    }
}

/// Joining nothing gives nothing, joining one text gives that text, and the
/// separator stands between what two stretches give.
pub proof fn law_joined_by_parts(
    x: Seq<char>,
    a: Seq<Seq<char>>,
    b: Seq<Seq<char>>,
    sep: Seq<char>,
)
    ensures
        joined(Seq::<Seq<char>>::empty(), sep).len() == 0,
        joined(seq![x], sep) == x,
        a.len() > 0 && b.len() > 0 ==> joined(a + b, sep) == joined(a, sep) + sep + joined(b, sep),
    decreases b.len(),
{
    if a.len() > 0 && b.len() > 0 {
        let s = a + b;
        if b.len() == 1 {
            assert(s.drop_last() =~= a);
            assert(s.last() == b[0]);
        } else {
            law_joined_by_parts(x, a, b.drop_last(), sep);
            assert(s.drop_last() =~= a + b.drop_last());
            assert(s.last() == b.last());
            let left = joined(a, sep);
            let mid = joined(b.drop_last(), sep);
            assert((((left + sep) + mid) + sep) + b.last() =~= (left + sep) + ((mid + sep)
                + b.last()));
        }
    }
}

/// A row of texts that has none yet.
pub open spec fn no_fields() -> Seq<Seq<char>> {
    Seq::empty()
}

/// One more text in a row comes at the end.
pub broadcast proof fn lemma_flat_push(parts: Seq<Seq<char>>, x: Seq<char>)
    ensures
        #[trigger] flat(parts.push(x)) == flat(parts) + x,
    decreases parts.len(),
{
    let all = parts.push(x);
    if parts.len() == 0 {
        assert(all.drop_first() =~= Seq::empty());
        assert(flat(all.drop_first()).len() == 0);
        assert(flat(all) == x + flat(all.drop_first()));
        assert(flat(all) =~= flat(parts) + x);
    } else {
        assert(all.drop_first() =~= parts.drop_first().push(x));
        lemma_flat_push(parts.drop_first(), x);
        assert(all[0] == parts[0]);
        assert(flat(all) == all[0] + flat(all.drop_first()));
        assert(flat(all) =~= flat(parts) + x);
    }
}

/// Nothing in a row is nothing, and one text in a row is that text.
pub broadcast proof fn lemma_flat_one(x: Seq<char>)
    ensures
        #[trigger] flat(no_fields().push(x)) == x,
{
    lemma_flat_push(Seq::empty(), x);
    assert(flat(Seq::<Seq<char>>::empty()) + x =~= x);
}

/// Texts in a row are those in front of a place and those from there on.
pub proof fn lemma_flat_cut(parts: Seq<Seq<char>>, at: int)
    requires
        0 <= at <= parts.len(),
    ensures
        flat(parts) == flat(parts.take(at)) + flat(parts.skip(at)),
    decreases parts.len() - at,
{
    if at == parts.len() {
        assert(parts.take(at) =~= parts);
        assert(parts.skip(at) =~= Seq::empty());
        assert(flat(parts) + flat(parts.skip(at)) =~= flat(parts));
    } else {
        lemma_flat_cut(parts, at + 1);
        lemma_flat_push(parts.take(at), parts[at]);
        assert(parts.take(at + 1) =~= parts.take(at).push(parts[at]));
        assert(parts.skip(at).drop_first() =~= parts.skip(at + 1));
        let (f, p, b) = (flat(parts.take(at)), parts[at], flat(parts.skip(at + 1)));
        assert((f + p) + b =~= f + (p + b));
    }
}

/// A number that stands in a row behind a label is read back there, if what
/// follows does not start with a digit.
pub proof fn lemma_row_shows(parts: Seq<Seq<char>>, at: int, n: nat)
    requires
        0 <= at < parts.len() - 2,
        parts[at + 1] == decimal(n),
        parts[at + 2].len() > 0,
        !('0' <= parts[at + 2][0] <= '9'),
    ensures
        shows(flat(parts), parts[at], n),
{
    lemma_flat_cut(parts, at);
    let front = flat(parts.take(at));
    let rest = parts.skip(at);
    let back = flat(rest.drop_first().drop_first());
    let (label, digits) = (parts[at], parts[at + 1]);
    assert(rest[0] == label);
    assert(rest.drop_first()[0] == digits);
    assert(rest.drop_first().drop_first()[0] == parts[at + 2]);
    assert(flat(rest) == rest[0] + flat(rest.drop_first()));
    assert(flat(rest.drop_first()) == rest.drop_first()[0] + back);
    assert(back == parts[at + 2] + flat(rest.drop_first().drop_first().drop_first()));
    assert(back[0] == parts[at + 2][0]);
    assert(flat(parts) =~= ((front + label) + digits) + back);
    lemma_shows(front, label, n, back);
}

/// A stretch of a row stands in the row.
pub proof fn lemma_row_holds(parts: Seq<Seq<char>>, from: int, to: int)
    requires
        0 <= from <= to <= parts.len(),
    ensures
        holds(flat(parts), flat(parts.subrange(from, to))),
{
    lemma_flat_cut(parts, to);
    lemma_flat_cut(parts.take(to), from);
    assert(parts.take(to).take(from) =~= parts.take(from));
    assert(parts.take(to).skip(from) =~= parts.subrange(from, to));
    lemma_holds(
        flat(parts.take(from)),
        flat(parts.subrange(from, to)),
        flat(parts.skip(to)),
    );
}

/// Whether the text `label` stands in `s` with the number `n` behind it: as many
/// digits as there are, and at least one.
pub open spec fn shows(s: Seq<char>, label: Seq<char>, n: nat) -> bool {
    exists|front: Seq<char>, digits: Seq<char>, back: Seq<char>|
        #[trigger] is_shown(s, front, label, digits, back) && digits_value(digits) == n
}

/// Whether `s` is `front`, `label`, `digits` and `back`, in this order, with
/// nothing but the digits behind the label up to `back`.
pub open spec fn is_shown(
    s: Seq<char>,
    front: Seq<char>,
    label: Seq<char>,
    digits: Seq<char>,
    back: Seq<char>,
) -> bool {
    &&& s == front + label + digits + back
    &&& all_digits(digits)
    &&& back.len() > 0 ==> !('0' <= back[0] <= '9')
}

/// A number that is put behind a label is read back there.
pub proof fn lemma_shows(front: Seq<char>, label: Seq<char>, n: nat, back: Seq<char>)
    requires
        back.len() > 0 ==> !('0' <= back[0] <= '9'),
    ensures
        shows(front + label + decimal(n) + back, label, n),
{
    law_decimal_reads_back(n);
    assert(is_shown(front + label + decimal(n) + back, front, label, decimal(n), back));
}

/// Whether `s` is `front`, `part` and `back`, in this order.
pub open spec fn is_around(s: Seq<char>, front: Seq<char>, part: Seq<char>, back: Seq<char>) -> bool {
    s == front + part + back
}

/// Whether `part` stands in `s`.
pub open spec fn holds(s: Seq<char>, part: Seq<char>) -> bool {
    exists|front: Seq<char>, back: Seq<char>| #[trigger] is_around(s, front, part, back)
}

/// What is put between two texts stands there.
pub proof fn lemma_holds(front: Seq<char>, part: Seq<char>, back: Seq<char>)
    ensures
        holds(front + part + back, part),
{
    assert(is_around(front + part + back, front, part, back));
}

/// What stands in a part of a text stands in the text.
pub proof fn law_holds_is_transitive(s: Seq<char>, part: Seq<char>, inner: Seq<char>)
    requires
        holds(s, part),
        holds(part, inner),
    ensures
        holds(s, inner),
{
    let (f, b) = choose|f: Seq<char>, b: Seq<char>| #[trigger] is_around(s, f, part, b);
    let (g, c) = choose|g: Seq<char>, c: Seq<char>| #[trigger] is_around(part, g, inner, c);
    assert((f + ((g + inner) + c)) + b =~= ((f + g) + inner) + (c + b));
    assert(is_around(s, f + g, inner, c + b));
}

} // verus!
