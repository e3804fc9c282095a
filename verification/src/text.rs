//! Text as sequences of characters: searching, splitting, lower-casing,
//! decimal numerals and the ASCII that EXIF text fields hold.

use vstd::prelude::*;
use vstd::string::*;

verus! {

// ---------------------------------------------------------------------------
// Characters
// ---------------------------------------------------------------------------

/// Every character of `s` lies in the ASCII range.
pub open spec fn ascii(s: Seq<char>) -> bool {
    forall|i: int| 0 <= i < s.len() ==> (#[trigger] s[i]) as u32 <= 0x7f
}

/// `c` with the letters `A` to `Z` mapped to `a` to `z`.
pub open spec fn ascii_lower(c: char) -> char {
    if 'A' <= c && c <= 'Z' {
        ((c as u32) + 32) as char
    } else {
        c
    }
}

/// What Unicode lower-casing makes of a text with characters beyond ASCII.
pub uninterp spec fn unicode_lowercase(s: Seq<char>) -> Seq<char>;

/// `s` in lower case.
pub open spec fn lower(s: Seq<char>) -> Seq<char> {
    if ascii(s) {
        s.map_values(|c: char| ascii_lower(c))
    } else {
        unicode_lowercase(s)
    }
}

/// Lower-cases with `str::to_lowercase`, which follows Unicode: an ASCII text
/// has exactly its capital letters replaced; for any other text the result is
/// a function of the text alone and has the name `unicode_lowercase`.
#[verifier::external_body]
pub(crate) fn to_lower(s: &str) -> (r: String)
    ensures
        r@ == lower(s@),
        !ascii(s@) ==> r@ == unicode_lowercase(s@),
{
    s.to_lowercase()
}

/// Appends one character with `String::push`.
pub assume_specification[ String::push ](s: &mut String, c: char)
    ensures
        final(s)@ == old(s)@.push(c),
;

/// The characters with the Unicode property White_Space.
pub open spec fn is_space(c: char) -> bool {
    let n = c as u32;
    ||| 0x09 <= n <= 0x0d
    ||| n == 0x20
    ||| n == 0x85
    ||| n == 0xa0
    ||| n == 0x1680
    ||| 0x2000 <= n <= 0x200a
    ||| n == 0x2028
    ||| n == 0x2029
    ||| n == 0x202f
    ||| n == 0x205f
    ||| n == 0x3000
}

/// Whether `c` is white space.
pub fn char_is_space(c: char) -> (r: bool)
    ensures
        r == is_space(c),
{
    let n: u32 = c as u32;
    (0x09 <= n && n <= 0x0d) || n == 0x20 || n == 0x85 || n == 0xa0 || n == 0x1680 || (0x2000 <= n
        && n <= 0x200a) || n == 0x2028 || n == 0x2029 || n == 0x202f || n == 0x205f || n == 0x3000
}

/// A character that prints and is plain ASCII.
pub open spec fn is_printable(c: char) -> bool {
    0x20 <= c as u32 <= 0x7e
}

/// Every character of `s` prints and is plain ASCII.
pub open spec fn printable(s: Seq<char>) -> bool {
    forall|i: int| 0 <= i < s.len() ==> is_printable(#[trigger] s[i])
}

/// `s` with a question mark in the place of every character beyond ASCII.
pub open spec fn ascii_form(s: Seq<char>) -> Seq<char> {
    s.map_values(
        |c: char|
            if c as u32 <= 0x7f {
                c
            } else {
                '?'
            },
    )
}

// ---------------------------------------------------------------------------
// Characters of a text, and back
// ---------------------------------------------------------------------------

/// The content of a list of texts.
pub open spec fn texts(list: Seq<String>) -> Seq<Seq<char>> {
    list.map_values(|s: String| s@)
}

/// The characters of `s`.
pub fn chars_of(s: &str) -> (v: Vec<char>)
    ensures
        v@ == s@,
{
    let mut v: Vec<char> = Vec::new();
    for c in it: s.chars()
        invariant
            it.seq() == s@,
            v@ == s@.take(it.index() as int),
    {
        v.push(c);
        assert(s@.take(it.index() as int + 1) =~= s@.take(it.index() as int).push(c));
    }
    assert(s@.take(s@.len() as int) =~= s@);
    v
}

/// The text made of `chars[from..to]`.
pub fn text_between(chars: &Vec<char>, from: usize, to: usize) -> (r: String)
    requires
        from <= to <= chars@.len(),
    ensures
        r@ == chars@.subrange(from as int, to as int),
{
    let mut r = String::new();
    let mut i: usize = from;
    while i < to
        invariant
            from <= i <= to <= chars@.len(),
            r@ == chars@.subrange(from as int, i as int),
        decreases to - i,
    {
        r.push(chars[i]);
        assert(chars@.subrange(from as int, i as int + 1) =~= chars@.subrange(
            from as int,
            i as int,
        ).push(chars@[i as int]));
        i += 1;
    }
    r
}

/// Whether two texts are the same.
pub fn same_text(a: &str, b: &str) -> (r: bool)
    ensures
        r == (a@ == b@),
{
    let x = chars_of(a);
    let y = chars_of(b);
    if x.len() != y.len() {
        return false;
    }
    let mut i: usize = 0;
    while i < x.len()
        invariant
            x@ == a@,
            y@ == b@,
            x@.len() == y@.len(),
            i <= x@.len(),
            forall|j: int| 0 <= j < i ==> x@[j] == y@[j],
        decreases x.len() - i,
    {
        if x[i] != y[i] {
            return false;
        }
        i += 1;
    }
    assert(a@ =~= b@);
    true
}

/// `s` with every character beyond ASCII replaced.
pub fn to_ascii(s: &str) -> (r: String)
    ensures
        r@ == ascii_form(s@),
        ascii(r@),
{
    let chars = chars_of(s);
    let mut r = String::new();
    let mut i: usize = 0;
    while i < chars.len()
        invariant
            chars@ == s@,
            i <= chars@.len(),
            r@ == ascii_form(s@.take(i as int)),
        decreases chars.len() - i,
    {
        let c = chars[i];
        let n: u32 = c as u32;
        if n <= 0x7f {
            r.push(c);
        } else {
            r.push('?');
        }
        assert(r@ =~= ascii_form(s@.take(i as int + 1)));
        i += 1;
    }
    assert(s@.take(s@.len() as int) =~= s@);
    r
}

// ---------------------------------------------------------------------------
// Searching
// ---------------------------------------------------------------------------

/// `needle` stands in `hay` at position `i`.
pub open spec fn occurs_at(hay: Seq<char>, needle: Seq<char>, i: int) -> bool {
    0 <= i && i + needle.len() <= hay.len() && hay.subrange(i, i + needle.len() as int) == needle
}

/// `needle` stands somewhere in `hay`.
pub open spec fn occurs(hay: Seq<char>, needle: Seq<char>) -> bool {
    exists|i: int| occurs_at(hay, needle, i)
}

/// The first position of `needle` in `hay`.
pub open spec fn first_at(hay: Seq<char>, needle: Seq<char>, i: int) -> bool {
    &&& occurs_at(hay, needle, i)
    &&& forall|j: int| 0 <= j < i ==> !occurs_at(hay, needle, j)
}

/// Where `needle` first stands in `hay`, if it does.
pub open spec fn find(hay: Seq<char>, needle: Seq<char>) -> Option<int> {
    if occurs(hay, needle) {
        Some(choose|i: int| first_at(hay, needle, i))
    } else {
        None
    }
}

/// A text that occurs has one first position.
pub proof fn lemma_find_at(hay: Seq<char>, needle: Seq<char>, i: int)
    requires
        first_at(hay, needle, i),
    ensures
        find(hay, needle) == Some(i),
{
    let k = choose|k: int| first_at(hay, needle, k);
    assert(occurs_at(hay, needle, i));
    assert(first_at(hay, needle, k));
    assert(k == i) by {
        if k < i {
            assert(!occurs_at(hay, needle, k));
        }
        if i < k {
            assert(!occurs_at(hay, needle, i));
        }
    }
}

/// No character of `s` is `c`.
pub open spec fn without(s: Seq<char>, c: char) -> bool {
    forall|i: int| 0 <= i < s.len() ==> #[trigger] s[i] != c
}

/// A text is first found behind what does not hold its first character.
pub proof fn lemma_find_after(before: Seq<char>, needle: Seq<char>, after: Seq<char>)
    requires
        needle.len() > 0,
        without(before, needle[0]),
    ensures
        find(before + needle + after, needle) == Some(before.len() as int),
{
    let hay = before + needle + after;
    let n = before.len() as int;
    assert(hay.subrange(n, n + needle.len() as int) =~= needle);
    assert forall|j: int| 0 <= j < n implies !occurs_at(hay, needle, j) by {
        if occurs_at(hay, needle, j) {
            assert(hay.subrange(j, j + needle.len() as int)[0] == before[j]);
        }
    }
    lemma_find_at(hay, needle, n);
}

fn stands_at(hay: &Vec<char>, needle: &Vec<char>, i: usize) -> (r: bool)
    requires
        i + needle@.len() <= hay@.len(),
    ensures
        r == occurs_at(hay@, needle@, i as int),
{
    let total: usize = hay.len();
    let mut k: usize = 0;
    while k < needle.len()
        invariant
            total == hay@.len(),
            i + needle@.len() <= hay@.len(),
            k <= needle@.len(),
            forall|j: int| 0 <= j < k ==> hay@[i + j] == needle@[j],
        decreases needle.len() - k,
    {
        if hay[i + k] != needle[k] {
            assert(hay@.subrange(i as int, i + needle@.len() as int)[k as int] != needle@[k as int]);
            return false;
        }
        k += 1;
    }
    assert(hay@.subrange(i as int, i + needle@.len() as int) =~= needle@);
    true
}

/// Where `needle` first stands in `hay`.
pub fn find_chars(hay: &Vec<char>, needle: &Vec<char>) -> (r: Option<usize>)
    ensures
        match r {
            Some(i) => find(hay@, needle@) == Some(i as int) && i + needle@.len() <= hay@.len(),
            None => find(hay@, needle@) is None,
        },
{
    if needle.len() > hay.len() {
        return None;
    }
    let mut i: usize = 0;
    let last: usize = hay.len() - needle.len();
    while i <= last
        invariant
            last + needle@.len() == hay@.len(),
            i <= last + 1,
            forall|j: int| 0 <= j < i ==> !occurs_at(hay@, needle@, j),
        decreases last + 1 - i,
    {
        if stands_at(hay, needle, i) {
            proof {
                lemma_find_at(hay@, needle@, i as int);
            }
            return Some(i);
        }
        if i == last {
            return None;
        }
        i += 1;
    }
    None
}

/// Whether `needle` stands in `hay`.
pub fn contains(hay: &str, needle: &str) -> (r: bool)
    ensures
        r == occurs(hay@, needle@),
{
    let h = chars_of(hay);
    let n = chars_of(needle);
    find_chars(&h, &n).is_some()
}

/// Whether one of `needles` stands in `hay`.
pub fn contains_any(hay: &str, needles: &Vec<&str>) -> (r: bool)
    ensures
        r == exists|k: int| 0 <= k < needles@.len() && occurs(hay@, #[trigger] needles@[k]@),
{
    let mut k: usize = 0;
    while k < needles.len()
        invariant
            k <= needles@.len(),
            forall|j: int| 0 <= j < k ==> !occurs(hay@, #[trigger] needles@[j]@),
        decreases needles.len() - k,
    {
        if contains(hay, needles[k]) {
            return true;
        }
        k += 1;
    }
    false
}

// ---------------------------------------------------------------------------
// Splitting
// ---------------------------------------------------------------------------

/// The number of characters before the first white space in `s`.
pub open spec fn word_len(s: Seq<char>) -> nat
    decreases s.len(),
{
    if s.len() == 0 || is_space(s[0]) {
        0
    } else {
        1 + word_len(s.skip(1))
    }
}

/// A word is no longer than what it is taken from, and not empty where it starts.
pub proof fn lemma_word_len(s: Seq<char>)
    ensures
        word_len(s) <= s.len(),
        s.len() > 0 && !is_space(s[0]) ==> word_len(s) > 0,
    decreases s.len(),
{
    if s.len() > 0 && !is_space(s[0]) {
        lemma_word_len(s.skip(1));
    }
}

/// The words of `s`: its longest runs of characters without white space.
pub open spec fn words(s: Seq<char>) -> Seq<Seq<char>>
    decreases s.len(),
{
    if s.len() == 0 {
        Seq::empty()
    } else if is_space(s[0]) {
        words(s.skip(1))
    } else {
        proof {
            lemma_word_len(s);
        }
        seq![s.take(word_len(s) as int)] + words(s.skip(word_len(s) as int))
    }
}

/// No character of `s` is white space.
pub open spec fn spaceless(s: Seq<char>) -> bool {
    forall|i: int| 0 <= i < s.len() ==> !is_space(#[trigger] s[i])
}

proof fn lemma_word_len_of(word: Seq<char>, rest: Seq<char>)
    requires
        spaceless(word),
        rest.len() == 0 || is_space(rest[0]),
    ensures
        word_len(word + rest) == word.len(),
    decreases word.len(),
{
    let s = word + rest;
    if word.len() > 0 {
        lemma_word_len_of(word.skip(1), rest);
        assert(s[0] == word[0]);
        assert(s.skip(1) =~= word.skip(1) + rest);
    } else {
        assert(s =~= rest);
    }
}

/// A text without white space is one word.
pub proof fn lemma_words_one(word: Seq<char>)
    requires
        word.len() > 0,
        spaceless(word),
    ensures
        words(word) == seq![word],
{
    let none = Seq::<char>::empty();
    lemma_word_len_of(word, none);
    assert(word + none =~= word);
    assert(word.take(word.len() as int) =~= word);
    assert(word.skip(word.len() as int) =~= none);
    assert(words(none) =~= Seq::<Seq<char>>::empty());
    assert(seq![word] + words(none) =~= seq![word]);
}

/// A space ends a word.
pub proof fn lemma_words_cons(word: Seq<char>, rest: Seq<char>)
    requires
        word.len() > 0,
        spaceless(word),
    ensures
        words(word + seq![' '] + rest) == seq![word] + words(rest),
{
    let tail = seq![' '] + rest;
    let s = word + seq![' '] + rest;
    assert(s =~= word + tail);
    lemma_word_len_of(word, tail);
    assert(s[0] == word[0]);
    assert(s.take(word.len() as int) =~= word);
    assert(s.skip(word.len() as int) =~= tail);
    assert(tail.skip(1) =~= rest);
    assert(words(tail) == words(rest));
}

/// The words of `s`.
pub fn split_words(s: &str) -> (r: Vec<String>)
    ensures
        r@.map_values(|w: String| w@) == words(s@),
{
    let chars = chars_of(s);
    let mut r: Vec<String> = Vec::new();
    let mut i: usize = 0;
    assert(s@.skip(0) =~= s@);
    assert(r@.map_values(|w: String| w@) =~= Seq::<Seq<char>>::empty());
    while i < chars.len()
        invariant
            chars@ == s@,
            i <= chars@.len(),
            r@.map_values(|w: String| w@) + words(s@.skip(i as int)) == words(s@),
        decreases chars.len() - i,
    {
        let ghost rest = s@.skip(i as int);
        assert(rest[0] == s@[i as int]);
        if char_is_space(chars[i]) {
            assert(rest.skip(1) =~= s@.skip(i as int + 1));
            i += 1;
        } else {
            let start = i;
            proof {
                lemma_word_len(rest);
            }
            while i < chars.len() && !char_is_space(chars[i])
                invariant
                    chars@ == s@,
                    start <= i <= chars@.len(),
                    rest == s@.skip(start as int),
                    word_len(rest) == (i - start) + word_len(s@.skip(i as int)),
                decreases chars.len() - i,
            {
                assert(s@.skip(i as int)[0] == s@[i as int]);
                assert(s@.skip(i as int).skip(1) =~= s@.skip(i as int + 1));
                i += 1;
            }
            assert(i < chars@.len() ==> s@.skip(i as int)[0] == s@[i as int]);
            assert(word_len(s@.skip(i as int)) == 0);
            let w = text_between(&chars, start, i);
            let ghost before = r@;
            r.push(w);
            assert(w@ =~= rest.take(word_len(rest) as int));
            assert(rest.skip(word_len(rest) as int) =~= s@.skip(i as int));
            assert(r@.map_values(|w: String| w@) =~= before.map_values(|w: String| w@).push(w@));
            assert(before.map_values(|w: String| w@) + (seq![w@] + words(s@.skip(i as int)))
                =~= before.map_values(|w: String| w@).push(w@) + words(s@.skip(i as int)));
        }
    }
    assert(s@.skip(i as int) =~= Seq::<char>::empty());
    assert(r@.map_values(|w: String| w@) + Seq::<Seq<char>>::empty() =~= r@.map_values(
        |w: String| w@,
    ));
    r
}

// ---------------------------------------------------------------------------
// Decimal numerals
// ---------------------------------------------------------------------------

/// The numeral for `d` below ten.
pub open spec fn digit(d: nat) -> char {
    (('0' as nat) + d) as char
}

/// `n` in decimal, without leading zeros.
pub open spec fn decimal(n: nat) -> Seq<char>
    decreases n,
{
    if n < 10 {
        seq![digit(n)]
    } else {
        decimal(n / 10).push(digit(n % 10))
    }
}

/// `n` in decimal, with zeros in front up to `width` characters.
pub open spec fn zero_padded(n: nat, width: nat) -> Seq<char> {
    let d = decimal(n);
    if d.len() >= width {
        d
    } else {
        Seq::new((width - d.len()) as nat, |i: int| '0') + d
    }
}

/// The number that `s`, a row of digits, stands for.
pub open spec fn value(s: Seq<char>) -> int
    decreases s.len(),
{
    if s.len() == 0 {
        0
    } else {
        10 * value(s.drop_last()) + (s.last() as int - '0' as int)
    }
}

proof fn lemma_decimal_value(n: nat)
    ensures
        value(decimal(n)) == n,
    decreases n,
{
    if n < 10 {
        assert(seq![digit(n)].drop_last() =~= Seq::<char>::empty());
        assert(value(Seq::<char>::empty()) == 0);
    } else {
        lemma_decimal_value(n / 10);
        assert(decimal(n).drop_last() =~= decimal(n / 10));
    }
}

proof fn lemma_zeros_value(k: nat, s: Seq<char>)
    ensures
        value(Seq::new(k, |i: int| '0') + s) == value(s),
    decreases k + s.len(),
{
    let all = Seq::new(k, |i: int| '0') + s;
    if s.len() > 0 {
        lemma_zeros_value(k, s.drop_last());
        assert(all.drop_last() =~= Seq::new(k, |i: int| '0') + s.drop_last());
    } else if k > 0 {
        lemma_zeros_value((k - 1) as nat, s);
        assert(all.drop_last() =~= Seq::new((k - 1) as nat, |i: int| '0') + s);
    } else {
        assert(all =~= s);
    }
}

/// A numeral stands for its number, with or without zeros in front.
pub proof fn law_numerals_keep_their_value(n: nat, width: nat)
    ensures
        value(decimal(n)) == n,
        value(zero_padded(n, width)) == n,
{
    lemma_decimal_value(n);
    let d = decimal(n);
    if d.len() < width {
        lemma_zeros_value((width - d.len()) as nat, d);
    }
}

proof fn lemma_decimal_digits(n: nat)
    ensures
        digits(decimal(n)),
        decimal(n).len() > 0,
        n > 0 ==> decimal(n)[0] != '0',
        n < 10_000 ==> decimal(n).len() <= 4,
        n < 1_000 ==> decimal(n).len() <= 3,
        n < 100 ==> decimal(n).len() <= 2,
        n < 10 ==> decimal(n).len() == 1,
    decreases n,
{
    if n >= 10 {
        lemma_decimal_digits(n / 10);
        let front = decimal(n / 10);
        assert forall|i: int| 0 <= i < decimal(n).len() implies is_digit(
            #[trigger] decimal(n)[i],
        ) by {
            if i < front.len() {
                assert(decimal(n)[i] == front[i]);
            }
        }
    }
}

/// Numerals are made of digits: plain ones without a zero in front, padded ones at
/// least as wide as asked and no wider than it takes.
pub proof fn law_numerals_are_as_wide_as_asked(n: nat, width: nat)
    ensures
        digits(decimal(n)),
        n > 0 ==> decimal(n)[0] != '0',
        digits(zero_padded(n, width)),
        zero_padded(n, width).len() >= width,
        zero_padded(n, width).len() == width || zero_padded(n, width) == decimal(n),
        n < 10_000 ==> decimal(n).len() <= 4,
{
    lemma_decimal_digits(n);
}

/// A numeral is ASCII.
pub proof fn lemma_decimal_is_ascii(n: nat)
    ensures
        ascii(decimal(n)),
    decreases n,
{
    if n >= 10 {
        lemma_decimal_is_ascii(n / 10);
    }
}

/// `n` in decimal.
pub fn to_decimal(n: u32) -> (r: String)
    ensures
        r@ == decimal(n as nat),
    decreases n,
{
    let mut r = if n < 10 {
        String::new()
    } else {
        to_decimal(n / 10)
    };
    let d: u8 = (n % 10) as u8;
    r.push((48u8 + d) as char);
    assert(r@ =~= decimal(n as nat));
    r
}

/// `n` in decimal, with zeros in front up to `width` characters.
pub fn to_zero_padded(n: u32, width: usize) -> (r: String)
    ensures
        r@ == zero_padded(n as nat, width as nat),
{
    let d = to_decimal(n);
    let len: usize = d.as_str().unicode_len();
    let mut r = String::new();
    let mut i: usize = len;
    while i < width
        invariant
            len == d@.len(),
            len <= i,
            len <= width ==> i <= width,
            len > width ==> i == len,
            r@ == Seq::new((i - len) as nat, |k: int| '0'),
        decreases width - i,
    {
        r.push('0');
        i += 1;
        assert(r@ =~= Seq::new((i - len) as nat, |k: int| '0'));
    }
    r.append(d.as_str());
    assert(r@ =~= zero_padded(n as nat, width as nat));
    r
}

// ---------------------------------------------------------------------------
// Numbers
// ---------------------------------------------------------------------------

/// `c` is a decimal digit.
pub open spec fn is_digit(c: char) -> bool {
    '0' <= c && c <= '9'
}

/// `s` is a row of digits, which may be empty.
pub open spec fn digits(s: Seq<char>) -> bool {
    forall|i: int| 0 <= i < s.len() ==> is_digit(#[trigger] s[i])
}

/// `s` without a sign in front.
pub open spec fn unsigned(s: Seq<char>) -> Seq<char> {
    if s.len() > 0 && (s[0] == '+' || s[0] == '-') {
        s.skip(1)
    } else {
        s
    }
}

/// Digits with at most one point before, among or behind them.
pub open spec fn is_mantissa(s: Seq<char>) -> bool {
    ||| s.len() > 0 && digits(s)
    ||| s.len() > 1 && exists|k: int|
        0 <= k < s.len() && #[trigger] s[k] == '.' && digits(s.take(k)) && digits(s.skip(k + 1))
}

/// Digits with or without a sign.
pub open spec fn is_exponent(s: Seq<char>) -> bool {
    unsigned(s).len() > 0 && digits(unsigned(s))
}

/// The letter that separates a mantissa from its exponent.
pub open spec fn is_e(c: char) -> bool {
    c == 'e' || c == 'E'
}

/// A mantissa, with or without an exponent.
pub open spec fn is_scaled(s: Seq<char>) -> bool {
    ||| is_mantissa(s)
    ||| exists|k: int|
        0 <= k < s.len() && is_e(#[trigger] s[k]) && is_mantissa(s.take(k)) && is_exponent(
            s.skip(k + 1),
        )
}

/// A word for a number that no digits write.
pub open spec fn is_number_word(s: Seq<char>) -> bool {
    let low = s.map_values(|c: char| ascii_lower(c));
    low == "inf"@ || low == "infinity"@ || low == "nan"@
}

/// `s` reads as a floating-point number, with or without a sign.
pub open spec fn is_number(s: Seq<char>) -> bool {
    is_scaled(unsigned(s)) || is_number_word(unsigned(s))
}

fn all_digits(v: &Vec<char>, from: usize, to: usize) -> (r: bool)
    requires
        from <= to <= v@.len(),
    ensures
        r == digits(v@.subrange(from as int, to as int)),
{
    let ghost part = v@.subrange(from as int, to as int);
    let mut i: usize = from;
    while i < to
        invariant
            from <= i <= to <= v@.len(),
            part == v@.subrange(from as int, to as int),
            forall|j: int| from <= j < i ==> is_digit(#[trigger] v@[j]),
        decreases to - i,
    {
        if !('0' <= v[i] && v[i] <= '9') {
            assert(!is_digit(part[i - from]));
            return false;
        }
        i += 1;
    }
    assert forall|k: int| 0 <= k < part.len() implies is_digit(#[trigger] part[k]) by {
        assert(part[k] == v@[from + k]);
    }
    true
}

fn reads_as_mantissa(v: &Vec<char>, from: usize, to: usize) -> (r: bool)
    requires
        from <= to <= v@.len(),
    ensures
        r == is_mantissa(v@.subrange(from as int, to as int)),
{
    let ghost part = v@.subrange(from as int, to as int);
    let mut dot: usize = from;
    while dot < to && v[dot] != '.'
        invariant
            from <= dot <= to <= v@.len(),
            forall|j: int| from <= j < dot ==> #[trigger] v@[j] != '.',
        decreases to - dot,
    {
        dot += 1;
    }
    if dot == to {
        assert forall|k: int| 0 <= k < part.len() implies #[trigger] part[k] != '.' by {
            assert(part[k] == v@[from + k]);
        }
        return to > from && all_digits(v, from, to);
    }
    let ghost d = dot - from;
    assert(part[d] == '.');
    assert(part.take(d) =~= v@.subrange(from as int, dot as int));
    assert(part.skip(d + 1) =~= v@.subrange(dot as int + 1, to as int));
    let r = to - from > 1 && all_digits(v, from, dot) && all_digits(v, dot + 1, to);
    proof {
        assert(!digits(part)) by {
            assert(!is_digit(part[d]));
        }
        if is_mantissa(part) {
            let k = choose|k: int|
                0 <= k < part.len() && #[trigger] part[k] == '.' && digits(part.take(k)) && digits(
                    part.skip(k + 1),
                );
            if k < d {
                assert(part[k] == v@[from + k]);
            }
            if d < k {
                assert(part.take(k)[d] == '.');
            }
            assert(k == d);
        }
    }
    r
}

fn reads_as_exponent(v: &Vec<char>, from: usize, to: usize) -> (r: bool)
    requires
        from <= to <= v@.len(),
    ensures
        r == is_exponent(v@.subrange(from as int, to as int)),
{
    let ghost part = v@.subrange(from as int, to as int);
    let start: usize = if from < to && (v[from] == '+' || v[from] == '-') {
        from + 1
    } else {
        from
    };
    assert(unsigned(part) =~= v@.subrange(start as int, to as int));
    start < to && all_digits(v, start, to)
}

proof fn lemma_mantissa_has_no_e(s: Seq<char>)
    requires
        is_mantissa(s),
    ensures
        forall|i: int| 0 <= i < s.len() ==> !is_e(#[trigger] s[i]),
        forall|i: int| 0 <= i < s.len() ==> is_digit(#[trigger] s[i]) || s[i] == '.',
{
    if !digits(s) {
        let k = choose|k: int|
            0 <= k < s.len() && #[trigger] s[k] == '.' && digits(s.take(k)) && digits(s.skip(k + 1));
        assert forall|i: int| 0 <= i < s.len() implies is_digit(#[trigger] s[i]) || s[i] == '.' by {
            if i < k {
                assert(s.take(k)[i] == s[i]);
            }
            if i > k {
                assert(s.skip(k + 1)[i - k - 1] == s[i]);
            }
        }
    }
}

fn reads_as_scaled(v: &Vec<char>, from: usize) -> (r: bool)
    requires
        from <= v@.len(),
    ensures
        r == is_scaled(v@.skip(from as int)),
{
    let to: usize = v.len();
    let ghost part = v@.skip(from as int);
    assert(part =~= v@.subrange(from as int, to as int));
    let mut e: usize = from;
    while e < to && v[e] != 'e' && v[e] != 'E'
        invariant
            from <= e <= to,
            to == v@.len(),
            forall|j: int| from <= j < e ==> !is_e(#[trigger] v@[j]),
        decreases to - e,
    {
        e += 1;
    }
    if e == to {
        assert forall|k: int| 0 <= k < part.len() implies !is_e(#[trigger] part[k]) by {
            assert(part[k] == v@[from + k]);
        }
        return reads_as_mantissa(v, from, to);
    }
    let ghost d = e - from;
    assert(is_e(part[d]));
    assert(part.take(d) =~= v@.subrange(from as int, e as int));
    assert(part.skip(d + 1) =~= v@.subrange(e as int + 1, to as int));
    let r = reads_as_mantissa(v, from, e) && reads_as_exponent(v, e + 1, to);
    proof {
        if is_mantissa(part) {
            lemma_mantissa_has_no_e(part);
            assert(false);
        }
        if is_scaled(part) {
            let k = choose|k: int|
                0 <= k < part.len() && is_e(#[trigger] part[k]) && is_mantissa(part.take(k))
                    && is_exponent(part.skip(k + 1));
            lemma_mantissa_has_no_e(part.take(k));
            if k < d {
                assert(part[k] == v@[from + k]);
            }
            if d < k {
                assert(is_e(part.take(k)[d]));
            }
            assert(k == d);
        }
    }
    r
}

fn same_letters(v: &Vec<char>, from: usize, word: &str) -> (r: bool)
    requires
        from <= v@.len(),
    ensures
        r == (v@.skip(from as int).map_values(|c: char| ascii_lower(c)) == word@),
{
    let w = chars_of(word);
    let total: usize = v.len();
    let ghost low = v@.skip(from as int).map_values(|c: char| ascii_lower(c));
    if total - from != w.len() {
        return false;
    }
    let mut i: usize = 0;
    while i < w.len()
        invariant
            w@ == word@,
            total == v@.len(),
            from + w@.len() == v@.len(),
            low == v@.skip(from as int).map_values(|c: char| ascii_lower(c)),
            i <= w@.len(),
            forall|j: int| 0 <= j < i ==> low[j] == #[trigger] w@[j],
        decreases w.len() - i,
    {
        let c = v[from + i];
        let l = if 'A' <= c && c <= 'Z' {
            ((c as u8) + 32) as char
        } else {
            c
        };
        assert(low[i as int] == l);
        if l != w[i] {
            return false;
        }
        i += 1;
    }
    assert(low =~= word@);
    true
}

/// Whether `s` reads as a floating-point number.
pub fn reads_as_number(s: &str) -> (r: bool)
    ensures
        r == is_number(s@),
{
    let v = chars_of(s);
    let from: usize = if v.len() > 0 && (v[0] == '+' || v[0] == '-') {
        1
    } else {
        0
    };
    assert(unsigned(s@) =~= v@.skip(from as int));
    reads_as_scaled(&v, from) || same_letters(&v, from, "inf") || same_letters(&v, from, "infinity")
        || same_letters(&v, from, "nan")
}

/// A character that a number can hold.
pub open spec fn is_number_char(c: char) -> bool {
    is_digit(c) || ('a' <= c && c <= 'z') || ('A' <= c && c <= 'Z') || c == '.' || c == '+' || c
        == '-'
}

proof fn lemma_exponent_chars(s: Seq<char>)
    requires
        is_exponent(s),
    ensures
        forall|i: int| 0 <= i < s.len() ==> is_number_char(#[trigger] s[i]),
{
    assert forall|i: int| 0 <= i < s.len() implies is_number_char(#[trigger] s[i]) by {
        if unsigned(s) == s {
            assert(is_digit(unsigned(s)[i]));
        } else if i > 0 {
            assert(unsigned(s)[i - 1] == s[i]);
        }
    }
}

/// A number is made of digits, letters, points and signs, and is not empty.
pub proof fn lemma_number_chars(s: Seq<char>)
    requires
        is_number(s),
    ensures
        s.len() > 0,
        forall|i: int| 0 <= i < s.len() ==> is_number_char(#[trigger] s[i]),
{
    reveal_strlit("inf");
    reveal_strlit("infinity");
    reveal_strlit("nan");
    assert("inf"@ =~= seq!['i', 'n', 'f']);
    assert("infinity"@ =~= seq!['i', 'n', 'f', 'i', 'n', 'i', 't', 'y']);
    assert("nan"@ =~= seq!['n', 'a', 'n']);
    let u = unsigned(s);
    assert forall|i: int| 0 <= i < u.len() implies is_number_char(#[trigger] u[i]) by {
        if is_number_word(u) {
            let low = u.map_values(|c: char| ascii_lower(c));
            assert(low[i] == ascii_lower(u[i]));
            assert('a' <= low[i] && low[i] <= 'z');
        } else if is_mantissa(u) {
            lemma_mantissa_has_no_e(u);
        } else {
            let k = choose|k: int|
                0 <= k < u.len() && is_e(#[trigger] u[k]) && is_mantissa(u.take(k)) && is_exponent(
                    u.skip(k + 1),
                );
            lemma_mantissa_has_no_e(u.take(k));
            lemma_exponent_chars(u.skip(k + 1));
            if i < k {
                assert(u.take(k)[i] == u[i]);
            }
            if i > k {
                assert(u.skip(k + 1)[i - k - 1] == u[i]);
            }
        }
    }
    assert(u.len() > 0) by {
        if is_number_word(u) {
            assert(u.map_values(|c: char| ascii_lower(c)).len() == u.len());
        }
    }
    assert forall|i: int| 0 <= i < s.len() implies is_number_char(#[trigger] s[i]) by {
        if u != s && i > 0 {
            assert(u[i - 1] == s[i]);
        } else if u == s {
            assert(is_number_char(u[i]));
        }
    }
}

// ---------------------------------------------------------------------------
// Laws
// ---------------------------------------------------------------------------

proof fn lemma_first_exists(hay: Seq<char>, needle: Seq<char>, i: int)
    requires
        occurs_at(hay, needle, i),
    ensures
        exists|k: int| k <= i && #[trigger] first_at(hay, needle, k),
    decreases i,
{
    if exists|j: int| 0 <= j < i && occurs_at(hay, needle, j) {
        let j = choose|j: int| 0 <= j < i && occurs_at(hay, needle, j);
        lemma_first_exists(hay, needle, j);
        let k = choose|k: int| k <= j && #[trigger] first_at(hay, needle, k);
        assert(first_at(hay, needle, k));
    } else {
        assert(first_at(hay, needle, i));
    }
}

/// A text is found where it stands first, character by character, and is not
/// found exactly where it stands nowhere.
pub proof fn law_text_is_found_where_it_first_stands(hay: Seq<char>, needle: Seq<char>)
    ensures
        match find(hay, needle) {
            Some(i) => {
                &&& 0 <= i && i + needle.len() <= hay.len()
                &&& forall|k: int| 0 <= k < needle.len() ==> hay[i + k] == #[trigger] needle[k]
                &&& forall|j: int| 0 <= j < i ==> !#[trigger] occurs_at(hay, needle, j)
            },
            None => forall|j: int| !#[trigger] occurs_at(hay, needle, j),
        },
{
    if occurs(hay, needle) {
        let i = choose|i: int| occurs_at(hay, needle, i);
        lemma_first_exists(hay, needle, i);
        let k = choose|k: int| k <= i && #[trigger] first_at(hay, needle, k);
        lemma_find_at(hay, needle, k);
        assert forall|j: int| 0 <= j < needle.len() implies hay[k + j] == #[trigger] needle[j] by {
            assert(hay.subrange(k, k + needle.len() as int)[j] == hay[k + j]);
        }
    }
}

/// Making a text ASCII keeps its length and every ASCII character in it; any other
/// becomes a question mark.
pub proof fn law_ascii_form_keeps_ascii(s: Seq<char>, i: int)
    requires
        0 <= i < s.len(),
    ensures
        ascii_form(s).len() == s.len(),
        s[i] as u32 <= 0x7f ==> ascii_form(s)[i] == s[i],
        s[i] as u32 > 0x7f ==> ascii_form(s)[i] == '?',
{
}

/// White space ends a word and starts none: what stands before it is one word,
/// and what follows is split by itself.
pub proof fn law_words_end_at_white_space(word: Seq<char>, gap: char, rest: Seq<char>)
    requires
        is_space(gap),
        spaceless(word),
    ensures
        word.len() > 0 ==> words(word + seq![gap] + rest) == seq![word] + words(rest),
        word.len() > 0 ==> words(word) == seq![word],
        words(seq![gap] + rest) == words(rest),
        words(Seq::<char>::empty()) == Seq::<Seq<char>>::empty(),
{
    let tail = seq![gap] + rest;
    assert(tail.skip(1) =~= rest);
    assert(words(tail) == words(rest));
    if word.len() > 0 {
        lemma_words_one(word);
        let s = word + seq![gap] + rest;
        assert(s =~= word + tail);
        lemma_word_len_of(word, tail);
        assert(s[0] == word[0]);
        assert(s.take(word.len() as int) =~= word);
        assert(s.skip(word.len() as int) =~= tail);
    }
}

/// In lower case an ASCII text has its capital letters replaced by small ones and
/// everything else as it was.
pub proof fn law_lower_case_replaces_capitals(s: Seq<char>, i: int)
    requires
        ascii(s),
        0 <= i < s.len(),
    ensures
        lower(s).len() == s.len(),
        'A' <= s[i] && s[i] <= 'Z' ==> lower(s)[i] as int == s[i] as int + 32,
        !('A' <= s[i] && s[i] <= 'Z') ==> lower(s)[i] == s[i],
{
}

} // verus!
