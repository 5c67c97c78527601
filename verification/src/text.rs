//! Text as sequences of characters: the small vocabulary (lines, trimming,
//! prefixes, decimal numbers, padding, ordering) that the rest of the library
//! states its contracts in, each with an executable counterpart on `Vec<char>`.

use vstd::prelude::*;

verus! {

/// `String::push` of the standard library appends one character to the end of
/// the string and changes nothing else.
pub assume_specification[ String::push ](s: &mut String, c: char)
    ensures
        final(s)@ == old(s)@.push(c),
;

/// The characters of `s`, in order.
pub fn chars_of(s: &str) -> (v: Vec<char>)
    ensures
        v@ == s@,
{
    let mut v: Vec<char> = Vec::new();
    for c in it: s.chars()
        invariant
            v@ == it.seq().take(it.index() as int),
            it.seq() == s@,
    {
        v.push(c);
    }
    v
}

/// The string made of the characters of `v`.
pub fn string_of(v: &Vec<char>) -> (s: String)
    ensures
        s@ == v@,
{
    let mut s = String::new();
    let mut i: usize = 0;
    while i < v.len()
        invariant
            i <= v.len(),
            s@ == v@.take(i as int),
        decreases v.len() - i,
    {
        s.push(v[i]);
        i += 1;
    }
    s
}

/// The views of a vector of character vectors, one per element.
pub open spec fn seqs(v: Seq<Vec<char>>) -> Seq<Seq<char>> {
    Seq::new(v.len(), |i: int| v[i]@)
}

/// The views of a vector of strings, one per element.
pub open spec fn strs(v: Seq<String>) -> Seq<Seq<char>> {
    Seq::new(v.len(), |i: int| v[i]@)
}

/// Appends the characters of `src` to `out`.
pub fn push_all(out: &mut Vec<char>, src: &Vec<char>)
    ensures
        final(out)@ == old(out)@ + src@,
{
    let mut i: usize = 0;
    while i < src.len()
        invariant
            i <= src.len(),
            out@ == old(out)@ + src@.take(i as int),
        decreases src.len() - i,
    {
        out.push(src[i]);
        i += 1;
    }
    assert(src@.take(src.len() as int) == src@);
}

/// Appends the characters of the string `src` to `out`.
pub fn push_str(out: &mut Vec<char>, src: &str)
    ensures
        final(out)@ == old(out)@ + src@,
{
    let v = chars_of(src);
    push_all(out, &v);
}

/// The characters of `v` from index `from` up to, not including, `to`.
pub fn subvec(v: &Vec<char>, from: usize, to: usize) -> (r: Vec<char>)
    requires
        from <= to <= v.len(),
    ensures
        r@ == v@.subrange(from as int, to as int),
{
    let mut r: Vec<char> = Vec::new();
    let mut i: usize = from;
    while i < to
        invariant
            from <= i <= to <= v.len(),
            r@ == v@.subrange(from as int, i as int),
        decreases to - i,
    {
        r.push(v[i]);
        i += 1;
    }
    r
}

/// Whether two character vectors hold the same text.
pub fn same_chars(a: &Vec<char>, b: &Vec<char>) -> (r: bool)
    ensures
        r == (a@ == b@),
{
    if a.len() != b.len() {
        return false;
    }
    let mut i: usize = 0;
    while i < a.len()
        invariant
            i <= a.len(),
            a.len() == b.len(),
            a@.take(i as int) == b@.take(i as int),
        decreases a.len() - i,
    {
        if a[i] != b[i] {
            return false;
        }
        assert(a@.take(i + 1) == a@.take(i as int).push(a@[i as int]));
        assert(b@.take(i + 1) == b@.take(i as int).push(b@[i as int]));
        i += 1;
    }
    assert(a@.take(a.len() as int) == a@);
    assert(b@.take(b.len() as int) == b@);
    true
}

/// Whether two strings hold the same text.
pub fn str_eq(a: &str, b: &str) -> (r: bool)
    ensures
        r == (a@ == b@),
{
    let x = a.to_owned();
    let y = b.to_owned();
    x == y
}

// ---------------------------------------------------------------------------
// Character classes and trimming
// ---------------------------------------------------------------------------

/// The code point of `c`.
pub fn char_code(c: char) -> (n: u32)
    ensures
        n == c as int,
{
    c as u32
}

/// White space as Unicode defines it (the property `White_Space`).
pub open spec fn is_space(c: char) -> bool {
    let n = c as int;
    ||| 0x09 <= n <= 0x0D
    ||| n == 0x20
    ||| n == 0x85
    ||| n == 0xA0
    ||| n == 0x1680
    ||| 0x2000 <= n <= 0x200A
    ||| n == 0x2028
    ||| n == 0x2029
    ||| n == 0x202F
    ||| n == 0x205F
    ||| n == 0x3000
}

/// The kinds of character that can be stripped from the ends of a text.
#[derive(Clone, Copy, Debug)]
pub enum CharClass {
    /// White space.
    Space,
    /// The angle brackets `<` and `>`.
    Angle,
    /// The digits `0` to `9`.
    Digit,
}

impl CharClass {
    /// Whether `c` belongs to the class.
    pub open spec fn has(self, c: char) -> bool {
        match self {
            CharClass::Space => is_space(c),
            CharClass::Angle => c == '<' || c == '>',
            CharClass::Digit => 48 <= c as int <= 57,
        }
    }

    /// Whether `c` belongs to the class.
    pub fn test(self, c: char) -> (b: bool)
        ensures
            b == self.has(c),
    {
        match self {
            CharClass::Space => {
                let n: u32 = char_code(c);
                (0x09 <= n && n <= 0x0D) || n == 0x20 || n == 0x85 || n == 0xA0 || n == 0x1680 || (
                0x2000 <= n && n <= 0x200A) || n == 0x2028 || n == 0x2029 || n == 0x202F || n
                    == 0x205F || n == 0x3000
            },
            CharClass::Angle => c == '<' || c == '>',
            CharClass::Digit => {
                let n: u32 = char_code(c);
                48 <= n && n <= 57
            },
        }
    }
}

/// How many characters at the start of `s` belong to `class`.
pub open spec fn leading(s: Seq<char>, class: CharClass) -> nat
    decreases s.len(),
{
    if s.len() > 0 && class.has(s[0]) {
        1 + leading(s.drop_first(), class)
    } else {
        0
    }
}

/// How many characters at the end of `s` belong to `class`.
pub open spec fn trailing(s: Seq<char>, class: CharClass) -> nat
    decreases s.len(),
{
    if s.len() > 0 && class.has(s.last()) {
        1 + trailing(s.drop_last(), class)
    } else {
        0
    }
}

/// `s` without the characters of `class` at its start.
pub open spec fn strip_start(s: Seq<char>, class: CharClass) -> Seq<char> {
    s.skip(leading(s, class) as int)
}

/// `s` without the characters of `class` at its start and at its end.
pub open spec fn strip(s: Seq<char>, class: CharClass) -> Seq<char> {
    let t = strip_start(s, class);
    t.take(t.len() - trailing(t, class))
}

/// `s` without the white space around it.
pub open spec fn trim(s: Seq<char>) -> Seq<char> {
    strip(s, CharClass::Space)
}

/// The leading characters of a class are of the class; what follows them is not.
pub proof fn lemma_leading_bound(s: Seq<char>, class: CharClass)
    ensures
        leading(s, class) <= s.len(),
        forall|j: int| 0 <= j < leading(s, class) ==> class.has(#[trigger] s[j]),
        leading(s, class) < s.len() ==> !class.has(s[leading(s, class) as int]),
    decreases s.len(),
{
    if s.len() > 0 && class.has(s[0]) {
        let t = s.drop_first();
        lemma_leading_bound(t, class);
        assert forall|j: int| 0 <= j < leading(s, class) implies class.has(#[trigger] s[j]) by {
            if j > 0 {
                assert(s[j] == t[j - 1]);
            }
        }
        if leading(s, class) < s.len() {
            assert(s[leading(s, class) as int] == t[leading(t, class) as int]);
        }
    }
}

/// The count of leading class characters is the first index that is not one.
pub proof fn lemma_leading_is(s: Seq<char>, class: CharClass, a: int)
    requires
        0 <= a <= s.len(),
        forall|j: int| 0 <= j < a ==> class.has(#[trigger] s[j]),
        a < s.len() ==> !class.has(s[a]),
    ensures
        leading(s, class) == a,
    decreases a,
{
    if a > 0 {
        let t = s.drop_first();
        assert forall|j: int| 0 <= j < a - 1 implies class.has(#[trigger] t[j]) by {
            assert(t[j] == s[j + 1]);
        }
        lemma_leading_is(t, class, a - 1);
    }
}

/// The count of trailing class characters, from the last index that is not one.
pub proof fn lemma_trailing_is(s: Seq<char>, class: CharClass, n: int)
    requires
        0 <= n <= s.len(),
        forall|j: int| s.len() - n <= j < s.len() ==> class.has(#[trigger] s[j]),
        n < s.len() ==> !class.has(s[s.len() - n - 1]),
    ensures
        trailing(s, class) == n,
    decreases n,
{
    if n > 0 {
        let t = s.drop_last();
        assert forall|j: int| t.len() - (n - 1) <= j < t.len() implies class.has(
            #[trigger] t[j],
        ) by {
            assert(t[j] == s[j]);
        }
        lemma_trailing_is(t, class, n - 1);
    }
}

/// How many characters at the start of `v` belong to `class`.
pub fn leading_count(v: &Vec<char>, class: CharClass) -> (a: usize)
    ensures
        a == leading(v@, class),
        a <= v.len(),
{
    let n = v.len();
    let mut a: usize = 0;
    while a < n && class.test(v[a])
        invariant
            a <= n == v.len(),
            forall|j: int| 0 <= j < a ==> class.has(#[trigger] v@[j]),
        decreases n - a,
    {
        a += 1;
    }
    proof {
        lemma_leading_is(v@, class, a as int);
    }
    a
}

/// `v` without the characters of `class` at its start and at its end.
pub fn strip_vec(v: &Vec<char>, class: CharClass) -> (r: Vec<char>)
    ensures
        r@ == strip(v@, class),
{
    let n = v.len();
    let mut a: usize = 0;
    while a < n && class.test(v[a])
        invariant
            a <= n == v.len(),
            forall|j: int| 0 <= j < a ==> class.has(#[trigger] v@[j]),
        decreases n - a,
    {
        a += 1;
    }
    let mut b: usize = n;
    while b > a && class.test(v[b - 1])
        invariant
            a <= b <= n == v.len(),
            forall|j: int| b <= j < n ==> class.has(#[trigger] v@[j]),
        decreases b,
    {
        b -= 1;
    }
    proof {
        lemma_leading_is(v@, class, a as int);
        let t = strip_start(v@, class);
        assert(t == v@.skip(a as int));
        assert forall|j: int| t.len() - (n - b) <= j < t.len() implies class.has(
            #[trigger] t[j],
        ) by {
            assert(t[j] == v@[j + a]);
        }
        if n - b < t.len() {
            assert(t[t.len() - (n - b) - 1] == v@[b - 1]);
        }
        lemma_trailing_is(t, class, (n - b) as int);
        assert(t.take(t.len() - (n - b)) == v@.subrange(a as int, b as int));
    }
    subvec(v, a, b)
}

/// `v` without the white space around it.
pub fn trim_vec(v: &Vec<char>) -> (r: Vec<char>)
    ensures
        r@ == trim(v@),
{
    strip_vec(v, CharClass::Space)
}

// ---------------------------------------------------------------------------
// Prefixes
// ---------------------------------------------------------------------------

/// Whether `s` begins with `p`.
pub open spec fn starts_with(s: Seq<char>, p: Seq<char>) -> bool {
    p.len() <= s.len() && s.take(p.len() as int) == p
}

/// Whether `v` begins with the string `p`.
pub fn has_prefix(v: &Vec<char>, p: &str) -> (r: bool)
    ensures
        r == starts_with(v@, p@),
{
    let pv = chars_of(p);
    if pv.len() > v.len() {
        return false;
    }
    let mut i: usize = 0;
    while i < pv.len()
        invariant
            i <= pv.len() <= v.len(),
            v@.take(i as int) == pv@.take(i as int),
            pv@ == p@,
        decreases pv.len() - i,
    {
        if v[i] != pv[i] {
            proof {
                if v@.take(pv.len() as int) == pv@ {
                    assert(v@.take(pv.len() as int)[i as int] == pv@[i as int]);
                }
            }
            return false;
        }
        assert(v@.take(i + 1) == v@.take(i as int).push(v@[i as int]));
        assert(pv@.take(i + 1) == pv@.take(i as int).push(pv@[i as int]));
        i += 1;
    }
    assert(pv@.take(pv.len() as int) == pv@);
    true
}

/// What follows the prefix `p` in `v`, where `v` begins with it.
pub fn after_prefix(v: &Vec<char>, p: &str) -> (r: Option<Vec<char>>)
    ensures
        r is Some <==> starts_with(v@, p@),
        r is Some ==> r->0@ == v@.skip(p@.len() as int),
{
    if has_prefix(v, p) {
        let n = p.unicode_len();
        Some(subvec(v, n, v.len()))
    } else {
        None
    }
}

// ---------------------------------------------------------------------------
// Lines
// ---------------------------------------------------------------------------

/// The index of the first line feed in `s`, or the length of `s` if it has none.
pub open spec fn first_newline(s: Seq<char>) -> int
    decreases s.len(),
{
    if s.len() == 0 || s[0] == '\n' {
        0
    } else {
        1 + first_newline(s.drop_first())
    }
}

/// `s` without one carriage return at its end.
pub open spec fn without_cr(s: Seq<char>) -> Seq<char> {
    if s.len() > 0 && s.last() == '\r' {
        s.drop_last()
    } else {
        s
    }
}

/// The lines of `s`. A line ends at a line feed, or at a carriage return
/// followed by a line feed; neither belongs to the line. What follows the
/// last line feed is a line too, unless it is empty.
pub open spec fn lines(s: Seq<char>) -> Seq<Seq<char>>
    decreases s.len(),
{
    if s.len() == 0 {
        Seq::empty()
    } else {
        let i = first_newline(s);
        if i < 0 || i >= s.len() {
            seq![s]
        } else {
            seq![without_cr(s.take(i))] + lines(s.skip(i + 1))
        }
    }
}

/// The first line feed is where one stands and none stands before.
pub proof fn lemma_first_newline_is(s: Seq<char>, k: int)
    requires
        0 <= k <= s.len(),
        forall|j: int| 0 <= j < k ==> #[trigger] s[j] != '\n',
        k < s.len() ==> s[k] == '\n',
    ensures
        first_newline(s) == k,
    decreases k,
{
    if k > 0 {
        let t = s.drop_first();
        assert forall|j: int| 0 <= j < k - 1 implies #[trigger] t[j] != '\n' by {
            assert(t[j] == s[j + 1]);
        }
        lemma_first_newline_is(t, k - 1);
    }
}

/// The lines of `v`.
pub fn split_lines(v: &Vec<char>) -> (r: Vec<Vec<char>>)
    ensures
        seqs(r@) == lines(v@),
{
    let n = v.len();
    let mut r: Vec<Vec<char>> = Vec::new();
    let mut start: usize = 0;
    let mut i: usize = 0;
    proof {
        assert(v@.skip(0) == v@);
        assert(seqs(r@) + lines(v@) == lines(v@));
    }
    while i < n
        invariant
            start <= i <= n == v.len(),
            forall|j: int| start <= j < i ==> #[trigger] v@[j] != '\n',
            lines(v@) == seqs(r@) + lines(v@.skip(start as int)),
        decreases n - i,
    {
        if v[i] == '\n' {
            let end: usize = if i > start && v[i - 1] == '\r' {
                i - 1
            } else {
                i
            };
            let line = subvec(v, start, end);
            proof {
                let rest = v@.skip(start as int);
                assert forall|j: int| 0 <= j < i - start implies #[trigger] rest[j] != '\n' by {
                    assert(rest[j] == v@[j + start]);
                }
                lemma_first_newline_is(rest, i - start);
                assert(rest.take(i - start) == v@.subrange(start as int, i as int));
                assert(without_cr(rest.take(i - start)) == line@);
                assert(rest.skip(i - start + 1) == v@.skip(i + 1));
                assert(seqs(r@.push(line)) == seqs(r@) + seq![line@]);
            }
            r.push(line);
            start = i + 1;
        }
        i += 1;
    }
    if start < n {
        let line = subvec(v, start, n);
        proof {
            let rest = v@.skip(start as int);
            assert forall|j: int| 0 <= j < n - start implies #[trigger] rest[j] != '\n' by {
                assert(rest[j] == v@[j + start]);
            }
            lemma_first_newline_is(rest, n - start);
            assert(line@ == rest);
            assert(seqs(r@.push(line)) == seqs(r@) + seq![line@]);
        }
        r.push(line);
    } else {
        assert(v@.skip(start as int).len() == 0);
        assert(seqs(r@) + Seq::<Seq<char>>::empty() == seqs(r@));
    }
    r
}

// ---------------------------------------------------------------------------
// Decimal numbers
// ---------------------------------------------------------------------------

/// Whether `c` is one of the digits `0` to `9`.
pub open spec fn is_digit(c: char) -> bool {
    48 <= c as int <= 57
}

/// The value of the digit `c`; 0 for any other character.
pub open spec fn digit_value(c: char) -> nat {
    if is_digit(c) {
        (c as int - 48) as nat
    } else {
        0
    }
}

/// Whether `s` holds digits only.
pub open spec fn all_digits(s: Seq<char>) -> bool {
    forall|i: int| 0 <= i < s.len() ==> is_digit(#[trigger] s[i])
}

/// The number that the digits `s` write in base ten.
pub open spec fn decimal(s: Seq<char>) -> nat
    decreases s.len(),
{
    if s.len() == 0 {
        0
    } else {
        decimal(s.drop_last()) * 10 + digit_value(s.last())
    }
}

/// `s` without a plus sign at its start.
pub open spec fn unsigned_body(s: Seq<char>) -> Seq<char> {
    if s.len() > 0 && s[0] == '+' {
        s.drop_first()
    } else {
        s
    }
}

/// The number that `s` writes, where it is one: an optional plus sign, then
/// one digit or more, with a value of at most `max`.
pub open spec fn parse_unsigned(s: Seq<char>, max: nat) -> Option<nat> {
    let body = unsigned_body(s);
    if body.len() > 0 && all_digits(body) && decimal(body) <= max {
        Some(decimal(body))
    } else {
        None
    }
}

/// The first digits of a number write no more than all of them.
pub proof fn lemma_decimal_prefix(s: Seq<char>, k: int)
    requires
        0 <= k <= s.len(),
    ensures
        decimal(s.take(k)) <= decimal(s),
    decreases s.len() - k,
{
    if k < s.len() {
        assert(s.drop_last().take(k) == s.take(k));
        lemma_decimal_prefix(s.drop_last(), k);
    } else {
        assert(s.take(k) == s);
    }
}

/// Reads a number of at most 64 bits, as `parse_unsigned` defines it.
pub fn parse_u64(v: &Vec<char>) -> (r: Option<u64>)
    ensures
        parse_unsigned(v@, u64::MAX as nat) == match r {
            Some(n) => Some(n as nat),
            None => None::<nat>,
        },
{
    let n = v.len();
    let start: usize = if n > 0 && v[0] == '+' {
        1
    } else {
        0
    };
    let ghost body = v@.skip(start as int);
    assert(body == unsigned_body(v@));
    if start == n {
        return None;
    }
    let mut acc: u64 = 0;
    let mut i: usize = start;
    while i < n
        invariant
            start <= i <= n == v.len(),
            body == v@.skip(start as int),
            body == unsigned_body(v@),
            all_digits(body.take(i - start)),
            acc == decimal(body.take(i - start)),
        decreases n - i,
    {
        let c: u32 = char_code(v[i]);
        let ghost next = body.take(i + 1 - start);
        proof {
            assert(next.drop_last() == body.take(i - start));
            assert(next.last() == v@[i as int]);
            assert(body[i - start] == v@[i as int]);
        }
        if c < 48 || c > 57 {
            assert(!is_digit(body[i - start]));
            return None;
        }
        let d: u64 = (c - 48) as u64;
        proof {
            lemma_decimal_prefix(body, i + 1 - start);
            assert(d == digit_value(next.last()));
            assert(decimal(next) == acc * 10 + d);
        }
        let tens = match acc.checked_mul(10) {
            Some(x) => x,
            None => {
                return None;
            },
        };
        acc = match tens.checked_add(d) {
            Some(x) => x,
            None => {
                return None;
            },
        };
        proof {
            assert forall|j: int| 0 <= j < next.len() implies is_digit(#[trigger] next[j]) by {
                if j < next.len() - 1 {
                    assert(next[j] == body.take(i - start)[j]);
                }
            }
        }
        i += 1;
    }
    assert(body.take(n - start) == body);
    Some(acc)
}

/// Reads a number that fits `usize`, as `parse_unsigned` defines it.
pub fn parse_usize(v: &Vec<char>) -> (r: Option<usize>)
    ensures
        parse_unsigned(v@, usize::MAX as nat) == match r {
            Some(n) => Some(n as nat),
            None => None::<nat>,
        },
{
    match parse_u64(v) {
        Some(n) => {
            if n <= usize::MAX as u64 {
                Some(n as usize)
            } else {
                None
            }
        },
        None => None,
    }
}

/// The character that writes the digit `d`.
pub open spec fn digit_char(d: nat) -> char {
    if d == 0 {
        '0'
    } else if d == 1 {
        '1'
    } else if d == 2 {
        '2'
    } else if d == 3 {
        '3'
    } else if d == 4 {
        '4'
    } else if d == 5 {
        '5'
    } else if d == 6 {
        '6'
    } else if d == 7 {
        '7'
    } else if d == 8 {
        '8'
    } else {
        '9'
    }
}

/// The digits that write `n` in base ten, without leading zeros.
pub open spec fn digits_of(n: nat) -> Seq<char>
    decreases n,
{
    if n < 10 {
        seq![digit_char(n)]
    } else {
        digits_of(n / 10).push(digit_char(n % 10))
    }
}

/// The character that writes the digit `d`.
pub fn digit_to_char(d: u8) -> (c: char)
    requires
        d < 10,
    ensures
        c == digit_char(d as nat),
{
    if d == 0 {
        '0'
    } else if d == 1 {
        '1'
    } else if d == 2 {
        '2'
    } else if d == 3 {
        '3'
    } else if d == 4 {
        '4'
    } else if d == 5 {
        '5'
    } else if d == 6 {
        '6'
    } else if d == 7 {
        '7'
    } else if d == 8 {
        '8'
    } else {
        '9'
    }
}

/// Appends the decimal digits of `n` to `out`.
pub fn push_decimal(out: &mut Vec<char>, n: usize)
    ensures
        final(out)@ == old(out)@ + digits_of(n as nat),
    decreases n,
{
    if n >= 10 {
        push_decimal(out, n / 10);
    }
    out.push(digit_to_char((n % 10) as u8));
}

/// `n` in decimal digits.
pub fn decimal_vec(n: usize) -> (r: Vec<char>)
    ensures
        r@ == digits_of(n as nat),
{
    let mut r: Vec<char> = Vec::new();
    push_decimal(&mut r, n);
    r
}

// ---------------------------------------------------------------------------
// Padding
// ---------------------------------------------------------------------------

/// `n` copies of the character `c`.
pub open spec fn repeat(c: char, n: nat) -> Seq<char> {
    Seq::new(n, |i: int| c)
}

/// `s` with spaces before it, so that it has `width` characters at least.
pub open spec fn pad_left(s: Seq<char>, width: nat) -> Seq<char> {
    if s.len() >= width {
        s
    } else {
        repeat(' ', (width - s.len()) as nat) + s
    }
}

/// `s` with spaces after it, so that it has `width` characters at least.
pub open spec fn pad_right(s: Seq<char>, width: nat) -> Seq<char> {
    if s.len() >= width {
        s
    } else {
        s + repeat(' ', (width - s.len()) as nat)
    }
}

/// Appends `n` copies of `c` to `out`.
pub fn push_repeat(out: &mut Vec<char>, c: char, n: usize)
    ensures
        final(out)@ == old(out)@ + repeat(c, n as nat),
{
    let mut i: usize = 0;
    while i < n
        invariant
            i <= n,
            out@ == old(out)@ + repeat(c, i as nat),
        decreases n - i,
    {
        out.push(c);
        i += 1;
        assert(out@ == old(out)@ + repeat(c, i as nat));
    }
}

/// Appends `s`, padded on the left to `width` characters, to `out`.
pub fn push_padded_left(out: &mut Vec<char>, s: &Vec<char>, width: usize)
    ensures
        final(out)@ == old(out)@ + pad_left(s@, width as nat),
{
    if s.len() < width {
        push_repeat(out, ' ', width - s.len());
    }
    push_all(out, s);
}

/// Appends `s`, padded on the right to `width` characters, to `out`.
pub fn push_padded_right(out: &mut Vec<char>, s: &Vec<char>, width: usize)
    ensures
        final(out)@ == old(out)@ + pad_right(s@, width as nat),
{
    push_all(out, s);
    if s.len() < width {
        push_repeat(out, ' ', width - s.len());
    }
}

// ---------------------------------------------------------------------------
// Case and order
// ---------------------------------------------------------------------------

/// The lower-case form of an ASCII capital letter, which stands 32 code
/// points after it; any other character as it is.
pub open spec fn lower_char(c: char) -> char {
    if 65 <= c as int <= 90 {
        (c as int + 32) as char
    } else {
        c
    }
}

/// `s` with its ASCII capital letters in lower case.
pub open spec fn lower(s: Seq<char>) -> Seq<char> {
    Seq::new(s.len(), |i: int| lower_char(s[i]))
}

/// The lower-case form of an ASCII capital letter; any other character as it is.
pub fn to_lower_char(c: char) -> (r: char)
    ensures
        r == lower_char(c),
{
    if c == 'A' { 'a' } else if c == 'B' { 'b' } else if c == 'C' { 'c' } else if c == 'D' { 'd' }
    else if c == 'E' { 'e' } else if c == 'F' { 'f' } else if c == 'G' { 'g' } else if c == 'H' { 'h' }
    else if c == 'I' { 'i' } else if c == 'J' { 'j' } else if c == 'K' { 'k' } else if c == 'L' { 'l' }
    else if c == 'M' { 'm' } else if c == 'N' { 'n' } else if c == 'O' { 'o' } else if c == 'P' { 'p' }
    else if c == 'Q' { 'q' } else if c == 'R' { 'r' } else if c == 'S' { 's' } else if c == 'T' { 't' }
    else if c == 'U' { 'u' } else if c == 'V' { 'v' } else if c == 'W' { 'w' } else if c == 'X' { 'x' }
    else if c == 'Y' { 'y' } else if c == 'Z' { 'z' } else { c }
}

/// `v` with its ASCII capital letters in lower case.
pub fn lower_vec(v: &Vec<char>) -> (r: Vec<char>)
    ensures
        r@ == lower(v@),
{
    let mut r: Vec<char> = Vec::new();
    let mut i: usize = 0;
    while i < v.len()
        invariant
            i <= v.len(),
            r@.len() == i,
            forall|j: int| 0 <= j < i ==> r@[j] == lower_char(v@[j]),
        decreases v.len() - i,
    {
        r.push(to_lower_char(v[i]));
        i += 1;
    }
    r
}

/// Whether `a` comes before `b` in the order of their characters' code
/// points, the first difference deciding and a proper prefix coming first.
pub open spec fn lex_lt(a: Seq<char>, b: Seq<char>) -> bool
    decreases a.len(),
{
    if b.len() == 0 {
        false
    } else if a.len() == 0 {
        true
    } else if a[0] != b[0] {
        (a[0] as int) < (b[0] as int)
    } else {
        lex_lt(a.drop_first(), b.drop_first())
    }
}

/// The order `lex_lt` never puts a text before itself.
pub proof fn lemma_lex_irreflexive(a: Seq<char>)
    ensures
        !lex_lt(a, a),
    decreases a.len(),
{
    if a.len() > 0 {
        lemma_lex_irreflexive(a.drop_first());
    }
}

/// Of two different texts, `lex_lt` puts one before the other.
pub proof fn lemma_lex_total(a: Seq<char>, b: Seq<char>)
    ensures
        a == b || lex_lt(a, b) || lex_lt(b, a),
        !(lex_lt(a, b) && lex_lt(b, a)),
    decreases a.len(),
{
    if a.len() > 0 && b.len() > 0 {
        if a[0] == b[0] {
            lemma_lex_total(a.drop_first(), b.drop_first());
            if a.drop_first() == b.drop_first() {
                assert(a == seq![a[0]] + a.drop_first());
                assert(b == seq![b[0]] + b.drop_first());
            }
        } else {
            assert(a[0] as int != b[0] as int);
        }
    } else if a.len() == 0 && b.len() == 0 {
        assert(a =~= b);
    }
}

/// The order `lex_lt` is transitive.
pub proof fn lemma_lex_transitive(a: Seq<char>, b: Seq<char>, c: Seq<char>)
    requires
        lex_lt(a, b),
        lex_lt(b, c),
    ensures
        lex_lt(a, c),
    decreases a.len(),
{
    if a.len() > 0 && b.len() > 0 && c.len() > 0 {
        if a[0] == b[0] && b[0] == c[0] {
            lemma_lex_transitive(a.drop_first(), b.drop_first(), c.drop_first());
        }
    }
}

/// Whether `a` comes before `b` in the order `lex_lt`.
pub fn lex_before(a: &Vec<char>, b: &Vec<char>) -> (r: bool)
    ensures
        r == lex_lt(a@, b@),
{
    let mut i: usize = 0;
    proof {
        assert(a@.skip(0) == a@);
        assert(b@.skip(0) == b@);
    }
    while i < a.len() && i < b.len()
        invariant
            i <= a.len(),
            i <= b.len(),
            lex_lt(a@, b@) == lex_lt(a@.skip(i as int), b@.skip(i as int)),
        decreases a.len() - i,
    {
        let x: u32 = char_code(a[i]);
        let y: u32 = char_code(b[i]);
        proof {
            let sa = a@.skip(i as int);
            let sb = b@.skip(i as int);
            assert(sa[0] == a@[i as int]);
            assert(sb[0] == b@[i as int]);
            assert(sa.drop_first() == a@.skip(i + 1));
            assert(sb.drop_first() == b@.skip(i + 1));
        }
        if x != y {
            return x < y;
        }
        assert(a@[i as int] == b@[i as int]);
        i += 1;
    }
    i < b.len()
}

// ---------------------------------------------------------------------------
// Name and address
// ---------------------------------------------------------------------------

/// Whether an address in angle brackets begins after index `i` of `s`: a
/// space at `i` and `<` after it.
pub open spec fn angle_at(s: Seq<char>, i: int) -> bool {
    0 <= i && i + 1 < s.len() && s[i] == ' ' && s[i + 1] == '<'
}

/// The greatest index below `k` at which `angle_at` holds, or -1.
pub open spec fn last_angle(s: Seq<char>, k: int) -> int
    decreases k,
{
    if k <= 0 {
        -1
    } else if angle_at(s, k - 1) {
        k - 1
    } else {
        last_angle(s, k - 1)
    }
}

/// What stands before the last ` <` of `s`; all of `s` where it has none.
pub open spec fn name_part(s: Seq<char>) -> Seq<char> {
    let i = last_angle(s, s.len() as int);
    if i < 0 {
        s
    } else {
        s.take(i)
    }
}

/// What stands before the last ` <` of `v`; all of `v` where it has none.
pub fn name_of(v: &Vec<char>) -> (r: Vec<char>)
    ensures
        r@ == name_part(v@),
{
    let n = v.len();
    let mut k: usize = n;
    while k > 0
        invariant
            k <= n == v.len(),
            last_angle(v@, n as int) == last_angle(v@, k as int),
        decreases k,
    {
        if k < n && v[k - 1] == ' ' && v[k] == '<' {
            return subvec(v, 0, k - 1);
        }
        k -= 1;
    }
    assert(v@.subrange(0, n as int) == v@);
    subvec(v, 0, n)
}

/// The lines of `s`, each as a string.
pub fn line_strings(s: &str) -> (r: Vec<String>)
    ensures
        strs(r@) == lines(s@),
{
    let text = chars_of(s);
    let ls = split_lines(&text);
    let mut r: Vec<String> = Vec::new();
    let mut i: usize = 0;
    while i < ls.len()
        invariant
            i <= ls.len(),
            strs(r@) == seqs(ls@).take(i as int),
        decreases ls.len() - i,
    {
        let t = string_of(&ls[i]);
        proof {
            assert(strs(r@.push(t)) == strs(r@).push(t@));
            assert(seqs(ls@).take(i + 1) == seqs(ls@).take(i as int).push(ls@[i as int]@));
        }
        r.push(t);
        i += 1;
    }
    assert(seqs(ls@).take(ls.len() as int) == seqs(ls@));
    r
}

// ---------------------------------------------------------------------------
// Sorting
// ---------------------------------------------------------------------------

/// The texts `s`, which are in order, with `x` among them at its place:
/// before the texts that come after it, and after those that are the same.
pub open spec fn insert_sorted(s: Seq<Seq<char>>, x: Seq<char>) -> Seq<Seq<char>>
    decreases s.len(),
{
    if s.len() > 0 && lex_lt(x, s.last()) {
        insert_sorted(s.drop_last(), x).push(s.last())
    } else {
        s.push(x)
    }
}

/// The texts `s` in the order `lex_lt`.
pub open spec fn sorted_texts(s: Seq<Seq<char>>) -> Seq<Seq<char>>
    decreases s.len(),
{
    if s.len() == 0 {
        Seq::empty()
    } else {
        insert_sorted(sorted_texts(s.drop_last()), s.last())
    }
}

/// Whether no text of `s` stands after one that comes after it.
pub open spec fn texts_in_order(s: Seq<Seq<char>>) -> bool {
    forall|i: int, j: int| 0 <= i < j < s.len() ==> !lex_lt(s[j], s[i])
}

/// Inserting into texts in order keeps the order and adds the one text.
pub proof fn lemma_insert_sorted(s: Seq<Seq<char>>, x: Seq<char>)
    requires
        texts_in_order(s),
    ensures
        texts_in_order(insert_sorted(s, x)),
        insert_sorted(s, x).to_multiset() == s.to_multiset().insert(x),
        insert_sorted(s, x).len() == s.len() + 1,
        forall|y: Seq<char>| insert_sorted(s, x).contains(y) ==> y == x || s.contains(y),
    decreases s.len(),
{
    let r = insert_sorted(s, x);
    s.to_multiset_ensures();
    if s.len() > 0 && lex_lt(x, s.last()) {
        let front = s.drop_last();
        let inner = insert_sorted(front, x);
        assert forall|i: int, j: int| 0 <= i < j < front.len() implies !lex_lt(
            front[j],
            front[i],
        ) by {
            assert(front[i] == s[i] && front[j] == s[j]);
        }
        lemma_insert_sorted(front, x);
        inner.to_multiset_ensures();
        front.to_multiset_ensures();
        assert(s == front.push(s.last()));
        assert(r.to_multiset() == s.to_multiset().insert(x));
        assert forall|i: int, j: int| 0 <= i < j < r.len() implies !lex_lt(r[j], r[i]) by {
            if j < inner.len() {
                assert(r[i] == inner[i] && r[j] == inner[j]);
            } else {
                assert(r[j] == s.last());
                assert(r[i] == inner[i]);
                assert(inner.contains(inner[i]));
                if inner[i] == x {
                    lemma_lex_total(x, s.last());
                } else {
                    assert(front.contains(inner[i]));
                    let k = choose|k: int| 0 <= k < front.len() && front[k] == inner[i];
                    assert(s[k] == inner[i]);
                    assert(!lex_lt(s[s.len() - 1], s[k]));
                }
            }
        }
        assert forall|y: Seq<char>| r.contains(y) implies y == x || s.contains(y) by {
            let k = choose|k: int| 0 <= k < r.len() && r[k] == y;
            if k < inner.len() {
                assert(inner.contains(inner[k]));
                if y != x {
                    assert(front.contains(y));
                    let q = choose|q: int| 0 <= q < front.len() && front[q] == y;
                    assert(s[q] == y);
                }
            } else {
                assert(s[s.len() - 1] == y);
            }
        }
    } else {
        assert forall|i: int, j: int| 0 <= i < j < r.len() implies !lex_lt(r[j], r[i]) by {
            if j < s.len() {
                assert(r[i] == s[i] && r[j] == s[j]);
            } else if s.len() > 0 {
                assert(r[i] == s[i]);
                assert(!lex_lt(s[s.len() - 1], s[i]) || i == s.len() - 1);
                if lex_lt(x, s[i]) {
                    if i < s.len() - 1 {
                        lemma_lex_total(s[i], s.last());
                        if s[i] != s.last() {
                            lemma_lex_transitive(x, s[i], s.last());
                        }
                    }
                }
            }
        }
        assert forall|y: Seq<char>| r.contains(y) implies y == x || s.contains(y) by {
            let k = choose|k: int| 0 <= k < r.len() && r[k] == y;
            if k < s.len() {
                assert(s[k] == y);
            }
        }
    }
}

/// Sorting gives the same texts, each as often as before, in order.
pub proof fn lemma_sorted_texts(s: Seq<Seq<char>>)
    ensures
        texts_in_order(sorted_texts(s)),
        sorted_texts(s).to_multiset() == s.to_multiset(),
        sorted_texts(s).len() == s.len(),
    decreases s.len(),
{
    s.to_multiset_ensures();
    if s.len() > 0 {
        lemma_sorted_texts(s.drop_last());
        lemma_insert_sorted(sorted_texts(s.drop_last()), s.last());
        s.drop_last().to_multiset_ensures();
        assert(s == s.drop_last().push(s.last()));
    } else {
        assert(s =~= Seq::<Seq<char>>::empty());
    }
}

/// Inserting in order is inserting at the place after the last text that does not come after.
pub proof fn lemma_insert_at(s: Seq<Seq<char>>, x: Seq<char>, p: int)
    requires
        0 <= p <= s.len(),
        forall|i: int| p <= i < s.len() ==> lex_lt(x, #[trigger] s[i]),
        p > 0 ==> !lex_lt(x, s[p - 1]),
    ensures
        insert_sorted(s, x) == s.insert(p, x),
    decreases s.len() - p,
{
    if p < s.len() {
        let front = s.drop_last();
        assert forall|i: int| p <= i < front.len() implies lex_lt(x, #[trigger] front[i]) by {
            assert(front[i] == s[i]);
        }
        if p > 0 {
            assert(front[p - 1] == s[p - 1]);
        }
        lemma_insert_at(front, x, p);
        assert(front.insert(p, x).push(s.last()) == s.insert(p, x));
    } else {
        assert(s.push(x) == s.insert(p, x));
    }
}

/// The texts `v` in the order `lex_lt`.
pub fn sort_texts(v: &Vec<Vec<char>>) -> (r: Vec<Vec<char>>)
    ensures
        seqs(r@) == sorted_texts(seqs(v@)),
{
    let mut r: Vec<Vec<char>> = Vec::new();
    let mut i: usize = 0;
    assert(seqs(v@).take(0) == Seq::<Seq<char>>::empty());
    while i < v.len()
        invariant
            i <= v.len(),
            seqs(r@) == sorted_texts(seqs(v@).take(i as int)),
        decreases v.len() - i,
    {
        let x = v[i].clone();
        let mut p: usize = r.len();
        while p > 0 && lex_before(&x, &r[p - 1])
            invariant
                p <= r.len(),
                forall|k: int| p <= k < r@.len() ==> lex_lt(x@, #[trigger] seqs(r@)[k]),
            decreases p,
        {
            assert(seqs(r@)[p - 1] == r@[p - 1]@);
            p -= 1;
        }
        proof {
            if p > 0 {
                assert(seqs(r@)[p - 1] == r@[p - 1]@);
            }
            lemma_insert_at(seqs(r@), x@, p as int);
            assert(seqs(r@.insert(p as int, x)) == seqs(r@).insert(p as int, x@));
            assert(seqs(v@).take(i + 1).drop_last() == seqs(v@).take(i as int));
            assert(seqs(v@).take(i + 1).last() == x@);
        }
        r.insert(p, x);
        i += 1;
    }
    assert(seqs(v@).take(v.len() as int) == seqs(v@));
    r
}

} // verus!
