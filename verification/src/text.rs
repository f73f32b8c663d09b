//! Character-level helpers shared by the parsers and path builders.
//!
//! Text is handled as sequences of characters: a line is copied into a `Vec<char>` once, and
//! every scanner below works on positions in that vector, so each parser's specification can
//! speak of positions in one sequence.
use vstd::prelude::*;

verus! {

/// Appends one character to a string.
///
/// Wraps `String::push`, which appends the character at the end and changes nothing else.
#[verifier::external_body]
pub(crate) fn push_char(s: &mut String, c: char)
    ensures
        final(s)@ == old(s)@.push(c),
{
    s.push(c);
}

/// The characters of a string slice, in order.
pub fn chars_of(s: &str) -> (out: Vec<char>)
    ensures
        out@ == s@,
{
    let mut out: Vec<char> = Vec::new();
    for c in it: s.chars()
        invariant
            out@ == it.seq().take(it.index() as int),
    {
        out.push(c);
    }
    out
}

/// A string made of the given characters.
pub fn string_of(cs: &[char]) -> (out: String)
    ensures
        out@ == cs@,
{
    let mut out = String::new();
    let mut i: usize = 0;
    while i < cs.len()
        invariant
            i <= cs@.len(),
            out@ == cs@.take(i as int),
        decreases cs@.len() - i,
    {
        push_char(&mut out, cs[i]);
        assert(cs@.take(i as int).push(cs@[i as int]) =~= cs@.take(i + 1));
        i = i + 1;
    }
    assert(cs@.take(cs@.len() as int) =~= cs@);
    out
}

/// The characters `v[a..b]` as a new vector.
pub fn slice_of(v: &Vec<char>, a: usize, b: usize) -> (out: Vec<char>)
    requires
        a <= b <= v@.len(),
    ensures
        out@ == v@.subrange(a as int, b as int),
{
    let mut out: Vec<char> = Vec::new();
    let mut i: usize = a;
    while i < b
        invariant
            a <= i <= b <= v@.len(),
            out@ == v@.subrange(a as int, i as int),
        decreases b - i,
    {
        out.push(v[i]);
        assert(v@.subrange(a as int, i as int).push(v@[i as int]) =~= v@.subrange(
            a as int,
            i + 1,
        ));
        i = i + 1;
    }
    out
}

/// The characters `v[a..b]` as a string.
pub fn string_of_range(v: &Vec<char>, a: usize, b: usize) -> (out: String)
    requires
        a <= b <= v@.len(),
    ensures
        out@ == v@.subrange(a as int, b as int),
{
    let part = slice_of(v, a, b);
    string_of(part.as_slice())
}

/// Appends every character of `cs` to `out`.
pub fn push_all(out: &mut Vec<char>, cs: &[char])
    ensures
        final(out)@ == old(out)@ + cs@,
{
    let mut i: usize = 0;
    while i < cs.len()
        invariant
            i <= cs@.len(),
            out@ == old(out)@ + cs@.take(i as int),
        decreases cs@.len() - i,
    {
        out.push(cs[i]);
        assert(old(out)@ + cs@.take(i + 1) =~= (old(out)@ + cs@.take(i as int)).push(cs@[i as int]));
        i = i + 1;
    }
    assert(cs@.take(cs@.len() as int) =~= cs@);
}

/// Unicode `White_Space`: what `char::is_whitespace`, `str::trim` and the `\s` class accept.
pub open spec fn is_ws(c: char) -> bool {
    let u = c as u32;
    (0x9 <= u <= 0xd) || u == 0x20 || u == 0x85 || u == 0xa0 || u == 0x1680 || (0x2000 <= u
        <= 0x200a) || u == 0x2028 || u == 0x2029 || u == 0x202f || u == 0x205f || u == 0x3000
}

pub fn is_whitespace(c: char) -> (b: bool)
    ensures
        b == is_ws(c),
{
    let u = c as u32;
    (0x9 <= u && u <= 0xd) || u == 0x20 || u == 0x85 || u == 0xa0 || u == 0x1680 || (0x2000 <= u
        && u <= 0x200a) || u == 0x2028 || u == 0x2029 || u == 0x202f || u == 0x205f || u == 0x3000
}

pub open spec fn is_digit(c: char) -> bool {
    '0' <= c <= '9'
}

pub open spec fn is_upper(c: char) -> bool {
    'A' <= c <= 'Z'
}

pub open spec fn is_letter(c: char) -> bool {
    ('A' <= c <= 'Z') || ('a' <= c <= 'z')
}

/// The value of one ASCII digit.
pub open spec fn digit_value(c: char) -> nat {
    (c as u32 - '0' as u32) as nat
}

/// The character classes the scanners below measure runs of.
#[derive(Clone, Copy)]
pub enum Class {
    /// ASCII digits.
    Digit,
    /// Unicode white space.
    Space,
    /// Anything but white space.
    NotSpace,
    /// ASCII capitals.
    Upper,
    /// Anything but a closing square bracket.
    NotCloseBracket,
    /// ASCII letters, `_` and the space character.
    LabelTail,
    /// ASCII digits and `;`, the parameters of a terminal escape.
    EscapeParam,
    /// Anything but a double quote.
    NotQuote,
    /// Anything but `.`, `_` and `-`, the separators of a version string.
    NotVersionSep,
    /// Anything but `:`.
    NotColon,
    /// Anything but a line feed.
    NotNewline,
    /// Anything but `.`.
    NotDot,
    /// `_`.
    Underscore,
    /// Anything but `=`.
    NotEquals,
}

pub open spec fn in_class(k: Class, c: char) -> bool {
    match k {
        Class::Digit => is_digit(c),
        Class::Space => is_ws(c),
        Class::NotSpace => !is_ws(c),
        Class::Upper => is_upper(c),
        Class::NotCloseBracket => c != ']',
        Class::LabelTail => is_letter(c) || c == '_' || c == ' ',
        Class::EscapeParam => is_digit(c) || c == ';',
        Class::NotQuote => c != '"',
        Class::NotVersionSep => c != '.' && c != '_' && c != '-',
        Class::NotColon => c != ':',
        Class::NotNewline => c != '\n',
        Class::NotDot => c != '.',
        Class::Underscore => c == '_',
        Class::NotEquals => c != '=',
    }
}

pub fn class_test(k: Class, c: char) -> (b: bool)
    ensures
        b == in_class(k, c),
{
    match k {
        Class::Digit => '0' <= c && c <= '9',
        Class::Space => is_whitespace(c),
        Class::NotSpace => !is_whitespace(c),
        Class::Upper => 'A' <= c && c <= 'Z',
        Class::NotCloseBracket => c != ']',
        Class::LabelTail => ('A' <= c && c <= 'Z') || ('a' <= c && c <= 'z') || c == '_' || c
            == ' ',
        Class::EscapeParam => ('0' <= c && c <= '9') || c == ';',
        Class::NotQuote => c != '"',
        Class::NotVersionSep => c != '.' && c != '_' && c != '-',
        Class::NotColon => c != ':',
        Class::NotNewline => c != '\n',
        Class::NotDot => c != '.',
        Class::Underscore => c == '_',
        Class::NotEquals => c != '=',
    }
}

/// Length of the longest run of class `k` starting at position `i` of `s`.
pub open spec fn run(s: Seq<char>, i: int, k: Class) -> nat
    decreases s.len() - i,
{
    if 0 <= i < s.len() && in_class(k, s[i]) {
        1 + run(s, i + 1, k)
    } else {
        0
    }
}

/// A run stays inside the sequence, holds only characters of its class, and stops at one that
/// is not (or at the end).
pub proof fn lemma_run(s: Seq<char>, i: int, k: Class)
    requires
        0 <= i <= s.len(),
    ensures
        i + run(s, i, k) <= s.len(),
        forall|j: int| i <= j < i + run(s, i, k) ==> #[trigger] in_class(k, s[j]),
        i + run(s, i, k) < s.len() ==> !in_class(k, s[i + run(s, i, k)]),
    decreases s.len() - i,
{
    if i < s.len() && in_class(k, s[i]) {
        lemma_run(s, i + 1, k);
    }
}

/// End of the run of class `k` that starts at `i`.
pub fn run_end(v: &Vec<char>, i: usize, k: Class) -> (e: usize)
    requires
        i <= v@.len(),
    ensures
        e == i + run(v@, i as int, k),
        e <= v@.len(),
{
    let mut j: usize = i;
    while j < v.len() && class_test(k, v[j])
        invariant
            i <= j <= v@.len(),
            run(v@, i as int, k) == (j - i) + run(v@, j as int, k),
        decreases v@.len() - j,
    {
        j = j + 1;
    }
    j
}

/// Number of characters left once trailing white space is cut off.
pub open spec fn trim_end_len(s: Seq<char>) -> nat
    decreases s.len(),
{
    if s.len() > 0 && is_ws(s.last()) {
        trim_end_len(s.drop_last())
    } else {
        s.len()
    }
}

/// `str::trim_end`.
pub open spec fn trim_end(s: Seq<char>) -> Seq<char> {
    s.take(trim_end_len(s) as int)
}

/// `str::trim`: white space cut from both ends.
pub open spec fn trim(s: Seq<char>) -> Seq<char> {
    let e = trim_end(s);
    e.skip(run(e, 0, Class::Space) as int)
}

pub proof fn lemma_trim_end_len(s: Seq<char>)
    ensures
        trim_end_len(s) <= s.len(),
        trim_end_len(s) > 0 ==> !is_ws(s[trim_end_len(s) - 1]),
        forall|j: int| trim_end_len(s) <= j < s.len() ==> #[trigger] is_ws(s[j]),
    decreases s.len(),
{
    if s.len() > 0 && is_ws(s.last()) {
        lemma_trim_end_len(s.drop_last());
        assert forall|j: int| trim_end_len(s) <= j < s.len() implies #[trigger] is_ws(s[j]) by {
            if j < s.len() - 1 {
                assert(s[j] == s.drop_last()[j]);
            }
        }
    }
}

/// Length of `v` once trailing white space is cut off.
pub fn trim_end_index(v: &Vec<char>) -> (e: usize)
    ensures
        e == trim_end_len(v@),
{
    let mut e: usize = v.len();
    assert(v@.take(v@.len() as int) =~= v@);
    while e > 0 && is_whitespace(v[e - 1])
        invariant
            e <= v@.len(),
            trim_end_len(v@) == trim_end_len(v@.take(e as int)),
        decreases e,
    {
        assert(v@.take(e as int).drop_last() =~= v@.take(e - 1));
        e = e - 1;
    }
    assert(v@.take(v@.len() as int) =~= v@);
    e
}

/// `v` with white space cut from both ends.
pub fn trim_vec(v: &Vec<char>) -> (out: Vec<char>)
    ensures
        out@ == trim(v@),
{
    let e = trim_end_index(v);
    proof {
        lemma_trim_end_len(v@);
    }
    let cut = slice_of(v, 0, e);
    let s = run_end(&cut, 0, Class::Space);
    slice_of(&cut, s, e)
}

/// Whether `pat` occurs in `v` at position `i`.
pub fn matches_at(v: &Vec<char>, i: usize, pat: &[char]) -> (b: bool)
    requires
        i <= v@.len(),
    ensures
        b == (i + pat@.len() <= v@.len() && v@.subrange(i as int, i + pat@.len()) == pat@),
{
    if pat.len() > v.len() - i {
        return false;
    }
    let n = v.len();
    let mut j: usize = 0;
    while j < pat.len()
        invariant
            j <= pat@.len(),
            n == v@.len(),
            i + pat@.len() <= n,
            forall|q: int| 0 <= q < j ==> v@[i + q] == pat@[q],
        decreases pat@.len() - j,
    {
        let k: usize = i + j;
        if v[k] != pat[j] {
            assert(v@.subrange(i as int, i + pat@.len())[j as int] != pat@[j as int]);
            return false;
        }
        j = j + 1;
    }
    assert(v@.subrange(i as int, i + pat@.len()) =~= pat@);
    true
}

/// Value of the ASCII digits `s[a..b]`, most significant first.
pub open spec fn digits_value(s: Seq<char>, a: int, b: int) -> nat
    decreases b - a,
{
    if b <= a {
        0
    } else {
        digits_value(s, a, b - 1) * 10 + digit_value(s[b - 1])
    }
}

/// Appending digits never makes the value smaller.
pub proof fn lemma_digits_value_grows(s: Seq<char>, a: int, j: int, b: int)
    requires
        a <= j <= b,
    ensures
        digits_value(s, a, j) <= digits_value(s, a, b),
    decreases b - j,
{
    if j < b {
        lemma_digits_value_grows(s, a, j, b - 1);
    }
}

/// All of `s[a..b]` are ASCII digits.
pub open spec fn all_digits(s: Seq<char>, a: int, b: int) -> bool {
    forall|j: int| a <= j < b ==> #[trigger] is_digit(s[j])
}

/// The value of the ASCII digits `v[a..b]` when it is at most `max`.
pub fn digits_upto(v: &Vec<char>, a: usize, b: usize, max: u64) -> (r: Option<u64>)
    requires
        a <= b <= v@.len(),
        all_digits(v@, a as int, b as int),
        max < u64::MAX / 10,
    ensures
        r matches Some(n) ==> n == digits_value(v@, a as int, b as int) && n <= max,
        r is None ==> digits_value(v@, a as int, b as int) > max,
{
    let mut acc: u64 = 0;
    let mut j: usize = a;
    while j < b
        invariant
            a <= j <= b <= v@.len(),
            all_digits(v@, a as int, b as int),
            max < u64::MAX / 10,
            acc == digits_value(v@, a as int, j as int),
            acc <= max,
        decreases b - j,
    {
        assert(is_digit(v@[j as int]));
        let d = (v[j] as u32 - '0' as u32) as u64;
        acc = acc * 10 + d;
        j = j + 1;
        if acc > max {
            proof {
                lemma_digits_value_grows(v@, a as int, j as int, b as int);
            }
            return None;
        }
    }
    Some(acc)
}

/// What `str::parse` gives for an unsigned integer type whose largest value is `max`: an
/// optional `+`, then at least one ASCII digit and nothing else, with a value that fits.
pub open spec fn parse_unsigned(s: Seq<char>, max: nat) -> Option<nat> {
    let start: int = if s.len() > 0 && s[0] == '+' {
        1
    } else {
        0
    };
    if start < s.len() && all_digits(s, start, s.len() as int) && digits_value(
        s,
        start,
        s.len() as int,
    ) <= max {
        Some(digits_value(s, start, s.len() as int))
    } else {
        None
    }
}

/// `str::parse::<u32>`, on the characters `v[a..b]`.
pub fn parse_u32_range(v: &Vec<char>, a: usize, b: usize) -> (r: Option<u32>)
    requires
        a <= b <= v@.len(),
    ensures
        r matches Some(n) ==> parse_unsigned(v@.subrange(a as int, b as int), u32::MAX as nat)
            == Some(n as nat),
        r is None ==> parse_unsigned(v@.subrange(a as int, b as int), u32::MAX as nat) is None,
{
    let ghost s = v@.subrange(a as int, b as int);
    let start: usize = if a < b && v[a] == '+' {
        a + 1
    } else {
        a
    };
    if start >= b {
        return None;
    }
    let e = run_end(v, start, Class::Digit);
    proof {
        lemma_run(v@, start as int, Class::Digit);
    }
    if e < b {
        proof {
            if e < b {
                assert(!is_digit(s[e - a]));
            }
        }
        return None;
    }
    proof {
        assert forall|j: int| start - a <= j < s.len() implies #[trigger] is_digit(s[j]) by {
            assert(in_class(Class::Digit, v@[j + a]));
        }
        assert forall|j: int| start <= j < b implies #[trigger] is_digit(v@[j]) by {
            assert(in_class(Class::Digit, v@[j]));
        }
        lemma_digits_value_shift(v@, s, a as int, start as int, b as int);
    }
    match digits_upto(v, start, b, 0xffff_ffff) {
        Some(n) => Some(n as u32),
        None => None,
    }
}

/// Digits read inside a subrange have the value they have in the whole sequence.
pub proof fn lemma_digits_value_shift(v: Seq<char>, s: Seq<char>, a: int, x: int, b: int)
    requires
        0 <= a <= x <= b <= v.len(),
        s == v.subrange(a, b),
    ensures
        digits_value(s, x - a, b - a) == digits_value(v, x, b),
{
    lemma_digits_value_shift_to(v, s, a, x, b, b);
}

proof fn lemma_digits_value_shift_to(v: Seq<char>, s: Seq<char>, a: int, x: int, y: int, b: int)
    requires
        0 <= a <= x <= y <= b <= v.len(),
        s == v.subrange(a, b),
    ensures
        digits_value(s, x - a, y - a) == digits_value(v, x, y),
    decreases y - x,
{
    if x < y {
        lemma_digits_value_shift_to(v, s, a, x, y - 1, b);
    }
}

} // verus!

verus! {

pub open spec fn digit_char(d: nat) -> char {
    if d == 0 {
        '0'
    } else if d == 1 {
        '1'
    } else if d == 2 {
        '2'
    } else if d == 3 {
        '3'
    } else if d == 4 {
        '4'
    } else if d == 5 {
        '5'
    } else if d == 6 {
        '6'
    } else if d == 7 {
        '7'
    } else if d == 8 {
        '8'
    } else {
        '9'
    }
}

pub fn digit_char_exec(d: u64) -> (c: char)
    requires
        d < 10,
    ensures
        c == digit_char(d as nat),
{
    if d == 0 {
        '0'
    } else if d == 1 {
        '1'
    } else if d == 2 {
        '2'
    } else if d == 3 {
        '3'
    } else if d == 4 {
        '4'
    } else if d == 5 {
        '5'
    } else if d == 6 {
        '6'
    } else if d == 7 {
        '7'
    } else if d == 8 {
        '8'
    } else {
        '9'
    }
}

/// The decimal rendering of `n`, as `format!("{}")` writes it.
pub open spec fn decimal(n: nat) -> Seq<char>
    decreases n,
{
    if n < 10 {
        seq![digit_char(n)]
    } else {
        decimal(n / 10).push(digit_char(n % 10))
    }
}

/// `s` left-padded with `0` to at least `width` characters, as `{:0width}` does for a
/// non-negative number.
pub open spec fn zero_pad(s: Seq<char>, width: nat) -> Seq<char> {
    if s.len() >= width {
        s
    } else {
        Seq::new((width - s.len()) as nat, |i: int| '0') + s
    }
}

pub proof fn lemma_decimal_len(n: nat)
    ensures
        decimal(n).len() >= 1,
        n < 10 ==> decimal(n).len() == 1,
        10 <= n < 100 ==> decimal(n).len() == 2,
        100 <= n < 1000 ==> decimal(n).len() == 3,
    decreases n,
{
    if n >= 10 {
        lemma_decimal_len(n / 10);
    }
}

/// Appends the decimal rendering of `n`.
pub fn push_decimal(out: &mut Vec<char>, n: u64)
    ensures
        final(out)@ == old(out)@ + decimal(n as nat),
    decreases n,
{
    if n >= 10 {
        push_decimal(out, n / 10);
    }
    out.push(digit_char_exec(n % 10));
    proof {
        if n >= 10 {
            assert(old(out)@ + decimal(n as nat) =~= old(out)@ + decimal((n / 10) as nat) + seq![
                digit_char((n % 10) as nat),
            ]);
        } else {
            assert(old(out)@ + decimal(n as nat) =~= old(out)@.push(digit_char(n as nat)));
        }
    }
}

/// Appends `n` zero-padded to `width` characters.
pub fn push_padded(out: &mut Vec<char>, n: u64, width: usize)
    ensures
        final(out)@ == old(out)@ + zero_pad(decimal(n as nat), width as nat),
{
    let mut digits: Vec<char> = Vec::new();
    push_decimal(&mut digits, n);
    assert(digits@ =~= decimal(n as nat));
    let ghost before = out@;
    if digits.len() < width {
        let pad = width - digits.len();
        let mut i: usize = 0;
        while i < pad
            invariant
                i <= pad,
                out@ == before + Seq::new(i as nat, |q: int| '0'),
            decreases pad - i,
        {
            out.push('0');
            assert(before + Seq::new((i + 1) as nat, |q: int| '0') =~= (before + Seq::new(
                i as nat,
                |q: int| '0',
            )).push('0'));
            i = i + 1;
        }
    }
    push_all(out, digits.as_slice());
    assert(out@ =~= before + zero_pad(decimal(n as nat), width as nat));
}

/// `s` followed by `t`, as a new string.
pub fn concat_str(s: &str, t: &str) -> (out: String)
    ensures
        out@ == s@ + t@,
{
    let mut v = chars_of(s);
    let w = chars_of(t);
    push_all(&mut v, w.as_slice());
    string_of(v.as_slice())
}

} // verus!

verus! {

/// `Path::join` on Unix paths held as text: an absolute `rel` replaces `base`, otherwise the two
/// are joined with one `/` unless `base` is empty or already ends in one.
pub open spec fn path_join(base: Seq<char>, rel: Seq<char>) -> Seq<char> {
    if rel.len() > 0 && rel[0] == '/' {
        rel
    } else if base.len() == 0 || base.last() == '/' {
        base + rel
    } else {
        base + seq!['/'] + rel
    }
}

pub fn join_chars(base: &str, rel: &Vec<char>) -> (out: String)
    ensures
        out@ == path_join(base@, rel@),
{
    if rel.len() > 0 && rel[0] == '/' {
        return string_of(rel.as_slice());
    }
    let mut v = chars_of(base);
    if v.len() > 0 && v[v.len() - 1] != '/' {
        v.push('/');
    }
    push_all(&mut v, rel.as_slice());
    proof {
        if base@.len() == 0 || base@.last() == '/' {
            assert(v@ =~= path_join(base@, rel@));
        } else {
            assert(v@ =~= path_join(base@, rel@));
        }
    }
    string_of(v.as_slice())
}

/// `base.join(rel)` for paths held as text.
pub fn join(base: &str, rel: &str) -> (out: String)
    ensures
        out@ == path_join(base@, rel@),
{
    let r = chars_of(rel);
    join_chars(base, &r)
}

/// Whether two texts are the same.
pub fn same_text(a: &str, b: &str) -> (r: bool)
    ensures
        r == (a@ == b@),
{
    let x = chars_of(a);
    let y = chars_of(b);
    if x.len() != y.len() {
        return false;
    }
    let r = matches_at(&x, 0, y.as_slice());
    assert(x@.subrange(0, x@.len() as int) =~= x@);
    r
}

/// Whether `s` ends with `suffix`.
pub open spec fn has_suffix(s: Seq<char>, suffix: Seq<char>) -> bool {
    suffix.len() <= s.len() && s.subrange(s.len() - suffix.len(), s.len() as int) == suffix
}

/// Whether `s` starts with `prefix`.
pub open spec fn has_prefix(s: Seq<char>, prefix: Seq<char>) -> bool {
    prefix.len() <= s.len() && s.subrange(0, prefix.len() as int) == prefix
}

pub fn ends_with_chars(v: &Vec<char>, suffix: &[char]) -> (r: bool)
    ensures
        r == has_suffix(v@, suffix@),
{
    if suffix.len() > v.len() {
        return false;
    }
    matches_at(v, v.len() - suffix.len(), suffix)
}

pub fn starts_with_chars(v: &Vec<char>, prefix: &[char]) -> (r: bool)
    ensures
        r == has_prefix(v@, prefix@),
{
    matches_at(v, 0, prefix)
}

} // verus!

verus! {

/// `char::to_ascii_lowercase`.
pub open spec fn ascii_lower(c: char) -> char {
    if 'A' <= c <= 'Z' {
        ((c as u32) + 32) as char
    } else {
        c
    }
}

pub fn ascii_lower_exec(c: char) -> (r: char)
    ensures
        r == ascii_lower(c),
{
    if 'A' <= c && c <= 'Z' {
        let b: u8 = c as u8;
        ((b + 32) as char)
    } else {
        c
    }
}

/// `str::to_ascii_lowercase`.
pub open spec fn lowercase(s: Seq<char>) -> Seq<char> {
    s.map_values(|c: char| ascii_lower(c))
}

/// `raw.trim().to_ascii_lowercase()`, as characters.
pub fn lower_trimmed(raw: &str) -> (out: Vec<char>)
    ensures
        out@ == lowercase(trim(raw@)),
{
    let v = chars_of(raw);
    let t = trim_vec(&v);
    let mut out: Vec<char> = Vec::new();
    let mut i: usize = 0;
    while i < t.len()
        invariant
            i <= t@.len(),
            out@ == lowercase(t@.take(i as int)),
        decreases t@.len() - i,
    {
        out.push(ascii_lower_exec(t[i]));
        assert(lowercase(t@.take(i + 1)) =~= lowercase(t@.take(i as int)).push(ascii_lower(t@[i as int])));
        i = i + 1;
    }
    assert(t@.take(t@.len() as int) =~= t@);
    out
}

/// Whether the characters of `v` are exactly `lit`.
pub fn is_text(v: &Vec<char>, lit: &str) -> (r: bool)
    ensures
        r == (v@ == lit@),
{
    let l = chars_of(lit);
    if v.len() != l.len() {
        return false;
    }
    let r = matches_at(v, 0, l.as_slice());
    assert(v@.subrange(0, v@.len() as int) =~= v@);
    r
}

} // verus!

verus! {

/// The lines of `s` from position `start`, as `str::lines` gives them: split at `\n`, with a
/// `\r` before the `\n` removed, and no empty line after a final `\n`.
pub open spec fn line_spans(s: Seq<char>, start: int) -> Seq<(int, int)>
    decreases s.len() - start,
{
    if start < 0 || start >= s.len() {
        Seq::empty()
    } else {
        let e = start + run(s, start, Class::NotNewline);
        let end = if e < s.len() && e > start && s[e - 1] == '\r' {
            e - 1
        } else {
            e
        };
        seq![(start, end)] + if e < s.len() {
            line_spans(s, e + 1)
        } else {
            Seq::empty()
        }
    }
}

pub fn line_end(v: &Vec<char>, start: usize) -> (r: (usize, usize))
    requires
        start < v@.len(),
    ensures
        r.1 == start + run(v@, start as int, Class::NotNewline),
        r.0 == (if r.1 < v@.len() && r.1 > start && v@[r.1 - 1] == '\r' {
            r.1 - 1
        } else {
            r.1 as int
        }),
        start <= r.0 <= r.1 <= v@.len(),
{
    let e = run_end(v, start, Class::NotNewline);
    let end = if e < v.len() && e > start && v[e - 1] == '\r' {
        e - 1
    } else {
        e
    };
    (end, e)
}


/// `t` spells `word` in any ASCII case.
pub open spec fn spells(t: Seq<char>, word: Seq<char>) -> bool {
    t.len() == word.len() && forall|i: int| 0 <= i < t.len() ==> ascii_lower(#[trigger] t[i]) == word[i]
}

/// `t` without one leading `+` or `-`.
pub open spec fn unsigned(t: Seq<char>) -> Seq<char> {
    if t.len() > 0 && (t[0] == '+' || t[0] == '-') {
        t.drop_first()
    } else {
        t
    }
}

/// An exponent's digits after the `e`: an optional sign, then at least one digit.
pub open spec fn exponent_text(e: Seq<char>) -> bool {
    let d = run(unsigned(e), 0, Class::Digit);
    d > 0 && d == unsigned(e).len()
}

/// Digits, a `.` and more digits, at least one digit in all, then an optional exponent.
pub open spec fn number_text(t: Seq<char>) -> bool {
    let a = run(t, 0, Class::Digit) as int;
    let has_dot = a < t.len() && t[a] == '.';
    let b = if has_dot { run(t, a + 1, Class::Digit) as int } else { 0int };
    let end = if has_dot { a + 1 + b } else { a };
    a + b > 0 && (end == t.len() || ((t[end] == 'e' || t[end] == 'E') && exponent_text(t.skip(end + 1))))
}

/// What `f64::from_str` accepts, as its documentation gives the grammar: an optional sign, then
/// `inf`, `infinity` or `nan` in any case, or a decimal number.
pub open spec fn float_text(t: Seq<char>) -> bool {
    let u = unsigned(t);
    spells(u, "inf"@) || spells(u, "infinity"@) || spells(u, "nan"@) || number_text(u)
}

fn spells_word(t: &Vec<char>, from: usize, word: &str) -> (r: bool)
    requires
        from <= t@.len(),
    ensures
        r == spells(t@.skip(from as int), word@),
{
    let w = chars_of(word);
    let tl = t.len();
    if tl - from != w.len() {
        return false;
    }
    let mut i: usize = 0;
    while i < w.len()
        invariant
            i <= w@.len(),
            tl == t@.len(),
            w@ == word@,
            t@.len() - from == w@.len(),
            from <= t@.len(),
            forall|k: int| 0 <= k < i ==> ascii_lower(#[trigger] t@.skip(from as int)[k]) == w@[k],
        decreases w@.len() - i,
    {
        if crate::text::ascii_lower_exec(t[from + i]) != w[i] {
            assert(t@.skip(from as int)[i as int] == t@[from + i]);
            return false;
        }
        assert(t@.skip(from as int)[i as int] == t@[from + i]);
        i = i + 1;
    }
    true
}

fn exponent_at(t: &Vec<char>, from: usize) -> (r: bool)
    requires
        from <= t@.len(),
    ensures
        r == exponent_text(t@.skip(from as int)),
{
    let ghost e = t@.skip(from as int);
    let s: usize = if from < t.len() && (t[from] == '+' || t[from] == '-') { from + 1 } else { from };
    assert(unsigned(e) =~= t@.skip(s as int));
    let d = run_end(t, s, Class::Digit);
    proof {
        lemma_run_shift(t@, s as int);
    }
    d > s && d == t.len()
}

proof fn lemma_run_shift(t: Seq<char>, s: int)
    requires
        0 <= s <= t.len(),
    ensures
        run(t.skip(s), 0, Class::Digit) == run(t, s, Class::Digit),
    decreases t.len() - s,
{
    lemma_run_shift_at(t, s, 0);
}

proof fn lemma_run_shift_at(t: Seq<char>, s: int, i: int)
    requires
        0 <= s <= t.len(),
        0 <= i <= t.len() - s,
    ensures
        run(t.skip(s), i, Class::Digit) == run(t, s + i, Class::Digit),
    decreases t.len() - s - i,
{
    if i < t.len() - s {
        lemma_run_shift_at(t, s, i + 1);
        assert(t.skip(s)[i] == t[s + i]);
    }
}

fn number_at(t: &Vec<char>, from: usize) -> (r: bool)
    requires
        from <= t@.len(),
    ensures
        r == number_text(t@.skip(from as int)),
{
    let ghost u = t@.skip(from as int);
    let a = run_end(t, from, Class::Digit);
    proof {
        lemma_run_shift(t@, from as int);
        crate::text::lemma_run(t@, from as int, Class::Digit);
    }
    let has_dot = a < t.len() && t[a] == '.';
    assert(has_dot == ((a - from) < u.len() && u[a - from] == '.'));
    let end = if has_dot { run_end(t, a + 1, Class::Digit) } else { a };
    proof {
        if has_dot {
            lemma_run_shift_at(t@, from as int, a - from + 1);
            crate::text::lemma_run(t@, a + 1, Class::Digit);
        }
    }
    let b = if has_dot { end - (a + 1) } else { 0 };
    if a - from + b == 0 {
        return false;
    }
    if end == t.len() {
        return true;
    }
    assert(u[end - from] == t@[end as int]);
    if t[end] == 'e' || t[end] == 'E' {
        assert(u.skip(end - from + 1) =~= t@.skip(end + 1));
        exponent_at(t, end + 1)
    } else {
        false
    }
}

/// Whether `f64::from_str` would read `text`; see `float_text`.
pub fn is_float_text(text: &str) -> (r: bool)
    ensures
        r == float_text(text@),
{
    let t = chars_of(text);
    let from: usize = if t.len() > 0 && (t[0] == '+' || t[0] == '-') { 1 } else { 0 };
    assert(unsigned(t@) =~= t@.skip(from as int));
    spells_word(&t, from, "inf") || spells_word(&t, from, "infinity") || spells_word(&t, from, "nan") || number_at(&t, from)
}

} // verus!
