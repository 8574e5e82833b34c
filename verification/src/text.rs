use vstd::prelude::*;

verus! {

// ---------------------------------------------------------------------------
// Specifications of character sequences
// ---------------------------------------------------------------------------

/// Unicode `White_Space`, the set that `char::is_whitespace` tests.
pub open spec fn is_ws(c: char) -> bool {
    let u = c as u32;
    (0x09 <= u && u <= 0x0d) || u == 0x20 || u == 0x85 || u == 0xa0 || u == 0x1680
        || (0x2000 <= u && u <= 0x200a) || u == 0x2028 || u == 0x2029 || u == 0x202f
        || u == 0x205f || u == 0x3000
}

/// The sequence without its leading white space.
pub open spec fn trim_start(s: Seq<char>) -> Seq<char>
    decreases s.len(),
{
    if s.len() > 0 && is_ws(s[0]) {
        trim_start(s.drop_first())
    } else {
        s
    }
}

/// The sequence without its trailing white space.
pub open spec fn trim_end(s: Seq<char>) -> Seq<char>
    decreases s.len(),
{
    if s.len() > 0 && is_ws(s.last()) {
        trim_end(s.drop_last())
    } else {
        s
    }
}

/// The sequence without leading and trailing white space, as `str::trim` gives it.
pub open spec fn trim(s: Seq<char>) -> Seq<char> {
    trim_end(trim_start(s))
}

/// `p` is a prefix of `s`.
pub open spec fn has_prefix(s: Seq<char>, p: Seq<char>) -> bool {
    p.len() <= s.len() && s.take(p.len() as int) == p
}

/// `p` occurs in `s` at position `i`.
pub open spec fn occurs_at(s: Seq<char>, p: Seq<char>, i: int) -> bool {
    0 <= i && i + p.len() <= s.len() && s.subrange(i, i + p.len()) == p
}

/// `p` occurs somewhere in `s`, as `str::contains` tests.
pub open spec fn contains_sub(s: Seq<char>, p: Seq<char>) -> bool {
    exists|i: int| occurs_at(s, p, i)
}

/// `c` occurs in `s`.
pub open spec fn has_char(s: Seq<char>, c: char) -> bool {
    exists|i: int| 0 <= i < s.len() && s[i] == c
}

/// The ASCII lower-case form of a character; other characters are unchanged.
pub open spec fn ascii_lower(c: char) -> char {
    if 'A' <= c && c <= 'Z' {
        ((c as u32) + 32) as char
    } else {
        c
    }
}

/// The two sequences are equal when ASCII letters are compared without case,
/// as `str::eq_ignore_ascii_case` tests.
pub open spec fn eq_ignore_ascii_case(a: Seq<char>, b: Seq<char>) -> bool {
    a.len() == b.len() && forall|i: int| 0 <= i < a.len() ==> ascii_lower(a[i]) == ascii_lower(b[i])
}

/// The digit character of `d < 10`.
pub open spec fn digit_char(d: nat) -> char {
    (('0' as u32) + d) as char
}

/// The value of a decimal digit character.
pub open spec fn digit_value(c: char) -> nat {
    ((c as u32) - ('0' as u32)) as nat
}

/// `c` is one of `0`..`9`.
pub open spec fn is_digit(c: char) -> bool {
    '0' <= c && c <= '9'
}

/// The decimal representation of `n`, without sign or leading zeros.
pub open spec fn dec(n: nat) -> Seq<char>
    decreases n,
{
    if n < 10 {
        seq![digit_char(n)]
    } else {
        dec(n / 10).push(digit_char(n % 10))
    }
}

/// `n` times the character `c`.
pub open spec fn repeat_char(c: char, n: nat) -> Seq<char>
    decreases n,
{
    if n == 0 {
        Seq::empty()
    } else {
        repeat_char(c, (n - 1) as nat).push(c)
    }
}

/// `s` padded on the left with `0` up to `width` characters.
pub open spec fn zero_pad(s: Seq<char>, width: nat) -> Seq<char> {
    if s.len() >= width {
        s
    } else {
        repeat_char('0', (width - s.len()) as nat) + s
    }
}

/// A signed integer as `format!("{:0width$}")` writes it: the sign, then the
/// digits padded with zeros so that the whole has at least `width` characters.
pub open spec fn signed_zero_padded(n: int, width: nat) -> Seq<char> {
    if n < 0 {
        seq!['-'] + zero_pad(dec((-n) as nat), if width >= 1 { (width - 1) as nat } else { 0 })
    } else {
        zero_pad(dec(n as nat), width)
    }
}

/// The value of a non-empty run of decimal digits.
pub open spec fn digits_value(s: Seq<char>) -> nat
    decreases s.len(),
{
    if s.len() == 0 {
        0
    } else {
        digits_value(s.drop_last()) * 10 + digit_value(s.last())
    }
}

/// Every character of `s` is a decimal digit.
pub open spec fn all_digits(s: Seq<char>) -> bool {
    forall|i: int| 0 <= i < s.len() ==> is_digit(s[i])
}

/// Why `str::parse` refused a text as an unsigned integer.
#[derive(Debug, Clone, Copy, PartialEq, Eq)]
pub enum IntErrorKind {
    Empty,
    InvalidDigit,
    PosOverflow,
}

/// The digits that `str::parse` reads for an unsigned type: an optional
/// leading `+` is dropped when more follows it.
pub open spec fn unsigned_body(s: Seq<char>) -> Seq<char> {
    if s.len() > 1 && s[0] == '+' {
        s.drop_first()
    } else {
        s
    }
}

/// What `str::parse` gives for an unsigned integer type whose largest value is `max`.
pub open spec fn parse_unsigned(s: Seq<char>, max: nat) -> Result<nat, IntErrorKind> {
    let b = unsigned_body(s);
    if s.len() == 0 {
        Err(IntErrorKind::Empty)
    } else if !all_digits(b) {
        Err(IntErrorKind::InvalidDigit)
    } else if digits_value(b) > max {
        Err(IntErrorKind::PosOverflow)
    } else {
        Ok(digits_value(b))
    }
}

/// The message `ParseIntError` displays for each kind.
pub open spec fn int_error_message(k: IntErrorKind) -> Seq<char> {
    match k {
        IntErrorKind::Empty => "cannot parse integer from empty string"@,
        IntErrorKind::InvalidDigit => "invalid digit found in string"@,
        IntErrorKind::PosOverflow => "number too large to fit in target type"@,
    }
}

/// The words of `s` after the partial word `cur`: the maximal runs of
/// characters that are not white space, in order.
pub open spec fn words_from(s: Seq<char>, cur: Seq<char>) -> Seq<Seq<char>>
    decreases s.len(),
{
    if s.len() == 0 {
        if cur.len() > 0 {
            seq![cur]
        } else {
            Seq::empty()
        }
    } else if is_ws(s[0]) {
        (if cur.len() > 0 {
            seq![cur]
        } else {
            Seq::empty()
        }) + words_from(s.drop_first(), Seq::empty())
    } else {
        words_from(s.drop_first(), cur.push(s[0]))
    }
}

/// The words of `s`, as `str::split_whitespace` yields them.
pub open spec fn words(s: Seq<char>) -> Seq<Seq<char>> {
    words_from(s, Seq::empty())
}

/// The first position at or after `i` where `p` occurs in `s`, or the
/// length of `s` when it occurs nowhere there.
pub open spec fn find_from(s: Seq<char>, p: Seq<char>, i: int) -> int
    decreases s.len() + 1 - i,
{
    if i < 0 || i + p.len() > s.len() {
        s.len() as int
    } else if occurs_at(s, p, i) {
        i
    } else {
        find_from(s, p, i + 1)
    }
}

/// The part of `s` before the first occurrence of `p` (all of `s` when `p`
/// does not occur), as the first item of `str::split` gives it.
pub open spec fn before_pattern(s: Seq<char>, p: Seq<char>) -> Seq<char> {
    s.take(find_from(s, p, 0))
}

/// A line without the carriage return that ended it before its newline.
pub open spec fn strip_cr(line: Seq<char>) -> Seq<char> {
    if line.len() > 0 && line.last() == '\r' {
        line.drop_last()
    } else {
        line
    }
}

/// The lines of `s` after the partial line `cur`, as `str::lines` yields
/// them: split after each newline, which is dropped with a carriage return
/// before it; a last line without a newline is kept as it is, and nothing
/// follows a final newline.
pub open spec fn lines_from(s: Seq<char>, cur: Seq<char>) -> Seq<Seq<char>>
    decreases s.len(),
{
    if s.len() == 0 {
        if cur.len() > 0 {
            seq![cur]
        } else {
            Seq::empty()
        }
    } else if s[0] == '\n' {
        seq![strip_cr(cur)] + lines_from(s.drop_first(), Seq::empty())
    } else {
        lines_from(s.drop_first(), cur.push(s[0]))
    }
}

/// The lines of a text.
pub open spec fn text_lines(s: Seq<char>) -> Seq<Seq<char>> {
    lines_from(s, Seq::empty())
}

/// The texts of a sequence of strings.
pub open spec fn texts(v: Seq<String>) -> Seq<Seq<char>> {
    v.map_values(|a: String| a@)
}

/// The position of the first exponent mark (`e` or `E`) of `s`, or its length.
pub open spec fn exponent_at(s: Seq<char>) -> nat
    decreases s.len(),
{
    if s.len() == 0 {
        0
    } else if s[0] == 'e' || s[0] == 'E' {
        0
    } else {
        1 + exponent_at(s.drop_first())
    }
}

/// The number of `.` in `s`.
pub open spec fn dot_count(s: Seq<char>) -> nat
    decreases s.len(),
{
    if s.len() == 0 {
        0
    } else {
        (if s[0] == '.' {
            1nat
        } else {
            0nat
        }) + dot_count(s.drop_first())
    }
}

/// `Digit+ | Digit+ '.' Digit* | Digit* '.' Digit+`: digits with at most one
/// point and at least one digit.
pub open spec fn is_mantissa(m: Seq<char>) -> bool {
    &&& forall|i: int| 0 <= i < m.len() ==> is_digit(#[trigger] m[i]) || m[i] == '.'
    &&& dot_count(m) <= 1
    &&& exists|i: int| 0 <= i < m.len() && is_digit(#[trigger] m[i])
}

/// `('e' | 'E') Sign? Digit+`.
pub open spec fn is_exponent(e: Seq<char>) -> bool {
    let d = if e.len() > 1 && (e[1] == '+' || e[1] == '-') {
        e.skip(2)
    } else {
        e.skip(1)
    };
    e.len() > 0 && (e[0] == 'e' || e[0] == 'E') && d.len() > 0 && all_digits(d)
}

/// `s` spells one of the special values (`inf`, `infinity`, `nan`) in any case.
pub open spec fn is_special_float(s: Seq<char>) -> bool {
    eq_ignore_ascii_case(s, "inf"@) || eq_ignore_ascii_case(s, "infinity"@)
        || eq_ignore_ascii_case(s, "nan"@)
}

/// The grammar the standard library documents for reading a floating-point
/// number from text: `Sign? ('inf' | 'infinity' | 'nan' | Number)`, where
/// `Number ::= Mantissa Exp?`, with no white space anywhere.
pub open spec fn is_float_text(s: Seq<char>) -> bool {
    let b = if s.len() > 0 && (s[0] == '+' || s[0] == '-') {
        s.drop_first()
    } else {
        s
    };
    let k = exponent_at(b) as int;
    is_special_float(b) || (is_mantissa(b.take(k)) && (k == b.len() || is_exponent(b.skip(k))))
}

/// The message of the error for a text that is not a floating-point number;
/// `None` for one that is.
pub open spec fn float_text_error(s: Seq<char>) -> Option<Seq<char>> {
    if s.len() == 0 {
        Some("cannot parse float from empty string"@)
    } else if is_float_text(s) {
        None
    } else {
        Some("invalid float literal"@)
    }
}

// ---------------------------------------------------------------------------
// Lemmas
// ---------------------------------------------------------------------------

pub proof fn lemma_dec_len(n: nat)
    ensures
        dec(n).len() >= 1,
        n < 10 ==> dec(n).len() == 1,
        n >= 10 ==> dec(n).len() == dec(n / 10).len() + 1,
    decreases n,
{
    if n >= 10 {
        lemma_dec_len(n / 10);
    }
}

/// The decimal text of a number is made of digits and reads back as the number.
pub proof fn lemma_dec_digits(n: nat)
    ensures
        dec(n).len() >= 1,
        all_digits(dec(n)),
        digits_value(dec(n)) == n,
    decreases n,
{
    let k = n % 10;
    assert(digit_value(digit_char(k)) == k) by {
        assert(('0' as u32) == 48);
        assert(((48 + k) as char) as u32 == 48 + k);
    }
    assert(is_digit(digit_char(k))) by {
        assert(((48 + k) as char) as u32 == 48 + k);
    }
    if n < 10 {
        assert(dec(n).drop_last() =~= Seq::<char>::empty());
        assert(dec(n).last() == digit_char(k));
        assert(digits_value(dec(n)) == digits_value(dec(n).drop_last()) * 10 + digit_value(
            dec(n).last(),
        ));
    } else {
        lemma_dec_digits(n / 10);
        let d = dec(n / 10);
        assert(dec(n).drop_last() =~= d);
        assert(dec(n).last() == digit_char(k));
        assert(digits_value(dec(n)) == digits_value(d) * 10 + k);
        assert(n == (n / 10) * 10 + n % 10) by (nonlinear_arith);
        assert forall|i: int| 0 <= i < dec(n).len() implies is_digit(dec(n)[i]) by {
            if i < d.len() {
                assert(dec(n)[i] == d[i]);
            }
        }
    }
}

/// Reading the decimal text of a number gives the number back, for every
/// number that fits the type read.
pub proof fn lemma_parse_dec(n: nat, max: nat)
    requires
        n <= max,
    ensures
        parse_unsigned(dec(n), max) == Ok::<nat, IntErrorKind>(n),
{
    lemma_dec_digits(n);
    assert(dec(n)[0] != '+') by {
        assert(is_digit(dec(n)[0]));
    }
    assert(unsigned_body(dec(n)) == dec(n));
}

pub proof fn lemma_repeat_char(c: char, n: nat)
    ensures
        repeat_char(c, n).len() == n,
        forall|i: int| 0 <= i < n ==> repeat_char(c, n)[i] == c,
    decreases n,
{
    if n > 0 {
        lemma_repeat_char(c, (n - 1) as nat);
    }
}

/// `trim_start` of `s` is the suffix that starts at the first non-white-space character.
pub proof fn lemma_trim_start_at(s: Seq<char>, k: int)
    requires
        0 <= k <= s.len(),
        forall|i: int| 0 <= i < k ==> is_ws(s[i]),
        k == s.len() || !is_ws(s[k]),
    ensures
        trim_start(s) == s.skip(k),
    decreases s.len(),
{
    if k > 0 {
        assert forall|i: int| 0 <= i < k - 1 implies is_ws(s.drop_first()[i]) by {
            assert(s.drop_first()[i] == s[i + 1]);
        }
        if k - 1 < s.drop_first().len() {
            assert(s.drop_first()[k - 1] == s[k]);
        }
        lemma_trim_start_at(s.drop_first(), k - 1);
        assert(s.drop_first().skip(k - 1) =~= s.skip(k));
    } else {
        assert(s.skip(0) =~= s);
    }
}

/// `trim_end` of `s` is the prefix that ends after the last non-white-space character.
pub proof fn lemma_trim_end_at(s: Seq<char>, k: int)
    requires
        0 <= k <= s.len(),
        forall|i: int| k <= i < s.len() ==> is_ws(s[i]),
        k == 0 || !is_ws(s[k - 1]),
    ensures
        trim_end(s) == s.take(k),
    decreases s.len(),
{
    if k < s.len() {
        assert forall|i: int| k <= i < s.drop_last().len() implies is_ws(s.drop_last()[i]) by {
            assert(s.drop_last()[i] == s[i]);
        }
        if k > 0 {
            assert(s.drop_last()[k - 1] == s[k - 1]);
        }
        lemma_trim_end_at(s.drop_last(), k);
        assert(s.drop_last().take(k) =~= s.take(k));
    } else {
        assert(s.take(k) =~= s);
    }
}

// ---------------------------------------------------------------------------
// Executable helpers
// ---------------------------------------------------------------------------

/// Appends one character to a string (`String::push`).
#[verifier::external_body]
pub(crate) fn push_char(s: &mut String, c: char)
    ensures
        final(s)@ == old(s)@.push(c),
{
    s.push(c);
}

/// The characters of a string slice.
pub fn chars_of(s: &str) -> (r: Vec<char>)
    ensures
        r@ == s@,
{
    let n = s.unicode_len();
    let mut r: Vec<char> = Vec::new();
    let mut i: usize = 0;
    while i < n
        invariant
            n == s@.len(),
            i <= n,
            r@ == s@.take(i as int),
        decreases n - i,
    {
        let c = s.get_char(i);
        r.push(c);
        i = i + 1;
        assert(r@ =~= s@.take(i as int));
    }
    assert(s@.take(n as int) =~= s@);
    r
}

/// A string made of the given characters.
pub fn string_of(v: &Vec<char>) -> (r: String)
    ensures
        r@ == v@,
{
    let mut r = String::new();
    let mut i: usize = 0;
    while i < v.len()
        invariant
            i <= v.len(),
            r@ == v@.take(i as int),
        decreases v.len() - i,
    {
        push_char(&mut r, v[i]);
        i = i + 1;
        assert(r@ =~= v@.take(i as int));
    }
    assert(v@.take(v.len() as int) =~= v@);
    r
}

/// A string made of the characters `v[from..to]`.
pub fn string_of_range(v: &Vec<char>, from: usize, to: usize) -> (r: String)
    requires
        from <= to <= v.len(),
    ensures
        r@ == v@.subrange(from as int, to as int),
{
    let mut r = String::new();
    let mut i: usize = from;
    while i < to
        invariant
            from <= i <= to <= v.len(),
            r@ == v@.subrange(from as int, i as int),
        decreases to - i,
    {
        push_char(&mut r, v[i]);
        i = i + 1;
        assert(r@ =~= v@.subrange(from as int, i as int));
    }
    r
}

/// Appends the characters of `t` to `s`.
pub fn append_chars(s: &mut Vec<char>, t: &str)
    ensures
        final(s)@ == old(s)@ + t@,
{
    let tc = chars_of(t);
    let ghost s0 = s@;
    let mut i: usize = 0;
    while i < tc.len()
        invariant
            i <= tc.len(),
            tc@ == t@,
            s@ == s0 + tc@.take(i as int),
        decreases tc.len() - i,
    {
        s.push(tc[i]);
        i = i + 1;
        assert(s@ =~= s0 + tc@.take(i as int));
    }
    assert(tc@.take(tc.len() as int) =~= tc@);
}

/// Appends the characters of `t` to `s`.
pub fn append_vec(s: &mut Vec<char>, t: &Vec<char>)
    ensures
        final(s)@ == old(s)@ + t@,
{
    let ghost s0 = s@;
    let mut i: usize = 0;
    while i < t.len()
        invariant
            i <= t.len(),
            s@ == s0 + t@.take(i as int),
        decreases t.len() - i,
    {
        s.push(t[i]);
        i = i + 1;
        assert(s@ =~= s0 + t@.take(i as int));
    }
    assert(t@.take(t.len() as int) =~= t@);
}

/// Whether a character is white space (`char::is_whitespace`).
pub fn char_is_ws(c: char) -> (r: bool)
    ensures
        r == is_ws(c),
{
    let u = c as u32;
    (0x09 <= u && u <= 0x0d) || u == 0x20 || u == 0x85 || u == 0xa0 || u == 0x1680 || (0x2000
        <= u && u <= 0x200a) || u == 0x2028 || u == 0x2029 || u == 0x202f || u == 0x205f || u
        == 0x3000
}

/// The bounds `[start, end)` of the trimmed part of `v`.
pub fn trim_bounds(v: &Vec<char>) -> (r: (usize, usize))
    ensures
        r.0 <= r.1 <= v.len(),
        v@.subrange(r.0 as int, r.1 as int) == trim(v@),
{
    let n = v.len();
    let mut a: usize = 0;
    while a < n && char_is_ws(v[a])
        invariant
            a <= n == v.len(),
            forall|i: int| 0 <= i < a ==> is_ws(v@[i]),
        decreases n - a,
    {
        a = a + 1;
    }
    proof {
        lemma_trim_start_at(v@, a as int);
    }
    let mut b: usize = n;
    while b > a && char_is_ws(v[b - 1])
        invariant
            a <= b <= n == v.len(),
            forall|i: int| b <= i < n ==> is_ws(v@[i]),
        decreases b - a,
    {
        b = b - 1;
    }
    proof {
        let t = v@.skip(a as int);
        let k = (b - a) as int;
        assert forall|i: int| k <= i < t.len() implies is_ws(t[i]) by {
            assert(t[i] == v@[a + i]);
        }
        if k > 0 {
            assert(t[k - 1] == v@[b - 1]);
        }
        lemma_trim_end_at(t, k);
        assert(t.take(k) =~= v@.subrange(a as int, b as int));
    }
    (a, b)
}

/// The characters of `s` without leading and trailing white space (`str::trim`).
pub fn trim_chars(s: &str) -> (r: Vec<char>)
    ensures
        r@ == trim(s@),
{
    let v = chars_of(s);
    let (a, b) = trim_bounds(&v);
    let mut r: Vec<char> = Vec::new();
    let mut i: usize = a;
    while i < b
        invariant
            a <= i <= b <= v.len(),
            r@ == v@.subrange(a as int, i as int),
        decreases b - i,
    {
        r.push(v[i]);
        i = i + 1;
        assert(r@ =~= v@.subrange(a as int, i as int));
    }
    r
}

/// Whether `p` is a prefix of `s`.
pub fn vec_has_prefix(s: &Vec<char>, p: &Vec<char>) -> (r: bool)
    ensures
        r == has_prefix(s@, p@),
{
    if p.len() > s.len() {
        return false;
    }
    let mut i: usize = 0;
    while i < p.len()
        invariant
            p.len() <= s.len(),
            i <= p.len(),
            forall|j: int| 0 <= j < i ==> s@[j] == p@[j],
        decreases p.len() - i,
    {
        if s[i] != p[i] {
            assert(s@.take(p.len() as int)[i as int] != p@[i as int]);
            return false;
        }
        i = i + 1;
    }
    assert(s@.take(p.len() as int) =~= p@);
    true
}

/// Whether `p` occurs in `s` at position `at`.
pub fn vec_occurs_at(s: &Vec<char>, p: &Vec<char>, at: usize) -> (r: bool)
    ensures
        r == occurs_at(s@, p@, at as int),
{
    if at > s.len() || p.len() > s.len() - at {
        return false;
    }
    let mut i: usize = 0;
    while i < p.len()
        invariant
            at + p.len() <= s.len(),
            i <= p.len(),
            forall|j: int| 0 <= j < i ==> s@[at + j] == p@[j],
        decreases p.len() - i,
    {
        if s[at + i] != p[i] {
            assert(s@.subrange(at as int, at + p.len())[i as int] != p@[i as int]);
            return false;
        }
        i = i + 1;
    }
    assert(s@.subrange(at as int, at + p.len()) =~= p@);
    true
}

/// Whether `p` occurs anywhere in `s` (`str::contains`).
pub fn vec_contains(s: &Vec<char>, p: &Vec<char>) -> (r: bool)
    ensures
        r == contains_sub(s@, p@),
{
    if p.len() > s.len() {
        return false;
    }
    if p.len() == 0 {
        assert(s@.subrange(0, 0) =~= p@);
        assert(occurs_at(s@, p@, 0));
        return true;
    }
    let last = s.len() - p.len();
    let mut i: usize = 0;
    while i <= last
        invariant
            last == s.len() - p.len(),
            p.len() >= 1,
            i <= last + 1,
            forall|j: int| 0 <= j < i ==> !occurs_at(s@, p@, j),
        decreases last + 1 - i,
    {
        if vec_occurs_at(s, p, i) {
            return true;
        }
        i = i + 1;
    }
    assert forall|j: int| !occurs_at(s@, p@, j) by {
        if 0 <= j && j < i {
        }
    }
    false
}

/// The character of a decimal digit.
pub fn digit_to_char(d: u64) -> (c: char)
    requires
        d < 10,
    ensures
        c == digit_char(d as nat),
{
    match d {
        0 => '0',
        1 => '1',
        2 => '2',
        3 => '3',
        4 => '4',
        5 => '5',
        6 => '6',
        7 => '7',
        8 => '8',
        _ => '9',
    }
}

/// The decimal digits of `n`.
pub fn dec_chars(n: u64) -> (r: Vec<char>)
    ensures
        r@ == dec(n as nat),
    decreases n,
{
    if n < 10 {
        let mut v: Vec<char> = Vec::new();
        v.push(digit_to_char(n));
        assert(v@ =~= dec(n as nat));
        v
    } else {
        let mut v = dec_chars(n / 10);
        v.push(digit_to_char(n % 10));
        v
    }
}

/// `v` padded on the left with `0` up to `width` characters.
pub fn zero_pad_vec(v: &Vec<char>, width: usize) -> (r: Vec<char>)
    ensures
        r@ == zero_pad(v@, width as nat),
{
    if v.len() >= width {
        let mut r: Vec<char> = Vec::new();
        append_vec(&mut r, v);
        assert(r@ =~= v@);
        return r;
    }
    let k = width - v.len();
    let mut r: Vec<char> = Vec::new();
    let mut i: usize = 0;
    while i < k
        invariant
            i <= k,
            r@ == repeat_char('0', i as nat),
        decreases k - i,
    {
        r.push('0');
        i = i + 1;
    }
    append_vec(&mut r, v);
    r
}

/// An unsigned integer in decimal, zero padded to `width` (`{:0width$}`).
pub fn fmt_u64_padded(n: u64, width: usize) -> (r: Vec<char>)
    ensures
        r@ == zero_pad(dec(n as nat), width as nat),
{
    let d = dec_chars(n);
    zero_pad_vec(&d, width)
}

/// A signed integer in decimal, zero padded to `width` after its sign.
pub fn fmt_i64_padded(n: i64, width: usize) -> (r: Vec<char>)
    ensures
        r@ == signed_zero_padded(n as int, width as nat),
{
    if n < 0 {
        let mag: u64 = if n == i64::MIN {
            0x8000_0000_0000_0000u64
        } else {
            (-n) as u64
        };
        let d = dec_chars(mag);
        let w = if width >= 1 {
            width - 1
        } else {
            0
        };
        let p = zero_pad_vec(&d, w);
        let mut r: Vec<char> = Vec::new();
        r.push('-');
        append_vec(&mut r, &p);
        assert(r@ =~= seq!['-'] + p@);
        r
    } else {
        fmt_u64_padded(n as u64, width)
    }
}

/// Parses an unsigned integer no larger than `max` as `str::parse` does.
pub fn parse_unsigned_chars(s: &Vec<char>, max: u64) -> (r: Result<u64, IntErrorKind>)
    requires
        max >= 9,
    ensures
        match r {
            Ok(v) => parse_unsigned(s@, max as nat) == Ok::<nat, IntErrorKind>(v as nat),
            Err(k) => parse_unsigned(s@, max as nat) == Err::<nat, IntErrorKind>(k),
        },
{
    if s.len() == 0 {
        return Err(IntErrorKind::Empty);
    }
    let start: usize = if s.len() > 1 && s[0] == '+' {
        1
    } else {
        0
    };
    let ghost b = unsigned_body(s@);
    proof {
        assert(b =~= s@.skip(start as int));
    }
    // first check that every character is a digit
    let mut i: usize = start;
    while i < s.len()
        invariant
            start <= i <= s.len(),
            s.len() > 0,
            b == unsigned_body(s@),
            b == s@.skip(start as int),
            forall|j: int| 0 <= j < i - start ==> is_digit(b[j]),
        decreases s.len() - i,
    {
        if !('0' <= s[i] && s[i] <= '9') {
            assert(!is_digit(b[i - start]));
            assert(!all_digits(b));
            return Err(IntErrorKind::InvalidDigit);
        }
        i = i + 1;
    }
    assert(all_digits(b));
    // then accumulate, stopping at the first overflow
    let mut acc: u64 = 0;
    let mut j: usize = start;
    while j < s.len()
        invariant
            start <= j <= s.len(),
            s.len() > 0,
            b == unsigned_body(s@),
            b == s@.skip(start as int),
            all_digits(b),
            acc as nat == digits_value(b.take(j - start)),
            acc <= max,
            max >= 9,
        decreases s.len() - j,
    {
        assert(b[j - start] == s@[j as int]);
        assert(is_digit(b[j - start]));
        let d = (s[j] as u32 - '0' as u32) as u64;
        assert(d == digit_value(b[j - start]) && d <= 9);
        proof {
            assert(b.take(j - start + 1).drop_last() =~= b.take(j - start));
            assert(b.take(j - start + 1).last() == b[j - start]);
            assert(b[j - start] == s@[j as int]);
        }
        if acc > (max - d) / 10 {
            proof {
                assert(acc * 10 + d > max) by (nonlinear_arith)
                    requires
                        acc > (max - d) / 10,
                        d <= 9,
                        max >= 9,
                ;
                lemma_digits_value_monotone(b, (j - start + 1) as int);
                assert(digits_value(b) > max);
            }
            return Err(IntErrorKind::PosOverflow);
        }
        proof {
            assert(acc * 10 + d <= max) by (nonlinear_arith)
                requires
                    acc <= (max - d) / 10,
                    d <= 9,
                    max >= 9,
            ;
        }
        acc = acc * 10 + d;
        j = j + 1;
    }
    assert(b.take(b.len() as int) =~= b);
    Ok(acc)
}

proof fn lemma_find_from_bounds(s: Seq<char>, p: Seq<char>, i: int)
    requires
        0 <= i,
    ensures
        0 <= find_from(s, p, i) <= s.len(),
        find_from(s, p, i) < s.len() ==> i <= find_from(s, p, i),
    decreases s.len() + 1 - i,
{
    if i + p.len() <= s.len() && !occurs_at(s, p, i) {
        lemma_find_from_bounds(s, p, i + 1);
    }
}

/// The first position where `p` occurs in `s`, or the length of `s`.
pub fn find_pattern(s: &Vec<char>, p: &Vec<char>) -> (r: usize)
    ensures
        r as int == find_from(s@, p@, 0),
        r <= s@.len(),
{
    proof {
        lemma_find_from_bounds(s@, p@, 0);
    }
    if p.len() > s.len() {
        return s.len();
    }
    if p.len() == 0 {
        assert(s@.subrange(0, 0) =~= p@);
        return 0;
    }
    let last = s.len() - p.len();
    let mut i: usize = 0;
    while i <= last
        invariant
            last == s@.len() - p@.len(),
            last < usize::MAX,
            p@.len() >= 1,
            i <= last + 1,
            find_from(s@, p@, 0) == find_from(s@, p@, i as int),
        decreases last + 1 - i,
    {
        if vec_occurs_at(s, p, i) {
            return i;
        }
        i = i + 1;
    }
    s.len()
}

/// The characters of `v` before the first occurrence of `p`.
pub fn before_pattern_chars(v: &Vec<char>, p: &Vec<char>) -> (r: Vec<char>)
    ensures
        r@ == before_pattern(v@, p@),
{
    let k = find_pattern(v, p);
    let mut r: Vec<char> = Vec::new();
    let mut i: usize = 0;
    while i < k
        invariant
            k <= v@.len(),
            i <= k,
            r@ == v@.take(i as int),
        decreases k - i,
    {
        r.push(v[i]);
        i = i + 1;
        assert(r@ =~= v@.take(i as int));
    }
    r
}

/// The characters of `v` without leading and trailing white space.
pub fn trim_vec(v: &Vec<char>) -> (r: Vec<char>)
    ensures
        r@ == trim(v@),
{
    let (a, b) = trim_bounds(v);
    let mut r: Vec<char> = Vec::new();
    let mut i: usize = a;
    while i < b
        invariant
            a <= i <= b <= v@.len(),
            r@ == v@.subrange(a as int, i as int),
        decreases b - i,
    {
        r.push(v[i]);
        i = i + 1;
        assert(r@ =~= v@.subrange(a as int, i as int));
    }
    r
}

/// The lines of a text (`str::lines`).
pub fn split_lines(s: &str) -> (r: Vec<String>)
    ensures
        texts(r@) == text_lines(s@),
{
    let c = chars_of(s);
    let mut out: Vec<String> = Vec::new();
    let mut cur: Vec<char> = Vec::new();
    let ghost mut done: Seq<Seq<char>> = Seq::empty();
    let mut i: usize = 0;
    assert(c@.skip(0) =~= c@);
    while i < c.len()
        invariant
            c@ == s@,
            i <= c@.len(),
            texts(out@) == done,
            done + lines_from(c@.skip(i as int), cur@) == text_lines(s@),
        decreases c.len() - i,
    {
        let ch = c[i];
        proof {
            assert(c@.skip(i as int).drop_first() =~= c@.skip(i + 1));
            assert(c@.skip(i as int)[0] == ch);
        }
        if ch == '\n' {
            let n = cur.len();
            let line = if n > 0 && cur[n - 1] == '\r' {
                string_of_range(&cur, 0, n - 1)
            } else {
                string_of_range(&cur, 0, n)
            };
            proof {
                if cur@.len() > 0 {
                    assert(cur@.last() == cur@[cur@.len() - 1]);
                }
                assert(cur@.subrange(0, cur@.len() as int) =~= cur@);
                assert(cur@.subrange(0, cur@.len() - 1) =~= cur@.drop_last());
                assert(line@ == strip_cr(cur@));
            }
            let ghost before = out@;
            out.push(line);
            proof {
                assert(texts(out@) =~= texts(before).push(strip_cr(cur@)));
                assert(done.push(strip_cr(cur@)) + lines_from(c@.skip(i + 1), Seq::empty())
                    =~= done + (seq![strip_cr(cur@)] + lines_from(c@.skip(i + 1), Seq::empty())));
                done = done.push(strip_cr(cur@));
            }
            cur = Vec::new();
            assert(cur@ =~= Seq::<char>::empty());
        } else {
            cur.push(ch);
        }
        i = i + 1;
    }
    assert(c@.skip(i as int) =~= Seq::<char>::empty());
    if cur.len() > 0 {
        let ghost before = out@;
        out.push(string_of(&cur));
        proof {
            assert(texts(out@) =~= texts(before).push(cur@));
            assert(done + seq![cur@] =~= done.push(cur@));
            done = done.push(cur@);
        }
    } else {
        assert(done + Seq::<Seq<char>>::empty() =~= done);
    }
    out
}

/// The message of a `ParseIntError` of the given kind.
pub fn int_error_text(k: IntErrorKind) -> (r: &'static str)
    ensures
        r@ == int_error_message(k),
{
    match k {
        IntErrorKind::Empty => "cannot parse integer from empty string",
        IntErrorKind::InvalidDigit => "invalid digit found in string",
        IntErrorKind::PosOverflow => "number too large to fit in target type",
    }
}

/// Whether the characters of `v` are those of `t`.
pub fn vec_eq_str(v: &Vec<char>, t: &str) -> (r: bool)
    ensures
        r == (v@ == t@),
{
    let tc = chars_of(t);
    if v.len() != tc.len() {
        return false;
    }
    let mut i: usize = 0;
    while i < v.len()
        invariant
            v.len() == tc.len(),
            tc@ == t@,
            i <= v.len(),
            forall|j: int| 0 <= j < i ==> v@[j] == tc@[j],
        decreases v.len() - i,
    {
        if v[i] != tc[i] {
            return false;
        }
        i = i + 1;
    }
    assert(v@ =~= tc@);
    true
}

/// The words of `s` (`str::split_whitespace`), each as its characters.
pub fn split_words(s: &str) -> (r: Vec<Vec<char>>)
    ensures
        r@.len() == words(s@).len(),
        forall|i: int| 0 <= i < r@.len() ==> #[trigger] r@[i]@ == words(s@)[i],
{
    let c = chars_of(s);
    let mut out: Vec<Vec<char>> = Vec::new();
    let mut cur: Vec<char> = Vec::new();
    let ghost mut done: Seq<Seq<char>> = Seq::empty();
    let mut i: usize = 0;
    assert(c@.skip(0) =~= c@);
    while i < c.len()
        invariant
            c@ == s@,
            i <= c@.len(),
            out@.len() == done.len(),
            forall|k: int| 0 <= k < out@.len() ==> #[trigger] out@[k]@ == done[k],
            done + words_from(c@.skip(i as int), cur@) == words(s@),
        decreases c.len() - i,
    {
        let ch = c[i];
        proof {
            assert(c@.skip(i as int).drop_first() =~= c@.skip(i + 1));
            assert(c@.skip(i as int)[0] == ch);
        }
        if char_is_ws(ch) {
            if cur.len() > 0 {
                proof {
                    assert(done.push(cur@) + words_from(c@.skip(i + 1), Seq::empty()) =~= done
                        + (seq![cur@] + words_from(c@.skip(i + 1), Seq::empty())));
                    done = done.push(cur@);
                }
                out.push(cur);
                cur = Vec::new();
            } else {
                proof {
                    assert(Seq::<Seq<char>>::empty() + words_from(c@.skip(i + 1), Seq::empty())
                        =~= words_from(c@.skip(i + 1), Seq::empty()));
                }
                assert(cur@ =~= Seq::<char>::empty());
            }
        } else {
            cur.push(ch);
        }
        i = i + 1;
    }
    proof {
        assert(c@.skip(i as int) =~= Seq::<char>::empty());
    }
    if cur.len() > 0 {
        proof {
            assert(done + seq![cur@] =~= done.push(cur@));
            done = done.push(cur@);
        }
        out.push(cur);
    } else {
        assert(done + Seq::<Seq<char>>::empty() =~= done);
    }
    assert(done == words(s@));
    out
}

proof fn lemma_exponent_at(s: Seq<char>, k: int)
    requires
        0 <= k <= s.len(),
        forall|i: int| 0 <= i < k ==> s[i] != 'e' && s[i] != 'E',
        k == s.len() || s[k] == 'e' || s[k] == 'E',
    ensures
        exponent_at(s) == k,
    decreases s.len(),
{
    if k > 0 {
        assert forall|i: int| 0 <= i < k - 1 implies s.drop_first()[i] != 'e' && s.drop_first()[i]
            != 'E' by {
            assert(s.drop_first()[i] == s[i + 1]);
        }
        if k < s.len() {
            assert(s.drop_first()[k - 1] == s[k]);
        }
        lemma_exponent_at(s.drop_first(), k - 1);
    }
}

proof fn lemma_dot_count_take(s: Seq<char>, k: int)
    requires
        0 <= k < s.len(),
    ensures
        dot_count(s.take(k + 1)) == dot_count(s.take(k)) + (if s[k] == '.' {
            1nat
        } else {
            0nat
        }),
    decreases k,
{
    if k > 0 {
        lemma_dot_count_take(s.drop_first(), k - 1);
        assert(s.take(k + 1).drop_first() =~= s.drop_first().take(k));
        assert(s.take(k).drop_first() =~= s.drop_first().take(k - 1));
        assert(s.drop_first()[k - 1] == s[k]);
        assert(s.take(k + 1)[0] == s[0]);
        assert(s.take(k)[0] == s[0]);
    } else {
        assert(s.take(1).drop_first() =~= Seq::<char>::empty());
        assert(s.take(1)[0] == s[0]);
        assert(dot_count(Seq::<char>::empty()) == 0);
        assert(s.take(0) =~= Seq::<char>::empty());
    }
}

/// Whether `v` spells `lit` (lower-case letters) in any case.
fn eq_ignore_case_lit(v: &Vec<char>, from: usize, lit: &str) -> (r: bool)
    requires
        from <= v.len(),
    ensures
        r == eq_ignore_ascii_case(v@.skip(from as int), lit@),
{
    let l = chars_of(lit);
    if v.len() - from != l.len() {
        return false;
    }
    let mut i: usize = 0;
    while i < l.len()
        invariant
            from <= v.len(),
            v.len() - from == l.len(),
            l@ == lit@,
            i <= l.len(),
            forall|j: int| 0 <= j < i ==> ascii_lower(v@.skip(from as int)[j]) == ascii_lower(l@[j]),
        decreases l.len() - i,
    {
        let a = v[from + i];
        let b = l[i];
        let la: u32 = if 'A' <= a && a <= 'Z' {
            (a as u32) + 32
        } else {
            a as u32
        };
        let lb: u32 = if 'A' <= b && b <= 'Z' {
            (b as u32) + 32
        } else {
            b as u32
        };
        assert(ascii_lower(a) as u32 == la);
        assert(ascii_lower(b) as u32 == lb);
        assert(v@.skip(from as int)[i as int] == a);
        if la != lb {
            return false;
        }
        i = i + 1;
    }
    true
}

/// The error message `str::parse` gives for a text that is not a
/// floating-point number, `None` for one that is.
#[verifier::rlimit(40)]
pub fn float_text_check(s: &str) -> (r: Option<String>)
    ensures
        match r {
            Some(m) => float_text_error(s@) == Some(m@),
            None => float_text_error(s@) is None,
        },
{
    let v = chars_of(s);
    let n = v.len();
    if n == 0 {
        return Some(String::from_str("cannot parse float from empty string"));
    }
    let start: usize = if v[0] == '+' || v[0] == '-' {
        1
    } else {
        0
    };
    let ghost b = if s@.len() > 0 && (s@[0] == '+' || s@[0] == '-') {
        s@.drop_first()
    } else {
        s@
    };
    assert(b =~= v@.skip(start as int));
    let special = eq_ignore_case_lit(&v, start, "inf") || eq_ignore_case_lit(&v, start, "infinity")
        || eq_ignore_case_lit(&v, start, "nan");
    if special {
        return None;
    }
    // the mantissa runs up to the first exponent mark
    let mut k: usize = start;
    let mut dots: usize = 0;
    let mut digits: bool = false;
    let mut ok: bool = true;
    while k < n && v[k] != 'e' && v[k] != 'E'
        invariant
            start <= k <= n == v.len(),
            b == v@.skip(start as int),
            forall|i: int| start <= i < k ==> v@[i] != 'e' && v@[i] != 'E',
            dots as nat == dot_count(b.take(k - start)),
            dots <= k,
            digits == exists|i: int| 0 <= i < k - start && is_digit(#[trigger] b[i]),
            ok == forall|i: int| 0 <= i < k - start ==> is_digit(#[trigger] b[i]) || b[i] == '.',
        decreases n - k,
    {
        let c = v[k];
        proof {
            assert(b[k - start] == c);
            lemma_dot_count_take(b, k - start);
            assert(b.take(k - start + 1) =~= b.take(k - start + 1));
        }
        if c == '.' {
            dots = dots + 1;
        }
        if '0' <= c && c <= '9' {
            digits = true;
        } else if c != '.' {
            ok = false;
        }
        k = k + 1;
        proof {
            if digits {
                if '0' <= c && c <= '9' {
                    assert(is_digit(b[k - 1 - start]));
                }
            }
            assert(ok == forall|i: int|
                0 <= i < k - start ==> is_digit(#[trigger] b[i]) || b[i] == '.') by {
                if !ok {
                    if !('0' <= c && c <= '9') && c != '.' {
                        assert(!(is_digit(b[k - 1 - start]) || b[k - 1 - start] == '.'));
                    }
                }
            }
            assert(digits == exists|i: int| 0 <= i < k - start && is_digit(#[trigger] b[i])) by {
                if digits && !('0' <= c && c <= '9') {
                }
            }
        }
    }
    proof {
        assert forall|i: int| 0 <= i < k - start implies b[i] != 'e' && b[i] != 'E' by {
            assert(b[i] == v@[start + i]);
        }
        if k < n {
            assert(b[k - start] == v@[k as int]);
        }
        lemma_exponent_at(b, k - start);
    }
    let ghost m = b.take(k - start);
    assert(forall|i: int| 0 <= i < m.len() ==> m[i] == b[i]);
    let mantissa_ok = ok && dots <= 1 && digits;
    proof {
        if mantissa_ok {
            assert(is_mantissa(m)) by {
                assert(forall|i: int| 0 <= i < m.len() ==> is_digit(#[trigger] m[i]) || m[i] == '.');
                let w = choose|i: int| 0 <= i < k - start && is_digit(#[trigger] b[i]);
                assert(is_digit(m[w]));
            }
        } else {
            if !ok {
                let w = choose|i: int| 0 <= i < k - start && !(is_digit(#[trigger] b[i]) || b[i] == '.');
                assert(!(is_digit(m[w]) || m[w] == '.'));
            }
            if !digits {
                assert forall|i: int| 0 <= i < m.len() implies !is_digit(#[trigger] m[i]) by {
                    assert(m[i] == b[i]);
                }
            }
            assert(!is_mantissa(m));
        }
    }
    if !mantissa_ok {
        return Some(String::from_str("invalid float literal"));
    }
    if k == n {
        return None;
    }
    // the exponent: the mark, an optional sign, then at least one digit
    let ghost e = b.skip(k - start);
    assert(e =~= v@.skip(k as int));
    let mut j: usize = k + 1;
    if j < n && (v[j] == '+' || v[j] == '-') {
        j = j + 1;
    }
    let ghost d = if e.len() > 1 && (e[1] == '+' || e[1] == '-') {
        e.skip(2)
    } else {
        e.skip(1)
    };
    assert(d =~= v@.skip(j as int));
    if j == n {
        return Some(String::from_str("invalid float literal"));
    }
    let mut t: usize = j;
    let mut good: bool = true;
    while t < n
        invariant
            j <= t <= n == v.len(),
            good == forall|i: int| j <= i < t ==> is_digit(#[trigger] v@[i]),
        decreases n - t,
    {
        if !('0' <= v[t] && v[t] <= '9') {
            good = false;
        }
        t = t + 1;
    }
    proof {
        if good {
            assert forall|i: int| 0 <= i < d.len() implies is_digit(d[i]) by {
                assert(d[i] == v@[j + i]);
            }
        } else {
            let w = choose|i: int| j <= i < n && !is_digit(#[trigger] v@[i]);
            assert(d[w - j] == v@[w]);
            assert(!all_digits(d));
        }
    }
    if !good {
        return Some(String::from_str("invalid float literal"));
    }
    None
}

/// A longer run of digits never has a smaller value than its prefix.
proof fn lemma_digits_value_monotone(b: Seq<char>, k: int)
    requires
        0 <= k <= b.len(),
        all_digits(b),
    ensures
        digits_value(b.take(k)) <= digits_value(b),
    decreases b.len() - k,
{
    if k < b.len() {
        lemma_digits_value_monotone(b, k + 1);
        assert(b.take(k + 1).drop_last() =~= b.take(k));
    } else {
        assert(b.take(k) =~= b);
    }
}


/// Texts in lexicographic order of their characters' code points, the
/// order in which `str` and `String` compare.
pub open spec fn text_lt(a: Seq<char>, b: Seq<char>) -> bool
    decreases a.len(),
{
    if a.len() == 0 {
        b.len() > 0
    } else if b.len() == 0 {
        false
    } else if a[0] != b[0] {
        (a[0] as u32) < (b[0] as u32)
    } else {
        text_lt(a.drop_first(), b.drop_first())
    }
}

proof fn lemma_text_lt_irreflexive(a: Seq<char>)
    ensures
        !text_lt(a, a),
    decreases a.len(),
{
    if a.len() > 0 {
        lemma_text_lt_irreflexive(a.drop_first());
    }
}

proof fn lemma_text_lt_asymmetric(a: Seq<char>, b: Seq<char>)
    ensures
        text_lt(a, b) ==> !text_lt(b, a),
    decreases a.len(),
{
    if a.len() > 0 && b.len() > 0 && a[0] == b[0] {
        lemma_text_lt_asymmetric(a.drop_first(), b.drop_first());
    }
}

proof fn lemma_text_lt_transitive(a: Seq<char>, b: Seq<char>, c: Seq<char>)
    requires
        text_lt(a, b),
        text_lt(b, c),
    ensures
        text_lt(a, c),
    decreases a.len(),
{
    if a.len() > 0 && b.len() > 0 && c.len() > 0 && a[0] == b[0] && b[0] == c[0] {
        lemma_text_lt_transitive(a.drop_first(), b.drop_first(), c.drop_first());
    }
}

proof fn lemma_text_lt_total(a: Seq<char>, b: Seq<char>)
    requires
        a != b,
    ensures
        text_lt(a, b) || text_lt(b, a),
    decreases a.len(),
{
    if a.len() == 0 && b.len() == 0 {
        assert(a =~= b);
    } else if a.len() > 0 && b.len() > 0 && a[0] != b[0] {
        vstd::utf8::char_u32_cast(a[0], a[0] as u32);
        vstd::utf8::char_u32_cast(b[0], b[0] as u32);
    } else if a.len() > 0 && b.len() > 0 && a[0] == b[0] {
        assert(a =~= seq![a[0]] + a.drop_first());
        assert(b =~= seq![b[0]] + b.drop_first());
        lemma_text_lt_total(a.drop_first(), b.drop_first());
    }
}

/// The order of texts is a strict total order.
pub proof fn lemma_text_lt_order(a: Seq<char>, b: Seq<char>, c: Seq<char>)
    ensures
        !text_lt(a, a),
        text_lt(a, b) ==> !text_lt(b, a),
        text_lt(a, b) && text_lt(b, c) ==> text_lt(a, c),
        a != b ==> text_lt(a, b) || text_lt(b, a),
{
    lemma_text_lt_irreflexive(a);
    lemma_text_lt_asymmetric(a, b);
    if text_lt(a, b) && text_lt(b, c) {
        lemma_text_lt_transitive(a, b, c);
    }
    if a != b {
        lemma_text_lt_total(a, b);
    }
}

/// Whether `a` comes before `b` in the order of texts.
pub fn text_less(a: &Vec<char>, b: &Vec<char>) -> (r: bool)
    ensures
        r == text_lt(a@, b@),
{
    let mut i: usize = 0;
    assert(a@.skip(0) =~= a@);
    assert(b@.skip(0) =~= b@);
    while i < a.len() && i < b.len() && a[i] == b[i]
        invariant
            i <= a@.len(),
            i <= b@.len(),
            text_lt(a@, b@) == text_lt(a@.skip(i as int), b@.skip(i as int)),
        decreases a@.len() - i,
    {
        assert(a@.skip(i as int).drop_first() =~= a@.skip(i + 1));
        assert(b@.skip(i as int).drop_first() =~= b@.skip(i + 1));
        i = i + 1;
    }
    if i == a.len() {
        i < b.len()
    } else if i == b.len() {
        false
    } else {
        let x = a[i];
        let y = b[i];
        assert(a@.skip(i as int)[0] == x && b@.skip(i as int)[0] == y);
        (x as u32) < (y as u32)
    }
}

} // verus!
