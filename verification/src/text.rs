//! Character-level text helpers shared by the rest of the library: trimming,
//! joining, decimal rendering and decimal parsing, stated over `Seq<char>`.
use vstd::prelude::*;

verus! {

// ---------------------------------------------------------------------------
// Whitespace and case, as std defines them
// ---------------------------------------------------------------------------

/// Whether `c` has the Unicode `White_Space` property, which is what
/// `char::is_whitespace` answers: the ASCII tab, line feed, vertical tab,
/// form feed, carriage return and space, and U+0085, U+00A0, U+1680,
/// U+2000 to U+200A, U+2028, U+2029, U+202F, U+205F and U+3000.
pub open spec fn spec_is_whitespace(c: char) -> bool {
    ||| c == ' '
    ||| ('\t' <= c && c <= '\r')
    ||| c == '\u{85}'
    ||| c == '\u{a0}'
    ||| c == '\u{1680}'
    ||| ('\u{2000}' <= c && c <= '\u{200a}')
    ||| c == '\u{2028}'
    ||| c == '\u{2029}'
    ||| c == '\u{202f}'
    ||| c == '\u{205f}'
    ||| c == '\u{3000}'
}

/// What `str::to_lowercase` returns for a string.
pub uninterp spec fn spec_to_lowercase(s: Seq<char>) -> Seq<char>;

/// What `char::is_alphanumeric` answers for a character (the Unicode
/// `Alphabetic` or `Numeric` properties).
pub uninterp spec fn spec_is_alphanumeric(c: char) -> bool;

/// Whether a character is whitespace (`char::is_whitespace`).
pub(crate) fn is_whitespace(c: char) -> (b: bool)
    ensures
        b == spec_is_whitespace(c),
{
    c == ' ' || ('\t' <= c && c <= '\r') || c == '\u{85}' || c == '\u{a0}' || c == '\u{1680}'
        || ('\u{2000}' <= c && c <= '\u{200a}') || c == '\u{2028}' || c == '\u{2029}'
        || c == '\u{202f}' || c == '\u{205f}' || c == '\u{3000}'
}

/// Whether `c` is an ASCII letter or an ASCII decimal digit.
pub open spec fn is_ascii_alphanumeric(c: char) -> bool {
    ('0' <= c && c <= '9') || ('a' <= c && c <= 'z') || ('A' <= c && c <= 'Z')
}

/// `char::is_alphanumeric`: the contract names its answer, and states what
/// the Unicode tables give for ASCII characters (`Alphabetic` holds of the
/// ASCII letters alone, `Numeric` of the ASCII digits alone); the tables
/// beyond ASCII are not restated.
#[verifier::external_body]
pub(crate) fn is_alphanumeric(c: char) -> (b: bool)
    ensures
        b == spec_is_alphanumeric(c),
        (c as u32) < 128 ==> (b <==> is_ascii_alphanumeric(c)),
{
    c.is_alphanumeric()
}

/// `str::to_lowercase`: the contract names its result; the Unicode case
/// mapping itself is not restated.
#[verifier::external_body]
pub(crate) fn to_lowercase(s: &str) -> (r: String)
    ensures
        r@ == spec_to_lowercase(s@),
{
    s.to_lowercase()
}

// ---------------------------------------------------------------------------
// Building strings
// ---------------------------------------------------------------------------

/// Appends one character to a `String` (`String::push`).
#[verifier::external_body]
pub(crate) fn push_char(s: &mut String, c: char)
    ensures
        final(s)@ == old(s)@.push(c),
{
    s.push(c);
}

/// Appends a string slice to a `String`.
pub(crate) fn push_str(s: &mut String, t: &str)
    ensures
        final(s)@ == old(s)@ + t@,
{
    s.append(t);
}

/// The characters of a string slice, in order.
pub fn str_chars(s: &str) -> (v: Vec<char>)
    ensures
        v@ == s@,
{
    let mut v: Vec<char> = Vec::new();
    for c in it: s.chars()
        invariant
            v@ == it.seq().take(it.index() as int),
    {
        v.push(c);
    }
    v
}

/// A `String` holding the characters `v[from..to]`.
pub fn string_from_range(v: &Vec<char>, from: usize, to: usize) -> (s: String)
    requires
        from <= to <= v@.len(),
    ensures
        s@ == v@.subrange(from as int, to as int),
{
    let mut s = String::new();
    let mut i = from;
    while i < to
        invariant
            from <= i <= to <= v@.len(),
            s@ == v@.subrange(from as int, i as int),
        decreases to - i,
    {
        push_char(&mut s, v[i]);
        i += 1;
    }
    s
}

/// A `String` holding exactly the characters of `v`.
pub fn string_from_chars(v: &Vec<char>) -> (s: String)
    ensures
        s@ == v@,
{
    let s = string_from_range(v, 0, v.len());
    assert(v@.subrange(0, v@.len() as int) =~= v@);
    s
}

/// A copy of a string slice as a `String`.
pub fn to_owned_string(t: &str) -> (s: String)
    ensures
        s@ == t@,
{
    let mut s = String::new();
    push_str(&mut s, t);
    assert(s@ =~= t@);
    s
}

/// A copy of a `String`.
pub fn copy_string(t: &String) -> (s: String)
    ensures
        s@ == t@,
{
    to_owned_string(t.as_str())
}

// ---------------------------------------------------------------------------
// Trimming
// ---------------------------------------------------------------------------

/// `s` with its leading whitespace removed (`str::trim_start`).
pub open spec fn trim_start_seq(s: Seq<char>) -> Seq<char>
    decreases s.len(),
{
    if s.len() > 0 && spec_is_whitespace(s[0]) {
        trim_start_seq(s.drop_first())
    } else {
        s
    }
}

/// `s` with its trailing whitespace removed (`str::trim_end`).
pub open spec fn trim_end_seq(s: Seq<char>) -> Seq<char>
    decreases s.len(),
{
    if s.len() > 0 && spec_is_whitespace(s.last()) {
        trim_end_seq(s.drop_last())
    } else {
        s
    }
}

/// `s` with leading and trailing whitespace removed (`str::trim`).
pub open spec fn trim_seq(s: Seq<char>) -> Seq<char> {
    trim_end_seq(trim_start_seq(s))
}

proof fn lemma_trim_start_skip(s: Seq<char>, i: int)
    requires
        0 <= i < s.len(),
        spec_is_whitespace(s[i]),
    ensures
        trim_start_seq(s.skip(i)) == trim_start_seq(s.skip(i + 1)),
{
    assert(s.skip(i).drop_first() =~= s.skip(i + 1));
}

proof fn lemma_trim_end_take(s: Seq<char>, j: int)
    requires
        0 < j <= s.len(),
        spec_is_whitespace(s[j - 1]),
    ensures
        trim_end_seq(s.take(j)) == trim_end_seq(s.take(j - 1)),
{
    assert(s.take(j).drop_last() =~= s.take(j - 1));
}

/// The bounds `(i, j)` of `trim_seq(v)` inside `v`.
pub fn trim_bounds(v: &Vec<char>) -> (r: (usize, usize))
    ensures
        r.0 <= r.1 <= v@.len(),
        v@.subrange(r.0 as int, r.1 as int) == trim_seq(v@),
{
    let mut i: usize = 0;
    assert(v@.skip(0) =~= v@);
    while i < v.len() && is_whitespace(v[i])
        invariant
            i <= v@.len(),
            trim_start_seq(v@) == trim_start_seq(v@.skip(i as int)),
        decreases v@.len() - i,
    {
        proof {
            lemma_trim_start_skip(v@, i as int);
        }
        i += 1;
    }
    let ghost t = v@.skip(i as int);
    assert(trim_start_seq(v@) == t);
    let mut j: usize = v.len();
    assert(t.take(t.len() as int) =~= t);
    while j > i && is_whitespace(v[j - 1])
        invariant
            i <= j <= v@.len(),
            t == v@.skip(i as int),
            trim_end_seq(t) == trim_end_seq(t.take(j - i)),
        decreases j,
    {
        proof {
            lemma_trim_end_take(t, (j - i) as int);
            assert(t[j - i - 1] == v@[j - 1]);
        }
        j -= 1;
    }
    assert(t.take(j - i) =~= v@.subrange(i as int, j as int));
    (i, j)
}

/// `str::trim`: the text without leading and trailing whitespace.
pub fn trim(s: &str) -> (r: String)
    ensures
        r@ == trim_seq(s@),
{
    let v = str_chars(s);
    let (i, j) = trim_bounds(&v);
    string_from_range(&v, i, j)
}

// ---------------------------------------------------------------------------
// Joining
// ---------------------------------------------------------------------------

/// The parts written one after another with `sep` between neighbours
/// (`[String]::join`).
pub open spec fn join_seq(parts: Seq<Seq<char>>, sep: Seq<char>) -> Seq<char>
    decreases parts.len(),
{
    if parts.len() == 0 {
        Seq::empty()
    } else if parts.len() == 1 {
        parts[0]
    } else {
        join_seq(parts.drop_last(), sep) + sep + parts.last()
    }
}

/// The views of a list of strings.
pub open spec fn views(v: Seq<String>) -> Seq<Seq<char>> {
    v.map_values(|s: String| s@)
}

/// `[String]::join`.
pub fn join(parts: &Vec<String>, sep: &str) -> (r: String)
    ensures
        r@ == join_seq(views(parts@), sep@),
{
    let mut r = String::new();
    let mut i: usize = 0;
    while i < parts.len()
        invariant
            i <= parts@.len(),
            r@ == join_seq(views(parts@).take(i as int), sep@),
        decreases parts@.len() - i,
    {
        let ghost before = views(parts@).take(i as int);
        if i > 0 {
            push_str(&mut r, sep);
        }
        push_str(&mut r, parts[i].as_str());
        proof {
            let after = views(parts@).take(i + 1);
            assert(after.drop_last() =~= before);
            assert(after.last() == parts@[i as int]@);
            if i == 0 {
                assert(r@ =~= after[0]);
            }
        }
        i += 1;
    }
    assert(views(parts@).take(parts@.len() as int) =~= views(parts@));
    r
}

// ---------------------------------------------------------------------------
// Decimal numbers
// ---------------------------------------------------------------------------

/// The ASCII digit for `d` in `0..10`.
pub open spec fn digit_char(d: int) -> char {
    (d + 48) as char
}

/// Whether `c` is an ASCII decimal digit.
pub open spec fn is_ascii_digit(c: char) -> bool {
    '0' <= c <= '9'
}

/// The value of an ASCII digit.
pub open spec fn digit_value(c: char) -> int {
    (c as int) - 48
}

/// The shortest decimal rendering of `n` (`Display` for unsigned integers).
pub open spec fn nat_decimal(n: nat) -> Seq<char>
    decreases n,
{
    if n < 10 {
        seq![digit_char(n as int)]
    } else {
        nat_decimal(n / 10).push(digit_char((n % 10) as int))
    }
}

/// The decimal rendering of `i` (`Display` for signed integers).
pub open spec fn int_decimal(i: int) -> Seq<char> {
    if i < 0 {
        seq!['-'] + nat_decimal((-i) as nat)
    } else {
        nat_decimal(i as nat)
    }
}

/// `n` in decimal, padded on the left with `'0'` to at least `width` digits
/// (`format!("{n:0width$}")` for unsigned `n`).
pub open spec fn padded_decimal(n: nat, width: nat) -> Seq<char> {
    let d = nat_decimal(n);
    if d.len() >= width {
        d
    } else {
        Seq::new((width - d.len()) as nat, |k: int| '0') + d
    }
}

proof fn lemma_nat_decimal_len(n: nat)
    ensures
        nat_decimal(n).len() >= 1,
        n < 10 ==> nat_decimal(n).len() == 1,
        10 <= n < 100 ==> nat_decimal(n).len() == 2,
        100 <= n < 1000 ==> nat_decimal(n).len() == 3,
        1000 <= n < 10000 ==> nat_decimal(n).len() == 4,
    decreases n,
{
    if n >= 10 {
        lemma_nat_decimal_len(n / 10);
    }
}

/// `n` rendered in decimal, appended to `s`.
pub fn push_decimal(s: &mut String, n: u64)
    ensures
        final(s)@ == old(s)@ + nat_decimal(n as nat),
    decreases n,
{
    if n >= 10 {
        push_decimal(s, n / 10);
    }
    let d = (n % 10) as u8;
    let c = (d + 48u8) as char;
    proof {
        assert(c == digit_char((n % 10) as int));
    }
    push_char(s, c);
    proof {
        if n < 10 {
            assert(nat_decimal(n as nat) =~= seq![digit_char(n as int)]);
        }
    }
}

/// `n` in decimal, zero padded to `width` digits, appended to `s`.
pub fn push_padded_decimal(s: &mut String, n: u64, width: u64)
    ensures
        final(s)@ == old(s)@ + padded_decimal(n as nat, width as nat),
{
    let ghost d = nat_decimal(n as nat);
    let mut len: u64 = 1;
    let mut m: u64 = n;
    proof {
        lemma_nat_decimal_len(n as nat);
    }
    // count the digits of n
    while m >= 10
        invariant
            1 <= len,
            m <= n,
            len <= n - m + 1,
            nat_decimal(m as nat).len() + len - 1 == d.len(),
        decreases m,
    {
        proof {
            lemma_nat_decimal_len((m / 10) as nat);
            assert(nat_decimal(m as nat) == nat_decimal((m / 10) as nat).push(
                digit_char((m % 10) as int),
            ));
        }
        m = m / 10;
        len += 1;
    }
    assert(d.len() == len);
    let ghost before = s@;
    let mut k: u64 = len;
    while k < width
        invariant
            len <= k,
            k <= width || k == len,
            s@ == before + Seq::new((k - len) as nat, |i: int| '0'),
        decreases width - k,
    {
        push_char(s, '0');
        proof {
            assert(Seq::new((k - len) as nat, |i: int| '0').push('0') =~= Seq::new(
                (k + 1 - len) as nat,
                |i: int| '0',
            ));
        }
        k += 1;
    }
    push_decimal(s, n);
    proof {
        if d.len() >= width {
            assert(k == len);
            assert(Seq::new(0nat, |i: int| '0') + d =~= d);
            assert(s@ =~= before + d);
        } else {
            assert(s@ =~= before + (Seq::new((width - d.len()) as nat, |i: int| '0') + d));
        }
    }
}

/// `i` rendered in decimal, appended to `s`.
pub fn push_signed_decimal(s: &mut String, i: i64)
    ensures
        final(s)@ == old(s)@ + int_decimal(i as int),
{
    if i < 0 {
        push_char(s, '-');
        let m: u64 = if i == i64::MIN {
            9223372036854775808u64
        } else {
            (-i) as u64
        };
        push_decimal(s, m);
        assert(final(s)@ =~= old(s)@ + (seq!['-'] + nat_decimal((-i) as nat))) by {
            assert(m == -i);
        }
    } else {
        push_decimal(s, i as u64);
    }
}

/// The value of a nonempty run of ASCII digits.
pub open spec fn digits_value(s: Seq<char>) -> int
    decreases s.len(),
{
    if s.len() == 0 {
        0
    } else {
        digits_value(s.drop_last()) * 10 + digit_value(s.last())
    }
}

/// Whether every character of `s` is an ASCII digit.
pub open spec fn all_ascii_digits(s: Seq<char>) -> bool {
    forall|k: int| 0 <= k < s.len() ==> is_ascii_digit(#[trigger] s[k])
}

/// What `str::parse` gives for an integer type with range `lo..=hi`: an
/// optional sign (`'-'` only where the type is signed, that is `lo < 0`)
/// followed by one or more ASCII digits whose value lies in the range.
pub open spec fn parse_int_seq(s: Seq<char>, lo: int, hi: int) -> Option<int> {
    let negative = s.len() > 0 && s[0] == '-' && lo < 0;
    let digits = if s.len() > 0 && (s[0] == '+' || negative) {
        s.drop_first()
    } else {
        s
    };
    if digits.len() == 0 || !all_ascii_digits(digits) {
        None
    } else {
        let v: int = if negative {
            -digits_value(digits)
        } else {
            digits_value(digits)
        };
        if lo <= v <= hi {
            Some(v)
        } else {
            None
        }
    }
}

proof fn lemma_digits_value_step(s: Seq<char>, i: int)
    requires
        0 <= i < s.len(),
    ensures
        digits_value(s.take(i + 1)) == digits_value(s.take(i)) * 10 + digit_value(s[i]),
{
    assert(s.take(i + 1).drop_last() =~= s.take(i));
}

/// Parses `s[from..]` as a run of ASCII digits whose value does not exceed
/// `bound`: `Some(value)` when it is such a nonempty run, else `None`.
fn parse_digits_bounded(v: &Vec<char>, from: usize, bound: u64) -> (r: Option<u64>)
    requires
        from <= v@.len(),
        bound <= 1_000_000_000_000,
    ensures
        ({
            let d = v@.skip(from as int);
            match r {
                Some(x) => d.len() > 0 && all_ascii_digits(d) && x == digits_value(d) && x
                    <= bound,
                None => d.len() == 0 || !all_ascii_digits(d) || digits_value(d) > bound,
            }
        }),
{
    let ghost d = v@.skip(from as int);
    if from == v.len() {
        return None;
    }
    let mut acc: u64 = 0;
    let mut i: usize = from;
    let mut too_big = false;
    assert(d.take(0) =~= Seq::<char>::empty());
    while i < v.len()
        invariant
            from <= i <= v@.len(),
            d == v@.skip(from as int),
            all_ascii_digits(d.take(i - from)),
            !too_big ==> acc == digits_value(d.take(i - from)) && acc <= bound,
            too_big ==> digits_value(d.take(i - from)) > bound,
            acc <= bound,
            bound <= 1_000_000_000_000,
        decreases v@.len() - i,
    {
        let c = v[i];
        if !('0' <= c && c <= '9') {
            assert(d[i - from] == c);
            assert(!all_ascii_digits(d));
            return None;
        }
        proof {
            lemma_digits_value_step(d, (i - from) as int);
            assert(d[i - from] == c);
            assert(all_ascii_digits(d.take(i - from + 1))) by {
                assert forall|k: int| 0 <= k < d.take(i - from + 1).len() implies is_ascii_digit(
                    #[trigger] d.take(i - from + 1)[k],
                ) by {
                    if k < i - from {
                        assert(d.take(i - from + 1)[k] == d.take(i - from)[k]);
                    }
                }
            }
        }
        let dv = (c as u32 - 48) as u64;
        assert(dv == digit_value(c));
        if !too_big {
            let next = acc * 10 + dv;
            if next > bound {
                too_big = true;
            } else {
                acc = next;
            }
        } else {
            proof {
                let prev = digits_value(d.take(i - from));
                assert(prev * 10 + digit_value(c) > bound) by (nonlinear_arith)
                    requires
                        prev > bound,
                        bound >= 0,
                        digit_value(c) >= 0,
                ;
            }
        }
        i += 1;
    }
    assert(d.take(d.len() as int) =~= d);
    if too_big {
        None
    } else {
        Some(acc)
    }
}

/// `str::parse::<i32>`.
pub fn parse_i32(s: &str) -> (r: Option<i32>)
    ensures
        r matches Some(x) ==> parse_int_seq(s@, i32::MIN as int, i32::MAX as int) == Some(
            x as int,
        ),
        r is None ==> parse_int_seq(s@, i32::MIN as int, i32::MAX as int) is None,
{
    let v = str_chars(s);
    if v.len() == 0 {
        return None;
    }
    let negative = v[0] == '-';
    let from: usize = if v[0] == '+' || negative {
        1
    } else {
        0
    };
    assert(from == 0 ==> v@.skip(0) =~= v@);
    assert(from == 1 ==> v@.skip(1) =~= v@.drop_first());
    let bound: u64 = if negative {
        2147483648
    } else {
        2147483647
    };
    match parse_digits_bounded(&v, from, bound) {
        Some(x) => {
            if negative {
                if x == 2147483648 {
                    Some(i32::MIN)
                } else {
                    Some(-(x as i32))
                }
            } else {
                Some(x as i32)
            }
        },
        None => None,
    }
}

/// `str::parse::<u32>`.
pub fn parse_u32(s: &str) -> (r: Option<u32>)
    ensures
        r matches Some(x) ==> parse_int_seq(s@, 0, u32::MAX as int) == Some(x as int),
        r is None ==> parse_int_seq(s@, 0, u32::MAX as int) is None,
{
    let v = str_chars(s);
    if v.len() == 0 {
        return None;
    }
    let from: usize = if v[0] == '+' {
        1
    } else {
        0
    };
    assert(from == 0 ==> v@.skip(0) =~= v@);
    assert(from == 1 ==> v@.skip(1) =~= v@.drop_first());
    match parse_digits_bounded(&v, from, 4294967295) {
        Some(x) => Some(x as u32),
        None => None,
    }
}


/// What is left after removing leading whitespace starts with something
/// else, if anything is left.
proof fn lemma_trim_start_shape(s: Seq<char>)
    ensures
        trim_start_seq(s).len() == 0 || !spec_is_whitespace(trim_start_seq(s)[0]),
    decreases s.len(),
{
    if s.len() > 0 && spec_is_whitespace(s[0]) {
        lemma_trim_start_shape(s.drop_first());
    }
}

/// Removing trailing whitespace leaves a prefix that ends in something
/// else, if anything is left.
proof fn lemma_trim_end_shape(s: Seq<char>)
    ensures
        trim_end_seq(s).len() <= s.len(),
        trim_end_seq(s) == s.take(trim_end_seq(s).len() as int),
        trim_end_seq(s).len() == 0 || !spec_is_whitespace(trim_end_seq(s).last()),
    decreases s.len(),
{
    if s.len() > 0 && spec_is_whitespace(s.last()) {
        lemma_trim_end_shape(s.drop_last());
        let n = trim_end_seq(s).len() as int;
        assert(s.drop_last().take(n) =~= s.take(n));
    } else {
        assert(s.take(s.len() as int) =~= s);
    }
}

/// Trimming is idempotent: a trimmed text has nothing left to trim.
pub proof fn law_trim_idempotent(s: Seq<char>)
    ensures
        trim_seq(trim_seq(s)) == trim_seq(s),
{
    let u = trim_start_seq(s);
    lemma_trim_start_shape(s);
    lemma_trim_end_shape(u);
    let t = trim_end_seq(u);
    if t.len() > 0 {
        assert(t[0] == u[0]);
        assert(trim_start_seq(t) == t);
        assert(trim_end_seq(t) == t);
    } else {
        assert(trim_start_seq(t) == t);
        assert(trim_end_seq(t) == t);
    }
}

/// Whether every character of `s` is whitespace.
pub open spec fn all_whitespace(s: Seq<char>) -> bool {
    forall|k: int| 0 <= k < s.len() ==> spec_is_whitespace(#[trigger] s[k])
}

proof fn lemma_trim_start_ws_prefix(a: Seq<char>, t: Seq<char>)
    requires
        all_whitespace(a),
    ensures
        trim_start_seq(a + t) == trim_start_seq(t),
    decreases a.len(),
{
    if a.len() > 0 {
        assert((a + t)[0] == a[0]);
        assert((a + t).drop_first() =~= a.drop_first() + t);
        lemma_trim_start_ws_prefix(a.drop_first(), t);
    } else {
        assert(a + t =~= t);
    }
}

proof fn lemma_trim_end_ws_suffix(t: Seq<char>, b: Seq<char>)
    requires
        all_whitespace(b),
    ensures
        trim_end_seq(t + b) == trim_end_seq(t),
    decreases b.len(),
{
    if b.len() > 0 {
        assert((t + b).last() == b.last());
        assert((t + b).drop_last() =~= t + b.drop_last());
        lemma_trim_end_ws_suffix(t, b.drop_last());
    } else {
        assert(t + b =~= t);
    }
}

/// Trimming removes exactly the whitespace around a text: whitespace `a`
/// before and `b` after a middle `m` that neither starts nor ends with
/// whitespace leave `m`, and a text of whitespace alone leaves nothing.
pub proof fn law_trim_strips_surrounding_whitespace(a: Seq<char>, m: Seq<char>, b: Seq<char>)
    requires
        all_whitespace(a),
        all_whitespace(b),
        m.len() == 0 || (!spec_is_whitespace(m[0]) && !spec_is_whitespace(m.last())),
    ensures
        trim_seq(a + m + b) == m,
{
    assert(a + m + b =~= a + (m + b));
    lemma_trim_start_ws_prefix(a, m + b);
    if m.len() > 0 {
        assert((m + b)[0] == m[0]);
        assert(trim_start_seq(m + b) == m + b);
        lemma_trim_end_ws_suffix(m, b);
        assert(trim_end_seq(m) == m);
    } else {
        assert(m + b =~= b);
        assert(b + Seq::<char>::empty() =~= b);
        lemma_trim_start_ws_prefix(b, Seq::<char>::empty());
        assert(trim_start_seq(Seq::<char>::empty()) == Seq::<char>::empty());
        assert(trim_end_seq(Seq::<char>::empty()) =~= m);
    }
}

/// Line endings, tabs and spaces are trimmed: a text between runs of
/// `' '`, `'\t'`, `'\n'` and `'\r'` (carriage returns of CRLF line endings
/// included) trims to itself.
pub proof fn law_trim_removes_line_endings(a: Seq<char>, m: Seq<char>, b: Seq<char>)
    requires
        forall|k: int| 0 <= k < a.len() ==> (#[trigger] a[k] == ' ' || a[k] == '\t' || a[k] == '\n' || a[k] == '\r'),
        forall|k: int| 0 <= k < b.len() ==> (#[trigger] b[k] == ' ' || b[k] == '\t' || b[k] == '\n' || b[k] == '\r'),
        m.len() == 0 || (!spec_is_whitespace(m[0]) && !spec_is_whitespace(m.last())),
    ensures
        trim_seq(a + m + b) == m,
{
    law_trim_strips_surrounding_whitespace(a, m, b);
}


/// A decimal rendering is a run of digits worth the number rendered.
proof fn lemma_nat_decimal_digits(n: nat)
    ensures
        nat_decimal(n).len() >= 1,
        all_ascii_digits(nat_decimal(n)),
        digits_value(nat_decimal(n)) == n,
    decreases n,
{
    lemma_nat_decimal_len(n);
    let d = n % 10;
    assert((d + 48) as char as int == d + 48);
    assert(digit_value(digit_char(d as int)) == d);
    if n >= 10 {
        lemma_nat_decimal_digits(n / 10);
        let s = nat_decimal(n);
        let t = nat_decimal(n / 10);
        assert(s.drop_last() =~= t);
        assert(s.last() == digit_char(d as int));
        assert(digits_value(s) == digits_value(t) * 10 + digit_value(s.last()));
        assert(n == (n / 10) * 10 + d) by (nonlinear_arith)
            requires
                d == n % 10,
        ;
        assert forall|k: int| 0 <= k < s.len() implies is_ascii_digit(#[trigger] s[k]) by {
            if k < s.len() - 1 {
                assert(s[k] == t[k]);
            }
        }
    } else {
        let s = nat_decimal(n);
        assert(s =~= seq![digit_char(n as int)]);
        assert(s.drop_last() =~= Seq::<char>::empty());
        assert(digits_value(s.drop_last()) == 0);
        assert(d == n);
    }
}

/// What is written in decimal reads back: `str::parse` of the rendering of a
/// number in the range of the integer type gives the number.
pub proof fn law_decimal_reads_back(i: int, lo: int, hi: int)
    requires
        lo <= 0,
        lo <= i <= hi,
    ensures
        parse_int_seq(int_decimal(i), lo, hi) == Some(i),
{
    if i < 0 {
        let n = (-i) as nat;
        lemma_nat_decimal_digits(n);
        let s = int_decimal(i);
        assert(s.drop_first() =~= nat_decimal(n));
    } else {
        let n = i as nat;
        lemma_nat_decimal_digits(n);
        let s = nat_decimal(n);
        assert(is_ascii_digit(s[0]));
    }
}

} // verus!
