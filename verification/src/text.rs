//! Text helpers: decimal numbers, ASCII case folding, trimming and ordering.
use vstd::prelude::*;

verus! {

/// The decimal digit of a number below ten.
pub open spec fn digit(d: nat) -> char {
    if d == 0 {
        '0'
    } else if d == 1 {
        '1'
    } else if d == 2 {
        '2'
    } else if d == 3 {
        '3'
    } else if d == 4 {
        '4'
    } else if d == 5 {
        '5'
    } else if d == 6 {
        '6'
    } else if d == 7 {
        '7'
    } else if d == 8 {
        '8'
    } else {
        '9'
    }
}

/// A number in decimal notation, without leading zeros.
pub open spec fn decimal(n: nat) -> Seq<char>
    decreases n,
{
    if n < 10 {
        seq![digit(n)]
    } else {
        decimal(n / 10).push(digit(n % 10))
    }
}

fn digit_text(d: u64) -> (r: &'static str)
    requires
        d < 10,
    ensures
        r@ == seq![digit(d as nat)],
{
    proof {
        reveal_strlit("0");
        reveal_strlit("1");
        reveal_strlit("2");
        reveal_strlit("3");
        reveal_strlit("4");
        reveal_strlit("5");
        reveal_strlit("6");
        reveal_strlit("7");
        reveal_strlit("8");
        reveal_strlit("9");
    }
    if d == 0 {
        "0"
    } else if d == 1 {
        "1"
    } else if d == 2 {
        "2"
    } else if d == 3 {
        "3"
    } else if d == 4 {
        "4"
    } else if d == 5 {
        "5"
    } else if d == 6 {
        "6"
    } else if d == 7 {
        "7"
    } else if d == 8 {
        "8"
    } else {
        "9"
    }
}

/// Writes a number in decimal.
pub fn decimal_text(n: u64) -> (r: String)
    ensures
        r@ == decimal(n as nat),
    decreases n,
{
    if n < 10 {
        digit_text(n).to_owned()
    } else {
        let mut s = decimal_text(n / 10);
        s.append(digit_text(n % 10));
        assert(s@ =~= decimal(n as nat));
        s
    }
}

/// The value of a decimal digit.
pub open spec fn digit_value(c: char) -> int {
    c as u32 - 48
}

/// The value of the first `n` characters as decimal digits, unless one of them
/// is no digit.
pub open spec fn digits_value(s: Seq<char>, n: nat) -> Option<int>
    decreases n,
{
    if n == 0 {
        Some(0)
    } else {
        match digits_value(s, (n - 1) as nat) {
            Some(v) => if '0' <= s[n - 1] <= '9' {
                Some(10 * v + digit_value(s[n - 1]))
            } else {
                None
            },
            None => None,
        }
    }
}

/// The number up to `max` that a text writes in decimal digits, with a plus
/// sign in front or without.
pub open spec fn number_in(s: Seq<char>, max: int) -> Option<int> {
    let digits = if s.len() > 0 && s[0] == '+' {
        s.drop_first()
    } else {
        s
    };
    match digits_value(digits, digits.len()) {
        Some(v) => if digits.len() > 0 && v <= max {
            Some(v)
        } else {
            None
        },
        None => None,
    }
}

proof fn digits_keep_up(s: Seq<char>, n: nat, m: nat)
    requires
        n <= m,
    ensures
        digits_value(s, n) is None ==> digits_value(s, m) is None,
        digits_value(s, n) matches Some(v) ==> 0 <= v && (digits_value(s, m) matches Some(w)
            ==> v <= w),
    decreases m,
{
    if m > 0 {
        digits_keep_up(s, if n < m {
            n
        } else {
            (m - 1) as nat
        }, (m - 1) as nat);
    }
}

/// Reads a decimal number up to `max`.
pub fn parse_number(s: &str, max: u64) -> (r: Option<u64>)
    ensures
        match r {
            Some(v) => number_in(s@, max as int) == Some(v as int),
            None => number_in(s@, max as int) is None,
        },
{
    let cs = chars_of(s);
    let start: usize = if cs.len() > 0 && cs[0] == '+' {
        1
    } else {
        0
    };
    let ghost digits = s@.skip(start as int);
    proof {
        if start == 1 {
            assert(digits =~= s@.drop_first());
        } else {
            assert(digits =~= s@);
        }
    }
    if cs.len() == start {
        return None;
    }
    let mut v: u64 = 0;
    let mut i: usize = start;
    while i < cs.len()
        invariant
            start <= i <= cs@.len(),
            cs@ == s@,
            digits == s@.skip(start as int),
            v <= max,
            digits_value(digits, (i - start) as nat) == Some(v as int),
            number_in(s@, max as int) == (match digits_value(digits, digits.len()) {
                Some(v) => if digits.len() > 0 && v <= max {
                    Some(v)
                } else {
                    None
                },
                None => None,
            }),
        decreases cs@.len() - i,
    {
        let c = cs[i];
        assert(digits[i - start] == c);
        proof {
            digits_keep_up(digits, (i - start + 1) as nat, digits.len());
        }
        if c < '0' || c > '9' {
            return None;
        }
        let d: u64 = (c as u32 - 48) as u64;
        if v > max / 10 || d > max - 10 * v {
            return None;
        }
        v = 10 * v + d;
        i += 1;
    }
    Some(v)
}

/// The characters of a string, in order.
pub fn chars_of(s: &str) -> (r: Vec<char>)
    ensures
        r@ == s@,
{
    let mut out: Vec<char> = Vec::new();
    for c in it: s.chars()
        invariant
            out@ == it.seq().take(it.index() as int),
            it.seq() == s@,
    {
        out.push(c);
    }
    out
}

/// The texts of some strings.
pub open spec fn texts(s: Seq<String>) -> Seq<Seq<char>> {
    Seq::new(s.len(), |i: int| s[i]@)
}

/// ASCII lower case of a character; other characters stay.
pub open spec fn ascii_lower(c: char) -> char {
    if 'A' <= c <= 'Z' {
        ((c as u8) + 32) as char
    } else {
        c
    }
}

/// Two texts that differ at most in the case of ASCII letters.
pub open spec fn same_ignoring_case(a: Seq<char>, b: Seq<char>) -> bool {
    &&& a.len() == b.len()
    &&& forall|i: int| 0 <= i < a.len() ==> ascii_lower(#[trigger] a[i]) == ascii_lower(b[i])
}

fn lower_ascii(c: char) -> (r: char)
    ensures
        r == ascii_lower(c),
{
    if 'A' <= c && c <= 'Z' {
        (c as u8 + 32) as char
    } else {
        c
    }
}

/// Compares two texts, ignoring the case of ASCII letters.
pub fn eq_ignore_ascii_case(a: &str, b: &str) -> (r: bool)
    ensures
        r == same_ignoring_case(a@, b@),
{
    let x = chars_of(a);
    let y = chars_of(b);
    if x.len() != y.len() {
        return false;
    }
    let mut i: usize = 0;
    while i < x.len()
        invariant
            i <= x@.len(),
            x@ == a@,
            y@ == b@,
            x@.len() == y@.len(),
            forall|k: int| 0 <= k < i ==> ascii_lower(#[trigger] a@[k]) == ascii_lower(b@[k]),
        decreases x@.len() - i,
    {
        if lower_ascii(x[i]) != lower_ascii(y[i]) {
            assert(ascii_lower(a@[i as int]) != ascii_lower(b@[i as int]));
            return false;
        }
        i += 1;
    }
    true
}

/// Compares two texts character by character.
pub fn same_text(a: &str, b: &str) -> (r: bool)
    ensures
        r == (a@ == b@),
{
    a.to_owned() == b.to_owned()
}

/// Unicode white space.
pub open spec fn is_white(c: char) -> bool {
    ||| '\u{9}' <= c <= '\u{d}'
    ||| c == ' '
    ||| c == '\u{85}'
    ||| c == '\u{a0}'
    ||| c == '\u{1680}'
    ||| '\u{2000}' <= c <= '\u{200a}'
    ||| c == '\u{2028}'
    ||| c == '\u{2029}'
    ||| c == '\u{202f}'
    ||| c == '\u{205f}'
    ||| c == '\u{3000}'
}

fn white(c: char) -> (r: bool)
    ensures
        r == is_white(c),
{
    ('\u{9}' <= c && c <= '\u{d}') || c == ' ' || c == '\u{85}' || c == '\u{a0}' || c == '\u{1680}' || (
    '\u{2000}' <= c && c <= '\u{200a}') || c == '\u{2028}' || c == '\u{2029}' || c == '\u{202f}' || c
        == '\u{205f}' || c == '\u{3000}'
}

/// A text without the white space at its two ends.
pub open spec fn trimmed(s: Seq<char>) -> Seq<char>
    decreases s.len(),
{
    if s.len() == 0 {
        s
    } else if is_white(s.first()) {
        trimmed(s.drop_first())
    } else if is_white(s.last()) {
        trimmed(s.drop_last())
    } else {
        s
    }
}

/// Trimming removes a prefix and a suffix of white space and nothing else, and
/// what is left neither starts nor ends with white space.
pub proof fn trimmed_keeps_the_middle(s: Seq<char>) -> (cut: (int, int))
    ensures
        0 <= cut.0 <= cut.1 <= s.len(),
        trimmed(s) == s.subrange(cut.0, cut.1),
        forall|i: int| 0 <= i < cut.0 ==> is_white(#[trigger] s[i]),
        forall|i: int| cut.1 <= i < s.len() ==> is_white(#[trigger] s[i]),
        trimmed(s).len() > 0 ==> !is_white(trimmed(s).first()) && !is_white(trimmed(s).last()),
    decreases s.len(),
{
    if s.len() == 0 {
        assert(s =~= s.subrange(0, 0));
        (0, 0)
    } else if is_white(s.first()) {
        let d = s.drop_first();
        let c = trimmed_keeps_the_middle(d);
        assert(d.subrange(c.0, c.1) =~= s.subrange(c.0 + 1, c.1 + 1));
        assert forall|i: int| 0 <= i < c.0 + 1 implies is_white(#[trigger] s[i]) by {
            if i > 0 {
                assert(d[i - 1] == s[i]);
            }
        }
        assert forall|i: int| c.1 + 1 <= i < s.len() implies is_white(#[trigger] s[i]) by {
            assert(d[i - 1] == s[i]);
        }
        (c.0 + 1, c.1 + 1)
    } else if is_white(s.last()) {
        let d = s.drop_last();
        let c = trimmed_keeps_the_middle(d);
        assert(d.subrange(c.0, c.1) =~= s.subrange(c.0, c.1));
        assert forall|i: int| 0 <= i < c.0 implies is_white(#[trigger] s[i]) by {
            assert(d[i] == s[i]);
        }
        assert forall|i: int| c.1 <= i < s.len() implies is_white(#[trigger] s[i]) by {
            if i < d.len() {
                assert(d[i] == s[i]);
            }
        }
        (c.0, c.1)
    } else {
        assert(s =~= s.subrange(0, s.len() as int));
        (0, s.len() as int)
    }
}

/// Drops the white space at both ends of a text.
pub fn trim(s: &str) -> (r: &str)
    ensures
        r@ == trimmed(s@),
{
    let cs = chars_of(s);
    let mut from: usize = 0;
    let mut to: usize = cs.len();
    assert(s@.subrange(0, s@.len() as int) =~= s@);
    while from < to && white(cs[from])
        invariant
            cs@ == s@,
            from <= to == cs@.len(),
            trimmed(s@) == trimmed(s@.subrange(from as int, to as int)),
        decreases to - from,
    {
        assert(s@.subrange(from as int, to as int).drop_first() =~= s@.subrange(
            from + 1,
            to as int,
        ));
        from += 1;
    }
    while from < to && white(cs[to - 1])
        invariant
            cs@ == s@,
            from <= to <= cs@.len(),
            from < to ==> !is_white(s@[from as int]),
            trimmed(s@) == trimmed(s@.subrange(from as int, to as int)),
        decreases to - from,
    {
        assert(s@.subrange(from as int, to as int).drop_last() =~= s@.subrange(
            from as int,
            to - 1,
        ));
        to -= 1;
    }
    s.substring_char(from, to)
}

/// Code-point order of texts: the first difference decides, and a proper
/// prefix comes first.
pub open spec fn ordered(a: Seq<char>, b: Seq<char>) -> bool
    decreases a.len(),
{
    if a.len() == 0 {
        true
    } else if b.len() == 0 {
        false
    } else if a[0] != b[0] {
        a[0] < b[0]
    } else {
        ordered(a.drop_first(), b.drop_first())
    }
}

/// Code-point order is an order: it compares any two texts, it carries over a
/// text in between, and only equal texts come no later than each other.
pub proof fn code_point_order(a: Seq<char>, b: Seq<char>, c: Seq<char>)
    ensures
        ordered(a, b) || ordered(b, a),
        ordered(a, b) && ordered(b, c) ==> ordered(a, c),
        ordered(a, b) && ordered(b, a) ==> a == b,
    decreases a.len(),
{
    if a.len() > 0 {
        if b.len() > 0 && a[0] == b[0] {
            code_point_order(a.drop_first(), b.drop_first(), c.drop_first());
            if a.drop_first() == b.drop_first() {
                assert(a =~= seq![a[0]] + a.drop_first());
                assert(b =~= seq![b[0]] + b.drop_first());
            }
        }
    } else if b.len() == 0 {
        assert(a =~= b);
    }
}

/// Whether `a` comes no later than `b` in code-point order.
pub fn text_ordered(a: &str, b: &str) -> (r: bool)
    ensures
        r == ordered(a@, b@),
{
    let x = chars_of(a);
    let y = chars_of(b);
    let mut i: usize = 0;
    assert(a@.skip(0) =~= a@);
    assert(b@.skip(0) =~= b@);
    while i < x.len() && i < y.len() && x[i] == y[i]
        invariant
            x@ == a@,
            y@ == b@,
            i <= x@.len(),
            i <= y@.len(),
            ordered(a@, b@) == ordered(a@.skip(i as int), b@.skip(i as int)),
        decreases x@.len() - i,
    {
        assert(a@.skip(i as int).drop_first() =~= a@.skip(i + 1));
        assert(b@.skip(i as int).drop_first() =~= b@.skip(i + 1));
        i += 1;
    }
    if i >= x.len() {
        true
    } else if i >= y.len() {
        false
    } else {
        x[i] < y[i]
    }
}

/// Whether `needle` occurs in `hay`.
pub open spec fn occurs_in(needle: Seq<char>, hay: Seq<char>) -> bool {
    exists|at: int|
        0 <= at && at + needle.len() <= hay.len() && #[trigger] hay.subrange(
            at,
            at + needle.len(),
        ) == needle
}

/// Searches for a text inside another.
pub fn contains(hay: &str, needle: &str) -> (r: bool)
    ensures
        r == occurs_in(needle@, hay@),
{
    let h = chars_of(hay);
    let n = chars_of(needle);
    if n.len() > h.len() {
        return false;
    }
    let last: usize = h.len() - n.len();
    let mut at: usize = 0;
    loop
        invariant
            h@ == hay@,
            n@ == needle@,
            last == h@.len() - n@.len(),
            at <= last,
            forall|k: int|
                0 <= k < at ==> #[trigger] hay@.subrange(k, k + needle@.len()) != needle@,
        decreases last - at,
    {
        let mut i: usize = 0;
        while i < n.len() && h[at + i] == n[i]
            invariant
                h@ == hay@,
                n@ == needle@,
                at + n.len() <= h.len(),
                i <= n@.len(),
                forall|k: int| 0 <= k < i ==> hay@[at + k] == #[trigger] needle@[k],
            decreases n@.len() - i,
        {
            i += 1;
        }
        if i == n.len() {
            assert(hay@.subrange(at as int, at + needle@.len()) =~= needle@);
            return true;
        }
        assert(hay@.subrange(at as int, at + needle@.len())[i as int] != needle@[i as int]);
        if at == last {
            return false;
        }
        at += 1;
    }
}

/// What the standard library's Unicode lower-casing makes of a text.
pub uninterp spec fn lowercase(s: Seq<char>) -> Seq<char>;

/// Calls `str::to_lowercase`. The Unicode case tables are not restated: the
/// result is named, as a function of the text alone.
#[verifier::external_body]
pub(crate) fn to_lowercase(s: &str) -> (r: String)
    ensures
        r@ == lowercase(s@),
{
    s.to_lowercase()
}

/// What the standard library's lossy UTF-8 decoding makes of some bytes.
pub uninterp spec fn lossy_utf8(bytes: Seq<u8>) -> Seq<char>;

/// Calls `String::from_utf8_lossy`. The result is named as a function of the
/// bytes; of valid UTF-8 it is the text that those bytes encode.
#[verifier::external_body]
pub(crate) fn from_utf8_lossy(bytes: &[u8]) -> (r: String)
    ensures
        r@ == lossy_utf8(bytes@),
        vstd::utf8::valid_utf8(bytes@) ==> vstd::utf8::encode_utf8(r@) == bytes@,
{
    String::from_utf8_lossy(bytes).into_owned()
}

/// A number written in decimal reads back, where it is not too large, with a plus
/// sign in front or without; it is written in digits alone, and without leading
/// zeros.
pub proof fn numbers_read_back(n: nat, max: int)
    ensures
        number_in(decimal(n), max) == (if n <= max {
            Some(n as int)
        } else {
            None
        }),
        number_in(seq!['+'] + decimal(n), max) == number_in(decimal(n), max),
        decimal(n).len() >= 1,
        decimal(n)[0] == '0' ==> n == 0 && decimal(n).len() == 1,
        forall|i: int| 0 <= i < decimal(n).len() ==> '0' <= #[trigger] decimal(n)[i] <= '9',
{
    decimal_digits(n);
    assert((seq!['+'] + decimal(n)).drop_first() =~= decimal(n));
    assert('0' <= decimal(n)[0]);
}

proof fn decimal_digits(n: nat)
    ensures
        digits_value(decimal(n), decimal(n).len()) == Some(n as int),
        decimal(n).len() >= 1,
        decimal(n)[0] == '0' ==> n == 0 && decimal(n).len() == 1,
        forall|i: int| 0 <= i < decimal(n).len() ==> '0' <= #[trigger] decimal(n)[i] <= '9',
    decreases n,
{
    if n >= 10 {
        let head = decimal(n / 10);
        decimal_digits(n / 10);
        let all = head.push(digit(n % 10));
        digits_prefix(head, all, head.len());
        assert(all.drop_last() =~= head);
        assert(all[0] == head[0]);
        assert forall|i: int| 0 <= i < all.len() implies '0' <= #[trigger] all[i] <= '9' by {
            if i < head.len() {
                assert(all[i] == head[i]);
            }
        }
    } else {
        let one = decimal(n);
        assert(digits_value(one, 0) == Some(0int));
        assert(digits_value(one, 1) == Some(10 * 0 + digit_value(one[0])));
    }
}

proof fn digits_prefix(a: Seq<char>, b: Seq<char>, n: nat)
    requires
        n <= a.len(),
        n <= b.len(),
        forall|i: int| 0 <= i < n ==> a[i] == b[i],
    ensures
        digits_value(a, n) == digits_value(b, n),
    decreases n,
{
    if n > 0 {
        digits_prefix(a, b, (n - 1) as nat);
    }
}

/// A text with anything but digits in it, apart from a leading plus sign, is no
/// number, and neither is one without digits.
pub proof fn other_texts_are_no_numbers(s: Seq<char>, at: int, max: int)
    requires
        s.len() == 0 || (s.len() == 1 && s[0] == '+') || (0 <= at < s.len() && !('0' <= s[at]
            <= '9') && (at > 0 || s[0] != '+')),
    ensures
        number_in(s, max) is None,
{
    let digits = if s.len() > 0 && s[0] == '+' {
        s.drop_first()
    } else {
        s
    };
    if digits.len() > 0 {
        let k = if s[0] == '+' {
            at - 1
        } else {
            at
        };
        assert(digits[k] == s[at]);
        digits_keep_up(digits, (k + 1) as nat, digits.len());
    }
}

/// Texts are the same, ignoring case, exactly if they have equal characters
/// everywhere but for ASCII letters, which may differ in case.
pub proof fn case_is_ignored(a: Seq<char>, b: Seq<char>)
    ensures
        same_ignoring_case(a, b) == (a.len() == b.len() && forall|i: int|
            0 <= i < a.len() ==> #[trigger] a[i] == b[i] || ('A' <= a[i] <= 'Z' && b[i] as u32
                == a[i] as u32 + 32) || ('A' <= b[i] <= 'Z' && a[i] as u32 == b[i] as u32 + 32)),
        same_ignoring_case(a, a),
        same_ignoring_case(a, b) == same_ignoring_case(b, a),
{
    assert forall|x: char, y: char| (#[trigger] ascii_lower(x) == #[trigger] ascii_lower(y)) == (x
        == y || ('A' <= x <= 'Z' && y as u32 == x as u32 + 32) || ('A' <= y <= 'Z' && x as u32
        == y as u32 + 32)) by {
        letters_lower(x);
        letters_lower(y);
    }
    if a.len() == b.len() {
        assert forall|i: int| 0 <= i < a.len() implies (ascii_lower(#[trigger] a[i])
            == ascii_lower(b[i])) == (a[i] == b[i] || ('A' <= a[i] <= 'Z' && b[i] as u32
            == a[i] as u32 + 32) || ('A' <= b[i] <= 'Z' && a[i] as u32 == b[i] as u32 + 32)) by {}
    }
}

proof fn letters_lower(x: char)
    ensures
        'A' <= x <= 'Z' ==> ascii_lower(x) as u32 == x as u32 + 32,
        !('A' <= x <= 'Z') ==> ascii_lower(x) == x,
{
}

/// White space is these twenty-five code points and no others.
pub proof fn white_space_by_code_point(c: char)
    ensures
        is_white(c) <==> {
            let n = c as u32;
            ||| 9 <= n <= 13
            ||| n == 32
            ||| n == 133
            ||| n == 160
            ||| n == 5760
            ||| 8192 <= n <= 8202
            ||| n == 8232 || n == 8233
            ||| n == 8239
            ||| n == 8287
            ||| n == 12288
        },
{
}

/// White space round a text goes, and all that is left stays: a text that neither
/// starts nor ends with white space comes out of any white space round it.
pub proof fn texts_come_out_of_white_space(before: Seq<char>, s: Seq<char>, after: Seq<char>)
    requires
        forall|i: int| 0 <= i < before.len() ==> is_white(#[trigger] before[i]),
        forall|i: int| 0 <= i < after.len() ==> is_white(#[trigger] after[i]),
        s.len() > 0 ==> !is_white(s.first()) && !is_white(s.last()),
    ensures
        trimmed(before + s + after) == s,
    decreases before.len() + after.len(),
{
    let all = before + s + after;
    if before.len() > 0 {
        assert(is_white(before[0]) && all.first() == before[0]);
        assert(all.drop_first() =~= before.drop_first() + s + after);
        assert forall|i: int| 0 <= i < before.drop_first().len() implies is_white(
            #[trigger] before.drop_first()[i],
        ) by {
            assert(before.drop_first()[i] == before[i + 1]);
        }
        texts_come_out_of_white_space(before.drop_first(), s, after);
    } else if after.len() > 0 {
        if s.len() == 0 {
            assert(is_white(after[0]) && all.first() == after[0]);
            assert(all.drop_first() =~= before + s + after.drop_first());
            assert forall|i: int| 0 <= i < after.drop_first().len() implies is_white(
                #[trigger] after.drop_first()[i],
            ) by {
                assert(after.drop_first()[i] == after[i + 1]);
            }
            texts_come_out_of_white_space(before, s, after.drop_first());
        } else {
            assert(all.first() == s.first());
            assert(is_white(after[after.len() - 1]) && all.last() == after[after.len() - 1]);
            assert(all.drop_last() =~= before + s + after.drop_last());
            texts_come_out_of_white_space(before, s, after.drop_last());
        }
    } else {
        assert(all =~= s);
    }
}

/// A text is found exactly where another is it with something in front and
/// something behind.
pub proof fn texts_are_found_in_others(front: Seq<char>, needle: Seq<char>, back: Seq<char>)
    ensures
        occurs_in(needle, front + needle + back),
        forall|hay: Seq<char>| #[trigger] occurs_in(needle, hay) ==> exists|a: int|
            0 <= a && a + needle.len() <= hay.len() && #[trigger] hay.subrange(
                a,
                a + needle.len(),
            ) == needle,
{
    let hay = front + needle + back;
    assert(hay.subrange(front.len() as int, front.len() + needle.len() as int) =~= needle);
}

} // verus!
