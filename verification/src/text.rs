//! Character-level text helpers with exact specifications: substring search,
//! replacement, XML escaping, decimal numbers and number trimming.

use vstd::prelude::*;
use vstd::std_specs::iter::IteratorSpec;

verus! {

// ---------------------------------------------------------------------------
// Trusted std helpers
// ---------------------------------------------------------------------------

/// `String::push`: appends one character.
#[verifier::external_body]
pub(crate) fn push_char(s: &mut String, c: char)
    ensures
        final(s)@ == old(s)@.push(c),
{
    s.push(c);
}

/// Appends a string slice.
pub(crate) fn push_str(s: &mut String, t: &str)
    ensures
        final(s)@ == old(s)@ + t@,
{
    s.append(t);
}

/// What `str::to_uppercase` returns: the Unicode upper-case mapping of each
/// character, which depends on the characters alone.
pub uninterp spec fn unicode_uppercase(s: Seq<char>) -> Seq<char>;

/// `str::to_uppercase`.
#[verifier::external_body]
pub(crate) fn to_uppercase(s: &str) -> (r: String)
    ensures
        r@ == unicode_uppercase(s@),
{
    s.to_uppercase()
}

// ---------------------------------------------------------------------------
// Conversions between strings and character vectors
// ---------------------------------------------------------------------------

/// The characters of `s`, in order.
pub fn chars_of(s: &str) -> (out: Vec<char>)
    ensures
        out@ == s@,
{
    let mut out: Vec<char> = Vec::new();
    let mut it = s.chars();
    loop
        invariant
            it.obeys_prophetic_iter_laws(),
            it.decrease() is Some,
            out@ + it.remaining() == s@,
        ensures
            out@ == s@,
        decreases it.decrease()->0,
    {
        match it.next() {
            Some(c) => {
                out.push(c);
            },
            None => {
                assert(out@ + it.remaining() =~= out@);
                break;
            },
        }
    }
    out
}

/// Appends every character of `cs` to `out`.
pub(crate) fn push_chars(out: &mut String, cs: &Vec<char>)
    ensures
        final(out)@ == old(out)@ + cs@,
{
    let ghost start = out@;
    let mut i: usize = 0;
    while i < cs.len()
        invariant
            i <= cs.len(),
            out@ == start + cs@.take(i as int),
        decreases cs.len() - i,
    {
        push_char(out, cs[i]);
        assert(cs@.take(i + 1) =~= cs@.take(i as int).push(cs@[i as int]));
        i = i + 1;
    }
    assert(cs@.take(cs.len() as int) =~= cs@);
}

/// Whether `s` is exactly the text `lit`.
pub fn text_is(s: &str, lit: &str) -> (r: bool)
    ensures
        r == (s@ == lit@),
{
    let a = chars_of(s);
    let b = chars_of(lit);
    if a.len() != b.len() {
        return false;
    }
    let mut i: usize = 0;
    while i < a.len()
        invariant
            i <= a.len(),
            a.len() == b.len(),
            a@ == s@,
            b@ == lit@,
            forall|k: int| 0 <= k < i ==> a@[k] == b@[k],
        decreases a.len() - i,
    {
        if a[i] != b[i] {
            assert(a@[i as int] != b@[i as int]);
            return false;
        }
        i = i + 1;
    }
    assert(a@ =~= b@);
    true
}

/// A string holding exactly the characters of `cs`.
pub fn string_of(cs: &Vec<char>) -> (s: String)
    ensures
        s@ == cs@,
{
    let mut s = String::new();
    push_chars(&mut s, cs);
    assert(Seq::<char>::empty() + cs@ =~= cs@);
    s
}

// ---------------------------------------------------------------------------
// Substrings
// ---------------------------------------------------------------------------

/// `t` occurs in `s` starting at position `i`.
pub open spec fn occurs_at(s: Seq<char>, t: Seq<char>, i: int) -> bool {
    0 <= i && i + t.len() <= s.len() && s.subrange(i, i + t.len()) == t
}

/// `t` occurs somewhere in `s` (the empty text occurs in every text).
pub open spec fn contains_text(s: Seq<char>, t: Seq<char>) -> bool {
    exists|i: int| occurs_at(s, t, i)
}

/// Whether `t` occurs in `s` at position `i`.
fn matches_at(s: &Vec<char>, t: &Vec<char>, i: usize) -> (b: bool)
    requires
        i <= s.len(),
    ensures
        b == occurs_at(s@, t@, i as int),
{
    if t.len() > s.len() - i {
        return false;
    }
    let mut j: usize = 0;
    while j < t.len()
        invariant
            i + t.len() <= s.len(),
            j <= t.len(),
            forall|k: int| 0 <= k < j ==> s@[i + k] == t@[k],
        decreases t.len() - j,
    {
        if s[i + j] != t[j] {
            assert(s@.subrange(i as int, i + t.len())[j as int] != t@[j as int]);
            return false;
        }
        j = j + 1;
    }
    assert(s@.subrange(i as int, i + t.len()) =~= t@);
    true
}

/// `str::contains` on character vectors: whether `t` occurs in `s`.
pub fn contains(s: &Vec<char>, t: &Vec<char>) -> (b: bool)
    ensures
        b == contains_text(s@, t@),
{
    let mut i: usize = 0;
    loop
        invariant
            i <= s.len(),
            forall|k: int| 0 <= k < i ==> !occurs_at(s@, t@, k),
        ensures
            forall|k: int| 0 <= k <= s.len() ==> !occurs_at(s@, t@, k),
        decreases s.len() - i,
    {
        if matches_at(s, t, i) {
            return true;
        }
        if i == s.len() {
            break;
        }
        i = i + 1;
    }
    assert forall|k: int| !occurs_at(s@, t@, k) by {
        if k > s.len() {
            assert(!occurs_at(s@, t@, k));
        }
    }
    false
}

/// `str::replace`: every non-overlapping occurrence of the non-empty `from`,
/// scanning from the left, replaced by `to`.
pub open spec fn replace_text(s: Seq<char>, from: Seq<char>, to: Seq<char>) -> Seq<char>
    recommends
        from.len() > 0,
    decreases s.len(),
{
    if from.len() == 0 || s.len() < from.len() {
        s
    } else if s.take(from.len() as int) == from {
        to + replace_text(s.skip(from.len() as int), from, to)
    } else {
        seq![s[0]] + replace_text(s.skip(1), from, to)
    }
}

/// Replaces every occurrence of `from` (non-empty) in `s` by `to`.
pub fn replace_all(s: &Vec<char>, from: &Vec<char>, to: &Vec<char>) -> (r: Vec<char>)
    requires
        from.len() > 0,
    ensures
        r@ == replace_text(s@, from@, to@),
{
    let mut out: Vec<char> = Vec::new();
    let mut i: usize = 0;
    assert(s@.skip(0) =~= s@);
    while i < s.len()
        invariant
            i <= s.len(),
            from.len() > 0,
            out@ + replace_text(s@.skip(i as int), from@, to@) == replace_text(s@, from@, to@),
        decreases s.len() - i,
    {
        let ghost rest = s@.skip(i as int);
        if from.len() <= s.len() - i && matches_at(s, from, i) {
            assert(rest.take(from.len() as int) =~= s@.subrange(i as int, i + from.len()));
            assert(rest.skip(from.len() as int) =~= s@.skip(i + from.len()));
            let mut k: usize = 0;
            let ghost before = out@;
            while k < to.len()
                invariant
                    k <= to.len(),
                    out@ == before + to@.take(k as int),
                decreases to.len() - k,
            {
                out.push(to[k]);
                assert(to@.take(k + 1) =~= to@.take(k as int).push(to@[k as int]));
                k = k + 1;
            }
            assert(to@.take(to.len() as int) =~= to@);
            assert(out@ + replace_text(s@.skip(i + from.len()), from@, to@) =~= before + (to@
                + replace_text(rest.skip(from.len() as int), from@, to@)));
            i = i + from.len();
        } else {
            if from.len() <= s.len() - i {
                assert(rest.take(from.len() as int) =~= s@.subrange(i as int, i + from.len()));
            }
            assert(rest.skip(1) =~= s@.skip(i + 1));
            assert(rest[0] == s@[i as int]);
            let ghost before = out@;
            out.push(s[i]);
            assert(out@ + replace_text(s@.skip(i + 1), from@, to@) =~= before + (seq![rest[0]]
                + replace_text(rest.skip(1), from@, to@)));
            i = i + 1;
        }
    }
    assert(s@.skip(i as int) =~= Seq::<char>::empty());
    assert(out@ + Seq::<char>::empty() =~= out@);
    out
}

// ---------------------------------------------------------------------------
// XML escaping
// ---------------------------------------------------------------------------

/// The escaped form of one character.
pub open spec fn escape_char(c: char) -> Seq<char> {
    if c == '&' {
        seq!['&', 'a', 'm', 'p', ';']
    } else if c == '<' {
        seq!['&', 'l', 't', ';']
    } else if c == '>' {
        seq!['&', 'g', 't', ';']
    } else if c == '"' {
        seq!['&', 'q', 'u', 'o', 't', ';']
    } else {
        seq![c]
    }
}

/// The text with `&`, `<`, `>` and `"` replaced by their XML entities.
pub open spec fn escaped(s: Seq<char>) -> Seq<char>
    decreases s.len(),
{
    if s.len() == 0 {
        Seq::empty()
    } else {
        escaped(s.drop_last()) + escape_char(s.last())
    }
}

/// Appends the XML-escaped form of `s` to `out`.
pub(crate) fn push_escaped(out: &mut String, s: &str)
    ensures
        final(out)@ == old(out)@ + escaped(s@),
{
    let cs = chars_of(s);
    let ghost start = out@;
    let mut i: usize = 0;
    while i < cs.len()
        invariant
            i <= cs.len(),
            cs@ == s@,
            out@ == start + escaped(cs@.take(i as int)),
        decreases cs.len() - i,
    {
        let c = cs[i];
        let ghost before = out@;
        if c == '&' {
            push_str(out, "&amp;");
            proof {
                reveal_strlit("&amp;");
                assert("&amp;"@ =~= escape_char(c));
            }
        } else if c == '<' {
            push_str(out, "&lt;");
            proof {
                reveal_strlit("&lt;");
                assert("&lt;"@ =~= escape_char(c));
            }
        } else if c == '>' {
            push_str(out, "&gt;");
            proof {
                reveal_strlit("&gt;");
                assert("&gt;"@ =~= escape_char(c));
            }
        } else if c == '"' {
            push_str(out, "&quot;");
            proof {
                reveal_strlit("&quot;");
                assert("&quot;"@ =~= escape_char(c));
            }
        } else {
            push_char(out, c);
            assert(before.push(c) =~= before + escape_char(c));
        }
        assert(out@ == before + escape_char(c));
        assert(cs@.take(i + 1).drop_last() =~= cs@.take(i as int));
        assert(out@ =~= start + escaped(cs@.take(i + 1)));
        i = i + 1;
    }
    assert(cs@.take(cs.len() as int) =~= cs@);
}


/// `value` with `&`, `<`, `>` and `"` replaced by `&amp;`, `&lt;`, `&gt;` and
/// `&quot;`.
pub fn escape_xml(value: &str) -> (r: String)
    ensures
        r@ == escaped(value@),
{
    let mut r = String::new();
    push_escaped(&mut r, value);
    assert(Seq::<char>::empty() + escaped(value@) =~= escaped(value@));
    r
}

// ---------------------------------------------------------------------------
// Decimal numbers
// ---------------------------------------------------------------------------

/// The ASCII digit for `d < 10`.
pub open spec fn digit_char(d: nat) -> char {
    (d + 48) as char
}

/// The decimal digits of `n`, most significant first, without leading zeros.
pub open spec fn decimal(n: nat) -> Seq<char>
    decreases n,
{
    if n < 10 {
        seq![digit_char(n)]
    } else {
        decimal(n / 10).push(digit_char(n % 10))
    }
}

/// Appends the decimal digits of `n` to `out`.
pub(crate) fn push_decimal(out: &mut String, n: u64)
    ensures
        final(out)@ == old(out)@ + decimal(n as nat),
    decreases n,
{
    let ghost start = out@;
    if n >= 10 {
        push_decimal(out, n / 10);
    }
    let d: u8 = (n % 10) as u8;
    let c: char = (d + 48u8) as char;
    assert(c == digit_char((n % 10) as nat));
    push_char(out, c);
    if n >= 10 {
        assert(out@ =~= start + decimal(n as nat));
    } else {
        assert(out@ =~= start + decimal(n as nat));
    }
}

/// The decimal text of `n`.
pub fn decimal_string(n: u64) -> (s: String)
    ensures
        s@ == decimal(n as nat),
{
    let mut s = String::new();
    push_decimal(&mut s, n);
    assert(Seq::<char>::empty() + decimal(n as nat) =~= decimal(n as nat));
    s
}

/// `c` is one of `0`..`9`.
pub open spec fn is_digit(c: char) -> bool {
    '0' <= c && c <= '9'
}

/// Every character of `d` is a digit.
pub open spec fn all_digits(d: Seq<char>) -> bool {
    forall|i: int| 0 <= i < d.len() ==> is_digit(#[trigger] d[i])
}

/// The value of a run of decimal digits.
pub open spec fn digits_value(d: Seq<char>) -> nat
    decreases d.len(),
{
    if d.len() == 0 {
        0
    } else {
        digits_value(d.drop_last()) * 10 + ((d.last() as int - 48) as nat)
    }
}

/// What `str::parse::<u32>` accepts: an optional `+` followed by at least one
/// digit, whose value fits in a `u32`.
pub open spec fn parsed_u32(s: Seq<char>) -> Option<u32> {
    let d = if s.len() > 0 && s[0] == '+' {
        s.skip(1)
    } else {
        s
    };
    if d.len() > 0 && all_digits(d) && digits_value(d) <= u32::MAX {
        Some(digits_value(d) as u32)
    } else {
        None
    }
}

/// A prefix of a digit run is worth no more than the whole run.
proof fn lemma_digits_prefix_le(d: Seq<char>, k: int)
    requires
        0 <= k <= d.len(),
        all_digits(d),
    ensures
        digits_value(d.take(k)) <= digits_value(d),
    decreases d.len(),
{
    if k < d.len() {
        let p = d.drop_last();
        assert(all_digits(p)) by {
            assert forall|i: int| 0 <= i < p.len() implies is_digit(#[trigger] p[i]) by {
                assert(p[i] == d[i]);
            }
        }
        lemma_digits_prefix_le(p, k);
        assert(p.take(k) =~= d.take(k));
    } else {
        assert(d.take(k) =~= d);
    }
}

/// `str::parse::<u32>` on the characters of `s`.
pub fn parse_u32(s: &str) -> (r: Option<u32>)
    ensures
        r == parsed_u32(s@),
{
    let cs = chars_of(s);
    let start: usize = if cs.len() > 0 && cs[0] == '+' {
        1
    } else {
        0
    };
    let ghost d = if cs@.len() > 0 && cs@[0] == '+' {
        cs@.skip(1)
    } else {
        cs@
    };
    assert(d =~= cs@.skip(start as int));
    assert(parsed_u32(s@) == (if d.len() > 0 && all_digits(d) && digits_value(d) <= u32::MAX {
        Some(digits_value(d) as u32)
    } else {
        None::<u32>
    }));
    if start >= cs.len() {
        return None;
    }
    let mut acc: u64 = 0;
    let mut i: usize = start;
    while i < cs.len()
        invariant
            start <= i <= cs.len(),
            d =~= cs@.skip(start as int),
            acc == digits_value(d.take(i - start)),
            acc <= u32::MAX,
            all_digits(d.take(i - start)),
            d.len() > 0,
            parsed_u32(s@) == (if all_digits(d) && digits_value(d) <= u32::MAX {
                Some(digits_value(d) as u32)
            } else {
                None::<u32>
            }),
        decreases cs.len() - i,
    {
        let c = cs[i];
        assert(d[i - start] == c);
        assert(d.take(i - start + 1).drop_last() =~= d.take(i - start));
        if c < '0' || c > '9' {
            assert(!all_digits(d)) by {
                assert(!is_digit(d[i - start]));
            }
            return None;
        }
        let v: u64 = ((c as u32) - 48) as u64;
        acc = acc * 10 + v;
        assert(all_digits(d.take(i - start + 1))) by {
            assert forall|j: int| 0 <= j < i - start + 1 implies is_digit(
                #[trigger] d.take(i - start + 1)[j],
            ) by {
                if j < i - start {
                    assert(d.take(i - start + 1)[j] == d.take(i - start)[j]);
                }
            }
        }
        if acc > 4294967295 {
            proof {
                if all_digits(d) {
                    lemma_digits_prefix_le(d, i - start + 1);
                }
            }
            return None;
        }
        i = i + 1;
    }
    assert(d.take(i - start) =~= d);
    Some(acc as u32)
}

// ---------------------------------------------------------------------------
// Trimming
// ---------------------------------------------------------------------------

/// `s` without its trailing run of `c`.
pub open spec fn trim_end(s: Seq<char>, c: char) -> Seq<char>
    decreases s.len(),
{
    if s.len() > 0 && s.last() == c {
        trim_end(s.drop_last(), c)
    } else {
        s
    }
}

/// The length of `cs.take(end)` once its trailing run of `c` is removed.
fn trimmed_len(cs: &Vec<char>, end: usize, c: char) -> (n: usize)
    requires
        end <= cs.len(),
    ensures
        n <= end,
        cs@.take(n as int) == trim_end(cs@.take(end as int), c),
{
    let mut n: usize = end;
    while n > 0 && cs[n - 1] == c
        invariant
            n <= end <= cs.len(),
            trim_end(cs@.take(n as int), c) == trim_end(cs@.take(end as int), c),
        decreases n,
    {
        assert(cs@.take(n as int).drop_last() =~= cs@.take(n - 1));
        n = n - 1;
    }
    n
}

/// A fixed-point number text with its trailing zeros, then its trailing
/// points, removed (`"2.500000"` gives `"2.5"`, `"3.000000"` gives `"3"`).
pub open spec fn trimmed_number(s: Seq<char>) -> Seq<char> {
    trim_end(trim_end(s, '0'), '.')
}

/// Appends `trimmed_number(s)` to `out`.
pub(crate) fn push_trimmed_number(out: &mut String, s: &str)
    ensures
        final(out)@ == old(out)@ + trimmed_number(s@),
{
    let cs = chars_of(s);
    let a = trimmed_len(&cs, cs.len(), '0');
    assert(cs@.take(cs.len() as int) =~= cs@);
    let b = trimmed_len(&cs, a, '.');
    let ghost start = out@;
    let mut i: usize = 0;
    while i < b
        invariant
            i <= b <= cs.len(),
            out@ == start + cs@.take(i as int),
        decreases b - i,
    {
        push_char(out, cs[i]);
        assert(cs@.take(i + 1) =~= cs@.take(i as int).push(cs@[i as int]));
        i = i + 1;
    }
}

/// A coordinate printed with six decimals, trimmed: `trimmed_number` of `s`.
pub fn trim_number(s: &str) -> (r: String)
    ensures
        r@ == trimmed_number(s@),
{
    let mut r = String::new();
    push_trimmed_number(&mut r, s);
    assert(Seq::<char>::empty() + trimmed_number(s@) =~= trimmed_number(s@));
    r
}


/// Escaped text holds no `<`, `>` or `"`.
pub proof fn lemma_escaped_has_no_markup(s: Seq<char>)
    ensures
        forall|i: int|
            0 <= i < escaped(s).len() ==> #[trigger] escaped(s)[i] != '<' && escaped(s)[i] != '>'
                && escaped(s)[i] != '"',
    decreases s.len(),
{
    if s.len() > 0 {
        lemma_escaped_has_no_markup(s.drop_last());
        let a = escaped(s.drop_last());
        let b = escape_char(s.last());
        assert forall|i: int| 0 <= i < escaped(s).len() implies #[trigger] escaped(s)[i] != '<'
            && escaped(s)[i] != '>' && escaped(s)[i] != '"' by {
            if i >= a.len() {
                assert(escaped(s)[i] == b[i - a.len()]);
            } else {
                assert(escaped(s)[i] == a[i]);
            }
        }
    }
}

/// Text without `&`, `<`, `>` and `"` is left as it is by escaping.
pub proof fn lemma_escaped_plain(s: Seq<char>)
    requires
        forall|i: int|
            0 <= i < s.len() ==> #[trigger] s[i] != '&' && s[i] != '<' && s[i] != '>' && s[i]
                != '"',
    ensures
        escaped(s) == s,
    decreases s.len(),
{
    if s.len() > 0 {
        lemma_escaped_plain(s.drop_last());
        assert(s.drop_last().push(s.last()) =~= s);
    }
}

/// Escaping distributes over concatenation: escaping `a + b` gives the escaped
/// `a` followed by the escaped `b`.
pub proof fn lemma_escaped_concat(a: Seq<char>, b: Seq<char>)
    ensures
        escaped(a + b) == escaped(a) + escaped(b),
    decreases b.len(),
{
    if b.len() == 0 {
        assert(a + b =~= a);
        assert(escaped(a) + escaped(b) =~= escaped(a));
    } else {
        lemma_escaped_concat(a, b.drop_last());
        assert((a + b).drop_last() =~= a + b.drop_last());
        assert((a + b).last() == b.last());
        assert(escaped(a) + escaped(b.drop_last()) + escape_char(b.last()) =~= escaped(a) + (
        escaped(b.drop_last()) + escape_char(b.last())));
    }
}

/// Escaping a non-empty text escapes its first character, then the rest.
proof fn lemma_escaped_first(s: Seq<char>)
    requires
        s.len() > 0,
    ensures
        escaped(s) == escape_char(s[0]) + escaped(s.drop_first()),
{
    let one = seq![s[0]];
    assert(one + s.drop_first() =~= s);
    lemma_escaped_concat(one, s.drop_first());
    assert(one.drop_last() =~= Seq::<char>::empty());
    assert(escaped(one.drop_last()) == Seq::<char>::empty());
    assert(Seq::<char>::empty() + escape_char(s[0]) =~= escape_char(s[0]));
}

/// `p` is a prefix of `s`.
pub open spec fn starts_with(s: Seq<char>, p: Seq<char>) -> bool {
    p.len() <= s.len() && forall|i: int| 0 <= i < p.len() ==> #[trigger] s[i] == p[i]
}

/// Reads XML text back: each of the entities `&amp;`, `&lt;`, `&gt;` and `&quot;`
/// becomes its character, every other character stands for itself.
pub open spec fn unescaped(s: Seq<char>) -> Seq<char>
    decreases s.len(),
{
    if s.len() == 0 {
        Seq::empty()
    } else if starts_with(s, escape_char('&')) {
        seq!['&'] + unescaped(s.skip(5))
    } else if starts_with(s, escape_char('<')) {
        seq!['<'] + unescaped(s.skip(4))
    } else if starts_with(s, escape_char('>')) {
        seq!['>'] + unescaped(s.skip(4))
    } else if starts_with(s, escape_char('"')) {
        seq!['"'] + unescaped(s.skip(6))
    } else {
        seq![s[0]] + unescaped(s.skip(1))
    }
}

/// Reading back one escaped character in front of any text gives that character
/// in front of the text read back.
proof fn lemma_unescaped_step(c: char, t: Seq<char>)
    ensures
        unescaped(escape_char(c) + t) == seq![c] + unescaped(t),
{
    let s = escape_char(c) + t;
    let e = escape_char(c);
    assert(s.skip(e.len() as int) =~= t);
    if c == '&' {
        assert(starts_with(s, escape_char('&')));
    } else if c == '<' {
        assert(s[1] == 'l');
        assert(!starts_with(s, escape_char('&')));
        assert(starts_with(s, escape_char('<')));
    } else if c == '>' {
        assert(s[1] == 'g');
        assert(!starts_with(s, escape_char('&')));
        assert(!starts_with(s, escape_char('<')));
        assert(starts_with(s, escape_char('>')));
    } else if c == '"' {
        assert(s[1] == 'q');
        assert(!starts_with(s, escape_char('&')));
        assert(!starts_with(s, escape_char('<')));
        assert(!starts_with(s, escape_char('>')));
        assert(starts_with(s, escape_char('"')));
    } else {
        assert(s[0] == c);
        assert(!starts_with(s, escape_char('&')));
        assert(!starts_with(s, escape_char('<')));
        assert(!starts_with(s, escape_char('>')));
        assert(!starts_with(s, escape_char('"')));
    }
}

/// Escaped text reads back to the text it was made from.
pub proof fn lemma_unescape_escaped(s: Seq<char>)
    ensures
        unescaped(escaped(s)) == s,
    decreases s.len(),
{
    if s.len() > 0 {
        let rest = s.drop_first();
        lemma_escaped_first(s);
        lemma_unescaped_step(s[0], escaped(rest));
        lemma_unescape_escaped(rest);
    }
}

/// Escaping is injective: two texts with the same escaped form are the same text.
pub proof fn lemma_escaped_injective(a: Seq<char>, b: Seq<char>)
    requires
        escaped(a) == escaped(b),
    ensures
        a == b,
{
    lemma_unescape_escaped(a);
    lemma_unescape_escaped(b);
}

/// The character that the `k`-th replacement of `unescaped_by_replacing` brings
/// back: `<`, `>`, `"`, then `&`.
pub open spec fn replaced_char(k: nat) -> char {
    if k == 0 {
        '<'
    } else if k == 1 {
        '>'
    } else if k == 2 {
        '"'
    } else {
        '&'
    }
}

/// Un-escaping by successive replacement, as `str::replace` does it: `&lt;` by
/// `<`, then `&gt;` by `>`, then `&quot;` by `"`, and last `&amp;` by `&`.
pub open spec fn unescaped_by_replacing(s: Seq<char>) -> Seq<char> {
    let r0 = replace_text(s, escape_char('<'), seq!['<']);
    let r1 = replace_text(r0, escape_char('>'), seq!['>']);
    let r2 = replace_text(r1, escape_char('"'), seq!['"']);
    replace_text(r2, escape_char('&'), seq!['&'])
}

/// The form of one character after the first `k` replacements.
spec fn staged_char(c: char, k: nat) -> Seq<char> {
    if (c == '<' && k >= 1) || (c == '>' && k >= 2) || (c == '"' && k >= 3) || (c == '&' && k
        >= 4) {
        seq![c]
    } else {
        escape_char(c)
    }
}

/// Escaped text after the first `k` replacements.
spec fn staged(s: Seq<char>, k: nat) -> Seq<char>
    decreases s.len(),
{
    if s.len() == 0 {
        Seq::empty()
    } else {
        staged_char(s[0], k) + staged(s.drop_first(), k)
    }
}

/// `p` is a prefix of `s`, as `replace_text` tests it.
spec fn begins_with(s: Seq<char>, p: Seq<char>) -> bool {
    s.len() >= p.len() && s.take(p.len() as int) == p
}

/// Replacing in `p + t` leaves `p` alone when no occurrence of `from` starts
/// inside `p`.
proof fn lemma_replace_skips(p: Seq<char>, t: Seq<char>, from: Seq<char>, to: Seq<char>)
    requires
        from.len() > 0,
        forall|i: int| 0 <= i < p.len() ==> !begins_with(#[trigger] (p + t).skip(i), from),
    ensures
        replace_text(p + t, from, to) == p + replace_text(t, from, to),
    decreases p.len(),
{
    if p.len() == 0 {
        assert(p + t =~= t);
        assert(p + replace_text(t, from, to) =~= replace_text(t, from, to));
    } else {
        let rest = p.drop_first();
        assert((p + t).skip(0) =~= p + t);
        assert((p + t).skip(1) =~= rest + t);
        assert forall|i: int| 0 <= i < rest.len() implies !begins_with(
            #[trigger] (rest + t).skip(i),
            from,
        ) by {
            assert((rest + t).skip(i) =~= (p + t).skip(i + 1));
        }
        lemma_replace_skips(rest, t, from, to);
        if (p + t).len() < from.len() {
            assert(t.len() < from.len());
        } else {
            assert((p + t)[0] == p[0]);
        }
        assert(seq![p[0]] + (rest + replace_text(t, from, to)) =~= p + replace_text(t, from, to));
    }
}

/// The escaped form of a character other than `&` holds no `&`; an entity holds
/// one, at its start, and two entities differ in their second character.
proof fn lemma_escape_char_shape(c: char)
    ensures
        escape_char(c).len() > 0,
        forall|i: int| 0 < i < escape_char(c).len() ==> #[trigger] escape_char(c)[i] != '&',
        escape_char(c)[0] == '&' <==> (c == '&' || c == '<' || c == '>' || c == '"'),
        escape_char(c)[0] == '&' ==> escape_char(c).len() >= 4,
{
}

/// The `k`-th replacement turns the text after `k` replacements into the text
/// after `k + 1`.
proof fn lemma_replace_stage(s: Seq<char>, k: nat)
    requires
        k < 4,
    ensures
        replace_text(staged(s, k), escape_char(replaced_char(k)), seq![replaced_char(k)]) == staged(
            s,
            k + 1,
        ),
    decreases s.len(),
{
    let from = escape_char(replaced_char(k));
    let to = seq![replaced_char(k)];
    if s.len() == 0 {
        assert(from.len() > 0);
    } else {
        let c = s[0];
        let rest = s.drop_first();
        let p = staged_char(c, k);
        let t = staged(rest, k);
        lemma_replace_stage(rest, k);
        if c == replaced_char(k) {
            assert(p == from);
            assert((p + t).take(from.len() as int) =~= from);
            assert((p + t).skip(from.len() as int) =~= t);
        } else {
            lemma_escape_char_shape(c);
            assert forall|i: int| 0 <= i < p.len() implies !begins_with(
                #[trigger] (p + t).skip(i),
                from,
            ) by {
                let x = (p + t).skip(i);
                if begins_with(x, from) {
                    assert(x.take(from.len() as int)[0] == from[0]);
                    assert(x[0] == (p + t)[i]);
                    assert((p + t)[i] == p[i]);
                    if i == 0 {
                        assert(x.take(from.len() as int)[1] == from[1]);
                        assert(x[1] == (p + t)[1]);
                        assert((p + t)[1] == p[1]);
                    }
                }
            }
            lemma_replace_skips(p, t, from, to);
        }
    }
}

/// Escaped text is the text at stage zero, and the text after all four
/// replacements is the text itself.
proof fn lemma_stage_ends(s: Seq<char>)
    ensures
        staged(s, 0) == escaped(s),
        staged(s, 4) == s,
    decreases s.len(),
{
    if s.len() > 0 {
        let rest = s.drop_first();
        lemma_stage_ends(rest);
        lemma_escaped_first(s);
    }
}

/// Un-escaping escaped text by successive replacement (`&lt;`, `&gt;`,
/// `&quot;`, then `&amp;`) gives the text back.
pub proof fn lemma_unescape_by_replacing(s: Seq<char>)
    ensures
        unescaped_by_replacing(escaped(s)) == s,
{
    lemma_stage_ends(s);
    lemma_replace_stage(s, 0);
    lemma_replace_stage(s, 1);
    lemma_replace_stage(s, 2);
    lemma_replace_stage(s, 3);
}

/// `n` zero characters.
pub open spec fn zeros(k: nat) -> Seq<char> {
    Seq::new(k, |i: int| '0')
}

/// A whole number printed with six (or any number of) zero decimals trims back
/// to its plain decimal form: `"10.000000"` gives `"10"`.
pub proof fn lemma_trimmed_whole_number(n: nat, k: nat)
    ensures
        trimmed_number(decimal(n) + seq!['.'] + zeros(k)) == decimal(n),
{
    lemma_trim_zeros(decimal(n) + seq!['.'], k);
    let d = decimal(n);
    assert((d + seq!['.']).drop_last() =~= d);
    lemma_decimal_ends_in_digit(n);
}

proof fn lemma_trim_zeros(p: Seq<char>, k: nat)
    requires
        p.len() > 0,
        p.last() != '0',
    ensures
        trim_end(p + zeros(k), '0') == p,
    decreases k,
{
    if k == 0 {
        assert(p + zeros(0) =~= p);
    } else {
        let q = p + zeros(k);
        assert(q.last() == '0');
        assert(q.drop_last() =~= p + zeros((k - 1) as nat));
        lemma_trim_zeros(p, (k - 1) as nat);
    }
}

proof fn lemma_decimal_ends_in_digit(n: nat)
    ensures
        decimal(n).len() > 0,
        is_digit(decimal(n).last()),
        decimal(n).last() != '.',
        trim_end(decimal(n), '.') == decimal(n),
    decreases n,
{
    if n >= 10 {
        lemma_decimal_ends_in_digit(n / 10);
    }
}


/// The decimal text of a number is a run of digits worth that number.
proof fn lemma_decimal_digits(n: nat)
    ensures
        decimal(n).len() > 0,
        all_digits(decimal(n)),
        digits_value(decimal(n)) == n,
    decreases n,
{
    let d = decimal(n);
    let k: nat = n % 10;
    assert(digit_char(k) as int == k + 48);
    if n < 10 {
        assert(d.drop_last() =~= Seq::<char>::empty());
        assert(d.last() == digit_char(n));
        assert(n % 10 == n);
        assert(digits_value(d) == digits_value(d.drop_last()) * 10 + ((d.last() as int - 48) as nat));
    } else {
        assert(d.last() == digit_char(k));
        assert(digits_value(d) == digits_value(d.drop_last()) * 10 + ((d.last() as int - 48) as nat));
        lemma_decimal_digits(n / 10);
        assert(d.drop_last() =~= decimal(n / 10));
        assert(all_digits(d)) by {
            assert forall|i: int| 0 <= i < d.len() implies is_digit(#[trigger] d[i]) by {
                if i < d.len() - 1 {
                    assert(d[i] == decimal(n / 10)[i]);
                }
            }
        }
        assert((n / 10) * 10 + n % 10 == n) by (nonlinear_arith);
    }
}

/// Printing a `u32` in decimal and parsing the text back gives the same number:
/// the ids and corner indices the library writes read back unchanged.
pub proof fn lemma_parse_decimal_roundtrip(n: u32)
    ensures
        parsed_u32(decimal(n as nat)) == Some(n),
{
    lemma_decimal_digits(n as nat);
    let d = decimal(n as nat);
    assert(is_digit(d[0]));
}

} // verus!
