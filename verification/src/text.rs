//! Small verified text utilities: decimal numbers, separator splitting and
//! whitespace trimming, shared by the address and session modules.

use vstd::prelude::*;

verus! {

/// A decimal digit.
pub open spec fn is_dec_digit(c: char) -> bool {
    48 <= c as u32 <= 57
}

/// Numeric value of a decimal digit character.
pub open spec fn digit_val(c: char) -> int {
    c as u32 - 48
}

/// Every character of `s` is a decimal digit.
pub open spec fn all_dec_digits(s: Seq<char>) -> bool {
    forall|i: int| 0 <= i < s.len() ==> is_dec_digit(s[i])
}

/// Value of a digit string read in base ten (0 for the empty string).
pub open spec fn dec_val(s: Seq<char>) -> int
    decreases s.len(),
{
    if s.len() == 0 {
        0
    } else {
        dec_val(s.drop_last()) * 10 + digit_val(s.last())
    }
}

/// The character for a digit value below ten.
pub open spec fn dec_digit_char(d: int) -> char {
    if d == 0 { '0' }
    else if d == 1 { '1' }
    else if d == 2 { '2' }
    else if d == 3 { '3' }
    else if d == 4 { '4' }
    else if d == 5 { '5' }
    else if d == 6 { '6' }
    else if d == 7 { '7' }
    else if d == 8 { '8' }
    else { '9' }
}

/// Canonical decimal rendering of a non-negative integer, no leading zeros.
pub open spec fn dec_str(n: int) -> Seq<char>
    decreases n,
{
    if n < 10 {
        seq![dec_digit_char(n)]
    } else {
        dec_str(n / 10).push(dec_digit_char(n % 10))
    }
}

pub proof fn lemma_dec_val_nonneg(s: Seq<char>)
    requires
        all_dec_digits(s),
    ensures
        dec_val(s) >= 0,
    decreases s.len(),
{
    if s.len() > 0 {
        assert(all_dec_digits(s.drop_last()));
        lemma_dec_val_nonneg(s.drop_last());
    }
}

/// Extending a digit string never decreases its value.
proof fn lemma_dec_val_prefix(s: Seq<char>, i: int)
    requires
        all_dec_digits(s),
        0 <= i <= s.len(),
    ensures
        dec_val(s.take(i)) <= dec_val(s),
    decreases s.len() - i,
{
    if i < s.len() {
        let t = s.take(i + 1);
        assert(t.drop_last() =~= s.take(i));
        assert(all_dec_digits(s.take(i)));
        lemma_dec_val_nonneg(s.take(i));
        assert(dec_val(t) == dec_val(s.take(i)) * 10 + digit_val(t.last()));
        assert(is_dec_digit(s[i]));
        assert(dec_val(s.take(i)) <= dec_val(s.take(i + 1))) by {
            assert(dec_val(s.take(i)) * 10 >= dec_val(s.take(i)));
            assert(digit_val(t.last()) >= 0);
        }
        lemma_dec_val_prefix(s, i + 1);
    } else {
        assert(s.take(i) =~= s);
    }
}

/// The canonical rendering is made of digits, is never empty, and never
/// starts with a zero unless it is exactly "0".
pub proof fn lemma_dec_str_digits(n: int)
    requires
        n >= 0,
    ensures
        all_dec_digits(dec_str(n)),
        dec_str(n).len() >= 1,
        n >= 1 ==> dec_str(n)[0] != '0',
        n < 10 ==> dec_str(n).len() == 1,
    decreases n,
{
    if n < 10 {
        assert(is_dec_digit(dec_digit_char(n)));
        assert(n >= 1 ==> dec_digit_char(n) != '0');
    } else {
        lemma_dec_str_digits(n / 10);
        let prefix = dec_str(n / 10);
        let s = dec_str(n);
        assert(s == prefix.push(dec_digit_char(n % 10)));
        assert(is_dec_digit(dec_digit_char(n % 10)));
        assert forall|i: int| 0 <= i < s.len() implies is_dec_digit(s[i]) by {
            if i < prefix.len() {
                assert(s[i] == prefix[i]);
            }
        }
        assert(n / 10 >= 1);
        assert(s[0] == prefix[0]);
    }
}

/// Reading the canonical rendering back gives the number.
pub proof fn lemma_dec_val_of_dec_str(n: int)
    requires
        n >= 0,
    ensures
        dec_val(dec_str(n)) == n,
    decreases n,
{
    if n < 10 {
        let s = dec_str(n);
        assert(s.drop_last() =~= Seq::<char>::empty());
        assert(s.last() == dec_digit_char(n));
        assert(dec_val(Seq::<char>::empty()) == 0);
        assert(digit_val(dec_digit_char(n)) == n);
        assert(dec_val(s) == dec_val(s.drop_last()) * 10 + digit_val(s.last()));
    } else {
        lemma_dec_val_of_dec_str(n / 10);
        let s = dec_str(n);
        assert(s == dec_str(n / 10).push(dec_digit_char(n % 10)));
        assert(s.drop_last() =~= dec_str(n / 10));
        assert(s.last() == dec_digit_char(n % 10));
        assert(0 <= n % 10 < 10);
        assert(digit_val(dec_digit_char(n % 10)) == n % 10);
        assert(dec_val(s) == (n / 10) * 10 + n % 10);
        assert((n / 10) * 10 + n % 10 == n) by {
            vstd::arithmetic::div_mod::lemma_fundamental_div_mod(n, 10);
        }
    }
}

/// Appending text free of the separator only extends the last part.
pub proof fn lemma_split_extend(s: Seq<char>, x: Seq<char>, sep: char)
    requires
        forall|i: int| 0 <= i < x.len() ==> x[i] != sep,
    ensures
        split_on(s + x, sep) == split_on(s, sep).update(
            split_on(s, sep).len() - 1,
            split_on(s, sep).last() + x,
        ),
    decreases x.len(),
{
    lemma_split_on_len(s, sep);
    let base = split_on(s, sep);
    if x.len() == 0 {
        assert(s + x =~= s);
        assert(base.last() + x =~= base.last());
        assert(base.update(base.len() - 1, base.last()) =~= base);
    } else {
        lemma_split_extend(s, x.drop_last(), sep);
        let mid = split_on(s + x.drop_last(), sep);
        assert((s + x).drop_last() =~= s + x.drop_last());
        assert((s + x).last() == x.last());
        assert(x.last() != sep);
        assert(mid.len() == base.len());
        assert(mid.last() == base.last() + x.drop_last());
        let whole = split_on(s + x, sep);
        assert(whole == mid.update(mid.len() - 1, mid.last().push(x.last())));
        assert((base.last() + x.drop_last()).push(x.last()) =~= base.last() + x);
        assert(whole =~= base.update(base.len() - 1, base.last() + x));
    }
}

/// A separator at the end opens a new, empty last part.
pub proof fn lemma_split_push_sep(s: Seq<char>, sep: char)
    ensures
        split_on(s.push(sep), sep) == split_on(s, sep) + seq![Seq::<char>::empty()],
{
    assert(s.push(sep).drop_last() =~= s);
    assert(s.push(sep).last() == sep);
}

/// What `parse_dec` accepts: a non-empty, all-digit string whose value is at
/// most `max`; leading zeros are allowed.
pub open spec fn spec_parse_dec(s: Seq<char>, max: int) -> Option<u32> {
    if s.len() > 0 && all_dec_digits(s) && dec_val(s) <= max {
        Some(dec_val(s) as u32)
    } else {
        None
    }
}

/// Parse a decimal number of at most `max`, rejecting anything but digits.
pub fn parse_dec(s: &str, max: u32) -> (r: Option<u32>)
    ensures
        r == spec_parse_dec(s@, max as int),
        r is Some ==> r->0 <= max,
{
    let n = s.unicode_len();
    if n == 0 {
        return None;
    }
    let mut acc: u64 = 0;
    let mut i: usize = 0;
    proof {
        assert(s@.take(0) =~= Seq::<char>::empty());
    }
    while i < n
        invariant
            0 <= i <= n,
            n == s@.len(),
            all_dec_digits(s@.take(i as int)),
            acc == dec_val(s@.take(i as int)),
            acc <= max,
        decreases n - i,
    {
        let c = s.get_char(i);
        let cv = c as u32;
        if cv < 48 || cv > 57 {
            return None;
        }
        let d = (cv - 48) as u64;
        acc = acc * 10 + d;
        proof {
            let t = s@.take(i + 1);
            assert(t.drop_last() =~= s@.take(i as int));
            assert(t.last() == s@[i as int]);
        }
        i = i + 1;
        if acc > max as u64 {
            proof {
                if all_dec_digits(s@) {
                    lemma_dec_val_prefix(s@, i as int);
                }
            }
            return None;
        }
    }
    proof {
        assert(s@.take(n as int) =~= s@);
    }
    Some(acc as u32)
}

/// What `parse_dec_strict` accepts: as `parse_dec`, but without leading
/// zeros, so that exactly the canonical rendering of each value is accepted.
pub open spec fn spec_parse_dec_strict(s: Seq<char>, max: int) -> Option<u32> {
    if s.len() > 0 && all_dec_digits(s) && dec_val(s) <= max && (s.len() == 1 || s[0] != '0') {
        Some(dec_val(s) as u32)
    } else {
        None
    }
}

/// Parse a decimal number of at most `max` written canonically (no leading
/// zeros).
pub fn parse_dec_strict(s: &str, max: u32) -> (r: Option<u32>)
    ensures
        r == spec_parse_dec_strict(s@, max as int),
        r is Some ==> r->0 <= max,
{
    let n = s.unicode_len();
    if n > 1 {
        let c0 = s.get_char(0);
        if c0 == '0' {
            return None;
        }
    }
    let r = parse_dec(s, max);
    r
}

/// The one-character string for a digit value below ten.
pub fn digit_str(d: u32) -> (r: &'static str)
    requires
        d < 10,
    ensures
        r@ =~= seq![dec_digit_char(d as int)],
{
    proof {
        reveal_strlit("0");
        reveal_strlit("1");
        reveal_strlit("2");
        reveal_strlit("3");
        reveal_strlit("4");
        reveal_strlit("5");
        reveal_strlit("6");
        reveal_strlit("7");
        reveal_strlit("8");
        reveal_strlit("9");
    }
    match d {
        0 => "0",
        1 => "1",
        2 => "2",
        3 => "3",
        4 => "4",
        5 => "5",
        6 => "6",
        7 => "7",
        8 => "8",
        _ => "9",
    }
}

/// Render a number in canonical decimal form.
pub fn format_u32(n: u32) -> (r: String)
    ensures
        r@ == dec_str(n as int),
    decreases n,
{
    if n < 10 {
        String::from_str(digit_str(n))
    } else {
        let prefix = format_u32(n / 10);
        prefix.concat(digit_str(n % 10))
    }
}

/// `s` split at every occurrence of `sep`; always at least one part, and
/// empty parts are kept, as with an empty input or a trailing separator.
pub open spec fn split_on(s: Seq<char>, sep: char) -> Seq<Seq<char>>
    decreases s.len(),
{
    if s.len() == 0 {
        seq![Seq::<char>::empty()]
    } else {
        let r = split_on(s.drop_last(), sep);
        if s.last() == sep {
            r + seq![Seq::<char>::empty()]
        } else {
            r.update(r.len() - 1, r.last().push(s.last()))
        }
    }
}

pub proof fn lemma_split_on_len(s: Seq<char>, sep: char)
    ensures
        split_on(s, sep).len() >= 1,
    decreases s.len(),
{
    if s.len() > 0 {
        lemma_split_on_len(s.drop_last(), sep);
    }
}

/// The views of the strings in `v`.
pub open spec fn views_of(v: Seq<String>) -> Seq<Seq<char>> {
    v.map_values(|x: String| x@)
}

/// Split a string at every occurrence of `sep`.
pub fn split_str(s: &str, sep: char) -> (r: Vec<String>)
    ensures
        views_of(r@) == split_on(s@, sep),
{
    let n = s.unicode_len();
    let mut parts: Vec<String> = Vec::new();
    let mut cur: String = String::new();
    let mut i: usize = 0;
    proof {
        assert(s@.take(0) =~= Seq::<char>::empty());
        assert(views_of(parts@).push(cur@) =~= split_on(s@.take(0), sep));
    }
    while i < n
        invariant
            0 <= i <= n,
            n == s@.len(),
            views_of(parts@).push(cur@) =~= split_on(s@.take(i as int), sep),
        decreases n - i,
    {
        let c = s.get_char(i);
        proof {
            let t = s@.take(i + 1);
            assert(t.drop_last() =~= s@.take(i as int));
            assert(t.last() == s@[i as int]);
        }
        if c == sep {
            parts.push(cur);
            cur = String::new();
            proof {
                assert(views_of(parts@).push(cur@) =~= split_on(s@.take(i + 1), sep));
            }
        } else {
            push_char(&mut cur, c);
            proof {
                let prev = split_on(s@.take(i as int), sep);
                assert(prev.len() >= 1) by {
                    lemma_split_on_len(s@.take(i as int), sep);
                }
                assert(prev.last() == cur@.drop_last());
                assert(views_of(parts@).push(cur@) =~= split_on(s@.take(i + 1), sep));
            }
        }
        i = i + 1;
    }
    proof {
        assert(s@.take(n as int) =~= s@);
    }
    parts.push(cur);
    proof {
        assert(views_of(parts@) =~= split_on(s@, sep));
    }
    parts
}

/// Index of the first occurrence of `c` in `s`, or -1 when absent.
pub open spec fn find_char(s: Seq<char>, c: char) -> int
    decreases s.len(),
{
    if s.len() == 0 {
        -1
    } else if s[0] == c {
        0
    } else {
        let r = find_char(s.skip(1), c);
        if r < 0 {
            -1
        } else {
            r + 1
        }
    }
}

pub proof fn lemma_find_char(s: Seq<char>, c: char)
    ensures
        find_char(s, c) == -1 ==> (forall|j: int| 0 <= j < s.len() ==> s[j] != c),
        find_char(s, c) >= 0 ==> 0 <= find_char(s, c) < s.len() && s[find_char(s, c)] == c
            && (forall|j: int| 0 <= j < find_char(s, c) ==> s[j] != c),
    decreases s.len(),
{
    if s.len() > 0 && s[0] != c {
        lemma_find_char(s.skip(1), c);
        assert(forall|j: int| 1 <= j < s.len() ==> s[j] == s.skip(1)[j - 1]);
    }
}

/// Locate the first occurrence of `c` in `s`.
pub fn find_in_str(s: &str, c: char) -> (r: Option<usize>)
    ensures
        match r {
            Some(i) => i == find_char(s@, c),
            None => find_char(s@, c) == -1,
        },
{
    let n = s.unicode_len();
    let mut i: usize = 0;
    proof {
        lemma_find_char(s@, c);
    }
    while i < n
        invariant
            0 <= i <= n,
            n == s@.len(),
            forall|j: int| 0 <= j < i ==> s@[j] != c,
            find_char(s@, c) == -1 ==> (forall|j: int| 0 <= j < s@.len() ==> s@[j] != c),
            find_char(s@, c) >= 0 ==> 0 <= find_char(s@, c) < s@.len() && s@[find_char(s@, c)] == c
                && (forall|j: int| 0 <= j < find_char(s@, c) ==> s@[j] != c),
        decreases n - i,
    {
        let ch = s.get_char(i);
        if ch == c {
            return Some(i);
        }
        i = i + 1;
    }
    None
}

/// A space or horizontal tab: the padding accepted around header fields.
pub open spec fn is_space(c: char) -> bool {
    c == ' ' || c == '\t'
}

/// `s` with leading spaces removed.
pub open spec fn trim_start(s: Seq<char>) -> Seq<char>
    decreases s.len(),
{
    if s.len() > 0 && is_space(s[0]) {
        trim_start(s.skip(1))
    } else {
        s
    }
}

/// `s` with trailing spaces removed.
pub open spec fn trim_end(s: Seq<char>) -> Seq<char>
    decreases s.len(),
{
    if s.len() > 0 && is_space(s.last()) {
        trim_end(s.drop_last())
    } else {
        s
    }
}

/// `s` with spaces removed from both ends.
pub open spec fn spec_trim(s: Seq<char>) -> Seq<char> {
    trim_end(trim_start(s))
}

proof fn lemma_trim_start_skip(s: Seq<char>, k: int)
    requires
        0 <= k <= s.len(),
        forall|j: int| 0 <= j < k ==> is_space(s[j]),
    ensures
        trim_start(s) == trim_start(s.skip(k)),
    decreases k,
{
    if k > 0 {
        assert(is_space(s[0]));
        assert(s.skip(1).skip(k - 1) =~= s.skip(k));
        lemma_trim_start_skip(s.skip(1), k - 1);
    } else {
        assert(s.skip(0) =~= s);
    }
}

proof fn lemma_trim_end_take(s: Seq<char>, k: int)
    requires
        0 <= k <= s.len(),
        forall|j: int| k <= j < s.len() ==> is_space(s[j]),
    ensures
        trim_end(s) == trim_end(s.take(k)),
    decreases s.len() - k,
{
    if k < s.len() {
        assert(is_space(s.last()));
        assert(s.drop_last() =~= s.take(s.len() - 1));
        assert(s.take(s.len() - 1).take(k) =~= s.take(k));
        lemma_trim_end_take(s.take(s.len() - 1), k);
    } else {
        assert(s.take(k) =~= s);
    }
}

/// Remove spaces and tabs from both ends of `s`.
pub fn trim_str(s: &str) -> (r: String)
    ensures
        r@ == spec_trim(s@),
{
    let n = s.unicode_len();
    let mut lo: usize = 0;
    while lo < n
        invariant
            0 <= lo <= n,
            n == s@.len(),
            forall|j: int| 0 <= j < lo ==> is_space(s@[j]),
        ensures
            0 <= lo <= n,
            forall|j: int| 0 <= j < lo ==> is_space(s@[j]),
            lo < n ==> !is_space(s@[lo as int]),
        decreases n - lo,
    {
        let c = s.get_char(lo);
        if !(c == ' ' || c == '\t') {
            break;
        }
        lo = lo + 1;
    }
    let mut hi: usize = n;
    while hi > lo
        invariant
            lo <= hi <= n,
            n == s@.len(),
            forall|j: int| hi <= j < n ==> is_space(s@[j]),
        ensures
            lo <= hi <= n,
            forall|j: int| hi <= j < n ==> is_space(s@[j]),
            hi > lo ==> !is_space(s@[hi - 1]),
        decreases hi,
    {
        let c = s.get_char(hi - 1);
        if !(c == ' ' || c == '\t') {
            break;
        }
        hi = hi - 1;
    }
    let part = s.substring_char(lo, hi);
    let r = String::from_str(part);
    proof {
        let m = s@.skip(lo as int);
        lemma_trim_start_skip(s@, lo as int);
        if lo < hi {
            assert(m[0] == s@[lo as int]);
            assert(trim_start(m) == m);
            assert(forall|j: int| hi - lo <= j < m.len() ==> is_space(m[j]));
            lemma_trim_end_take(m, hi - lo);
            assert(m.take(hi - lo).last() == s@[hi - 1]);
            assert(trim_end(m.take(hi - lo)) == m.take(hi - lo));
            assert(r@ =~= m.take(hi - lo));
        } else {
            // hi == lo: every character is a space, so the trimmed form is empty.
            assert(lo == n);
            assert(m =~= Seq::<char>::empty());
            assert(r@ =~= Seq::<char>::empty());
        }
    }
    r
}

/// Compare two strings by their characters.
pub fn str_eq(a: &str, b: &str) -> (r: bool)
    ensures
        r == (a@ == b@),
{
    let sa = String::from_str(a);
    let sb = String::from_str(b);
    sa.eq(&sb)
}

/// Append one character to a string. Relies on `String::push`, which vstd
/// leaves unspecified: the documentation says it appends the given character.
#[verifier::external_body]
pub fn push_char(s: &mut String, c: char)
    ensures
        final(s)@ == old(s)@.push(c),
{
    s.push(c);
}

} // verus!

