//! Character-level helpers shared by the protocol and HTTP modules:
//! decimal rendering and parsing, prefix/suffix tests, and the two std
//! string operations that vstd does not specify.
use vstd::prelude::*;

verus! {

/// Whether both strings hold the same characters, as `str == str` answers.
pub fn str_eq(a: &str, b: &str) -> (res: bool)
    ensures
        res == (a@ == b@),
{
    let ca = chars_of(a);
    let cb = chars_of(b);
    if ca.len() != cb.len() {
        return false;
    }
    let mut i: usize = 0;
    while i < ca.len()
        invariant
            ca@ == a@,
            cb@ == b@,
            ca@.len() == cb@.len(),
            i <= ca@.len(),
            forall|j: int| 0 <= j < i ==> ca@[j] == cb@[j],
        decreases ca@.len() - i,
    {
        if ca[i] != cb[i] {
            return false;
        }
        i = i + 1;
    }
    assert(a@ =~= b@);
    true
}

/// `std`'s `String::push`: appends one character.
#[verifier::external_body]
pub fn push_char(s: &mut String, c: char)
    ensures
        final(s)@ == old(s)@.push(c),
{
    s.push(c)
}

/// The characters of `s`, in order.
pub fn chars_of(s: &str) -> (res: Vec<char>)
    ensures
        res@ == s@,
{
    let mut res: Vec<char> = Vec::new();
    for c in it: s.chars()
        invariant
            res@ == it.seq().take(it.index() as int),
    {
        res.push(c);
    }
    res
}

/// A `String` holding exactly the given characters.
pub fn string_of(cs: &[char]) -> (res: String)
    ensures
        res@ == cs@,
{
    let mut res = String::new();
    let mut i: usize = 0;
    while i < cs.len()
        invariant
            i <= cs@.len(),
            res@ == cs@.take(i as int),
        decreases cs@.len() - i,
    {
        push_char(&mut res, cs[i]);
        i = i + 1;
        assert(res@ =~= cs@.take(i as int));
    }
    assert(cs@.take(cs@.len() as int) =~= cs@);
    res
}

/// Appends the characters of `t` to `s`.
pub fn push_str(s: &mut String, t: &str)
    ensures
        final(s)@ == old(s)@ + t@,
{
    let cs = chars_of(t);
    let mut i: usize = 0;
    while i < cs.len()
        invariant
            i <= cs@.len(),
            cs@ == t@,
            s@ == old(s)@ + cs@.take(i as int),
        decreases cs@.len() - i,
    {
        push_char(s, cs[i]);
        i = i + 1;
        assert(s@ =~= old(s)@ + cs@.take(i as int));
    }
    assert(cs@.take(cs@.len() as int) =~= cs@);
}

/// The ASCII digit for a value below ten.
pub open spec fn digit_char(d: int) -> char {
    (d + 48) as char
}

/// The value of an ASCII digit character.
pub open spec fn digit_value(c: char) -> int {
    c as int - 48
}

pub open spec fn is_digit(c: char) -> bool {
    '0' <= c && c <= '9'
}

/// The shortest decimal rendering of `n` (no sign, no leading zeros).
pub open spec fn decimal(n: nat) -> Seq<char>
    decreases n,
{
    if n < 10 {
        seq![digit_char(n as int)]
    } else {
        decimal(n / 10).push(digit_char((n % 10) as int))
    }
}

/// `s` is a non-empty run of ASCII digits.
pub open spec fn all_digits(s: Seq<char>) -> bool {
    s.len() > 0 && forall|i: int| 0 <= i < s.len() ==> is_digit(#[trigger] s[i])
}

/// The value of a run of ASCII digits, read most significant first.
pub open spec fn digits_value(s: Seq<char>) -> nat
    decreases s.len(),
{
    if s.len() == 0 {
        0
    } else {
        (digits_value(s.drop_last()) * 10 + digit_value(s.last())) as nat
    }
}

/// What `usize::from_str` accepts: an optional `+`, then one or more ASCII
/// digits whose value fits in a `usize`.
pub open spec fn unsigned_digits(s: Seq<char>) -> Seq<char> {
    if s.len() > 0 && s[0] == '+' {
        s.skip(1)
    } else {
        s
    }
}

pub open spec fn parses_as_usize(s: Seq<char>) -> bool {
    all_digits(unsigned_digits(s)) && digits_value(unsigned_digits(s)) <= usize::MAX
}

pub open spec fn usize_value(s: Seq<char>) -> nat {
    digits_value(unsigned_digits(s))
}

proof fn lemma_digit_char(d: int)
    requires
        0 <= d < 10,
    ensures
        is_digit(digit_char(d)),
        digit_value(digit_char(d)) == d,
{
}

pub proof fn lemma_decimal_digits(n: nat)
    ensures
        all_digits(decimal(n)),
        digits_value(decimal(n)) == n,
        decimal(n).len() >= 1,
        decimal(n)[0] != '+',
    decreases n,
{
    lemma_digit_char((n % 10) as int);
    if n < 10 {
        assert(decimal(n).drop_last() =~= Seq::<char>::empty());
        assert(digits_value(Seq::<char>::empty()) == 0);
    } else {
        lemma_decimal_digits(n / 10);
        let d = decimal(n);
        assert(d.drop_last() =~= decimal(n / 10));
        assert(d.last() == digit_char((n % 10) as int));
        assert(digits_value(d) == digits_value(decimal(n / 10)) * 10 + digit_value(d.last()));
        assert((n / 10) * 10 + n % 10 == n);
        assert forall|i: int| 0 <= i < d.len() implies is_digit(#[trigger] d[i]) by {
            if i < d.len() - 1 {
                assert(d[i] == decimal(n / 10)[i]);
            }
        }
    }
}

/// Parsing the decimal rendering of any value gives the value back.
pub proof fn lemma_decimal_round_trip(n: nat)
    requires
        n <= usize::MAX,
    ensures
        parses_as_usize(decimal(n)),
        usize_value(decimal(n)) == n,
{
    lemma_decimal_digits(n);
}

/// Appends the decimal rendering of `n`.
pub fn push_decimal(s: &mut String, n: u64)
    ensures
        final(s)@ == old(s)@ + decimal(n as nat),
    decreases n,
{
    if n >= 10 {
        push_decimal(s, n / 10);
    }
    let d: u8 = (n % 10) as u8;
    push_char(s, (d + 48u8) as char);
    assert(s@ =~= old(s)@ + decimal(n as nat));
}

/// The decimal rendering of `n`, as `n.to_string()` writes it.
pub fn decimal_string(n: u64) -> (res: String)
    ensures
        res@ == decimal(n as nat),
{
    let mut s = String::new();
    push_decimal(&mut s, n);
    assert(s@ =~= decimal(n as nat));
    s
}

/// Parses `cs` as `str::parse::<usize>` does.
pub fn parse_usize(cs: &[char]) -> (res: Option<usize>)
    ensures
        res is Some <==> parses_as_usize(cs@),
        res matches Some(v) ==> v == usize_value(cs@),
{
    let start: usize = if cs.len() > 0 && cs[0] == '+' { 1 } else { 0 };
    let ghost ds = unsigned_digits(cs@);
    assert(ds =~= cs@.skip(start as int));
    if start == cs.len() {
        return None;
    }
    let mut value: usize = 0;
    let mut i: usize = start;
    while i < cs.len()
        invariant
            start <= i <= cs@.len(),
            start < cs@.len(),
            ds == cs@.skip(start as int),
            ds == unsigned_digits(cs@),
            value == digits_value(ds.take(i - start)),
            forall|j: int| 0 <= j < i - start ==> is_digit(#[trigger] ds[j]),
        decreases cs@.len() - i,
    {
        let c = cs[i];
        if !('0' <= c && c <= '9') {
            assert(!is_digit(ds[i - start]));
            assert(!all_digits(ds));
            return None;
        }
        assert(ds.take(i - start + 1).drop_last() =~= ds.take(i - start));
        let d: usize = (c as u32 - 48) as usize;
        match value.checked_mul(10) {
            Some(m) => match m.checked_add(d) {
                Some(v) => {
                    value = v;
                },
                None => {
                    proof { lemma_digits_value_prefix_bound(ds, i - start + 1); }
                    return None;
                },
            },
            None => {
                proof { lemma_digits_value_prefix_bound(ds, i - start + 1); }
                return None;
            },
        }
        i = i + 1;
    }
    assert(ds.take(i - start) =~= ds);
    Some(value)
}

/// A run of digits is worth at least as much as any of its prefixes.
proof fn lemma_digits_value_prefix_bound(s: Seq<char>, k: int)
    requires
        0 < k <= s.len(),
    ensures
        all_digits(s) ==> digits_value(s) >= digits_value(s.take(k)),
    decreases s.len(),
{
    if k < s.len() && all_digits(s) {
        assert(s.drop_last().take(k) =~= s.take(k));
        assert forall|j: int| 0 <= j < s.drop_last().len() implies is_digit(
            #[trigger] s.drop_last()[j],
        ) by {
            assert(s.drop_last()[j] == s[j]);
        }
        lemma_digits_value_prefix_bound(s.drop_last(), k);
        assert(is_digit(s[s.len() - 1]));
    } else if k == s.len() {
        assert(s.take(k) =~= s);
    }
}

/// `s` begins with `p`.
pub open spec fn has_prefix(s: Seq<char>, p: Seq<char>) -> bool {
    p.len() <= s.len() && s.take(p.len() as int) == p
}

/// `s` ends with `p`.
pub open spec fn has_suffix(s: Seq<char>, p: Seq<char>) -> bool {
    p.len() <= s.len() && s.skip(s.len() - p.len()) == p
}

/// Whether `s` begins with `p`.
pub fn starts_with(s: &[char], p: &[char]) -> (res: bool)
    ensures
        res == has_prefix(s@, p@),
{
    if p.len() > s.len() {
        return false;
    }
    let mut i: usize = 0;
    while i < p.len()
        invariant
            p@.len() <= s@.len(),
            i <= p@.len(),
            forall|j: int| 0 <= j < i ==> s@[j] == p@[j],
        decreases p@.len() - i,
    {
        if s[i] != p[i] {
            assert(s@.take(p@.len() as int)[i as int] != p@[i as int]);
            return false;
        }
        i = i + 1;
    }
    assert(s@.take(p@.len() as int) =~= p@);
    true
}

/// Whether `s` ends with `p`.
pub fn ends_with(s: &[char], p: &[char]) -> (res: bool)
    ensures
        res == has_suffix(s@, p@),
{
    if p.len() > s.len() {
        return false;
    }
    let off = s.len() - p.len();
    let mut i: usize = 0;
    while i < p.len()
        invariant
            p@.len() <= s@.len(),
            p@.len() == p.len(),
            s@.len() == s.len(),
            off == s@.len() - p@.len(),
            i <= p@.len(),
            forall|j: int| 0 <= j < i ==> s@[off + j] == p@[j],
        decreases p@.len() - i,
    {
        if s[off + i] != p[i] {
            assert(s@.skip(off as int)[i as int] != p@[i as int]);
            return false;
        }
        i = i + 1;
    }
    assert(s@.skip(off as int) =~= p@);
    true
}

/// `p` occurs somewhere in `s`.
pub open spec fn contains_text(s: Seq<char>, p: Seq<char>) -> bool {
    exists|k: int| 0 <= k && k + p.len() <= s.len() && #[trigger] s.subrange(k, k + p.len()) == p
}

/// Whether `p` occurs in `s` at position `k`.
pub fn occurs_at(s: &[char], p: &[char], k: usize) -> (res: bool)
    requires
        k + p@.len() <= s@.len(),
    ensures
        res == (s@.subrange(k as int, k + p@.len()) == p@),
{
    let mut i: usize = 0;
    while i < p.len()
        invariant
            k + p@.len() <= s@.len(),
            s@.len() == s.len(),
            p@.len() == p.len(),
            i <= p@.len(),
            forall|j: int| 0 <= j < i ==> s@[k + j] == p@[j],
        decreases p@.len() - i,
    {
        if s[k + i] != p[i] {
            assert(s@.subrange(k as int, k + p@.len())[i as int] != p@[i as int]);
            return false;
        }
        i = i + 1;
    }
    assert(s@.subrange(k as int, k + p@.len()) =~= p@);
    true
}

/// `str::contains`: whether `p` occurs in `s`.
pub fn contains(s: &[char], p: &[char]) -> (res: bool)
    ensures
        res == contains_text(s@, p@),
{
    if p.len() > s.len() {
        return false;
    }
    if p.len() == 0 {
        assert(s@.subrange(0int, 0int + p@.len()) =~= p@);
        return true;
    }
    let last = s.len() - p.len();
    let mut k: usize = 0;
    while k <= last
        invariant
            last == s@.len() - p@.len(),
            0 < p@.len() <= s@.len(),
            s@.len() == s.len(),
            k <= last + 1,
            forall|j: int| 0 <= j < k ==> #[trigger] s@.subrange(j, j + p@.len()) != p@,
        decreases last + 1 - k,
    {
        if occurs_at(s, p, k) {
            return true;
        }
        k = k + 1;
    }
    false
}

} // verus!
