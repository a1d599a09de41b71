//! The byte-range side of the clip server: reading a `Range` header and
//! deciding what part of a video file a request is answered with.
use vstd::prelude::*;
use vstd::slice::slice_subrange;
use crate::text::{
    lemma_decimal_digits, lemma_decimal_round_trip, all_digits,
    chars_of, decimal, has_prefix, parse_usize, parses_as_usize, push_char, push_decimal, starts_with,
    string_of, usize_value,
};

verus! {

/// The index of the first occurrence of `c` in `s`.
pub open spec fn first_index_of(s: Seq<char>, c: char) -> Option<int>
    decreases s.len(),
{
    if s.len() == 0 {
        None
    } else if s[0] == c {
        Some(0)
    } else {
        match first_index_of(s.drop_first(), c) {
            Some(i) => Some(i + 1),
            None => None,
        }
    }
}

pub proof fn lemma_first_index_of(s: Seq<char>, c: char)
    ensures
        first_index_of(s, c) matches Some(i) ==> 0 <= i < s.len() && s[i] == c && forall|j: int|
            0 <= j < i ==> s[j] != c,
        first_index_of(s, c) is None ==> forall|j: int| 0 <= j < s.len() ==> s[j] != c,
    decreases s.len(),
{
    if s.len() > 0 {
        lemma_first_index_of(s.drop_first(), c);
        if s[0] != c {
            assert forall|j: int| 1 <= j < s.len() implies s[j] == s.drop_first()[j - 1] by {}
        }
    }
}

/// The header prefix that every accepted range begins with.
pub open spec fn range_prefix() -> Seq<char> {
    seq!['b', 'y', 't', 'e', 's', '=']
}

/// What `parse_byte_range` reads from a header value: `bytes=START-END`,
/// with `END` optional, each number as `usize::from_str` accepts it; the
/// split is at the first `-`.
pub open spec fn byte_range_of(value: Seq<char>) -> Option<(usize, Option<usize>)> {
    if !has_prefix(value, range_prefix()) {
        None
    } else {
        let spec = value.skip(6);
        match first_index_of(spec, '-') {
            None => None,
            Some(i) => {
                let a = spec.take(i);
                let b = spec.skip(i + 1);
                if !parses_as_usize(a) {
                    None
                } else if b.len() == 0 {
                    Some((usize_value(a) as usize, None))
                } else if parses_as_usize(b) {
                    Some((usize_value(a) as usize, Some(usize_value(b) as usize)))
                } else {
                    None
                }
            },
        }
    }
}

fn range_prefix_chars() -> (res: Vec<char>)
    ensures
        res@ == range_prefix(),
{
    let res = vec!['b', 'y', 't', 'e', 's', '='];
    assert(res@ =~= range_prefix());
    res
}

/// Reads `bytes=start-end` (end optional). Multi-range requests are not
/// supported: everything after the first `-` must be one number.
pub fn parse_byte_range(value: &str) -> (res: Option<(usize, Option<usize>)>)
    ensures
        res == byte_range_of(value@),
{
    let cs = chars_of(value);
    let prefix = range_prefix_chars();
    if !starts_with(&cs, &prefix) {
        return None;
    }
    let ghost spec = cs@.skip(6);
    proof {
        lemma_first_index_of(spec, '-');
    }
    let mut i: usize = 6;
    while i < cs.len() && cs[i] != '-'
        invariant
            6 <= i <= cs@.len(),
            spec == cs@.skip(6),
            forall|j: int| 6 <= j < i ==> cs@[j] != '-',
        decreases cs@.len() - i,
    {
        i = i + 1;
    }
    if i == cs.len() {
        assert forall|j: int| 0 <= j < spec.len() implies spec[j] != '-' by {
            assert(spec[j] == cs@[j + 6]);
        }
        proof {
            if first_index_of(spec, '-') is Some {
                let k = first_index_of(spec, '-')->0;
                assert(spec[k] == '-');
            }
        }
        return None;
    }
    proof {
        let k = (i - 6) as int;
        assert(spec[k] == '-');
        match first_index_of(spec, '-') {
            Some(m) => {
                if m < k {
                    assert(spec[m] == cs@[m + 6]);
                } else if m > k {
                    assert(spec[k] != '-');
                }
            },
            None => {},
        }
        assert(first_index_of(spec, '-') == Some(k));
    }
    let a = slice_subrange(cs.as_slice(), 6, i);
    let b = slice_subrange(cs.as_slice(), i + 1, cs.len());
    assert(a@ =~= spec.take(i - 6));
    assert(b@ =~= spec.skip(i - 6 + 1));
    let start = match parse_usize(a) {
        Some(s) => s,
        None => return None,
    };
    if b.len() == 0 {
        return Some((start, None));
    }
    match parse_usize(b) {
        Some(e) => Some((start, Some(e))),
        None => None,
    }
}

/// How a request for a video file is answered.
#[derive(PartialEq, Eq, Structural, Debug, Clone, Copy)]
pub enum RangeReply {
    /// `200 OK` with the whole file.
    Whole,
    /// `206 Partial Content` with bytes `start..=end`.
    Partial { start: usize, end: usize },
    /// `416 Range Not Satisfiable`.
    Unsatisfiable,
}

/// The last valid index of a file of `total` bytes, or 0 for an empty file.
pub open spec fn last_index(total: usize) -> usize {
    if total == 0 {
        0
    } else {
        (total - 1) as usize
    }
}

/// The answer to a parsed range over a file of `total` bytes: an open end
/// means the end of the file, an end past the file is clamped to it, and a
/// start past the (clamped) end or past the file cannot be served.
pub open spec fn range_reply(range: Option<(usize, Option<usize>)>, total: usize) -> RangeReply {
    match range {
        None => RangeReply::Whole,
        Some((start, end)) => {
            let wanted = match end {
                Some(e) => e,
                None => last_index(total),
            };
            let end_incl = if wanted < last_index(total) {
                wanted
            } else {
                last_index(total)
            };
            if start > end_incl || start >= total {
                RangeReply::Unsatisfiable
            } else {
                RangeReply::Partial { start, end: end_incl }
            }
        },
    }
}

/// Decides the reply for a parsed range over a file of `total` bytes.
pub fn resolve_range(range: Option<(usize, Option<usize>)>, total: usize) -> (res: RangeReply)
    ensures
        res == range_reply(range, total),
        res matches RangeReply::Partial { start, end } ==> start <= end < total,
{
    match range {
        None => RangeReply::Whole,
        Some((start, end)) => {
            let last = total.saturating_sub(1);
            let wanted = match end {
                Some(e) => e,
                None => last,
            };
            let end_incl = if wanted < last {
                wanted
            } else {
                last
            };
            if start > end_incl || start >= total {
                RangeReply::Unsatisfiable
            } else {
                RangeReply::Partial { start, end: end_incl }
            }
        },
    }
}

/// The reply to a request for a file of `total` bytes that carried the
/// given `Range` header (if any, and if it was visible ASCII): a header that
/// does not parse is ignored and the whole file is sent.
pub fn plan_video_reply(range_header: Option<&str>, total: usize) -> (res: RangeReply)
    ensures
        res == range_reply(
            match range_header {
                Some(h) => byte_range_of(h@),
                None => None,
            },
            total,
        ),
        res matches RangeReply::Partial { start, end } ==> start <= end < total,
{
    let range = match range_header {
        Some(h) => parse_byte_range(h),
        None => None,
    };
    resolve_range(range, total)
}

/// `Content-Range` of a partial reply: `bytes START-END/TOTAL`.
pub open spec fn content_range_text(start: usize, end: usize, total: usize) -> Seq<char> {
    seq!['b', 'y', 't', 'e', 's', ' '] + decimal(start as nat) + seq!['-'] + decimal(
        end as nat,
    ) + seq!['/'] + decimal(total as nat)
}

/// `Content-Range` of an unsatisfiable reply: `bytes */TOTAL`.
pub open spec fn unsatisfied_range_text(total: usize) -> Seq<char> {
    seq!['b', 'y', 't', 'e', 's', ' ', '*', '/'] + decimal(total as nat)
}

pub fn content_range(start: usize, end: usize, total: usize) -> (res: String)
    ensures
        res@ == content_range_text(start, end, total),
{
    let mut s = string_of(&['b', 'y', 't', 'e', 's', ' ']);
    push_decimal(&mut s, start as u64);
    push_char(&mut s, '-');
    push_decimal(&mut s, end as u64);
    push_char(&mut s, '/');
    push_decimal(&mut s, total as u64);
    assert(s@ =~= content_range_text(start, end, total));
    s
}

pub fn unsatisfied_range(total: usize) -> (res: String)
    ensures
        res@ == unsatisfied_range_text(total),
{
    let mut s = string_of(&['b', 'y', 't', 'e', 's', ' ', '*', '/']);
    push_decimal(&mut s, total as u64);
    assert(s@ =~= unsatisfied_range_text(total));
    s
}

/// The header text that asks for bytes `start..=end`.
pub open spec fn range_request_text(start: nat, end: Option<nat>) -> Seq<char> {
    range_prefix() + decimal(start) + seq!['-'] + match end {
        Some(e) => decimal(e),
        None => Seq::empty(),
    }
}

/// Reading back a header written as `bytes=START-END` (or `bytes=START-`)
/// gives the range it was written from.
pub proof fn law_byte_range_round_trip(start: usize, end: Option<usize>)
    ensures
        byte_range_of(
            range_request_text(
                start as nat,
                match end {
                    Some(e) => Some(e as nat),
                    None => None,
                },
            ),
        ) == Some((start, end)),
{
    let ghost e = match end {
        Some(e) => Some(e as nat),
        None => None,
    };
    let ghost da = decimal(start as nat);
    let ghost db = match e {
        Some(x) => decimal(x),
        None => Seq::<char>::empty(),
    };
    let ghost v = range_request_text(start as nat, e);
    assert(v =~= range_prefix() + (da + seq!['-'] + db));
    assert(v.take(6) =~= range_prefix());
    let ghost spec = v.skip(6);
    assert(spec =~= da + seq!['-'] + db);
    lemma_decimal_round_trip(start as nat);
    lemma_decimal_digits(start as nat);
    let k = da.len() as int;
    assert(spec[k] == '-');
    assert forall|j: int| 0 <= j < k implies spec[j] != '-' by {
        assert(spec[j] == da[j]);
        assert(all_digits(da));
    }
    lemma_first_index_of(spec, '-');
    match first_index_of(spec, '-') {
        Some(m) => {
            if m > k {
                assert(spec[k] == '-');
            }
        },
        None => {},
    }
    assert(first_index_of(spec, '-') == Some(k));
    assert(spec.take(k) =~= da);
    assert(spec.skip(k + 1) =~= db);
    match end {
        Some(x) => {
            lemma_decimal_round_trip(x as nat);
            lemma_decimal_digits(x as nat);
        },
        None => {},
    }
}

} // verus!
