//! What the ffmpeg invocations are built from and what is read back out of
//! ffmpeg's diagnostic output. Running ffmpeg, and reading numbers with a
//! fractional part, happen elsewhere.
use vstd::prelude::*;
use crate::text::{chars_of, decimal, occurs_at, push_decimal, push_str, string_of};

verus! {

/// The filter graph that draws a `width`×`height` waveform picture of the
/// audio and measures its peak level in the same pass.
pub open spec fn waveform_filter_text(width: u32, height: u32) -> Seq<char> {
    "[0:a]asplit=2[w][v];[w]showwavespic=s="@ + decimal(width as nat) + "x"@ + decimal(height as nat)
        + ":colors=0x6ea8ff:scale=sqrt:filter=peak[wave];[v]volumedetect[vd]"@
}

pub fn waveform_filter(width: u32, height: u32) -> (res: String)
    ensures
        res@ == waveform_filter_text(width, height),
{
    let mut s = "[0:a]asplit=2[w][v];[w]showwavespic=s=".to_owned();
    push_decimal(&mut s, width as u64);
    push_str(&mut s, "x");
    push_decimal(&mut s, height as u64);
    push_str(&mut s, ":colors=0x6ea8ff:scale=sqrt:filter=peak[wave];[v]volumedetect[vd]");
    s
}

/// `s` split at every `\n` (always one more piece than there are `\n`s).
pub open spec fn pieces(s: Seq<char>) -> Seq<Seq<char>>
    decreases s.len(),
{
    if s.len() == 0 {
        seq![Seq::empty()]
    } else {
        let rest = pieces(s.drop_last());
        if s.last() == '\n' {
            rest.push(Seq::empty())
        } else {
            rest.update(rest.len() - 1, rest.last().push(s.last()))
        }
    }
}

/// A line without the `\r` of a `\r\n` ending.
pub open spec fn strip_cr(l: Seq<char>) -> Seq<char> {
    if l.len() > 0 && l.last() == '\r' {
        l.drop_last()
    } else {
        l
    }
}

/// `str::lines`: the lines of `s`, each ended by `\n` or `\r\n`; the last
/// line ending is optional, and a last line without one keeps any `\r`.
pub open spec fn lines(s: Seq<char>) -> Seq<Seq<char>> {
    let p = pieces(s);
    let n = if p.last().len() == 0 {
        p.len() - 1
    } else {
        p.len() as int
    };
    Seq::new(n as nat, |i: int| if i < p.len() - 1 { strip_cr(p[i]) } else { p[i] })
}

proof fn lemma_pieces_len(s: Seq<char>)
    ensures
        pieces(s).len() >= 1,
    decreases s.len(),
{
    if s.len() > 0 {
        lemma_pieces_len(s.drop_last());
    }
}

fn strip_cr_exec(l: Vec<char>) -> (res: Vec<char>)
    ensures
        res@ == strip_cr(l@),
{
    let mut l = l;
    if l.len() > 0 && l[l.len() - 1] == '\r' {
        l.pop();
    }
    l
}

/// The lines of `text`, as `str::lines` splits it.
pub fn lines_of(text: &str) -> (res: Vec<Vec<char>>)
    ensures
        res@.len() == lines(text@).len(),
        forall|i: int| 0 <= i < res@.len() ==> #[trigger] res@[i]@ == lines(text@)[i],
{
    let cs = chars_of(text);
    let mut done: Vec<Vec<char>> = Vec::new();
    let mut cur: Vec<char> = Vec::new();
    let mut i: usize = 0;
    while i < cs.len()
        invariant
            i <= cs@.len(),
            cs@ == text@,
            pieces(cs@.take(i as int)).len() == done@.len() + 1,
            cur@ == pieces(cs@.take(i as int)).last(),
            forall|j: int| 0 <= j < done@.len() ==> #[trigger] done@[j]@ == strip_cr(pieces(cs@.take(i as int))[j]),
        decreases cs@.len() - i,
    {
        let c = cs[i];
        let ghost before = pieces(cs@.take(i as int));
        proof {
            lemma_pieces_len(cs@.take(i as int));
            assert(cs@.take(i + 1).drop_last() =~= cs@.take(i as int));
            assert(cs@.take(i + 1).last() == c);
        }
        if c == '\n' {
            let finished = strip_cr_exec(cur);
            done.push(finished);
            cur = Vec::new();
            proof {
                assert(pieces(cs@.take(i + 1)) == before.push(Seq::<char>::empty()));
                assert forall|j: int| 0 <= j < done@.len() implies #[trigger] done@[j]@ == strip_cr(
                    pieces(cs@.take(i + 1))[j],
                ) by {
                    if j < done@.len() - 1 {
                        assert(pieces(cs@.take(i + 1))[j] == before[j]);
                    }
                }
            }
        } else {
            cur.push(c);
            proof {
                let after = pieces(cs@.take(i + 1));
                assert(after == before.update(before.len() - 1, before.last().push(c)));
                assert forall|j: int| 0 <= j < done@.len() implies #[trigger] done@[j]@ == strip_cr(
                    after[j],
                ) by {
                    assert(after[j] == before[j]);
                }
                assert(cur@ =~= after.last());
            }
        }
        i = i + 1;
    }
    assert(cs@.take(cs@.len() as int) =~= cs@);
    proof {
        lemma_pieces_len(cs@);
    }
    if cur.len() > 0 {
        done.push(cur);
    }
    done
}

/// `items` joined with `sep` between them.
pub open spec fn joined(items: Seq<Seq<char>>, sep: Seq<char>) -> Seq<char>
    decreases items.len(),
{
    if items.len() == 0 {
        Seq::empty()
    } else if items.len() == 1 {
        items[0]
    } else {
        joined(items.drop_last(), sep) + sep + items.last()
    }
}

/// The last (up to) four lines of ffmpeg's output, newest first, joined by
/// ` | `: the part of a failure worth showing.
pub open spec fn failure_tail_text(output: Seq<char>) -> Seq<char> {
    let l = lines(output);
    let k = if l.len() < 4 {
        l.len() as int
    } else {
        4
    };
    joined(Seq::new(k as nat, |i: int| l[l.len() - 1 - i]), " | "@)
}

pub fn failure_tail(output: &str) -> (res: String)
    ensures
        res@ == failure_tail_text(output@),
{
    let ls = lines_of(output);
    let ghost l = lines(output@);
    let k: usize = if ls.len() < 4 { ls.len() } else { 4 };
    let ghost parts = Seq::new(k as nat, |i: int| l[l.len() - 1 - i]);
    let mut s = String::new();
    let mut i: usize = 0;
    while i < k
        invariant
            i <= k <= ls@.len(),
            ls@.len() == l.len(),
            forall|j: int| 0 <= j < ls@.len() ==> #[trigger] ls@[j]@ == l[j],
            parts == Seq::new(k as nat, |j: int| l[l.len() - 1 - j]),
            s@ == joined(parts.take(i as int), " | "@),
        decreases k - i,
    {
        let ghost prev = s@;
        if i > 0 {
            push_str(&mut s, " | ");
        }
        let line = &ls[ls.len() - 1 - i];
        let piece = string_of(line.as_slice());
        push_str(&mut s, piece.as_str());
        proof {
            assert(parts.take(i + 1).drop_last() =~= parts.take(i as int));
            assert(parts.take(i + 1).last() == l[l.len() - 1 - i]);
            if i == 0 {
                assert(parts.take(1) =~= seq![parts[0]]);
                assert(s@ =~= joined(parts.take(1), " | "@));
            } else {
                assert(s@ =~= joined(parts.take(i + 1), " | "@));
            }
        }
        i = i + 1;
    }
    assert(parts.take(k as int) =~= parts);
    s
}

/// The Unicode `White_Space` property (PropList.txt): tab through carriage
/// return, space, next line, no-break space, ogham space mark, the spaces
/// U+2000 to U+200A, line and paragraph separators, narrow no-break space,
/// medium mathematical space and ideographic space.
pub open spec fn is_white_space(c: char) -> bool {
    ||| '\u{9}' <= c && c <= '\u{d}'
    ||| c == ' '
    ||| c == '\u{85}'
    ||| c == '\u{a0}'
    ||| c == '\u{1680}'
    ||| '\u{2000}' <= c && c <= '\u{200a}'
    ||| c == '\u{2028}'
    ||| c == '\u{2029}'
    ||| c == '\u{202f}'
    ||| c == '\u{205f}'
    ||| c == '\u{3000}'
}

/// `char::is_whitespace`: whether `c` has the `White_Space` property.
fn char_is_whitespace(c: char) -> (res: bool)
    ensures
        res == is_white_space(c),
{
    ('\u{9}' <= c && c <= '\u{d}') || c == ' ' || c == '\u{85}' || c == '\u{a0}' || c
        == '\u{1680}' || ('\u{2000}' <= c && c <= '\u{200a}') || c == '\u{2028}' || c
        == '\u{2029}' || c == '\u{202f}' || c == '\u{205f}' || c == '\u{3000}'
}

/// Where `p` first occurs in `s`.
pub open spec fn first_occurrence(s: Seq<char>, p: Seq<char>) -> Option<int>
    decreases s.len(),
{
    if p.len() > s.len() {
        None
    } else if s.take(p.len() as int) == p {
        Some(0)
    } else if s.len() == 0 {
        None
    } else {
        match first_occurrence(s.drop_first(), p) {
            Some(k) => Some(k + 1),
            None => None,
        }
    }
}

proof fn lemma_first_occurrence(s: Seq<char>, p: Seq<char>)
    ensures
        first_occurrence(s, p) matches Some(k) ==> 0 <= k && k + p.len() <= s.len(),
    decreases s.len(),
{
    if p.len() <= s.len() && s.take(p.len() as int) != p && s.len() > 0 {
        lemma_first_occurrence(s.drop_first(), p);
    }
}

/// Where `p` first occurs in `s` at or after `from`.
fn find_from(s: &[char], p: &[char], from: usize) -> (res: Option<usize>)
    requires
        from <= s@.len(),
    ensures
        match first_occurrence(s@.skip(from as int), p@) {
            Some(k) => res == Some((from + k) as usize),
            None => res is None,
        },
        res matches Some(k) ==> from <= k && k + p@.len() <= s@.len(),
    decreases s@.len() - from,
{
    let ghost rest = s@.skip(from as int);
    proof {
        lemma_first_occurrence(rest, p@);
    }
    if p.len() > s.len() - from {
        return None;
    }
    if occurs_at(s, p, from) {
        assert(rest.take(p@.len() as int) =~= s@.subrange(from as int, from + p@.len()));
        return Some(from);
    }
    assert(rest.take(p@.len() as int) =~= s@.subrange(from as int, from + p@.len()));
    if from == s.len() {
        return None;
    }
    assert(rest.drop_first() =~= s@.skip(from + 1));
    find_from(s, p, from + 1)
}

/// `s` without leading and trailing white space (`str::trim`).
pub open spec fn trim_start(s: Seq<char>) -> Seq<char>
    decreases s.len(),
{
    if s.len() > 0 && is_white_space(s[0]) {
        trim_start(s.drop_first())
    } else {
        s
    }
}

pub open spec fn trim_end(s: Seq<char>) -> Seq<char>
    decreases s.len(),
{
    if s.len() > 0 && is_white_space(s.last()) {
        trim_end(s.drop_last())
    } else {
        s
    }
}

/// `s` without any number of trailing ` dB` (`str::trim_end_matches`).
pub open spec fn strip_db(s: Seq<char>) -> Seq<char>
    decreases s.len(),
{
    if s.len() >= 3 && s.skip(s.len() - 3) == " dB"@ {
        strip_db(s.take(s.len() - 3))
    } else {
        s
    }
}

pub open spec fn volume_marker() -> Seq<char> {
    "max_volume:"@
}

/// The level text a line reports: what follows the first `max_volume:` (up
/// to any further one), trimmed and without its ` dB` unit.
pub open spec fn volume_text(line: Seq<char>) -> Option<Seq<char>> {
    match first_occurrence(line, volume_marker()) {
        None => None,
        Some(k) => {
            let after = line.skip(k + volume_marker().len());
            let field = match first_occurrence(after, volume_marker()) {
                Some(j) => after.take(j),
                None => after,
            };
            Some(strip_db(trim_end(trim_start(field))))
        },
    }
}

/// The level texts of all lines that report one, in order; the first that
/// reads as a number is the clip's peak level.
pub open spec fn volume_texts(ls: Seq<Seq<char>>) -> Seq<Seq<char>>
    decreases ls.len(),
{
    if ls.len() == 0 {
        Seq::empty()
    } else {
        match volume_text(ls.last()) {
            Some(t) => volume_texts(ls.drop_last()).push(t),
            None => volume_texts(ls.drop_last()),
        }
    }
}

fn trimmed_field(cs: &[char], lo: usize, hi: usize) -> (res: Vec<char>)
    requires
        lo <= hi <= cs@.len(),
    ensures
        res@ == strip_db(trim_end(trim_start(cs@.subrange(lo as int, hi as int)))),
{
    let mut a = lo;
    while a < hi && char_is_whitespace(cs[a])
        invariant
            lo <= a <= hi <= cs@.len(),
            trim_start(cs@.subrange(lo as int, hi as int)) == trim_start(
                cs@.subrange(a as int, hi as int),
            ),
        decreases hi - a,
    {
        assert(cs@.subrange(a as int, hi as int).drop_first() =~= cs@.subrange(a + 1, hi as int));
        a = a + 1;
    }
    let mut b = hi;
    while b > a && char_is_whitespace(cs[b - 1])
        invariant
            a <= b <= hi <= cs@.len(),
            trim_end(cs@.subrange(a as int, hi as int)) == trim_end(cs@.subrange(a as int, b as int)),
        decreases b - a,
    {
        assert(cs@.subrange(a as int, b as int).drop_last() =~= cs@.subrange(a as int, b - 1));
        b = b - 1;
    }
    let ghost t = cs@.subrange(a as int, b as int);
    assert(trim_end(t) == t);
    while b - a >= 3 && cs[b - 3] == ' ' && cs[b - 2] == 'd' && cs[b - 1] == 'B'
        invariant
            a <= b <= hi <= cs@.len(),
            strip_db(t) == strip_db(cs@.subrange(a as int, b as int)),
        decreases b - a,
    {
        let ghost u = cs@.subrange(a as int, b as int);
        assert(u.skip(u.len() - 3) =~= " dB"@) by {
            reveal_strlit(" dB");
        }
        assert(u.take(u.len() - 3) =~= cs@.subrange(a as int, b - 3));
        b = b - 3;
    }
    proof {
        let u = cs@.subrange(a as int, b as int);
        if u.len() >= 3 {
            assert(u.skip(u.len() - 3) != " dB"@) by {
                reveal_strlit(" dB");
                if u.skip(u.len() - 3) == " dB"@ {
                    assert(u.skip(u.len() - 3)[0] == ' ');
                    assert(u.skip(u.len() - 3)[1] == 'd');
                    assert(u.skip(u.len() - 3)[2] == 'B');
                }
            }
        }
    }
    let mut out: Vec<char> = Vec::new();
    let mut k = a;
    while k < b
        invariant
            a <= k <= b <= cs@.len(),
            out@ =~= cs@.subrange(a as int, k as int),
        decreases b - k,
    {
        out.push(cs[k]);
        k = k + 1;
    }
    out
}

/// The level texts ffmpeg's `volumedetect` output reports, line by line.
pub fn volume_texts_of(output: &str) -> (res: Vec<String>)
    ensures
        res@.len() == volume_texts(lines(output@)).len(),
        forall|i: int| 0 <= i < res@.len() ==> #[trigger] res@[i]@ == volume_texts(lines(output@))[i],
{
    let ls = lines_of(output);
    let ghost l = lines(output@);
    let marker = chars_of("max_volume:");
    let mut res: Vec<String> = Vec::new();
    let mut i: usize = 0;
    while i < ls.len()
        invariant
            i <= ls@.len(),
            ls@.len() == l.len(),
            marker@ == volume_marker(),
            forall|j: int| 0 <= j < ls@.len() ==> #[trigger] ls@[j]@ == l[j],
            res@.len() == volume_texts(l.take(i as int)).len(),
            forall|j: int| 0 <= j < res@.len() ==> #[trigger] res@[j]@ == volume_texts(l.take(i as int))[j],
        decreases ls@.len() - i,
    {
        let line = &ls[i];
        let ghost lv = line@;
        proof {
            assert(l.take(i + 1).drop_last() =~= l.take(i as int));
            assert(l.take(i + 1).last() == lv);
            assert(line@.skip(0) =~= line@);
        }
        let sl = line.as_slice();
        let mk = marker.as_slice();
        assert(sl@.skip(0) =~= lv);
        assert(mk@ == volume_marker());
        proof {
            lemma_first_occurrence(lv, volume_marker());
        }
        match find_from(sl, mk, 0) {
            Some(k) => {
                assert(k + marker@.len() <= line@.len());
                assert(line@.len() == line.len());
                assert(marker@.len() == marker.len());
                let start = k + marker.len();
                assert(lv.skip(start as int) =~= line@.skip(start as int));
                let end = match find_from(sl, mk, start) {
                    Some(j) => j,
                    None => line.len(),
                };
                let field = trimmed_field(sl, start, end);
                proof {
                    assert(first_occurrence(lv, volume_marker()) == Some(k as int));
                    let after = lv.skip(start as int);
                    lemma_first_occurrence(after, volume_marker());
                    let fld = match first_occurrence(after, volume_marker()) {
                        Some(j) => after.take(j),
                        None => after,
                    };
                    match first_occurrence(after, volume_marker()) {
                        Some(j) => {
                            assert(after.take(j) =~= lv.subrange(start as int, end as int));
                        },
                        None => {
                            assert(after =~= lv.subrange(start as int, end as int));
                        },
                    }
                    assert(fld == lv.subrange(start as int, end as int));
                    assert(volume_text(lv) == Some(strip_db(trim_end(trim_start(fld)))));
                }
                assert(volume_text(lv) == Some(field@));
                let ghost prev = res@;
                res.push(string_of(field.as_slice()));
                proof {
                    assert forall|j: int| 0 <= j < res@.len() implies #[trigger] res@[j]@ == volume_texts(
                        l.take(i + 1),
                    )[j] by {
                        if j < prev.len() {
                            assert(res@[j] == prev[j]);
                        }
                    }
                }
            },
            None => {},
        }
        i = i + 1;
    }
    assert(l.take(ls@.len() as int) =~= l);
    res
}

} // verus!
