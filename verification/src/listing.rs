//! The recording-folder listing: the newest `.mp4` files first.
use vstd::prelude::*;
use crate::text::str_eq;

verus! {

/// A file found in a folder, with what the listing shows of it.
#[derive(Debug, PartialEq)]
pub struct FolderEntry {
    /// Last modification, in seconds since the Unix epoch (0 when unknown).
    pub modified_epoch: u64,
    pub size: u64,
    pub name: String,
    pub path: String,
    /// The path's extension, as the platform reads it.
    pub extension: Option<String>,
}

pub struct FileView {
    pub modified: u64,
    pub size: u64,
    pub name: Seq<char>,
    pub path: Seq<char>,
    pub extension: Option<Seq<char>>,
}

impl View for FolderEntry {
    type V = FileView;

    open spec fn view(&self) -> FileView {
        FileView {
            modified: self.modified_epoch,
            size: self.size,
            name: self.name@,
            path: self.path@,
            extension: match self.extension {
                Some(e) => Some(e@),
                None => None,
            },
        }
    }
}

pub open spec fn files_view(s: Seq<FolderEntry>) -> Seq<FileView> {
    Seq::new(s.len(), |i: int| s[i]@)
}

/// The most files a listing shows.
pub const MAX_LISTED: usize = 30;

pub open spec fn is_mp4(f: FileView) -> bool {
    f.extension == Some("mp4"@)
}

/// The `.mp4` files of `s`, in their order.
pub open spec fn mp4_only(s: Seq<FileView>) -> Seq<FileView>
    decreases s.len(),
{
    if s.len() == 0 {
        Seq::empty()
    } else if is_mp4(s.last()) {
        mp4_only(s.drop_last()).push(s.last())
    } else {
        mp4_only(s.drop_last())
    }
}

/// `f` placed into `sorted` after every file at least as new as it.
pub open spec fn insert_newest(sorted: Seq<FileView>, f: FileView) -> Seq<FileView>
    decreases sorted.len(),
{
    if sorted.len() == 0 {
        seq![f]
    } else if sorted.last().modified >= f.modified {
        sorted.push(f)
    } else {
        insert_newest(sorted.drop_last(), f).push(sorted.last())
    }
}

/// `s` ordered newest first; files modified at the same second keep their
/// order (what a stable sort by descending time gives).
pub open spec fn newest_first(s: Seq<FileView>) -> Seq<FileView>
    decreases s.len(),
{
    if s.len() == 0 {
        Seq::empty()
    } else {
        insert_newest(newest_first(s.drop_last()), s.last())
    }
}

/// What a folder listing shows of `entries`: the `.mp4` files, newest
/// first, at most `MAX_LISTED` of them.
pub open spec fn listed(entries: Seq<FileView>) -> Seq<FileView> {
    let sorted = newest_first(mp4_only(entries));
    if sorted.len() <= MAX_LISTED {
        sorted
    } else {
        sorted.take(MAX_LISTED as int)
    }
}

proof fn lemma_insert_at(sorted: Seq<FileView>, f: FileView, j: int)
    requires
        0 <= j <= sorted.len(),
        forall|k: int| j <= k < sorted.len() ==> #[trigger] sorted[k].modified < f.modified,
        j == 0 || sorted[j - 1].modified >= f.modified,
    ensures
        insert_newest(sorted, f) == sorted.take(j) + seq![f] + sorted.skip(j),
    decreases sorted.len(),
{
    if sorted.len() == 0 {
        assert(sorted.take(j) + seq![f] + sorted.skip(j) =~= seq![f]);
    } else if sorted.last().modified >= f.modified {
        assert(j == sorted.len());
        assert(sorted.take(j) + seq![f] + sorted.skip(j) =~= sorted.push(f));
    } else {
        let d = sorted.drop_last();
        assert forall|k: int| j <= k < d.len() implies #[trigger] d[k].modified < f.modified by {
            assert(d[k] == sorted[k]);
        }
        lemma_insert_at(d, f, j);
        assert(d.take(j) + seq![f] + d.skip(j) + seq![sorted.last()] =~= sorted.take(j) + seq![f]
            + sorted.skip(j));
    }
}

fn duplicate_entry(e: &FolderEntry) -> (res: FolderEntry)
    ensures
        res@ == e@,
{
    FolderEntry {
        modified_epoch: e.modified_epoch,
        size: e.size,
        name: e.name.clone(),
        path: e.path.clone(),
        extension: match &e.extension {
            Some(x) => Some(x.clone()),
            None => None,
        },
    }
}

/// The listing of a folder: its `.mp4` files, newest first (equal times
/// keep their order), cut to `MAX_LISTED`.
pub fn recent_videos(entries: &Vec<FolderEntry>) -> (res: Vec<FolderEntry>)
    ensures
        files_view(res@) == listed(files_view(entries@)),
{
    let ghost all = files_view(entries@);
    let mut out: Vec<FolderEntry> = Vec::new();
    let mut i: usize = 0;
    while i < entries.len()
        invariant
            i <= entries@.len(),
            all == files_view(entries@),
            files_view(out@) == newest_first(mp4_only(all.take(i as int))),
        decreases entries@.len() - i,
    {
        let e = &entries[i];
        let keep = match &e.extension {
            Some(x) => str_eq(x.as_str(), "mp4"),
            None => false,
        };
        proof {
            assert(all.take(i + 1).drop_last() =~= all.take(i as int));
            assert(all.take(i + 1).last() == all[i as int]);
        }
        if keep {
            let ghost before = files_view(out@);
            let mut j: usize = out.len();
            while j > 0 && out[j - 1].modified_epoch < e.modified_epoch
                invariant
                    j <= out@.len(),
                    before == files_view(out@),
                    forall|k: int| j <= k < out@.len() ==> #[trigger] before[k].modified < e.modified_epoch,
                decreases j,
            {
                j = j - 1;
            }
            proof {
                lemma_insert_at(before, e@, j as int);
            }
            out.insert(j, duplicate_entry(e));
            proof {
                assert(files_view(out@) =~= before.take(j as int) + seq![e@] + before.skip(j as int));
                assert(mp4_only(all.take(i + 1)) =~= mp4_only(all.take(i as int)).push(e@));
                assert(mp4_only(all.take(i + 1)).drop_last() =~= mp4_only(all.take(i as int)));
            }
        }
        i = i + 1;
    }
    assert(all.take(entries@.len() as int) =~= all);
    if out.len() > MAX_LISTED {
        out.truncate(MAX_LISTED);
        assert(files_view(out@) =~= newest_first(mp4_only(all)).take(MAX_LISTED as int));
    }
    out
}

/// Where `insert_newest` puts `f`: after the last file at least as new.
pub open spec fn insert_point(sorted: Seq<FileView>, f: FileView) -> int
    decreases sorted.len(),
{
    if sorted.len() == 0 {
        0
    } else if sorted.last().modified >= f.modified {
        sorted.len() as int
    } else {
        insert_point(sorted.drop_last(), f)
    }
}

proof fn lemma_insert_point(s: Seq<FileView>, f: FileView)
    ensures
        0 <= insert_point(s, f) <= s.len(),
        forall|k: int| insert_point(s, f) <= k < s.len() ==> #[trigger] s[k].modified < f.modified,
        insert_point(s, f) == 0 || s[insert_point(s, f) - 1].modified >= f.modified,
        insert_newest(s, f) == s.take(insert_point(s, f)) + seq![f] + s.skip(insert_point(s, f)),
    decreases s.len(),
{
    if s.len() > 0 && s.last().modified < f.modified {
        let d = s.drop_last();
        lemma_insert_point(d, f);
        assert forall|k: int| insert_point(s, f) <= k < s.len() implies #[trigger] s[k].modified
            < f.modified by {
            if k < s.len() - 1 {
                assert(s[k] == d[k]);
            }
        }
    }
    lemma_insert_at(s, f, insert_point(s, f));
}

/// Newer files come first.
pub open spec fn is_newest_first(s: Seq<FileView>) -> bool {
    forall|i: int, j: int| 0 <= i < j < s.len() ==> #[trigger] s[i].modified >= #[trigger] s[j].modified
}

proof fn lemma_insert_keeps_order(s: Seq<FileView>, f: FileView)
    requires
        is_newest_first(s),
    ensures
        is_newest_first(insert_newest(s, f)),
{
    lemma_insert_point(s, f);
    let j = insert_point(s, f);
    let r = insert_newest(s, f);
    assert forall|a: int, b: int| 0 <= a < b < r.len() implies #[trigger] r[a].modified
        >= #[trigger] r[b].modified by {
        if b < j {
            assert(r[a] == s[a] && r[b] == s[b]);
        } else if b == j {
            assert(r[a] == s[a]);
            assert(s[a].modified >= s[j - 1].modified);
        } else if a < j {
            assert(r[a] == s[a] && r[b] == s[b - 1]);
        } else if a == j {
            assert(r[b] == s[b - 1]);
        } else {
            assert(r[a] == s[a - 1] && r[b] == s[b - 1]);
        }
    }
}

/// Ordering newest first yields files in that order.
pub proof fn law_newest_first_sorted(s: Seq<FileView>)
    ensures
        is_newest_first(newest_first(s)),
    decreases s.len(),
{
    if s.len() > 0 {
        law_newest_first_sorted(s.drop_last());
        lemma_insert_keeps_order(newest_first(s.drop_last()), s.last());
    }
}

/// A folder listing shows its files newest first.
pub proof fn law_listing_newest_first(entries: Seq<FileView>)
    ensures
        is_newest_first(listed(entries)),
{
    law_newest_first_sorted(mp4_only(entries));
}

proof fn lemma_insert_multiset(s: Seq<FileView>, f: FileView)
    ensures
        insert_newest(s, f).to_multiset() =~= s.to_multiset().insert(f),
    decreases s.len(),
{
    broadcast use vstd::seq_lib::group_to_multiset_ensures;
    if s.len() == 0 {
        assert(seq![f] =~= s.push(f));
    } else if s.last().modified >= f.modified {
    } else {
        let d = s.drop_last();
        lemma_insert_multiset(d, f);
        assert(s =~= d.push(s.last()));
    }
}

/// Ordering loses and adds no file: the sorted files are a permutation of
/// the given ones.
pub proof fn law_newest_first_permutes(s: Seq<FileView>)
    ensures
        newest_first(s).to_multiset() =~= s.to_multiset(),
    decreases s.len(),
{
    broadcast use vstd::seq_lib::group_to_multiset_ensures;
    if s.len() == 0 {
    } else {
        let d = s.drop_last();
        law_newest_first_permutes(d);
        lemma_insert_multiset(newest_first(d), s.last());
        assert(s =~= d.push(s.last()));
    }
}

/// The `.mp4` files of `s` are `.mp4` files of `s`, no more often than `s`
/// has them, and every `.mp4` file of `s` is among them.
proof fn lemma_mp4_only(s: Seq<FileView>)
    ensures
        forall|x: FileView| #[trigger] mp4_only(s).contains(x) ==> is_mp4(x),
        mp4_only(s).to_multiset().subset_of(s.to_multiset()),
        forall|i: int| 0 <= i < s.len() && is_mp4(s[i]) ==> mp4_only(s).contains(#[trigger] s[i]),
    decreases s.len(),
{
    broadcast use vstd::seq_lib::group_to_multiset_ensures;
    broadcast use vstd::multiset::group_multiset_axioms;
    if s.len() > 0 {
        let d = s.drop_last();
        let f = s.last();
        lemma_mp4_only(d);
        assert(s =~= d.push(f));
        let m = mp4_only(s);
        let md = mp4_only(d);
        if is_mp4(f) {
            assert(m == md.push(f));
        } else {
            assert(m == md);
        }
        assert forall|x: FileView| #[trigger] m.contains(x) implies is_mp4(x) by {
            let k = choose|k: int| 0 <= k < m.len() && m[k] == x;
            if k < md.len() {
                assert(md[k] == x);
                assert(md.contains(x));
            }
        }
        assert forall|v: FileView| m.to_multiset().count(v) <= s.to_multiset().count(v) by {
            assert(md.to_multiset().count(v) <= d.to_multiset().count(v));
        }
        assert forall|i: int| 0 <= i < s.len() && is_mp4(s[i]) implies m.contains(#[trigger] s[i]) by {
            if i < s.len() - 1 {
                assert(s[i] == d[i]);
                assert(md.contains(d[i]));
                let k = choose|k: int| 0 <= k < md.len() && md[k] == d[i];
                assert(m[k] == md[k]);
            } else {
                assert(m[m.len() - 1] == f);
            }
        }
    }
}

/// A folder listing shows only `.mp4` files of the folder, no file more
/// often than the folder has it, and at most `MAX_LISTED` of them; every
/// `.mp4` file it leaves out is no newer than any file it shows, and when
/// it shows fewer than `MAX_LISTED` it leaves none out.
pub proof fn law_listing_keeps_newest(entries: Seq<FileView>)
    ensures
        listed(entries).len() <= MAX_LISTED,
        forall|x: FileView| #[trigger] listed(entries).contains(x) ==> is_mp4(x),
        listed(entries).to_multiset().subset_of(entries.to_multiset()),
        forall|i: int, j: int|
            0 <= i < entries.len() && 0 <= j < listed(entries).len() && is_mp4(entries[i])
                && !listed(entries).contains(entries[i]) ==> #[trigger] listed(entries)[j].modified
                >= #[trigger] entries[i].modified,
        listed(entries).len() < MAX_LISTED ==> forall|i: int|
            0 <= i < entries.len() && is_mp4(entries[i]) ==> listed(entries).contains(
                #[trigger] entries[i],
            ),
{
    broadcast use vstd::seq_lib::group_to_multiset_ensures;
    broadcast use vstd::multiset::group_multiset_axioms;
    let m = mp4_only(entries);
    let s = newest_first(m);
    let l = listed(entries);
    lemma_mp4_only(entries);
    law_newest_first_permutes(m);
    law_newest_first_sorted(m);
    assert(l =~= s.take(l.len() as int));
    assert(s =~= l + s.skip(l.len() as int));
    vstd::seq_lib::lemma_multiset_commutative(l, s.skip(l.len() as int));
    assert forall|x: FileView| #[trigger] l.contains(x) implies s.contains(x) by {
        let k = choose|k: int| 0 <= k < l.len() && l[k] == x;
        assert(s[k] == x);
    }
    assert forall|x: FileView| #[trigger] s.contains(x) implies m.contains(x) by {
        assert(s.to_multiset().count(x) > 0);
        assert(m.to_multiset().count(x) > 0);
    }
    assert forall|x: FileView| #[trigger] m.contains(x) implies s.contains(x) by {
        assert(m.to_multiset().count(x) > 0);
        assert(s.to_multiset().count(x) > 0);
    }
    assert forall|x: FileView| #[trigger] l.contains(x) implies is_mp4(x) by {
        assert(s.contains(x));
        assert(m.contains(x));
    }
    assert forall|v: FileView| l.to_multiset().count(v) <= entries.to_multiset().count(v) by {
        assert(l.to_multiset().count(v) <= s.to_multiset().count(v));
        assert(m.to_multiset().count(v) <= entries.to_multiset().count(v));
    }
    assert forall|i: int, j: int|
        0 <= i < entries.len() && 0 <= j < l.len() && is_mp4(entries[i]) && !l.contains(
            entries[i],
        ) implies #[trigger] l[j].modified >= #[trigger] entries[i].modified by {
        assert(m.contains(entries[i]));
        assert(s.contains(entries[i]));
        let p = choose|p: int| 0 <= p < s.len() && s[p] == entries[i];
        if p < l.len() {
            assert(l[p] == entries[i]);
            assert(l.contains(entries[i]));
        }
        assert(l[j] == s[j]);
        assert(s[j].modified >= s[p].modified);
    }
    if l.len() < MAX_LISTED {
        assert(l =~= s);
        assert forall|i: int| 0 <= i < entries.len() && is_mp4(entries[i]) implies l.contains(
            #[trigger] entries[i],
        ) by {
            assert(m.contains(entries[i]));
            assert(s.contains(entries[i]));
        }
    }
}

/// The files of `s` modified at second `t`, in their order.
pub open spec fn modified_at(s: Seq<FileView>, t: u64) -> Seq<FileView> {
    s.filter(|f: FileView| f.modified == t)
}

proof fn lemma_insert_stable(s: Seq<FileView>, f: FileView, t: u64)
    requires
        is_newest_first(s),
    ensures
        modified_at(insert_newest(s, f), t) == modified_at(s.push(f), t),
{
    let p = |x: FileView| x.modified == t;
    lemma_insert_point(s, f);
    let j = insert_point(s, f);
    let a = s.take(j);
    let b = s.skip(j);
    assert(s =~= a + b);
    Seq::filter_distributes_over_add(a + seq![f], b, p);
    Seq::filter_distributes_over_add(a, seq![f], p);
    Seq::filter_distributes_over_add(a, b, p);
    s.lemma_filter_push(f, p);
    if f.modified == t {
        assert forall|k: int| 0 <= k < b.len() implies !p(b[k]) by {
            assert(b[k] == s[j + k]);
        }
        b.lemma_all_neg_filter_empty(p);
        reveal_with_fuel(Seq::filter, 2);
        assert(seq![f].filter(p) =~= seq![f]);
        assert(s.push(f).filter(p) == s.filter(p).push(f));
    } else {
        reveal_with_fuel(Seq::filter, 2);
        assert(seq![f].filter(p) =~= Seq::<FileView>::empty());
        assert(s.push(f).filter(p) == s.filter(p));
    }
    assert(modified_at(insert_newest(s, f), t) =~= modified_at(s.push(f), t));
}

/// Ordering is stable: the files modified at any one second keep the order
/// they were found in.
pub proof fn law_newest_first_stable(s: Seq<FileView>, t: u64)
    ensures
        modified_at(newest_first(s), t) == modified_at(s, t),
    decreases s.len(),
{
    if s.len() > 0 {
        let d = s.drop_last();
        law_newest_first_stable(d, t);
        law_newest_first_sorted(d);
        lemma_insert_stable(newest_first(d), s.last(), t);
        let p = |x: FileView| x.modified == t;
        newest_first(d).lemma_filter_push(s.last(), p);
        d.lemma_filter_push(s.last(), p);
        assert(s =~= d.push(s.last()));
    }
}

} // verus!
